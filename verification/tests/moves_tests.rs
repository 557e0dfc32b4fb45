use chess5dtools::board::Board;
use chess5dtools::coords::Coords;
use chess5dtools::game::Game;
use chess5dtools::info::TimelineInfo;
use chess5dtools::moves::{is_moveset_legal, probable_moves, probable_moves_for};
use chess5dtools::partial_game::no_partial_game;
use chess5dtools::piece::{Piece, PieceKind};
use chess5dtools::tile::Tile;

fn piece(kind: PieceKind, white: bool) -> Piece {
    Piece::new(kind, white, false)
}

/// A game with one timeline whose last board is at time `last`, holding `pieces` on a blank
/// 8x8 board at that time.
fn game_with(last: isize, pieces: &[((i8, i8), Piece)]) -> Game {
    let mut game = Game::new(8, 8, false, vec![TimelineInfo::new(0, None, last, 0)], vec![]);
    let mut b = Board::new(8, 8, 0, last, vec![Tile::Blank; 64], None, None);
    for (xy, p) in pieces {
        b.set(*xy, Tile::Piece(*p));
    }
    game.insert_board(b);
    game
}

#[test]
fn rook_moves_along_its_lines() {
    let rook = piece(PieceKind::Rook, true);
    let game = game_with(0, &[((0, 0), rook)]);
    let pg = no_partial_game(&game);
    let board = game.get_board((0, 0)).unwrap();
    let mut moves = Vec::new();
    assert_eq!(probable_moves_for(&game, &pg, board, &mut moves, rook, 0, 0), Some(()));
    assert_eq!(moves.len(), 14);
    assert!(moves.iter().all(|m| m.from == (rook, Coords(0, 0, 0, 0))));
    assert!(moves.iter().any(|m| m.to.1 == Coords(0, 0, 7, 0)));
    assert!(moves.iter().any(|m| m.to.1 == Coords(0, 0, 0, 7)));
}

#[test]
fn rook_stops_on_pieces() {
    let rook = piece(PieceKind::Rook, true);
    let game = game_with(0, &[((0, 0), rook), ((3, 0), piece(PieceKind::Knight, false)), ((0, 2), piece(PieceKind::Pawn, true))]);
    let pg = no_partial_game(&game);
    let board = game.get_board((0, 0)).unwrap();
    let mut moves = Vec::new();
    assert_eq!(probable_moves_for(&game, &pg, board, &mut moves, rook, 0, 0), Some(()));
    // (1,0), (2,0), capture on (3,0); (0,1) only.
    assert_eq!(moves.len(), 4);
    let capture = moves.iter().find(|m| m.to.1 == Coords(0, 0, 3, 0)).unwrap();
    assert_eq!(capture.to.0, Some(piece(PieceKind::Knight, false)));
}

#[test]
fn knight_and_pawn_moves() {
    let knight = piece(PieceKind::Knight, true);
    let pawn = piece(PieceKind::Pawn, true);
    let game = game_with(0, &[((1, 0), knight), ((4, 1), pawn), ((5, 2), piece(PieceKind::Rook, false))]);
    let pg = no_partial_game(&game);
    let board = game.get_board((0, 0)).unwrap();
    let mut moves = Vec::new();
    assert_eq!(probable_moves_for(&game, &pg, board, &mut moves, knight, 1, 0), Some(()));
    let mut targets: Vec<(i8, i8)> = moves.iter().map(|m| (m.to.1.x(), m.to.1.y())).collect();
    targets.sort();
    assert_eq!(targets, vec![(0, 2), (2, 2), (3, 1)]);
    let mut pawn_moves = vec![moves[0]];
    assert_eq!(probable_moves_for(&game, &pg, board, &mut pawn_moves, pawn, 4, 1), Some(()));
    assert_eq!(pawn_moves[0], moves[0]);
    let mut targets: Vec<(i8, i8)> = pawn_moves[1..].iter().map(|m| (m.to.1.x(), m.to.1.y())).collect();
    targets.sort();
    assert_eq!(targets, vec![(4, 2), (4, 3), (5, 2)]);
    assert!(pawn_moves[1..].iter().all(|m| m.from == (pawn, Coords(0, 0, 4, 1))));
}

#[test]
fn pawn_on_the_last_row_has_no_square_ahead() {
    let pawn = piece(PieceKind::Pawn, true);
    let game = game_with(0, &[((2, 7), pawn)]);
    let pg = no_partial_game(&game);
    let board = game.get_board((0, 0)).unwrap();
    let mut moves = Vec::new();
    assert_eq!(probable_moves_for(&game, &pg, board, &mut moves, pawn, 2, 7), None);
    assert!(moves.is_empty());
}

#[test]
fn probable_moves_of_the_player_to_move() {
    let game = game_with(0, &[((0, 0), piece(PieceKind::King, true)), ((7, 7), piece(PieceKind::King, false))]);
    let pg = no_partial_game(&game);
    let board = game.get_board((0, 0)).unwrap();
    let moves = probable_moves(&game, &pg, board).unwrap();
    assert_eq!(moves.len(), 3);
    assert!(moves.iter().all(|m| m.from.1 == Coords(0, 0, 0, 0) && m.from.0.white));
}

#[test]
fn moveset_legality() {
    let king_w = piece(PieceKind::King, true);
    let rook_b = piece(PieceKind::Rook, false);
    // White moved (the last board is black's): legal unless a black piece can take the king.
    let safe = game_with(1, &[((0, 0), king_w), ((7, 7), rook_b)]);
    assert_eq!(is_moveset_legal(&safe, &no_partial_game(&safe), true), Some(true));
    let attacked = game_with(1, &[((0, 0), king_w), ((0, 7), rook_b)]);
    assert_eq!(is_moveset_legal(&attacked, &no_partial_game(&attacked), true), Some(false));
    // A white board at the present is still to be played by white.
    let unplayed = game_with(0, &[((0, 0), king_w)]);
    assert_eq!(is_moveset_legal(&unplayed, &no_partial_game(&unplayed), true), Some(false));
}
