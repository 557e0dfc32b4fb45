use chess5dtools::board::Board;
use chess5dtools::coords::Coords;
use chess5dtools::game::Game;
use chess5dtools::info::TimelineInfo;
use chess5dtools::movement::{write_file, Move, MoveKind, Moveset, MovesetValidityErr, PartialGameGenKind};
use chess5dtools::partial_game::{no_partial_game, PartialGame};
use chess5dtools::piece::{Piece, PieceKind};
use chess5dtools::tile::Tile;

fn piece(kind: PieceKind, white: bool) -> Piece {
    Piece::new(kind, white, false)
}

/// A game with one timeline: an empty board at T0 and a board at T1 (black to move) with a
/// few black pieces and a white pawn.
fn game() -> Game {
    let mut game = Game::new(8, 8, false, vec![TimelineInfo::new(0, None, 1, 0)], vec![]);
    game.insert_board(Board::new(8, 8, 0, 0, vec![Tile::Blank; 64], None, None));
    let mut b = Board::new(8, 8, 0, 1, vec![Tile::Blank; 64], None, None);
    b.set((4, 6), Tile::Piece(piece(PieceKind::Pawn, false)));
    b.set((4, 7), Tile::Piece(piece(PieceKind::King, false)));
    b.set((7, 7), Tile::Piece(piece(PieceKind::Rook, false)));
    b.set((0, 7), Tile::Piece(piece(PieceKind::Rook, false)));
    b.set((1, 1), Tile::Piece(piece(PieceKind::Pawn, false)));
    b.set((3, 3), Tile::Piece(piece(PieceKind::Pawn, true)));
    game.insert_board(b);
    game
}

#[test]
fn move_new_deduces_the_kind() {
    let game = game();
    let pg = no_partial_game(&game);
    let push = Move::new(&game, &pg, Coords(0, 1, 4, 6), Coords(0, 1, 4, 4)).unwrap();
    assert_eq!(push.kind, MoveKind::Normal);
    assert_eq!(push.from.0, piece(PieceKind::Pawn, false));
    assert_eq!(push.to.0, None);
    let diagonal = Move::new(&game, &pg, Coords(0, 1, 4, 6), Coords(0, 1, 3, 5)).unwrap();
    assert_eq!(diagonal.kind, MoveKind::EnPassant);
    let promotion = Move::new(&game, &pg, Coords(0, 1, 1, 1), Coords(0, 1, 1, 0)).unwrap();
    assert_eq!(promotion.kind, MoveKind::Promotion);
    let castle = Move::new(&game, &pg, Coords(0, 1, 4, 7), Coords(0, 1, 6, 7)).unwrap();
    assert_eq!(castle.kind, MoveKind::Castle);
    let capture = Move::new(&game, &pg, Coords(0, 1, 4, 6), Coords(0, 1, 3, 3)).unwrap();
    assert_eq!(capture.to.0, Some(piece(PieceKind::Pawn, true)));
    assert!(capture.captures());
    assert!(!push.captures());
    assert!(!push.is_jump());
}

#[test]
fn move_new_rejects_empty_squares_and_the_wrong_color() {
    let game = game();
    let pg = no_partial_game(&game);
    assert!(Move::new(&game, &pg, Coords(0, 1, 5, 5), Coords(0, 1, 5, 4)).is_none());
    assert!(Move::new(&game, &pg, Coords(0, 1, 3, 3), Coords(0, 1, 3, 4)).is_none());
    assert!(Move::new(&game, &pg, Coords(0, 4, 3, 3), Coords(0, 1, 3, 4)).is_none());
}

#[test]
fn physical_move_creates_the_next_board() {
    let game = game();
    let pg = no_partial_game(&game);
    let mv = Move::new(&game, &pg, Coords(0, 1, 4, 6), Coords(0, 1, 4, 4)).unwrap();
    let mut new_pg = PartialGame::empty(pg.info.clone(), None);
    assert_eq!(mv.generate_partial_game(&game, &pg, &mut new_pg, PartialGameGenKind::Both), Some(()));
    assert_eq!(new_pg.info.timelines_white[0].last_board, 2);
    let b = new_pg.get_board((0, 2)).unwrap();
    assert_eq!(b.get((4, 4)), Tile::Piece(Piece::new(PieceKind::Pawn, false, true)));
    assert_eq!(b.get((4, 6)), Tile::Blank);
    assert_eq!(b.get((4, 7)), Tile::Piece(piece(PieceKind::King, false)));
    assert_eq!(b.en_passant, Some((4, 5)));
}

#[test]
fn promotion_puts_a_queen() {
    let game = game();
    let pg = no_partial_game(&game);
    let mv = Move::new(&game, &pg, Coords(0, 1, 1, 1), Coords(0, 1, 1, 0)).unwrap();
    let mut new_pg = PartialGame::empty(pg.info.clone(), None);
    assert_eq!(mv.generate_partial_game(&game, &pg, &mut new_pg, PartialGameGenKind::Both), Some(()));
    let b = new_pg.get_board((0, 2)).unwrap();
    assert_eq!(b.get((1, 0)), Tile::Piece(Piece::new(PieceKind::Queen, false, false)));
    assert_eq!(b.get((1, 1)), Tile::Blank);
    assert_eq!(b.en_passant, None);
}

#[test]
fn castling_moves_king_and_rook() {
    let game = game();
    let pg = no_partial_game(&game);
    let short = Move::new(&game, &pg, Coords(0, 1, 4, 7), Coords(0, 1, 6, 7)).unwrap();
    let mut new_pg = PartialGame::empty(pg.info.clone(), None);
    assert_eq!(short.generate_partial_game(&game, &pg, &mut new_pg, PartialGameGenKind::Both), Some(()));
    let b = new_pg.get_board((0, 2)).unwrap();
    assert_eq!(b.get((6, 7)), Tile::Piece(Piece::new(PieceKind::King, false, true)));
    assert_eq!(b.get((5, 7)), Tile::Piece(Piece::new(PieceKind::Rook, false, true)));
    assert_eq!(b.get((4, 7)), Tile::Blank);
    assert_eq!(b.get((7, 7)), Tile::Blank);

    let long = Move::new(&game, &pg, Coords(0, 1, 4, 7), Coords(0, 1, 2, 7)).unwrap();
    let mut new_pg = PartialGame::empty(pg.info.clone(), None);
    assert_eq!(long.generate_partial_game(&game, &pg, &mut new_pg, PartialGameGenKind::Both), Some(()));
    let b = new_pg.get_board((0, 2)).unwrap();
    assert_eq!(b.get((2, 7)), Tile::Piece(Piece::new(PieceKind::King, false, true)));
    assert_eq!(b.get((3, 7)), Tile::Piece(Piece::new(PieceKind::Rook, false, true)));
    assert_eq!(b.get((0, 7)), Tile::Blank);
}

#[test]
fn castling_without_rook_fails() {
    let game = game();
    let pg = no_partial_game(&game);
    let mv = Move::from_raw((piece(PieceKind::King, false), Coords(0, 1, 4, 7)), (None, Coords(0, 1, 6, 6)), MoveKind::Castle);
    let mut new_pg = PartialGame::empty(pg.info.clone(), None);
    let other_row = Move { from: (piece(PieceKind::Pawn, false), Coords(0, 1, 4, 6)), ..mv };
    assert_eq!(other_row.generate_partial_game(&game, &pg, &mut new_pg, PartialGameGenKind::Both), None);
}

#[test]
fn en_passant_without_square_fails() {
    let game = game();
    let pg = no_partial_game(&game);
    let mv = Move::new(&game, &pg, Coords(0, 1, 4, 6), Coords(0, 1, 3, 5)).unwrap();
    let mut new_pg = PartialGame::empty(pg.info.clone(), None);
    assert_eq!(mv.generate_partial_game(&game, &pg, &mut new_pg, PartialGameGenKind::Both), None);
    assert_eq!(new_pg.info.timelines_white[0].last_board, 1);
}

#[test]
fn en_passant_captures_the_passed_piece() {
    let mut game = game();
    {
        let b = game.get_board_mut((0, 1)).unwrap();
        b.set((3, 6), Tile::Piece(piece(PieceKind::Pawn, true)));
        b.set_en_passant(Some((3, 6)));
    }
    let pg = no_partial_game(&game);
    let mv = Move::new(&game, &pg, Coords(0, 1, 4, 6), Coords(0, 1, 3, 5)).unwrap();
    let mut new_pg = PartialGame::empty(pg.info.clone(), None);
    assert_eq!(mv.generate_partial_game(&game, &pg, &mut new_pg, PartialGameGenKind::Both), Some(()));
    let b = new_pg.get_board((0, 2)).unwrap();
    assert_eq!(b.get((3, 5)), Tile::Piece(Piece::new(PieceKind::Pawn, false, true)));
    assert_eq!(b.get((3, 6)), Tile::Blank);
    assert_eq!(b.get((4, 6)), Tile::Blank);
    assert_eq!(b.en_passant, None);
}

#[test]
fn jump_to_the_past_branches() {
    let game = game();
    let pg = no_partial_game(&game);
    let mv = Move::from_raw((piece(PieceKind::King, false), Coords(0, 1, 4, 7)), (None, Coords(0, 0, 4, 4)), MoveKind::Normal);
    assert!(mv.is_jump());
    let mut new_pg = PartialGame::empty(pg.info.clone(), None);
    assert_eq!(mv.generate_partial_game(&game, &pg, &mut new_pg, PartialGameGenKind::Both), Some(()));
    assert_eq!(new_pg.info.timelines_black.len(), 1);
    let new_tl = new_pg.info.timelines_black[0];
    assert_eq!(new_tl, TimelineInfo::new(-1, Some((0, 0)), 1, 1));
    assert_eq!(new_pg.info.timelines_white[0].last_board, 2);
    let source = new_pg.get_board((0, 2)).unwrap();
    assert_eq!(source.get((4, 7)), Tile::Blank);
    let target = new_pg.get_board((-1, 1)).unwrap();
    assert_eq!(target.get((4, 4)), Tile::Piece(Piece::new(PieceKind::King, false, true)));
}

#[test]
fn jump_source_only_does_not_branch() {
    let game = game();
    let pg = no_partial_game(&game);
    let mv = Move::from_raw((piece(PieceKind::King, false), Coords(0, 1, 4, 7)), (None, Coords(0, 0, 4, 4)), MoveKind::Normal);
    let mut new_pg = PartialGame::empty(pg.info.clone(), None);
    assert_eq!(mv.generate_partial_game(&game, &pg, &mut new_pg, PartialGameGenKind::Source), Some(()));
    assert_eq!(new_pg.info.timelines_black.len(), 0);
    assert!(new_pg.get_board((0, 2)).is_some());
}

#[test]
fn moveset_validity_errors() {
    let game = game();
    let info = &game.info;
    let pawn = piece(PieceKind::Pawn, false);
    let mv = |from: Coords, to: Coords| Move::from_raw((pawn, from), (None, to), MoveKind::Normal);
    assert_eq!(Moveset::new(vec![], info).err(), Some(MovesetValidityErr::NoMoves));
    let ok = mv(Coords(0, 1, 4, 6), Coords(0, 1, 4, 4));
    assert_eq!(Moveset::new(vec![ok, ok], info).err(), Some(MovesetValidityErr::TooManyMoves));
    let opp = mv(Coords(0, 0, 4, 6), Coords(0, 1, 4, 4));
    assert_eq!(Moveset::new(vec![opp], info).err(), Some(MovesetValidityErr::OpponentBoard(opp)));
    let void_from = mv(Coords(3, 1, 4, 6), Coords(0, 1, 4, 4));
    assert_eq!(Moveset::new(vec![void_from], info).err(), Some(MovesetValidityErr::MoveFromVoid(void_from)));
    let not_last = mv(Coords(0, 3, 4, 6), Coords(0, 1, 4, 4));
    assert_eq!(Moveset::new(vec![not_last], info).err(), Some(MovesetValidityErr::MoveNotFromLast(not_last)));
    let void_to = mv(Coords(0, 1, 4, 6), Coords(0, 5, 4, 4));
    assert_eq!(Moveset::new(vec![void_to], info).err(), Some(MovesetValidityErr::MoveToVoid(void_to)));
    let void_layer = mv(Coords(0, 1, 4, 6), Coords(-4, 1, 4, 4));
    assert_eq!(Moveset::new(vec![void_layer], info).err(), Some(MovesetValidityErr::MoveToVoid(void_layer)));
    let ms = Moveset::new(vec![ok], info).unwrap();
    assert_eq!(ms.moves(), &vec![ok]);
}

#[test]
fn moveset_already_played() {
    let mut game = game();
    game.info = chess5dtools::info::Info::new(
        false,
        vec![TimelineInfo::new(0, None, 1, 0), TimelineInfo::new(1, Some((0, 0)), 1, 1)],
        vec![],
    );
    let pawn = piece(PieceKind::Pawn, false);
    let a = Move::from_raw((pawn, Coords(0, 1, 4, 6)), (None, Coords(1, 1, 4, 4)), MoveKind::Normal);
    let b = Move::from_raw((pawn, Coords(1, 1, 4, 6)), (None, Coords(1, 1, 4, 4)), MoveKind::Normal);
    assert_eq!(Moveset::new(vec![a, b], &game.info).err(), Some(MovesetValidityErr::AlreadyPlayed(b)));
}

#[test]
fn moveset_generates_the_next_state() {
    let game = game();
    let pg = no_partial_game(&game);
    let mv = Move::new(&game, &pg, Coords(0, 1, 4, 6), Coords(0, 1, 4, 4)).unwrap();
    let ms = Moveset::new(vec![mv], &game.info).unwrap();
    let next = ms.generate_partial_game(&game, &pg).unwrap();
    assert_eq!(next.info.present, 2);
    assert!(next.info.active_player);
    assert!(next.parent.is_some());
    assert_eq!(next.get_board((0, 2)).unwrap().get((4, 4)), Tile::Piece(Piece::new(PieceKind::Pawn, false, true)));
}

#[test]
fn files_are_letters() {
    assert_eq!(write_file(0), 'a');
    assert_eq!(write_file(7), 'h');
    assert_eq!(write_file(22), 'w');
}

#[test]
fn moveset_equality_ignores_the_order_of_layers() {
    let mut game = game();
    game.info = chess5dtools::info::Info::new(
        false,
        vec![TimelineInfo::new(0, None, 1, 0), TimelineInfo::new(1, Some((0, 0)), 1, 1)],
        vec![],
    );
    let pawn = piece(PieceKind::Pawn, false);
    let a = Move::from_raw((pawn, Coords(0, 1, 4, 6)), (None, Coords(0, 1, 4, 4)), MoveKind::Normal);
    let b = Move::from_raw((pawn, Coords(1, 1, 4, 6)), (None, Coords(1, 1, 4, 5)), MoveKind::Normal);
    let c = Move::from_raw((pawn, Coords(1, 1, 4, 6)), (None, Coords(1, 1, 4, 4)), MoveKind::Normal);
    let ab = Moveset::new(vec![a, b], &game.info).unwrap();
    let ba = Moveset::new(vec![b, a], &game.info).unwrap();
    let ac = Moveset::new(vec![a, c], &game.info).unwrap();
    assert!(ab == ba);
    assert!(ba == ab);
    assert!(ab != ac);
    assert!(ab != Moveset::new(vec![a], &game.info).unwrap());
}

#[test]
fn moves_in_the_game_notation() {
    let pawn = piece(PieceKind::Pawn, false);
    let push = Move::from_raw((pawn, Coords(0, 1, 4, 6)), (None, Coords(0, 1, 4, 4)), MoveKind::Normal);
    assert_eq!(push.to_string(), "(L0T1)Pe7e5");
    let knight = piece(PieceKind::Knight, true);
    let jump = Move::from_raw(
        (knight, Coords(-1, 12, 1, 0)),
        (Some(pawn), Coords(0, 8, 2, 2)),
        MoveKind::Normal,
    );
    assert_eq!(jump.to_string(), "(L-1T7)Nb1>>x(L0T5)c3");
    let promote = Move::from_raw((piece(PieceKind::Pawn, true), Coords(0, 4, 0, 6)), (None, Coords(0, 4, 0, 7)), MoveKind::Promotion);
    assert_eq!(promote.to_string(), "(L0T3)Pa7a8=Q");
    let king = piece(PieceKind::King, true);
    let long = Move::from_raw((king, Coords(0, 0, 4, 0)), (None, Coords(0, 0, 2, 0)), MoveKind::Castle);
    assert_eq!(long.to_string(), "(L0T1)O-O-O");
    let short = Move::from_raw((king, Coords(2, 20, 4, 0)), (None, Coords(2, 20, 6, 0)), MoveKind::Castle);
    assert_eq!(short.to_string(), "(L2T11)O-O");
    let back = Move::from_raw((knight, Coords(0, -3, 1, 0)), (None, Coords(0, -3, 2, 2)), MoveKind::Normal);
    assert_eq!(back.to_string(), "(L0T0)Nb1c3");
}

#[test]
fn movesets_in_the_game_notation() {
    let game = game();
    let pawn = piece(PieceKind::Pawn, false);
    let push = Move::from_raw((pawn, Coords(0, 1, 4, 6)), (None, Coords(0, 1, 4, 4)), MoveKind::Normal);
    let ms = Moveset::new(vec![push], &game.info).unwrap();
    assert_eq!(ms.to_string(), "(L0T1)Pe7e5 ");
}
