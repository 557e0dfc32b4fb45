use chess5dtools::board::Board;
use chess5dtools::coords::Coords;
use chess5dtools::game::{BoardArray, Game};
use chess5dtools::info::{Info, TimelineInfo};
use chess5dtools::piece::{Piece, PieceKind};
use chess5dtools::tile::Tile;

fn blank_board(l: isize, t: isize) -> Board {
    Board::new(8, 8, l, t, vec![Tile::Blank; 64], None, None)
}

fn rook(white: bool) -> Piece {
    Piece::new(PieceKind::Rook, white, false)
}

#[test]
fn board_get_and_set() {
    let mut b = blank_board(0, 0);
    assert_eq!(b.get((3, 4)), Tile::Blank);
    assert_eq!(b.set((3, 4), Tile::Piece(rook(true))), Some(()));
    assert_eq!(b.get((3, 4)), Tile::Piece(rook(true)));
    assert_eq!(b.get((4, 3)), Tile::Blank);
    assert_eq!(b.get_unchecked((3, 4)), Tile::Piece(rook(true)));
    assert_eq!(b.pieces[3 + 8 * 4], Tile::Piece(rook(true)));
}

#[test]
fn board_get_out_of_bounds_is_void() {
    let b = blank_board(0, 0);
    assert_eq!(b.get((8, 0)), Tile::Void);
    assert_eq!(b.get((-1, 2)), Tile::Void);
    assert_eq!(b.get((0, 8)), Tile::Void);
}

#[test]
fn board_set_out_of_bounds_fails() {
    let mut b = blank_board(0, 0);
    assert_eq!(b.set((9, 0), Tile::Piece(rook(false))), None);
    assert!(b.pieces.iter().all(|t| *t == Tile::Blank));
}

#[test]
fn board_white_follows_time_parity() {
    assert!(blank_board(0, 0).white());
    assert!(!blank_board(0, 1).white());
    assert!(blank_board(-2, 4).white());
}

#[test]
fn board_accessors() {
    let mut b = Board::new(8, 8, -1, 3, vec![Tile::Blank; 64], Some((2, 5)), Some((0, 0, 7, 0)));
    assert_eq!(b.l(), -1);
    assert_eq!(b.t(), 3);
    assert_eq!(b.non_physical(), (-1, 3));
    assert_eq!(b.width(), 8);
    assert_eq!(b.height(), 8);
    assert_eq!(b.en_passant(), Some((2, 5)));
    assert_eq!(b.castle(), Some((0, 0, 7, 0)));
    b.set_en_passant(None);
    assert_eq!(b.en_passant(), None);
    b.set_castle(None);
    assert_eq!(b.castle(), None);
}

#[test]
fn board_active_uses_info() {
    let info = Info::new(
        false,
        vec![
            TimelineInfo::new(0, None, 1, 0),
            TimelineInfo::new(1, Some((0, 0)), 1, 1),
            TimelineInfo::new(2, Some((0, 0)), 1, 1),
            TimelineInfo::new(3, Some((0, 0)), 1, 1),
        ],
        vec![TimelineInfo::new(-1, Some((0, 0)), 1, 1)],
    );
    assert_eq!(info.present, 1);
    assert!(blank_board(1, 1).active(&info));
    assert!(blank_board(2, 1).active(&info));
    assert!(!blank_board(3, 1).active(&info));
    assert!(blank_board(-1, 1).active(&info));
    assert!(!blank_board(1, 2).active(&info));
}

#[test]
fn board_array_insert_and_get() {
    let mut a = BoardArray::empty();
    assert!(a.get_board((0, 0)).is_none());
    a.insert_board(blank_board(0, 0));
    a.insert_board(blank_board(0, 1));
    a.insert_board(blank_board(-1, 1));
    a.insert_board(blank_board(2, 3));
    assert_eq!(a.get_board((0, 0)).map(|b| b.non_physical()), Some((0, 0)));
    assert_eq!(a.get_board((0, 1)).map(|b| b.non_physical()), Some((0, 1)));
    assert_eq!(a.get_board((-1, 1)).map(|b| b.non_physical()), Some((-1, 1)));
    assert_eq!(a.get_board((2, 3)).map(|b| b.non_physical()), Some((2, 3)));
    assert!(a.get_board((1, 3)).is_none());
    assert!(a.get_board((0, 2)).is_none());
    assert!(a.get_board((-2, 0)).is_none());
    assert_eq!(a.get_board_unchecked((2, 3)).non_physical(), (2, 3));
}

#[test]
fn board_array_insert_replaces() {
    let mut a = BoardArray::empty();
    a.insert_board(blank_board(0, 0));
    let mut b = blank_board(0, 0);
    b.set((1, 1), Tile::Piece(rook(true)));
    a.insert_board(b);
    assert_eq!(a.get_board((0, 0)).unwrap().get((1, 1)), Tile::Piece(rook(true)));
}

#[test]
fn board_array_iter_boards_lists_each_board_once() {
    let mut a = BoardArray::empty();
    a.insert_board(blank_board(0, 0));
    a.insert_board(blank_board(1, 1));
    a.insert_board(blank_board(-1, 2));
    let mut coords: Vec<(isize, isize)> = a.iter_boards().into_iter().map(|(c, _)| c).collect();
    coords.sort();
    assert_eq!(coords, vec![(-1, 2), (0, 0), (1, 1)]);
    assert_eq!(a.iter().iter().filter(|b| b.is_some()).count(), 3);
    assert_eq!(a.into_iter().into_iter().filter(|b| b.is_some()).count(), 3);
}

#[test]
fn board_array_get_board_mut() {
    let mut a = BoardArray::empty();
    a.insert_board(blank_board(0, 0));
    if let Some(b) = a.get_board_mut((0, 0)) {
        b.set((0, 0), Tile::Piece(rook(false)));
    }
    assert_eq!(a.get_board((0, 0)).unwrap().get((0, 0)), Tile::Piece(rook(false)));
    assert!(a.get_board_mut((3, 0)).is_none());
}

#[test]
fn game_get_tiles() {
    let mut game = Game::new(8, 8, false, vec![TimelineInfo::new(0, None, 0, 0)], vec![]);
    let mut b = blank_board(0, 0);
    b.set((4, 0), Tile::Piece(Piece::new(PieceKind::King, true, false)));
    game.insert_board(b);
    assert_eq!(game.get(Coords(0, 0, 4, 0)), Tile::Piece(Piece::new(PieceKind::King, true, false)));
    assert_eq!(game.get(Coords(0, 0, 3, 0)), Tile::Blank);
    assert_eq!(game.get(Coords(0, 1, 4, 0)), Tile::Void);
    assert_eq!(game.get(Coords(0, 0, 9, 0)), Tile::Void);
    assert_eq!(game.get_unchecked(Coords(0, 0, 4, 0)), Tile::Piece(Piece::new(PieceKind::King, true, false)));
    assert!(game.get_board((0, 0)).is_some());
    assert!(game.get_board_mut((0, 0)).is_some());
    assert_eq!(game.get_board_unchecked((0, 0)).t(), 0);
    assert_eq!(game.iter_boards().len(), 1);
}

#[test]
fn board_array_keeps_wide_timelines_when_growing_back_in_time() {
    let mut a = BoardArray::empty();
    a.insert_board(blank_board(5, 4));
    a.insert_board(blank_board(-4, 6));
    a.insert_board(blank_board(0, -3));
    assert_eq!(a.get_board((5, 4)).map(|b| b.non_physical()), Some((5, 4)));
    assert_eq!(a.get_board((-4, 6)).map(|b| b.non_physical()), Some((-4, 6)));
    assert_eq!(a.get_board((0, -3)).map(|b| b.non_physical()), Some((0, -3)));
    assert!(a.get_board((1_000_000, 0)).is_none());
    assert!(a.get_board((0, -1_000_000)).is_none());
    assert!(a.get_board_mut((isize::MAX, isize::MIN)).is_none());
}
