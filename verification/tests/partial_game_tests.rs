use chess5dtools::board::Board;
use chess5dtools::coords::Coords;
use chess5dtools::game::Game;
use chess5dtools::info::{Info, TimelineInfo};
use chess5dtools::partial_game::{no_partial_game, PartialGame, PartialGameStorage};
use chess5dtools::piece::{Piece, PieceKind};
use chess5dtools::tile::Tile;

fn board_with(l: isize, t: isize, x: i8, y: i8, tile: Tile) -> Board {
    let mut b = Board::new(8, 8, l, t, vec![Tile::Blank; 64], None, None);
    b.set((x, y), tile);
    b
}

fn info() -> Info {
    Info::new(false, vec![TimelineInfo::new(0, None, 1, 0), TimelineInfo::new(1, Some((0, 0)), 2, 1)], vec![])
}

fn knight() -> Tile {
    Tile::Piece(Piece::new(PieceKind::Knight, true, false))
}

#[test]
fn empty_partial_game_holds_nothing() {
    let pg = PartialGame::empty(info(), None);
    assert!(pg.get_board((0, 1)).is_none());
    assert!(pg.get_board((1, 2)).is_none());
    assert!(pg.get_board((5, 0)).is_none());
    assert_eq!(pg.iter().len(), 0);
    assert_eq!(pg.is_last_board((0, 1)), Some(true));
    assert_eq!(pg.is_last_board((0, 0)), Some(false));
    assert_eq!(pg.is_last_board((4, 0)), None);
}

#[test]
fn shallow_insert_at_the_end_of_a_timeline() {
    let mut pg = PartialGame::empty(info(), None);
    pg.insert(board_with(0, 1, 2, 2, knight()));
    assert!(matches!(pg.boards, PartialGameStorage::Shallow(_, _)));
    assert_eq!(pg.get_board((0, 1)).map(|b| b.get((2, 2))), Some(knight()));
    assert!(pg.get_board((0, 0)).is_none());
}

#[test]
fn second_board_on_a_timeline_deepens_the_storage() {
    let mut pg = PartialGame::empty(info(), None);
    pg.insert(board_with(0, 1, 2, 2, knight()));
    pg.insert(board_with(0, 0, 3, 3, knight()));
    assert!(matches!(pg.boards, PartialGameStorage::Deep(_)));
    assert_eq!(pg.get_board((0, 1)).map(|b| b.get((2, 2))), Some(knight()));
    assert_eq!(pg.get_board((0, 0)).map(|b| b.get((3, 3))), Some(knight()));
    assert_eq!(pg.iter_shallow().len(), 2);
}

#[test]
fn deepen_keeps_the_boards() {
    let mut pg = PartialGame::empty(info(), None);
    pg.insert(board_with(1, 2, 0, 0, knight()));
    pg.deepen();
    assert!(matches!(pg.boards, PartialGameStorage::Deep(_)));
    assert_eq!(pg.get_board((1, 2)).map(|b| b.get((0, 0))), Some(knight()));
    assert_eq!(pg.boards.iter().len(), 1);
}

#[test]
fn lookup_falls_back_to_the_parent() {
    let mut parent = PartialGame::empty(info(), None);
    parent.insert(board_with(1, 2, 5, 5, knight()));
    let child = PartialGame::empty(info(), Some(&parent));
    assert_eq!(child.get_board((1, 2)).map(|b| b.get((5, 5))), Some(knight()));
    assert_eq!(child.iter().len(), 1);
    assert_eq!(child.iter_shallow().len(), 0);
}

#[test]
fn lookup_with_game_prefers_the_game() {
    let mut game = Game::new(8, 8, false, vec![TimelineInfo::new(0, None, 1, 0)], vec![]);
    game.insert_board(board_with(0, 1, 1, 1, knight()));
    let mut pg = PartialGame::empty(game.info.clone(), None);
    pg.insert(board_with(0, 1, 6, 6, knight()));
    assert_eq!(pg.get_with_game(&game, Coords(0, 1, 1, 1)), knight());
    assert_eq!(pg.get_with_game(&game, Coords(0, 1, 6, 6)), Tile::Blank);
    assert_eq!(pg.get_with_game(&game, Coords(0, 3, 6, 6)), Tile::Void);
    assert!(pg.get_board_with_game(&game, (0, 1)).is_some());
}

#[test]
fn flatten_merges_the_parents() {
    let mut parent = PartialGame::empty(info(), None);
    parent.insert(board_with(1, 2, 5, 5, knight()));
    let mut child = PartialGame::empty(info(), Some(&parent));
    child.insert(board_with(0, 1, 4, 4, knight()));
    let flat = child.flatten();
    assert!(flat.parent.is_none());
    assert_eq!(flat.get_board((1, 2)).map(|b| b.get((5, 5))), Some(knight()));
    assert_eq!(flat.get_board((0, 1)).map(|b| b.get((4, 4))), Some(knight()));
    assert_eq!(flat.iter().len(), 2);
}

#[test]
fn flatten_without_parent_keeps_the_layer() {
    let mut pg = PartialGame::empty(info(), None);
    pg.insert(board_with(0, 1, 4, 4, knight()));
    let flat = pg.flatten();
    assert!(matches!(flat.boards, PartialGameStorage::Shallow(_, _)));
    assert_eq!(flat.get_board((0, 1)).map(|b| b.get((4, 4))), Some(knight()));
}

#[test]
fn own_and_opponent_boards() {
    let mut game = Game::new(8, 8, false, vec![TimelineInfo::new(0, None, 1, 0), TimelineInfo::new(1, Some((0, 0)), 2, 1)], vec![]);
    game.insert_board(board_with(0, 1, 0, 0, knight()));
    game.insert_board(board_with(1, 2, 0, 0, knight()));
    let pg = no_partial_game(&game);
    assert_eq!(pg.info.present, 1);
    assert!(!pg.info.active_player);
    let own: Vec<(isize, isize)> = pg.own_boards(&game).into_iter().map(|b| b.non_physical()).collect();
    let opponent: Vec<(isize, isize)> = pg.opponent_boards(&game).into_iter().map(|b| b.non_physical()).collect();
    assert_eq!(own, vec![(0, 1)]);
    assert_eq!(opponent, vec![(1, 2)]);
}
