use chess5dtools::board::Board;
use chess5dtools::game::Game;
use chess5dtools::info::TimelineInfo;
use chess5dtools::tile::Tile;
use chess5dtools::traversal::bubble_up;

/// ```
///  /- D : +1L
///  |
/// A - B - C : 0L
/// ```
fn game() -> Game {
    let mut game = Game::new(
        8,
        8,
        false,
        vec![TimelineInfo::new(0, None, 2, 0), TimelineInfo::new(1, Some((0, 0)), 1, 1)],
        vec![],
    );
    for (l, t) in [(0, 0), (0, 1), (0, 2), (1, 1)] {
        game.insert_board(Board::new(8, 8, l, t, vec![Tile::Blank; 64], None, None));
    }
    game
}

fn record(_b: &Board, c: (isize, isize), mut path: Vec<(isize, isize)>) -> Vec<(isize, isize)> {
    path.push(c);
    path
}

#[test]
fn bubble_up_unrolls_a_timeline() {
    let game = game();
    assert_eq!(bubble_up(&game, (0, 2), record, vec![]), vec![(0, 2), (0, 1), (0, 0)]);
}

#[test]
fn bubble_up_follows_the_branch_it_emerges_from() {
    let game = game();
    assert_eq!(bubble_up(&game, (1, 1), record, vec![]), vec![(1, 1), (0, 0)]);
}

#[test]
fn bubble_up_from_a_missing_board_does_nothing() {
    let game = game();
    assert_eq!(bubble_up(&game, (1, 3), record, vec![(9, 9)]), vec![(9, 9)]);
}

#[test]
fn bubble_up_counts_boards() {
    let game = game();
    assert_eq!(bubble_up(&game, (0, 2), |_b: &Board, _c: (isize, isize), n: usize| n + 1, 0), 3);
}
