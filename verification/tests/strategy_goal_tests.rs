use chess5dtools::coords::Coords;
use chess5dtools::game::Game;
use chess5dtools::goal::{AndGoal, ApplyGoals, FalseGoal, Goal, MaxBranching, NoBranching, NotGoal, OrGoal, TrueGoal};
use chess5dtools::time::{Duration, Step};
use chess5dtools::info::{Info, TimelineInfo};
use chess5dtools::movement::{Move, MoveKind, Moveset};
use chess5dtools::partial_game::{no_partial_game, PartialGame};
use chess5dtools::piece::{Piece, PieceKind};
use chess5dtools::strategy::{AndStrategy, FalseStrategy, IdentityStrategy, NoCastling, NoTimeTravel, OrStrategy, Strategy, TrueStrategy};

fn setup() -> Game {
    Game::new(8, 8, false, vec![TimelineInfo::new(0, None, 1, 0)], vec![])
}

fn king_move(to: Coords, kind: MoveKind) -> Move {
    Move::from_raw((Piece::new(PieceKind::King, false, false), Coords(0, 1, 4, 7)), (None, to), kind)
}

#[test]
fn basic_strategies() {
    let game = setup();
    let pg = no_partial_game(&game);
    assert_eq!(IdentityStrategy::<u8>::new().apply(7, &game, &pg), Some(7));
    assert_eq!(TrueStrategy::<u8>::new().apply(7, &game, &pg), Some(true));
    assert_eq!(FalseStrategy::<u8>::new().apply(7, &game, &pg), Some(false));
}

#[test]
fn combined_strategies() {
    let game = setup();
    let pg = no_partial_game(&game);
    let and = AndStrategy::new(TrueStrategy::<u8>::new(), FalseStrategy::<u8>::new());
    assert_eq!(and.apply(1, &game, &pg), Some(false));
    let or = OrStrategy::new(FalseStrategy::<u8>::new(), TrueStrategy::<u8>::new());
    assert_eq!(or.apply(1, &game, &pg), Some(true));
    let both = AndStrategy::new(TrueStrategy::<u8>::new(), TrueStrategy::<u8>::new());
    assert_eq!(both.apply(1, &game, &pg), Some(true));
    let neither = OrStrategy::new(FalseStrategy::<u8>::new(), FalseStrategy::<u8>::new());
    assert_eq!(neither.apply(1, &game, &pg), Some(false));
}

#[test]
fn move_strategies() {
    let game = setup();
    let pg = no_partial_game(&game);
    let castle = king_move(Coords(0, 1, 6, 7), MoveKind::Castle);
    let step = king_move(Coords(0, 1, 4, 6), MoveKind::Normal);
    assert_eq!(NoCastling.apply(castle, &game, &pg), Some(false));
    assert_eq!(NoCastling.apply(step, &game, &pg), Some(true));
    assert_eq!(NoTimeTravel.apply(step, &game, &pg), Some(true));
    let to_last = king_move(Coords(0, 1, 4, 4), MoveKind::Normal);
    let travel = king_move(Coords(0, 0, 4, 4), MoveKind::Normal);
    let void = king_move(Coords(3, 0, 4, 4), MoveKind::Normal);
    assert_eq!(NoTimeTravel.apply(to_last, &game, &pg), Some(true));
    assert_eq!(NoTimeTravel.apply(Move { to: (None, Coords(0, 0, 4, 4)), ..to_last }, &game, &pg), Some(false));
    assert_eq!(NoTimeTravel.apply(travel, &game, &pg), Some(false));
    assert_eq!(NoTimeTravel.apply(void, &game, &pg), None);
}

fn moveset(info: &Info) -> Moveset {
    Moveset::new(vec![king_move(Coords(0, 1, 4, 6), MoveKind::Normal)], info).unwrap()
}

#[test]
fn basic_goals() {
    let game = setup();
    let pg = no_partial_game(&game);
    let ms = moveset(&game.info);
    assert_eq!(TrueGoal.verify(&ms, &game, &pg, 0), Some(true));
    assert_eq!(FalseGoal.verify(&ms, &game, &pg, 0), Some(false));
    assert_eq!(NotGoal::new(TrueGoal).verify(&ms, &game, &pg, 0), Some(false));
    assert_eq!(OrGoal::new(FalseGoal, TrueGoal).verify(&ms, &game, &pg, 0), Some(true));
    assert_eq!(AndGoal::new(TrueGoal, FalseGoal).verify(&ms, &game, &pg, 0), Some(false));
    assert_eq!(TrueGoal.not().verify(&ms, &game, &pg, 0), Some(false));
    assert_eq!(FalseGoal.or(TrueGoal).verify(&ms, &game, &pg, 0), Some(true));
    assert_eq!(TrueGoal.and(TrueGoal).verify(&ms, &game, &pg, 0), Some(true));
    assert_eq!(NotGoal::new(NotGoal::new(FalseGoal)).verify(&ms, &game, &pg, 0), Some(false));
    assert_eq!(NotGoal::new(NotGoal::new(TrueGoal)).verify(&ms, &game, &pg, 0), Some(true));
}

#[test]
fn branching_goals() {
    let game = setup();
    let pg = no_partial_game(&game);
    let ms = moveset(&game.info);
    let no_branching = NoBranching::new(&game.info);
    assert_eq!((no_branching.min_timeline, no_branching.max_timeline), (0, 0));
    assert_eq!(no_branching.verify(&ms, &game, &pg, 1), Some(true));
    let branched_info = Info::new(false, vec![TimelineInfo::new(0, None, 2, 0)], vec![TimelineInfo::new(-1, Some((0, 0)), 1, 1)]);
    let branched = PartialGame::empty(branched_info, None);
    assert_eq!(no_branching.verify(&ms, &game, &branched, 1), Some(false));
    let max_one = MaxBranching::new(&game.info, 1);
    assert_eq!(max_one.verify(&ms, &game, &branched, 1), Some(true));
    let max_zero = MaxBranching::new(&game.info, 0);
    assert_eq!(max_zero.verify(&ms, &game, &branched, 1), Some(false));
    assert_eq!(max_zero.verify(&ms, &game, &pg, 1), Some(true));
}

fn branches(game: &Game) -> Vec<(Moveset, PartialGame<'static>)> {
    let branched_info = || Info::new(false, vec![TimelineInfo::new(0, None, 2, 0)], vec![TimelineInfo::new(-1, Some((0, 0)), 1, 1)]);
    vec![
        (moveset(&game.info), PartialGame::empty(branched_info(), None)),
        (moveset(&game.info), no_partial_game(game)),
        (moveset(&game.info), PartialGame::empty(branched_info(), None)),
    ]
}

#[test]
fn apply_goals_keeps_the_branches_the_goal_accepts() {
    let game = setup();
    let goal = NoBranching::new(&game.info);
    let mut filter = ApplyGoals::new(branches(&game).into_iter(), &goal, &game, None, 1);
    assert!(!filter.timed_out());
    assert_eq!(filter.remaining(), None);
    let (_, pg) = filter.next().unwrap();
    assert_eq!(pg.info.min_timeline(), 0);
    assert!(filter.next().is_none());
    assert!(filter.next().is_none());
}

#[test]
fn apply_goals_with_a_goal_that_rejects_everything() {
    let game = setup();
    let goal = FalseGoal;
    let mut filter = ApplyGoals::new(branches(&game).into_iter(), &goal, &game, Some(Duration::new(3600, 0)), 1);
    assert!(filter.next().is_none());
    assert_eq!(filter.iterator.len(), 0);
    assert!(filter.elapsed() == filter.sigma);
    assert!(!filter.timed_out());
}

#[test]
fn apply_goals_stops_once_timed_out() {
    let game = setup();
    let goal = TrueGoal;
    let mut filter = ApplyGoals::new(branches(&game).into_iter(), &goal, &game, Some(Duration::new(1, 0)), 1);
    filter.sigma = Duration::new(2, 0);
    assert!(filter.timed_out());
    assert_eq!(filter.remaining(), Some(Duration::zero()));
    assert!(filter.next().is_none());
    assert_eq!(filter.iterator.len(), 3);
}

#[test]
fn apply_goals_steps() {
    let game = setup();
    let goal = NoBranching::new(&game.info);
    let mut filter = ApplyGoals::new(branches(&game).into_iter(), &goal, &game, Some(Duration::new(1, 0)), 1);
    assert!(matches!(filter.step(Duration::new(2, 0)), Step::Stop));
    assert_eq!(filter.iterator.len(), 3);
    assert!(matches!(filter.step(Duration::zero()), Step::Skip));
    assert!(matches!(filter.step(Duration::zero()), Step::Yield(_)));
    assert!(matches!(filter.step(Duration::zero()), Step::Skip));
    assert!(matches!(filter.step(Duration::zero()), Step::Stop));
}
