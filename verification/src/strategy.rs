use vstd::prelude::*;
use std::marker::PhantomData;
use crate::game::{coords_in_bounds, Game};
use crate::movement::{Move, MoveKind};
use crate::partial_game::PartialGame;

verus! {

/// A strategy maps a value (a move, a board, ...) to a result, given the game and the
/// partial game state it is looked at in; `None` signals an error.
pub trait Strategy<'a>: Sized + Clone {
    type From;
    type To;

    /// The result of `apply`.
    spec fn spec_apply(&self, from: Self::From, game: Game, partial_game: PartialGame<'a>) -> Option<Self::To>;

    /// Whether `apply` can be called on these arguments.
    spec fn can_apply(&self, from: Self::From, game: Game, partial_game: PartialGame<'a>) -> bool;

    fn apply(&self, from: Self::From, game: &'a Game, partial_game: &'a PartialGame<'a>) -> (res: Option<Self::To>)
        requires
            self.can_apply(from, *game, *partial_game),
        ensures
            res == self.spec_apply(from, *game, *partial_game),
    ;
}

/// A strategy returning its input.
#[derive(Copy)]
pub struct IdentityStrategy<T: Clone> {
    _phantom: PhantomData<T>,
}

impl<T: Clone> Clone for IdentityStrategy<T> {
    fn clone(&self) -> (res: Self) {
        IdentityStrategy { _phantom: PhantomData }
    }
}

impl<T: Clone> IdentityStrategy<T> {
    /// Creates the strategy.
    pub fn new() -> (res: Self) {
        IdentityStrategy { _phantom: PhantomData }
    }
}

impl<'a, T: Clone> Strategy<'a> for IdentityStrategy<T> {
    type From = T;
    type To = T;

    open spec fn spec_apply(&self, from: T, game: Game, partial_game: PartialGame<'a>) -> Option<T> {
        Some(from)
    }

    open spec fn can_apply(&self, from: T, game: Game, partial_game: PartialGame<'a>) -> bool {
        true
    }

    fn apply(&self, from: T, _game: &'a Game, _partial_game: &'a PartialGame<'a>) -> (res: Option<T>) {
        Some(from)
    }
}

/// A strategy that always returns `true`.
#[derive(Copy)]
pub struct TrueStrategy<F> {
    _phantom: PhantomData<F>,
}

impl<F> Clone for TrueStrategy<F> {
    fn clone(&self) -> (res: Self) {
        TrueStrategy { _phantom: PhantomData }
    }
}

impl<F> TrueStrategy<F> {
    /// Creates the strategy.
    pub fn new() -> (res: Self) {
        TrueStrategy { _phantom: PhantomData }
    }
}

impl<'a, F: Copy> Strategy<'a> for TrueStrategy<F> {
    type From = F;
    type To = bool;

    open spec fn spec_apply(&self, from: F, game: Game, partial_game: PartialGame<'a>) -> Option<bool> {
        Some(true)
    }

    open spec fn can_apply(&self, from: F, game: Game, partial_game: PartialGame<'a>) -> bool {
        true
    }

    fn apply(&self, _from: F, _game: &'a Game, _partial_game: &'a PartialGame<'a>) -> (res: Option<bool>) {
        Some(true)
    }
}

/// A strategy that always returns `false`.
#[derive(Copy)]
pub struct FalseStrategy<F> {
    _phantom: PhantomData<F>,
}

impl<F> Clone for FalseStrategy<F> {
    fn clone(&self) -> (res: Self) {
        FalseStrategy { _phantom: PhantomData }
    }
}

impl<F> FalseStrategy<F> {
    /// Creates the strategy.
    pub fn new() -> (res: Self) {
        FalseStrategy { _phantom: PhantomData }
    }
}

impl<'a, F: Copy> Strategy<'a> for FalseStrategy<F> {
    type From = F;
    type To = bool;

    open spec fn spec_apply(&self, from: F, game: Game, partial_game: PartialGame<'a>) -> Option<bool> {
        Some(false)
    }

    open spec fn can_apply(&self, from: F, game: Game, partial_game: PartialGame<'a>) -> bool {
        true
    }

    fn apply(&self, _from: F, _game: &'a Game, _partial_game: &'a PartialGame<'a>) -> (res: Option<bool>) {
        Some(false)
    }
}

/// The conjunction of two strategies with a common input type `F` and `bool` as output:
/// `right` is only applied if `left` returns `Some(true)`.
#[derive(Copy)]
pub struct AndStrategy<F: Copy, Left, Right> {
    pub _f: PhantomData<F>,
    pub left: Left,
    pub right: Right,
}

impl<F: Copy, Left: Clone, Right: Clone> Clone for AndStrategy<F, Left, Right> {
    fn clone(&self) -> (res: Self) {
        AndStrategy { _f: PhantomData, left: self.left.clone(), right: self.right.clone() }
    }
}

impl<F: Copy, Left, Right> AndStrategy<F, Left, Right> {
    /// Combines `left` and `right`.
    pub fn new(left: Left, right: Right) -> (res: Self)
        ensures
            res.left == left,
            res.right == right,
    {
        AndStrategy { _f: PhantomData, left, right }
    }
}

impl<'a, F: Copy, Left: Strategy<'a, From = F, To = bool>, Right: Strategy<'a, From = F, To = bool>> Strategy<'a> for AndStrategy<F, Left, Right> {
    type From = F;
    type To = bool;

    open spec fn spec_apply(&self, from: F, game: Game, partial_game: PartialGame<'a>) -> Option<bool> {
        match self.left.spec_apply(from, game, partial_game) {
            Some(true) => self.right.spec_apply(from, game, partial_game),
            Some(false) => Some(false),
            None => None,
        }
    }

    open spec fn can_apply(&self, from: F, game: Game, partial_game: PartialGame<'a>) -> bool {
        &&& self.left.can_apply(from, game, partial_game)
        &&& self.right.can_apply(from, game, partial_game)
    }

    fn apply(&self, from: F, game: &'a Game, partial_game: &'a PartialGame<'a>) -> (res: Option<bool>) {
        match self.left.apply(from, game, partial_game) {
            Some(true) => self.right.apply(from, game, partial_game),
            Some(false) => Some(false),
            None => None,
        }
    }
}

/// The disjunction of two strategies with a common input type `F` and `bool` as output:
/// `right` is only applied if `left` returns `Some(false)`.
#[derive(Copy)]
pub struct OrStrategy<F: Copy, Left, Right> {
    pub _f: PhantomData<F>,
    pub left: Left,
    pub right: Right,
}

impl<F: Copy, Left: Clone, Right: Clone> Clone for OrStrategy<F, Left, Right> {
    fn clone(&self) -> (res: Self) {
        OrStrategy { _f: PhantomData, left: self.left.clone(), right: self.right.clone() }
    }
}

impl<F: Copy, Left, Right> OrStrategy<F, Left, Right> {
    /// Combines `left` and `right`.
    pub fn new(left: Left, right: Right) -> (res: Self)
        ensures
            res.left == left,
            res.right == right,
    {
        OrStrategy { _f: PhantomData, left, right }
    }
}

impl<'a, F: Copy, Left: Strategy<'a, From = F, To = bool>, Right: Strategy<'a, From = F, To = bool>> Strategy<'a> for OrStrategy<F, Left, Right> {
    type From = F;
    type To = bool;

    open spec fn spec_apply(&self, from: F, game: Game, partial_game: PartialGame<'a>) -> Option<bool> {
        match self.left.spec_apply(from, game, partial_game) {
            Some(false) => self.right.spec_apply(from, game, partial_game),
            Some(true) => Some(true),
            None => None,
        }
    }

    open spec fn can_apply(&self, from: F, game: Game, partial_game: PartialGame<'a>) -> bool {
        &&& self.left.can_apply(from, game, partial_game)
        &&& self.right.can_apply(from, game, partial_game)
    }

    fn apply(&self, from: F, game: &'a Game, partial_game: &'a PartialGame<'a>) -> (res: Option<bool>) {
        match self.left.apply(from, game, partial_game) {
            Some(false) => self.right.apply(from, game, partial_game),
            Some(true) => Some(true),
            None => None,
        }
    }
}

/// A strategy forbidding castling moves.
#[derive(Clone, Copy)]
pub struct NoCastling;

impl<'a> Strategy<'a> for NoCastling {
    type From = Move;
    type To = bool;

    open spec fn spec_apply(&self, mv: Move, game: Game, partial_game: PartialGame<'a>) -> Option<bool> {
        Some(mv.kind != MoveKind::Castle)
    }

    open spec fn can_apply(&self, mv: Move, game: Game, partial_game: PartialGame<'a>) -> bool {
        true
    }

    fn apply(&self, mv: Move, _game: &'a Game, _partial_game: &'a PartialGame<'a>) -> (res: Option<bool>) {
        Some(mv.kind != MoveKind::Castle)
    }
}

/// A strategy forbidding time travel (a piece travelling to a board that is not the last of
/// its timeline). Jumps to last boards are still allowed.
#[derive(Clone, Copy)]
pub struct NoTimeTravel;

impl<'a> Strategy<'a> for NoTimeTravel {
    type From = Move;
    type To = bool;

    open spec fn spec_apply(&self, mv: Move, game: Game, partial_game: PartialGame<'a>) -> Option<bool> {
        if mv.from.1.0 == mv.to.1.0 && mv.from.1.1 == mv.to.1.1 {
            Some(true)
        } else {
            match partial_game.info.spec_timeline(mv.to.1.0 as int) {
                Some(tl) => Some(tl.last_board == mv.to.1.1),
                None => None,
            }
        }
    }

    open spec fn can_apply(&self, mv: Move, game: Game, partial_game: PartialGame<'a>) -> bool {
        mv.to.1.0 > isize::MIN
    }

    fn apply(&self, mv: Move, _game: &'a Game, partial_game: &'a PartialGame<'a>) -> (res: Option<bool>) {
        if mv.from.1.0 == mv.to.1.0 && mv.from.1.1 == mv.to.1.1 {
            Some(true)
        } else {
            partial_game.is_last_board(mv.to.1.non_physical())
        }
    }
}

} // verus!
