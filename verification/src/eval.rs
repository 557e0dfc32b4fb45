use vstd::prelude::*;

verus! {

/// The evaluation function that evaluates every position to zero.
#[derive(Clone, Copy, Debug, PartialEq, Eq, Structural)]
pub struct NoEvalFn;

impl NoEvalFn {
    /// Creates the evaluation function.
    pub fn new() -> (res: Self)
        ensures
            res == NoEvalFn,
    {
        NoEvalFn
    }
}

/// Why no random legal moveset could be returned: the position is a checkmate or a
/// stalemate (possibly only as far as the search could tell before it timed out), or an
/// error occurred.
#[derive(Clone, Copy, Debug, PartialEq, Eq, Hash, Structural)]
pub enum RandomLegalMovesetReason {
    Checkmate,
    Stalemate,
    Error,
    TimeoutCheckmate,
    TimeoutStalemate,
}

} // verus!
