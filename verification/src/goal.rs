use vstd::prelude::*;
use crate::game::Game;
use crate::info::Info;
use crate::movement::Moveset;
use crate::partial_game::PartialGame;
use crate::time::{exceeds, instant_elapsed, instant_now, remaining_after, remaining_after_spec, Duration, Step};
use crate::Layer;
use vstd::std_specs::iter::IteratorSpec;

verus! {

/// A condition that the branches of a tree search must fulfill. `verify` is given the
/// moveset of the branch, the game, the partial game state that the moveset leads to, and
/// the depth of the search; it returns `Some(true)` if the branch is kept, `Some(false)` if
/// it is discarded, and `None` on an error.
pub trait Goal: Sized {
    /// The result of `verify`.
    spec fn spec_verify(&self, moveset: Moveset, game: Game, partial_game: PartialGame, depth: usize) -> Option<bool>;

    /// Whether `verify` can be called on these arguments.
    spec fn can_verify(&self, moveset: Moveset, game: Game, partial_game: PartialGame, depth: usize) -> bool;

    fn verify<'b>(&self, moveset: &'b Moveset, game: &'b Game, partial_game: &'b PartialGame<'b>, depth: usize) -> (res: Option<bool>)
        requires
            self.can_verify(*moveset, *game, *partial_game, depth),
        ensures
            res == self.spec_verify(*moveset, *game, *partial_game, depth),
    ;

    /// The disjunction of this goal and `goal`.
    fn or<G>(self, goal: G) -> (res: OrGoal<Self, G>)
        returns
            (OrGoal { left: self, right: goal }),
    {
        OrGoal::new(self, goal)
    }

    /// The conjunction of this goal and `goal`.
    fn and<G>(self, goal: G) -> (res: AndGoal<Self, G>)
        returns
            (AndGoal { left: self, right: goal }),
    {
        AndGoal::new(self, goal)
    }

    /// The negation of this goal.
    fn not(self) -> (res: NotGoal<Self>)
        returns
            (NotGoal { goal: self }),
    {
        NotGoal::new(self)
    }
}

/// A goal that always returns `true`.
pub struct TrueGoal;

impl Goal for TrueGoal {
    open spec fn spec_verify(&self, moveset: Moveset, game: Game, partial_game: PartialGame, depth: usize) -> Option<bool> {
        Some(true)
    }

    open spec fn can_verify(&self, moveset: Moveset, game: Game, partial_game: PartialGame, depth: usize) -> bool {
        true
    }

    fn verify<'b>(&self, _moveset: &'b Moveset, _game: &'b Game, _partial_game: &'b PartialGame<'b>, _depth: usize) -> (res: Option<bool>) {
        Some(true)
    }
}

/// A goal that always returns `false`.
pub struct FalseGoal;

impl Goal for FalseGoal {
    open spec fn spec_verify(&self, moveset: Moveset, game: Game, partial_game: PartialGame, depth: usize) -> Option<bool> {
        Some(false)
    }

    open spec fn can_verify(&self, moveset: Moveset, game: Game, partial_game: PartialGame, depth: usize) -> bool {
        true
    }

    fn verify<'b>(&self, _moveset: &'b Moveset, _game: &'b Game, _partial_game: &'b PartialGame<'b>, _depth: usize) -> (res: Option<bool>) {
        Some(false)
    }
}

/// The negation of a goal; it fails (returns `None`) where its sub-goal does.
pub struct NotGoal<G> {
    pub goal: G,
}

impl<G> NotGoal<G> {
    /// The negation of `goal`.
    pub fn new(goal: G) -> (res: Self)
        returns
            (NotGoal { goal }),
    {
        NotGoal { goal }
    }
}

impl<G: Goal> Goal for NotGoal<G> {
    open spec fn spec_verify(&self, moveset: Moveset, game: Game, partial_game: PartialGame, depth: usize) -> Option<bool> {
        match self.goal.spec_verify(moveset, game, partial_game, depth) {
            Some(x) => Some(!x),
            None => None,
        }
    }

    open spec fn can_verify(&self, moveset: Moveset, game: Game, partial_game: PartialGame, depth: usize) -> bool {
        self.goal.can_verify(moveset, game, partial_game, depth)
    }

    fn verify<'b>(&self, moveset: &'b Moveset, game: &'b Game, partial_game: &'b PartialGame<'b>, depth: usize) -> (res: Option<bool>) {
        match self.goal.verify(moveset, game, partial_game, depth) {
            Some(x) => Some(!x),
            None => None,
        }
    }
}

/// The disjunction of two goals: `right` is only checked if `left` returns `Some(false)`.
pub struct OrGoal<Left, Right> {
    pub left: Left,
    pub right: Right,
}

impl<Left, Right> OrGoal<Left, Right> {
    /// The disjunction of `left` and `right`.
    pub fn new(left: Left, right: Right) -> (res: Self)
        returns
            (OrGoal { left, right }),
    {
        OrGoal { left, right }
    }
}

impl<Left: Goal, Right: Goal> Goal for OrGoal<Left, Right> {
    open spec fn spec_verify(&self, moveset: Moveset, game: Game, partial_game: PartialGame, depth: usize) -> Option<bool> {
        match self.left.spec_verify(moveset, game, partial_game, depth) {
            Some(false) => self.right.spec_verify(moveset, game, partial_game, depth),
            x => x,
        }
    }

    open spec fn can_verify(&self, moveset: Moveset, game: Game, partial_game: PartialGame, depth: usize) -> bool {
        &&& self.left.can_verify(moveset, game, partial_game, depth)
        &&& self.right.can_verify(moveset, game, partial_game, depth)
    }

    fn verify<'b>(&self, moveset: &'b Moveset, game: &'b Game, partial_game: &'b PartialGame<'b>, depth: usize) -> (res: Option<bool>) {
        match self.left.verify(moveset, game, partial_game, depth) {
            Some(false) => self.right.verify(moveset, game, partial_game, depth),
            x => x,
        }
    }
}

/// The conjunction of two goals: `right` is only checked if `left` returns `Some(true)`.
pub struct AndGoal<Left, Right> {
    pub left: Left,
    pub right: Right,
}

impl<Left, Right> AndGoal<Left, Right> {
    /// The conjunction of `left` and `right`.
    pub fn new(left: Left, right: Right) -> (res: Self)
        returns
            (AndGoal { left, right }),
    {
        AndGoal { left, right }
    }
}

impl<Left: Goal, Right: Goal> Goal for AndGoal<Left, Right> {
    open spec fn spec_verify(&self, moveset: Moveset, game: Game, partial_game: PartialGame, depth: usize) -> Option<bool> {
        match self.left.spec_verify(moveset, game, partial_game, depth) {
            Some(true) => self.right.spec_verify(moveset, game, partial_game, depth),
            x => x,
        }
    }

    open spec fn can_verify(&self, moveset: Moveset, game: Game, partial_game: PartialGame, depth: usize) -> bool {
        &&& self.left.can_verify(moveset, game, partial_game, depth)
        &&& self.right.can_verify(moveset, game, partial_game, depth)
    }

    fn verify<'b>(&self, moveset: &'b Moveset, game: &'b Game, partial_game: &'b PartialGame<'b>, depth: usize) -> (res: Option<bool>) {
        match self.left.verify(moveset, game, partial_game, depth) {
            Some(true) => self.right.verify(moveset, game, partial_game, depth),
            x => x,
        }
    }
}

/// A goal keeping only the branches where no timeline was created since the timelines
/// `min_timeline..=max_timeline`.
#[derive(Copy, Clone)]
pub struct NoBranching {
    pub min_timeline: Layer,
    pub max_timeline: Layer,
}

impl NoBranching {
    /// The goal for the timelines of `info`.
    pub fn new(info: &Info) -> (res: Self)
        requires
            info.within_limits(),
        ensures
            res.min_timeline == -(info.timelines_black.len() as int),
            res.max_timeline == info.timelines_white.len() - 1,
    {
        NoBranching { min_timeline: info.min_timeline(), max_timeline: info.max_timeline() }
    }
}

impl Goal for NoBranching {
    open spec fn spec_verify(&self, moveset: Moveset, game: Game, partial_game: PartialGame, depth: usize) -> Option<bool> {
        Some(
            -(partial_game.info.timelines_black.len() as int) == self.min_timeline
                && partial_game.info.timelines_white.len() - 1 == self.max_timeline,
        )
    }

    open spec fn can_verify(&self, moveset: Moveset, game: Game, partial_game: PartialGame, depth: usize) -> bool {
        partial_game.info.within_limits()
    }

    fn verify<'b>(&self, _moveset: &'b Moveset, _game: &'b Game, partial_game: &'b PartialGame<'b>, _depth: usize) -> (res: Option<bool>) {
        Some(partial_game.info.min_timeline() == self.min_timeline && partial_game.info.max_timeline() == self.max_timeline)
    }
}

/// A goal keeping only the branches where at most `max_branches` timelines were created
/// since the timelines `min_timeline..=max_timeline`.
#[derive(Copy, Clone)]
pub struct MaxBranching {
    pub min_timeline: Layer,
    pub max_timeline: Layer,
    pub max_branches: usize,
}

/// The number of timelines created since the timelines `min..=max`, in a state with the
/// timelines of `info`.
pub open spec fn branches(info: Info, min: int, max: int) -> int {
    min + info.timelines_black.len() + (info.timelines_white.len() - 1) - max
}

impl MaxBranching {
    /// The goal for the timelines of `info`, allowing `max_branches` new timelines.
    pub fn new(info: &Info, max_branches: usize) -> (res: Self)
        requires
            info.within_limits(),
        ensures
            res.min_timeline == -(info.timelines_black.len() as int),
            res.max_timeline == info.timelines_white.len() - 1,
            res.max_branches == max_branches,
    {
        MaxBranching { min_timeline: info.min_timeline(), max_timeline: info.max_timeline(), max_branches }
    }
}

impl Goal for MaxBranching {
    open spec fn spec_verify(&self, moveset: Moveset, game: Game, partial_game: PartialGame, depth: usize) -> Option<bool> {
        Some((branches(partial_game.info, self.min_timeline as int, self.max_timeline as int) as usize) <= self.max_branches)
    }

    open spec fn can_verify(&self, moveset: Moveset, game: Game, partial_game: PartialGame, depth: usize) -> bool {
        &&& partial_game.info.within_limits()
        &&& isize::MIN <= self.min_timeline + partial_game.info.timelines_black.len() <= isize::MAX
        &&& isize::MIN <= branches(partial_game.info, self.min_timeline as int, self.max_timeline as int) + self.max_timeline <= isize::MAX
        &&& isize::MIN <= branches(partial_game.info, self.min_timeline as int, self.max_timeline as int) <= isize::MAX
    }

    fn verify<'b>(&self, _moveset: &'b Moveset, _game: &'b Game, partial_game: &'b PartialGame<'b>, _depth: usize) -> (res: Option<bool>) {
        let branches = self.min_timeline - partial_game.info.min_timeline() + partial_game.info.max_timeline() - self.max_timeline;
        Some(branches as usize <= self.max_branches)
    }
}

/// Filters the branches `(moveset, partial game state)` of an iterator by a goal, with an
/// optional limit on the total time spent in `next`.
pub struct ApplyGoals<'a, 'b, G: Goal, I: Iterator<Item = (Moveset, PartialGame<'a>)>> {
    pub iterator: I,
    pub goal: &'b G,
    pub game: &'a Game,
    pub sigma: Duration,
    pub duration: Option<Duration>,
    pub depth: usize,
}

/// The verdict of `goal` on the branch `item` at `depth`.
pub open spec fn verdict<G: Goal>(goal: G, item: (Moveset, PartialGame), game: Game, depth: usize) -> Option<bool> {
    goal.spec_verify(item.0, game, item.1, depth)
}

impl<'a, 'b, G: Goal, I: Iterator<Item = (Moveset, PartialGame<'a>)>> ApplyGoals<'a, 'b, G, I> {
    /// Filters `iterator` by `goal` at depth `depth`, within `duration` if there is one.
    pub fn new(iterator: I, goal: &'b G, game: &'a Game, duration: Option<Duration>, depth: usize) -> (res: Self)
        ensures
            res.iterator == iterator,
            res.goal == goal,
            res.game == game,
            res.sigma@ == 0,
            res.sigma.wf(),
            res.duration == duration,
            res.depth == depth,
    {
        ApplyGoals { iterator, goal, game, sigma: Duration::zero(), duration, depth }
    }

    /// The time spent so far in `next`.
    pub fn elapsed(&self) -> (res: Duration)
        ensures
            res == self.sigma,
    {
        self.sigma
    }

    /// The time remaining out of the duration, if there is one.
    pub fn remaining(&self) -> (res: Option<Duration>)
        requires
            self.sigma.wf(),
            self.duration matches Some(d) ==> d.wf(),
        ensures
            match self.duration {
                Some(d) => res matches Some(r) && r.wf() && r@ == remaining_after_spec(d@, self.sigma@),
                None => res is None,
            },
    {
        match self.duration {
            Some(duration) => Some(remaining_after(duration, self.sigma)),
            None => None,
        }
    }

    /// Whether the time spent exceeds the duration; the iterator then only yields `None`.
    pub fn timed_out(&self) -> (res: bool)
        requires
            self.sigma.wf(),
            self.duration matches Some(d) ==> d.wf(),
        ensures
            res == (self.duration matches Some(d) && self.sigma@ > d@),
    {
        match self.duration {
            Some(duration) => exceeds(self.sigma, duration),
            None => false,
        }
    }

    /// Yields the next branch of the underlying iterator that the goal keeps. It stops with
    /// `None` when the underlying iterator ends, when the goal fails on a branch, or, if there
    /// is a duration, once the time spent (including this call) exceeds it; the time taken by
    /// this call is added to the time spent. The underlying iterator must be finite.
    pub fn next(&mut self) -> (res: Option<(Moveset, PartialGame<'a>)>)
        requires
            old(self).sigma.wf(),
            old(self).duration matches Some(d) ==> d.wf(),
            old(self).iterator.obeys_prophetic_iter_laws(),
            old(self).iterator.decrease() is Some,
            forall|i: int| 0 <= i < old(self).iterator.remaining().len() ==> {
                let item = #[trigger] old(self).iterator.remaining()[i];
                old(self).goal.can_verify(item.0, *old(self).game, item.1, old(self).depth)
            },
        ensures
            final(self).sigma.wf(),
            final(self).sigma@ >= old(self).sigma@,
            final(self).goal == old(self).goal,
            final(self).game == old(self).game,
            final(self).duration == old(self).duration,
            final(self).depth == old(self).depth,
            (old(self).duration matches Some(d) && old(self).sigma@ > d@) ==> res is None && final(self).iterator == old(self).iterator,
            exists|k: int| 0 <= k <= old(self).iterator.remaining().len() && {
                &&& #[trigger] final(self).iterator.remaining() == old(self).iterator.remaining().skip(k)
                &&& final(self).iterator.obeys_prophetic_iter_laws()
                &&& forall|i: int| 0 <= i < k - 1 ==> #[trigger] verdict(*old(self).goal, old(self).iterator.remaining()[i], *old(self).game, old(self).depth) == Some(false)
                &&& (res matches Some(item) ==> k >= 1 && item == old(self).iterator.remaining()[k - 1]
                    && verdict(*old(self).goal, item, *old(self).game, old(self).depth) == Some(true))
                &&& (res is None && k >= 1 ==> verdict(*old(self).goal, old(self).iterator.remaining()[k - 1], *old(self).game, old(self).depth) != Some(true))
                &&& (res is None && old(self).duration is None ==> k == old(self).iterator.remaining().len()
                    || verdict(*old(self).goal, old(self).iterator.remaining()[k - 1], *old(self).game, old(self).depth) is None)
            },
    {
        let start = instant_now();
        let ghost first = self.iterator.remaining();
        let ghost mut k: int = 0;
        let ghost sigma0 = self.sigma;
        let ghost goal = *self.goal;
        let ghost game = *self.game;
        let ghost depth = self.depth;
        let mut res: Option<(Moveset, PartialGame<'a>)> = None;
        loop
            invariant_except_break
                self.iterator.decrease() is Some,
                res is None,
                k == 0 || verdict(goal, first[k - 1], game, depth) == Some(false),
            invariant
                self.sigma == sigma0,
                sigma0 == old(self).sigma,
                sigma0.wf(),
                self.duration == old(self).duration,
                self.duration matches Some(d) ==> d.wf(),
                self.goal == old(self).goal,
                self.game == old(self).game,
                self.depth == old(self).depth,
                goal == *self.goal,
                game == *self.game,
                depth == self.depth,
                first == old(self).iterator.remaining(),
                0 <= k <= first.len(),
                self.iterator.obeys_prophetic_iter_laws(),
                self.iterator.remaining() == first.skip(k),
                forall|i: int| 0 <= i < first.len() ==> {
                    let item = #[trigger] first[i];
                    goal.can_verify(item.0, game, item.1, depth)
                },
                forall|i: int| 0 <= i < k - 1 ==> #[trigger] verdict(goal, first[i], game, depth) == Some(false),
                (self.duration matches Some(d) && sigma0@ > d@) ==> k == 0 && self.iterator == old(self).iterator,
            ensures
                (self.duration matches Some(d) && sigma0@ > d@) ==> res is None,
                res matches Some(item) ==> k >= 1 && item == first[k - 1] && verdict(goal, item, game, depth) == Some(true),
                res is None && k >= 1 ==> verdict(goal, first[k - 1], game, depth) != Some(true),
                res is None && self.duration is None ==> k == first.len() || verdict(goal, first[k - 1], game, depth) is None,
            decreases self.iterator.decrease()->0,
        {
            let spent = match self.duration {
                Some(_) => self.sigma.saturating_add(&instant_elapsed(&start)),
                None => self.sigma,
            };
            assert(spent@ >= sigma0@);
            let ghost before = self.iterator.remaining();
            assert(before.len() > 0 ==> before[0] == first[k]);
            match self.step(spent) {
                Step::Yield(item) => {
                    proof {
                        assert(first.skip(k).drop_first() =~= first.skip(k + 1));
                        k = k + 1;
                    }
                    res = Some(item);
                    break;
                },
                Step::Skip => {
                    proof {
                        assert(first.skip(k).drop_first() =~= first.skip(k + 1));
                        k = k + 1;
                    }
                },
                Step::Stop => {
                    proof {
                        if !(self.duration matches Some(d) && spent@ > d@) {
                            assert(k == first.len());
                        }
                    }
                    break;
                },
                Step::Fail => {
                    proof {
                        assert(first.skip(k).drop_first() =~= first.skip(k + 1));
                        k = k + 1;
                    }
                    break;
                },
            }
        }
        let spent = instant_elapsed(&start);
        self.sigma = self.sigma.saturating_add(&spent);
        res
    }

    /// One round of `next` once the time spent (including this call so far) has been read:
    /// `Stop`, leaving the iterator as it is, if there is a duration and the time spent exceeds
    /// it; otherwise the next branch of the underlying iterator is taken and the goal decides:
    /// yielded if it keeps it, skipped if it discards it, `Fail` if the goal fails on it
    /// (`Stop` if there is no branch left).
    pub fn step(&mut self, spent: Duration) -> (res: Step<(Moveset, PartialGame<'a>)>)
        requires
            spent.wf(),
            old(self).duration matches Some(d) ==> d.wf(),
            old(self).iterator.obeys_prophetic_iter_laws(),
            old(self).iterator.remaining().len() > 0 ==> {
                let item = old(self).iterator.remaining()[0];
                old(self).goal.can_verify(item.0, *old(self).game, item.1, old(self).depth)
            },
        ensures
            final(self).sigma == old(self).sigma,
            final(self).goal == old(self).goal,
            final(self).game == old(self).game,
            final(self).duration == old(self).duration,
            final(self).depth == old(self).depth,
            (old(self).duration matches Some(d) && spent@ > d@) ==> res is Stop && final(self).iterator == old(self).iterator,
            !(old(self).duration matches Some(d) && spent@ > d@) ==> {
                &&& final(self).iterator.obeys_prophetic_iter_laws()
                &&& if old(self).iterator.remaining().len() == 0 {
                    res is Stop && final(self).iterator.remaining() == old(self).iterator.remaining()
                } else {
                    let item = old(self).iterator.remaining()[0];
                    let v = verdict(*old(self).goal, item, *old(self).game, old(self).depth);
                    &&& final(self).iterator.remaining() == old(self).iterator.remaining().drop_first()
                    &&& old(self).iterator.decrease() is Some ==> final(self).iterator.decrease() is Some
                        && final(self).iterator.decrease()->0 < old(self).iterator.decrease()->0
                    &&& res == match v {
                        Some(true) => Step::Yield(item),
                        Some(false) => Step::Skip,
                        None => Step::Fail,
                    }
                }
            },
    {
        match self.duration {
            Some(duration) => {
                if exceeds(spent, duration) {
                    return Step::Stop;
                }
            },
            None => {},
        }
        let ghost before = self.iterator.remaining();
        match self.iterator.next() {
            Some(item) => {
                assert(item == before[0]);
                match self.goal.verify(&item.0, self.game, &item.1, self.depth) {
                    Some(true) => Step::Yield(item),
                    Some(false) => Step::Skip,
                    None => Step::Fail,
                }
            },
            None => Step::Stop,
        }
    }
}

} // verus!
