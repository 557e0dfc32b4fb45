use vstd::prelude::*;
use crate::{Layer, Time};

verus! {

/// The information needed about one timeline.
#[derive(Debug, Clone, Copy, PartialEq, Eq, Hash)]
pub struct TimelineInfo {
    /// The index of the timeline.
    pub index: Layer,
    /// The board this timeline emerges from, if any.
    pub starts_from: Option<(Layer, Time)>,
    /// The time coordinate of the last board of the timeline.
    pub last_board: Time,
    /// The time coordinate of the first board of the timeline.
    pub first_board: Time,
}

impl TimelineInfo {
    /// Creates a new `TimelineInfo` instance.
    pub fn new(index: Layer, starts_from: Option<(Layer, Time)>, last_board: Time, first_board: Time) -> (res: Self)
        ensures
            res == (TimelineInfo { index, starts_from, last_board, first_board }),
    {
        TimelineInfo { index, starts_from, last_board, first_board }
    }
}

/// The non-board data of a game state, in particular the `TimelineInfo` of each timeline.
///
/// `timelines_white` holds the timelines `0, 1, 2, ...` (`+0, 1, 2, ...` if `even_timelines`),
/// `timelines_black` holds the timelines `-1, -2, ...` (`-0, -1, ...` if `even_timelines`);
/// the timeline with layer `l < 0` is `timelines_black[-l - 1]`.
#[derive(Debug, PartialEq, Eq, Hash)]
pub struct Info {
    /// The present of the game.
    pub present: Time,
    /// Which player's turn it is (`true` for white).
    pub active_player: bool,
    /// Whether the number of starting timelines is even.
    pub even_timelines: bool,
    pub timelines_white: Vec<TimelineInfo>,
    pub timelines_black: Vec<TimelineInfo>,
}

/// `1` if `b`, `0` otherwise.
pub open spec fn b2i(b: bool) -> int {
    if b { 1 } else { 0 }
}

/// The smallest of `init` and the `last_board`s of `s`.
pub open spec fn min_last_board(s: Seq<TimelineInfo>, init: int) -> int
    decreases s.len(),
{
    if s.len() == 0 {
        init
    } else {
        let m = min_last_board(s.drop_last(), init);
        if s.last().last_board < m { s.last().last_board as int } else { m }
    }
}

/// The `last_board`s of `s`, and `init`, are all at least `min_last_board(s, init)`, which is one of them.
pub proof fn lemma_min_last_board(s: Seq<TimelineInfo>, init: int)
    ensures
        min_last_board(s, init) <= init,
        forall|i: int| 0 <= i < s.len() ==> min_last_board(s, init) <= #[trigger] s[i].last_board,
        min_last_board(s, init) == init || exists|i: int| 0 <= i < s.len() && min_last_board(s, init) == #[trigger] s[i].last_board,
    decreases s.len(),
{
    if s.len() > 0 {
        lemma_min_last_board(s.drop_last(), init);
        let m = min_last_board(s.drop_last(), init);
        assert forall|i: int| 0 <= i < s.len() implies min_last_board(s, init) <= #[trigger] s[i].last_board by {
            if i < s.len() - 1 {
                assert(s[i] == s.drop_last()[i]);
            }
        }
        if min_last_board(s, init) != init {
            if s.last().last_board < m {
                assert(min_last_board(s, init) == s[s.len() - 1].last_board);
            } else {
                let j = choose|j: int| 0 <= j < s.drop_last().len() && m == #[trigger] s.drop_last()[j].last_board;
                assert(s[j] == s.drop_last()[j]);
            }
        }
    }
}

/// The number of timelines on each side that are considered by the present:
/// `min(max_timeline, -min_timeline - even)`.
pub open spec fn active_width_of(white: Seq<TimelineInfo>, black: Seq<TimelineInfo>, even: bool) -> int {
    let w = white.len() - 1;
    let b = black.len() - b2i(even);
    if w < b { w } else { b }
}

/// The present of the timelines `white` and `black`: the smallest `last_board` of the first
/// `active_width + 2` white timelines and of the first `active_width + 1 + even` black ones.
pub open spec fn present_of(white: Seq<TimelineInfo>, black: Seq<TimelineInfo>, even: bool) -> int {
    let aw = active_width_of(white, black, even);
    let kw = aw + 2;
    let kb = aw + 1 + b2i(even);
    min_last_board(
        black.take(if kb < black.len() { kb } else { black.len() as int }),
        min_last_board(white.take(if kw < white.len() { kw } else { white.len() as int }), white[0].last_board as int),
    )
}

/// The timeline with layer `l` among `white` (layers `0, 1, ...`) and `black` (layers `-1, -2, ...`).
pub open spec fn timeline_in(white: Seq<TimelineInfo>, black: Seq<TimelineInfo>, l: int) -> Option<TimelineInfo> {
    if l < 0 {
        if -l - 1 < black.len() { Some(black[-l - 1]) } else { None }
    } else {
        if l < white.len() { Some(white[l]) } else { None }
    }
}

impl Info {
    /// The number of timelines on each side that are considered by the present:
    /// `min(max_timeline, -min_timeline - even)`.
    pub open spec fn spec_active_width(&self) -> int {
        active_width_of(self.timelines_white@, self.timelines_black@, self.even_timelines)
    }

    /// The present as derived from the timelines (see `present_of`).
    pub open spec fn spec_present(&self) -> int {
        present_of(self.timelines_white@, self.timelines_black@, self.even_timelines)
    }

    /// The timeline with layer `l`, if it exists.
    pub open spec fn spec_timeline(&self, l: int) -> Option<TimelineInfo> {
        timeline_in(self.timelines_white@, self.timelines_black@, l)
    }

    /// The number of timelines fits in a `Layer`.
    pub open spec fn within_limits(&self) -> bool {
        self.timelines_white.len() + self.timelines_black.len() <= isize::MAX
    }

    /// Creates a new `Info` instance; the present and the active player are derived from the timelines.
    /// Requires at least one white timeline, and a black one if `even_timelines`.
    pub fn new(even_timelines: bool, timelines_white: Vec<TimelineInfo>, timelines_black: Vec<TimelineInfo>) -> (res: Self)
        requires
            timelines_white.len() >= 1,
            even_timelines ==> timelines_black.len() >= 1,
            timelines_white.len() + timelines_black.len() <= isize::MAX,
        ensures
            res.even_timelines == even_timelines,
            res.timelines_white == timelines_white,
            res.timelines_black == timelines_black,
            res.present == res.spec_present(),
            res.active_player == (res.present % 2 == 0),
    {
        let mut res = Info { present: 0, active_player: true, even_timelines, timelines_white, timelines_black };
        res.recalculate_present();
        res
    }

    /// Recalculates the present (and the active player) from the timelines, and returns it.
    pub fn recalculate_present(&mut self) -> (res: Time)
        requires
            old(self).timelines_white.len() >= 1,
            old(self).even_timelines ==> old(self).timelines_black.len() >= 1,
            old(self).within_limits(),
        ensures
            res == final(self).present,
            final(self).present == old(self).spec_present(),
            final(self).active_player == (final(self).present % 2 == 0),
            final(self).even_timelines == old(self).even_timelines,
            final(self).timelines_white == old(self).timelines_white,
            final(self).timelines_black == old(self).timelines_black,
    {
        let even: Layer = if self.even_timelines { 1 } else { 0 };
        let max = self.max_timeline();
        let neg_min = -self.min_timeline() - even;
        let aw = if max < neg_min { max } else { neg_min };
        let timeline_width = aw as usize + 2;
        let kw = if timeline_width < self.timelines_white.len() { timeline_width } else { self.timelines_white.len() };
        let not_even: usize = if self.even_timelines { 0 } else { 1 };
        let kb0 = timeline_width - not_even;
        let kb = if kb0 < self.timelines_black.len() { kb0 } else { self.timelines_black.len() };
        let mut present = self.timelines_white[0].last_board;
        let ghost w = self.timelines_white@;
        let ghost b = self.timelines_black@;
        let ghost init = w[0].last_board as int;
        for i in 0..kw
            invariant
                kw <= w.len(),
                w == self.timelines_white@,
                present == min_last_board(w.take(i as int), init),
        {
            assert(w.take(i + 1).drop_last() =~= w.take(i as int));
            if self.timelines_white[i].last_board < present {
                present = self.timelines_white[i].last_board;
            }
        }
        let ghost after_white = present as int;
        for i in 0..kb
            invariant
                kb <= b.len(),
                b == self.timelines_black@,
                present == min_last_board(b.take(i as int), after_white),
        {
            assert(b.take(i + 1).drop_last() =~= b.take(i as int));
            if self.timelines_black[i].last_board < present {
                present = self.timelines_black[i].last_board;
            }
        }
        self.present = present;
        self.active_player = present % 2 == 0;
        present
    }

    /// The timeline with layer `l`, if it exists.
    pub fn get_timeline(&self, l: Layer) -> (res: Option<&TimelineInfo>)
        requires
            l > isize::MIN,
        ensures
            match res {
                Some(r) => self.spec_timeline(l as int) == Some(*r),
                None => self.spec_timeline(l as int) is None,
            },
    {
        if l < 0 {
            let i = (-l) as usize - 1;
            if i < self.timelines_black.len() { Some(&self.timelines_black[i]) } else { None }
        } else {
            let i = l as usize;
            if i < self.timelines_white.len() { Some(&self.timelines_white[i]) } else { None }
        }
    }

    /// A mutable reference to the timeline with layer `l`, if it exists; the other
    /// timelines and fields are left as they are.
    pub fn get_timeline_mut(&mut self, l: Layer) -> (res: Option<&mut TimelineInfo>)
        requires
            l > isize::MIN,
        ensures
            final(self).present == old(self).present,
            final(self).active_player == old(self).active_player,
            final(self).even_timelines == old(self).even_timelines,
            match res {
                Some(r) => {
                    &&& old(self).spec_timeline(l as int) == Some(*r)
                    &&& l < 0 ==> final(self).timelines_black@ == old(self).timelines_black@.update(-l - 1, *final(r))
                    &&& l < 0 ==> final(self).timelines_white@ == old(self).timelines_white@
                    &&& l >= 0 ==> final(self).timelines_white@ == old(self).timelines_white@.update(l as int, *final(r))
                    &&& l >= 0 ==> final(self).timelines_black@ == old(self).timelines_black@
                },
                None => {
                    &&& old(self).spec_timeline(l as int) is None
                    &&& final(self).timelines_white@ == old(self).timelines_white@
                    &&& final(self).timelines_black@ == old(self).timelines_black@
                },
            },
    {
        if l < 0 {
            let i = (-l) as usize - 1;
            if i < self.timelines_black.len() { Some(&mut self.timelines_black[i]) } else { None }
        } else {
            let i = l as usize;
            if i < self.timelines_white.len() { Some(&mut self.timelines_white[i]) } else { None }
        }
    }

    /// Whether the timeline with layer `l` is active.
    pub fn is_active(&self, l: Layer) -> (res: bool)
        requires
            l > isize::MIN,
            self.within_limits(),
        ensures
            res == self.spec_is_active(l as int),
    {
        let even: Layer = if self.even_timelines { 1 } else { 0 };
        let max = self.max_timeline();
        let neg_min = -self.min_timeline() - even;
        let timeline_width = (if max < neg_min { max } else { neg_min }) + 1;
        if l < 0 {
            if self.even_timelines {
                -l <= timeline_width + 1
            } else {
                -l <= timeline_width
            }
        } else {
            l <= timeline_width
        }
    }

    /// A timeline is active if it lies within `active_width + 1` timelines of the center
    /// (one more on black's side if `even_timelines`).
    pub open spec fn spec_is_active(&self, l: int) -> bool {
        let width = self.spec_active_width() + 1;
        if l < 0 {
            -l <= width + b2i(self.even_timelines)
        } else {
            l <= width
        }
    }

    /// The total number of timelines.
    pub fn len_timelines(&self) -> (res: usize)
        requires
            self.within_limits(),
        ensures
            res == self.timelines_white.len() + self.timelines_black.len(),
    {
        self.timelines_black.len() + self.timelines_white.len()
    }

    /// The lowest layer coordinate of a timeline: `-timelines_black.len()`.
    pub fn min_timeline(&self) -> (res: Layer)
        requires
            self.within_limits(),
        ensures
            res == -(self.timelines_black.len() as int),
    {
        -(self.timelines_black.len() as Layer)
    }

    /// The greatest layer coordinate of a timeline: `timelines_white.len() - 1`.
    pub fn max_timeline(&self) -> (res: Layer)
        requires
            self.within_limits(),
        ensures
            res == self.timelines_white.len() - 1,
    {
        self.timelines_white.len() as Layer - 1
    }

    /// The number of white timelines beyond the first one.
    pub open spec fn spec_n_white(&self) -> int {
        self.timelines_white.len() - 1
    }

    /// The number of black timelines beyond the first one (in an even game).
    pub open spec fn spec_n_black(&self) -> int {
        self.timelines_black.len() - b2i(self.even_timelines)
    }

    /// The number of active timelines that the player `white` can still create (0 if none).
    pub open spec fn spec_timeline_advantage(&self, white: bool) -> int {
        let (own, other) = if white { (self.spec_n_white(), self.spec_n_black()) } else { (self.spec_n_black(), self.spec_n_white()) };
        if own > other { 0 } else { other + 1 - own }
    }

    /// The number of inactive timelines that the player `white` has created (0 if none).
    pub open spec fn spec_timeline_debt(&self, white: bool) -> int {
        let (own, other) = if white { (self.spec_n_white(), self.spec_n_black()) } else { (self.spec_n_black(), self.spec_n_white()) };
        if own <= other + 1 { 0 } else { own - 1 - other }
    }

    /// Returns the number of active timelines that the player `white` can create;
    /// 0 if they cannot create any new active timeline.
    pub fn timeline_advantage(&self, white: bool) -> (res: usize)
        requires
            self.timelines_white.len() >= 1,
            self.even_timelines ==> self.timelines_black.len() >= 1,
            self.within_limits(),
        ensures
            res == self.spec_timeline_advantage(white),
    {
        let n_timelines_white = self.timelines_white.len() - 1;
        let n_timelines_black = self.timelines_black.len() - if self.even_timelines { 1 } else { 0 };
        if white {
            if n_timelines_white > n_timelines_black { 0 } else { n_timelines_black + 1 - n_timelines_white }
        } else {
            if n_timelines_black > n_timelines_white { 0 } else { n_timelines_white + 1 - n_timelines_black }
        }
    }

    /// Returns the number of inactive timelines that the player `white` created;
    /// 0 if they did not create any inactive timeline.
    pub fn timeline_debt(&self, white: bool) -> (res: usize)
        requires
            self.timelines_white.len() >= 1,
            self.even_timelines ==> self.timelines_black.len() >= 1,
            self.within_limits(),
        ensures
            res == self.spec_timeline_debt(white),
    {
        let n_timelines_white = self.timelines_white.len() - 1;
        let n_timelines_black = self.timelines_black.len() - if self.even_timelines { 1 } else { 0 };
        if white {
            if n_timelines_white <= n_timelines_black + 1 { 0 } else { n_timelines_white - 1 - n_timelines_black }
        } else {
            if n_timelines_black <= n_timelines_white + 1 { 0 } else { n_timelines_black - 1 - n_timelines_white }
        }
    }
}

impl Clone for Info {
    fn clone(&self) -> (res: Self)
        ensures
            res.present == self.present,
            res.active_player == self.active_player,
            res.even_timelines == self.even_timelines,
            res.timelines_white@ == self.timelines_white@,
            res.timelines_black@ == self.timelines_black@,
    {
        Info {
            present: self.present,
            active_player: self.active_player,
            even_timelines: self.even_timelines,
            timelines_white: self.timelines_white.clone(),
            timelines_black: self.timelines_black.clone(),
        }
    }
}

} // verus!
