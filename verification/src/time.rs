use vstd::prelude::*;
use std::time::Instant;
use vstd::std_specs::iter::IteratorSpec;

verus! {

/// The number of nanoseconds in a second.
pub const NANOS_PER_SEC: u32 = 1_000_000_000;

/// A span of time: whole seconds and the nanoseconds below one second.
#[derive(Clone, Copy, Debug, PartialEq, Eq, Hash, Structural)]
pub struct Duration {
    pub secs: u64,
    pub nanos: u32,
}

impl View for Duration {
    type V = nat;

    /// The span, in nanoseconds.
    open spec fn view(&self) -> nat {
        (self.secs * 1_000_000_000 + self.nanos) as nat
    }
}

/// The largest span of time that a `Duration` can hold.
pub open spec fn max_duration() -> nat {
    (u64::MAX as nat) * 1_000_000_000 + 999_999_999
}

impl Duration {
    /// The nanoseconds lie below one second.
    pub open spec fn wf(&self) -> bool {
        self.nanos < NANOS_PER_SEC
    }

    /// Creates a span of `secs` seconds and `nanos` nanoseconds; nanoseconds beyond one
    /// second carry over into the seconds, which must not overflow.
    pub fn new(secs: u64, nanos: u32) -> (res: Self)
        requires
            secs as int + (nanos / NANOS_PER_SEC) as int <= u64::MAX,
        ensures
            res.wf(),
            res@ == secs * 1_000_000_000 + nanos,
    {
        let extra = nanos / NANOS_PER_SEC;
        let rest = nanos % NANOS_PER_SEC;
        let res = Duration { secs: secs + extra as u64, nanos: rest };
        proof {
            assert(extra * 1_000_000_000 + rest == nanos);
            assert((secs + extra) * 1_000_000_000 == secs * 1_000_000_000 + extra * 1_000_000_000) by (nonlinear_arith);
        }
        res
    }

    /// The empty span.
    pub fn zero() -> (res: Self)
        ensures
            res.wf(),
            res@ == 0,
    {
        Duration { secs: 0, nanos: 0 }
    }

    /// Whether `self` is longer than `other`.
    pub fn gt(&self, other: &Duration) -> (res: bool)
        requires
            self.wf(),
            other.wf(),
        ensures
            res == (self@ > other@),
    {
        proof { lemma_view_order(*self, *other); }
        self.secs > other.secs || (self.secs == other.secs && self.nanos > other.nanos)
    }

    /// `self - other`, or the empty span if `other` is longer.
    pub fn saturating_sub(&self, other: &Duration) -> (res: Duration)
        requires
            self.wf(),
            other.wf(),
        ensures
            res.wf(),
            res@ == if self@ > other@ { self@ - other@ } else { 0 },
    {
        proof { lemma_view_order(*self, *other); }
        if !(self.secs > other.secs || (self.secs == other.secs && self.nanos > other.nanos)) {
            return Duration { secs: 0, nanos: 0 };
        }
        if self.nanos >= other.nanos {
            let res = Duration { secs: self.secs - other.secs, nanos: self.nanos - other.nanos };
            proof {
                assert((self.secs - other.secs) * 1_000_000_000 == self.secs * 1_000_000_000 - other.secs * 1_000_000_000) by (nonlinear_arith);
            }
            res
        } else {
            let res = Duration { secs: self.secs - other.secs - 1, nanos: self.nanos + NANOS_PER_SEC - other.nanos };
            proof {
                assert((self.secs - other.secs - 1) * 1_000_000_000 == self.secs * 1_000_000_000 - other.secs * 1_000_000_000 - 1_000_000_000) by (nonlinear_arith);
            }
            res
        }
    }

    /// `self + other`, or the largest span if the sum does not fit.
    pub fn saturating_add(&self, other: &Duration) -> (res: Duration)
        requires
            self.wf(),
            other.wf(),
        ensures
            res.wf(),
            res@ == if self@ + other@ <= max_duration() { self@ + other@ } else { max_duration() },
    {
        let nanos = self.nanos + other.nanos;
        let carry: u64 = if nanos >= NANOS_PER_SEC { 1 } else { 0 };
        let rest: u32 = if nanos >= NANOS_PER_SEC { nanos - NANOS_PER_SEC } else { nanos };
        proof {
            assert(self@ + other@ == (self.secs + other.secs + carry) * 1_000_000_000 + rest) by (nonlinear_arith)
                requires
                    self@ == self.secs * 1_000_000_000 + self.nanos,
                    other@ == other.secs * 1_000_000_000 + other.nanos,
                    self.nanos + other.nanos == carry * 1_000_000_000 + rest;
        }
        if self.secs as u128 + other.secs as u128 + carry as u128 > u64::MAX as u128 {
            proof {
                assert((self.secs + other.secs + carry) * 1_000_000_000 + rest > max_duration()) by (nonlinear_arith)
                    requires
                        self.secs + other.secs + carry >= u64::MAX + 1,
                        rest >= 0;
            }
            Duration { secs: u64::MAX, nanos: NANOS_PER_SEC - 1 }
        } else {
            proof {
                assert((self.secs + other.secs + carry) * 1_000_000_000 + rest <= max_duration()) by (nonlinear_arith)
                    requires
                        self.secs + other.secs + carry <= u64::MAX,
                        rest < 1_000_000_000;
            }
            Duration { secs: self.secs + other.secs + carry, nanos: rest }
        }
    }
}

/// Comparing well formed spans by their seconds, then their nanoseconds, compares their lengths.
proof fn lemma_view_order(a: Duration, b: Duration)
    requires
        a.wf(),
        b.wf(),
    ensures
        (a@ > b@) == (a.secs > b.secs || (a.secs == b.secs && a.nanos > b.nanos)),
        (a@ == b@) == (a.secs == b.secs && a.nanos == b.nanos),
{
    if a.secs > b.secs {
        assert(a.secs * 1_000_000_000 >= b.secs * 1_000_000_000 + 1_000_000_000) by (nonlinear_arith)
            requires
                a.secs >= b.secs + 1;
    } else if a.secs < b.secs {
        assert(b.secs * 1_000_000_000 >= a.secs * 1_000_000_000 + 1_000_000_000) by (nonlinear_arith)
            requires
                b.secs >= a.secs + 1;
    }
}

/// `std::time::Instant`, an instant of the system's monotonic clock, held opaquely.
#[verifier::external_type_specification]
#[verifier::external_body]
pub struct ExInstant(Instant);

/// `Instant::now`: the current instant. Nothing is stated of it, as it depends on the clock.
#[verifier::external_body]
pub(crate) fn instant_now() -> (res: Instant) {
    Instant::now()
}

/// `Instant::elapsed`: the time elapsed since `instant`, converted one for one to a `Duration`.
/// Only that the result is a well formed span is stated, as it depends on the clock.
#[verifier::external_body]
pub(crate) fn instant_elapsed(instant: &Instant) -> (res: Duration)
    ensures
        res.wf(),
{
    let d = instant.elapsed();
    Duration { secs: d.as_secs(), nanos: d.subsec_nanos() }
}

/// `Iterator::size_hint` of an iterator: bounds on the number of items it has left. The
/// trait does not guarantee them, and nothing is stated of them.
#[verifier::external_body]
fn inner_size_hint<J: Iterator>(iterator: &J) -> (res: (usize, Option<usize>)) {
    iterator.size_hint()
}

/// The time remaining out of `duration` once `elapsed` has passed (none if it has passed beyond).
pub open spec fn remaining_after_spec(duration: nat, elapsed: nat) -> nat {
    if elapsed > duration { 0 } else { (duration - elapsed) as nat }
}

/// The time remaining out of `duration` once `elapsed` has passed (none if it has passed beyond).
pub fn remaining_after(duration: Duration, elapsed: Duration) -> (res: Duration)
    requires
        duration.wf(),
        elapsed.wf(),
    ensures
        res.wf(),
        res@ == remaining_after_spec(duration@, elapsed@),
{
    if elapsed.gt(&duration) {
        Duration::zero()
    } else {
        duration.saturating_sub(&elapsed)
    }
}

/// Whether `elapsed` exceeds `duration`.
pub fn exceeds(elapsed: Duration, duration: Duration) -> (res: bool)
    requires
        duration.wf(),
        elapsed.wf(),
    ensures
        res == (elapsed@ > duration@),
{
    elapsed.gt(&duration)
}

/// The outcome of one round of a filtering iterator.
pub enum Step<T> {
    /// An item to yield.
    Yield(T),
    /// An item was taken and left out; the iterator goes on.
    Skip,
    /// The iterator stops here, without taking an item.
    Stop,
    /// An item was taken, and the iterator stops on it.
    Fail,
}

/// An iterator with a maximum duration, measured from the first call to `next`: once the
/// time elapsed since then exceeds `duration`, it stops.
pub struct Timed<J: Iterator> {
    pub iterator: J,
    pub start: Option<Instant>,
    pub duration: Duration,
}

impl<J: Iterator> Timed<J> {
    /// Creates a new `Timed` iterator with the given duration; the timer starts at the first call to `next`.
    pub fn new(iterator: J, duration: Duration) -> (res: Self)
        ensures
            res.iterator == iterator,
            res.start is None,
            res.duration == duration,
    {
        Timed { iterator, start: None, duration }
    }

    /// Creates a new `Timed` iterator with the given duration and start.
    pub fn with_start(iterator: J, start: Option<Instant>, duration: Duration) -> (res: Self)
        ensures
            res.iterator == iterator,
            res.start == start,
            res.duration == duration,
    {
        Timed { iterator, start, duration }
    }

    /// The time elapsed since the start of the timer, or `None` if it has not started yet.
    pub fn elapsed(&self) -> (res: Option<Duration>)
        ensures
            res is Some <==> self.start is Some,
            res matches Some(d) ==> d.wf(),
    {
        match &self.start {
            Some(instant) => Some(instant_elapsed(instant)),
            None => None,
        }
    }

    /// The remaining time, or `None` if the timer has not started yet.
    pub fn remaining(&self) -> (res: Option<Duration>)
        requires
            self.duration.wf(),
        ensures
            res is Some <==> self.start is Some,
            res matches Some(d) ==> d.wf() && d@ <= self.duration@,
    {
        match &self.start {
            Some(instant) => Some(remaining_after(self.duration, instant_elapsed(instant))),
            None => None,
        }
    }

    /// Whether the iterator has timed out; never before the timer has started.
    pub fn timed_out(&self) -> (res: bool)
        requires
            self.duration.wf(),
        ensures
            self.start is None ==> !res,
            self.duration@ == max_duration() ==> !res,
    {
        match &self.start {
            Some(instant) => exceeds(instant_elapsed(instant), self.duration),
            None => false,
        }
    }

    /// Bounds on the number of items left: none once no time remains, otherwise at most as
    /// many as the underlying iterator has left.
    pub fn size_hint(&self) -> (res: (usize, Option<usize>))
        requires
            self.duration.wf(),
        ensures
            res.0 == 0,
            self.start is Some && self.duration@ == 0 ==> res == (0usize, Some(0usize)),
    {
        match self.remaining() {
            Some(d) => {
                if d == Duration::zero() {
                    return (0, Some(0));
                }
            },
            None => {},
        }
        (0, inner_size_hint(&self.iterator).1)
    }

    /// Starts the timer if needed, then yields the next item of the underlying iterator,
    /// unless the time elapsed since the start exceeds the duration.
    pub fn next(&mut self) -> (res: Option<J::Item>)
        requires
            old(self).duration.wf(),
        ensures
            final(self).start is Some,
            old(self).start is Some ==> final(self).start == old(self).start,
            final(self).duration == old(self).duration,
            (old(self).iterator.obeys_prophetic_iter_laws() ==> {
                &&& final(self).iterator.obeys_prophetic_iter_laws()
                &&& if old(self).iterator.remaining().len() > 0 {
                    final(self).iterator.remaining() == old(self).iterator.remaining().drop_first() && res == Some(old(self).iterator.remaining()[0])
                } else {
                    final(self).iterator.remaining() == old(self).iterator.remaining() && res is None
                }
            }) || (res is None && final(self).iterator == old(self).iterator),
            old(self).duration@ == max_duration() && old(self).iterator.obeys_prophetic_iter_laws() ==> {
                &&& final(self).iterator.obeys_prophetic_iter_laws()
                &&& if old(self).iterator.remaining().len() > 0 {
                    final(self).iterator.remaining() == old(self).iterator.remaining().drop_first() && res == Some(old(self).iterator.remaining()[0])
                } else {
                    final(self).iterator.remaining() == old(self).iterator.remaining() && res is None
                }
            },
    {
        if self.start.is_none() {
            self.start = Some(instant_now());
        }
        let elapsed = match &self.start {
            Some(instant) => instant_elapsed(instant),
            None => Duration::zero(),
        };
        self.step(elapsed)
    }

    /// What `next` does once the time elapsed since the start has been read: nothing but
    /// return `None` if it exceeds the duration, otherwise yield the next item of the
    /// underlying iterator.
    pub fn step(&mut self, elapsed: Duration) -> (res: Option<J::Item>)
        requires
            old(self).duration.wf(),
            elapsed.wf(),
        ensures
            final(self).start == old(self).start,
            final(self).duration == old(self).duration,
            elapsed@ > old(self).duration@ ==> res is None && final(self).iterator == old(self).iterator,
            elapsed@ <= old(self).duration@ && old(self).iterator.obeys_prophetic_iter_laws() ==> {
                &&& final(self).iterator.obeys_prophetic_iter_laws()
                &&& if old(self).iterator.remaining().len() > 0 {
                    final(self).iterator.remaining() == old(self).iterator.remaining().drop_first() && res == Some(old(self).iterator.remaining()[0])
                } else {
                    final(self).iterator.remaining() == old(self).iterator.remaining() && res is None
                }
            },
    {
        if exceeds(elapsed, self.duration) {
            return None;
        }
        self.iterator.next()
    }
}

/// An iterator that limits the time taken by the underlying iterator: it stops once the sum
/// of the time spent in `next` exceeds `duration`.
pub struct Sigma<J: Iterator> {
    pub iterator: J,
    pub sigma: Duration,
    pub duration: Duration,
}

impl<J: Iterator> Sigma<J> {
    /// Creates a new `Sigma` iterator with the given duration and no time spent yet.
    pub fn new(iterator: J, duration: Duration) -> (res: Self)
        ensures
            res.iterator == iterator,
            res.sigma@ == 0,
            res.sigma.wf(),
            res.duration == duration,
    {
        Sigma { iterator, sigma: Duration::zero(), duration }
    }

    /// Creates a new `Sigma` iterator with the given time already spent and duration.
    pub fn with_sigma(iterator: J, sigma: Duration, duration: Duration) -> (res: Self)
        ensures
            res.iterator == iterator,
            res.sigma == sigma,
            res.duration == duration,
    {
        Sigma { iterator, sigma, duration }
    }

    /// The time spent so far.
    pub fn elapsed(&self) -> (res: Duration)
        ensures
            res == self.sigma,
    {
        self.sigma
    }

    /// The time remaining out of the duration.
    pub fn remaining(&self) -> (res: Duration)
        requires
            self.sigma.wf(),
            self.duration.wf(),
        ensures
            res.wf(),
            res@ == if self.sigma@ > self.duration@ { 0 } else { self.duration@ - self.sigma@ },
    {
        remaining_after(self.duration, self.sigma)
    }

    /// Whether the time spent exceeds the duration; the iterator then only yields `None`.
    pub fn timed_out(&self) -> (res: bool)
        requires
            self.sigma.wf(),
            self.duration.wf(),
        ensures
            res == (self.sigma@ > self.duration@),
    {
        exceeds(self.sigma, self.duration)
    }

    /// Bounds on the number of items left: none once the time spent exceeds the duration,
    /// otherwise at most as many as the underlying iterator has left.
    pub fn size_hint(&self) -> (res: (usize, Option<usize>))
        requires
            self.sigma.wf(),
            self.duration.wf(),
        ensures
            res.0 == 0,
            self.sigma@ > self.duration@ ==> res == (0usize, Some(0usize)),
    {
        if exceeds(self.sigma, self.duration) {
            return (0, Some(0));
        }
        (0, inner_size_hint(&self.iterator).1)
    }

    /// Yields the next item of the underlying iterator, unless the time spent exceeds the
    /// duration; the time taken is added to the time spent.
    pub fn next(&mut self) -> (res: Option<J::Item>)
        requires
            old(self).sigma.wf(),
            old(self).duration.wf(),
        ensures
            final(self).sigma.wf(),
            final(self).duration == old(self).duration,
            final(self).sigma@ >= old(self).sigma@,
            old(self).sigma@ > old(self).duration@ ==> res is None && final(self).iterator == old(self).iterator,
            old(self).sigma@ <= old(self).duration@ ==> (old(self).iterator.obeys_prophetic_iter_laws() ==> {
                &&& final(self).iterator.obeys_prophetic_iter_laws()
                &&& if old(self).iterator.remaining().len() > 0 {
                    final(self).iterator.remaining() == old(self).iterator.remaining().drop_first() && res == Some(old(self).iterator.remaining()[0])
                } else {
                    final(self).iterator.remaining() == old(self).iterator.remaining() && res is None
                }
            }),
    {
        let start = instant_now();
        if exceeds(self.sigma, self.duration) {
            return None;
        }
        let res = self.iterator.next();
        let spent = instant_elapsed(&start);
        self.sigma = self.sigma.saturating_add(&spent);
        res
    }
}

/// A variant of `Iterator::filter` with a maximum duration, measured from the first call to
/// `next`: it yields the items satisfying `condition`, and stops once the time elapsed since
/// the start exceeds `duration`.
pub struct TimedFilter<J: Iterator, F: Fn(&J::Item) -> bool> {
    pub iterator: J,
    pub condition: F,
    pub start: Option<Instant>,
    pub duration: Duration,
}

impl<J: Iterator, F: Fn(&J::Item) -> bool> TimedFilter<J, F> {
    /// Creates a new `TimedFilter` iterator with the given duration; the timer starts at the first call to `next`.
    pub fn new(iterator: J, condition: F, duration: Duration) -> (res: Self)
        ensures
            res.iterator == iterator,
            res.condition == condition,
            res.start is None,
            res.duration == duration,
    {
        TimedFilter { iterator, condition, start: None, duration }
    }

    /// Creates a new `TimedFilter` iterator with the given duration and start.
    pub fn with_start(iterator: J, condition: F, start: Option<Instant>, duration: Duration) -> (res: Self)
        ensures
            res.iterator == iterator,
            res.condition == condition,
            res.start == start,
            res.duration == duration,
    {
        TimedFilter { iterator, condition, start, duration }
    }

    /// The time elapsed since the start of the timer, or `None` if it has not started yet.
    pub fn elapsed(&self) -> (res: Option<Duration>)
        ensures
            res is Some <==> self.start is Some,
            res matches Some(d) ==> d.wf(),
    {
        match &self.start {
            Some(instant) => Some(instant_elapsed(instant)),
            None => None,
        }
    }

    /// The remaining time, or `None` if the timer has not started yet.
    pub fn remaining(&self) -> (res: Option<Duration>)
        requires
            self.duration.wf(),
        ensures
            res is Some <==> self.start is Some,
            res matches Some(d) ==> d.wf() && d@ <= self.duration@,
    {
        match &self.start {
            Some(instant) => Some(remaining_after(self.duration, instant_elapsed(instant))),
            None => None,
        }
    }

    /// Whether the iterator has timed out; never before the timer has started.
    pub fn timed_out(&self) -> (res: bool)
        requires
            self.duration.wf(),
        ensures
            self.start is None ==> !res,
            self.duration@ == max_duration() ==> !res,
    {
        match &self.start {
            Some(instant) => exceeds(instant_elapsed(instant), self.duration),
            None => false,
        }
    }

    /// Bounds on the number of items left: none once no time remains, otherwise at most as
    /// many as the underlying iterator has left.
    pub fn size_hint(&self) -> (res: (usize, Option<usize>))
        requires
            self.duration.wf(),
        ensures
            res.0 == 0,
            self.start is Some && self.duration@ == 0 ==> res == (0usize, Some(0usize)),
    {
        match self.remaining() {
            Some(d) => {
                if d == Duration::zero() {
                    return (0, Some(0));
                }
            },
            None => {},
        }
        (0, inner_size_hint(&self.iterator).1)
    }

    /// Starts the timer if needed, then yields the next item of the underlying iterator that
    /// satisfies the condition, unless the time elapsed since the start exceeds the duration first.
    /// The underlying iterator must be finite.
    pub fn next(&mut self) -> (res: Option<J::Item>)
        requires
            old(self).duration.wf(),
            old(self).iterator.obeys_prophetic_iter_laws(),
            old(self).iterator.decrease() is Some,
            forall|x: &J::Item| #[trigger] (old(self).condition).requires((x,)),
        ensures
            final(self).start is Some,
            old(self).start is Some ==> final(self).start == old(self).start,
            final(self).condition == old(self).condition,
            final(self).duration == old(self).duration,
            exists|k: int| 0 <= k <= old(self).iterator.remaining().len() && {
                &&& final(self).iterator.remaining() == old(self).iterator.remaining().skip(k)
                &&& final(self).iterator.obeys_prophetic_iter_laws()
                &&& (res matches Some(item) ==> k >= 1 && item == old(self).iterator.remaining()[k - 1] && (old(self).condition).ensures((&item,), true))
                &&& forall|i: int| 0 <= i < (if res is Some { k - 1 } else { k }) ==> (old(self).condition).ensures((&old(self).iterator.remaining()[i],), false)
                &&& (res is None && old(self).duration@ == max_duration() ==> k == old(self).iterator.remaining().len())
            },
    {
        if self.start.is_none() {
            self.start = Some(instant_now());
        }
        let ghost first = self.iterator.remaining();
        let ghost mut k: int = 0;
        loop
            invariant
                self.iterator.obeys_prophetic_iter_laws(),
                self.duration.wf(),
                self.start is Some,
                old(self).start is Some ==> self.start == old(self).start,
                self.duration == old(self).duration,
                self.condition == old(self).condition,
                first == old(self).iterator.remaining(),
                forall|x: &J::Item| #[trigger] (self.condition).requires((x,)),
                0 <= k <= first.len(),
                self.iterator.remaining() == first.skip(k),
                forall|i: int| 0 <= i < k ==> (self.condition).ensures((&first[i],), false),
                self.iterator.decrease() is Some,
            decreases self.iterator.decrease()->0,
        {
            let elapsed = match &self.start {
                Some(instant) => instant_elapsed(instant),
                None => Duration::zero(),
            };
            let ghost before = self.iterator.remaining();
            match self.step(elapsed) {
                Step::Yield(item) => {
                    proof {
                        assert(first.skip(k).drop_first() =~= first.skip(k + 1));
                        k = k + 1;
                    }
                    return Some(item);
                },
                Step::Skip => {
                    proof {
                        assert(first.skip(k).drop_first() =~= first.skip(k + 1));
                        assert(before[0] == first[k]);
                        k = k + 1;
                    }
                },
                Step::Stop | Step::Fail => {
                    proof {
                        if elapsed@ <= self.duration@ {
                            assert(before.len() == 0);
                            assert(k == first.len());
                        } else {
                            assert(self.duration@ != max_duration());
                        }
                    }
                    return None;
                },
            }
        }
    }

    /// One round of `next` once the time elapsed since the start has been read: `Stop`,
    /// leaving the iterator as it is, if it exceeds the duration; otherwise the next item of
    /// the underlying iterator is taken, and is yielded if it satisfies the condition,
    /// skipped if not (`Stop` if there is none).
    pub fn step(&mut self, elapsed: Duration) -> (res: Step<J::Item>)
        requires
            old(self).duration.wf(),
            elapsed.wf(),
            old(self).iterator.obeys_prophetic_iter_laws(),
            forall|x: &J::Item| #[trigger] (old(self).condition).requires((x,)),
        ensures
            final(self).start == old(self).start,
            final(self).condition == old(self).condition,
            final(self).duration == old(self).duration,
            elapsed@ > old(self).duration@ ==> res is Stop && final(self).iterator == old(self).iterator,
            elapsed@ <= old(self).duration@ ==> {
                &&& final(self).iterator.obeys_prophetic_iter_laws()
                &&& if old(self).iterator.remaining().len() == 0 {
                    res is Stop && final(self).iterator.remaining() == old(self).iterator.remaining()
                } else {
                    &&& final(self).iterator.remaining() == old(self).iterator.remaining().drop_first()
                    &&& old(self).iterator.decrease() is Some ==> final(self).iterator.decrease() is Some
                        && final(self).iterator.decrease()->0 < old(self).iterator.decrease()->0
                    &&& (res is Yield || res is Skip)
                    &&& (res matches Step::Yield(item) ==> item == old(self).iterator.remaining()[0] && (old(self).condition).ensures((&item,), true))
                    &&& (res is Skip ==> (old(self).condition).ensures((&old(self).iterator.remaining()[0],), false))
                }
            },
    {
        if exceeds(elapsed, self.duration) {
            return Step::Stop;
        }
        match self.iterator.next() {
            Some(item) => {
                if (self.condition)(&item) {
                    Step::Yield(item)
                } else {
                    Step::Skip
                }
            },
            None => Step::Stop,
        }
    }
}

/// A variant of `Iterator::filter` that limits the time taken: it yields the items satisfying
/// `condition`, and stops once the sum of the time spent in `next` exceeds `duration`.
pub struct SigmaFilter<J: Iterator, F: Fn(&J::Item) -> bool> {
    pub iterator: J,
    pub condition: F,
    pub sigma: Duration,
    pub duration: Duration,
}

impl<J: Iterator, F: Fn(&J::Item) -> bool> SigmaFilter<J, F> {
    /// Creates a new `SigmaFilter` iterator with the given duration and no time spent yet.
    pub fn new(iterator: J, condition: F, duration: Duration) -> (res: Self)
        ensures
            res.iterator == iterator,
            res.condition == condition,
            res.sigma@ == 0,
            res.sigma.wf(),
            res.duration == duration,
    {
        SigmaFilter { iterator, condition, sigma: Duration::zero(), duration }
    }

    /// Creates a new `SigmaFilter` iterator with the given time already spent and duration.
    pub fn with_sigma(iterator: J, condition: F, sigma: Duration, duration: Duration) -> (res: Self)
        ensures
            res.iterator == iterator,
            res.condition == condition,
            res.sigma == sigma,
            res.duration == duration,
    {
        SigmaFilter { iterator, condition, sigma, duration }
    }

    /// The time spent so far by the filter function and the iterator.
    pub fn elapsed(&self) -> (res: Duration)
        ensures
            res == self.sigma,
    {
        self.sigma
    }

    /// The time remaining out of the duration.
    pub fn remaining(&self) -> (res: Duration)
        requires
            self.sigma.wf(),
            self.duration.wf(),
        ensures
            res.wf(),
            res@ == if self.sigma@ > self.duration@ { 0 } else { self.duration@ - self.sigma@ },
    {
        remaining_after(self.duration, self.sigma)
    }

    /// Whether the time spent exceeds the duration; the iterator then only yields `None`.
    pub fn timed_out(&self) -> (res: bool)
        requires
            self.sigma.wf(),
            self.duration.wf(),
        ensures
            res == (self.sigma@ > self.duration@),
    {
        exceeds(self.sigma, self.duration)
    }

    /// Bounds on the number of items left: none once the time spent exceeds the duration,
    /// otherwise at most as many as the underlying iterator has left.
    pub fn size_hint(&self) -> (res: (usize, Option<usize>))
        requires
            self.sigma.wf(),
            self.duration.wf(),
        ensures
            res.0 == 0,
            self.sigma@ > self.duration@ ==> res == (0usize, Some(0usize)),
    {
        if exceeds(self.sigma, self.duration) {
            return (0, Some(0));
        }
        (0, inner_size_hint(&self.iterator).1)
    }

    /// Yields the next item of the underlying iterator that satisfies the condition, unless the
    /// time spent (including this call) exceeds the duration first; the time taken by this call
    /// is added to the time spent. The underlying iterator must be finite.
    pub fn next(&mut self) -> (res: Option<J::Item>)
        requires
            old(self).sigma.wf(),
            old(self).duration.wf(),
            old(self).iterator.obeys_prophetic_iter_laws(),
            old(self).iterator.decrease() is Some,
            forall|x: &J::Item| #[trigger] (old(self).condition).requires((x,)),
        ensures
            final(self).sigma.wf(),
            final(self).sigma@ >= old(self).sigma@,
            final(self).condition == old(self).condition,
            old(self).sigma@ > old(self).duration@ ==> res is None && final(self).iterator == old(self).iterator,
            final(self).duration == old(self).duration,
            exists|k: int| 0 <= k <= old(self).iterator.remaining().len() && {
                &&& final(self).iterator.remaining() == old(self).iterator.remaining().skip(k)
                &&& final(self).iterator.obeys_prophetic_iter_laws()
                &&& (res matches Some(item) ==> k >= 1 && item == old(self).iterator.remaining()[k - 1] && (old(self).condition).ensures((&item,), true))
                &&& forall|i: int| 0 <= i < (if res is Some { k - 1 } else { k }) ==> (old(self).condition).ensures((&old(self).iterator.remaining()[i],), false)
                &&& (res is None && old(self).duration@ == max_duration() ==> k == old(self).iterator.remaining().len())
            },
    {
        let start = instant_now();
        let ghost first = self.iterator.remaining();
        let ghost mut k: int = 0;
        let ghost sigma0 = self.sigma;
        let mut res: Option<J::Item> = None;
        loop
            invariant_except_break
                self.iterator.decrease() is Some,
                forall|x: &J::Item| #[trigger] (self.condition).requires((x,)),
                res is None,
                forall|i: int| 0 <= i < k ==> (self.condition).ensures((&first[i],), false),
            invariant
                self.sigma == sigma0,
                sigma0 == old(self).sigma,
                sigma0.wf(),
                self.duration.wf(),
                self.duration == old(self).duration,
                self.condition == old(self).condition,
                first == old(self).iterator.remaining(),
                0 <= k <= first.len(),
                self.iterator.obeys_prophetic_iter_laws(),
                self.iterator.remaining() == first.skip(k),
                sigma0@ > self.duration@ ==> k == 0 && self.iterator == old(self).iterator,
            ensures
                sigma0@ > self.duration@ ==> res is None,
                res matches Some(item) ==> k >= 1 && item == first[k - 1] && (self.condition).ensures((&item,), true),
                forall|i: int| 0 <= i < (if res is Some { k - 1 } else { k }) ==> (self.condition).ensures((&first[i],), false),
                res is None && self.duration@ == max_duration() ==> k == first.len(),
            decreases self.iterator.decrease()->0,
        {
            let spent = instant_elapsed(&start);
            let total = self.sigma.saturating_add(&spent);
            assert(total@ >= sigma0@ && total@ <= max_duration());
            let ghost before = self.iterator.remaining();
            match self.step(total) {
                Step::Yield(item) => {
                    proof {
                        assert(first.skip(k).drop_first() =~= first.skip(k + 1));
                        k = k + 1;
                    }
                    res = Some(item);
                    break;
                },
                Step::Skip => {
                    proof {
                        assert(first.skip(k).drop_first() =~= first.skip(k + 1));
                        assert(before[0] == first[k]);
                        k = k + 1;
                    }
                },
                Step::Stop | Step::Fail => {
                    proof {
                        if total@ <= self.duration@ {
                            assert(before.len() == 0);
                            assert(k == first.len());
                        }
                    }
                    break;
                },
            }
        }
        let spent = instant_elapsed(&start);
        self.sigma = self.sigma.saturating_add(&spent);
        res
    }

    /// One round of `next` once the total time spent (including this call so far) has been
    /// read: `Stop`, leaving the iterator as it is, if it exceeds the duration; otherwise the
    /// next item of the underlying iterator is taken, and is yielded if it satisfies the
    /// condition, skipped if not (`Stop` if there is none).
    pub fn step(&mut self, spent: Duration) -> (res: Step<J::Item>)
        requires
            old(self).duration.wf(),
            spent.wf(),
            old(self).iterator.obeys_prophetic_iter_laws(),
            forall|x: &J::Item| #[trigger] (old(self).condition).requires((x,)),
        ensures
            final(self).sigma == old(self).sigma,
            final(self).condition == old(self).condition,
            final(self).duration == old(self).duration,
            spent@ > old(self).duration@ ==> res is Stop && final(self).iterator == old(self).iterator,
            spent@ <= old(self).duration@ ==> {
                &&& final(self).iterator.obeys_prophetic_iter_laws()
                &&& if old(self).iterator.remaining().len() == 0 {
                    res is Stop && final(self).iterator.remaining() == old(self).iterator.remaining()
                } else {
                    &&& final(self).iterator.remaining() == old(self).iterator.remaining().drop_first()
                    &&& old(self).iterator.decrease() is Some ==> final(self).iterator.decrease() is Some
                        && final(self).iterator.decrease()->0 < old(self).iterator.decrease()->0
                    &&& (res is Yield || res is Skip)
                    &&& (res matches Step::Yield(item) ==> item == old(self).iterator.remaining()[0] && (old(self).condition).ensures((&item,), true))
                    &&& (res is Skip ==> (old(self).condition).ensures((&old(self).iterator.remaining()[0],), false))
                }
            },
    {
        if exceeds(spent, self.duration) {
            return Step::Stop;
        }
        match self.iterator.next() {
            Some(item) => {
                if (self.condition)(&item) {
                    Step::Yield(item)
                } else {
                    Step::Skip
                }
            },
            None => Step::Stop,
        }
    }
}

/// Adds the time-limited adaptors to every iterator.
pub trait TimedFilterTrait: Iterator + Sized {
    /// A filtered iterator that yields the items satisfying `condition` until the time
    /// elapsed since its first call to `next` exceeds `duration`.
    fn filter_timed<F: Fn(&Self::Item) -> bool>(self, condition: F, duration: Duration) -> (res: TimedFilter<Self, F>)
        ensures
            res.iterator == self,
            res.condition == condition,
            res.start is None,
            res.duration == duration,
    {
        TimedFilter::new(self, condition, duration)
    }

    /// An iterator that stops once the time elapsed since its first call to `next` exceeds `duration`.
    fn timed(self, duration: Duration) -> (res: Timed<Self>)
        ensures
            res.iterator == self,
            res.start is None,
            res.duration == duration,
    {
        Timed::new(self, duration)
    }

    /// A filtered iterator that yields the items satisfying `condition` until the sum of the
    /// time spent in its `next` exceeds `duration`.
    fn filter_sigma<F: Fn(&Self::Item) -> bool>(self, condition: F, duration: Duration) -> (res: SigmaFilter<Self, F>)
        ensures
            res.iterator == self,
            res.condition == condition,
            res.sigma@ == 0,
            res.sigma.wf(),
            res.duration == duration,
    {
        SigmaFilter::new(self, condition, duration)
    }

    /// An iterator that stops once the sum of the time spent in its `next` exceeds `duration`.
    fn sigma(self, duration: Duration) -> (res: Sigma<Self>)
        ensures
            res.iterator == self,
            res.sigma@ == 0,
            res.sigma.wf(),
            res.duration == duration,
    {
        Sigma::new(self, duration)
    }
}

impl<T: Iterator> TimedFilterTrait for T {}

} // verus!
