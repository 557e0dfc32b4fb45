use vstd::prelude::*;
use vstd::std_specs::cmp::{PartialEqSpecImpl, PartialOrdSpecImpl};
use vstd::std_specs::ops::NegSpecImpl;
use std::cmp::Ordering;

verus! {

/// The count given to a single outcome.
pub const DEFAULT_COUNT: usize = 1;

/// Win/Draw/Loss counts, out of `sum` outcomes.
#[derive(Clone, Copy, Debug)]
pub struct WDL {
    pub win: usize,
    pub draw: usize,
    pub loss: usize,
    pub sum: usize,
}

impl WDL {
    /// No outcome.
    pub fn zero() -> (res: Self)
        ensures
            res.win == 0 && res.draw == 0 && res.loss == 0 && res.sum == 0,
    {
        WDL { win: 0, draw: 0, loss: 0, sum: 0 }
    }

    /// A single draw.
    pub fn draw() -> (res: Self)
        ensures
            res.win == 0 && res.draw == DEFAULT_COUNT && res.loss == 0 && res.sum == DEFAULT_COUNT,
    {
        WDL { win: 0, draw: DEFAULT_COUNT, loss: 0, sum: DEFAULT_COUNT }
    }

    /// A single loss.
    pub fn loss() -> (res: Self)
        ensures
            res.win == 0 && res.draw == 0 && res.loss == DEFAULT_COUNT && res.sum == DEFAULT_COUNT,
    {
        WDL { win: 0, draw: 0, loss: DEFAULT_COUNT, sum: DEFAULT_COUNT }
    }

    /// A single win.
    pub fn win() -> (res: Self)
        ensures
            res.win == DEFAULT_COUNT && res.draw == 0 && res.loss == 0 && res.sum == DEFAULT_COUNT,
    {
        WDL { win: DEFAULT_COUNT, draw: 0, loss: 0, sum: DEFAULT_COUNT }
    }

    /// The number of outcomes that are neither wins, draws nor losses.
    pub fn remainder(&self) -> (res: usize)
        requires
            self.win + self.draw + self.loss <= self.sum,
        ensures
            res == self.sum - (self.win + self.draw + self.loss),
    {
        self.sum - (self.win + self.draw + self.loss)
    }
}

impl core::ops::Neg for WDL {
    type Output = WDL;

    /// The same outcomes seen from the other player: wins and losses are swapped.
    fn neg(self) -> (res: WDL) {
        WDL { win: self.loss, draw: self.draw, loss: self.win, sum: self.sum }
    }
}

impl NegSpecImpl for WDL {
    open spec fn obeys_neg_spec() -> bool {
        true
    }

    open spec fn neg_req(self) -> bool {
        true
    }

    open spec fn neg_spec(self) -> WDL {
        WDL { win: self.loss, draw: self.draw, loss: self.win, sum: self.sum }
    }
}

/// The product of two counts, computed without overflow.
fn cross(a: usize, b: usize) -> (res: u128)
    ensures
        res == a * b,
{
    proof {
        assert(a * b <= usize::MAX * usize::MAX) by (nonlinear_arith)
            requires
                a <= usize::MAX,
                b <= usize::MAX;
        assert(usize::MAX * usize::MAX <= u128::MAX) by (nonlinear_arith)
            requires
                usize::MAX <= u64::MAX;
    }
    (a as u128) * (b as u128)
}

/// Two outcome counts are equal in proportion: same share of losses and same share of wins.
pub open spec fn wdl_eq(a: WDL, b: WDL) -> bool {
    a.loss * b.sum == b.loss * a.sum && a.win * b.sum == b.win * a.sum
}

impl PartialEq for WDL {
    fn eq(&self, other: &Self) -> (res: bool) {
        cross(self.loss, other.sum) == cross(other.loss, self.sum) && cross(self.win, other.sum) == cross(other.win, self.sum)
    }
}

impl PartialEqSpecImpl for WDL {
    open spec fn obeys_eq_spec() -> bool {
        true
    }

    open spec fn eq_spec(&self, other: &WDL) -> bool {
        wdl_eq(*self, *other)
    }
}

/// Compares two integers.
pub open spec fn compare_int(a: int, b: int) -> Ordering {
    if a < b {
        Ordering::Less
    } else if a > b {
        Ordering::Greater
    } else {
        Ordering::Equal
    }
}

/// Outcome counts are ordered first by their share of losses (fewer is better), then by their share of wins.
pub open spec fn wdl_order(a: WDL, b: WDL) -> Ordering {
    let lhs = a.loss * b.sum;
    let rhs = b.loss * a.sum;
    if lhs < rhs {
        Ordering::Greater
    } else if lhs > rhs {
        Ordering::Less
    } else {
        compare_int(a.win * b.sum, b.win * a.sum)
    }
}

impl PartialOrd for WDL {
    fn partial_cmp(&self, other: &Self) -> (res: Option<Ordering>) {
        let lhs = cross(self.loss, other.sum);
        let rhs = cross(other.loss, self.sum);
        if lhs < rhs {
            Some(Ordering::Greater)
        } else if lhs > rhs {
            Some(Ordering::Less)
        } else {
            let a = cross(self.win, other.sum);
            let b = cross(other.win, self.sum);
            if a < b {
                Some(Ordering::Less)
            } else if a > b {
                Some(Ordering::Greater)
            } else {
                Some(Ordering::Equal)
            }
        }
    }
}

impl PartialOrdSpecImpl for WDL {
    open spec fn obeys_partial_cmp_spec() -> bool {
        true
    }

    open spec fn partial_cmp_spec(&self, other: &WDL) -> Option<Ordering> {
        Some(wdl_order(*self, *other))
    }
}

} // verus!
