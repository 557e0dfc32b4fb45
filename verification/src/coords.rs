use vstd::prelude::*;
use vstd::std_specs::convert::FromSpecImpl;
use vstd::std_specs::ops::{AddSpecImpl, MulSpecImpl, SubSpecImpl};
use crate::board::Board;
use crate::{Layer, Physical, Time};

verus! {

/// A set of coordinates `⟨l, t, x, y⟩` pointing to a tile of the game.
#[derive(Debug, Clone, Copy, PartialEq, Eq, Hash, Structural)]
pub struct Coords(pub Layer, pub Time, pub Physical, pub Physical);

impl Coords {
    /// Creates a new `Coords` instance.
    pub fn new(l: Layer, t: Time, x: Physical, y: Physical) -> (res: Self)
        ensures
            res == Coords(l, t, x, y),
    {
        Coords(l, t, x, y)
    }

    /// The physical half of the coordinates (3rd and 4th element).
    pub fn physical(self) -> (res: (Physical, Physical))
        ensures
            res == (self.2, self.3),
    {
        (self.2, self.3)
    }

    /// The non-physical half of the coordinates (1st and 2nd element).
    pub fn non_physical(self) -> (res: (Layer, Time))
        ensures
            res == (self.0, self.1),
    {
        (self.0, self.1)
    }

    /// The layer (timeline) component.
    pub fn l(self) -> (res: Layer)
        ensures
            res == self.0,
    {
        self.0
    }

    /// The time component.
    pub fn t(self) -> (res: Time)
        ensures
            res == self.1,
    {
        self.1
    }

    /// The horizontal component.
    pub fn x(self) -> (res: Physical)
        ensures
            res == self.2,
    {
        self.2
    }

    /// The vertical component.
    pub fn y(self) -> (res: Physical)
        ensures
            res == self.3,
    {
        self.3
    }
}

impl From<((Layer, Time), (Physical, Physical))> for Coords {
    fn from(v: ((Layer, Time), (Physical, Physical))) -> (res: Self) {
        let ((l, t), (x, y)) = v;
        Coords(l, t, x, y)
    }
}

impl FromSpecImpl<((Layer, Time), (Physical, Physical))> for Coords {
    open spec fn obeys_from_spec() -> bool {
        true
    }

    open spec fn from_spec(v: ((Layer, Time), (Physical, Physical))) -> Coords {
        Coords(v.0.0, v.0.1, v.1.0, v.1.1)
    }
}

impl From<(Layer, Time, Physical, Physical)> for Coords {
    fn from(v: (Layer, Time, Physical, Physical)) -> (res: Self) {
        let (l, t, x, y) = v;
        Coords(l, t, x, y)
    }
}

impl FromSpecImpl<(Layer, Time, Physical, Physical)> for Coords {
    open spec fn obeys_from_spec() -> bool {
        true
    }

    open spec fn from_spec(v: (Layer, Time, Physical, Physical)) -> Coords {
        Coords(v.0, v.1, v.2, v.3)
    }
}

impl From<(isize, isize, isize, isize)> for Coords {
    /// The physical coordinates are truncated to a `Physical`.
    fn from(v: (isize, isize, isize, isize)) -> (res: Self) {
        let (l, t, x, y) = v;
        Coords(l, t, x as Physical, y as Physical)
    }
}

impl FromSpecImpl<(isize, isize, isize, isize)> for Coords {
    open spec fn obeys_from_spec() -> bool {
        true
    }

    open spec fn from_spec(v: (isize, isize, isize, isize)) -> Coords {
        Coords(v.0, v.1, v.2 as Physical, v.3 as Physical)
    }
}

impl From<(Board, (Physical, Physical))> for Coords {
    fn from(v: (Board, (Physical, Physical))) -> (res: Self) {
        let (board, (x, y)) = v;
        Coords(board.l, board.t, x, y)
    }
}

impl FromSpecImpl<(Board, (Physical, Physical))> for Coords {
    open spec fn obeys_from_spec() -> bool {
        true
    }

    open spec fn from_spec(v: (Board, (Physical, Physical))) -> Coords {
        Coords(v.0.l, v.0.t, v.1.0, v.1.1)
    }
}

/// The component-wise sum fits in the coordinates' types.
pub open spec fn coords_add_fits(a: Coords, b: Coords) -> bool {
    &&& isize::MIN <= a.0 + b.0 <= isize::MAX
    &&& isize::MIN <= a.1 + b.1 <= isize::MAX
    &&& i8::MIN <= a.2 + b.2 <= i8::MAX
    &&& i8::MIN <= a.3 + b.3 <= i8::MAX
}

/// The component-wise difference fits in the coordinates' types.
pub open spec fn coords_sub_fits(a: Coords, b: Coords) -> bool {
    &&& isize::MIN <= a.0 - b.0 <= isize::MAX
    &&& isize::MIN <= a.1 - b.1 <= isize::MAX
    &&& i8::MIN <= a.2 - b.2 <= i8::MAX
    &&& i8::MIN <= a.3 - b.3 <= i8::MAX
}

/// The component-wise product by `w` (truncated to a `Physical` for the physical half) fits.
pub open spec fn coords_mul_fits(a: Coords, w: isize) -> bool {
    &&& isize::MIN <= a.0 * w <= isize::MAX
    &&& isize::MIN <= a.1 * w <= isize::MAX
    &&& i8::MIN <= a.2 * (w as i8) <= i8::MAX
    &&& i8::MIN <= a.3 * (w as i8) <= i8::MAX
}

impl core::ops::Add<Coords> for Coords {
    type Output = Coords;

    fn add(self, w: Coords) -> (res: Coords) {
        Coords(self.0 + w.0, self.1 + w.1, self.2 + w.2, self.3 + w.3)
    }
}

impl AddSpecImpl<Coords> for Coords {
    open spec fn obeys_add_spec() -> bool {
        true
    }

    open spec fn add_req(self, w: Coords) -> bool {
        coords_add_fits(self, w)
    }

    open spec fn add_spec(self, w: Coords) -> Coords {
        Coords(
            (self.0 + w.0) as isize,
            (self.1 + w.1) as isize,
            (self.2 + w.2) as i8,
            (self.3 + w.3) as i8,
        )
    }
}

impl core::ops::Sub<Coords> for Coords {
    type Output = Coords;

    fn sub(self, w: Coords) -> (res: Coords) {
        Coords(self.0 - w.0, self.1 - w.1, self.2 - w.2, self.3 - w.3)
    }
}

impl SubSpecImpl<Coords> for Coords {
    open spec fn obeys_sub_spec() -> bool {
        true
    }

    open spec fn sub_req(self, w: Coords) -> bool {
        coords_sub_fits(self, w)
    }

    open spec fn sub_spec(self, w: Coords) -> Coords {
        Coords(
            (self.0 - w.0) as isize,
            (self.1 - w.1) as isize,
            (self.2 - w.2) as i8,
            (self.3 - w.3) as i8,
        )
    }
}

impl core::ops::Mul<isize> for Coords {
    type Output = Coords;

    fn mul(self, w: isize) -> (res: Coords) {
        let p = w as Physical;
        Coords(self.0 * w, self.1 * w, self.2 * p, self.3 * p)
    }
}

impl MulSpecImpl<isize> for Coords {
    open spec fn obeys_mul_spec() -> bool {
        true
    }

    open spec fn mul_req(self, w: isize) -> bool {
        coords_mul_fits(self, w)
    }

    open spec fn mul_spec(self, w: isize) -> Coords {
        Coords(
            (self.0 * w) as isize,
            (self.1 * w) as isize,
            (self.2 * (w as i8)) as i8,
            (self.3 * (w as i8)) as i8,
        )
    }
}

} // verus!
