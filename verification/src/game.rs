use vstd::prelude::*;
use crate::board::Board;
use crate::coords::Coords;
use crate::info::{Info, TimelineInfo};
use crate::tile::Tile;
use crate::{Layer, Physical, Time};

verus! {

/// Bound on the coordinates of the boards stored in a `BoardArray`: the largest round bound
/// for which its buffer (up to `(6 * COORD_BOUND + 1) * (4 * COORD_BOUND + 3)` slots) still
/// fits a 32-bit address space.
pub const COORD_BOUND: isize = 13_000;

/// A buffer for coordinates within `COORD_BOUND` has fewer slots than a 32-bit address
/// space (the narrowest `usize` Verus allows for).
proof fn lemma_buffer_fits()
    ensures
        (6 * COORD_BOUND + 1) * (4 * COORD_BOUND + 3) <= usize::MAX,
{
    assert(78_001int * 52_003int == 4_056_286_003int) by (nonlinear_arith);
}

/// The column of timeline `l` in a `BoardArray`: `0, -1, 1, -2, 2, ...` go to `0, 3, 2, 5, 4, ...`.
pub open spec fn layer_column(l: int) -> int {
    if l < 0 { -2 * l + 1 } else { 2 * l }
}

/// `l` and `t` lie within the bounds that a `BoardArray` accepts.
pub open spec fn coords_in_bounds(l: int, t: int) -> bool {
    -COORD_BOUND <= l <= COORD_BOUND && -COORD_BOUND <= t <= COORD_BOUND
}

/// A growable, contiguous structure holding a set of boards, indexed by `(l, t)` in O(1).
/// Boards are stored row by row: one row per time coordinate, one column per timeline.
#[derive(Clone, Debug, PartialEq, Eq)]
pub struct BoardArray {
    boards: Vec<Option<Board>>,
    timeline_width: usize,
    max_time: isize,
    min_time: isize,
}

/// `(l, t)` has a slot in a buffer of `2 * tw + 1` columns and rows `min..=max`.
spec fn has_slot_of(tw: int, min: int, max: int, l: int, t: int) -> bool {
    &&& layer_column(l) < 2 * tw + 1
    &&& min <= t <= max
}

/// The index of the slot of `(l, t)` in a buffer of `2 * tw + 1` columns starting at row `min`.
spec fn slot_of(tw: int, min: int, l: int, t: int) -> int {
    layer_column(l) + (t - min) * (2 * tw + 1)
}

/// The buffer's dimensions are consistent, and every board lies in the slot of its own coordinates.
spec fn wf_of(boards: Seq<Option<Board>>, tw: int, min: int, max: int) -> bool {
    &&& 0 <= tw <= 2 * COORD_BOUND + 1
    &&& -COORD_BOUND <= min <= max <= 5 * COORD_BOUND
    &&& boards.len() == (max - min + 1) * (2 * tw + 1)
    &&& forall|i: int| 0 <= i < boards.len() && (#[trigger] boards[i]) is Some ==> {
        let b = boards[i]->0;
        &&& has_slot_of(tw, min, max, b.l as int, b.t as int)
        &&& slot_of(tw, min, b.l as int, b.t as int) == i
        &&& coords_in_bounds(b.l as int, b.t as int)
    }
}

/// The boards held by a buffer, by coordinates.
spec fn view_of(boards: Seq<Option<Board>>, tw: int, min: int, max: int) -> Map<(int, int), Board> {
    Map::new(
        |lt: (int, int)| has_slot_of(tw, min, max, lt.0, lt.1) && boards[slot_of(tw, min, lt.0, lt.1)] is Some,
        |lt: (int, int)| boards[slot_of(tw, min, lt.0, lt.1)]->0,
    )
}

impl BoardArray {
    /// The number of columns.
    pub closed spec fn spec_columns(&self) -> int {
        2 * self.timeline_width + 1
    }

    /// `(l, t)` has a slot in the buffer.
    pub closed spec fn has_slot(&self, l: int, t: int) -> bool {
        has_slot_of(self.timeline_width as int, self.min_time as int, self.max_time as int, l, t)
    }

    /// The index of the slot of `(l, t)` in the buffer.
    pub closed spec fn slot(&self, l: int, t: int) -> int {
        slot_of(self.timeline_width as int, self.min_time as int, l, t)
    }

    /// The buffer's dimensions are consistent, and every board lies in the slot of its own coordinates.
    pub closed spec fn wf(&self) -> bool {
        wf_of(self.boards@, self.timeline_width as int, self.min_time as int, self.max_time as int)
    }

    /// The boards held, by coordinates.
    pub closed spec fn view(&self) -> Map<(int, int), Board> {
        view_of(self.boards@, self.timeline_width as int, self.min_time as int, self.max_time as int)
    }

    /// The buffer is well formed; its dimensions are not part of the contract.
    pub open spec fn valid(&self) -> bool {
        self.wf()
    }

    proof fn lemma_slot_bound(&self, l: int, t: int)
        requires
            self.wf(),
            self.has_slot(l, t),
        ensures
            0 <= self.slot(l, t) < self.boards.len(),
    {
        let w = self.spec_columns();
        let r = t - self.min_time;
        let n = self.max_time - self.min_time + 1;
        assert(0 <= r * w) by (nonlinear_arith)
            requires
                0 <= r,
                0 <= w;
        assert(r * w + w <= n * w) by (nonlinear_arith)
            requires
                r + 1 <= n,
                0 <= w;
    }

    /// Distinct coordinates with slots have distinct slots.
    proof fn lemma_slot_injective(&self, l1: int, t1: int, l2: int, t2: int)
        requires
            self.has_slot(l1, t1),
            self.has_slot(l2, t2),
            self.slot(l1, t1) == self.slot(l2, t2),
        ensures
            l1 == l2,
            t1 == t2,
    {
        let w = self.spec_columns();
        crate::bitboard::lemma_row_col(self.slot(l1, t1), w, t1 - self.min_time, layer_column(l1));
        crate::bitboard::lemma_row_col(self.slot(l2, t2), w, t2 - self.min_time, layer_column(l2));
        assert((t1 - self.min_time) * w == w * (t1 - self.min_time)) by (nonlinear_arith);
        assert((t2 - self.min_time) * w == w * (t2 - self.min_time)) by (nonlinear_arith);
    }

    /// Every board held lies at its own coordinates, which are within bounds.
    pub proof fn lemma_keys(&self)
        requires
            self.valid(),
        ensures
            forall|k: (int, int)| #[trigger] self.view().dom().contains(k) ==> {
                &&& self.view()[k].l == k.0
                &&& self.view()[k].t == k.1
                &&& coords_in_bounds(k.0, k.1)
            },
    {
        assert forall|k: (int, int)| #[trigger] self.view().dom().contains(k) implies {
            &&& self.view()[k].l == k.0
            &&& self.view()[k].t == k.1
            &&& coords_in_bounds(k.0, k.1)
        } by {
            self.lemma_slot_bound(k.0, k.1);
            let i = self.slot(k.0, k.1);
            let b = self.boards@[i]->0;
            self.lemma_slot_injective(k.0, k.1, b.l as int, b.t as int);
        }
    }

    /// Creates a new, empty `BoardArray`.
    pub fn empty() -> (res: Self)
        ensures
            res.valid(),
            res.view() == Map::<(int, int), Board>::empty(),
            res.spec_min_time() == 0,
    {
        let mut boards: Vec<Option<Board>> = Vec::new();
        boards.push(None);
        let res = BoardArray { boards, timeline_width: 0, max_time: 0, min_time: 0 };
        assert(res.boards@ == seq![None::<Board>]);
        assert(res.boards.len() == 1);
        assert(res.spec_columns() == 1);
        assert(res.wf());
        assert(res.view() =~= Map::<(int, int), Board>::empty());
        res
    }
}

impl BoardArray {
    /// The earliest time coordinate with a row in the buffer.
    pub closed spec fn spec_min_time(&self) -> int {
        self.min_time as int
    }

    /// `board` can be inserted: its coordinates are in bounds.
    pub open spec fn insertable(&self, l: int, t: int) -> bool {
        coords_in_bounds(l, t)
    }

    /// The column of `l`, as computed by the buffer.
    fn column(l: Layer) -> (res: usize)
        requires
            -COORD_BOUND <= l <= COORD_BOUND,
        ensures
            res == layer_column(l as int),
    {
        if l < 0 {
            let m: usize = (0 - l) as usize;
            2 * m + 1
        } else {
            2 * l as usize
        }
    }

    /// The index of the slot of `(l, t)`: `(index, true)` if it has a slot, `(0, false)` otherwise.
    fn get_index(&self, l: Layer, t: Time) -> (res: (usize, bool))
        requires
            self.wf(),
            coords_in_bounds(l as int, t as int),
        ensures
            res.1 == self.has_slot(l as int, t as int),
            res.1 ==> res.0 == self.slot(l as int, t as int) && res.0 < self.boards.len(),
            !res.1 ==> res.0 == 0,
    {
        let l = Self::column(l);
        let w: usize = self.timeline_width * 2 + 1;
        if l >= w || t < self.min_time || t > self.max_time {
            return (0, false);
        }
        let tt: usize = (t - self.min_time) as usize;
        proof {
            assert(self.boards.len() == (self.max_time - self.min_time + 1) * (w as int));
            assert(tt * w <= (self.max_time - self.min_time) * w) by (nonlinear_arith)
                requires
                    tt <= self.max_time - self.min_time,
                    0 <= w;
            assert((self.max_time - self.min_time + 1) * w == (self.max_time - self.min_time) * w + w) by (nonlinear_arith);
        }
        (l + tt * w, true)
    }

    /// The board at `(l, t)`, if there is one.
    pub fn get_board(&self, lt: (Layer, Time)) -> (res: Option<&Board>)
        requires
            self.valid(),
        ensures
            match res {
                Some(b) => self@.dom().contains((lt.0 as int, lt.1 as int)) && *b == self@[(lt.0 as int, lt.1 as int)],
                None => !self@.dom().contains((lt.0 as int, lt.1 as int)),
            },
    {
        let (l, t) = lt;
        if l < -COORD_BOUND || l > COORD_BOUND || t < -COORD_BOUND || t > COORD_BOUND {
            proof { self.lemma_keys(); }
            return None;
        }
        let (index, success) = self.get_index(l, t);
        if success {
            match &self.boards[index] {
                Some(b) => Some(b),
                None => None,
            }
        } else {
            None
        }
    }

    /// The board at `(l, t)`, which must be present.
    pub fn get_board_unchecked(&self, lt: (Layer, Time)) -> (res: &Board)
        requires
            self.valid(),
            self@.dom().contains((lt.0 as int, lt.1 as int)),
        ensures
            *res == self@[(lt.0 as int, lt.1 as int)],
    {
        let (l, t) = lt;
        proof { self.lemma_keys(); }
        let (index, _) = self.get_index(l, t);
        self.boards[index].as_ref().unwrap()
    }
}

/// The boards of `old` whose slot index is at least `n`.
spec fn moved_part(old: BoardArray, n: int) -> Map<(int, int), Board> {
    Map::new(
        |lt: (int, int)| old.view().dom().contains(lt) && old.slot(lt.0, lt.1) >= n,
        |lt: (int, int)| old.view()[lt],
    )
}

impl BoardArray {
    proof fn lemma_view_at(&self, lt: (int, int))
        ensures
            self.view().dom().contains(lt) == (self.has_slot(lt.0, lt.1) && self.boards@[self.slot(lt.0, lt.1)] is Some),
            self.view().dom().contains(lt) ==> self.view()[lt] == self.boards@[self.slot(lt.0, lt.1)]->0,
    {
    }

    /// Grows the buffer so that a board of column `l` and time `t` fits in it.
    fn resize_boards(&mut self, l: usize, t: Time)
        requires
            old(self).wf(),
            l <= 2 * COORD_BOUND + 1,
            -COORD_BOUND <= t <= COORD_BOUND,
        ensures
            final(self).wf(),
            final(self).view() == old(self).view(),
            final(self).min_time <= old(self).min_time,
            final(self).min_time <= t <= final(self).max_time,
            l < final(self).spec_columns(),
            t < old(self).min_time ==> final(self).min_time == t,
            t >= old(self).min_time ==> final(self).min_time == old(self).min_time,
    {
        let ghost old_self = *self;
        if l >= self.timeline_width * 2 + 1 || t < self.min_time {
            let timeline_width = if l >= self.timeline_width * 2 + 1 { l } else { self.timeline_width };
            let w = 2 * timeline_width + 1;
            let min_time = if self.min_time < t { self.min_time } else { t };
            let max_time = if self.max_time > t { self.max_time } else { t };
            let span: usize = (max_time - min_time) as usize + 1;
            proof {
                assert(span * w <= (6 * COORD_BOUND + 1) * (4 * COORD_BOUND + 3)) by (nonlinear_arith)
                    requires
                        1 <= span <= 6 * COORD_BOUND + 1,
                        1 <= w <= 4 * COORD_BOUND + 3;
            }
            proof { lemma_buffer_fits(); }
            let n: usize = span * w;
            let mut fresh: Vec<Option<Board>> = Vec::new();
            while fresh.len() < n
                invariant
                    fresh.len() <= n,
                    forall|i: int| 0 <= i < fresh.len() ==> (#[trigger] fresh@[i]) is None,
                decreases n - fresh.len(),
            {
                fresh.push(None);
            }
            let mut old_boards = fresh;
            std::mem::swap(&mut self.boards, &mut old_boards);
            self.timeline_width = timeline_width;
            self.min_time = min_time;
            self.max_time = max_time;
            let ghost o = old_boards@;
            proof {
                assert forall|lt: (int, int)| old_self.view().dom().contains(lt) implies old_self.slot(lt.0, lt.1) < o.len() by {
                    old_self.lemma_slot_bound(lt.0, lt.1);
                }
                assert forall|lt: (int, int)| !(#[trigger] self.view().dom().contains(lt)) by {
                    if self.has_slot(lt.0, lt.1) {
                        self.lemma_slot_bound(lt.0, lt.1);
                    }
                }
                assert(self.view() =~= moved_part(old_self, o.len() as int));
            }
            while old_boards.len() > 0
                invariant
                    old_self.wf(),
                    o == old_self.boards@,
                    old_boards.len() <= o.len(),
                    old_boards@ == o.take(old_boards.len() as int),
                    self.timeline_width == timeline_width,
                    timeline_width >= old_self.timeline_width,
                    l < 2 * timeline_width + 1,
                    self.min_time == min_time,
                    self.max_time == max_time,
                    min_time <= old_self.min_time,
                    old_self.max_time <= max_time,
                    min_time <= t <= max_time,
                    min_time == t || min_time == old_self.min_time,
                    l >= 2 * old_self.timeline_width + 1 || t < old_self.min_time,
                    self.wf(),
                    self.view() == moved_part(old_self, old_boards.len() as int),
                decreases old_boards.len(),
            {
                let k = old_boards.len() - 1;
                assert(old_boards@[k as int] == o[k as int]);
                let entry = old_boards.pop().unwrap();
                assert(entry == o[k as int]);
                assert(old_boards@ =~= o.take(k as int));
                let ghost before = *self;
                if let Some(board) = entry {
                    let ghost lt = (board.l as int, board.t as int);
                    proof {
                        assert(o[k as int] is Some);
                        assert(old_self.slot(lt.0, lt.1) == k);
                        assert(old_self.view().dom().contains(lt));
                    }
                    let col = Self::column(board.l);
                    let tt = (board.t - self.min_time) as usize;
                    let w2 = self.timeline_width * 2 + 1;
                    proof {
                        assert(self.has_slot(lt.0, lt.1));
                        self.lemma_slot_bound(lt.0, lt.1);
                    }
                    let index = col + tt * w2;
                    assert(index == self.slot(lt.0, lt.1));
                    self.boards.set(index, Some(board));
                    proof {
                        assert forall|i: int| 0 <= i < self.boards.len() && (#[trigger] self.boards@[i]) is Some implies {
                            let b = self.boards@[i]->0;
                            &&& self.has_slot(b.l as int, b.t as int)
                            &&& self.slot(b.l as int, b.t as int) == i
                            &&& coords_in_bounds(b.l as int, b.t as int)
                        } by {
                            if i != index {
                                assert(before.boards@[i] == self.boards@[i]);
                            }
                        }
                        let target = moved_part(old_self, k as int);
                        let prev = moved_part(old_self, k + 1);
                        assert(before.view() == prev);
                        assert forall|lt2: (int, int)| #[trigger] self.view().dom().contains(lt2) implies target.dom().contains(lt2) && self.view()[lt2] == target[lt2] by {
                            self.lemma_view_at(lt2);
                            self.lemma_slot_bound(lt2.0, lt2.1);
                            if lt2 == lt {
                                old_self.lemma_view_at(lt);
                            } else {
                                if self.slot(lt2.0, lt2.1) == index {
                                    self.lemma_slot_injective(lt2.0, lt2.1, lt.0, lt.1);
                                }
                                before.lemma_view_at(lt2);
                                assert(prev.dom().contains(lt2));
                            }
                        }
                        assert forall|lt2: (int, int)| #[trigger] target.dom().contains(lt2) implies self.view().dom().contains(lt2) by {
                            self.lemma_view_at(lt2);
                            if lt2 != lt {
                                old_self.lemma_view_at(lt2);
                                old_self.lemma_slot_bound(lt2.0, lt2.1);
                                if old_self.slot(lt2.0, lt2.1) == k {
                                    old_self.lemma_slot_injective(lt2.0, lt2.1, lt.0, lt.1);
                                }
                                assert(prev.dom().contains(lt2));
                                before.lemma_view_at(lt2);
                                before.lemma_slot_bound(lt2.0, lt2.1);
                                if self.slot(lt2.0, lt2.1) == index {
                                    self.lemma_slot_injective(lt2.0, lt2.1, lt.0, lt.1);
                                }
                            }
                        }
                        assert(self.view() =~= target);
                    }
                } else {
                    proof {
                        assert(self.view() =~= moved_part(old_self, k as int)) by {
                            assert forall|lt2: (int, int)| old_self.view().dom().contains(lt2) implies old_self.slot(lt2.0, lt2.1) != k by {
                                old_self.lemma_slot_bound(lt2.0, lt2.1);
                            }
                        }
                    }
                }
            }
            proof {
                assert(self.view() =~= old_self.view());
            }
        } else {
            let ghost old_len = self.boards.len();
            while t > self.max_time
                invariant
                    old_self.wf(),
                    self.timeline_width == old_self.timeline_width,
                    self.min_time == old_self.min_time,
                    self.boards == old_self.boards,
                    old_self.max_time <= self.max_time,
                    self.min_time <= self.max_time,
                    -COORD_BOUND <= t <= COORD_BOUND,
                    self.min_time <= t,
                    self.max_time < t ==> self.max_time - self.min_time + 1 <= t - self.min_time,
                    self.max_time - self.min_time + 1 <= 2 * (t - self.min_time + 1) || self.max_time == old_self.max_time,
                    self.max_time <= 5 * COORD_BOUND,
                decreases 5 * COORD_BOUND - self.max_time,
            {
                self.max_time = (self.max_time - self.min_time + 1) * 2 + self.min_time;
            }
            let w: usize = 2 * self.timeline_width + 1;
            proof {
                assert(((self.max_time - self.min_time) + 1) * w <= (6 * COORD_BOUND + 1) * (4 * COORD_BOUND + 3)) by (nonlinear_arith)
                    requires
                        0 <= self.max_time - self.min_time <= 6 * COORD_BOUND,
                        1 <= w <= 4 * COORD_BOUND + 3;
                assert(((old_self.max_time - self.min_time) + 1) * w <= ((self.max_time - self.min_time) + 1) * w) by (nonlinear_arith)
                    requires
                        old_self.max_time <= self.max_time,
                        0 <= w;
            }
            proof { lemma_buffer_fits(); }
            let n: usize = ((self.max_time - self.min_time) as usize + 1) * w;
            self.boards.resize(n, None);
            proof {
                assert forall|i: int| old_len <= i < n implies (#[trigger] self.boards@[i]) is None by {
                    assert(cloned::<Option<Board>>(None, self.boards@[i]));
                }
                assert forall|i: int| 0 <= i < old_len implies #[trigger] self.boards@[i] == old_self.boards@[i] by {
                    assert(self.boards@.subrange(0, old_len as int)[i] == self.boards@[i]);
                }
                assert forall|lt: (int, int)| self.has_slot(lt.0, lt.1) && old_self.has_slot(lt.0, lt.1) implies self.slot(lt.0, lt.1) == old_self.slot(lt.0, lt.1) by {}
                assert forall|lt: (int, int)| #[trigger] self.view().dom().contains(lt) implies old_self.view().dom().contains(lt) && self.view()[lt] == old_self.view()[lt] by {
                    self.lemma_slot_bound(lt.0, lt.1);
                    let i = self.slot(lt.0, lt.1);
                    let b = self.boards@[i]->0;
                    assert(i < old_len);
                    assert(old_self.boards@[i] is Some);
                    old_self.lemma_slot_bound(b.l as int, b.t as int);
                    self.lemma_slot_injective(b.l as int, b.t as int, lt.0, lt.1);
                }
                assert forall|lt: (int, int)| #[trigger] old_self.view().dom().contains(lt) implies self.view().dom().contains(lt) by {
                    old_self.lemma_slot_bound(lt.0, lt.1);
                }
                assert(self.view() =~= old_self.view());
            }
        }
    }

    /// Inserts a board, at the coordinates given by its `l` and `t` fields, replacing the
    /// board that was there, and growing the buffer if needed.
    pub fn insert_board(&mut self, board: Board)
        requires
            old(self).valid(),
            old(self).insertable(board.l as int, board.t as int),
        ensures
            final(self).valid(),
            final(self)@ == old(self)@.insert((board.l as int, board.t as int), board),
            final(self).spec_min_time() == if board.t < old(self).spec_min_time() { board.t as int } else { old(self).spec_min_time() },
    {
        let ghost old_self = *self;
        let l: usize = Self::column(board.l);
        if l >= self.timeline_width * 2 + 1 || board.t < self.min_time || board.t > self.max_time {
            self.resize_boards(l, board.t);
        }
        let w: usize = self.timeline_width * 2 + 1;
        let ghost lt = (board.l as int, board.t as int);
        proof {
            assert(self.has_slot(lt.0, lt.1));
            self.lemma_slot_bound(lt.0, lt.1);
        }
        let t: usize = (board.t - self.min_time) as usize;
        let ghost mid = *self;
        self.boards.set(l + t * w, Some(board));
        proof {
            let index = l + t * w;
            assert(index == mid.slot(lt.0, lt.1));
            assert forall|i: int| 0 <= i < self.boards.len() && (#[trigger] self.boards@[i]) is Some implies {
                let b = self.boards@[i]->0;
                &&& self.has_slot(b.l as int, b.t as int)
                &&& self.slot(b.l as int, b.t as int) == i
                &&& coords_in_bounds(b.l as int, b.t as int)
            } by {
                if i != index {
                    assert(mid.boards@[i] == self.boards@[i]);
                }
            }
            assert forall|lt2: (int, int)| #[trigger] self.view().dom().contains(lt2) <==> mid.view().insert(lt, board).dom().contains(lt2) by {
                if lt2 != lt {
                    if mid.has_slot(lt2.0, lt2.1) {
                        mid.lemma_slot_bound(lt2.0, lt2.1);
                        if mid.slot(lt2.0, lt2.1) == index {
                            mid.lemma_slot_injective(lt2.0, lt2.1, lt.0, lt.1);
                        }
                    }
                }
            }
            assert forall|lt2: (int, int)| #[trigger] self.view().dom().contains(lt2) implies self.view()[lt2] == mid.view().insert(lt, board)[lt2] by {
                if lt2 != lt {
                    mid.lemma_slot_bound(lt2.0, lt2.1);
                    if mid.slot(lt2.0, lt2.1) == index {
                        mid.lemma_slot_injective(lt2.0, lt2.1, lt.0, lt.1);
                    }
                }
            }
            assert(self.view() =~= mid.view().insert(lt, board));
        }
    }
}

impl BoardArray {
    /// A mutable reference to the board at `(l, t)`, if there is one.
    /// The array stays well formed if the board keeps its coordinates.
    pub fn get_board_mut(&mut self, lt: (Layer, Time)) -> (res: Option<&mut Board>)
        requires
            old(self).valid(),
        ensures
            match res {
                Some(b) => {
                    &&& old(self)@.dom().contains((lt.0 as int, lt.1 as int))
                    &&& *b == old(self)@[(lt.0 as int, lt.1 as int)]
                    &&& (final(b).l == lt.0 && final(b).t == lt.1) ==> {
                        &&& final(self).valid()
                        &&& final(self)@ == old(self)@.insert((lt.0 as int, lt.1 as int), *final(b))
                        &&& final(self).spec_min_time() == old(self).spec_min_time()
                    }
                },
                None => {
                    &&& !old(self)@.dom().contains((lt.0 as int, lt.1 as int))
                    &&& final(self).valid()
                    &&& final(self)@ == old(self)@
                    &&& final(self).spec_min_time() == old(self).spec_min_time()
                },
            },
    {
        let (l, t) = lt;
        if l < -COORD_BOUND || l > COORD_BOUND || t < -COORD_BOUND || t > COORD_BOUND {
            proof { self.lemma_keys(); }
            return None;
        }
        let (index, success) = self.get_index(l, t);
        if success {
            proof {
                assert forall|o: Option<Board>| o is Some && o->0.l == l && o->0.t == t implies
                    wf_of(#[trigger] self.boards@.update(index as int, o), self.timeline_width as int, self.min_time as int, self.max_time as int)
                    && view_of(self.boards@.update(index as int, o), self.timeline_width as int, self.min_time as int, self.max_time as int) == self.view().insert((l as int, t as int), o->0) by {
                    self.lemma_put(o->0);
                }
                assert forall|o: Option<Board>| o is None && self.boards@[index as int] is None implies
                    #[trigger] self.boards@.update(index as int, o) == self.boards@ by {
                    assert(self.boards@.update(index as int, o) =~= self.boards@);
                }
            }
            self.boards[index].as_mut()
        } else {
            None
        }
    }
}

impl BoardArray {
    /// Putting a board into the slot of its own coordinates keeps the buffer well formed
    /// and inserts the board into the view.
    proof fn lemma_put(&self, b: Board)
        requires
            self.wf(),
            self.has_slot(b.l as int, b.t as int),
            coords_in_bounds(b.l as int, b.t as int),
        ensures
            wf_of(self.boards@.update(self.slot(b.l as int, b.t as int), Some(b)), self.timeline_width as int, self.min_time as int, self.max_time as int),
            view_of(self.boards@.update(self.slot(b.l as int, b.t as int), Some(b)), self.timeline_width as int, self.min_time as int, self.max_time as int)
                == self.view().insert((b.l as int, b.t as int), b),
    {
        let lt = (b.l as int, b.t as int);
        let index = self.slot(lt.0, lt.1);
        self.lemma_slot_bound(lt.0, lt.1);
        let nb = self.boards@.update(index, Some(b));
        let (tw, mn, mx) = (self.timeline_width as int, self.min_time as int, self.max_time as int);
        assert forall|i: int| 0 <= i < nb.len() && (#[trigger] nb[i]) is Some implies {
            let c = nb[i]->0;
            &&& has_slot_of(tw, mn, mx, c.l as int, c.t as int)
            &&& slot_of(tw, mn, c.l as int, c.t as int) == i
            &&& coords_in_bounds(c.l as int, c.t as int)
        } by {
            if i != index {
                assert(self.boards@[i] == nb[i]);
            }
        }
        let v = view_of(nb, tw, mn, mx);
        assert forall|lt2: (int, int)| #[trigger] v.dom().contains(lt2) <==> self.view().insert(lt, b).dom().contains(lt2) by {
            if lt2 != lt && self.has_slot(lt2.0, lt2.1) {
                self.lemma_slot_bound(lt2.0, lt2.1);
                if self.slot(lt2.0, lt2.1) == index {
                    self.lemma_slot_injective(lt2.0, lt2.1, lt.0, lt.1);
                }
            }
        }
        assert forall|lt2: (int, int)| #[trigger] v.dom().contains(lt2) implies v[lt2] == self.view().insert(lt, b)[lt2] by {
            if lt2 != lt {
                self.lemma_slot_bound(lt2.0, lt2.1);
                if self.slot(lt2.0, lt2.1) == index {
                    self.lemma_slot_injective(lt2.0, lt2.1, lt.0, lt.1);
                }
            }
        }
        assert(v =~= self.view().insert(lt, b));
    }
}

/// The boards held in the slots `s`, in order.
pub open spec fn somes(s: Seq<Option<Board>>) -> Seq<Board>
    decreases s.len(),
{
    if s.len() == 0 {
        Seq::empty()
    } else {
        let r = somes(s.drop_last());
        match s.last() {
            Some(b) => r.push(b),
            None => r,
        }
    }
}

/// The boards held in the first `i + 1` slots of `s` are those of the first `i` slots, and
/// the board in slot `i`, if any.
pub proof fn lemma_somes_step(s: Seq<Option<Board>>, i: int)
    requires
        0 <= i < s.len(),
    ensures
        somes(s.take(i + 1)) == match s[i] {
            Some(b) => somes(s.take(i)).push(b),
            None => somes(s.take(i)),
        },
{
    assert(s.take(i + 1).drop_last() =~= s.take(i));
}

impl BoardArray {
    /// The slots of the buffer, in order: one row per time coordinate, one column per timeline.
    pub closed spec fn slots(&self) -> Seq<Option<Board>> {
        self.boards@
    }

    /// Each board in a slot is held at its own coordinates, no two slots hold boards with
    /// the same coordinates, and each board held is in some slot.
    pub proof fn lemma_slots(&self)
        requires
            self.valid(),
        ensures
            forall|i: int| 0 <= i < self.slots().len() && (#[trigger] self.slots()[i]) is Some ==> {
                let b = self.slots()[i]->0;
                &&& self.view().dom().contains((b.l as int, b.t as int))
                &&& self.view()[(b.l as int, b.t as int)] == b
            },
            forall|i: int, j: int|
                0 <= i < self.slots().len() && 0 <= j < self.slots().len() && i != j && (#[trigger] self.slots()[i]) is Some && (#[trigger] self.slots()[j]) is Some
                    ==> (self.slots()[i]->0.l, self.slots()[i]->0.t) != (self.slots()[j]->0.l, self.slots()[j]->0.t),
            forall|k: (int, int)| #[trigger] self.view().dom().contains(k) ==> exists|i: int| 0 <= i < self.slots().len() && self.slots()[i] == Some(self.view()[k]),
    {
        assert forall|k: (int, int)| #[trigger] self.view().dom().contains(k) implies exists|i: int| 0 <= i < self.slots().len() && self.slots()[i] == Some(self.view()[k]) by {
            self.lemma_slot_bound(k.0, k.1);
            let i = self.slot(k.0, k.1);
            assert(self.slots()[i] == Some(self.view()[k]));
        }
    }

    /// The slots of the buffer.
    pub fn iter(&self) -> (res: &Vec<Option<Board>>)
        ensures
            res@ == self.slots(),
    {
        &self.boards
    }

    /// The slots of the buffer, taken out of it.
    pub fn into_iter(self) -> (res: Vec<Option<Board>>)
        ensures
            res@ == self.slots(),
    {
        self.boards
    }

    /// The boards held, with their coordinates, in the order of the slots.
    pub fn iter_boards(&self) -> (res: Vec<((Layer, Time), &Board)>)
        ensures
            res@.map_values(|e: ((Layer, Time), &Board)| *e.1) == somes(self.slots()),
            forall|i: int| 0 <= i < res.len() ==> (#[trigger] res@[i]).0 == (res@[i].1.l, res@[i].1.t),
    {
        let mut res: Vec<((Layer, Time), &Board)> = Vec::new();
        let mut i: usize = 0;
        while i < self.boards.len()
            invariant
                0 <= i <= self.boards.len(),
                res@.map_values(|e: ((Layer, Time), &Board)| *e.1) == somes(self.boards@.take(i as int)),
                forall|j: int| 0 <= j < res.len() ==> (#[trigger] res@[j]).0 == (res@[j].1.l, res@[j].1.t),
            decreases self.boards.len() - i,
        {
            proof {
                lemma_somes_step(self.boards@, i as int);
            }
            match &self.boards[i] {
                Some(board) => {
                    let ghost before = res@;
                    res.push(((board.l, board.t), board));
                    assert(res@.map_values(|e: ((Layer, Time), &Board)| *e.1) =~= before.map_values(|e: ((Layer, Time), &Board)| *e.1).push(*board));
                },
                None => {},
            }
            i = i + 1;
        }
        assert(self.boards@.take(self.boards.len() as int) =~= self.boards@);
        res
    }
}

/// The main game state: the boards, their size and the timeline information.
#[derive(Debug, PartialEq, Eq)]
pub struct Game {
    pub boards: BoardArray,
    pub width: Physical,
    pub height: Physical,
    pub info: Info,
}

impl Game {
    /// The boards are well formed and held in a well formed `BoardArray`.
    pub open spec fn valid(&self) -> bool {
        &&& self.boards.valid()
        &&& forall|k: (int, int)| #[trigger] self.boards@.dom().contains(k) ==> self.boards@[k].wf()
    }

    /// Creates a new game with no board; the present is derived from the timelines.
    pub fn new(
        width: Physical,
        height: Physical,
        even_timelines: bool,
        timelines_white: Vec<TimelineInfo>,
        timelines_black: Vec<TimelineInfo>,
    ) -> (res: Self)
        requires
            timelines_white.len() >= 1,
            even_timelines ==> timelines_black.len() >= 1,
            timelines_white.len() + timelines_black.len() <= isize::MAX,
        ensures
            res.valid(),
            res.boards@ == Map::<(int, int), Board>::empty(),
            res.boards.spec_min_time() == 0,
            res.width == width,
            res.height == height,
            res.info.even_timelines == even_timelines,
            res.info.timelines_white == timelines_white,
            res.info.timelines_black == timelines_black,
            res.info.present == res.info.spec_present(),
            res.info.active_player == (res.info.present % 2 == 0),
    {
        let boards = BoardArray::empty();
        Game { boards, width, height, info: Info::new(even_timelines, timelines_white, timelines_black) }
    }

    /// The board at `(l, t)`, if there is one.
    pub fn get_board(&self, lt: (Layer, Time)) -> (res: Option<&Board>)
        requires
            self.valid(),
        ensures
            match res {
                Some(b) => self.boards@.dom().contains((lt.0 as int, lt.1 as int)) && *b == self.boards@[(lt.0 as int, lt.1 as int)],
                None => !self.boards@.dom().contains((lt.0 as int, lt.1 as int)),
            },
    {
        self.boards.get_board(lt)
    }

    /// A mutable reference to the board at `(l, t)`, if there is one.
    pub fn get_board_mut(&mut self, lt: (Layer, Time)) -> (res: Option<&mut Board>)
        requires
            old(self).boards.valid(),
        ensures
            final(self).width == old(self).width,
            final(self).height == old(self).height,
            final(self).info == old(self).info,
            match res {
                Some(b) => {
                    &&& old(self).boards@.dom().contains((lt.0 as int, lt.1 as int))
                    &&& *b == old(self).boards@[(lt.0 as int, lt.1 as int)]
                    &&& (final(b).l == lt.0 && final(b).t == lt.1) ==> {
                        &&& final(self).boards.valid()
                        &&& final(self).boards@ == old(self).boards@.insert((lt.0 as int, lt.1 as int), *final(b))
                    }
                },
                None => {
                    &&& !old(self).boards@.dom().contains((lt.0 as int, lt.1 as int))
                    &&& final(self).boards.valid()
                    &&& final(self).boards@ == old(self).boards@
                },
            },
    {
        self.boards.get_board_mut(lt)
    }

    /// The board at `(l, t)`, which must be present.
    pub fn get_board_unchecked(&self, lt: (Layer, Time)) -> (res: &Board)
        requires
            self.valid(),
            self.boards@.dom().contains((lt.0 as int, lt.1 as int)),
        ensures
            *res == self.boards@[(lt.0 as int, lt.1 as int)],
    {
        self.boards.get_board_unchecked(lt)
    }

    /// The tile at `⟨l, t, x, y⟩`: `Tile::Void` if there is no such board or the square lies out of it.
    pub fn get(&self, c: Coords) -> (res: Tile)
        requires
            self.valid(),
        ensures
            res == spec_game_get(self.boards@, c),
    {
        let Coords(l, t, x, y) = c;
        match self.get_board((l, t)) {
            Some(b) => b.get((x, y)),
            None => Tile::Void,
        }
    }

    /// The tile at `⟨l, t, x, y⟩`; the board must be present and the square must lie within it.
    pub fn get_unchecked(&self, c: Coords) -> (res: Tile)
        requires
            self.valid(),
            self.boards@.dom().contains((c.0 as int, c.1 as int)),
            self.boards@[(c.0 as int, c.1 as int)].in_bounds(c.2 as int, c.3 as int),
        ensures
            res == spec_game_get(self.boards@, c),
    {
        let Coords(l, t, x, y) = c;
        self.boards.get_board_unchecked((l, t)).get_unchecked((x, y))
    }

    /// Inserts a board into the game, at the coordinates given by its `l` and `t` fields.
    pub fn insert_board(&mut self, board: Board)
        requires
            old(self).valid(),
            board.wf(),
            old(self).boards.insertable(board.l as int, board.t as int),
        ensures
            final(self).valid(),
            final(self).boards@ == old(self).boards@.insert((board.l as int, board.t as int), board),
            final(self).width == old(self).width,
            final(self).height == old(self).height,
            final(self).info == old(self).info,
    {
        self.boards.insert_board(board)
    }
}

impl Game {
    /// The boards of the game, with their coordinates, in the order of the slots of `boards`.
    pub fn iter_boards(&self) -> (res: Vec<((Layer, Time), &Board)>)
        ensures
            res@.map_values(|e: ((Layer, Time), &Board)| *e.1) == somes(self.boards.slots()),
            forall|i: int| 0 <= i < res.len() ==> (#[trigger] res@[i]).0 == (res@[i].1.l, res@[i].1.t),
    {
        self.boards.iter_boards()
    }
}

/// The tile at `c` among the boards `boards`.
pub open spec fn spec_game_get(boards: Map<(int, int), Board>, c: Coords) -> Tile {
    if boards.dom().contains((c.0 as int, c.1 as int)) {
        boards[(c.0 as int, c.1 as int)].spec_get(c.2 as int, c.3 as int)
    } else {
        Tile::Void
    }
}

} // verus!
