use vstd::prelude::*;
use crate::bitboard::{BitBoardMask, BitBoards};
use crate::bits::bit;
use crate::info::Info;
use crate::tile::Tile;
use crate::{Layer, Physical, Time};

verus! {

/// The castling bitboard of a board of width `w` with castling information `castle`.
pub open spec fn castle_bits(castle: Option<(Physical, Physical, Physical, Physical)>, w: int) -> u64 {
    match castle {
        Some((x1, y1, x2, y2)) => ((1u64 << ((x1 + y1 * w) as u64)) | (1u64 << ((x2 + y2 * w) as u64))) as u64,
        None => 0u64,
    }
}

/// The castling squares lie within the first 64 tiles of a board of width `w`.
pub open spec fn castle_fits(castle: Option<(Physical, Physical, Physical, Physical)>, w: int) -> bool {
    match castle {
        Some((x1, y1, x2, y2)) => 0 <= x1 && 0 <= y1 && 0 <= x2 && 0 <= y2 && x1 + y1 * w < 64 && x2 + y2 * w < 64,
        None => true,
    }
}

/// A board of the game: `width` x `height` tiles, stored row by row, with its coordinates
/// and the information needed to process it (en passant, castling, bitboards).
///
/// When a board is mutated through its public fields rather than through `set` or
/// `set_castle`, its bitboards are not updated; `synced` states when they are.
#[derive(PartialEq, Eq, Hash, Debug)]
pub struct Board {
    pub l: Layer,
    pub t: Time,
    pub width: Physical,
    pub height: Physical,
    pub pieces: Vec<Tile>,
    pub en_passant: Option<(Physical, Physical)>,
    pub castle: Option<(Physical, Physical, Physical, Physical)>,
    pub bitboards: BitBoards,
    pub fits_bitboards: bool,
}

/// The contents of a board, as plain values.
#[verifier::ext_equal]
pub struct BoardView {
    pub l: int,
    pub t: int,
    pub width: int,
    pub height: int,
    pub pieces: Seq<Tile>,
    pub en_passant: Option<(Physical, Physical)>,
    pub castle: Option<(Physical, Physical, Physical, Physical)>,
    pub bitboards: BitBoards,
    pub fits_bitboards: bool,
}

impl BoardView {
    /// The tile at `(x, y)`, or `Tile::Void` out of the board.
    pub open spec fn get(self, x: int, y: int) -> Tile {
        if 0 <= x < self.width && 0 <= y < self.height {
            self.pieces[x + self.width * y]
        } else {
            Tile::Void
        }
    }
}

impl View for Board {
    type V = BoardView;

    open spec fn view(&self) -> BoardView {
        BoardView {
            l: self.l as int,
            t: self.t as int,
            width: self.width as int,
            height: self.height as int,
            pieces: self.pieces@,
            en_passant: self.en_passant,
            castle: self.castle,
            bitboards: self.bitboards,
            fits_bitboards: self.fits_bitboards,
        }
    }
}

/// The contents of the boards of `m`.
pub open spec fn board_views(m: Map<(int, int), Board>) -> Map<(int, int), BoardView> {
    m.map_values(|b: Board| b@)
}

/// The contents of the boards of `m` with `b` inserted at `k` are those of `m` with the
/// contents of `b` inserted at `k`.
pub proof fn lemma_views_insert(m: Map<(int, int), Board>, k: (int, int), b: Board)
    ensures
        board_views(m.insert(k, b)) == board_views(m).insert(k, b@),
{
    assert(board_views(m.insert(k, b)) =~= board_views(m).insert(k, b@));
}

impl Board {
    /// The number of columns.
    pub open spec fn spec_width(&self) -> int {
        self.width as int
    }

    /// The number of rows.
    pub open spec fn spec_height(&self) -> int {
        self.height as int
    }

    /// Whether the board is small enough for its tiles to be held in bitboards.
    pub open spec fn spec_fits_bitboards(&self) -> bool {
        self.fits_bitboards
    }

    /// The board's size is consistent with its tiles: one tile per square, and the index
    /// of every square fits in a `Physical`.
    pub open spec fn wf(&self) -> bool {
        &&& 0 <= self.spec_width()
        &&& 0 <= self.spec_height()
        &&& self.spec_width() * self.spec_height() <= 128
        &&& self.pieces.len() == self.spec_width() * self.spec_height()
        &&& self.spec_fits_bitboards() == (self.spec_width() * self.spec_height() <= 64)
    }

    /// The bitboards are kept in sync with the tiles and the castling information if the
    /// board has at most 64 squares.
    pub open spec fn synced(&self) -> bool {
        &&& self.spec_fits_bitboards() == (self.spec_width() * self.spec_height() <= 64)
        &&& self.spec_fits_bitboards() ==> self.bitboards.holds(self.pieces@)
        &&& self.spec_fits_bitboards() ==> self.bitboards.castle == castle_bits(self.castle, self.spec_width())
    }

    /// Whether `(x, y)` lies within the board.
    pub open spec fn in_bounds(&self, x: int, y: int) -> bool {
        0 <= x < self.spec_width() && 0 <= y < self.spec_height()
    }

    /// The index in `pieces` of the tile at `(x, y)`.
    pub open spec fn index_of(&self, x: int, y: int) -> int {
        x + self.spec_width() * y
    }

    /// The tile at `(x, y)`, or `Tile::Void` out of the board.
    pub open spec fn spec_get(&self, x: int, y: int) -> Tile {
        if self.in_bounds(x, y) {
            self.pieces[self.index_of(x, y)]
        } else {
            Tile::Void
        }
    }

    /// Creates a new board; its bitboards are filled according to `pieces` if the board
    /// has at most 64 squares.
    pub fn new(
        width: Physical,
        height: Physical,
        l: Layer,
        t: Time,
        pieces: Vec<Tile>,
        en_passant: Option<(Physical, Physical)>,
        castle: Option<(Physical, Physical, Physical, Physical)>,
    ) -> (res: Self)
        requires
            0 <= width,
            0 <= height,
            width * height <= 64 ==> pieces.len() <= 64 && castle_fits(castle, width as int),
        ensures
            res.spec_width() == width,
            res.spec_height() == height,
            res.l == l,
            res.t == t,
            res.pieces == pieces,
            res.en_passant == en_passant,
            res.castle == castle,
            res.synced(),
            res.wf() <==> (pieces.len() == width * height && width * height <= 128),
    {
        proof {
            assert((width as u32) * (height as u32) <= 127 * 127) by (nonlinear_arith)
                requires
                    0 <= width <= 127,
                    0 <= height <= 127;
        }
        let fits_bitboards = (width as u32) * (height as u32) <= 64;
        let bitboards = if fits_bitboards {
            let mut res = BitBoards::from_pieces(&pieces);
            if let Some((x1, y1, x2, y2)) = castle {
                res.set_castle(
                    Some((x1 as u32 + y1 as u32 * width as u32, x2 as u32 + y2 as u32 * width as u32)),
                );
            }
            res
        } else {
            BitBoards::default()
        };
        Board { width, height, l, t, pieces, en_passant, bitboards, fits_bitboards, castle }
    }

    /// The timeline coordinate of the board.
    pub fn l(&self) -> (res: Layer)
        ensures
            res == self.l,
    {
        self.l
    }

    /// The time coordinate of the board.
    pub fn t(&self) -> (res: Time)
        ensures
            res == self.t,
    {
        self.t
    }

    /// The timeline and time coordinates of the board.
    pub fn non_physical(&self) -> (res: (Layer, Time))
        ensures
            res == (self.l, self.t),
    {
        (self.l, self.t)
    }

    /// The width of the board.
    pub fn width(&self) -> (res: Physical)
        ensures
            res == self.spec_width(),
    {
        self.width
    }

    /// The height of the board.
    pub fn height(&self) -> (res: Physical)
        ensures
            res == self.spec_height(),
    {
        self.height
    }

    /// The en passant information of the board.
    pub fn en_passant(&self) -> (res: Option<(Physical, Physical)>)
        ensures
            res == self.en_passant,
    {
        self.en_passant
    }

    /// Sets the en passant information of the board.
    pub fn set_en_passant(&mut self, en_passant: Option<(Physical, Physical)>)
        ensures
            *final(self) == (Board { en_passant, ..*old(self) }),
    {
        self.en_passant = en_passant
    }

    /// The castling information of the board.
    pub fn castle(&self) -> (res: Option<(Physical, Physical, Physical, Physical)>)
        ensures
            res == self.castle,
    {
        self.castle
    }

    /// Sets the castling information of the board, and its castling bitboard if the board
    /// has at most 64 squares.
    pub fn set_castle(&mut self, castle: Option<(Physical, Physical, Physical, Physical)>)
        requires
            old(self).spec_fits_bitboards() ==> castle_fits(castle, old(self).spec_width()),
            0 <= old(self).spec_width(),
        ensures
            final(self).castle == castle,
            final(self).pieces == old(self).pieces,
            final(self).l == old(self).l,
            final(self).t == old(self).t,
            final(self).en_passant == old(self).en_passant,
            final(self).spec_width() == old(self).spec_width(),
            final(self).spec_height() == old(self).spec_height(),
            final(self).spec_fits_bitboards() == old(self).spec_fits_bitboards(),
            old(self).spec_fits_bitboards() ==> final(self).bitboards.castle == castle_bits(castle, old(self).spec_width()),
            !old(self).spec_fits_bitboards() ==> final(self).bitboards == old(self).bitboards,
            old(self).synced() ==> final(self).synced(),
    {
        self.castle = castle;
        if self.fits_bitboards {
            if let Some((x1, y1, x2, y2)) = castle {
                self.bitboards.set_castle(
                    Some((
                        x1 as u32 + y1 as u32 * self.width as u32,
                        x2 as u32 + y2 as u32 * self.width as u32,
                    )),
                );
            } else {
                self.bitboards.set_castle(None);
            }
        }
    }

    /// The tile at `(x, y)`; `Tile::Void` if the coordinates lie out of the board.
    pub fn get(&self, xy: (Physical, Physical)) -> (res: Tile)
        requires
            self.wf(),
        ensures
            res == self.spec_get(xy.0 as int, xy.1 as int),
    {
        let (x, y) = xy;
        if x < 0 || x >= self.width || y < 0 || y >= self.height {
            Tile::Void
        } else {
            proof { lemma_index_bound(self.width as int, self.height as int, x as int, y as int); }
            self.pieces[(x + self.width * y) as usize]
        }
    }

    /// The tile at `(x, y)`, which must lie within the board.
    pub fn get_unchecked(&self, xy: (Physical, Physical)) -> (res: Tile)
        requires
            self.wf(),
            self.in_bounds(xy.0 as int, xy.1 as int),
        ensures
            res == self.spec_get(xy.0 as int, xy.1 as int),
    {
        let (x, y) = xy;
        proof { lemma_index_bound(self.width as int, self.height as int, x as int, y as int); }
        self.pieces[(x + self.width * y) as usize]
    }

    /// Returns true if the board belongs to white (even time coordinate).
    pub fn white(&self) -> (res: bool)
        ensures
            res == (self.t % 2 == 0),
    {
        self.t % 2 == 0
    }

    /// Sets the tile at `(x, y)` (and the bitboards, if the board fits in them).
    /// Returns `Some(())` if the coordinates lie within the board, `None` otherwise.
    pub fn set(&mut self, xy: (Physical, Physical), tile: Tile) -> (res: Option<()>)
        requires
            old(self).wf(),
        ensures
            res is Some <==> old(self).in_bounds(xy.0 as int, xy.1 as int),
            res is Some ==> final(self).pieces@ == old(self).pieces@.update(old(self).index_of(xy.0 as int, xy.1 as int), tile),
            res is None ==> *final(self) == *old(self),
            final(self).wf(),
            final(self).l == old(self).l,
            final(self).t == old(self).t,
            final(self).en_passant == old(self).en_passant,
            final(self).castle == old(self).castle,
            final(self).spec_width() == old(self).spec_width(),
            final(self).spec_height() == old(self).spec_height(),
            final(self).spec_fits_bitboards() == old(self).spec_fits_bitboards(),
            old(self).synced() ==> final(self).synced(),
    {
        let (x, y) = xy;
        if x >= 0 && x < self.width && y >= 0 && y < self.height {
            self.set_unchecked(xy, tile);
            Some(())
        } else {
            None
        }
    }

    /// Sets the tile at `(x, y)`, which must lie within the board (and the bitboards, if the board fits in them).
    pub fn set_unchecked(&mut self, xy: (Physical, Physical), tile: Tile)
        requires
            old(self).wf(),
            old(self).in_bounds(xy.0 as int, xy.1 as int),
        ensures
            final(self).pieces@ == old(self).pieces@.update(old(self).index_of(xy.0 as int, xy.1 as int), tile),
            final(self).wf(),
            final(self).l == old(self).l,
            final(self).t == old(self).t,
            final(self).en_passant == old(self).en_passant,
            final(self).castle == old(self).castle,
            final(self).spec_width() == old(self).spec_width(),
            final(self).spec_height() == old(self).spec_height(),
            final(self).spec_fits_bitboards() == old(self).spec_fits_bitboards(),
            old(self).synced() ==> final(self).synced(),
    {
        let (x, y) = xy;
        proof { lemma_index_bound(self.width as int, self.height as int, x as int, y as int); }
        let index = x as usize + self.width as usize * y as usize;
        let ghost before = *self;
        self.pieces.set(index, tile);
        if self.fits_bitboards {
            let mask = tile.bitboard_mask();
            self.bitboards.set(&mask, index as u32);
            proof {
                if before.synced() {
                    lemma_holds_update(before.bitboards, self.bitboards, mask, before.pieces@, index as int, tile);
                }
            }
        }
    }
}

/// The index `x + w * y` of a square within a board of size `w` x `h` lies in `[0, w * h)`.
pub proof fn lemma_index_bound(w: int, h: int, x: int, y: int)
    requires
        0 <= x < w,
        0 <= y < h,
    ensures
        0 <= w * y,
        w * y <= w * h - w,
        0 <= x + w * y < w * h,
{
    assert(0 <= w * y) by (nonlinear_arith)
        requires
            0 <= y,
            0 <= w;
    assert(w * y <= w * h - w) by (nonlinear_arith)
        requires
            y < h,
            0 <= w;
}

/// Putting the tile described by `mask` at bit `index` of bitboards holding `pieces` gives
/// bitboards holding `pieces` with `tile` at `index`.
proof fn lemma_holds_update(before: BitBoards, after: BitBoards, mask: BitBoardMask, pieces: Seq<Tile>, index: int, tile: Tile)
    requires
        0 <= index < pieces.len() <= 64,
        before.holds(pieces),
        mask.describes(tile),
        BitBoards::set_spec(before, after, mask, index as u64),
    ensures
        after.holds(pieces.update(index, tile)),
{
    let next = pieces.update(index, tile);
    let s = index as u64;
    assert forall|n: int, i: u64| 0 <= n < crate::bitboard::N_BITBOARDS implies #[trigger] bit(after.white[n], i) == (i < next.len() && crate::bitboard::tile_white(next[i as int], n)) by {
        assert(crate::bitboard::set_at(before.white[n], after.white[n], s, mask.white[n]));
        assert(bit(before.white[n], i) == (i < pieces.len() && crate::bitboard::tile_white(pieces[i as int], n)));
    }
    assert forall|n: int, i: u64| 0 <= n < crate::bitboard::N_BITBOARDS implies #[trigger] bit(after.black[n], i) == (i < next.len() && crate::bitboard::tile_black(next[i as int], n)) by {
        assert(crate::bitboard::set_at(before.black[n], after.black[n], s, mask.black[n]));
        assert(bit(before.black[n], i) == (i < pieces.len() && crate::bitboard::tile_black(pieces[i as int], n)));
    }
    assert forall|i: u64| #[trigger] bit(after.white_royal, i) == (i < next.len() && crate::bitboard::tile_white_royal(next[i as int])) by {
        assert(bit(before.white_royal, i) == (i < pieces.len() && crate::bitboard::tile_white_royal(pieces[i as int])));
    }
    assert forall|i: u64| #[trigger] bit(after.black_royal, i) == (i < next.len() && crate::bitboard::tile_black_royal(next[i as int])) by {
        assert(bit(before.black_royal, i) == (i < pieces.len() && crate::bitboard::tile_black_royal(pieces[i as int])));
    }
    assert forall|i: u64| #[trigger] bit(after.white_movable, i) == (i < next.len() && crate::bitboard::tile_white_movable(next[i as int])) by {
        assert(bit(before.white_movable, i) == (i < pieces.len() && crate::bitboard::tile_white_movable(pieces[i as int])));
    }
    assert forall|i: u64| #[trigger] bit(after.black_movable, i) == (i < next.len() && crate::bitboard::tile_black_movable(next[i as int])) by {
        assert(bit(before.black_movable, i) == (i < pieces.len() && crate::bitboard::tile_black_movable(pieces[i as int])));
    }
}

impl Clone for Board {
    fn clone(&self) -> (res: Self)
        ensures
            res.pieces@ == self.pieces@,
            res.l == self.l,
            res.t == self.t,
            res.width == self.width,
            res.height == self.height,
            res.en_passant == self.en_passant,
            res.castle == self.castle,
            res.bitboards == self.bitboards,
            res.fits_bitboards == self.fits_bitboards,
            res@ == self@,
    {
        Board {
            l: self.l,
            t: self.t,
            width: self.width,
            height: self.height,
            pieces: self.pieces.clone(),
            en_passant: self.en_passant,
            castle: self.castle,
            bitboards: self.bitboards,
            fits_bitboards: self.fits_bitboards,
        }
    }
}

impl Board {
    /// Returns whether the board is active and must be played on: its timeline is active
    /// and it is not in the future of the present.
    pub fn active(&self, info: &Info) -> (res: bool)
        requires
            self.l > isize::MIN,
            info.within_limits(),
        ensures
            res == (info.spec_is_active(self.l as int) && info.present >= self.t),
    {
        info.is_active(self.l) && info.present >= self.t
    }
}

} // verus!
