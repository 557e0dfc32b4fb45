use vstd::prelude::*;
use vstd::arithmetic::div_mod::{lemma_fundamental_div_mod, lemma_fundamental_div_mod_converse, lemma_mod_bound};
use crate::piece::{kind_is_royal, Piece, PieceKind};
use crate::tile::Tile;
use crate::Physical;
use crate::bits::{bit, lemma_bit_and, lemma_bit_bool, lemma_bit_ext, lemma_bit_high, lemma_bit_low, lemma_bit_not, lemma_bit_or, lemma_bit_shl, lemma_bit_shr, lemma_bit_single, lemma_bit_zero};

verus! {

/// The number of bits held by one bitboard word; boards of up to 8x8 tiles fit in it.
pub const MAX_BITBOARD_WIDTH: usize = 8;

/// Euclidean row/column decomposition: `k = q * w + r` with `0 <= r < w` gives `k % w == r`, `k / w == q`.
pub proof fn lemma_row_col(k: int, w: int, q: int, r: int)
    requires
        w > 0,
        0 <= r < w,
        k == w * q + r,
    ensures
        k % w == r,
        k / w == q,
{
    assert(w * q == q * w) by (nonlinear_arith);
    lemma_fundamental_div_mod_converse(k, w, q, r);
}

/// The bits `j < 64` selected by the mask applied before a right shift of `shift` on a board
/// of width `width`: those whose column is at least `shift`.
pub open spec fn rshift_mask_bit(width: int, shift: int, j: int) -> bool {
    0 <= j < 64 && j % width >= shift
}

/// The bits `j < 64` selected by the mask applied before a left shift of `shift` on a board
/// of width `width`: those whose column plus `shift` stays below `width`.
pub open spec fn lshift_mask_bit(width: int, shift: int, j: int) -> bool {
    0 <= j < 64 && j % width + shift < width
}

proof fn lemma_band(w: u64, s: u64)
    requires
        s <= w,
        w < 64,
    ensures
        forall|i: u64| #[trigger] bit(((1u64 << w) - (1u64 << s)) as u64, i) == (s <= i && i < w),
{
    assert forall|i: u64| #[trigger] bit(((1u64 << w) - (1u64 << s)) as u64, i) == (s <= i && i < w) by {
        assert(s <= w && w < 64 ==> ((((((1u64 << w) - (1u64 << s)) as u64) >> i) & 1 == 1) <==> (s <= i && i < w))) by (bit_vector);
    }
}

/// Computes the mask of the bits whose column is at least `shift`, for boards of width `width`.
pub fn rshift_mask(width: usize, shift: usize) -> (mask: u64)
    requires
        1 <= width <= MAX_BITBOARD_WIDTH,
    ensures
        forall|j: u64| #[trigger] bit(mask, j) == rshift_mask_bit(width as int, shift as int, j as int),
{
    if shift >= width {
        proof {
            assert forall|j: u64| #[trigger] bit(0u64, j) == rshift_mask_bit(width as int, shift as int, j as int) by {
                lemma_bit_zero(j);
            }
        }
        return 0;
    }
    proof {
        let (w, s) = (width as u64, shift as u64);
        assert(s <= w && w < 64 ==> (1u64 << s) <= (1u64 << w)) by (bit_vector);
    }
    let mut kernel: u64 = (1u64 << width) - (1u64 << shift);
    let mut mask: u64 = kernel;
    let ghost mut r: int = 0;
    proof {
        lemma_band(width as u64, shift as u64);
        assert forall|j: u64| #[trigger] bit(kernel, j) == (j < 64 && width * r + shift <= j && j < width * r + width) by {
            if j >= 64 { lemma_bit_high(kernel, j); }
        }
        assert forall|j: u64| #[trigger] bit(mask, j) == (j < 64 && j < width * r + width && (j as int) % (width as int) >= shift) by {
            if j >= 64 { lemma_bit_high(mask, j); }
            if j < width {
                lemma_row_col(j as int, width as int, 0, j as int);
            }
        }
    }
    while kernel > 0
        invariant
            1 <= width <= MAX_BITBOARD_WIDTH,
            shift < width,
            r >= 0,
            forall|j: u64| #[trigger] bit(kernel, j) == (j < 64 && width * r + shift <= j && j < width * r + width),
            forall|j: u64| #[trigger] bit(mask, j) == (j < 64 && j < width * r + width && (j as int) % (width as int) >= shift),
        decreases 64 - r,
    {
        proof {
            if width * r >= 64 {
                assert forall|j: u64| j < 64 implies bit(kernel, j) == bit(0u64, j) by {
                    lemma_bit_zero(j);
                }
                lemma_bit_ext(kernel, 0u64);
            }
            assert(width * r < 64);
            assert(r < 64) by (nonlinear_arith)
                requires
                    width * r < 64,
                    width >= 1,
                    r >= 0;
        }
        let ghost old_kernel = kernel;
        let ghost old_mask = mask;
        kernel = kernel << width;
        mask = mask | kernel;
        proof {
            r = r + 1;
            assert(width * r == width * (r - 1) + width) by (nonlinear_arith);
            assert(width * r >= width) by (nonlinear_arith)
                requires
                    r >= 1,
                    width >= 1;
            assert forall|j: u64| #[trigger] bit(kernel, j) == (j < 64 && width * r + shift <= j && j < width * r + width) by {
                lemma_bit_shl(old_kernel, width as u64, j);
                if width <= j {
                    assert(bit(old_kernel, (j - width) as u64) == (((j - width) as u64) < 64 && width * (r - 1) + shift <= j - width && j - width < width * (r - 1) + width));
                    assert(width * (r - 1) == width * r - width) by (nonlinear_arith);
                }
            }
            assert forall|j: u64| #[trigger] bit(mask, j) == (j < 64 && j < width * r + width && (j as int) % (width as int) >= shift) by {
                lemma_bit_or(old_mask, kernel, j);
                assert(bit(old_mask, j) == (j < 64 && j < width * (r - 1) + width && (j as int) % (width as int) >= shift));
                assert(width * (r - 1) + width == width * r) by (nonlinear_arith);
                if width * r <= j && j < width * r + width {
                    lemma_row_col(j as int, width as int, r, j - width * r);
                }
            }
        }
    }
    proof {
        assert forall|j: u64| #[trigger] bit(mask, j) == rshift_mask_bit(width as int, shift as int, j as int) by {
            if width * r + shift < 64 {
                let j0 = (width * r + shift) as u64;
                lemma_bit_zero(j0);
                assert(bit(kernel, j0));
            }
            if j < 64 {
                assert(j < width * r + width);
            }
        }
    }
    mask
}

/// Computes the mask of the bits whose column plus `shift` stays below `width`, for boards of width `width`.
pub fn lshift_mask(width: usize, shift: usize) -> (mask: u64)
    requires
        1 <= width <= MAX_BITBOARD_WIDTH,
    ensures
        forall|j: u64| #[trigger] bit(mask, j) == lshift_mask_bit(width as int, shift as int, j as int),
{
    if shift >= width {
        proof {
            assert forall|j: u64| #[trigger] bit(0u64, j) == lshift_mask_bit(width as int, shift as int, j as int) by {
                lemma_bit_zero(j);
            }
        }
        return 0;
    }
    let len: usize = width - shift;
    proof {
        let l = len as u64;
        assert(l < 64 ==> (1u64 << l) >= 1) by (bit_vector);
    }
    let mut kernel: u64 = (1u64 << len) - 1;
    let mut mask: u64 = kernel;
    let ghost mut r: int = 0;
    proof {
        assert forall|j: u64| #[trigger] bit(kernel, j) == (j < 64 && width * r <= j && j < width * r + len) by {
            lemma_bit_low(len as u64, j);
        }
        assert forall|j: u64| #[trigger] bit(mask, j) == (j < 64 && j < width * r + width && (j as int) % (width as int) < len) by {
            lemma_bit_low(len as u64, j);
            if j < width {
                lemma_row_col(j as int, width as int, 0, j as int);
            }
        }
    }
    while kernel > 0
        invariant
            1 <= width <= MAX_BITBOARD_WIDTH,
            shift < width,
            len == width - shift,
            r >= 0,
            forall|j: u64| #[trigger] bit(kernel, j) == (j < 64 && width * r <= j && j < width * r + len),
            forall|j: u64| #[trigger] bit(mask, j) == (j < 64 && j < width * r + width && (j as int) % (width as int) < len),
        decreases 64 - r,
    {
        proof {
            if width * r >= 64 {
                assert forall|j: u64| j < 64 implies bit(kernel, j) == bit(0u64, j) by {
                    lemma_bit_zero(j);
                }
                lemma_bit_ext(kernel, 0u64);
            }
            assert(width * r < 64);
            assert(r < 64) by (nonlinear_arith)
                requires
                    width * r < 64,
                    width >= 1,
                    r >= 0;
        }
        let ghost old_kernel = kernel;
        let ghost old_mask = mask;
        kernel = kernel << width;
        mask = mask | kernel;
        proof {
            r = r + 1;
            assert(width * r == width * (r - 1) + width) by (nonlinear_arith);
            assert(width * r >= width) by (nonlinear_arith)
                requires
                    r >= 1,
                    width >= 1;
            assert forall|j: u64| #[trigger] bit(kernel, j) == (j < 64 && width * r <= j && j < width * r + len) by {
                lemma_bit_shl(old_kernel, width as u64, j);
                if width <= j {
                    assert(bit(old_kernel, (j - width) as u64) == (((j - width) as u64) < 64 && width * (r - 1) <= j - width && j - width < width * (r - 1) + len));
                    assert(width * (r - 1) == width * r - width) by (nonlinear_arith);
                }
            }
            assert forall|j: u64| #[trigger] bit(mask, j) == (j < 64 && j < width * r + width && (j as int) % (width as int) < len) by {
                lemma_bit_or(old_mask, kernel, j);
                assert(bit(old_mask, j) == (j < 64 && j < width * (r - 1) + width && (j as int) % (width as int) < len));
                assert(width * (r - 1) + width == width * r) by (nonlinear_arith);
                if width * r <= j && j < width * r + width {
                    lemma_row_col(j as int, width as int, r, j - width * r);
                }
            }
        }
    }
    proof {
        assert forall|j: u64| #[trigger] bit(mask, j) == lshift_mask_bit(width as int, shift as int, j as int) by {
            if width * r < 64 {
                let j0 = (width * r) as u64;
                lemma_bit_zero(j0);
                assert(bit(kernel, j0));
            }
            if j < 64 {
                assert(j < width * r + width);
            }
        }
    }
    mask
}

/// The number of bitboards of each player, one per basic movement kind:
/// pawn capture, brawn capture (minus pawn capture), the 1- to 4-agonal leapers,
/// the 1- to 4-agonal riders and the knight.
pub const N_BITBOARDS: usize = 11;

/// The movement kinds (bitboard indices) that a piece kind has.
pub open spec fn kernel(kind: PieceKind, n: int) -> bool {
    match kind {
        PieceKind::Pawn => n == 0,
        PieceKind::Knight => n == 10,
        PieceKind::Bishop => n == 7,
        PieceKind::Rook => n == 6,
        PieceKind::Queen => 6 <= n <= 9,
        PieceKind::Princess => n == 6 || n == 7,
        PieceKind::King => 2 <= n <= 5,
        PieceKind::Brawn => n == 0 || n == 1,
        PieceKind::Unicorn => n == 8,
        PieceKind::Dragon => n == 9,
        PieceKind::CommonKing => 2 <= n <= 5,
        PieceKind::RoyalQueen => 6 <= n <= 9,
    }
}

/// Bitboard `n` of white's pieces holds a tile if it is a white piece with movement kind `n`.
pub open spec fn tile_white(tile: Tile, n: int) -> bool {
    match tile {
        Tile::Piece(p) => p.white && kernel(p.kind, n),
        _ => false,
    }
}

/// Bitboard `n` of black's pieces holds a tile if it is a black piece with movement kind `n`.
pub open spec fn tile_black(tile: Tile, n: int) -> bool {
    match tile {
        Tile::Piece(p) => !p.white && kernel(p.kind, n),
        _ => false,
    }
}

/// White's royal bitboard holds the white royal pieces.
pub open spec fn tile_white_royal(tile: Tile) -> bool {
    match tile {
        Tile::Piece(p) => p.white && kind_is_royal(p.kind),
        _ => false,
    }
}

/// Black's royal bitboard holds the black royal pieces.
pub open spec fn tile_black_royal(tile: Tile) -> bool {
    match tile {
        Tile::Piece(p) => !p.white && kind_is_royal(p.kind),
        _ => false,
    }
}

/// White's movable bitboard holds the blank tiles and the black royal pieces.
pub open spec fn tile_white_movable(tile: Tile) -> bool {
    match tile {
        Tile::Piece(p) => !p.white && kind_is_royal(p.kind),
        Tile::Blank => true,
        Tile::Void => false,
    }
}

/// Black's movable bitboard holds the blank tiles and the white royal pieces.
pub open spec fn tile_black_movable(tile: Tile) -> bool {
    match tile {
        Tile::Piece(p) => p.white && kind_is_royal(p.kind),
        Tile::Blank => true,
        Tile::Void => false,
    }
}

/// The state of one tile, as it is put into the bitboards.
#[derive(Clone, Copy, Hash, PartialEq, Eq, Debug)]
pub struct BitBoardMask {
    pub white: [bool; N_BITBOARDS],
    pub white_royal: bool,
    pub white_movable: bool,
    pub black: [bool; N_BITBOARDS],
    pub black_royal: bool,
    pub black_movable: bool,
}

impl BitBoardMask {
    /// The mask holds the state of `tile`.
    pub open spec fn describes(&self, tile: Tile) -> bool {
        &&& forall|n: int| 0 <= n < N_BITBOARDS ==> #[trigger] self.white[n] == tile_white(tile, n)
        &&& forall|n: int| 0 <= n < N_BITBOARDS ==> #[trigger] self.black[n] == tile_black(tile, n)
        &&& self.white_royal == tile_white_royal(tile)
        &&& self.black_royal == tile_black_royal(tile)
        &&& self.white_movable == tile_white_movable(tile)
        &&& self.black_movable == tile_black_movable(tile)
    }
}

impl Default for BitBoardMask {
    /// The mask of a blank tile.
    fn default() -> (res: Self)
        ensures
            res.describes(Tile::Blank),
    {
        BitBoardMask {
            white: [false; N_BITBOARDS],
            white_royal: false,
            white_movable: true,
            black: [false; N_BITBOARDS],
            black_royal: false,
            black_movable: true,
        }
    }
}

/// The movement kinds of a piece kind, as an array indexed by bitboard.
fn kernel_row(kind: PieceKind) -> (res: [bool; N_BITBOARDS])
    ensures
        forall|n: int| 0 <= n < N_BITBOARDS ==> #[trigger] res[n] == kernel(kind, n),
{
    let f = false;
    let t = true;
    match kind {
        PieceKind::Pawn => [t, f, f, f, f, f, f, f, f, f, f],
        PieceKind::Knight => [f, f, f, f, f, f, f, f, f, f, t],
        PieceKind::Bishop => [f, f, f, f, f, f, f, t, f, f, f],
        PieceKind::Rook => [f, f, f, f, f, f, t, f, f, f, f],
        PieceKind::Queen => [f, f, f, f, f, f, t, t, t, t, f],
        PieceKind::Princess => [f, f, f, f, f, f, t, t, f, f, f],
        PieceKind::King => [f, f, t, t, t, t, f, f, f, f, f],
        PieceKind::Brawn => [t, t, f, f, f, f, f, f, f, f, f],
        PieceKind::Unicorn => [f, f, f, f, f, f, f, f, t, f, f],
        PieceKind::Dragon => [f, f, f, f, f, f, f, f, f, t, f],
        PieceKind::CommonKing => [f, f, t, t, t, t, f, f, f, f, f],
        PieceKind::RoyalQueen => [f, f, f, f, f, f, t, t, t, t, f],
    }
}

impl Piece {
    /// Returns the bitboard mask of this piece.
    pub fn bitboard_mask(&self) -> (res: BitBoardMask)
        ensures
            res.describes(Tile::Piece(*self)),
    {
        let row = kernel_row(self.kind);
        let royal = self.is_royal();
        let none = [false; N_BITBOARDS];
        if self.white {
            BitBoardMask {
                white: row,
                white_royal: royal,
                white_movable: false,
                black: none,
                black_royal: false,
                black_movable: royal,
            }
        } else {
            BitBoardMask {
                white: none,
                white_royal: false,
                white_movable: royal,
                black: row,
                black_royal: royal,
                black_movable: false,
            }
        }
    }
}

impl Tile {
    /// Returns the bitboard mask of this tile.
    pub fn bitboard_mask(&self) -> (res: BitBoardMask)
        ensures
            res.describes(*self),
    {
        match self {
            Tile::Piece(p) => p.bitboard_mask(),
            Tile::Blank => BitBoardMask::default(),
            Tile::Void => BitBoardMask {
                white: [false; N_BITBOARDS],
                white_royal: false,
                white_movable: false,
                black: [false; N_BITBOARDS],
                black_royal: false,
                black_movable: false,
            },
        }
    }
}

/// Bit `i` of `new` is `v` if `i == s`, and the same as in `old` otherwise.
pub open spec fn set_at(old: u64, new: u64, s: u64, v: bool) -> bool {
    forall|i: u64| #[trigger] bit(new, i) == if i == s { v } else { bit(old, i) }
}

/// Sets bit `shift` of `word` to `v`, leaving the other bits unchanged.
fn set_bit_to(word: u64, shift: u32, v: bool) -> (res: u64)
    requires
        shift < 64,
    ensures
        set_at(word, res, shift as u64, v),
{
    let m: u64 = if v { 1 } else { 0 };
    let res = (word & !(1u64 << shift)) | (m << shift);
    proof {
        let s = shift as u64;
        assert forall|i: u64| #[trigger] bit(res, i) == if i == s { v } else { bit(word, i) } by {
            lemma_bit_or(word & !(1u64 << s), m << s, i);
            lemma_bit_and(word, !(1u64 << s), i);
            if i < 64 {
                lemma_bit_not(1u64 << s, i);
                lemma_bit_single(s, i);
            } else {
                lemma_bit_high(word, i);
                lemma_bit_high(res, i);
            }
            lemma_bit_shl(m, s, i);
            if s <= i && i < 64 {
                lemma_bit_bool(v, (i - s) as u64);
            }
        }
    }
    res
}

/// Bit `i` of `new` is `v` if `i == s` (for `s < 64`), and the same as in `old` otherwise;
/// obtained by or-ing `v` in at `s` into a word whose bit `s` is clear.
proof fn lemma_or_in(old: u64, m: u64, v: bool, s: u64)
    requires
        s < 64,
        m == if v { 1u64 } else { 0u64 },
        !bit(old, s),
    ensures
        set_at(old, old | (m << s), s, v),
{
    assert forall|i: u64| #[trigger] bit(old | (m << s), i) == if i == s { v } else { bit(old, i) } by {
        lemma_bit_or(old, m << s, i);
        lemma_bit_shl(m, s, i);
        if s <= i && i < 64 {
            lemma_bit_bool(v, (i - s) as u64);
        }
    }
}

/// The bitboards of both players for one board.
/// Bit `i` of a bitboard stands for the tile at `x = i % width`, `y = i / width`.
#[derive(Clone, Copy, Debug, Hash, PartialEq, Eq)]
pub struct BitBoards {
    pub white: [u64; N_BITBOARDS],
    pub white_royal: u64,
    pub white_movable: u64,
    pub black: [u64; N_BITBOARDS],
    pub black_royal: u64,
    pub black_movable: u64,
    pub castle: u64,
}

impl BitBoards {
    /// The bitboards hold the tiles `pieces` at bits `0..pieces.len()`, and no other bit is set.
    pub open spec fn holds(&self, pieces: Seq<Tile>) -> bool {
        &&& forall|n: int, i: u64| 0 <= n < N_BITBOARDS ==> #[trigger] bit(self.white[n], i) == (i < pieces.len() && tile_white(pieces[i as int], n))
        &&& forall|n: int, i: u64| 0 <= n < N_BITBOARDS ==> #[trigger] bit(self.black[n], i) == (i < pieces.len() && tile_black(pieces[i as int], n))
        &&& forall|i: u64| #[trigger] bit(self.white_royal, i) == (i < pieces.len() && tile_white_royal(pieces[i as int]))
        &&& forall|i: u64| #[trigger] bit(self.black_royal, i) == (i < pieces.len() && tile_black_royal(pieces[i as int]))
        &&& forall|i: u64| #[trigger] bit(self.white_movable, i) == (i < pieces.len() && tile_white_movable(pieces[i as int]))
        &&& forall|i: u64| #[trigger] bit(self.black_movable, i) == (i < pieces.len() && tile_black_movable(pieces[i as int]))
    }

    /// `new` is `old` with the tile described by `mask` put at bit `s`.
    pub open spec fn set_spec(old: BitBoards, new: BitBoards, mask: BitBoardMask, s: u64) -> bool {
        &&& forall|n: int| 0 <= n < N_BITBOARDS ==> #[trigger] set_at(old.white[n], new.white[n], s, mask.white[n])
        &&& forall|n: int| 0 <= n < N_BITBOARDS ==> #[trigger] set_at(old.black[n], new.black[n], s, mask.black[n])
        &&& set_at(old.white_royal, new.white_royal, s, mask.white_royal)
        &&& set_at(old.black_royal, new.black_royal, s, mask.black_royal)
        &&& set_at(old.white_movable, new.white_movable, s, mask.white_movable)
        &&& set_at(old.black_movable, new.black_movable, s, mask.black_movable)
        &&& new.castle == old.castle
    }

    /// Puts the tile described by `mask` at bit `shift` of every bitboard.
    pub fn set(&mut self, mask: &BitBoardMask, shift: u32)
        requires
            shift < 64,
        ensures
            BitBoards::set_spec(*old(self), *final(self), *mask, shift as u64),
    {
        let ghost start = *self;
        for n in 0..N_BITBOARDS
            invariant
                shift < 64,
                forall|k: int| 0 <= k < n ==> #[trigger] set_at(start.white[k], self.white[k], shift as u64, mask.white[k]),
                forall|k: int| 0 <= k < n ==> #[trigger] set_at(start.black[k], self.black[k], shift as u64, mask.black[k]),
                forall|k: int| n <= k < N_BITBOARDS ==> #[trigger] self.white[k] == start.white[k],
                forall|k: int| n <= k < N_BITBOARDS ==> #[trigger] self.black[k] == start.black[k],
                self.white_royal == start.white_royal,
                self.black_royal == start.black_royal,
                self.white_movable == start.white_movable,
                self.black_movable == start.black_movable,
                self.castle == start.castle,
        {
            let w = set_bit_to(self.white[n], shift, mask.white[n]);
            self.white[n] = w;
            let b = set_bit_to(self.black[n], shift, mask.black[n]);
            self.black[n] = b;
        }
        self.white_royal = set_bit_to(self.white_royal, shift, mask.white_royal);
        self.black_royal = set_bit_to(self.black_royal, shift, mask.black_royal);
        self.white_movable = set_bit_to(self.white_movable, shift, mask.white_movable);
        self.black_movable = set_bit_to(self.black_movable, shift, mask.black_movable);
    }

    /// Builds the bitboards of a board whose tiles are `pieces` (at most 64 of them).
    pub fn from_pieces(pieces: &Vec<Tile>) -> (res: Self)
        requires
            pieces.len() <= 64,
        ensures
            res.holds(pieces@),
            res.castle == 0,
    {
        let mut res = BitBoards {
            white: [0; N_BITBOARDS],
            white_royal: 0,
            white_movable: 0,
            black: [0; N_BITBOARDS],
            black_royal: 0,
            black_movable: 0,
            castle: 0,
        };
        proof {
            assert forall|i: u64| !bit(0u64, i) by { lemma_bit_zero(i); }
        }
        let len = pieces.len();
        for idx in 0..len
            invariant
                len == pieces.len(),
                len <= 64,
                res.castle == 0,
                res.holds(pieces@.take(idx as int)),
        {
            let mask = pieces[idx].bitboard_mask();
            let s = idx as u32;
            let ghost before = res;
            let ghost prefix = pieces@.take(idx as int);
            let ghost next = pieces@.take(idx + 1);
            assert(next =~= prefix.push(pieces@[idx as int]));
            for o in 0..N_BITBOARDS
                invariant
                    s == idx,
                    idx < 64,
                    res.castle == 0,
                    mask.describes(pieces@[idx as int]),
                    before.holds(prefix),
                    prefix.len() == idx,
                    forall|k: int| 0 <= k < o ==> #[trigger] set_at(before.white[k], res.white[k], idx as u64, mask.white[k]),
                    forall|k: int| 0 <= k < o ==> #[trigger] set_at(before.black[k], res.black[k], idx as u64, mask.black[k]),
                    forall|k: int| o <= k < N_BITBOARDS ==> #[trigger] res.white[k] == before.white[k],
                    forall|k: int| o <= k < N_BITBOARDS ==> #[trigger] res.black[k] == before.black[k],
                    res.white_royal == before.white_royal,
                    res.black_royal == before.black_royal,
                    res.white_movable == before.white_movable,
                    res.black_movable == before.black_movable,
            {
                let mw: u64 = if mask.white[o] { 1 } else { 0 };
                let mb: u64 = if mask.black[o] { 1 } else { 0 };
                proof {
                    assert(!bit(before.white[o as int], idx as u64));
                    assert(!bit(before.black[o as int], idx as u64));
                    lemma_or_in(res.white[o as int], mw, mask.white[o as int], idx as u64);
                    lemma_or_in(res.black[o as int], mb, mask.black[o as int], idx as u64);
                }
                res.white[o] = res.white[o] | (mw << s);
                res.black[o] = res.black[o] | (mb << s);
            }
            let mwr: u64 = if mask.white_royal { 1 } else { 0 };
            let mwm: u64 = if mask.white_movable { 1 } else { 0 };
            let mbr: u64 = if mask.black_royal { 1 } else { 0 };
            let mbm: u64 = if mask.black_movable { 1 } else { 0 };
            proof {
                lemma_or_in(res.white_royal, mwr, mask.white_royal, idx as u64);
                lemma_or_in(res.white_movable, mwm, mask.white_movable, idx as u64);
                lemma_or_in(res.black_royal, mbr, mask.black_royal, idx as u64);
                lemma_or_in(res.black_movable, mbm, mask.black_movable, idx as u64);
            }
            res.white_royal = res.white_royal | (mwr << s);
            res.white_movable = res.white_movable | (mwm << s);
            res.black_royal = res.black_royal | (mbr << s);
            res.black_movable = res.black_movable | (mbm << s);
            proof {
                lemma_holds_step(before, res, mask, prefix, pieces@[idx as int]);
            }
        }
        proof {
            assert(pieces@.take(len as int) =~= pieces@);
        }
        res
    }

    /// Sets the castling bitboard: the bits of the two given squares, or none.
    pub fn set_castle(&mut self, castle: Option<(u32, u32)>)
        requires
            castle matches Some((i1, i2)) ==> i1 < 64 && i2 < 64,
        ensures
            final(self).castle == (match castle {
                Some((i1, i2)) => ((1u64 << i1) | (1u64 << i2)) as u64,
                None => 0u64,
            }),
            final(self).white == old(self).white,
            final(self).black == old(self).black,
            final(self).white_royal == old(self).white_royal,
            final(self).black_royal == old(self).black_royal,
            final(self).white_movable == old(self).white_movable,
            final(self).black_movable == old(self).black_movable,
    {
        match castle {
            Some((i1, i2)) => {
                self.castle = (1u64 << i1) | (1u64 << i2);
            },
            None => {
                self.castle = 0;
            },
        }
    }

    /// Bitboards with every bit clear.
    pub fn void() -> (res: Self)
        ensures
            forall|n: int| 0 <= n < N_BITBOARDS ==> #[trigger] res.white[n] == 0,
            forall|n: int| 0 <= n < N_BITBOARDS ==> #[trigger] res.black[n] == 0,
            res.white_royal == 0,
            res.black_royal == 0,
            res.white_movable == 0,
            res.black_movable == 0,
            res.castle == 0,
    {
        let res = BitBoards {
            white: [0; N_BITBOARDS],
            white_royal: 0,
            white_movable: 0,
            black: [0; N_BITBOARDS],
            black_royal: 0,
            black_movable: 0,
            castle: 0,
        };
        res
    }
}

/// Putting the tile `t` at bit `prefix.len()` extends what the bitboards hold by `t`.
proof fn lemma_holds_step(before: BitBoards, after: BitBoards, mask: BitBoardMask, prefix: Seq<Tile>, t: Tile)
    requires
        prefix.len() < 64,
        before.holds(prefix),
        mask.describes(t),
        BitBoards::set_spec(before, after, mask, prefix.len() as u64),
    ensures
        after.holds(prefix.push(t)),
{
    let s = prefix.len() as u64;
    let next = prefix.push(t);
    assert forall|n: int, i: u64| 0 <= n < N_BITBOARDS implies #[trigger] bit(after.white[n], i) == (i < next.len() && tile_white(next[i as int], n)) by {
        assert(set_at(before.white[n], after.white[n], s, mask.white[n]));
        assert(bit(before.white[n], i) == (i < prefix.len() && tile_white(prefix[i as int], n)));
    }
    assert forall|n: int, i: u64| 0 <= n < N_BITBOARDS implies #[trigger] bit(after.black[n], i) == (i < next.len() && tile_black(next[i as int], n)) by {
        assert(set_at(before.black[n], after.black[n], s, mask.black[n]));
        assert(bit(before.black[n], i) == (i < prefix.len() && tile_black(prefix[i as int], n)));
    }
    assert forall|i: u64| #[trigger] bit(after.white_royal, i) == (i < next.len() && tile_white_royal(next[i as int])) by {
        assert(bit(before.white_royal, i) == (i < prefix.len() && tile_white_royal(prefix[i as int])));
    }
    assert forall|i: u64| #[trigger] bit(after.black_royal, i) == (i < next.len() && tile_black_royal(next[i as int])) by {
        assert(bit(before.black_royal, i) == (i < prefix.len() && tile_black_royal(prefix[i as int])));
    }
    assert forall|i: u64| #[trigger] bit(after.white_movable, i) == (i < next.len() && tile_white_movable(next[i as int])) by {
        assert(bit(before.white_movable, i) == (i < prefix.len() && tile_white_movable(prefix[i as int])));
    }
    assert forall|i: u64| #[trigger] bit(after.black_movable, i) == (i < next.len() && tile_black_movable(next[i as int])) by {
        assert(bit(before.black_movable, i) == (i < prefix.len() && tile_black_movable(prefix[i as int])));
    }
}

impl Default for BitBoards {
    /// Bitboards of a board too large to fit: no piece, everything movable.
    fn default() -> (res: Self)
        ensures
            forall|n: int| 0 <= n < N_BITBOARDS ==> #[trigger] res.white[n] == 0,
            forall|n: int| 0 <= n < N_BITBOARDS ==> #[trigger] res.black[n] == 0,
            res.white_royal == 0,
            res.black_royal == 0,
            res.white_movable == !0u64,
            res.black_movable == !0u64,
            res.castle == 0,
    {
        let res = BitBoards {
            white: [0; N_BITBOARDS],
            white_royal: 0,
            white_movable: !0,
            black: [0; N_BITBOARDS],
            black_royal: 0,
            black_movable: !0,
            castle: 0,
        };
        res
    }
}

/// Bit `i` of a board of width `w` shifted by `⟨dx, dy⟩`: it comes from the tile at
/// `⟨x - dx, y - dy⟩`, where `x = i % w` and `y = i / w`, if that tile exists and was not
/// pushed out of the 64 bits of the word on the way.
pub open spec fn shifted_bit(b: u64, dx: int, dy: int, w: int, i: int) -> bool {
    let x = i % w;
    let y = i / w;
    let sx = x - dx;
    let sy = y - dy;
    &&& 0 <= sx < w
    &&& 0 <= sy
    &&& w * sy + x < 64
    &&& w * sy + sx < 64
    &&& bit(b, (w * sy + sx) as u64)
}

/// The horizontal stage of a shift: bit `k` comes from bit `k - dx` if both lie in the same row.
spec fn hshift_bit(b: u64, dx: int, w: int, k: int) -> bool {
    &&& 0 <= k < 64
    &&& 0 <= k % w - dx < w
    &&& k - dx < 64
    &&& bit(b, (k - dx) as u64)
}

proof fn lemma_no_wrap_left(k: int, d: int, w: int)
    requires
        w > 0,
        0 <= k,
        1 <= d <= w,
    ensures
        (d <= k && (k - d) % w + d < w) <==> (k % w >= d),
        0 <= k % w < w,
        k < d ==> k % w < d,
{
    if k < d {
        lemma_row_col(k, w, 0, k);
    }
    lemma_mod_bound(k, w);
    lemma_mod_bound(k - d, w);
    lemma_fundamental_div_mod(k, w);
    let q = k / w;
    let r = k % w;
    if r >= d {
        lemma_row_col(k - d, w, q, r - d);
    }
    if d <= k && (k - d) % w + d < w {
        lemma_fundamental_div_mod(k - d, w);
        lemma_row_col(k, w, (k - d) / w, (k - d) % w + d);
    }
}

proof fn lemma_no_wrap_right(k: int, s: int, w: int)
    requires
        w > 0,
        0 <= k,
        0 <= s <= w,
    ensures
        ((k + s) % w >= s) <==> (k % w + s < w),
        0 <= k % w < w,
{
    lemma_mod_bound(k, w);
    lemma_mod_bound(k + s, w);
    lemma_fundamental_div_mod(k, w);
    let q = k / w;
    let r = k % w;
    if r + s < w {
        lemma_row_col(k + s, w, q, r + s);
    }
    if (k + s) % w >= s {
        lemma_fundamental_div_mod(k + s, w);
        lemma_row_col(k, w, (k + s) / w, (k + s) % w - s);
    }
}

/// Shifts a bitboard of a board of size `width`x`height` by `⟨dx, dy⟩`, masking the
/// pieces that would otherwise wrap around the sides of the board.
/// Requires `1 <= width <= 8`, `-width <= dx <= width`, and vertical shifts of less than 64 bits.
pub fn bitboard_shift(bitboard: u64, dx: Physical, dy: Physical, width: Physical, height: Physical) -> (res: u64)
    requires
        1 <= width <= MAX_BITBOARD_WIDTH,
        0 <= height,
        width * height <= 64,
        -width <= dx <= width,
        -64 < dy * width < 64,
    ensures
        forall|i: u64| #[trigger] bit(res, i) == (i < width * height && shifted_bit(bitboard, dx as int, dy as int, width as int, i as int)),
{
    let w = width as usize;
    let h = height as usize;
    let ghost wi = w as int;
    let mut bb = bitboard;
    if dx > 0 {
        let d = dx as usize;
        let m = lshift_mask(w, d);
        bb = (bb & m) << d;
        proof {
            assert forall|k: u64| #[trigger] bit(bb, k) == hshift_bit(bitboard, dx as int, wi, k as int) by {
                lemma_bit_shl(bitboard & m, d as u64, k);
                lemma_no_wrap_left(k as int, d as int, wi);
                if d <= k && k < 64 {
                    lemma_bit_and(bitboard, m, (k - d) as u64);
                }
            }
        }
    } else {
        let s = (-dx) as usize;
        let m = rshift_mask(w, s);
        bb = (bb & m) >> s;
        proof {
            assert forall|k: u64| #[trigger] bit(bb, k) == hshift_bit(bitboard, dx as int, wi, k as int) by {
                if k < 64 {
                    lemma_bit_shr(bitboard & m, s as u64, k);
                    lemma_bit_and(bitboard, m, (k + s) as u64);
                    lemma_no_wrap_right(k as int, s as int, wi);
                    if k + s >= 64 {
                        lemma_bit_high(bitboard, (k + s) as u64);
                    }
                } else {
                    lemma_bit_high(bb, k);
                }
            }
        }
    }
    let ghost t1 = bb;
    proof {
        assert(-64 < dy && dy < 64) by (nonlinear_arith)
            requires
                -64 < dy * width < 64,
                width >= 1;
        if dy > 0 {
            assert(dy * width == (dy as int) * wi);
        } else {
            assert((-dy) * width == -(dy * width)) by (nonlinear_arith);
        }
    }
    if dy > 0 {
        let e = (dy as usize) * w;
        bb = bb << e;
        proof {
            assert forall|i: u64| #[trigger] bit(bb, i) == (i < 64 && i - dy * wi >= 0 && hshift_bit(bitboard, dx as int, wi, i - dy * wi)) by {
                lemma_bit_shl(t1, e as u64, i);
            }
        }
    } else {
        let e = ((-dy) as usize) * w;
        bb = bb >> e;
        proof {
            assert forall|i: u64| #[trigger] bit(bb, i) == (i < 64 && i - dy * wi >= 0 && hshift_bit(bitboard, dx as int, wi, i - dy * wi)) by {
                if i < 64 {
                    lemma_bit_shr(t1, e as u64, i);
                } else {
                    lemma_bit_high(bb, i);
                }
            }
        }
    }
    let ghost t2 = bb;
    proof {
        assert forall|i: u64| i < 64 implies #[trigger] bit(t2, i) == shifted_bit(bitboard, dx as int, dy as int, wi, i as int) by {
            let x = (i as int) % wi;
            let y = (i as int) / wi;
            lemma_fundamental_div_mod(i as int, wi);
            let k = i - dy * wi;
            assert(k == wi * (y - dy) + x) by (nonlinear_arith)
                requires
                    k == i - dy * wi,
                    i == wi * y + x;
            lemma_row_col(k, wi, y - dy, x);
            if y - dy < 0 {
                assert(wi * (y - dy) <= -wi) by (nonlinear_arith)
                    requires
                        y - dy < 0,
                        wi > 0;
            }
            if y - dy >= 0 {
                assert(wi * (y - dy) >= 0) by (nonlinear_arith)
                    requires
                        y - dy >= 0,
                        wi > 0;
            }
        }
    }
    let area = w * h;
    if area == 64 {
        proof {
            assert forall|i: u64| #[trigger] bit(bb, i) == (i < width * height && shifted_bit(bitboard, dx as int, dy as int, width as int, i as int)) by {
                if i >= 64 {
                    lemma_bit_high(bb, i);
                }
            }
        }
        bb
    } else {
        proof {
            let a = area as u64;
            assert(a < 64 ==> (1u64 << a) >= 1) by (bit_vector);
        }
        let low = (1u64 << area) - 1;
        let res = bb & low;
        proof {
            assert forall|i: u64| #[trigger] bit(res, i) == (i < width * height && shifted_bit(bitboard, dx as int, dy as int, width as int, i as int)) by {
                lemma_bit_and(bb, low, i);
                lemma_bit_low(area as u64, i);
            }
        }
        res
    }
}

/// The mask to apply to a bitboard of a board of width `width` before shifting it by `dx`,
/// so that no piece wraps around the sides of the board.
pub fn get_bitboard_mask(width: Physical, dx: Physical) -> (mask: u64)
    requires
        1 <= width <= MAX_BITBOARD_WIDTH,
        -width <= dx <= width,
    ensures
        forall|j: u64| #[trigger] bit(mask, j) == if dx > 0 {
            lshift_mask_bit(width as int, dx as int, j as int)
        } else {
            rshift_mask_bit(width as int, -dx, j as int)
        },
{
    if dx > 0 {
        lshift_mask(width as usize, dx as usize)
    } else {
        rshift_mask(width as usize, (-dx) as usize)
    }
}

} // verus!
