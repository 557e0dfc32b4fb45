use vstd::prelude::*;
use crate::board::Board;
use crate::coords::Coords;
use crate::game::Game;
use crate::movement::{Move, MoveKind};
use crate::partial_game::{lemma_found_with_game, spec_get_board_with_game, PartialGame};
use crate::piece::{kind_is_royal, Piece, PieceKind};
use crate::tile::Tile;
use crate::Physical;

verus! {

/// The coordinates `k` steps away from `from` in the direction `(d0, d1, d2, d3)`: a step
/// along the time axis is a whole turn, two plies, so that a piece stays on its player's boards.
pub open spec fn step_target(from: Coords, d0: int, d1: int, d2: int, d3: int, k: int) -> (int, int, int, int) {
    (from.0 + d0 * k, from.1 + 2 * (d1 * k), from.2 + d2 * k, from.3 + d3 * k)
}

/// `to` lies some steps away from `from` along a direction whose components lie in `-2..=2`
/// and are not all zero.
pub open spec fn reached_along(from: Coords, to: Coords) -> bool {
    exists|d0: int, d1: int, d2: int, d3: int, k: int|
        #[trigger] step_target(from, d0, d1, d2, d3, k) == (to.0 as int, to.1 as int, to.2 as int, to.3 as int)
        && 1 <= k && -2 <= d0 <= 2 && -2 <= d1 <= 2 && -2 <= d2 <= 2 && -2 <= d3 <= 2
        && (d0 != 0 || d1 != 0 || d2 != 0 || d3 != 0)
}

/// `new` extends `old` with moves of `piece` from `src` only: the moves of `old` stay as they
/// were, and every move added starts at `src` with `piece` and ends on a square reached along
/// a direction, an even number of plies away, on a board of the same player.
pub open spec fn extends_from(old: Seq<Move>, new: Seq<Move>, piece: Piece, src: Coords) -> bool {
    &&& old.len() <= new.len()
    &&& forall|i: int| 0 <= i < old.len() ==> new[i] == old[i]
    &&& forall|i: int| old.len() <= i < new.len() ==> {
        &&& (#[trigger] new[i]).from == (piece, src)
        &&& reached_along(src, new[i].to.1)
        &&& (new[i].to.1.1 - src.1) % 2 == 0
    }
}

/// A square `k` steps away from `from` along a direction is reached along it, an even number
/// of plies away.
proof fn lemma_reached(from: Coords, to: Coords, d0: int, d1: int, d2: int, d3: int, k: int)
    requires
        step_target(from, d0, d1, d2, d3, k) == (to.0 as int, to.1 as int, to.2 as int, to.3 as int),
        1 <= k,
        -2 <= d0 <= 2 && -2 <= d1 <= 2 && -2 <= d2 <= 2 && -2 <= d3 <= 2,
        d0 != 0 || d1 != 0 || d2 != 0 || d3 != 0,
    ensures
        reached_along(from, to),
        (to.1 - from.1) % 2 == 0,
{
    assert((2 * (d1 * k)) % 2 == 0) by (nonlinear_arith);
}

/// Every component of the directions lies in `-2..=2`, and no direction is null.
pub open spec fn directions_ok(dirs: Seq<(isize, isize, isize, isize)>) -> bool {
    forall|i: int| 0 <= i < dirs.len() ==> {
        let d = #[trigger] dirs[i];
        &&& -2 <= d.0 <= 2 && -2 <= d.1 <= 2 && -2 <= d.2 <= 2 && -2 <= d.3 <= 2
        &&& (d.0 != 0 || d.1 != 0 || d.2 != 0 || d.3 != 0)
    }
}

/// The directions of the pieces that move along lines in `n` of the four axes (`n = 0` for
/// the knight's jumps): each base direction with every choice of signs of its non-zero
/// components.
fn directions(n: usize) -> (res: Vec<(isize, isize, isize, isize)>)
    requires
        n < 5,
    ensures
        directions_ok(res@),
{
    let (group, cardinality): (Vec<(isize, isize, isize, isize)>, u32) = if n == 0 {
        (vec![(2, 1, 0, 0), (1, 2, 0, 0), (0, 2, 1, 0), (0, 1, 2, 0), (0, 0, 2, 1), (0, 0, 1, 2),
            (1, 0, 0, 2), (2, 0, 0, 1), (2, 0, 1, 0), (1, 0, 2, 0), (0, 2, 0, 1), (0, 1, 0, 2)], 2)
    } else if n == 1 {
        (vec![(1, 0, 0, 0), (0, 1, 0, 0), (0, 0, 1, 0), (0, 0, 0, 1)], 1)
    } else if n == 2 {
        (vec![(1, 1, 0, 0), (0, 1, 1, 0), (0, 0, 1, 1), (1, 0, 0, 1), (1, 0, 1, 0), (0, 1, 0, 1)], 2)
    } else if n == 3 {
        (vec![(0, 1, 1, 1), (1, 0, 1, 1), (1, 1, 0, 1), (1, 1, 1, 0)], 3)
    } else {
        (vec![(1, 1, 1, 1)], 4)
    };
    assert(directions_ok(group@));
    let n_signs: u32 = if cardinality == 1 { 2 } else if cardinality == 2 { 4 } else if cardinality == 3 { 8 } else { 16 };
    let mut res: Vec<(isize, isize, isize, isize)> = Vec::new();
    let mut e: usize = 0;
    while e < group.len()
        invariant
            0 <= e <= group.len(),
            directions_ok(group@),
            directions_ok(res@),
        decreases group.len() - e,
    {
        let element = group[e];
        assert(directions_ok(group@) ==> {
            let d = group@[e as int];
            -2 <= d.0 <= 2 && -2 <= d.1 <= 2 && -2 <= d.2 <= 2 && -2 <= d.3 <= 2 && (d.0 != 0 || d.1 != 0 || d.2 != 0 || d.3 != 0)
        });
        let mut sign_index: u32 = 0;
        while sign_index < n_signs
            invariant
                0 <= sign_index <= n_signs,
                element == group@[e as int],
                -2 <= element.0 <= 2 && -2 <= element.1 <= 2 && -2 <= element.2 <= 2 && -2 <= element.3 <= 2,
                element.0 != 0 || element.1 != 0 || element.2 != 0 || element.3 != 0,
                directions_ok(res@),
            decreases n_signs - sign_index,
        {
            let mut bits: u32 = sign_index;
            let c0 = if element.0 != 0 { let s = if bits % 2 == 1 { -element.0 } else { element.0 }; bits = bits / 2; s } else { 0 };
            let c1 = if element.1 != 0 { let s = if bits % 2 == 1 { -element.1 } else { element.1 }; bits = bits / 2; s } else { 0 };
            let c2 = if element.2 != 0 { let s = if bits % 2 == 1 { -element.2 } else { element.2 }; bits = bits / 2; s } else { 0 };
            let c3 = if element.3 != 0 { if bits % 2 == 1 { -element.3 } else { element.3 } } else { 0 };
            res.push((c0, c1, c2, c3));
            sign_index = sign_index + 1;
        }
        e = e + 1;
    }
    res
}

/// The tile at `(l, t, x, y)`: on `board` if it is the board at `(l, t)`, otherwise in the game
/// or the partial game state; `Tile::Void` where the coordinates do not fit the game's types.
fn tile_at(game: &Game, partial_game: &PartialGame, board: &Board, l: i128, t: i128, x: i128, y: i128) -> (res: Tile)
    requires
        board.wf(),
        game.valid(),
        partial_game.wf(),
    ensures
        !(isize::MIN < l <= isize::MAX && isize::MIN <= t <= isize::MAX && -128 <= x <= 127 && -128 <= y <= 127) ==> res is Void,
{
    if l <= isize::MIN as i128 || l > isize::MAX as i128 || t < isize::MIN as i128 || t > isize::MAX as i128
        || x < -128 || x > 127 || y < -128 || y > 127 {
        return Tile::Void;
    }
    let c = Coords(l as isize, t as isize, x as Physical, y as Physical);
    if c.0 == board.l && c.1 == board.t {
        board.get((c.2, c.3))
    } else {
        partial_game.get_with_game(game, c)
    }
}

/// Whether `tile` holds a piece of the opponent of `white`.
fn is_opponent_piece(tile: Tile, white: bool) -> bool {
    match tile {
        Tile::Piece(p) => p.white != white,
        _ => false,
    }
}

/// Whether a piece of `white` may move onto `tile`: it is blank or holds a piece of the opponent.
fn is_takable(tile: Tile, white: bool) -> bool {
    match tile {
        Tile::Blank => true,
        Tile::Piece(p) => p.white != white,
        Tile::Void => false,
    }
}

/// The move of `piece` from `src` to `(l, t, x, y)`, what stands there and the move's kind
/// read from `board` or the game; `None` if either square lies on no board.
fn new_move(game: &Game, partial_game: &PartialGame, board: &Board, piece: Piece, src: Coords, l: i128, t: i128, x: i128, y: i128) -> (res: Option<Move>)
    requires
        board.wf(),
        game.valid(),
        partial_game.wf(),
    ensures
        res matches Some(mv) ==> mv.from == (piece, src) && mv.to.1.0 as int == l && mv.to.1.1 as int == t
            && mv.to.1.2 as int == x && mv.to.1.3 as int == y,
{
    if matches!(tile_at(game, partial_game, board, src.0 as i128, src.1 as i128, src.2 as i128, src.3 as i128), Tile::Void) {
        return None;
    }
    let target_tile = tile_at(game, partial_game, board, l, t, x, y);
    if matches!(target_tile, Tile::Void) {
        return None;
    }
    let target = target_tile.piece();
    let dst = Coords(l as isize, t as isize, x as Physical, y as Physical);
    let fx = src.2 as i16;
    let fy = src.3 as i16;
    let tx = dst.2 as i16;
    let ty = dst.3 as i16;
    let h = game.height as i16;
    let kind = if piece.can_enpassant() && target.is_none() && fx != tx {
        MoveKind::EnPassant
    } else if piece.can_promote() && ((ty == 0 && fy != 0) || (ty == h - 1 && fy != h - 1)) {
        MoveKind::Promotion
    } else if piece.can_castle() && (fx == tx + 2 || fx + 2 == tx) {
        MoveKind::Castle
    } else {
        MoveKind::Normal
    };
    Some(Move::from_raw((piece, src), (target, dst), kind))
}

/// Whether the pawn-like piece of the player to move on `board` may take en passant onto
/// `(x, y)`: an opponent's pawn stands next to it, having moved two rows since the board two
/// plies before.
fn may_en_passant(game: &Game, partial_game: &PartialGame, board: &Board, x: i128, y: i128) -> bool
    requires
        board.wf(),
        -1000 <= y <= 1000,
        game.valid(),
        partial_game.wf(),
{
    if board.t < 2 || y == 0 || y == game.height as i128 - 1 {
        return false;
    }
    let active_player = board.white();
    let dst_y = if active_player { y - 1 } else { y + 1 };
    let src_y = if active_player { y + 1 } else { y - 1 };
    let l = board.l as i128;
    let t = board.t as i128;
    let is_pawn = |tile: Tile| -> (r: bool) {
        match tile {
            Tile::Piece(p) => p.kind == PieceKind::Pawn && p.white != active_player,
            _ => false,
        }
    };
    let a = tile_at(game, partial_game, board, l, t, x, dst_y);
    let b = tile_at(game, partial_game, board, l, t, x, src_y);
    let c = tile_at(game, partial_game, board, l, t - 2, x, dst_y);
    let d = tile_at(game, partial_game, board, l, t - 2, x, src_y);
    is_pawn(a) && matches!(b, Tile::Blank) && matches!(c, Tile::Blank) && is_pawn(d)
}

/// A bound on the number of steps along a line: beyond it, every line leaves the board or
/// the range of the coordinates.
const MAX_LENGTH: i128 = 73_786_976_294_838_206_464;

/// Adds the moves along the lines of `directions(n)` from `src`: each line goes on over
/// blank squares and stops on the first piece (included if it is the opponent's), or at the
/// edge of the game; knights (`n = 0`) make one step only.
fn n_gonal(game: &Game, partial_game: &PartialGame, board: &Board, res: &mut Vec<Move>, piece: Piece, src: Coords, n: usize, active_player: bool) -> (r: Option<()>)
    requires
        board.wf(),
        game.valid(),
        partial_game.wf(),
        n < 5,
    ensures
        extends_from(old(res)@, final(res)@, piece, src),
{
    let dirs = directions(n);
    let ghost start = res@;
    let mut i: usize = 0;
    while i < dirs.len()
        invariant
            game.valid(),
            partial_game.wf(),
            directions_ok(dirs@),
            start == old(res)@,
            extends_from(start, res@, piece, src),
            board.wf(),
        decreases dirs.len() - i,
    {
        let dir = dirs[i];
        assert(-2 <= dir.0 <= 2 && -2 <= dir.1 <= 2 && -2 <= dir.2 <= 2 && -2 <= dir.3 <= 2);
        assert(dir.0 != 0 || dir.1 != 0 || dir.2 != 0 || dir.3 != 0);
        let mut length: i128 = 1;
        while length <= MAX_LENGTH
            invariant
                game.valid(),
                partial_game.wf(),
                1 <= length <= MAX_LENGTH + 1,
                -2 <= dir.0 <= 2 && -2 <= dir.1 <= 2 && -2 <= dir.2 <= 2 && -2 <= dir.3 <= 2,
                dir.0 != 0 || dir.1 != 0 || dir.2 != 0 || dir.3 != 0,
                extends_from(start, res@, piece, src),
                start == old(res)@,
                board.wf(),
            decreases MAX_LENGTH + 1 - length,
        {
            assert(-2 * MAX_LENGTH - 2 <= dir.0 * length <= 2 * MAX_LENGTH + 2) by (nonlinear_arith)
                requires -2 <= dir.0 <= 2, 1 <= length <= MAX_LENGTH + 1;
            assert(-2 * MAX_LENGTH - 2 <= dir.1 * length <= 2 * MAX_LENGTH + 2) by (nonlinear_arith)
                requires -2 <= dir.1 <= 2, 1 <= length <= MAX_LENGTH + 1;
            assert(-2 * MAX_LENGTH - 2 <= dir.2 * length <= 2 * MAX_LENGTH + 2) by (nonlinear_arith)
                requires -2 <= dir.2 <= 2, 1 <= length <= MAX_LENGTH + 1;
            assert(-2 * MAX_LENGTH - 2 <= dir.3 * length <= 2 * MAX_LENGTH + 2) by (nonlinear_arith)
                requires -2 <= dir.3 <= 2, 1 <= length <= MAX_LENGTH + 1;
            let l0 = src.0 as i128 + dir.0 as i128 * length;
            let t0 = src.1 as i128 + dir.1 as i128 * length * 2;
            let x0 = src.2 as i128 + dir.2 as i128 * length;
            let y0 = src.3 as i128 + dir.3 as i128 * length;
            if x0 < 0 || x0 >= game.width as i128 || y0 < 0 || y0 >= game.height as i128 {
                break;
            }
            let tile = tile_at(game, partial_game, board, l0, t0, x0, y0);
            if is_takable(tile, active_player) {
                match new_move(game, partial_game, board, piece, src, l0, t0, x0, y0) {
                    Some(mv) => {
                        proof { lemma_reached(src, mv.to.1, dir.0 as int, dir.1 as int, dir.2 as int, dir.3 as int, length as int); }
                        res.push(mv);
                    },
                    None => {
                        return None;
                    },
                }
                if is_opponent_piece(tile, active_player) {
                    break;
                }
            } else {
                break;
            }
            if n == 0 {
                break;
            }
            length = length + 1;
        }
        i = i + 1;
    }
    Some(())
}

/// Adds to `res` the moves that `piece`, standing at `(x, y)` on `board`, can probably make
/// (checks are not considered): a pawn's steps forward and captures (en passant included), a
/// king's steps along the four axes, and the lines of the other pieces. Returns `None` if a
/// square that a pawn's move needs, or the square a move starts from, lies on no board; the
/// moves found so far then stay in `res`.
pub fn probable_moves_for(game: &Game, partial_game: &PartialGame, board: &Board, res: &mut Vec<Move>, piece: Piece, x: Physical, y: Physical) -> (r: Option<()>)
    requires
        board.wf(),
        game.valid(),
        partial_game.wf(),
    ensures
        extends_from(old(res)@, final(res)@, piece, Coords(board.l, board.t, x, y)),
{
    let src = Coords(board.l, board.t, x, y);
    let active_player = board.white();
    let l = board.l as i128;
    let t = board.t as i128;
    let xi = x as i128;
    let yi = y as i128;
    let ghost start = res@;
    match piece.kind {
        PieceKind::Pawn | PieceKind::Brawn => {
            let dy: i128 = if piece.white { 1 } else { -1 };
            let y1 = yi + dy;
            let y2 = yi + 2 * dy;
            let ahead = tile_at(game, partial_game, board, l, t, xi, y1);
            if matches!(ahead, Tile::Void) {
                return None;
            }
            if matches!(ahead, Tile::Blank) {
                match new_move(game, partial_game, board, piece, src, l, t, xi, y1) {
                    Some(mv) => {
                        proof { lemma_reached(src, mv.to.1, 0, 0, 0, dy as int, 1); }
                        res.push(mv);
                    },
                    None => {
                        return None;
                    },
                }
                let home = if piece.white { yi <= 1 } else { yi >= game.height as i128 - 2 };
                if home {
                    let two = tile_at(game, partial_game, board, l, t, xi, y2);
                    if matches!(two, Tile::Void) {
                        return None;
                    }
                    if matches!(two, Tile::Blank) {
                        match new_move(game, partial_game, board, piece, src, l, t, xi, y2) {
                            Some(mv) => {
                                proof { lemma_reached(src, mv.to.1, 0, 0, 0, 2 * dy as int, 1); }
                                res.push(mv);
                            },
                            None => {
                                return None;
                            },
                        }
                    }
                }
            }
            let mut side: i128 = 1;
            while side >= -1
                invariant
                    game.valid(),
                    partial_game.wf(),
                    -3 <= side <= 1,
                    dy == 1 || dy == -1,
                    y1 == yi + dy,
                    extends_from(start, res@, piece, src),
                    xi == x as i128,
                    yi == y as i128,
                    src == Coords(board.l, board.t, x, y),
                    l == board.l as i128,
                    t == board.t as i128,
                    isize::MIN <= l <= isize::MAX,
                    isize::MIN <= t <= isize::MAX,
                    start == old(res)@,
                    board.wf(),
                decreases side + 3,
            {
                let x1 = xi + side;
                let in_range = if side == 1 { xi < game.width as i128 - 1 } else { xi > 0 };
                if in_range {
                    let capture = if may_en_passant(game, partial_game, board, x1, y1) {
                        true
                    } else {
                        let tile = tile_at(game, partial_game, board, l, t, x1, y1);
                        if matches!(tile, Tile::Void) {
                            return None;
                        }
                        is_opponent_piece(tile, active_player)
                    };
                    if capture {
                        match new_move(game, partial_game, board, piece, src, l, t, x1, y1) {
                            Some(mv) => {
                                proof { lemma_reached(src, mv.to.1, 0, 0, side as int, dy as int, 1); }
                                res.push(mv);
                            },
                            None => {
                                return None;
                            },
                        }
                    }
                }
                side = side - 2;
            }
        },
        PieceKind::King | PieceKind::CommonKing => {
            let mut dl: i128 = -1;
            while dl <= 1
                invariant
                    game.valid(),
                    partial_game.wf(),
                    -1 <= dl <= 2,
                    extends_from(start, res@, piece, src),
                    xi == x as i128,
                    yi == y as i128,
                    src == Coords(board.l, board.t, x, y),
                    l == board.l as i128,
                    t == board.t as i128,
                    isize::MIN <= l <= isize::MAX,
                    isize::MIN <= t <= isize::MAX,
                    start == old(res)@,
                    board.wf(),
                decreases 2 - dl,
            {
                let mut dt: i128 = -1;
                while dt <= 1
                    invariant
                        game.valid(),
                        partial_game.wf(),
                        -1 <= dl <= 1,
                        -1 <= dt <= 2,
                        extends_from(start, res@, piece, src),
                        xi == x as i128,
                        yi == y as i128,
                        src == Coords(board.l, board.t, x, y),
                        l == board.l as i128,
                        t == board.t as i128,
                        isize::MIN <= l <= isize::MAX,
                        isize::MIN <= t <= isize::MAX,
                        start == old(res)@,
                        board.wf(),
                    decreases 2 - dt,
                {
                    let mut dy: i128 = -1;
                    while dy <= 1
                        invariant
                            game.valid(),
                            partial_game.wf(),
                            -1 <= dl <= 1,
                            -1 <= dt <= 1,
                            -1 <= dy <= 2,
                            extends_from(start, res@, piece, src),
                            xi == x as i128,
                            yi == y as i128,
                            src == Coords(board.l, board.t, x, y),
                            l == board.l as i128,
                            t == board.t as i128,
                            isize::MIN <= l <= isize::MAX,
                            isize::MIN <= t <= isize::MAX,
                            start == old(res)@,
                            board.wf(),
                        decreases 2 - dy,
                    {
                        let mut dx: i128 = -1;
                        while dx <= 1
                            invariant
                                game.valid(),
                                partial_game.wf(),
                                -1 <= dl <= 1,
                                -1 <= dt <= 1,
                                -1 <= dy <= 1,
                                -1 <= dx <= 2,
                                extends_from(start, res@, piece, src),
                                xi == x as i128,
                                yi == y as i128,
                                src == Coords(board.l, board.t, x, y),
                                l == board.l as i128,
                                t == board.t as i128,
                                isize::MIN <= l <= isize::MAX,
                                isize::MIN <= t <= isize::MAX,
                                start == old(res)@,
                                board.wf(),
                            decreases 2 - dx,
                        {
                            let skip = (dx == 0 && dy == 0 && dl == 0 && dt == 0)
                                || (xi == 0 && dx < 0)
                                || (xi == game.width as i128 - 1 && dx > 0)
                                || (yi == 0 && dy < 0)
                                || (yi == game.height as i128 - 1 && dy > 0)
                                || (t < 2 && dt < 0);
                            if !skip {
                                let l1 = l + dl;
                                let t1 = t + 2 * dt;
                                let x1 = xi + dx;
                                let y1 = yi + dy;
                                if is_takable(tile_at(game, partial_game, board, l1, t1, x1, y1), active_player) {
                                    match new_move(game, partial_game, board, piece, src, l1, t1, x1, y1) {
                                        Some(mv) => {
                                            proof { lemma_reached(src, mv.to.1, dl as int, dt as int, dx as int, dy as int, 1); }
                                            res.push(mv);
                                        },
                                        None => {
                                            return None;
                                        },
                                    }
                                }
                            }
                            dx = dx + 1;
                        }
                        dy = dy + 1;
                    }
                    dt = dt + 1;
                }
                dl = dl + 1;
            }
        },
        PieceKind::Knight => {
            n_gonal(game, partial_game, board, res, piece, src, 0, active_player)?;
        },
        PieceKind::Rook => {
            n_gonal(game, partial_game, board, res, piece, src, 1, active_player)?;
        },
        PieceKind::Bishop => {
            n_gonal(game, partial_game, board, res, piece, src, 2, active_player)?;
        },
        PieceKind::Unicorn => {
            n_gonal(game, partial_game, board, res, piece, src, 3, active_player)?;
        },
        PieceKind::Dragon => {
            n_gonal(game, partial_game, board, res, piece, src, 4, active_player)?;
        },
        PieceKind::Princess => {
            n_gonal(game, partial_game, board, res, piece, src, 1, active_player)?;
            n_gonal(game, partial_game, board, res, piece, src, 2, active_player)?;
        },
        PieceKind::Queen | PieceKind::RoyalQueen => {
            n_gonal(game, partial_game, board, res, piece, src, 1, active_player)?;
            n_gonal(game, partial_game, board, res, piece, src, 2, active_player)?;
            n_gonal(game, partial_game, board, res, piece, src, 3, active_player)?;
            n_gonal(game, partial_game, board, res, piece, src, 4, active_player)?;
        },
    }
    Some(())
}

/// The moves that start from a piece of the player to move on `board`: the piece stands on
/// the board at the move's source square, which lies on the board.
pub open spec fn from_own_piece(board: Board, mv: Move) -> bool {
    &&& mv.from.0.white == (board.t % 2 == 0)
    &&& mv.from.1.0 == board.l && mv.from.1.1 == board.t
    &&& board.spec_get(mv.from.1.2 as int, mv.from.1.3 as int) == Tile::Piece(mv.from.0)
}

/// The moves that the pieces of the player to move on `board` can probably make (see
/// `probable_moves_for`), square by square, row by row; `None` if the moves of one of
/// them cannot be generated.
pub fn probable_moves(game: &Game, partial_game: &PartialGame, board: &Board) -> (res: Option<Vec<Move>>)
    requires
        board.wf(),
        game.valid(),
        partial_game.wf(),
    ensures
        res matches Some(moves) ==> forall|i: int| 0 <= i < moves@.len() ==> from_own_piece(*board, #[trigger] moves@[i]),
{
    let mut res: Vec<Move> = Vec::new();
    let white = board.white();
    let mut y: Physical = 0;
    while y < board.height
        invariant
            board.wf(),
            game.valid(),
            partial_game.wf(),
            0 <= y <= board.height,
            white == (board.t % 2 == 0),
            forall|i: int| 0 <= i < res@.len() ==> from_own_piece(*board, #[trigger] res@[i]),
        decreases board.height - y,
    {
        let mut x: Physical = 0;
        while x < board.width
            invariant
                board.wf(),
                game.valid(),
                partial_game.wf(),
                0 <= y < board.height,
                0 <= x <= board.width,
                white == (board.t % 2 == 0),
                forall|i: int| 0 <= i < res@.len() ==> from_own_piece(*board, #[trigger] res@[i]),
            decreases board.width - x,
        {
            match board.get((x, y)) {
                Tile::Piece(piece) => {
                    if piece.white == white {
                        let ghost before = res@;
                        probable_moves_for(game, partial_game, board, &mut res, piece, x, y)?;
                        assert forall|i: int| 0 <= i < res@.len() implies from_own_piece(*board, #[trigger] res@[i]) by {
                            if i < before.len() {
                                assert(res@[i] == before[i]);
                            }
                        }
                    }
                },
                _ => {},
            }
            x = x + 1;
        }
        y = y + 1;
    }
    Some(res)
}

/// The last board of the timeline `l`, whose last board is at time `t`, is one that the
/// player `white` still has to play: it is theirs, its timeline is active, and it is not in
/// the future of the present.
pub open spec fn unplayed(boards: Map<(int, int), Board>, pg: PartialGame, l: int, t: int, white: bool) -> bool {
    match spec_get_board_with_game(boards, pg, (l, t)) {
        Some(b) => (b.t % 2 == 0) == white && pg.info.spec_is_active(b.l as int) && pg.info.present >= b.t,
        None => false,
    }
}

/// Whether the moves that the player `white` made, leading to `partial_game`, are legal: no
/// last board is left that `white` still has to play, and on the last boards of the opponent,
/// no move that `probable_moves` finds takes a royal piece of `white`; `None` if the moves of
/// such a board cannot be generated. The timelines are checked from the first white one on,
/// then the black ones.
pub fn is_moveset_legal(game: &Game, partial_game: &PartialGame, white: bool) -> (res: Option<bool>)
    requires
        game.valid(),
        partial_game.wf(),
    ensures
        res == Some(true) ==> {
            &&& forall|i: int| 0 <= i < partial_game.info.timelines_white.len() ==>
                !unplayed(game.boards@, *partial_game, i, #[trigger] partial_game.info.timelines_white@[i].last_board as int, white)
            &&& forall|j: int| 0 <= j < partial_game.info.timelines_black.len() ==>
                !unplayed(game.boards@, *partial_game, -j - 1, #[trigger] partial_game.info.timelines_black@[j].last_board as int, white)
        },
{
    let info = &partial_game.info;
    let mut i: usize = 0;
    while i < info.timelines_white.len()
        invariant
            game.valid(),
            partial_game.wf(),
            info == &partial_game.info,
            0 <= i <= info.timelines_white.len(),
            forall|k: int| 0 <= k < i ==>
                !unplayed(game.boards@, *partial_game, k, #[trigger] partial_game.info.timelines_white@[k].last_board as int, white),
        decreases info.timelines_white.len() - i,
    {
        let l = i as isize;
        let t = info.timelines_white[i].last_board;
        if !check_last_board(game, partial_game, l, t, white)? {
            return Some(false);
        }
        i = i + 1;
    }
    let mut j: usize = 0;
    while j < info.timelines_black.len()
        invariant
            game.valid(),
            partial_game.wf(),
            info == &partial_game.info,
            0 <= j <= info.timelines_black.len(),
            forall|k: int| 0 <= k < info.timelines_white.len() ==>
                !unplayed(game.boards@, *partial_game, k, #[trigger] partial_game.info.timelines_white@[k].last_board as int, white),
            forall|k: int| 0 <= k < j ==>
                !unplayed(game.boards@, *partial_game, -k - 1, #[trigger] partial_game.info.timelines_black@[k].last_board as int, white),
        decreases info.timelines_black.len() - j,
    {
        let l = -(j as isize) - 1;
        let t = info.timelines_black[j].last_board;
        if !check_last_board(game, partial_game, l, t, white)? {
            return Some(false);
        }
        j = j + 1;
    }
    Some(true)
}

/// The move lands on a royal piece of `white`.
pub open spec fn lands_on_royal(mv: Move, white: bool) -> bool {
    match mv.to.0 {
        Some(p) => kind_is_royal(p.kind) && p.white == white,
        None => false,
    }
}

/// One of `moves` takes a royal piece of `white`, whether it stays on its board or jumps to
/// another board or timeline.
pub open spec fn takes_royal(moves: Seq<Move>, white: bool) -> bool {
    exists|i: int| 0 <= i < moves.len() && lands_on_royal(#[trigger] moves[i], white)
}

/// Whether one of `moves` takes a royal piece of `white` (on its own board or on another).
pub fn captures_royal(moves: &Vec<Move>, white: bool) -> (res: bool)
    ensures
        res == takes_royal(moves@, white),
{
    let mut k: usize = 0;
    while k < moves.len()
        invariant
            0 <= k <= moves.len(),
            forall|i: int| 0 <= i < k ==> !lands_on_royal(#[trigger] moves@[i], white),
        decreases moves.len() - k,
    {
        match moves[k].to.0 {
            Some(p) => {
                if p.is_royal() && p.white == white {
                    assert(lands_on_royal(moves@[k as int], white));
                    return true;
                }
            },
            None => {},
        }
        k = k + 1;
    }
    false
}

/// Checks the board at `(l, t)` for `is_moveset_legal`: `Some(false)` if `white` still has
/// to play it, or if it is the opponent's and one of its probable moves takes a royal piece
/// of `white`; `None` if its moves cannot be generated; `Some(true)` otherwise (and if there
/// is no such board).
fn check_last_board(game: &Game, partial_game: &PartialGame, l: isize, t: isize, white: bool) -> (res: Option<bool>)
    requires
        game.valid(),
        partial_game.wf(),
        l > isize::MIN,
    ensures
        res == Some(true) ==> !unplayed(game.boards@, *partial_game, l as int, t as int, white),
{
    let board = match partial_game.get_board_with_game(game, (l, t)) {
        Some(b) => b,
        None => {
            return Some(true);
        },
    };
    proof { lemma_found_with_game(*game, *partial_game, (l as int, t as int)); }
    if board.white() != white {
        let moves = probable_moves(game, partial_game, board)?;
        if captures_royal(&moves, white) {
            return Some(false);
        }
        Some(true)
    } else {
        Some(!board.active(&partial_game.info))
    }
}

} // verus!
