use vstd::prelude::*;
use crate::bitboard::{lemma_row_col, shifted_bit};
use crate::bits::bit;
use crate::board::{Board, BoardView};
use crate::game::{BoardArray, Game, COORD_BOUND};
use crate::goal::{Goal, NotGoal};
use crate::partial_game::{PartialGame, PartialGameStorage};
use crate::strategy::{AndStrategy, FalseStrategy, OrStrategy, Strategy, TrueStrategy};
use crate::info::{b2i, lemma_min_last_board, min_last_board, Info, TimelineInfo};
use crate::movement::{
    first_invalid, gen_jump, landing_tile, moveset_error, on_board, physical_move_board, spec_move_new, square, GenState, Move,
    MoveKind, Moveset, PartialGameGenKind,
};
use crate::piece::kind_is_pawnlike;
use crate::coords::{coords_add_fits, Coords};
use crate::piece::Piece;
use crate::tile::Tile;
use vstd::std_specs::convert::FromSpec;
use vstd::std_specs::ops::{AddSpec, SubSpec};
use crate::time::{remaining_after_spec, Duration};
use crate::wdl::WDL;
use vstd::std_specs::ops::NegSpec;

verus! {

/// On a board, setting the tile of a square changes that square, and that square only.
pub proof fn law_board_get_after_set(before: Board, after: Board, x: int, y: int, tile: Tile)
    requires
        before.wf(),
        before.in_bounds(x, y),
        after.spec_width() == before.spec_width(),
        after.spec_height() == before.spec_height(),
        after.pieces@ == before.pieces@.update(before.index_of(x, y), tile),
    ensures
        after.spec_get(x, y) == tile,
        forall|x2: int, y2: int| (x2 != x || y2 != y) ==> #[trigger] after.spec_get(x2, y2) == before.spec_get(x2, y2),
{
    crate::board::lemma_index_bound(before.spec_width(), before.spec_height(), x, y);
    assert forall|x2: int, y2: int| (x2 != x || y2 != y) implies #[trigger] after.spec_get(x2, y2) == before.spec_get(x2, y2) by {
        if before.in_bounds(x2, y2) {
            crate::board::lemma_index_bound(before.spec_width(), before.spec_height(), x2, y2);
            if before.index_of(x2, y2) == before.index_of(x, y) {
                lemma_square_injective(x, y, x2, y2, before.spec_width());
            }
        }
    }
}

/// Distinct squares of a board of width `w` have distinct indices.
proof fn lemma_square_injective(x1: int, y1: int, x2: int, y2: int, w: int)
    requires
        0 <= x1 < w,
        0 <= x2 < w,
        0 <= y1,
        0 <= y2,
        x1 + w * y1 == x2 + w * y2,
    ensures
        x1 == x2,
        y1 == y2,
{
    lemma_row_col(x1 + w * y1, w, y1, x1);
    lemma_row_col(x2 + w * y2, w, y2, x2);
}

/// A board inserted into a `BoardArray` is found at its own coordinates, and the boards
/// at other coordinates are unchanged.
pub proof fn law_board_array_get_after_insert(array: BoardArray, board: Board, lt: (int, int))
    requires
        array.valid(),
    ensures
        array@.insert((board.l as int, board.t as int), board)[(board.l as int, board.t as int)] == board,
        lt != (board.l as int, board.t as int) ==> {
            &&& array@.insert((board.l as int, board.t as int), board).dom().contains(lt) == array@.dom().contains(lt)
            &&& array@.insert((board.l as int, board.t as int), board)[lt] == array@[lt]
        },
{
}

/// Shifting a bitboard by nothing keeps the bits of the board's squares.
pub proof fn law_bitboard_shift_zero(b: u64, w: int, i: int)
    requires
        1 <= w <= 8,
        0 <= i < 64,
    ensures
        shifted_bit(b, 0, 0, w, i) == bit(b, i as u64),
{
    vstd::arithmetic::div_mod::lemma_fundamental_div_mod(i, w);
    vstd::arithmetic::div_mod::lemma_mod_bound(i, w);
    vstd::arithmetic::div_mod::lemma_div_pos_is_pos(i, w);
}

/// The timelines that a player can still create and those they created beyond what is
/// active balance out: `advantage - debt = other + 1 - own`, and at most one of them is
/// positive.
pub proof fn law_timeline_balance(info: Info, white: bool)
    ensures
        ({
            let (own, other) = if white { (info.spec_n_white(), info.spec_n_black()) } else { (info.spec_n_black(), info.spec_n_white()) };
            info.spec_timeline_advantage(white) - info.spec_timeline_debt(white) == other + 1 - own
        }),
        info.spec_timeline_advantage(white) == 0 || info.spec_timeline_debt(white) == 0,
        info.spec_timeline_advantage(true) - info.spec_timeline_debt(true) + info.spec_timeline_advantage(false)
            - info.spec_timeline_debt(false) == 2,
{
}

/// The present is the earliest last board among the timelines it considers: it is at most
/// the last board of each of them, and it is the last board of one of them.
pub proof fn law_present_is_earliest(info: Info)
    requires
        info.timelines_white.len() >= 1,
    ensures
        ({
            let aw = info.spec_active_width();
            let w = info.timelines_white@;
            let b = info.timelines_black@;
            let kw = if aw + 2 < w.len() { aw + 2 } else { w.len() as int };
            let kb = if aw + 1 + b2i(info.even_timelines) < b.len() { aw + 1 + b2i(info.even_timelines) } else { b.len() as int };
            &&& forall|i: int| 0 <= i < kw ==> info.spec_present() <= #[trigger] w[i].last_board
            &&& forall|i: int| 0 <= i < kb ==> info.spec_present() <= #[trigger] b[i].last_board
            &&& (exists|i: int| 0 <= i < kw && info.spec_present() == #[trigger] w[i].last_board)
                || (exists|i: int| 0 <= i < kb && info.spec_present() == #[trigger] b[i].last_board)
        }),
{
    let aw = info.spec_active_width();
    let w = info.timelines_white@;
    let b = info.timelines_black@;
    let kw = if aw + 2 < w.len() { aw + 2 } else { w.len() as int };
    let kb = if aw + 1 + b2i(info.even_timelines) < b.len() { aw + 1 + b2i(info.even_timelines) } else { b.len() as int };
    let init = w[0].last_board as int;
    let wm = min_last_board(w.take(kw), init);
    lemma_min_last_board(w.take(kw), init);
    lemma_min_last_board(b.take(kb), wm);
    assert forall|i: int| 0 <= i < kw implies info.spec_present() <= #[trigger] w[i].last_board by {
        assert(w.take(kw)[i] == w[i]);
    }
    assert forall|i: int| 0 <= i < kb implies info.spec_present() <= #[trigger] b[i].last_board by {
        assert(b.take(kb)[i] == b[i]);
    }
    if info.spec_present() == wm {
        if wm == init {
            assert(kw >= 1);
            assert(info.spec_present() == w[0].last_board);
        } else {
            let j = choose|j: int| 0 <= j < w.take(kw).len() && wm == #[trigger] w.take(kw)[j].last_board;
            assert(w.take(kw)[j] == w[j]);
        }
    } else {
        let j = choose|j: int| 0 <= j < b.take(kb).len() && info.spec_present() == #[trigger] b.take(kb)[j].last_board;
        assert(b.take(kb)[j] == b[j]);
    }
}

/// Negating outcome counts twice gives them back, and the negation of a win is a loss.
pub proof fn law_wdl_negation(a: WDL)
    ensures
        a.neg_spec().neg_spec() == a,
        a == (WDL { win: 1, draw: 0, loss: 0, sum: 1 }) ==> a.neg_spec() == (WDL { win: 0, draw: 0, loss: 1, sum: 1 }),
{
}

/// The time remaining out of a duration, added to the time elapsed, gives the duration,
/// as long as the duration is not exceeded; once it is, no time remains.
pub proof fn law_remaining_and_elapsed(duration: Duration, elapsed: Duration)
    ensures
        elapsed@ <= duration@ ==> remaining_after_spec(duration@, elapsed@) + elapsed@ == duration@,
        elapsed@ > duration@ ==> remaining_after_spec(duration@, elapsed@) == 0,
{
}

/// A move of a moveset, as checked by `Moveset::new`: it starts and ends on boards of the
/// active player, starts from the last board of an existing timeline, and ends on a board
/// of an existing timeline, no later than its last board.
pub open spec fn valid_move(mv: Move, info: Info) -> bool {
    let from = mv.from.1;
    let to = mv.to.1;
    let active = b2i(info.active_player);
    &&& (from.1 & 1) as int != active
    &&& (to.1 & 1) as int != active
    &&& info.spec_timeline(from.0 as int) matches Some(tl) && tl.last_board == from.1
    &&& info.spec_timeline(to.0 as int) matches Some(tt) && (to.1 == tt.last_board || (tt.first_board <= to.1 <= tt.last_board))
}

/// A move arrives on the last board of its target timeline (and so plays on that timeline).
pub open spec fn arrives_last(mv: Move, info: Info) -> bool {
    info.spec_timeline(mv.to.1.0 as int) matches Some(tt) && mv.to.1.1 == tt.last_board
}

/// The moves `moves[i..]` accepted from the state `moved` of `first_invalid` are valid, and
/// none starts on a timeline that `moved` marks or that an earlier one of them played on.
proof fn lemma_first_invalid_none(moves: Seq<Move>, info: Info, i: int, moved: Map<isize, bool>)
    requires
        0 <= i,
        first_invalid(moves, info, i, moved) is None,
    ensures
        forall|j: int| i <= j < moves.len() ==> valid_move(#[trigger] moves[j], info),
        forall|j: int| i <= j < moves.len() ==> !(moved.contains_key((#[trigger] moves[j]).from.1.0) && moved[moves[j].from.1.0]),
        forall|k: int, j: int|
            i <= k < j < moves.len() ==> (#[trigger] moves[k]).from.1.0 != (#[trigger] moves[j]).from.1.0 && (arrives_last(moves[k], info)
                ==> moves[k].to.1.0 != moves[j].from.1.0),
    decreases moves.len() - i,
{
    if i < moves.len() {
        let mv = moves[i];
        let from = mv.from.1;
        let to = mv.to.1;
        let target = info.spec_timeline(to.0 as int)->0;
        let moved1 = if to.1 == target.last_board { moved.insert(to.0, true) } else { moved };
        let moved2 = moved1.insert(from.0, true);
        lemma_first_invalid_none(moves, info, i + 1, moved2);
        assert forall|j: int| i + 1 <= j < moves.len() implies !(moved.contains_key((#[trigger] moves[j]).from.1.0) && moved[moves[j].from.1.0]) by {
            assert(!(moved2.contains_key(moves[j].from.1.0) && moved2[moves[j].from.1.0]));
        }
    }
}

/// A moveset accepted by `Moveset::new` has between one move and as many moves as there are
/// timelines; each move is valid, no two moves start on the same timeline, and no move
/// starts on a timeline that an earlier move played on by arriving on its last board.
pub proof fn law_accepted_moveset(moves: Seq<Move>, info: Info)
    requires
        moveset_error(moves, info) is None,
    ensures
        0 < moves.len() <= info.timelines_white.len() + info.timelines_black.len(),
        forall|j: int| 0 <= j < moves.len() ==> valid_move(#[trigger] moves[j], info),
        forall|k: int, j: int|
            0 <= k < j < moves.len() ==> (#[trigger] moves[k]).from.1.0 != (#[trigger] moves[j]).from.1.0 && (arrives_last(moves[k], info)
                ==> moves[k].to.1.0 != moves[j].from.1.0),
{
    lemma_first_invalid_none(moves, info, 0, Map::empty());
}

/// A normal move or a promotion within a board leads to the next board of the same
/// timeline, where the target square holds what the move puts there, the source square
/// is empty, and every other square is unchanged.
pub proof fn law_physical_move(b: BoardView, mv: Move)
    requires
        on_board(b, mv.from.1.2 as int, mv.from.1.3 as int),
        on_board(b, mv.to.1.2 as int, mv.to.1.3 as int),
        mv.from.1.2 != mv.to.1.2 || mv.from.1.3 != mv.to.1.3,
        b.pieces.len() == b.width * b.height,
    ensures
        ({
            let r = physical_move_board(b, mv);
            let from = mv.from.1;
            let to = mv.to.1;
            &&& r.l == b.l
            &&& r.t == b.t + 1
            &&& r.get(to.2 as int, to.3 as int) == landing_tile(mv, b.pieces, square(from.2 as int, from.3 as int, b.width))
            &&& r.get(from.2 as int, from.3 as int) == Tile::Blank
            &&& forall|x: int, y: int|
                (x != from.2 || y != from.3) && (x != to.2 || y != to.3) ==> #[trigger] r.get(x, y) == b.get(x, y)
        }),
{
    let from = mv.from.1;
    let to = mv.to.1;
    let r = physical_move_board(b, mv);
    crate::board::lemma_index_bound(b.width, b.height, from.2 as int, from.3 as int);
    crate::board::lemma_index_bound(b.width, b.height, to.2 as int, to.3 as int);
    if square(from.2 as int, from.3 as int, b.width) == square(to.2 as int, to.3 as int, b.width) {
        lemma_square_injective(from.2 as int, from.3 as int, to.2 as int, to.3 as int, b.width);
    }
    assert forall|x: int, y: int| (x != from.2 || y != from.3) && (x != to.2 || y != to.3) implies #[trigger] r.get(x, y) == b.get(x, y) by {
        if on_board(b, x, y) {
            crate::board::lemma_index_bound(b.width, b.height, x, y);
            if square(x, y, b.width) == square(from.2 as int, from.3 as int, b.width) {
                lemma_square_injective(x, y, from.2 as int, from.3 as int, b.width);
            }
            if square(x, y, b.width) == square(to.2 as int, to.3 as int, b.width) {
                lemma_square_injective(x, y, to.2 as int, to.3 as int, b.width);
            }
        }
    }
}

/// A jump (with both new boards) to a board that is not the last of its timeline creates a
/// new timeline for the mover, beyond the others (after the white ones for white, after the
/// black ones for black), emerging from the target board and holding the new target board.
pub proof fn law_branching_jump(sb: BoardView, tb: BoardView, mv: Move, st: GenState)
    requires
        st.1.len() < COORD_BOUND,
        st.2.len() < COORD_BOUND,
        crate::info::timeline_in(st.1, st.2, mv.to.1.0 as int) matches Some(tl) && tl.last_board > mv.to.1.1,
        crate::info::timeline_in(st.1, st.2, mv.from.1.0 as int) is Some,
    ensures
        ({
            let (r, ok) = gen_jump(sb, tb, mv, PartialGameGenKind::Both, st);
            let white = mv.from.1.1 % 2 == 0;
            let layer = if white { st.1.len() as int } else { -(st.2.len() as int) - 1 };
            let new_tl = crate::info::timeline_in(r.1, r.2, layer);
            &&& ok
            &&& r.1.len() + r.2.len() == st.1.len() + st.2.len() + 1
            &&& new_tl matches Some(n) && n.index == layer && n.starts_from == Some((mv.to.1.0, mv.to.1.1))
                && n.first_board == mv.to.1.1 + 1 && n.last_board == mv.to.1.1 + 1
            &&& r.0.dom().contains((layer, tb.t + 1))
        }),
{
}


/// A goal negated twice gives the verdicts of the goal.
pub proof fn law_not_not_goal<G: Goal>(g: NotGoal<NotGoal<G>>, moveset: Moveset, game: Game, partial_game: PartialGame, depth: usize)
    ensures
        g.spec_verify(moveset, game, partial_game, depth) == g.goal.goal.spec_verify(moveset, game, partial_game, depth),
{
}

/// The conjunction of the strategy that always holds with a strategy `s` behaves as `s`,
/// and so does the disjunction of the strategy that never holds with `s`.
pub proof fn law_strategy_units<'a, F: Copy, S: Strategy<'a, From = F, To = bool>>(
    and: AndStrategy<F, TrueStrategy<F>, S>,
    or: OrStrategy<F, FalseStrategy<F>, S>,
    from: F,
    game: Game,
    partial_game: PartialGame<'a>,
)
    ensures
        and.spec_apply(from, game, partial_game) == and.right.spec_apply(from, game, partial_game),
        or.spec_apply(from, game, partial_game) == or.right.spec_apply(from, game, partial_game),
{
}


/// A board inserted into a layer of a partial game state is found at its coordinates, if
/// the layer is deep, or if the board is the last board of its timeline.
pub proof fn law_partial_game_get_after_insert(before: PartialGame, after: PartialGame, board: Board)
    requires
        after.layer_ok(),
        after.deep_view() == before.deep_view().insert((board.l as int, board.t as int), board),
        after.boards is Deep || (after.info.spec_timeline(board.l as int) matches Some(tl) && tl.last_board == board.t),
    ensures
        after.spec_get_board((board.l as int, board.t as int)) == Some(board),
{
    let key = (board.l as int, board.t as int);
    assert(after.deep_view().dom().contains(key));
    match after.boards {
        PartialGameStorage::Deep(_) => {
            assert(after.layer_view() == after.deep_view());
            assert(after.layer_view().dom().contains(key));
            assert(after.deep_view()[key] == board);
            assert(after.spec_get_board(key) == Some(after.layer_view()[key]));
        },
        PartialGameStorage::Shallow(white, black) => {
            if board.l >= 0 {
                assert(white@[board.l as int] is Some);
                assert(after.layer_view().dom().contains(key));
            } else {
                assert(black@[-board.l - 1] is Some);
                assert(after.layer_view().dom().contains(key));
            }
        },
    }
}

/// Adding coordinates and subtracting the same coordinates again gives back the first ones,
/// wherever the sum fits.
pub proof fn law_coords_add_then_sub(a: Coords, b: Coords)
    requires
        coords_add_fits(a, b),
    ensures
        a.add_req(b),
        a.add_spec(b).sub_req(b),
        a.add_spec(b).sub_spec(b) == a,
{
}

/// A piece made into a tile, and the tile made back into an optional piece, gives the piece.
pub proof fn law_piece_tile_round_trip(p: Piece)
    ensures
        <Option<Piece> as FromSpec<Tile>>::from_spec(<Tile as FromSpec<Piece>>::from_spec(p)) == Some(p),
{
}

/// The moves `moves[i..]`, each valid, none starting on a timeline that `moved` marks, with
/// distinct source timelines and none starting on a timeline that an earlier one of them
/// reached at its last board, are accepted by `first_invalid` from the state `moved`.
proof fn lemma_first_invalid_complete(moves: Seq<Move>, info: Info, i: int, moved: Map<isize, bool>)
    requires
        0 <= i,
        forall|j: int| i <= j < moves.len() ==> valid_move(#[trigger] moves[j], info),
        forall|j: int| i <= j < moves.len() ==> !(moved.contains_key((#[trigger] moves[j]).from.1.0) && moved[moves[j].from.1.0]),
        forall|k: int, j: int|
            i <= k < j < moves.len() ==> (#[trigger] moves[k]).from.1.0 != (#[trigger] moves[j]).from.1.0 && (arrives_last(moves[k], info)
                ==> moves[k].to.1.0 != moves[j].from.1.0),
    ensures
        first_invalid(moves, info, i, moved) is None,
    decreases moves.len() - i,
{
    if i < moves.len() {
        let mv = moves[i];
        let from = mv.from.1;
        let to = mv.to.1;
        assert(valid_move(moves[i], info));
        let target = info.spec_timeline(to.0 as int)->0;
        let moved1 = if to.1 == target.last_board { moved.insert(to.0, true) } else { moved };
        let moved2 = moved1.insert(from.0, true);
        assert forall|j: int| i + 1 <= j < moves.len() implies !(moved2.contains_key((#[trigger] moves[j]).from.1.0) && moved2[moves[j].from.1.0]) by {
            assert(moves[i].from.1.0 != moves[j].from.1.0);
            assert(!(moved.contains_key(moves[j].from.1.0) && moved[moves[j].from.1.0]));
            if to.1 == target.last_board {
                assert(arrives_last(moves[i], info));
                assert(moves[i].to.1.0 != moves[j].from.1.0);
            }
        }
        lemma_first_invalid_complete(moves, info, i + 1, moved2);
    }
}

/// `Moveset::new` accepts every moveset of one to as many moves as there are timelines, each
/// valid, with distinct source timelines, where no move starts on a timeline that an earlier
/// move reached at its last board. A move to an earlier board of a timeline does not play on it.
pub proof fn law_moveset_complete(moves: Seq<Move>, info: Info)
    requires
        0 < moves.len() <= info.timelines_white.len() + info.timelines_black.len(),
        forall|j: int| 0 <= j < moves.len() ==> valid_move(#[trigger] moves[j], info),
        forall|k: int, j: int|
            0 <= k < j < moves.len() ==> (#[trigger] moves[k]).from.1.0 != (#[trigger] moves[j]).from.1.0 && (arrives_last(moves[k], info)
                ==> moves[k].to.1.0 != moves[j].from.1.0),
    ensures
        moveset_error(moves, info) is None,
{
    lemma_first_invalid_complete(moves, info, 0, Map::empty());
}

/// A jump (with both new boards) to the last board of another timeline creates no timeline:
/// the numbers of white and black timelines stay, the target timeline and the source timeline
/// are each one board longer, and the new target board stands right after the target board.
pub proof fn law_jump_to_last_board(sb: BoardView, tb: BoardView, mv: Move, st: GenState)
    requires
        mv.from.1.0 != mv.to.1.0,
        tb.l == mv.to.1.0,
        tb.t == mv.to.1.1,
        crate::info::timeline_in(st.1, st.2, mv.to.1.0 as int) matches Some(tl) && tl.last_board == mv.to.1.1 && tl.last_board < isize::MAX,
        crate::info::timeline_in(st.1, st.2, mv.from.1.0 as int) matches Some(tl) && tl.last_board < isize::MAX,
    ensures
        ({
            let (r, ok) = gen_jump(sb, tb, mv, PartialGameGenKind::Both, st);
            let to_tl = crate::info::timeline_in(st.1, st.2, mv.to.1.0 as int)->0;
            let from_tl = crate::info::timeline_in(st.1, st.2, mv.from.1.0 as int)->0;
            &&& ok
            &&& r.1.len() == st.1.len()
            &&& r.2.len() == st.2.len()
            &&& crate::info::timeline_in(r.1, r.2, mv.to.1.0 as int) matches Some(n) && n.last_board == to_tl.last_board + 1
            &&& crate::info::timeline_in(r.1, r.2, mv.from.1.0 as int) matches Some(n) && n.last_board == from_tl.last_board + 1
            &&& r.0.dom().contains((mv.to.1.0 as int, mv.to.1.1 + 1))
            &&& r.0[(mv.to.1.0 as int, mv.to.1.1 + 1)].l == mv.to.1.0
        }),
{
}

/// A pawn-like piece moved by `Move::new` onto the last row or onto the first row, from
/// another row, is promoted, unless the move is an en passant capture (onto an empty square
/// of another column).
pub proof fn law_move_new_promotes(boards: Map<(int, int), Board>, pg: PartialGame, height: int, from: Coords, to: Coords)
    ensures
        spec_move_new(boards, pg, height, from, to) matches Some(mv) ==> {
            (kind_is_pawnlike(mv.from.0.kind)
                && ((to.3 == height - 1 && from.3 != height - 1) || (to.3 == 0 && from.3 != 0))
                && (mv.to.0 is Some || from.2 == to.2))
            ==> mv.kind == MoveKind::Promotion
        },
{
}

} // verus!
