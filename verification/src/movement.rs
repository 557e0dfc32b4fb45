use vstd::prelude::*;
use std::collections::HashMap;
use vstd::std_specs::cmp::PartialEqSpecImpl;
use crate::board::{board_views, lemma_index_bound, lemma_views_insert, Board, BoardView};
use crate::coords::Coords;
use crate::game::{coords_in_bounds, Game, COORD_BOUND};
use crate::info::{b2i, present_of, timeline_in, Info, TimelineInfo};
use crate::partial_game::{lemma_found_with_game, spec_get_board_with_game, spec_get_with_game, PartialGame};
use crate::piece::{kind_is_pawnlike, Piece, PieceKind};
use crate::tile::{spec_tile_piece, Tile};
use crate::{Layer, Physical};

verus! {

/// A move's kind (regular move, castling move, etc.).
#[derive(Debug, Clone, Copy, PartialEq, Eq, Hash, Structural)]
pub enum MoveKind {
    Normal,
    Castle,
    EnPassant,
    Promotion,
}

/// Which boards `Move::generate_partial_game` creates for a non-physical move
/// (it has no effect on a physical move).
#[derive(Debug, Clone, Copy, PartialEq, Eq, Hash, Structural)]
pub enum PartialGameGenKind {
    /// Both the new source and the new target board.
    Both,
    /// Only the new source board.
    Source,
    /// Only the new target board.
    Target,
}

/// A piece's movement: the piece and where it comes from, what stands where it goes
/// (a captured piece, if any) and the kind of move.
#[derive(Debug, Clone, Copy, PartialEq, Eq, Hash)]
pub struct Move {
    pub from: (Piece, Coords),
    pub to: (Option<Piece>, Coords),
    pub kind: MoveKind,
}

/// The kind of the move of `piece` from `from` to `to`, onto a square holding `target`,
/// on boards of height `height`.
pub open spec fn deduce_kind(piece: Piece, from: Coords, to: Coords, target: Option<Piece>, height: int) -> MoveKind {
    if kind_is_pawnlike(piece.kind) && target is None && from.2 != to.2 {
        MoveKind::EnPassant
    } else if kind_is_pawnlike(piece.kind) && ((to.3 == 0 && from.3 != 0) || (to.3 == height - 1 && from.3 != height - 1)) {
        MoveKind::Promotion
    } else if piece.kind == PieceKind::King && (from.2 == to.2 + 2 || from.2 + 2 == to.2) {
        MoveKind::Castle
    } else {
        MoveKind::Normal
    }
}

/// The move from `from` to `to` that `Move::new` builds: `None` if there is no piece at
/// `from`, or if that piece does not belong to the player whose board it stands on.
pub open spec fn spec_move_new(boards: Map<(int, int), Board>, pg: PartialGame, height: int, from: Coords, to: Coords) -> Option<Move> {
    match spec_get_board_with_game(boards, pg, (from.0 as int, from.1 as int)) {
        None => None,
        Some(board) => match spec_tile_piece(board.spec_get(from.2 as int, from.3 as int)) {
            None => None,
            Some(piece) => {
                let target = spec_tile_piece(spec_get_with_game(boards, pg, to));
                if piece.white != (board.t % 2 == 0) {
                    None
                } else {
                    Some(Move { from: (piece, from), to: (target, to), kind: deduce_kind(piece, from, to, target, height) })
                }
            },
        },
    }
}

/// The move changes the board: its source and target lie on different boards.
pub open spec fn spec_is_jump(mv: Move) -> bool {
    mv.from.1.0 != mv.to.1.0 || mv.from.1.1 != mv.to.1.1
}


/// The boards (by their contents, at their own coordinates) and the white and black
/// timelines of a partial game state being generated.
pub type GenState = (Map<(int, int), BoardView>, Seq<TimelineInfo>, Seq<TimelineInfo>);

/// The state of the layer of `pg`: its boards at their own coordinates, and its timelines.
pub open spec fn gen_state(pg: PartialGame) -> GenState {
    (board_views(pg.deep_view()), pg.info.timelines_white@, pg.info.timelines_black@)
}

/// The move is made by white: it starts from a board at an even time.
pub open spec fn is_white_move(mv: Move) -> bool {
    mv.from.1.1 % 2 == 0
}

/// The index of the square `(x, y)` in the tiles of a board of width `w`.
pub open spec fn square(x: int, y: int, w: int) -> int {
    x + w * y
}

/// The square `(x, y)` lies on the board `b`.
pub open spec fn on_board(b: BoardView, x: int, y: int) -> bool {
    0 <= x < b.width && 0 <= y < b.height
}

/// `tl`, one board longer.
pub open spec fn lengthened(tl: TimelineInfo) -> TimelineInfo {
    TimelineInfo { index: tl.index, starts_from: tl.starts_from, last_board: (tl.last_board + 1) as isize, first_board: tl.first_board }
}

/// `st` with the timeline `l`, if it exists, one board longer.
pub open spec fn lengthen(st: GenState, l: int) -> GenState {
    if l < 0 {
        if -l - 1 < st.2.len() { (st.0, st.1, st.2.update(-l - 1, lengthened(st.2[-l - 1]))) } else { st }
    } else {
        if l < st.1.len() { (st.0, st.1.update(l, lengthened(st.1[l])), st.2) } else { st }
    }
}

/// `st` with the board `b` added at its own coordinates.
pub open spec fn with_board(st: GenState, b: BoardView) -> GenState {
    (st.0.insert((b.l, b.t), b), st.1, st.2)
}

/// Adds `b` to `st` and lengthens the timeline `l`; fails, with `b` added, if there is no
/// such timeline.
pub open spec fn add_and_lengthen(st: GenState, b: BoardView, l: int) -> (GenState, bool) {
    (lengthen(with_board(st, b), l), timeline_in(st.1, st.2, l) is Some)
}

/// The tile that a normal move or a promotion puts on its target square: an unmoved queen of
/// the mover's color for a promotion, otherwise the piece on `pieces[from_index]`, marked as moved.
pub open spec fn landing_tile(mv: Move, pieces: Seq<Tile>, from_index: int) -> Tile {
    if mv.kind == MoveKind::Promotion {
        Tile::Piece(Piece { kind: PieceKind::Queen, white: is_white_move(mv), moved: false })
    } else {
        spec_set_moved(pieces[from_index], true)
    }
}

/// The board that a normal move or a promotion within the board `b` leads to. A pawn-like
/// piece moving by two rows leaves the square it passed over open to en passant (the square
/// behind it for a white move, that is for a new board at a positive odd time).
pub open spec fn physical_move_board(b: BoardView, mv: Move) -> BoardView {
    let from = mv.from.1;
    let to = mv.to.1;
    let fi = square(from.2 as int, from.3 as int, b.width);
    let ti = square(to.2 as int, to.3 as int, b.width);
    let t = b.t + 1;
    BoardView {
        t,
        pieces: b.pieces.update(ti, landing_tile(mv, b.pieces, fi)).update(fi, Tile::Blank),
        en_passant: if kind_is_pawnlike(mv.from.0.kind) && (from.3 - to.3 >= 2 || to.3 - from.3 >= 2) {
            if t >= 0 && t % 2 == 1 {
                Some((from.2, (from.3 + 1) as Physical))
            } else {
                Some((from.2, (from.3 - 1) as Physical))
            }
        } else {
            None
        },
        ..b
    }
}

/// The board that an en passant capture within the board `b` leads to, the captured piece
/// standing on `(ex, ey)`.
pub open spec fn en_passant_board(b: BoardView, mv: Move, ex: Physical, ey: Physical) -> BoardView {
    let from = mv.from.1;
    let to = mv.to.1;
    let fi = square(from.2 as int, from.3 as int, b.width);
    let ti = square(to.2 as int, to.3 as int, b.width);
    let ci = square(ex as int, ey as int, b.width);
    BoardView {
        t: b.t + 1,
        pieces: b.pieces.update(ti, spec_set_moved(b.pieces[fi], true)).update(fi, Tile::Blank).update(ci, Tile::Blank),
        en_passant: None,
        ..b
    }
}

/// The column of the first piece on row `y` of `b`, looking from column `x` leftwards (down
/// to column 0), if it is an unmoved rook of color `white`.
pub open spec fn rook_left(b: BoardView, x: int, y: int, white: bool) -> Option<int>
    decreases x,
{
    match b.get(x, y) {
        Tile::Piece(p) => if p.white == white && p.kind == PieceKind::Rook && !p.moved { Some(x) } else { None },
        _ => if x <= 0 { None } else { rook_left(b, x - 1, y, white) },
    }
}

/// The column of the first piece on row `y` of `b`, looking from column `x` rightwards (up
/// to the last column), if it is an unmoved rook of color `white`.
pub open spec fn rook_right(b: BoardView, x: int, y: int, white: bool) -> Option<int>
    decreases b.width - x,
{
    match b.get(x, y) {
        Tile::Piece(p) => if p.white == white && p.kind == PieceKind::Rook && !p.moved { Some(x) } else { None },
        _ => if x >= b.width - 1 { None } else { rook_right(b, x + 1, y, white) },
    }
}

/// The column of the rook that a castling move castles with, on the side the king moves to.
pub open spec fn castle_rook(b: BoardView, mv: Move) -> Option<int> {
    let from = mv.from.1;
    if from.2 > mv.to.1.2 {
        rook_left(b, from.2 - 1, from.3 as int, is_white_move(mv))
    } else {
        rook_right(b, from.2 + 1, from.3 as int, is_white_move(mv))
    }
}

/// The board that castling within the board `b`, with the rook in column `rx`, leads to:
/// the king goes to its target square and the rook next to the king's square, on the side
/// the king moves to.
pub open spec fn castle_board(b: BoardView, mv: Move, rx: int) -> BoardView {
    let from = mv.from.1;
    let to = mv.to.1;
    let fi = square(from.2 as int, from.3 as int, b.width);
    let ti = square(to.2 as int, to.3 as int, b.width);
    let ri = square(rx, from.3 as int, b.width);
    let p1 = b.pieces.update(ti, spec_set_moved(b.pieces[fi], true)).update(fi, Tile::Blank);
    let p2 = if from.2 > to.2 {
        p1.update(fi - 1, spec_set_moved(p1[ri], true))
    } else {
        p1.update(fi + 1, spec_set_moved(p1[ri], true))
    };
    BoardView { t: b.t + 1, pieces: p2.update(ri, Tile::Blank), en_passant: None, ..b }
}

/// The boards and timelines that a jump (a normal move or a promotion from the board `sb`
/// to the board `tb`) leads to, and whether it succeeds. The target board goes to a new
/// timeline if the target is not the last board of its timeline; `kind` says which of the
/// two new boards are created.
pub open spec fn gen_jump(sb: BoardView, tb: BoardView, mv: Move, kind: PartialGameGenKind, st: GenState) -> (GenState, bool) {
    let from = mv.from.1;
    let to = mv.to.1;
    let fi = square(from.2 as int, from.3 as int, sb.width);
    let ti = square(to.2 as int, to.3 as int, sb.width);
    let new_source = BoardView { t: sb.t + 1, pieces: sb.pieces.update(fi, Tile::Blank), en_passant: None, ..sb };
    if kind == PartialGameGenKind::Source {
        add_and_lengthen(st, new_source, from.0 as int)
    } else {
        match timeline_in(st.1, st.2, to.0 as int) {
            None => (st, false),
            Some(tl) => {
                let branching = tl.last_board > to.1;
                let layer = if is_white_move(mv) { st.1.len() as int } else { -(st.2.len() as int) - 1 };
                let new_timeline = TimelineInfo {
                    index: layer as isize,
                    starts_from: Some((to.0, to.1)),
                    last_board: (to.1 + 1) as isize,
                    first_board: (to.1 + 1) as isize,
                };
                let st1 = if !branching {
                    lengthen(st, to.0 as int)
                } else if is_white_move(mv) {
                    (st.0, st.1.push(new_timeline), st.2)
                } else {
                    (st.0, st.1, st.2.push(new_timeline))
                };
                let new_target = BoardView {
                    l: if branching { layer } else { tb.l },
                    t: tb.t + 1,
                    pieces: tb.pieces.update(ti, landing_tile(mv, sb.pieces, fi)),
                    en_passant: None,
                    ..tb
                };
                if kind == PartialGameGenKind::Target {
                    (with_board(st1, new_target), true)
                } else {
                    let (st2, ok) = add_and_lengthen(st1, new_source, from.0 as int);
                    if ok { (with_board(st2, new_target), true) } else { (st2, false) }
                }
            },
        }
    }
}

/// The boards and timelines that the move `mv` leads to from the state `st`, the boards it
/// starts from being looked up among `boards`, then in `pg`; and whether it succeeds. It fails
/// (possibly after changing the state) if a board it needs or the timeline it starts from is
/// missing, if an en passant capture finds no en passant square or castling finds no rook.
pub open spec fn gen_move(boards: Map<(int, int), Board>, pg: PartialGame, mv: Move, kind: PartialGameGenKind, st: GenState) -> (GenState, bool) {
    let from = mv.from.1;
    let to = mv.to.1;
    match spec_get_board_with_game(boards, pg, (from.0 as int, from.1 as int)) {
        None => (st, false),
        Some(source) => {
            let b = source@;
            match mv.kind {
                MoveKind::EnPassant => match b.en_passant {
                    Some((ex, ey)) => add_and_lengthen(st, en_passant_board(b, mv, ex, ey), from.0 as int),
                    None => (st, false),
                },
                MoveKind::Castle => match castle_rook(b, mv) {
                    Some(rx) => add_and_lengthen(st, castle_board(b, mv, rx), from.0 as int),
                    None => (st, false),
                },
                _ => if !spec_is_jump(mv) {
                    add_and_lengthen(st, physical_move_board(b, mv), from.0 as int)
                } else {
                    match spec_get_board_with_game(boards, pg, (to.0 as int, to.1 as int)) {
                        None => (st, false),
                        Some(target) => gen_jump(b, target@, mv, kind, st),
                    }
                },
            }
        },
    }
}

/// The squares that the move reads and writes lie on the boards it is made on, and the
/// boards it creates lie within the bounds of a `BoardArray`.
pub open spec fn move_fits(boards: Map<(int, int), Board>, pg: PartialGame, mv: Move) -> bool {
    let from = mv.from.1;
    let to = mv.to.1;
    &&& coords_in_bounds(from.0 as int, from.1 as int)
    &&& coords_in_bounds(to.0 as int, to.1 as int)
    &&& match spec_get_board_with_game(boards, pg, (from.0 as int, from.1 as int)) {
        None => true,
        Some(source) => {
            let b = source@;
            &&& b.t < COORD_BOUND
            &&& on_board(b, from.2 as int, from.3 as int)
            &&& match mv.kind {
                MoveKind::EnPassant => {
                    &&& on_board(b, to.2 as int, to.3 as int)
                    &&& b.en_passant matches Some((ex, ey)) ==> on_board(b, ex as int, ey as int)
                },
                MoveKind::Castle => {
                    &&& on_board(b, to.2 as int, to.3 as int)
                    &&& from.2 <= to.2 ==> square(from.2 as int, from.3 as int, b.width) + 1 < b.pieces.len()
                },
                _ => if !spec_is_jump(mv) {
                    on_board(b, to.2 as int, to.3 as int)
                } else {
                    spec_get_board_with_game(boards, pg, (to.0 as int, to.1 as int)) matches Some(target) ==> {
                        &&& target.t < COORD_BOUND
                        &&& 0 <= to.2 && 0 <= to.3
                        &&& square(to.2 as int, to.3 as int, b.width) < target.pieces.len()
                    }
                },
            }
        },
    }
}

/// Every timeline of `s` can be lengthened twice more.
pub open spec fn lengthenable(s: Seq<TimelineInfo>) -> bool {
    forall|i: int| 0 <= i < s.len() ==> (#[trigger] s[i]).last_board < isize::MAX - 1
}

/// The state can take what a move adds: fewer than `COORD_BOUND` timelines on each side,
/// and room to lengthen each timeline twice.
pub open spec fn state_fits(st: GenState) -> bool {
    &&& st.1.len() < COORD_BOUND
    &&& st.2.len() < COORD_BOUND
    &&& lengthenable(st.1)
    &&& lengthenable(st.2)
}

/// Lengthens the timeline `l` of `npg` by one board; `None` if there is no such timeline.
fn lengthen_timeline(npg: &mut PartialGame, l: Layer) -> (res: Option<()>)
    requires
        l > isize::MIN,
        timeline_in(old(npg).info.timelines_white@, old(npg).info.timelines_black@, l as int) matches Some(tl) ==> tl.last_board < isize::MAX,
    ensures
        gen_state(*final(npg)) == lengthen(gen_state(*old(npg)), l as int),
        res is Some <==> timeline_in(old(npg).info.timelines_white@, old(npg).info.timelines_black@, l as int) is Some,
        final(npg).boards == old(npg).boards,
        final(npg).parent == old(npg).parent,
        final(npg).info.present == old(npg).info.present,
        final(npg).info.active_player == old(npg).info.active_player,
        final(npg).info.even_timelines == old(npg).info.even_timelines,
        final(npg).info.timelines_white.len() == old(npg).info.timelines_white.len(),
        final(npg).info.timelines_black.len() == old(npg).info.timelines_black.len(),
{
    match npg.info.get_timeline_mut(l) {
        Some(tl) => {
            tl.last_board = tl.last_board + 1;
            Some(())
        },
        None => None,
    }
}

/// Inserts `board` into `npg` and lengthens the timeline `l`; `None`, with the board
/// inserted, if there is no such timeline.
fn add_and_lengthen_exec(npg: &mut PartialGame, board: Board, l: Layer) -> (res: Option<()>)
    requires
        old(npg).accepts_boards(),
        board.wf(),
        coords_in_bounds(board.l as int, board.t as int),
        l > isize::MIN,
        timeline_in(old(npg).info.timelines_white@, old(npg).info.timelines_black@, l as int) matches Some(tl) ==> tl.last_board < isize::MAX,
    ensures
        (gen_state(*final(npg)), res is Some) == add_and_lengthen(gen_state(*old(npg)), board@, l as int),
        final(npg).accepts_boards(),
        forall|nw: int, nb: int| #[trigger] old(npg).covers(nw, nb) ==> final(npg).covers(nw, nb),
        board.l >= 0 ==> final(npg).covers(board.l + 1, 0),
        board.l < 0 ==> final(npg).covers(0, -board.l),
        final(npg).parent == old(npg).parent,
        final(npg).info.present == old(npg).info.present,
        final(npg).info.active_player == old(npg).info.active_player,
        final(npg).info.even_timelines == old(npg).info.even_timelines,
        final(npg).info.timelines_white.len() == old(npg).info.timelines_white.len(),
        final(npg).info.timelines_black.len() == old(npg).info.timelines_black.len(),
{
    proof {
        lemma_views_insert(old(npg).deep_view(), (board.l as int, board.t as int), board);
    }
    npg.insert(board);
    lengthen_timeline(npg, l)
}

impl Move {
    /// Generates the boards that this move leads to and adds them to `new_partial_game`,
    /// updating its timelines; the boards the move starts from are looked up in `game`, then
    /// in `partial_game`. For a non-physical normal move or promotion, `kind` says which of
    /// the new source and target boards are created. Returns `None` if a board it needs or
    /// the timeline it starts from is missing, if an en passant capture finds no en passant
    /// square or castling finds no rook; `new_partial_game` may then have been changed.
    /// The present of `new_partial_game` is not updated, and boards already at the
    /// coordinates of the new boards are overwritten.
    pub fn generate_partial_game<'a, 'b>(
        &self,
        game: &'a Game,
        partial_game: &'a PartialGame<'a>,
        new_partial_game: &'b mut PartialGame<'a>,
        kind: PartialGameGenKind,
    ) -> (res: Option<()>)
        requires
            game.valid(),
            partial_game.wf(),
            old(new_partial_game).accepts_boards(),
            move_fits(game.boards@, *partial_game, *self),
            state_fits(gen_state(*old(new_partial_game))),
        ensures
            (gen_state(*final(new_partial_game)), res is Some) == gen_move(game.boards@, *partial_game, *self, kind, gen_state(*old(new_partial_game))),
            final(new_partial_game).accepts_boards(),
            res is Some && old(new_partial_game).layer_wf() ==> final(new_partial_game).layer_wf(),
            final(new_partial_game).parent == old(new_partial_game).parent,
            final(new_partial_game).info.present == old(new_partial_game).info.present,
            final(new_partial_game).info.active_player == old(new_partial_game).info.active_player,
            final(new_partial_game).info.even_timelines == old(new_partial_game).info.even_timelines,
    {
        let from = self.from.1;
        let to = self.to.1;
        proof {
            lemma_found_with_game(*game, *partial_game, (from.0 as int, from.1 as int));
            lemma_found_with_game(*game, *partial_game, (to.0 as int, to.1 as int));
        }
        let source = match partial_game.get_board_with_game(game, from.non_physical()) {
            Some(b) => b,
            None => {
                return None;
            },
        };
        match self.kind {
            MoveKind::EnPassant => self.generate_en_passant(source, new_partial_game),
            MoveKind::Castle => self.generate_castle(source, new_partial_game),
            _ => {
                if !self.is_jump() {
                    self.generate_physical(source, new_partial_game)
                } else {
                    let target = match partial_game.get_board_with_game(game, to.non_physical()) {
                        Some(b) => b,
                        None => {
                            return None;
                        },
                    };
                    self.generate_jump(source, target, new_partial_game, kind)
                }
            },
        }
    }
}

impl Move {
    /// Generates the board that a physical normal move or promotion leads to from `source`.
    fn generate_physical(&self, source: &Board, new_partial_game: &mut PartialGame) -> (res: Option<()>)
        requires
            source.wf(),
            source.l == self.from.1.0,
            coords_in_bounds(source.l as int, source.t as int),
            source.t < COORD_BOUND,
            on_board(source@, self.from.1.2 as int, self.from.1.3 as int),
            on_board(source@, self.to.1.2 as int, self.to.1.3 as int),
            old(new_partial_game).accepts_boards(),
            state_fits(gen_state(*old(new_partial_game))),
        ensures
            (gen_state(*final(new_partial_game)), res is Some) == add_and_lengthen(gen_state(*old(new_partial_game)), physical_move_board(source@, *self), self.from.1.0 as int),
            final(new_partial_game).accepts_boards(),
            res is Some && old(new_partial_game).layer_wf() ==> final(new_partial_game).layer_wf(),
            final(new_partial_game).parent == old(new_partial_game).parent,
            final(new_partial_game).info.present == old(new_partial_game).info.present,
            final(new_partial_game).info.active_player == old(new_partial_game).info.active_player,
            final(new_partial_game).info.even_timelines == old(new_partial_game).info.even_timelines,
    {
        let from = self.from.1;
        let to = self.to.1;
        let white = from.1 % 2 == 0;
        let mut new_board = source.clone();
        new_board.t = new_board.t + 1;
        proof {
            lemma_index_bound(source.width as int, source.height as int, from.2 as int, from.3 as int);
            lemma_index_bound(source.width as int, source.height as int, to.2 as int, to.3 as int);
        }
        let w = new_board.width as usize;
        let from_index = from.2 as usize + w * (from.3 as usize);
        let to_index = to.2 as usize + w * (to.3 as usize);
        let tile = if self.kind == MoveKind::Promotion {
            Tile::Piece(Piece::new(PieceKind::Queen, white, false))
        } else {
            set_moved(new_board.pieces[from_index], true)
        };
        new_board.pieces.set(to_index, tile);
        new_board.pieces.set(from_index, Tile::Blank);
        let fy = from.3;
        let ty = to.3;
        if self.from.0.can_kickstart() && (fy - ty >= 2 || ty - fy >= 2) {
            if new_board.t % 2 == 1 {
                new_board.en_passant = Some((from.2, fy + 1));
            } else {
                new_board.en_passant = Some((from.2, fy - 1));
            }
        } else {
            new_board.en_passant = None;
        }
        proof {
            assert(new_board@ == physical_move_board(source@, *self));
        }
        add_and_lengthen_exec(new_partial_game, new_board, from.0)
    }

    /// Generates the board that an en passant capture leads to from `source`.
    fn generate_en_passant(&self, source: &Board, new_partial_game: &mut PartialGame) -> (res: Option<()>)
        requires
            source.wf(),
            source.l == self.from.1.0,
            coords_in_bounds(source.l as int, source.t as int),
            source.t < COORD_BOUND,
            on_board(source@, self.from.1.2 as int, self.from.1.3 as int),
            on_board(source@, self.to.1.2 as int, self.to.1.3 as int),
            source.en_passant matches Some((ex, ey)) ==> on_board(source@, ex as int, ey as int),
            old(new_partial_game).accepts_boards(),
            state_fits(gen_state(*old(new_partial_game))),
        ensures
            (gen_state(*final(new_partial_game)), res is Some) == match source.en_passant {
                Some((ex, ey)) => add_and_lengthen(gen_state(*old(new_partial_game)), en_passant_board(source@, *self, ex, ey), self.from.1.0 as int),
                None => (gen_state(*old(new_partial_game)), false),
            },
            final(new_partial_game).accepts_boards(),
            res is Some && old(new_partial_game).layer_wf() ==> final(new_partial_game).layer_wf(),
            final(new_partial_game).parent == old(new_partial_game).parent,
            final(new_partial_game).info.present == old(new_partial_game).info.present,
            final(new_partial_game).info.active_player == old(new_partial_game).info.active_player,
            final(new_partial_game).info.even_timelines == old(new_partial_game).info.even_timelines,
    {
        let from = self.from.1;
        let to = self.to.1;
        let mut new_board = source.clone();
        let (ex, ey) = match new_board.en_passant {
            Some(e) => e,
            None => {
                return None;
            },
        };
        new_board.en_passant = None;
        new_board.t = new_board.t + 1;
        proof {
            lemma_index_bound(source.width as int, source.height as int, from.2 as int, from.3 as int);
            lemma_index_bound(source.width as int, source.height as int, to.2 as int, to.3 as int);
            lemma_index_bound(source.width as int, source.height as int, ex as int, ey as int);
        }
        let w = new_board.width as usize;
        let from_index = from.2 as usize + w * (from.3 as usize);
        let to_index = to.2 as usize + w * (to.3 as usize);
        let capture_index = ex as usize + w * (ey as usize);
        let moved = set_moved(new_board.pieces[from_index], true);
        new_board.pieces.set(to_index, moved);
        new_board.pieces.set(from_index, Tile::Blank);
        new_board.pieces.set(capture_index, Tile::Blank);
        proof {
            assert(new_board@ == en_passant_board(source@, *self, ex, ey));
        }
        add_and_lengthen_exec(new_partial_game, new_board, from.0)
    }
}

impl Move {
    /// Generates the board that castling leads to from `source`.
    fn generate_castle(&self, source: &Board, new_partial_game: &mut PartialGame) -> (res: Option<()>)
        requires
            source.wf(),
            source.l == self.from.1.0,
            coords_in_bounds(source.l as int, source.t as int),
            source.t < COORD_BOUND,
            on_board(source@, self.from.1.2 as int, self.from.1.3 as int),
            on_board(source@, self.to.1.2 as int, self.to.1.3 as int),
            self.from.1.2 <= self.to.1.2 ==> square(self.from.1.2 as int, self.from.1.3 as int, source@.width) + 1 < source.pieces.len(),
            old(new_partial_game).accepts_boards(),
            state_fits(gen_state(*old(new_partial_game))),
        ensures
            (gen_state(*final(new_partial_game)), res is Some) == match castle_rook(source@, *self) {
                Some(rx) => add_and_lengthen(gen_state(*old(new_partial_game)), castle_board(source@, *self, rx), self.from.1.0 as int),
                None => (gen_state(*old(new_partial_game)), false),
            },
            final(new_partial_game).accepts_boards(),
            res is Some && old(new_partial_game).layer_wf() ==> final(new_partial_game).layer_wf(),
            final(new_partial_game).parent == old(new_partial_game).parent,
            final(new_partial_game).info.present == old(new_partial_game).info.present,
            final(new_partial_game).info.active_player == old(new_partial_game).info.active_player,
            final(new_partial_game).info.even_timelines == old(new_partial_game).info.even_timelines,
    {
        let from = self.from.1;
        let to = self.to.1;
        let white = from.1 % 2 == 0;
        let ghost b = source@;
        let ghost goal = castle_rook(b, *self);
        let mut new_board = source.clone();
        new_board.en_passant = None;
        new_board.t = new_board.t + 1;
        let direction = from.2 > to.2;
        let y = from.3;
        let mut x: Physical = from.2;
        let mut rook: Option<Physical> = None;
        if direction {
            loop
                invariant_except_break
                    0 <= x <= from.2,
                    goal == rook_left(b, x - 1, y as int, white),
                invariant
                    new_board.wf(),
                    new_board.pieces@ == b.pieces,
                    new_board.width == b.width,
                    new_board.height == b.height,
                    goal == rook_left(b, from.2 - 1, y as int, white),
                ensures
                    match rook {
                        Some(rx) => goal == Some(rx as int) && on_board(b, rx as int, y as int),
                        None => goal is None,
                    },
                decreases x,
            {
                x = x - 1;
                match new_board.get((x, y)) {
                    Tile::Piece(p) => {
                        if p.white == white && p.can_castle_to() && !p.moved {
                            rook = Some(x);
                        } else {
                            rook = None;
                        }
                        break;
                    },
                    _ => {},
                }
                if x <= 0 {
                    rook = None;
                    break;
                }
            }
        } else {
            loop
                invariant_except_break
                    from.2 <= x < new_board.width,
                    goal == rook_right(b, x + 1, y as int, white),
                invariant
                    new_board.wf(),
                    new_board.pieces@ == b.pieces,
                    new_board.width == b.width,
                    new_board.height == b.height,
                    goal == rook_right(b, from.2 + 1, y as int, white),
                ensures
                    match rook {
                        Some(rx) => goal == Some(rx as int) && on_board(b, rx as int, y as int),
                        None => goal is None,
                    },
                decreases new_board.width - x,
            {
                x = x + 1;
                match new_board.get((x, y)) {
                    Tile::Piece(p) => {
                        if p.white == white && p.can_castle_to() && !p.moved {
                            rook = Some(x);
                        } else {
                            rook = None;
                        }
                        break;
                    },
                    _ => {},
                }
                if x >= new_board.width - 1 {
                    rook = None;
                    break;
                }
            }
        }
        let rx = match rook {
            Some(rx) => rx,
            None => {
                return None;
            },
        };
        proof {
            lemma_index_bound(source.width as int, source.height as int, from.2 as int, from.3 as int);
            lemma_index_bound(source.width as int, source.height as int, to.2 as int, to.3 as int);
            lemma_index_bound(source.width as int, source.height as int, rx as int, y as int);
        }
        let w = new_board.width as usize;
        let from_index = from.2 as usize + w * (from.3 as usize);
        let to_index = to.2 as usize + w * (to.3 as usize);
        let rook_index = rx as usize + w * (y as usize);
        let moved_king = set_moved(new_board.pieces[from_index], true);
        new_board.pieces.set(to_index, moved_king);
        new_board.pieces.set(from_index, Tile::Blank);
        let moved_rook = set_moved(new_board.pieces[rook_index], true);
        if direction {
            new_board.pieces.set(from_index - 1, moved_rook);
        } else {
            new_board.pieces.set(from_index + 1, moved_rook);
        }
        new_board.pieces.set(rook_index, Tile::Blank);
        proof {
            assert(new_board@ == castle_board(b, *self, rx as int));
        }
        add_and_lengthen_exec(new_partial_game, new_board, from.0)
    }

    /// Generates the boards that a non-physical normal move or promotion leads to, from
    /// `source` to `target`.
    fn generate_jump(&self, source: &Board, target: &Board, new_partial_game: &mut PartialGame, kind: PartialGameGenKind) -> (res: Option<()>)
        requires
            source.wf(),
            target.wf(),
            source.l == self.from.1.0,
            target.l == self.to.1.0,
            coords_in_bounds(source.l as int, source.t as int),
            coords_in_bounds(target.l as int, target.t as int),
            coords_in_bounds(self.to.1.0 as int, self.to.1.1 as int),
            source.t < COORD_BOUND,
            target.t < COORD_BOUND,
            on_board(source@, self.from.1.2 as int, self.from.1.3 as int),
            0 <= self.to.1.2 && 0 <= self.to.1.3,
            square(self.to.1.2 as int, self.to.1.3 as int, source@.width) < target.pieces.len(),
            old(new_partial_game).accepts_boards(),
            state_fits(gen_state(*old(new_partial_game))),
        ensures
            (gen_state(*final(new_partial_game)), res is Some) == gen_jump(source@, target@, *self, kind, gen_state(*old(new_partial_game))),
            final(new_partial_game).accepts_boards(),
            res is Some && old(new_partial_game).layer_wf() ==> final(new_partial_game).layer_wf(),
            final(new_partial_game).parent == old(new_partial_game).parent,
            final(new_partial_game).info.present == old(new_partial_game).info.present,
            final(new_partial_game).info.active_player == old(new_partial_game).info.active_player,
            final(new_partial_game).info.even_timelines == old(new_partial_game).info.even_timelines,
    {
        let ghost old_npg = *new_partial_game;
        let ghost nw0 = old_npg.info.timelines_white.len() as int;
        let ghost nb0 = old_npg.info.timelines_black.len() as int;
        let from = self.from.1;
        let to = self.to.1;
        let white = from.1 % 2 == 0;
        let mut new_source = source.clone();
        let mut new_target = target.clone();
        if kind != PartialGameGenKind::Source {
            let last_board = match new_partial_game.info.get_timeline(to.0) {
                Some(tl) => tl.last_board,
                None => {
                    return None;
                },
            };
            if last_board > to.1 {
                let new_layer = if white {
                    new_partial_game.info.max_timeline() + 1
                } else {
                    new_partial_game.info.min_timeline() - 1
                };
                let new_timeline = TimelineInfo::new(new_layer, Some(to.non_physical()), to.1 + 1, to.1 + 1);
                if white {
                    new_partial_game.info.timelines_white.push(new_timeline);
                } else {
                    new_partial_game.info.timelines_black.push(new_timeline);
                }
                new_target.t = new_target.t + 1;
                new_target.l = new_layer;
            } else {
                match lengthen_timeline(new_partial_game, to.0) {
                    Some(_) => {},
                    None => {
                        return None;
                    },
                }
                new_target.t = new_target.t + 1;
            }
        }
        new_source.t = new_source.t + 1;
        proof {
            lemma_index_bound(source.width as int, source.height as int, from.2 as int, from.3 as int);
        }
        let w = new_source.width as usize;
        let from_index = from.2 as usize + w * (from.3 as usize);
        let to_index = to.2 as usize + w * (to.3 as usize);
        let tile = if self.kind == MoveKind::Promotion {
            Tile::Piece(Piece::new(PieceKind::Queen, white, false))
        } else {
            set_moved(new_source.pieces[from_index], true)
        };
        new_target.pieces.set(to_index, tile);
        new_source.pieces.set(from_index, Tile::Blank);
        if kind != PartialGameGenKind::Target {
            new_source.en_passant = None;
            proof {
                lemma_views_insert(new_partial_game.deep_view(), (new_source.l as int, new_source.t as int), new_source);
            }
            let ghost before = *new_partial_game;
            assert(before.covers(nw0, nb0) == old_npg.covers(nw0, nb0));
            new_partial_game.insert(new_source);
            assert(old_npg.covers(nw0, nb0) ==> new_partial_game.covers(nw0, nb0));
            match lengthen_timeline(new_partial_game, from.0) {
                Some(_) => {},
                None => {
                    return None;
                },
            }
        }
        if kind != PartialGameGenKind::Source {
            new_target.en_passant = None;
            proof {
                lemma_views_insert(new_partial_game.deep_view(), (new_target.l as int, new_target.t as int), new_target);
            }
            let ghost before = *new_partial_game;
            assert(old_npg.covers(nw0, nb0) ==> before.covers(nw0, nb0));
            new_partial_game.insert(new_target);
            assert(old_npg.covers(nw0, nb0) ==> new_partial_game.covers(nw0, nb0));
        }
        Some(())
    }
}

/// The boards and timelines that the moves `moves`, made one after the other, lead to from
/// the state `st`; and whether they all succeed (the first failure stops the generation).
pub open spec fn gen_moves(boards: Map<(int, int), Board>, pg: PartialGame, moves: Seq<Move>, st: GenState) -> (GenState, bool)
    decreases moves.len(),
{
    if moves.len() == 0 {
        (st, true)
    } else {
        let (st1, ok) = gen_moves(boards, pg, moves.drop_last(), st);
        if ok { gen_move(boards, pg, moves.last(), PartialGameGenKind::Both, st1) } else { (st1, false) }
    }
}

/// The `last_board` of every timeline of `s` is at most `bound`.
pub open spec fn last_boards_at_most(s: Seq<TimelineInfo>, bound: int) -> bool {
    forall|i: int| 0 <= i < s.len() ==> (#[trigger] s[i]).last_board <= bound
}

/// Lengthening a timeline adds one board at most to each timeline, and no timeline.
proof fn lemma_lengthen_bounds(st: GenState, l: int, bound: int)
    requires
        last_boards_at_most(st.1, bound),
        last_boards_at_most(st.2, bound),
    ensures
        last_boards_at_most(lengthen(st, l).1, bound + 1),
        last_boards_at_most(lengthen(st, l).2, bound + 1),
        lengthen(st, l).1.len() == st.1.len(),
        lengthen(st, l).2.len() == st.2.len(),
{
    let r = lengthen(st, l);
    assert forall|i: int| 0 <= i < r.1.len() implies (#[trigger] r.1[i]).last_board <= bound + 1 by {
        assert(st.1[i].last_board <= bound);
    }
    assert forall|i: int| 0 <= i < r.2.len() implies (#[trigger] r.2[i]).last_board <= bound + 1 by {
        assert(st.2[i].last_board <= bound);
    }
}

/// A move adds at most one timeline, lengthens each timeline by two boards at most, and
/// the timeline it adds ends at most one board after the bounds.
proof fn lemma_gen_move_bounds(boards: Map<(int, int), Board>, pg: PartialGame, mv: Move, kind: PartialGameGenKind, st: GenState, bound: int)
    requires
        move_fits(boards, pg, mv),
        bound >= COORD_BOUND + 1,
        last_boards_at_most(st.1, bound),
        last_boards_at_most(st.2, bound),
    ensures
        ({
            let r = gen_move(boards, pg, mv, kind, st).0;
            &&& last_boards_at_most(r.1, bound + 2)
            &&& last_boards_at_most(r.2, bound + 2)
            &&& st.1.len() <= r.1.len()
            &&& st.2.len() <= r.2.len()
            &&& r.1.len() + r.2.len() <= st.1.len() + st.2.len() + 1
        }),
{
    let from = mv.from.1;
    let to = mv.to.1;
    lemma_lengthen_bounds(st, from.0 as int, bound);
    lemma_lengthen_bounds(st, to.0 as int, bound);
    lemma_lengthen_bounds(lengthen(st, to.0 as int), from.0 as int, bound + 1);
    let new_timeline = TimelineInfo {
        index: 0,
        starts_from: Some((to.0, to.1)),
        last_board: (to.1 + 1) as isize,
        first_board: (to.1 + 1) as isize,
    };
    let layer_w = st.1.len() as int;
    let layer_b = -(st.2.len() as int) - 1;
    let pushed_w = (st.0, st.1.push(TimelineInfo { index: layer_w as isize, ..new_timeline }), st.2);
    let pushed_b = (st.0, st.1, st.2.push(TimelineInfo { index: layer_b as isize, ..new_timeline }));
    assert(last_boards_at_most(pushed_w.1, bound)) by {
        assert forall|i: int| 0 <= i < pushed_w.1.len() implies (#[trigger] pushed_w.1[i]).last_board <= bound by {
            if i < st.1.len() {
                assert(pushed_w.1[i] == st.1[i]);
            }
        }
    }
    assert(last_boards_at_most(pushed_b.2, bound)) by {
        assert forall|i: int| 0 <= i < pushed_b.2.len() implies (#[trigger] pushed_b.2[i]).last_board <= bound by {
            if i < st.2.len() {
                assert(pushed_b.2[i] == st.2[i]);
            }
        }
    }
    lemma_lengthen_bounds(pushed_w, from.0 as int, bound);
    lemma_lengthen_bounds(pushed_b, from.0 as int, bound);
}

/// Once a move of a sequence fails, the generation of the whole sequence fails.
proof fn lemma_gen_moves_stays_failed(boards: Map<(int, int), Board>, pg: PartialGame, moves: Seq<Move>, st: GenState, i: int)
    requires
        0 <= i <= moves.len(),
        !gen_moves(boards, pg, moves.take(i), st).1,
    ensures
        !gen_moves(boards, pg, moves, st).1,
    decreases moves.len() - i,
{
    if i == moves.len() {
        assert(moves.take(i) =~= moves);
    } else {
        assert(moves.take(i + 1).drop_last() =~= moves.take(i));
        lemma_gen_moves_stays_failed(boards, pg, moves, st, i + 1);
    }
}

/// `tile` with its piece, if any, marked as `moved`.
pub open spec fn spec_set_moved(tile: Tile, moved: bool) -> Tile {
    match tile {
        Tile::Piece(p) => Tile::Piece(Piece { kind: p.kind, white: p.white, moved }),
        _ => tile,
    }
}

/// Marks the piece on `tile`, if any, as `moved`.
fn set_moved(tile: Tile, moved: bool) -> (res: Tile)
    ensures
        res == spec_set_moved(tile, moved),
{
    match tile {
        Tile::Piece(mut p) => {
            p.moved = moved;
            Tile::Piece(p)
        },
        x => x,
    }
}

/// The files of a board, as displayed in the game.
pub open spec fn files() -> Seq<char> {
    seq!['a', 'b', 'c', 'd', 'e', 'f', 'g', 'h', 'i', 'j', 'k', 'l', 'm', 'n', 'o', 'p', 'q', 'r', 's', 't', 'u', 'v', 'w']
}

/// The letter of the file `x`, as displayed in the game.
pub fn write_file(x: Physical) -> (res: char)
    requires
        0 <= x < 23,
    ensures
        res == files()[x as int],
{
    let letters: [char; 23] = ['a', 'b', 'c', 'd', 'e', 'f', 'g', 'h', 'i', 'j', 'k', 'l', 'm', 'n', 'o', 'p', 'q', 'r', 's', 't', 'u', 'v', 'w'];
    assert(letters@ == files());
    letters[x as usize]
}

impl Move {
    /// Creates a new move; its kind is deduced from the coordinates and the game state.
    /// Returns `None` if there is no piece at `from`, or if it does not belong to the
    /// player whose board it stands on.
    pub fn new(game: &Game, partial_game: &PartialGame, from: Coords, to: Coords) -> (res: Option<Self>)
        requires
            game.valid(),
            partial_game.wf(),
            from.0 > isize::MIN,
            to.0 > isize::MIN,
        ensures
            res == spec_move_new(game.boards@, *partial_game, game.height as int, from, to),
    {
        let board = match partial_game.get_board_with_game(game, from.non_physical()) {
            Some(b) => b,
            None => {
                return None;
            },
        };
        let piece = match partial_game.get_with_game(game, from).piece() {
            Some(p) => p,
            None => {
                return None;
            },
        };
        let target: Option<Piece> = partial_game.get_with_game(game, to).piece();
        if piece.white != board.white() {
            return None;
        }
        let fx = from.2 as i16;
        let fy = from.3 as i16;
        let tx = to.2 as i16;
        let ty = to.3 as i16;
        let h = game.height as i16;
        let kind = if piece.can_enpassant() && target.is_none() && fx != tx {
            MoveKind::EnPassant
        } else if piece.can_promote() && ((ty == 0 && fy != 0) || (ty == h - 1 && fy != h - 1)) {
            MoveKind::Promotion
        } else if piece.can_castle() && (fx == tx + 2 || fx + 2 == tx) {
            MoveKind::Castle
        } else {
            MoveKind::Normal
        };
        Some(Move { from: (piece, from), to: (target, to), kind })
    }

    /// Creates a move from its parts, with no check.
    pub fn from_raw(from: (Piece, Coords), to: (Option<Piece>, Coords), kind: MoveKind) -> (res: Self)
        ensures
            res == (Move { from, to, kind }),
    {
        Move { from, to, kind }
    }

    /// Whether the move captures a piece.
    pub fn captures(&self) -> (res: bool)
        ensures
            res == self.to.0 is Some,
    {
        self.to.0.is_some()
    }

    /// Whether the move's source and target lie on different boards.
    pub fn is_jump(&self) -> (res: bool)
        ensures
            res == spec_is_jump(*self),
    {
        self.from.1.0 != self.to.1.0 || self.from.1.1 != self.to.1.1
    }
}


/// Why a set of moves cannot be made.
#[derive(Debug, Clone, Copy, PartialEq, Eq, Hash)]
pub enum MovesetValidityErr {
    NoMoves,
    TooManyMoves,
    AlreadyPlayed(Move),
    MoveToVoid(Move),
    MoveFromVoid(Move),
    MoveNotFromLast(Move),
    OpponentBoard(Move),
}

/// The first reason why the moves `moves[i..]`, checked in order, cannot be made given the
/// timelines of `info`, the timelines in `moved` having already been played on; `None` if
/// there is none. A move must start and end on boards of the active player, start from the
/// last board of an existing timeline that has not been played on, and end on an existing
/// board. A move ending on the last board of a timeline plays on that timeline.
pub open spec fn first_invalid(moves: Seq<Move>, info: Info, i: int, moved: Map<isize, bool>) -> Option<MovesetValidityErr>
    decreases moves.len() - i,
{
    if i < 0 || i >= moves.len() {
        None
    } else {
        let mv = moves[i];
        let from = mv.from.1;
        let to = mv.to.1;
        let active = b2i(info.active_player);
        if (from.1 & 1) as int == active || (to.1 & 1) as int == active {
            Some(MovesetValidityErr::OpponentBoard(mv))
        } else {
            match info.spec_timeline(from.0 as int) {
                None => Some(MovesetValidityErr::MoveFromVoid(mv)),
                Some(tl) => if from.1 != tl.last_board {
                    Some(MovesetValidityErr::MoveNotFromLast(mv))
                } else if moved.contains_key(from.0) && moved[from.0] {
                    Some(MovesetValidityErr::AlreadyPlayed(mv))
                } else {
                    match info.spec_timeline(to.0 as int) {
                        None => Some(MovesetValidityErr::MoveToVoid(mv)),
                        Some(target) => if to.1 != target.last_board && (to.1 > target.last_board || to.1 < target.first_board) {
                            Some(MovesetValidityErr::MoveToVoid(mv))
                        } else {
                            let moved1 = if to.1 == target.last_board { moved.insert(to.0, true) } else { moved };
                            first_invalid(moves, info, i + 1, moved1.insert(from.0, true))
                        },
                    }
                },
            }
        }
    }
}

/// Why the moves `moves` cannot be made given the timelines of `info`; `None` if they can.
pub open spec fn moveset_error(moves: Seq<Move>, info: Info) -> Option<MovesetValidityErr> {
    if moves.len() == 0 {
        Some(MovesetValidityErr::NoMoves)
    } else if moves.len() > info.timelines_white.len() + info.timelines_black.len() {
        Some(MovesetValidityErr::TooManyMoves)
    } else {
        first_invalid(moves, info, 0, Map::empty())
    }
}

/// A set of moves that can be made (each lands on an existing board, starts from the last
/// board of an existing timeline, no two start on the same timeline, none starts or ends on
/// a board of the opponent, and there are neither too many nor no moves). Whether the pieces
/// may move so, and whether the moveset is legal, is not checked.
#[derive(Debug)]
pub struct Moveset {
    moves: Vec<Move>,
}

impl Clone for Moveset {
    fn clone(&self) -> (res: Self)
        ensures
            res.spec_moves() == self.spec_moves(),
    {
        let moves = self.moves.clone();
        assert(moves@ =~= self.moves@);
        Moveset { moves }
    }
}

impl Moveset {
    /// The moves of the moveset.
    pub closed spec fn spec_moves(&self) -> Seq<Move> {
        self.moves@
    }

    /// Creates a moveset from `moves`, checking them against the timelines of `info`.
    pub fn new(moves: Vec<Move>, info: &Info) -> (res: Result<Moveset, MovesetValidityErr>)
        requires
            info.within_limits(),
            forall|i: int| 0 <= i < moves.len() ==> (#[trigger] moves@[i]).from.1.0 > isize::MIN && moves@[i].to.1.0 > isize::MIN,
        ensures
            match res {
                Ok(ms) => moveset_error(moves@, *info) is None && ms.spec_moves() == moves@,
                Err(e) => moveset_error(moves@, *info) == Some(e),
            },
    {
        broadcast use vstd::std_specs::hash::group_hash_axioms;
        if moves.len() == 0 {
            return Err(MovesetValidityErr::NoMoves);
        } else if moves.len() > info.len_timelines() {
            return Err(MovesetValidityErr::TooManyMoves);
        }
        let mut timelines_moved: HashMap<Layer, bool> = HashMap::with_capacity(info.len_timelines());
        let active: isize = if info.active_player { 1 } else { 0 };
        let mut i: usize = 0;
        while i < moves.len()
            invariant
                0 <= i <= moves.len(),
                0 < moves.len() <= info.timelines_white.len() + info.timelines_black.len(),
                active == b2i(info.active_player),
                forall|j: int| 0 <= j < moves.len() ==> (#[trigger] moves@[j]).from.1.0 > isize::MIN && moves@[j].to.1.0 > isize::MIN,
                first_invalid(moves@, *info, 0, Map::empty()) == first_invalid(moves@, *info, i as int, timelines_moved@),
            decreases moves.len() - i,
        {
            let mv = moves[i];
            let from = mv.from.1;
            let to = mv.to.1;
            if from.1 & 1 == active || to.1 & 1 == active {
                return Err(MovesetValidityErr::OpponentBoard(mv));
            }
            match info.get_timeline(from.0) {
                Some(tl) => {
                    if from.1 != tl.last_board {
                        return Err(MovesetValidityErr::MoveNotFromLast(mv));
                    }
                },
                None => {
                    return Err(MovesetValidityErr::MoveFromVoid(mv));
                },
            }
            let already = match timelines_moved.get(&from.0) {
                Some(b) => *b,
                None => false,
            };
            if already {
                return Err(MovesetValidityErr::AlreadyPlayed(mv));
            }
            match info.get_timeline(to.0) {
                Some(tl) => {
                    if to.1 == tl.last_board {
                        timelines_moved.insert(to.0, true);
                    } else if to.1 > tl.last_board || to.1 < tl.first_board {
                        return Err(MovesetValidityErr::MoveToVoid(mv));
                    }
                    timelines_moved.insert(from.0, true);
                },
                None => {
                    return Err(MovesetValidityErr::MoveToVoid(mv));
                },
            }
            i = i + 1;
        }
        Ok(Moveset { moves })
    }

    /// Generates the partial game state that the moveset leads to from `partial_game`, the
    /// boards the moves start from being looked up in `game`, then in `partial_game`: a new
    /// layer on top of `partial_game` holding the new boards, with the timelines updated and
    /// the present recalculated. Returns `None` if a move cannot be generated, or if the
    /// moves do not pass the turn to the other player.
    pub fn generate_partial_game<'a>(&self, game: &'a Game, partial_game: &'a PartialGame<'a>) -> (res: Option<PartialGame<'a>>)
        requires
            game.valid(),
            partial_game.wf(),
            partial_game.info.timelines_white.len() >= 1,
            partial_game.info.even_timelines ==> partial_game.info.timelines_black.len() >= 1,
            partial_game.info.timelines_white.len() + self.spec_moves().len() < COORD_BOUND,
            partial_game.info.timelines_black.len() + self.spec_moves().len() < COORD_BOUND,
            last_boards_at_most(partial_game.info.timelines_white@, COORD_BOUND as int),
            last_boards_at_most(partial_game.info.timelines_black@, COORD_BOUND as int),
            forall|i: int| 0 <= i < self.spec_moves().len() ==> move_fits(game.boards@, *partial_game, #[trigger] self.spec_moves()[i]),
        ensures
            ({
                let (st, ok) = gen_moves(
                    game.boards@,
                    *partial_game,
                    self.spec_moves(),
                    (Map::empty(), partial_game.info.timelines_white@, partial_game.info.timelines_black@),
                );
                let present = present_of(st.1, st.2, partial_game.info.even_timelines);
                &&& res is Some <==> ok && (present % 2 == 0) != partial_game.info.active_player
                &&& res matches Some(r) ==> {
                    &&& gen_state(r) == st
                    &&& r.parent == Some(partial_game)
                    &&& r.info.present == present
                    &&& r.info.active_player == (present % 2 == 0)
                    &&& r.info.even_timelines == partial_game.info.even_timelines
                    &&& r.wf()
                }
            }),
    {
        let ghost moves = self.moves@;
        let ghost nw0 = partial_game.info.timelines_white.len() as int;
        let ghost nb0 = partial_game.info.timelines_black.len() as int;
        let mut new_partial_game = PartialGame::empty(partial_game.info.clone(), None);
        let ghost st0 = gen_state(new_partial_game);
        proof {
            assert(board_views(new_partial_game.deep_view()) =~= Map::empty());
            assert(moves.take(0) =~= Seq::<Move>::empty());
        }
        let mut i: usize = 0;
        while i < self.moves.len()
            invariant
                0 <= i <= moves.len(),
                moves == self.moves@,
                game.valid(),
                partial_game.wf(),
                forall|j: int| 0 <= j < moves.len() ==> move_fits(game.boards@, *partial_game, #[trigger] moves[j]),
                nw0 + moves.len() < COORD_BOUND,
                nb0 + moves.len() < COORD_BOUND,
                st0 == (Map::<(int, int), BoardView>::empty(), partial_game.info.timelines_white@, partial_game.info.timelines_black@),
                new_partial_game.accepts_boards(),
                new_partial_game.layer_wf(),
                new_partial_game.parent is None,
                new_partial_game.info.even_timelines == partial_game.info.even_timelines,
                gen_moves(game.boards@, *partial_game, moves.take(i as int), st0) == (gen_state(new_partial_game), true),
                nw0 <= new_partial_game.info.timelines_white.len(),
                nb0 <= new_partial_game.info.timelines_black.len(),
                new_partial_game.info.timelines_white.len() + new_partial_game.info.timelines_black.len() <= nw0 + nb0 + i,
                last_boards_at_most(new_partial_game.info.timelines_white@, COORD_BOUND + 1 + 2 * i),
                last_boards_at_most(new_partial_game.info.timelines_black@, COORD_BOUND + 1 + 2 * i),
            decreases moves.len() - i,
        {
            let ghost before = gen_state(new_partial_game);
            proof {
                lemma_gen_move_bounds(game.boards@, *partial_game, moves[i as int], PartialGameGenKind::Both, before, COORD_BOUND + 1 + 2 * i);
                assert(moves.take(i + 1).drop_last() =~= moves.take(i as int));
                assert forall|j: int| 0 <= j < before.1.len() implies (#[trigger] before.1[j]).last_board < isize::MAX - 1 by {
                    assert(before.1[j].last_board <= COORD_BOUND + 1 + 2 * i);
                }
                assert forall|j: int| 0 <= j < before.2.len() implies (#[trigger] before.2[j]).last_board < isize::MAX - 1 by {
                    assert(before.2[j].last_board <= COORD_BOUND + 1 + 2 * i);
                }
            }
            let mv = self.moves[i];
            match mv.generate_partial_game(game, partial_game, &mut new_partial_game, PartialGameGenKind::Both) {
                Some(_) => {},
                None => {
                    proof {
                        lemma_gen_moves_stays_failed(game.boards@, *partial_game, moves, st0, i + 1);
                    }
                    return None;
                },
            }
            i = i + 1;
        }
        proof {
            assert(moves.take(moves.len() as int) =~= moves);
        }
        new_partial_game.info.recalculate_present();
        new_partial_game.parent = Some(partial_game);
        if new_partial_game.info.active_player != partial_game.info.active_player {
            Some(new_partial_game)
        } else {
            None
        }
    }

    /// The moves of the moveset.
    pub fn moves(&self) -> (res: &Vec<Move>)
        ensures
            res@ == self.spec_moves(),
    {
        &self.moves
    }
}


/// `m` inserted into the moves `s` (sorted by the layer they start from) after every move
/// that starts from a layer no greater than that of `m`.
pub open spec fn insert_by_layer(s: Seq<Move>, m: Move) -> Seq<Move>
    decreases s.len(),
{
    if s.len() == 0 {
        seq![m]
    } else if s.last().from.1.0 > m.from.1.0 {
        insert_by_layer(s.drop_last(), m).push(s.last())
    } else {
        s.push(m)
    }
}

/// The moves `s` sorted by the layer they start from; moves starting from the same layer
/// keep their order.
pub open spec fn sorted_by_layer(s: Seq<Move>) -> Seq<Move>
    decreases s.len(),
{
    if s.len() == 0 {
        s
    } else {
        insert_by_layer(sorted_by_layer(s.drop_last()), s.last())
    }
}

/// Inserting `m` at index `j`, past which every move starts from a greater layer, and before
/// which the last move does not, is `insert_by_layer`.
proof fn lemma_insert_at(s: Seq<Move>, m: Move, j: int)
    requires
        0 <= j <= s.len(),
        j == 0 || s[j - 1].from.1.0 <= m.from.1.0,
        forall|k: int| j <= k < s.len() ==> (#[trigger] s[k]).from.1.0 > m.from.1.0,
    ensures
        insert_by_layer(s, m) == s.take(j).push(m) + s.skip(j),
    decreases s.len() - j,
{
    if s.len() == j {
        if j > 0 {
            assert(s.last() == s[j - 1]);
        }
        assert(s.take(j) =~= s);
        assert(s.take(j).push(m) + s.skip(j) =~= s.push(m));
    } else {
        let t = s.drop_last();
        assert(s.last().from.1.0 > m.from.1.0);
        assert forall|k: int| j <= k < t.len() implies (#[trigger] t[k]).from.1.0 > m.from.1.0 by {
            assert(t[k] == s[k]);
        }
        if j > 0 {
            assert(t[j - 1] == s[j - 1]);
        }
        lemma_insert_at(t, m, j);
        assert(t.take(j) =~= s.take(j));
        assert((t.take(j).push(m) + t.skip(j)).push(s.last()) =~= s.take(j).push(m) + s.skip(j));
    }
}

/// The moves of `v` sorted by the layer they start from, keeping the order of moves that
/// start from the same layer.
fn sort_by_layer(v: &Vec<Move>) -> (res: Vec<Move>)
    ensures
        res@ == sorted_by_layer(v@),
{
    let mut res: Vec<Move> = Vec::new();
    let mut i: usize = 0;
    while i < v.len()
        invariant
            0 <= i <= v.len(),
            res@ == sorted_by_layer(v@.take(i as int)),
        decreases v.len() - i,
    {
        let m = v[i];
        let mut j = res.len();
        while j > 0 && res[j - 1].from.1.0 > m.from.1.0
            invariant
                0 <= j <= res.len(),
                forall|k: int| j <= k < res.len() ==> (#[trigger] res@[k]).from.1.0 > m.from.1.0,
            decreases j,
        {
            j = j - 1;
        }
        proof {
            lemma_insert_at(res@, m, j as int);
            assert(v@.take(i + 1).drop_last() =~= v@.take(i as int));
        }
        res.insert(j, m);
        assert(res@ =~= sorted_by_layer(v@.take(i + 1)));
        i = i + 1;
    }
    assert(v@.take(v.len() as int) =~= v@);
    res
}

/// Whether two moves are the same.
fn same_move(a: &Move, b: &Move) -> (res: bool)
    ensures
        res == (*a == *b),
{
    let same_target = match (a.to.0, b.to.0) {
        (Some(p), Some(q)) => p == q,
        (None, None) => true,
        _ => false,
    };
    a.from.0 == b.from.0 && a.from.1 == b.from.1 && same_target && a.to.1 == b.to.1 && a.kind == b.kind
}

impl PartialEq for Moveset {
    /// Two movesets are equal if they have the same moves once sorted by the layer they
    /// start from.
    fn eq(&self, other: &Self) -> (res: bool) {
        let a = sort_by_layer(&self.moves);
        let b = sort_by_layer(&other.moves);
        if a.len() != b.len() {
            return false;
        }
        let mut i: usize = 0;
        while i < a.len()
            invariant
                0 <= i <= a.len(),
                a.len() == b.len(),
                a@ == sorted_by_layer(self.spec_moves()),
                b@ == sorted_by_layer(other.spec_moves()),
                forall|k: int| 0 <= k < i ==> a@[k] == b@[k],
            decreases a.len() - i,
        {
            if !same_move(&a[i], &b[i]) {
                assert(a@[i as int] != b@[i as int]);
                return false;
            }
            i = i + 1;
        }
        assert(a@ =~= b@);
        true
    }
}

impl PartialEqSpecImpl for Moveset {
    open spec fn obeys_eq_spec() -> bool {
        true
    }

    open spec fn eq_spec(&self, other: &Moveset) -> bool {
        sorted_by_layer(self.spec_moves()) == sorted_by_layer(other.spec_moves())
    }
}

impl Eq for Moveset {
}

} // verus!
