use vstd::prelude::*;
use crate::board::{board_views, lemma_views_insert, Board, BoardView};
use crate::coords::Coords;
use crate::game::{coords_in_bounds, lemma_somes_step, somes, spec_game_get, BoardArray, Game};
use crate::info::TimelineInfo;
use crate::info::Info;
use crate::tile::Tile;
use crate::{Layer, Time};

verus! {

/// The boards of one layer of a `PartialGame`: either at most one board per timeline (the
/// board at the end of that timeline, white timelines then black ones), or any boards.
#[derive(Debug)]
pub enum PartialGameStorage {
    Shallow(Vec<Option<Board>>, Vec<Option<Board>>),
    Deep(BoardArray),
}

/// The boards held in a `Shallow` storage: the board in the slot of timeline `l` stands at
/// `(l, last_board)`, where `last_board` is the end of that timeline in `info`.
pub open spec fn shallow_view(white: Seq<Option<Board>>, black: Seq<Option<Board>>, info: Info) -> Map<(int, int), Board> {
    Map::new(
        |lt: (int, int)| {
            &&& info.spec_timeline(lt.0) is Some
            &&& lt.1 == info.spec_timeline(lt.0)->0.last_board
            &&& if lt.0 >= 0 { lt.0 < white.len() && white[lt.0] is Some } else { -lt.0 - 1 < black.len() && black[-lt.0 - 1] is Some }
        },
        |lt: (int, int)| if lt.0 >= 0 { white[lt.0]->0 } else { black[-lt.0 - 1]->0 },
    )
}

/// A board stored in the `Shallow` slot of timeline `l`: it lies on that timeline, at a
/// time within the bounds of a `BoardArray`, and it is well formed.
pub open spec fn stored_ok(b: Board, l: int) -> bool {
    &&& b.l == l
    &&& coords_in_bounds(b.l as int, b.t as int)
    &&& b.wf()
}

/// The boards stored in the `Shallow` slots `white[i]` for `i >= kw` and `black[j]` for
/// `j >= kb`, by their own coordinates.
pub open spec fn stored_view(white: Seq<Option<Board>>, black: Seq<Option<Board>>, kw: int, kb: int) -> Map<(int, int), Board> {
    Map::new(
        |lt: (int, int)| if lt.0 >= 0 {
            kw <= lt.0 < white.len() && white[lt.0] is Some && white[lt.0]->0.t == lt.1
        } else {
            kb <= -lt.0 - 1 < black.len() && black[-lt.0 - 1] is Some && black[-lt.0 - 1]->0.t == lt.1
        },
        |lt: (int, int)| if lt.0 >= 0 { white[lt.0]->0 } else { black[-lt.0 - 1]->0 },
    )
}

/// A partial game state: the boards that a branch of a tree search adds on top of the game
/// (and of its parent's boards), with the timeline information of that branch.
#[derive(Debug)]
pub struct PartialGame<'a> {
    pub boards: PartialGameStorage,
    pub info: Info,
    pub parent: Option<&'a PartialGame<'a>>,
}

impl<'a> PartialGame<'a> {
    /// The boards held by this layer (ignoring the parents), by coordinates.
    pub open spec fn layer_view(&self) -> Map<(int, int), Board> {
        match self.boards {
            PartialGameStorage::Shallow(white, black) => shallow_view(white@, black@, self.info),
            PartialGameStorage::Deep(array) => array@,
        }
    }

    /// The storage of this layer is well formed: the timelines fit in a `Layer`, every board
    /// of a `Shallow` storage is well formed and lies in the slot of its timeline, and a `Deep`
    /// storage is a valid `BoardArray` of well formed boards.
    pub open spec fn layer_ok(&self) -> bool {
        &&& self.info.within_limits()
        &&& match self.boards {
            PartialGameStorage::Shallow(white, black) => {
                &&& forall|i: int| 0 <= i < white.len() && (#[trigger] white@[i]) is Some ==> stored_ok(white@[i]->0, i)
                &&& forall|i: int| 0 <= i < black.len() && (#[trigger] black@[i]) is Some ==> stored_ok(black@[i]->0, -i - 1)
            },
            PartialGameStorage::Deep(array) => {
                &&& array.valid()
                &&& forall|k: (int, int)| #[trigger] array@.dom().contains(k) ==> array@[k].wf()
            },
        }
    }

    /// A `Shallow` storage has at least `nw` white slots and `nb` black slots.
    pub open spec fn covers(&self, nw: int, nb: int) -> bool {
        match self.boards {
            PartialGameStorage::Shallow(white, black) => white.len() >= nw && black.len() >= nb,
            PartialGameStorage::Deep(_) => true,
        }
    }

    /// This layer is well formed: its storage is, and a `Shallow` storage has a slot for
    /// each timeline.
    pub open spec fn layer_wf(&self) -> bool {
        &&& self.layer_ok()
        &&& self.covers(self.info.timelines_white.len() as int, self.info.timelines_black.len() as int)
    }

    /// This layer is well formed, so that a board at any time within bounds can be inserted.
    pub open spec fn accepts_boards(&self) -> bool {
        self.layer_ok()
    }

    /// The boards of this layer by their own coordinates: what a `Deep` storage holds, and
    /// what `deepen` turns a `Shallow` storage into.
    pub open spec fn deep_view(&self) -> Map<(int, int), Board> {
        match self.boards {
            PartialGameStorage::Shallow(white, black) => stored_view(white@, black@, 0, 0),
            PartialGameStorage::Deep(array) => array@,
        }
    }

    /// This layer and all of its parents are well formed.
    pub open spec fn wf(&self) -> bool
        decreases self,
    {
        &&& self.layer_wf()
        &&& match self.parent {
            Some(p) => p.wf(),
            None => true,
        }
    }

    /// The board at `(l, t)` as found by `get_board`: in this layer if it holds one, otherwise
    /// in the parents; a `Shallow` layer without timeline `l` holds none and does not look further.
    pub open spec fn spec_get_board(&self, lt: (int, int)) -> Option<Board>
        decreases self,
    {
        if self.layer_view().dom().contains(lt) {
            Some(self.layer_view()[lt])
        } else if (self.boards is Shallow) && self.info.spec_timeline(lt.0) is None {
            None
        } else {
            match self.parent {
                Some(p) => p.spec_get_board(lt),
                None => None,
            }
        }
    }

    /// A board found in this layer or its parents is well formed, lies on the timeline it
    /// was looked up on, and its coordinates are within bounds.
    pub proof fn lemma_found_board(&self, lt: (int, int))
        requires
            self.wf(),
        ensures
            self.spec_get_board(lt) matches Some(b) ==> {
                &&& b.wf()
                &&& b.l == lt.0
                &&& coords_in_bounds(b.l as int, b.t as int)
            },
        decreases self,
    {
        match self.boards {
            PartialGameStorage::Deep(array) => {
                array.lemma_keys();
            },
            PartialGameStorage::Shallow(_, _) => {},
        }
        if !self.layer_view().dom().contains(lt) {
            match self.parent {
                Some(p) => p.lemma_found_board(lt),
                None => {},
            }
        }
    }

    /// Creates a new `PartialGame`.
    pub fn new(boards: PartialGameStorage, info: Info, parent: Option<&'a PartialGame<'a>>) -> (res: Self)
        ensures
            res.boards == boards,
            res.info == info,
            res.parent == parent,
    {
        PartialGame { boards, info, parent }
    }

    /// Creates a `PartialGame` with an empty `Shallow` storage: one empty slot per timeline.
    pub fn empty(info: Info, parent: Option<&'a PartialGame<'a>>) -> (res: Self)
        requires
            info.within_limits(),
        ensures
            res.info == info,
            res.parent == parent,
            res.layer_wf(),
            res.layer_view() == Map::<(int, int), Board>::empty(),
            res.deep_view() == Map::<(int, int), Board>::empty(),
            res.boards matches PartialGameStorage::Shallow(w, b) && w.len() == info.timelines_white.len() && b.len() == info.timelines_black.len(),
    {
        let nw = info.timelines_white.len();
        let nb = info.timelines_black.len();
        let white = none_vec(nw);
        let black = none_vec(nb);
        let res = PartialGame { boards: PartialGameStorage::Shallow(white, black), info, parent };
        assert(res.layer_view() =~= Map::<(int, int), Board>::empty());
        assert(res.deep_view() =~= Map::<(int, int), Board>::empty());
        res
    }

    /// Replaces the storage of this layer.
    pub fn set_boards(&mut self, boards: PartialGameStorage)
        ensures
            final(self).boards == boards,
            final(self).info == old(self).info,
            final(self).parent == old(self).parent,
    {
        self.boards = boards;
    }

    /// Whether `(l, t)` is the last board of its timeline; `None` if there is no such timeline.
    pub fn is_last_board(&self, lt: (Layer, Time)) -> (res: Option<bool>)
        requires
            lt.0 > isize::MIN,
        ensures
            res == match self.info.spec_timeline(lt.0 as int) {
                Some(tl) => Some(tl.last_board == lt.1),
                None => None,
            },
    {
        match self.info.get_timeline(lt.0) {
            Some(tl) => Some(tl.last_board == lt.1),
            None => None,
        }
    }
}

/// A vector of `n` empty slots.
fn none_vec(n: usize) -> (res: Vec<Option<Board>>)
    ensures
        res.len() == n,
        forall|i: int| 0 <= i < n ==> (#[trigger] res@[i]) is None,
{
    let mut v: Vec<Option<Board>> = Vec::new();
    while v.len() < n
        invariant
            v.len() <= n,
            forall|i: int| 0 <= i < v.len() ==> (#[trigger] v@[i]) is None,
        decreases n - v.len(),
    {
        v.push(None);
    }
    v
}

impl<'a> PartialGame<'a> {
    /// The board at `(l, t)`, looked up in this layer and then in its parents.
    pub fn get_board<'b>(&'b self, lt: (Layer, Time)) -> (res: Option<&'b Board>)
        requires
            self.wf(),
            lt.0 > isize::MIN,
        ensures
            match res {
                Some(b) => self.spec_get_board((lt.0 as int, lt.1 as int)) == Some(*b),
                None => self.spec_get_board((lt.0 as int, lt.1 as int)) is None,
            },
            res matches Some(b) ==> b.wf(),
        decreases self,
    {
        let (l, t) = lt;
        let ghost key = (l as int, t as int);
        match &self.boards {
            PartialGameStorage::Shallow(boards_white, boards_black) => {
                if let Some(tl) = self.info.get_timeline(l) {
                    if t == tl.last_board {
                        if l >= 0 {
                            match &boards_white[l as usize] {
                                Some(board) => {
                                    return Some(board);
                                },
                                None => {},
                            }
                        } else {
                            match &boards_black[(0 - l) as usize - 1] {
                                Some(board) => {
                                    return Some(board);
                                },
                                None => {},
                            }
                        }
                    }
                    assert(!self.layer_view().dom().contains(key));
                    match self.parent {
                        Some(parent) => parent.get_board(lt),
                        None => None,
                    }
                } else {
                    assert(!self.layer_view().dom().contains(key));
                    None
                }
            },
            PartialGameStorage::Deep(boards) => {
                match boards.get_board(lt) {
                    Some(b) => Some(b),
                    None => match self.parent {
                        Some(parent) => parent.get_board(lt),
                        None => None,
                    },
                }
            },
        }
    }

    /// The board at `(l, t)`, looked up in the game first, then in this partial game state.
    pub fn get_board_with_game<'b>(&'b self, game: &'b Game, lt: (Layer, Time)) -> (res: Option<&'b Board>)
        requires
            self.wf(),
            game.valid(),
            lt.0 > isize::MIN,
        ensures
            match res {
                Some(b) => spec_get_board_with_game(game.boards@, *self, (lt.0 as int, lt.1 as int)) == Some(*b),
                None => spec_get_board_with_game(game.boards@, *self, (lt.0 as int, lt.1 as int)) is None,
            },
            res matches Some(b) ==> b.wf(),
    {
        match game.get_board(lt) {
            Some(b) => Some(b),
            None => self.get_board(lt),
        }
    }

    /// The tile at `c`, looked up in the game first, then in this partial game state;
    /// `Tile::Void` if there is no such board.
    pub fn get_with_game(&self, game: &Game, c: Coords) -> (res: Tile)
        requires
            self.wf(),
            game.valid(),
            c.0 > isize::MIN,
        ensures
            res == match spec_get_board_with_game(game.boards@, *self, (c.0 as int, c.1 as int)) {
                Some(b) => b.spec_get(c.2 as int, c.3 as int),
                None => Tile::Void,
            },
    {
        match self.get_board_with_game(game, c.non_physical()) {
            Some(board) => board.get(c.physical()),
            None => Tile::Void,
        }
    }
}

/// The references `v`, followed by references to the boards held in the slots `s`.
fn push_somes<'a>(v: &mut Vec<&'a Board>, s: &'a Vec<Option<Board>>)
    ensures
        final(v)@.map_values(|b: &Board| *b) == old(v)@.map_values(|b: &Board| *b) + somes(s@),
{
    let ghost v0 = v@.map_values(|b: &Board| *b);
    let mut i: usize = 0;
    while i < s.len()
        invariant
            0 <= i <= s.len(),
            v@.map_values(|b: &Board| *b) == v0 + somes(s@.take(i as int)),
        decreases s.len() - i,
    {
        proof {
            lemma_somes_step(s@, i as int);
        }
        match &s[i] {
            Some(board) => {
                let ghost before = v@;
                v.push(board);
                assert(v@.map_values(|b: &Board| *b) =~= before.map_values(|b: &Board| *b).push(*board));
                assert(v0 + somes(s@.take(i + 1)) =~= (v0 + somes(s@.take(i as int))).push(*board));
            },
            None => {},
        }
        i = i + 1;
    }
    assert(s@.take(s.len() as int) =~= s@);
}

impl PartialGameStorage {
    /// The boards held, in order: the white slots then the black ones for a `Shallow`
    /// storage, the slots of the buffer for a `Deep` one.
    pub open spec fn spec_boards(&self) -> Seq<Board> {
        match self {
            PartialGameStorage::Shallow(white, black) => somes(white@) + somes(black@),
            PartialGameStorage::Deep(array) => somes(array.slots()),
        }
    }

    /// The boards held, in the order of `spec_boards`.
    pub fn iter(&self) -> (res: Vec<&Board>)
        ensures
            res@.map_values(|b: &Board| *b) == self.spec_boards(),
    {
        let mut res: Vec<&Board> = Vec::new();
        assert(res@.map_values(|b: &Board| *b) =~= Seq::<Board>::empty());
        match self {
            PartialGameStorage::Shallow(boards_white, boards_black) => {
                push_somes(&mut res, boards_white);
                push_somes(&mut res, boards_black);
                assert(Seq::<Board>::empty() + somes(boards_white@) + somes(boards_black@) =~= somes(boards_white@) + somes(boards_black@));
            },
            PartialGameStorage::Deep(boards) => {
                push_somes(&mut res, boards.iter());
                assert(Seq::<Board>::empty() + somes(boards.slots()) =~= somes(boards.slots()));
            },
        }
        res
    }
}

impl<'a> PartialGame<'a> {
    /// The boards of this layer and of its parents, layer by layer from this one.
    pub open spec fn spec_all_boards(&self) -> Seq<Board>
        decreases self,
    {
        self.boards.spec_boards() + match self.parent {
            Some(p) => p.spec_all_boards(),
            None => Seq::empty(),
        }
    }

    /// The boards of this layer, ignoring its parents.
    pub fn iter_shallow(&'a self) -> (res: Vec<&'a Board>)
        ensures
            res@.map_values(|b: &Board| *b) == self.boards.spec_boards(),
    {
        self.boards.iter()
    }

    /// The boards of this layer and of its parents, layer by layer from this one.
    pub fn iter(&'a self) -> (res: Vec<&'a Board>)
        ensures
            res@.map_values(|b: &Board| *b) == self.spec_all_boards(),
        decreases self,
    {
        let mut res = self.boards.iter();
        match self.parent {
            Some(parent) => {
                let mut rest = parent.iter();
                let ghost r0 = res@;
                let ghost r1 = rest@;
                res.append(&mut rest);
                assert(res@.map_values(|b: &Board| *b) =~= r0.map_values(|b: &Board| *b) + r1.map_values(|b: &Board| *b));
            },
            None => {
                assert(self.spec_all_boards() =~= self.boards.spec_boards());
            },
        }
        res
    }
}

/// The last boards of the timelines `tls`, looked up in the game's `boards` then in `pg`,
/// that belong to the active player of `pg` (`own`), or to the other player (`!own`).
pub open spec fn last_boards(boards: Map<(int, int), Board>, pg: PartialGame, tls: Seq<TimelineInfo>, own: bool) -> Seq<Board>
    decreases tls.len(),
{
    if tls.len() == 0 {
        Seq::empty()
    } else {
        let r = last_boards(boards, pg, tls.drop_last(), own);
        let tl = tls.last();
        match spec_get_board_with_game(boards, pg, (tl.index as int, tl.last_board as int)) {
            Some(b) => if ((b.t % 2 == 0) == pg.info.active_player) == own { r.push(b) } else { r },
            None => r,
        }
    }
}

/// The timelines of `tls` lie within the bounds of a `BoardArray`.
pub open spec fn timelines_in_bounds(tls: Seq<TimelineInfo>) -> bool {
    forall|i: int| 0 <= i < tls.len() ==> coords_in_bounds((#[trigger] tls[i]).index as int, tls[i].last_board as int)
}

impl<'a> PartialGame<'a> {
    /// Appends to `v` the last boards of the timelines `tls` that belong to the active
    /// player (`own`), or to the other one.
    fn push_last_boards<'b>(&'b self, game: &'b Game, tls: &Vec<TimelineInfo>, own: bool, v: &mut Vec<&'b Board>)
        requires
            self.wf(),
            game.valid(),
            timelines_in_bounds(tls@),
        ensures
            final(v)@.map_values(|b: &Board| *b) == old(v)@.map_values(|b: &Board| *b) + last_boards(game.boards@, *self, tls@, own),
    {
        let ghost v0 = v@.map_values(|b: &Board| *b);
        let mut i: usize = 0;
        while i < tls.len()
            invariant
                0 <= i <= tls.len(),
                self.wf(),
                game.valid(),
                timelines_in_bounds(tls@),
                v@.map_values(|b: &Board| *b) == v0 + last_boards(game.boards@, *self, tls@.take(i as int), own),
            decreases tls.len() - i,
        {
            proof {
                assert(tls@.take(i + 1).drop_last() =~= tls@.take(i as int));
            }
            let tl = &tls[i];
            match self.get_board_with_game(game, (tl.index, tl.last_board)) {
                Some(b) => {
                    if (b.white() == self.info.active_player) == own {
                        let ghost before = v@;
                        v.push(b);
                        assert(v@.map_values(|x: &Board| *x) =~= before.map_values(|x: &Board| *x).push(*b));
                        assert(v0 + last_boards(game.boards@, *self, tls@.take(i + 1), own)
                            =~= (v0 + last_boards(game.boards@, *self, tls@.take(i as int), own)).push(*b));
                    }
                },
                None => {},
            }
            i = i + 1;
        }
        assert(tls@.take(tls.len() as int) =~= tls@);
    }

    /// The last boards of the timelines (white ones, then black ones), looked up in the game
    /// then in this partial game state, that belong to the active player.
    pub fn own_boards<'b>(&'b self, game: &'b Game) -> (res: Vec<&'b Board>)
        requires
            self.wf(),
            game.valid(),
            timelines_in_bounds(self.info.timelines_white@),
            timelines_in_bounds(self.info.timelines_black@),
        ensures
            res@.map_values(|b: &Board| *b) == last_boards(game.boards@, *self, self.info.timelines_white@, true)
                + last_boards(game.boards@, *self, self.info.timelines_black@, true),
    {
        let mut res: Vec<&'b Board> = Vec::new();
        assert(res@.map_values(|b: &Board| *b) =~= Seq::<Board>::empty());
        self.push_last_boards(game, &self.info.timelines_white, true, &mut res);
        self.push_last_boards(game, &self.info.timelines_black, true, &mut res);
        assert(Seq::<Board>::empty() + last_boards(game.boards@, *self, self.info.timelines_white@, true)
            =~= last_boards(game.boards@, *self, self.info.timelines_white@, true));
        res
    }

    /// The last boards of the timelines (white ones, then black ones), looked up in the game
    /// then in this partial game state, that belong to the player who is not active.
    pub fn opponent_boards<'b>(&'b self, game: &'b Game) -> (res: Vec<&'b Board>)
        requires
            self.wf(),
            game.valid(),
            timelines_in_bounds(self.info.timelines_white@),
            timelines_in_bounds(self.info.timelines_black@),
        ensures
            res@.map_values(|b: &Board| *b) == last_boards(game.boards@, *self, self.info.timelines_white@, false)
                + last_boards(game.boards@, *self, self.info.timelines_black@, false),
    {
        let mut res: Vec<&'b Board> = Vec::new();
        assert(res@.map_values(|b: &Board| *b) =~= Seq::<Board>::empty());
        self.push_last_boards(game, &self.info.timelines_white, false, &mut res);
        self.push_last_boards(game, &self.info.timelines_black, false, &mut res);
        assert(Seq::<Board>::empty() + last_boards(game.boards@, *self, self.info.timelines_white@, false)
            =~= last_boards(game.boards@, *self, self.info.timelines_white@, false));
        res
    }
}

/// An empty partial game state for `game`: its timelines and no board.
pub fn no_partial_game(game: &Game) -> (res: PartialGame<'static>)
    requires
        game.info.within_limits(),
    ensures
        res.info.timelines_white@ == game.info.timelines_white@,
        res.info.timelines_black@ == game.info.timelines_black@,
        res.info.present == game.info.present,
        res.info.active_player == game.info.active_player,
        res.info.even_timelines == game.info.even_timelines,
        res.parent is None,
        res.layer_wf(),
        res.deep_view() == Map::<(int, int), Board>::empty(),
        res.layer_view() == Map::<(int, int), Board>::empty(),
{
    PartialGame::empty(game.info.clone(), None)
}

/// `m` with the boards `s` inserted one after the other, each at its own coordinates.
pub open spec fn insert_all(m: Map<(int, int), BoardView>, s: Seq<Board>) -> Map<(int, int), BoardView>
    decreases s.len(),
{
    if s.len() == 0 {
        m
    } else {
        insert_all(m, s.drop_last()).insert((s.last().l as int, s.last().t as int), s.last()@)
    }
}

/// Every board held in the slots `s` comes from one of them.
proof fn lemma_somes_from(s: Seq<Option<Board>>)
    ensures
        forall|i: int| 0 <= i < somes(s).len() ==> exists|j: int| 0 <= j < s.len() && s[j] == Some(#[trigger] somes(s)[i]),
    decreases s.len(),
{
    if s.len() > 0 {
        lemma_somes_from(s.drop_last());
        let r = somes(s.drop_last());
        assert forall|i: int| 0 <= i < somes(s).len() implies exists|j: int| 0 <= j < s.len() && s[j] == Some(#[trigger] somes(s)[i]) by {
            if i < r.len() {
                assert(somes(s)[i] == r[i]);
                let j = choose|j: int| 0 <= j < s.drop_last().len() && s.drop_last()[j] == Some(r[i]);
                assert(s[j] == s.drop_last()[j]);
            } else {
                assert(s[s.len() - 1] == Some(somes(s)[i]));
            }
        }
    }
}

impl<'a> PartialGame<'a> {
    /// Every board of this layer and of its parents is well formed and its coordinates are
    /// within bounds.
    pub proof fn lemma_all_boards_ok(&self)
        requires
            self.wf(),
        ensures
            forall|i: int| 0 <= i < self.spec_all_boards().len() ==> {
                &&& (#[trigger] self.spec_all_boards()[i]).wf()
                &&& coords_in_bounds(self.spec_all_boards()[i].l as int, self.spec_all_boards()[i].t as int)
            },
        decreases self,
    {
        let own = self.boards.spec_boards();
        let rest = match self.parent {
            Some(p) => p.spec_all_boards(),
            None => Seq::empty(),
        };
        match self.parent {
            Some(p) => p.lemma_all_boards_ok(),
            None => {},
        }
        match self.boards {
            PartialGameStorage::Shallow(white, black) => {
                lemma_somes_from(white@);
                lemma_somes_from(black@);
                assert forall|i: int| 0 <= i < own.len() implies (#[trigger] own[i]).wf() && coords_in_bounds(own[i].l as int, own[i].t as int) by {
                    if i < somes(white@).len() {
                        assert(own[i] == somes(white@)[i]);
                        let j = choose|j: int| 0 <= j < white@.len() && white@[j] == Some(somes(white@)[i]);
                        assert(stored_ok(white@[j]->0, j));
                    } else {
                        let k = i - somes(white@).len();
                        assert(own[i] == somes(black@)[k]);
                        let j = choose|j: int| 0 <= j < black@.len() && black@[j] == Some(somes(black@)[k]);
                        assert(stored_ok(black@[j]->0, -j - 1));
                    }
                }
            },
            PartialGameStorage::Deep(array) => {
                lemma_somes_from(array.slots());
                array.lemma_slots();
                array.lemma_keys();
                assert forall|i: int| 0 <= i < own.len() implies (#[trigger] own[i]).wf() && coords_in_bounds(own[i].l as int, own[i].t as int) by {
                    let j = choose|j: int| 0 <= j < array.slots().len() && array.slots()[j] == Some(own[i]);
                    assert(array@.dom().contains((own[i].l as int, own[i].t as int)));
                }
            },
        }
        assert forall|i: int| 0 <= i < self.spec_all_boards().len() implies {
            &&& (#[trigger] self.spec_all_boards()[i]).wf()
            &&& coords_in_bounds(self.spec_all_boards()[i].l as int, self.spec_all_boards()[i].t as int)
        } by {
            if i < own.len() {
                assert(self.spec_all_boards()[i] == own[i]);
            } else {
                assert(self.spec_all_boards()[i] == rest[i - own.len()]);
            }
        }
    }

    /// Merges the parents into this layer: the result holds the boards of this layer, with
    /// (clones of) the boards of the parents inserted one after the other in the order of
    /// `iter`, and has no parent. Boards of the parents overwrite boards with the same
    /// coordinates that came before them.
    pub fn flatten(self) -> (res: PartialGame<'static>)
        requires
            self.wf(),
        ensures
            res.parent is None,
            res.info == self.info,
            res.wf(),
            self.parent is None ==> res.boards == self.boards,
            board_views(res.deep_view()) == match self.parent {
                Some(p) => insert_all(board_views(self.deep_view()), p.spec_all_boards()),
                None => board_views(self.deep_view()),
            },
    {
        let mut this = self;
        match this.parent {
            Some(parent) => {
                let ghost deep0 = this.deep_view();
                this.deepen();
                let mut boards = match this.boards {
                    PartialGameStorage::Deep(b) => b,
                    PartialGameStorage::Shallow(_, _) => {
                        proof {
                            assert(false);
                        }
                        BoardArray::empty()
                    },
                };
                let all = parent.iter();
                let ghost all_seq = parent.spec_all_boards();
                proof {
                    parent.lemma_all_boards_ok();
                    assert(all_seq.take(0) =~= Seq::<Board>::empty());
                }
                let mut i: usize = 0;
                while i < all.len()
                    invariant
                        0 <= i <= all.len(),
                        all@.map_values(|b: &Board| *b) == all_seq,
                        forall|j: int| 0 <= j < all_seq.len() ==> {
                            &&& (#[trigger] all_seq[j]).wf()
                            &&& coords_in_bounds(all_seq[j].l as int, all_seq[j].t as int)
                        },
                        boards.valid(),
                        forall|k: (int, int)| #[trigger] boards@.dom().contains(k) ==> boards@[k].wf(),
                        board_views(boards@) == insert_all(board_views(deep0), all_seq.take(i as int)),
                    decreases all.len() - i,
                {
                    assert(*all@[i as int] == all_seq[i as int]);
                    let board = all[i].clone();
                    proof {
                        lemma_views_insert(boards@, (board.l as int, board.t as int), board);
                        assert(all_seq.take(i + 1).drop_last() =~= all_seq.take(i as int));
                    }
                    boards.insert_board(board);
                    i = i + 1;
                }
                proof {
                    assert(all_seq.take(all_seq.len() as int) =~= all_seq);
                }
                PartialGame { boards: PartialGameStorage::Deep(boards), info: this.info, parent: None }
            },
            None => PartialGame { boards: this.boards, info: this.info, parent: None },
        }
    }
}

/// A board found in the game or in the partial game state is well formed, lies on the
/// timeline it was looked up on, and its coordinates are within bounds.
pub proof fn lemma_found_with_game(game: Game, pg: PartialGame, lt: (int, int))
    requires
        game.valid(),
        pg.wf(),
    ensures
        spec_get_board_with_game(game.boards@, pg, lt) matches Some(b) ==> {
            &&& b.wf()
            &&& b.l == lt.0
            &&& coords_in_bounds(b.l as int, b.t as int)
        },
{
    game.boards.lemma_keys();
    pg.lemma_found_board(lt);
}

/// The tile at `c` among the game's boards, or else in the partial game state.
pub open spec fn spec_get_with_game(boards: Map<(int, int), Board>, pg: PartialGame, c: Coords) -> Tile {
    match spec_get_board_with_game(boards, pg, (c.0 as int, c.1 as int)) {
        Some(b) => b.spec_get(c.2 as int, c.3 as int),
        None => Tile::Void,
    }
}

/// The board at `lt` among the game's boards, or else in the partial game state.
pub open spec fn spec_get_board_with_game(boards: Map<(int, int), Board>, pg: PartialGame, lt: (int, int)) -> Option<Board> {
    if boards.dom().contains(lt) {
        Some(boards[lt])
    } else {
        pg.spec_get_board(lt)
    }
}

impl<'a> PartialGame<'a> {
    /// Turns a `Shallow` storage into a `Deep` one holding the same boards (by their own
    /// coordinates); does nothing to a `Deep` storage.
    pub fn deepen(&mut self)
        requires
            old(self).layer_ok(),
        ensures
            final(self).layer_ok(),
            final(self).boards is Deep,
            final(self).deep_view() == old(self).deep_view(),
            final(self).info == old(self).info,
            final(self).parent == old(self).parent,
            old(self).boards is Deep ==> final(self).boards == old(self).boards,
    {
        match self.boards {
            PartialGameStorage::Shallow(_, _) => {},
            PartialGameStorage::Deep(_) => {
                return;
            },
        }
        let ghost old_self = *self;
        let mut storage = PartialGameStorage::Deep(BoardArray::empty());
        std::mem::swap(&mut self.boards, &mut storage);
        let (mut boards_white, mut boards_black) = match storage {
            PartialGameStorage::Shallow(w, b) => (w, b),
            PartialGameStorage::Deep(_) => {
                proof { assert(false); }
                (Vec::new(), Vec::new())
            },
        };
        let ghost w0 = boards_white@;
        let ghost b0 = boards_black@;
        let mut target = BoardArray::empty();
        proof {
            assert(target@ =~= stored_view(w0, b0, w0.len() as int, b0.len() as int));
        }
        while boards_white.len() > 0
            invariant
                boards_white.len() <= w0.len(),
                boards_white@ == w0.take(boards_white.len() as int),
                boards_black@ == b0,
                forall|i: int| 0 <= i < w0.len() && (#[trigger] w0[i]) is Some ==> stored_ok(w0[i]->0, i),
                target.valid(),
                target@ == stored_view(w0, b0, boards_white.len() as int, b0.len() as int),
                forall|k: (int, int)| #[trigger] target@.dom().contains(k) ==> target@[k].wf(),
            decreases boards_white.len(),
        {
            let k = boards_white.len() - 1;
            assert(boards_white@[k as int] == w0[k as int]);
            let entry = boards_white.pop().unwrap();
            assert(boards_white@ =~= w0.take(k as int));
            if let Some(board) = entry {
                let ghost lt = (board.l as int, board.t as int);
                target.insert_board(board);
                proof {
                    assert(target@ =~= stored_view(w0, b0, k as int, b0.len() as int));
                }
            } else {
                proof {
                    assert(target@ =~= stored_view(w0, b0, k as int, b0.len() as int));
                }
            }
        }
        while boards_black.len() > 0
            invariant
                boards_black.len() <= b0.len(),
                boards_black@ == b0.take(boards_black.len() as int),
                forall|i: int| 0 <= i < b0.len() && (#[trigger] b0[i]) is Some ==> stored_ok(b0[i]->0, -i - 1),
                target.valid(),
                target@ == stored_view(w0, b0, 0, boards_black.len() as int),
                forall|k: (int, int)| #[trigger] target@.dom().contains(k) ==> target@[k].wf(),
            decreases boards_black.len(),
        {
            let k = boards_black.len() - 1;
            assert(boards_black@[k as int] == b0[k as int]);
            let entry = boards_black.pop().unwrap();
            assert(boards_black@ =~= b0.take(k as int));
            if let Some(board) = entry {
                target.insert_board(board);
                proof {
                    assert(target@ =~= stored_view(w0, b0, 0, k as int));
                }
            } else {
                proof {
                    assert(target@ =~= stored_view(w0, b0, 0, k as int));
                }
            }
        }
        self.boards = PartialGameStorage::Deep(target);
    }
}

/// `slots` with `board` in slot `index`, and empty slots added up to it if needed.
pub open spec fn spec_place(slots: Seq<Option<Board>>, index: int, board: Board) -> Seq<Option<Board>> {
    Seq::new(
        if slots.len() > index { slots.len() } else { (index + 1) as nat },
        |j: int| if j == index { Some(board) } else if j < slots.len() { slots[j] } else { None },
    )
}

/// Puts `board` in slot `index` if that slot is empty or missing, adding empty slots up to
/// it; hands the board back, leaving the slots unchanged, if the slot is taken.
fn place_in_slot(slots: &mut Vec<Option<Board>>, index: usize, board: Board) -> (res: Option<Board>)
    requires
        index < usize::MAX,
    ensures
        (index < old(slots).len() && old(slots)@[index as int] is Some) ==> res == Some(board) && final(slots)@ == old(slots)@,
        !(index < old(slots).len() && old(slots)@[index as int] is Some) ==> res is None && final(slots)@ == spec_place(old(slots)@, index as int, board),
{
    let ghost s0 = slots@;
    if slots.len() <= index {
        while slots.len() < index
            invariant
                s0.len() <= slots.len() <= index,
                slots@.take(s0.len() as int) == s0,
                forall|i: int| s0.len() <= i < slots.len() ==> (#[trigger] slots@[i]) is None,
            decreases index - slots.len(),
        {
            slots.push(None);
            assert(slots@.take(s0.len() as int) =~= s0);
        }
        slots.push(Some(board));
        proof {
            assert forall|j: int| 0 <= j < slots.len() implies #[trigger] slots@[j] == spec_place(s0, index as int, board)[j] by {
                if j < s0.len() {
                    assert(slots@.take(s0.len() as int)[j] == s0[j]);
                }
            }
            assert(slots@ =~= spec_place(s0, index as int, board));
        }
        None
    } else if slots[index].is_none() {
        slots.set(index, Some(board));
        assert(slots@ =~= spec_place(s0, index as int, board));
        None
    } else {
        Some(board)
    }
}

impl<'a> PartialGame<'a> {
    /// Inserts a board into this layer. A `Shallow` storage keeps it in the slot of its
    /// timeline if that slot is empty; otherwise the storage is deepened first.
    pub fn insert(&mut self, board: Board)
        requires
            old(self).layer_ok(),
            coords_in_bounds(board.l as int, board.t as int),
            board.wf(),
            old(self).boards is Deep ==> old(self).boards->Deep_0.insertable(board.l as int, board.t as int),
        ensures
            final(self).layer_ok(),
            final(self).info == old(self).info,
            final(self).parent == old(self).parent,
            final(self).deep_view() == old(self).deep_view().insert((board.l as int, board.t as int), board),
            forall|nw: int, nb: int| #[trigger] old(self).covers(nw, nb) ==> final(self).covers(nw, nb),
            board.l >= 0 ==> final(self).covers(board.l + 1, 0),
            board.l < 0 ==> final(self).covers(0, -board.l),
            old(self).accepts_boards() ==> final(self).accepts_boards(),
    {
        let ghost old_self = *self;
        let ghost lt = (board.l as int, board.t as int);
        let leftover: Option<Board> = match &mut self.boards {
            PartialGameStorage::Shallow(boards_white, boards_black) => {
                if board.l >= 0 {
                    let index = board.l as usize;
                    place_in_slot(boards_white, index, board)
                } else {
                    let index = (0 - board.l) as usize - 1;
                    place_in_slot(boards_black, index, board)
                }
            },
            PartialGameStorage::Deep(boards) => {
                boards.insert_board(board);
                None
            },
        };
        let ghost mid = *self;
        proof {
            if leftover is None {
                if let PartialGameStorage::Shallow(w0, b0) = old_self.boards {
                    if let PartialGameStorage::Shallow(w1, b1) = mid.boards {
                        assert(stored_view(w1@, b1@, 0, 0) =~= stored_view(w0@, b0@, 0, 0).insert(lt, board));
                    }
                }
            }
        }
        if let Some(board) = leftover {
            self.deepen();
            match &mut self.boards {
                PartialGameStorage::Deep(boards) => {
                    boards.insert_board(board);
                },
                PartialGameStorage::Shallow(_, _) => {},
            }
        }
    }
}

} // verus!
