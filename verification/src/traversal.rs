use vstd::prelude::*;
use crate::board::Board;
use crate::game::{coords_in_bounds, Game, COORD_BOUND};
use crate::info::Info;
use crate::{Layer, Time};

verus! {

/// The board visited after `lt` when unrolling the history of a board: the board the
/// timeline emerges from if `lt` is the board right after it, otherwise the previous board
/// of the timeline.
pub open spec fn previous_coords(info: Info, lt: (Layer, Time)) -> (Layer, Time) {
    match info.spec_timeline(lt.0 as int) {
        Some(tl) => match tl.starts_from {
            Some(from) => if from.1 == lt.1 - 1 { from } else { (lt.0, (lt.1 - 1) as Time) },
            None => (lt.0, (lt.1 - 1) as Time),
        },
        None => (lt.0, (lt.1 - 1) as Time),
    }
}

/// The coordinates of the boards visited by `bubble_up` from `lt`: the board at `lt`, then
/// its history, back in time, as long as there are boards.
pub open spec fn history(boards: Map<(int, int), Board>, info: Info, lt: (Layer, Time)) -> Seq<(Layer, Time)>
    decreases lt.1 + COORD_BOUND + 1,
{
    if lt.1 < -COORD_BOUND || !boards.dom().contains((lt.0 as int, lt.1 as int)) {
        Seq::empty()
    } else {
        let next = previous_coords(info, lt);
        if next.1 < lt.1 {
            seq![lt] + history(boards, info, next)
        } else {
            seq![lt]
        }
    }
}

/// `states` are the states that `function` goes through when called on the boards at
/// `coords`, one after the other, starting from `initial`.
pub open spec fn fold_states<F: Fn(&Board, (Layer, Time), T) -> T, T>(
    function: F,
    boards: Map<(int, int), Board>,
    coords: Seq<(Layer, Time)>,
    initial: T,
    states: Seq<T>,
) -> bool {
    &&& states.len() == coords.len() + 1
    &&& states[0] == initial
    &&& forall|i: int|
        0 <= i < coords.len() ==> call_ensures(
            function,
            (&boards[(coords[i].0 as int, coords[i].1 as int)], coords[i], states[i]),
            #[trigger] states[i + 1],
        )
}

/// Upward traversal: unrolls the history of the board at `coords`, going back in time along
/// its timeline and, on reaching the first board of a timeline, to the board it emerges
/// from. `function` is called on each board with its coordinates and the current state,
/// and returns the next state; the last state is returned.
pub fn bubble_up<F, T>(game: &Game, coords: (Layer, Time), function: F, initial_state: T) -> (res: T)
    where
        T: Clone,
        F: Fn(&Board, (Layer, Time), T) -> T + Copy,
    requires
        game.valid(),
        forall|k: (int, int)| #[trigger] game.boards@.dom().contains(k) ==> game.info.spec_timeline(k.0) is Some,
        forall|b: &Board, c: (Layer, Time), s: T| call_requires(function, (b, c, s)),
    ensures
        exists|states: Seq<T>|
            fold_states(function, game.boards@, history(game.boards@, game.info, coords), initial_state, states)
                && states.last() == res,
{
    let ghost boards = game.boards@;
    let ghost full = history(boards, game.info, coords);
    proof {
        game.boards.lemma_keys();
    }
    if coords.1 < -COORD_BOUND {
        proof {
            assert(full =~= Seq::empty());
            let w = seq![initial_state];
            assert(w.last() == initial_state);
            assert(fold_states(function, game.boards@, history(game.boards@, game.info, coords), initial_state, w));
        }
        return initial_state;
    }
    let ghost mut visited: Seq<(Layer, Time)> = Seq::empty();
    let ghost mut states: Seq<T> = seq![initial_state];
    let mut state = initial_state;
    let mut lt = coords;
    proof {
        assert(full == visited + history(boards, game.info, lt));
    }
    loop
        invariant
            game.valid(),
            boards == game.boards@,
            forall|k: (int, int)| #[trigger] game.boards@.dom().contains(k) ==> game.info.spec_timeline(k.0) is Some,
            forall|k: (int, int)| #[trigger] game.boards@.dom().contains(k) ==> coords_in_bounds(k.0, k.1),
            forall|b: &Board, c: (Layer, Time), s: T| call_requires(function, (b, c, s)),
            full == visited + history(boards, game.info, lt),
            fold_states(function, boards, visited, initial_state, states),
            states.last() == state,
            lt.1 >= -COORD_BOUND - 1,
        ensures
            full == visited,
            fold_states(function, boards, visited, initial_state, states),
            states.last() == state,
        decreases lt.1 + COORD_BOUND + 1,
    {
        if lt.1 < -COORD_BOUND || lt.1 > COORD_BOUND || lt.0 < -COORD_BOUND || lt.0 > COORD_BOUND {
            proof {
                assert(history(boards, game.info, lt) =~= Seq::empty());
                assert(full =~= visited);
            }
            break;
        }
        let board = match game.get_board(lt) {
            Some(b) => b,
            None => {
                proof {
                    assert(full =~= visited);
                }
                break;
            },
        };
        let next_state = function(board, lt, state);
        let ghost old_states = states;
        proof {
            states = states.push(next_state);
            visited = visited.push(lt);
            assert forall|i: int| 0 <= i < visited.len() implies call_ensures(
                function,
                (&boards[(visited[i].0 as int, visited[i].1 as int)], visited[i], states[i]),
                #[trigger] states[i + 1],
            ) by {
                if i < visited.len() - 1 {
                    assert(states[i] == old_states[i]);
                    assert(states[i + 1] == old_states[i + 1]);
                }
            }
        }
        state = next_state;
        let timeline = game.info.get_timeline(lt.0);
        let next: (Layer, Time) = match timeline {
            Some(tl) => match tl.starts_from {
                Some(from) => if from.1 == lt.1 - 1 { from } else { (lt.0, lt.1 - 1) },
                None => (lt.0, lt.1 - 1),
            },
            None => (lt.0, lt.1 - 1),
        };
        if next.1 >= lt.1 {
            proof {
                assert(full =~= visited);
            }
            break;
        }
        proof {
            assert(full =~= visited + history(boards, game.info, next));
        }
        lt = next;
    }
    state
}

} // verus!
