use vstd::prelude::*;
use vstd::string::StringExecFns;
use crate::movement::{files, Move, MoveKind, Moveset};
use crate::piece::spec_kind_name;
use crate::{Layer, Physical, Time};

verus! {

/// The decimal digits.
pub open spec fn digits() -> Seq<char> {
    seq!['0', '1', '2', '3', '4', '5', '6', '7', '8', '9']
}

/// The decimal form of `n`.
pub open spec fn nat_text(n: nat) -> Seq<char>
    decreases n,
{
    if n < 10 {
        seq![digits()[n as int]]
    } else {
        nat_text(n / 10).push(digits()[(n % 10) as int])
    }
}

/// The decimal form of `n`, with a minus sign if it is negative.
pub open spec fn int_text(n: int) -> Seq<char> {
    if n < 0 {
        seq!['-'] + nat_text((-n) as nat)
    } else {
        nat_text(n as nat)
    }
}

/// The digit `d` as a string.
fn digit_str(d: u64) -> (res: &'static str)
    requires
        d < 10,
    ensures
        res@ == seq![digits()[d as int]],
{
    match d {
        0 => {
            proof { reveal_strlit("0"); }
            "0"
        },
        1 => {
            proof { reveal_strlit("1"); }
            "1"
        },
        2 => {
            proof { reveal_strlit("2"); }
            "2"
        },
        3 => {
            proof { reveal_strlit("3"); }
            "3"
        },
        4 => {
            proof { reveal_strlit("4"); }
            "4"
        },
        5 => {
            proof { reveal_strlit("5"); }
            "5"
        },
        6 => {
            proof { reveal_strlit("6"); }
            "6"
        },
        7 => {
            proof { reveal_strlit("7"); }
            "7"
        },
        8 => {
            proof { reveal_strlit("8"); }
            "8"
        },
        _ => {
            proof { reveal_strlit("9"); }
            "9"
        },
    }
}

/// Appends the decimal form of `n` to `s`.
pub fn append_nat(s: &mut String, n: u64)
    ensures
        final(s)@ == old(s)@ + nat_text(n as nat),
    decreases n,
{
    if n >= 10 {
        append_nat(s, n / 10);
    }
    let ghost before = s@;
    s.append(digit_str(n % 10));
    proof {
        if n >= 10 {
            assert(nat_text(n as nat) == nat_text((n / 10) as nat).push(digits()[(n % 10) as int]));
            assert(old(s)@ + nat_text(n as nat) =~= before + seq![digits()[(n % 10) as int]]);
        } else {
            assert(old(s)@ + nat_text(n as nat) =~= before + seq![digits()[(n % 10) as int]]);
        }
    }
}

/// Appends the decimal form of `n` to `s`, with a minus sign if it is negative.
pub fn append_int(s: &mut String, n: isize)
    ensures
        final(s)@ == old(s)@ + int_text(n as int),
{
    if n < 0 {
        proof { reveal_strlit("-"); }
        s.append("-");
        let ghost before = s@;
        let m: u64 = ((-(n + 1)) as u64) + 1;
        append_nat(s, m);
        assert(old(s)@ + int_text(n as int) =~= before + nat_text(m as nat));
    } else {
        append_nat(s, n as u64);
    }
}

/// The letter of the file `x` as a string.
fn file_str(x: Physical) -> (res: &'static str)
    requires
        0 <= x < 23,
    ensures
        res@ == seq![files()[x as int]],
{
    match x {
        0 => {
            proof { reveal_strlit("a"); }
            "a"
        },
        1 => {
            proof { reveal_strlit("b"); }
            "b"
        },
        2 => {
            proof { reveal_strlit("c"); }
            "c"
        },
        3 => {
            proof { reveal_strlit("d"); }
            "d"
        },
        4 => {
            proof { reveal_strlit("e"); }
            "e"
        },
        5 => {
            proof { reveal_strlit("f"); }
            "f"
        },
        6 => {
            proof { reveal_strlit("g"); }
            "g"
        },
        7 => {
            proof { reveal_strlit("h"); }
            "h"
        },
        8 => {
            proof { reveal_strlit("i"); }
            "i"
        },
        9 => {
            proof { reveal_strlit("j"); }
            "j"
        },
        10 => {
            proof { reveal_strlit("k"); }
            "k"
        },
        11 => {
            proof { reveal_strlit("l"); }
            "l"
        },
        12 => {
            proof { reveal_strlit("m"); }
            "m"
        },
        13 => {
            proof { reveal_strlit("n"); }
            "n"
        },
        14 => {
            proof { reveal_strlit("o"); }
            "o"
        },
        15 => {
            proof { reveal_strlit("p"); }
            "p"
        },
        16 => {
            proof { reveal_strlit("q"); }
            "q"
        },
        17 => {
            proof { reveal_strlit("r"); }
            "r"
        },
        18 => {
            proof { reveal_strlit("s"); }
            "s"
        },
        19 => {
            proof { reveal_strlit("t"); }
            "t"
        },
        20 => {
            proof { reveal_strlit("u"); }
            "u"
        },
        21 => {
            proof { reveal_strlit("v"); }
            "v"
        },
        _ => {
            proof { reveal_strlit("w"); }
            "w"
        },
    }
}

/// `t / 2`, rounded toward zero.
pub open spec fn half_toward_zero(t: int) -> int {
    if t >= 0 { t / 2 } else { -((-t) / 2) }
}

/// A board's coordinates as displayed in the game: its timeline and its turn number.
pub open spec fn board_text(l: int, t: int) -> Seq<char> {
    seq!['(', 'L'] + int_text(l) + seq!['T'] + int_text(half_toward_zero(t) + 1) + seq![')']
}

/// A square as displayed in the game: its file letter and its rank number.
pub open spec fn square_text(x: int, y: int) -> Seq<char> {
    seq![files()[x]] + int_text(y + 1)
}

/// `s` if `b` holds, nothing otherwise.
pub open spec fn text_if(b: bool, s: Seq<char>) -> Seq<char> {
    if b { s } else { Seq::empty() }
}

/// The move in the game's notation: the board it starts from, then the castling sign, or the
/// piece, its square, a jump sign, a capture sign, the target board if it jumps, the target
/// square and the promotion sign.
pub open spec fn move_text(mv: Move) -> Seq<char> {
    let from = mv.from.1;
    let to = mv.to.1;
    let head = board_text(from.0 as int, from.1 as int);
    if mv.kind == MoveKind::Castle {
        head + (if from.2 > to.2 { seq!['O', '-', 'O', '-', 'O'] } else { seq!['O', '-', 'O'] })
    } else {
        let jumps = from.0 != to.0 || from.1 != to.1;
        head + spec_kind_name(mv.from.0.kind) + square_text(from.2 as int, from.3 as int)
            + text_if(jumps, seq!['>', '>'])
            + text_if(mv.to.0 is Some, seq!['x'])
            + text_if(jumps, board_text(to.0 as int, to.1 as int))
            + square_text(to.2 as int, to.3 as int)
            + text_if(mv.kind == MoveKind::Promotion, seq!['=', 'Q'])
    }
}

/// The move can be written: unless it castles, its files have letters and its ranks numbers
/// that fit a `Physical`.
pub open spec fn printable(mv: Move) -> bool {
    mv.kind != MoveKind::Castle ==> {
        &&& 0 <= mv.from.1.2 < 23
        &&& 0 <= mv.to.1.2 < 23
        &&& mv.from.1.3 < i8::MAX
        &&& mv.to.1.3 < i8::MAX
    }
}

/// Appends a board's coordinates as displayed in the game.
fn append_board(s: &mut String, l: Layer, t: Time)
    ensures
        final(s)@ == old(s)@ + board_text(l as int, t as int),
{
    proof { reveal_strlit("(L"); reveal_strlit("T"); reveal_strlit(")"); }
    let ghost s0 = s@;
    s.append("(L");
    append_int(s, l);
    s.append("T");
    let half: isize = if t >= 0 {
        t / 2
    } else {
        let u: isize = -(t + 1);
        -(u / 2 + u % 2)
    };
    assert(half == half_toward_zero(t as int));
    append_int(s, half + 1);
    s.append(")");
    assert(s@ =~= s0 + board_text(l as int, t as int));
}

/// Appends a square as displayed in the game.
fn append_square(s: &mut String, x: Physical, y: Physical)
    requires
        0 <= x < 23,
        y < i8::MAX,
    ensures
        final(s)@ == old(s)@ + square_text(x as int, y as int),
{
    let ghost s0 = s@;
    s.append(file_str(x));
    append_int(s, (y + 1) as isize);
    assert(s@ =~= s0 + square_text(x as int, y as int));
}

impl Move {
    /// The move in the game's notation.
    pub fn to_string(&self) -> (res: String)
        requires
            printable(*self),
        ensures
            res@ == move_text(*self),
    {
        proof {
            reveal_strlit("");
            reveal_strlit("O-O-O");
            reveal_strlit("O-O");
            reveal_strlit(">>");
            reveal_strlit("x");
            reveal_strlit("=Q");
        }
        let from = self.from.1;
        let to = self.to.1;
        let mut res = String::from_str("");
        append_board(&mut res, from.0, from.1);
        let ghost head = res@;
        if self.kind == MoveKind::Castle {
            if from.2 > to.2 {
                res.append("O-O-O");
            } else {
                res.append("O-O");
            }
            assert(res@ =~= move_text(*self));
            return res;
        }
        res.append(self.from.0.kind.name());
        append_square(&mut res, from.2, from.3);
        let jumps = from.0 != to.0 || from.1 != to.1;
        let ghost a = res@;
        if jumps {
            res.append(">>");
        }
        let ghost b = res@;
        assert(b =~= a + text_if(jumps, seq!['>', '>']));
        if self.to.0.is_some() {
            res.append("x");
        }
        let ghost c = res@;
        assert(c =~= b + text_if(self.to.0 is Some, seq!['x']));
        if jumps {
            append_board(&mut res, to.0, to.1);
        }
        let ghost d = res@;
        assert(d =~= c + text_if(jumps, board_text(to.0 as int, to.1 as int)));
        append_square(&mut res, to.2, to.3);
        let ghost e = res@;
        if self.kind == MoveKind::Promotion {
            res.append("=Q");
        }
        assert(res@ =~= e + text_if(self.kind == MoveKind::Promotion, seq!['=', 'Q']));
        assert(res@ =~= move_text(*self));
        res
    }
}

/// The moves `s` in the game's notation, each followed by a space.
pub open spec fn moves_text(s: Seq<Move>) -> Seq<char>
    decreases s.len(),
{
    if s.len() == 0 {
        Seq::empty()
    } else {
        moves_text(s.drop_last()) + move_text(s.last()) + seq![' ']
    }
}

impl Moveset {
    /// The moveset in the game's notation: its moves, each followed by a space.
    pub fn to_string(&self) -> (res: String)
        requires
            forall|i: int| 0 <= i < self.spec_moves().len() ==> printable(#[trigger] self.spec_moves()[i]),
        ensures
            res@ == moves_text(self.spec_moves()),
    {
        proof { reveal_strlit(""); reveal_strlit(" "); }
        let moves = self.moves();
        let mut res = String::from_str("");
        let mut i: usize = 0;
        while i < moves.len()
            invariant
                0 <= i <= moves.len(),
                moves@ == self.spec_moves(),
                forall|j: int| 0 <= j < moves@.len() ==> printable(#[trigger] moves@[j]),
                res@ == moves_text(moves@.take(i as int)),
            decreases moves.len() - i,
        {
            proof { reveal_strlit(" "); }
            let text = moves[i].to_string();
            res.append(text.as_str());
            res.append(" ");
            assert(moves@.take(i + 1).drop_last() =~= moves@.take(i as int));
            assert(moves@.take(i + 1).last() == moves@[i as int]);
            assert(res@ =~= moves_text(moves@.take(i as int)) + move_text(moves@[i as int]) + seq![' ']);
            i = i + 1;
        }
        assert(moves@.take(moves.len() as int) =~= moves@);
        res
    }
}

} // verus!
