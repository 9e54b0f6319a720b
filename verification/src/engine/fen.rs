//! FEN serialisation of an overview, always with Black to move.

use vstd::prelude::*;
use vstd::string::*;

use crate::game::overview::{Cell, Overview, OverviewView};
use crate::game::piece::{letter_of};

verus! {

/// The decimal digit character of `d` (`0..10`).
pub open spec fn digit_char(d: nat) -> char {
    if d == 0 {
        '0'
    } else if d == 1 {
        '1'
    } else if d == 2 {
        '2'
    } else if d == 3 {
        '3'
    } else if d == 4 {
        '4'
    } else if d == 5 {
        '5'
    } else if d == 6 {
        '6'
    } else if d == 7 {
        '7'
    } else if d == 8 {
        '8'
    } else {
        '9'
    }
}

/// The decimal representation of `n`.
pub open spec fn decimal(n: nat) -> Seq<char>
    decreases n,
{
    if n < 10 {
        seq![digit_char(n)]
    } else {
        decimal(n / 10) + seq![digit_char(n % 10)]
    }
}

/// A run of `run` empty squares: its count, or nothing when there is none.
pub open spec fn run_chars(run: nat) -> Seq<char> {
    if run > 0 {
        decimal(run)
    } else {
        Seq::empty()
    }
}

/// The FEN of the cells `row`, after `run` empty squares already seen:
/// each piece is its letter, each maximal run of empty squares its length.
pub open spec fn fen_run(row: Seq<Cell>, run: nat) -> Seq<char>
    decreases row.len(),
{
    if row.len() == 0 {
        run_chars(run)
    } else {
        match row[0] {
            None => fen_run(row.drop_first(), run + 1),
            Some(p) => run_chars(run) + seq![letter_of(p)] + fen_run(row.drop_first(), 0),
        }
    }
}

/// The FEN of one rank.
pub open spec fn fen_rank(row: Seq<Cell>) -> Seq<char> {
    fen_run(row, 0)
}

/// The FEN piece placement: the ranks in board order, joined by `/`.
pub open spec fn fen_placement(rows: Seq<Seq<Cell>>) -> Seq<char>
    decreases rows.len(),
{
    if rows.len() == 0 {
        Seq::empty()
    } else if rows.len() == 1 {
        fen_rank(rows[0])
    } else {
        fen_placement(rows.drop_last()) + seq!['/'] + fen_rank(rows.last())
    }
}

/// The FEN of an overview with Black to move, no castling, no en passant,
/// halfmove clock 0 and fullmove number 1.
pub open spec fn fen_of(o: OverviewView) -> Seq<char> {
    fen_placement(o.board) + " b - - 0 1"@
}

/// The decimal digit `d` as text.
fn digit_str(d: usize) -> (res: &'static str)
    requires
        d < 10,
    ensures
        res@ == seq![digit_char(d as nat)],
{
    proof {
        reveal_strlit("0");
        reveal_strlit("1");
        reveal_strlit("2");
        reveal_strlit("3");
        reveal_strlit("4");
        reveal_strlit("5");
        reveal_strlit("6");
        reveal_strlit("7");
        reveal_strlit("8");
        reveal_strlit("9");
    }
    if d == 0 {
        "0"
    } else if d == 1 {
        "1"
    } else if d == 2 {
        "2"
    } else if d == 3 {
        "3"
    } else if d == 4 {
        "4"
    } else if d == 5 {
        "5"
    } else if d == 6 {
        "6"
    } else if d == 7 {
        "7"
    } else if d == 8 {
        "8"
    } else {
        "9"
    }
}

/// Append the decimal representation of `n`.
fn append_decimal(out: &mut String, n: usize)
    ensures
        final(out)@ == old(out)@ + decimal(n as nat),
    decreases n,
{
    if n >= 10 {
        append_decimal(out, n / 10);
    }
    out.append(digit_str(n % 10));
    proof {
        assert(old(out)@ + decimal(n as nat) =~= if n >= 10 {
            old(out)@ + decimal((n / 10) as nat) + seq![digit_char((n % 10) as nat)]
        } else {
            old(out)@ + seq![digit_char(n as nat)]
        });
    }
}

/// The FEN of one rank.
fn rank_fen(row: &Vec<Cell>) -> (res: String)
    ensures
        res@ == fen_rank(row@),
{
    let mut rank = String::new();
    let mut empty: usize = 0;
    let n = row.len();
    proof {
        assert(row@.skip(0) =~= row@);
        assert(rank@ + fen_run(row@.skip(0), 0) =~= fen_rank(row@));
    }
    for i in 0..n
        invariant
            n == row@.len(),
            empty <= i,
            rank@ + fen_run(row@.skip(i as int), empty as nat) == fen_rank(row@),
    {
        let ghost rest = row@.skip(i as int);
        proof {
            assert(rest.drop_first() =~= row@.skip(i + 1));
            assert(rest[0] == row@[i as int]);
        }
        match row[i] {
            None => {
                empty = empty + 1;
            },
            Some(piece) => {
                let ghost before = rank@;
                if empty > 0 {
                    append_decimal(&mut rank, empty);
                }
                rank.append(piece.letter_str());
                proof {
                    assert(rank@ =~= before + run_chars(empty as nat) + seq![letter_of(piece)]);
                    assert(rank@ + fen_run(row@.skip(i + 1), 0) =~= before + fen_run(rest, empty as nat));
                }
                empty = 0;
            },
        }
    }
    let ghost before = rank@;
    if empty > 0 {
        append_decimal(&mut rank, empty);
    }
    proof {
        assert(row@.skip(n as int) =~= Seq::<Cell>::empty());
        assert(rank@ =~= before + run_chars(empty as nat));
    }
    rank
}

/// Serialise the overview to a FEN with Black to move (the only side the
/// engine is asked about): castling `-`, en passant `-`, halfmove `0`,
/// fullmove `1`.
pub fn to_fen(overview: &Overview) -> (res: String)
    ensures
        res@ == fen_of(overview@),
{
    let mut out = String::new();
    let n = overview.board.len();
    for i in 0..n
        invariant
            n == overview.board@.len(),
            out@ == fen_placement(overview@.board.take(i as int)),
    {
        let ghost before = out@;
        let rank = rank_fen(&overview.board[i]);
        if i > 0 {
            out.append("/");
        }
        out.append(rank.as_str());
        proof {
            reveal_strlit("/");
            let rows = overview@.board.take(i + 1);
            assert(rows.drop_last() =~= overview@.board.take(i as int));
            assert(rows.last() == overview.board@[i as int]@);
            assert(rank@ == fen_rank(rows.last()));
            if i == 0 {
                assert(overview@.board.take(0) =~= Seq::<Seq<Cell>>::empty());
                assert(out@ =~= fen_rank(rows.last()));
                assert(rows.len() == 1);
            } else {
                assert(out@ =~= before + seq!['/'] + rank@);
            }
        }
    }
    proof {
        assert(overview@.board.take(n as int) =~= overview@.board);
    }
    out.append(" b - - 0 1");
    out
}

/// How many squares a FEN rank text describes, read as a FEN reader reads
/// it: a digit `1`..`9` stands for that many empty squares, any other
/// character for one square.
pub open spec fn fen_width(s: Seq<char>) -> int
    decreases s.len(),
{
    if s.len() == 0 {
        0
    } else {
        (if '1' <= s[0] <= '9' {
            s[0] as int - '0' as int
        } else {
            1
        }) + fen_width(s.drop_first())
    }
}

/// The digit character of `d` is the ASCII decimal digit of `d`.
pub proof fn lemma_digit_char_is_ascii(d: nat)
    requires
        d < 10,
    ensures
        digit_char(d) as int == '0' as int + d,
{
}

/// The width of two texts side by side is the sum of their widths.
proof fn lemma_width_concat(a: Seq<char>, b: Seq<char>)
    ensures
        fen_width(a + b) == fen_width(a) + fen_width(b),
    decreases a.len(),
{
    if a.len() > 0 {
        assert((a + b).drop_first() =~= a.drop_first() + b);
        lemma_width_concat(a.drop_first(), b);
    }
}

/// The cells `row` after `run` empty squares already seen are described,
/// squares and runs together, by exactly `run + row.len()` squares.
proof fn lemma_run_width(row: Seq<Cell>, run: nat)
    requires
        run + row.len() < 10,
    ensures
        fen_width(fen_run(row, run)) == run + row.len(),
    decreases row.len(),
{
    lemma_digit_char_is_ascii(run);
    if run > 0 {
        assert(fen_width(seq![digit_char(run)]) == run) by {
            reveal_with_fuel(fen_width, 2);
            assert(seq![digit_char(run)].drop_first() =~= Seq::<char>::empty());
            assert('1' <= digit_char(run) <= '9');
        }
    }
    if row.len() > 0 {
        match row[0] {
            None => {
                lemma_run_width(row.drop_first(), run + 1);
            },
            Some(p) => {
                lemma_run_width(row.drop_first(), 0);
                let l = seq![letter_of(p)];
                assert(fen_width(l) == 1) by {
                    reveal_with_fuel(fen_width, 2);
                    assert(l.drop_first() =~= Seq::<char>::empty());
                    assert(!('1' <= letter_of(p) <= '9'));
                }
                lemma_width_concat(run_chars(run), l);
                lemma_width_concat(run_chars(run) + l, fen_run(row.drop_first(), 0));
            },
        }
    }
}

/// Each FEN rank describes exactly the squares of its board row: its run
/// digits and piece letters add up to the row's length (8 on the board).
pub proof fn lemma_fen_rank_describes_every_square(row: Seq<Cell>)
    requires
        row.len() <= 9,
    ensures
        fen_width(fen_rank(row)) == row.len(),
{
    lemma_run_width(row, 0);
}

} // verus!
