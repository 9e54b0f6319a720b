//! Board coordinates. `row` 0 is rank 8 and `row` 7 is rank 1; `col` 0 is
//! file `a` and `col` 7 is file `h`. Only the request and response edge speaks
//! the algebraic `a1..h8` form.

use vstd::prelude::*;
use vstd::string::*;

verus! {

/// A board coordinate in overview order.
#[derive(Debug, Clone, Copy, PartialEq, Eq, Structural)]
pub struct Square {
    /// Board row: 0 = rank 8 … 7 = rank 1.
    pub row: usize,
    /// Board column: 0 = file `a` … 7 = file `h`.
    pub col: usize,
}

/// The square lies on the 8×8 board.
pub open spec fn on_board(s: Square) -> bool {
    s.row < 8 && s.col < 8
}

/// The algebraic square `fr` (file letter, rank digit) as a coordinate, when
/// the file is in `a..h` and the rank in `1..8`.
pub open spec fn parse_square(s: Seq<char>) -> Option<Square> {
    if s.len() == 2 && 'a' <= s[0] <= 'h' && '1' <= s[1] <= '8' {
        Some(Square {
            row: (8 - (s[1] as int - '0' as int)) as usize,
            col: (s[0] as int - 'a' as int) as usize,
        })
    } else {
        None
    }
}

/// The file letter of a column `0..8`.
pub open spec fn file_char(col: int) -> char {
    if col == 0 {
        'a'
    } else if col == 1 {
        'b'
    } else if col == 2 {
        'c'
    } else if col == 3 {
        'd'
    } else if col == 4 {
        'e'
    } else if col == 5 {
        'f'
    } else if col == 6 {
        'g'
    } else {
        'h'
    }
}

/// The rank digit of a row `0..8` (row 0 is rank 8).
pub open spec fn rank_char(row: int) -> char {
    if row == 0 {
        '8'
    } else if row == 1 {
        '7'
    } else if row == 2 {
        '6'
    } else if row == 3 {
        '5'
    } else if row == 4 {
        '4'
    } else if row == 5 {
        '3'
    } else if row == 6 {
        '2'
    } else {
        '1'
    }
}

/// The algebraic name of an on-board square.
pub open spec fn algebraic_chars(s: Square) -> Seq<char> {
    seq![file_char(s.col as int), rank_char(s.row as int)]
}

/// The file letter of a column as text.
fn file_str(col: usize) -> (res: &'static str)
    requires
        col < 8,
    ensures
        res@ == seq![file_char(col as int)],
{
    proof {
        reveal_strlit("a");
        reveal_strlit("b");
        reveal_strlit("c");
        reveal_strlit("d");
        reveal_strlit("e");
        reveal_strlit("f");
        reveal_strlit("g");
        reveal_strlit("h");
    }
    if col == 0 {
        "a"
    } else if col == 1 {
        "b"
    } else if col == 2 {
        "c"
    } else if col == 3 {
        "d"
    } else if col == 4 {
        "e"
    } else if col == 5 {
        "f"
    } else if col == 6 {
        "g"
    } else {
        "h"
    }
}

/// The rank digit of a row as text.
fn rank_str(row: usize) -> (res: &'static str)
    requires
        row < 8,
    ensures
        res@ == seq![rank_char(row as int)],
{
    proof {
        reveal_strlit("1");
        reveal_strlit("2");
        reveal_strlit("3");
        reveal_strlit("4");
        reveal_strlit("5");
        reveal_strlit("6");
        reveal_strlit("7");
        reveal_strlit("8");
    }
    if row == 0 {
        "8"
    } else if row == 1 {
        "7"
    } else if row == 2 {
        "6"
    } else if row == 3 {
        "5"
    } else if row == 4 {
        "4"
    } else if row == 5 {
        "3"
    } else if row == 6 {
        "2"
    } else {
        "1"
    }
}

impl Square {
    /// Build a square from `(row, col)` board indices.
    pub fn new(row: usize, col: usize) -> (res: Square)
        ensures
            res == (Square { row, col }),
    {
        Square { row, col }
    }

    /// Parse an algebraic square `a1..h8` (`a1` is row 7, col 0; rank 8 is
    /// row 0). `None` when malformed or out of range.
    pub fn parse(s: &str) -> (res: Option<Square>)
        ensures
            res == parse_square(s@),
            res matches Some(sq) ==> on_board(sq),
    {
        let n = s.unicode_len();
        if n != 2 {
            return None;
        }
        let file = s.get_char(0);
        let rank = s.get_char(1);
        if !('a' <= file && file <= 'h') || !('1' <= rank && rank <= '8') {
            return None;
        }
        let col = (file as u32 - 'a' as u32) as usize;
        let row = (8 - (rank as u32 - '0' as u32)) as usize;
        Some(Square { row, col })
    }

    /// `true` when `s` is a square in `a1..h8`.
    pub fn is_valid(s: &str) -> (res: bool)
        ensures
            res == (parse_square(s@) is Some),
    {
        Square::parse(s).is_some()
    }

    /// The algebraic form `a1..h8`, the inverse of [`Square::parse`].
    pub fn algebraic(self) -> (res: String)
        requires
            on_board(self),
        ensures
            res@ == algebraic_chars(self),
    {
        let mut out = String::new();
        out.append(file_str(self.col));
        out.append(rank_str(self.row));
        out
    }
}

/// Writing an on-board square in algebraic form and parsing it back gives the
/// same square; parsing a string and writing the result gives the string.
pub proof fn lemma_algebraic_round_trip(sq: Square, s: Seq<char>)
    ensures
        on_board(sq) ==> parse_square(algebraic_chars(sq)) == Some(sq),
        parse_square(s) matches Some(p) ==> on_board(p) && algebraic_chars(p) == s,
{
    if parse_square(s) is Some {
        let p = parse_square(s)->0;
        assert(algebraic_chars(p) =~= s);
    }
}

} // verus!
