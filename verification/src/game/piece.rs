//! Chess pieces: the six colour-independent kinds and the twelve coloured
//! pieces of the board vocabulary. On the wire a piece is its single letter,
//! uppercase for White and lowercase for Black.

use vstd::prelude::*;
use vstd::string::*;

verus! {

/// The six chess piece kinds, independent of colour.
#[derive(Debug, Clone, Copy, PartialEq, Eq, Structural)]
pub enum Kind {
    King,
    Queen,
    Rook,
    Bishop,
    Knight,
    Pawn,
}

/// The promotion letter `q r b n` (either case) read as a kind.
pub open spec fn promo_kind(c: char) -> Option<Kind> {
    if c == 'q' || c == 'Q' {
        Some(Kind::Queen)
    } else if c == 'r' || c == 'R' {
        Some(Kind::Rook)
    } else if c == 'b' || c == 'B' {
        Some(Kind::Bishop)
    } else if c == 'n' || c == 'N' {
        Some(Kind::Knight)
    } else {
        None
    }
}

impl Kind {
    /// Parse a UCI promotion letter (`q r b n`, case-insensitive). Any other
    /// character names no promotion.
    pub fn from_promo(c: char) -> (res: Option<Kind>)
        ensures
            res == promo_kind(c),
    {
        if c == 'q' || c == 'Q' {
            Some(Kind::Queen)
        } else if c == 'r' || c == 'R' {
            Some(Kind::Rook)
        } else if c == 'b' || c == 'B' {
            Some(Kind::Bishop)
        } else if c == 'n' || c == 'N' {
            Some(Kind::Knight)
        } else {
            None
        }
    }
}

/// A chess piece: colour and kind fused into one variant.
#[derive(Debug, Clone, Copy, PartialEq, Eq, Structural)]
pub enum Piece {
    WhiteKing,
    WhiteQueen,
    WhiteRook,
    WhiteBishop,
    WhiteKnight,
    WhitePawn,
    BlackKing,
    BlackQueen,
    BlackRook,
    BlackBishop,
    BlackKnight,
    BlackPawn,
}

/// `true` for the six White pieces.
pub open spec fn white_piece(p: Piece) -> bool {
    match p {
        Piece::WhiteKing | Piece::WhiteQueen | Piece::WhiteRook | Piece::WhiteBishop
        | Piece::WhiteKnight | Piece::WhitePawn => true,
        _ => false,
    }
}

/// The colour-independent kind of a piece.
pub open spec fn kind_of(p: Piece) -> Kind {
    match p {
        Piece::WhiteKing | Piece::BlackKing => Kind::King,
        Piece::WhiteQueen | Piece::BlackQueen => Kind::Queen,
        Piece::WhiteRook | Piece::BlackRook => Kind::Rook,
        Piece::WhiteBishop | Piece::BlackBishop => Kind::Bishop,
        Piece::WhiteKnight | Piece::BlackKnight => Kind::Knight,
        Piece::WhitePawn | Piece::BlackPawn => Kind::Pawn,
    }
}

/// The piece of a given colour and kind.
pub open spec fn piece_of(white: bool, k: Kind) -> Piece {
    match k {
        Kind::King => if white { Piece::WhiteKing } else { Piece::BlackKing },
        Kind::Queen => if white { Piece::WhiteQueen } else { Piece::BlackQueen },
        Kind::Rook => if white { Piece::WhiteRook } else { Piece::BlackRook },
        Kind::Bishop => if white { Piece::WhiteBishop } else { Piece::BlackBishop },
        Kind::Knight => if white { Piece::WhiteKnight } else { Piece::BlackKnight },
        Kind::Pawn => if white { Piece::WhitePawn } else { Piece::BlackPawn },
    }
}

/// The wire letter of a piece: `K Q R B N P` for White, lowercase for Black.
pub open spec fn letter_of(p: Piece) -> char {
    match p {
        Piece::WhiteKing => 'K',
        Piece::WhiteQueen => 'Q',
        Piece::WhiteRook => 'R',
        Piece::WhiteBishop => 'B',
        Piece::WhiteKnight => 'N',
        Piece::WhitePawn => 'P',
        Piece::BlackKing => 'k',
        Piece::BlackQueen => 'q',
        Piece::BlackRook => 'r',
        Piece::BlackBishop => 'b',
        Piece::BlackKnight => 'n',
        Piece::BlackPawn => 'p',
    }
}

/// The piece whose wire letter is `c`, if any.
pub open spec fn piece_of_letter(c: char) -> Option<Piece> {
    if c == 'K' {
        Some(Piece::WhiteKing)
    } else if c == 'Q' {
        Some(Piece::WhiteQueen)
    } else if c == 'R' {
        Some(Piece::WhiteRook)
    } else if c == 'B' {
        Some(Piece::WhiteBishop)
    } else if c == 'N' {
        Some(Piece::WhiteKnight)
    } else if c == 'P' {
        Some(Piece::WhitePawn)
    } else if c == 'k' {
        Some(Piece::BlackKing)
    } else if c == 'q' {
        Some(Piece::BlackQueen)
    } else if c == 'r' {
        Some(Piece::BlackRook)
    } else if c == 'b' {
        Some(Piece::BlackBishop)
    } else if c == 'n' {
        Some(Piece::BlackKnight)
    } else if c == 'p' {
        Some(Piece::BlackPawn)
    } else {
        None
    }
}

/// A board-cell string read as a cell: exactly one piece letter gives that
/// piece; anything else reads as an empty square.
pub open spec fn cell_of_chars(s: Seq<char>) -> Option<Piece> {
    if s.len() == 1 {
        piece_of_letter(s[0])
    } else {
        None
    }
}

/// The cell vocabulary: the empty string or exactly one piece letter.
pub open spec fn valid_cell_chars(s: Seq<char>) -> bool {
    s.len() == 0 || (s.len() == 1 && piece_of_letter(s[0]) is Some)
}

impl Piece {
    /// `true` for a White (uppercase) piece.
    pub fn is_white(self) -> (res: bool)
        ensures
            res == white_piece(self),
    {
        match self {
            Piece::WhiteKing | Piece::WhiteQueen | Piece::WhiteRook | Piece::WhiteBishop
            | Piece::WhiteKnight | Piece::WhitePawn => true,
            _ => false,
        }
    }

    /// The black piece of a given kind (Black's promotion is always Black).
    pub fn black(kind: Kind) -> (res: Piece)
        ensures
            res == piece_of(false, kind),
    {
        match kind {
            Kind::King => Piece::BlackKing,
            Kind::Queen => Piece::BlackQueen,
            Kind::Rook => Piece::BlackRook,
            Kind::Bishop => Piece::BlackBishop,
            Kind::Knight => Piece::BlackKnight,
            Kind::Pawn => Piece::BlackPawn,
        }
    }

    /// The colour-independent kind.
    pub fn kind(self) -> (res: Kind)
        ensures
            res == kind_of(self),
    {
        match self {
            Piece::WhiteKing | Piece::BlackKing => Kind::King,
            Piece::WhiteQueen | Piece::BlackQueen => Kind::Queen,
            Piece::WhiteRook | Piece::BlackRook => Kind::Rook,
            Piece::WhiteBishop | Piece::BlackBishop => Kind::Bishop,
            Piece::WhiteKnight | Piece::BlackKnight => Kind::Knight,
            Piece::WhitePawn | Piece::BlackPawn => Kind::Pawn,
        }
    }

    /// The single wire letter for this piece.
    pub fn letter(self) -> (res: char)
        ensures
            res == letter_of(self),
    {
        match self {
            Piece::WhiteKing => 'K',
            Piece::WhiteQueen => 'Q',
            Piece::WhiteRook => 'R',
            Piece::WhiteBishop => 'B',
            Piece::WhiteKnight => 'N',
            Piece::WhitePawn => 'P',
            Piece::BlackKing => 'k',
            Piece::BlackQueen => 'q',
            Piece::BlackRook => 'r',
            Piece::BlackBishop => 'b',
            Piece::BlackKnight => 'n',
            Piece::BlackPawn => 'p',
        }
    }

    /// The wire letter as a one-character string slice.
    pub fn letter_str(self) -> (res: &'static str)
        ensures
            res@ == seq![letter_of(self)],
    {
        proof {
            reveal_strlit("K");
            reveal_strlit("Q");
            reveal_strlit("R");
            reveal_strlit("B");
            reveal_strlit("N");
            reveal_strlit("P");
            reveal_strlit("k");
            reveal_strlit("q");
            reveal_strlit("r");
            reveal_strlit("b");
            reveal_strlit("n");
            reveal_strlit("p");
        }
        match self {
            Piece::WhiteKing => "K",
            Piece::WhiteQueen => "Q",
            Piece::WhiteRook => "R",
            Piece::WhiteBishop => "B",
            Piece::WhiteKnight => "N",
            Piece::WhitePawn => "P",
            Piece::BlackKing => "k",
            Piece::BlackQueen => "q",
            Piece::BlackRook => "r",
            Piece::BlackBishop => "b",
            Piece::BlackKnight => "n",
            Piece::BlackPawn => "p",
        }
    }

    /// Parse a wire letter into a piece; any other character is `None`.
    pub fn from_letter(c: char) -> (res: Option<Piece>)
        ensures
            res == piece_of_letter(c),
    {
        if c == 'K' {
            Some(Piece::WhiteKing)
        } else if c == 'Q' {
            Some(Piece::WhiteQueen)
        } else if c == 'R' {
            Some(Piece::WhiteRook)
        } else if c == 'B' {
            Some(Piece::WhiteBishop)
        } else if c == 'N' {
            Some(Piece::WhiteKnight)
        } else if c == 'P' {
            Some(Piece::WhitePawn)
        } else if c == 'k' {
            Some(Piece::BlackKing)
        } else if c == 'q' {
            Some(Piece::BlackQueen)
        } else if c == 'r' {
            Some(Piece::BlackRook)
        } else if c == 'b' {
            Some(Piece::BlackBishop)
        } else if c == 'n' {
            Some(Piece::BlackKnight)
        } else if c == 'p' {
            Some(Piece::BlackPawn)
        } else {
            None
        }
    }

    /// Parse a board-cell string: `""` and anything that is not exactly one
    /// piece letter read as an empty square; one piece letter is that piece.
    pub fn cell_from_str(s: &str) -> (res: Option<Piece>)
        ensures
            res == cell_of_chars(s@),
    {
        let n = s.unicode_len();
        if n == 1 {
            Piece::from_letter(s.get_char(0))
        } else {
            None
        }
    }
}

/// `true` when `cell` is `""` or exactly one valid piece letter.
pub fn is_valid_cell(cell: &str) -> (res: bool)
    ensures
        res == valid_cell_chars(cell@),
{
    let n = cell.unicode_len();
    if n == 0 {
        return true;
    }
    n == 1 && Piece::from_letter(cell.get_char(0)).is_some()
}

/// A letter names a piece exactly when it is that piece's letter, so reading
/// a piece's letter gives the piece back, and writing a parsed letter gives
/// the letter back.
pub proof fn lemma_letter_round_trip(p: Piece, c: char)
    ensures
        piece_of_letter(letter_of(p)) == Some(p),
        piece_of_letter(c) matches Some(q) ==> letter_of(q) == c,
{
}

/// A piece is White exactly when its letter is uppercase, and the black
/// piece of a kind is Black and of that kind.
pub proof fn lemma_colour_and_kind(p: Piece, k: Kind)
    ensures
        white_piece(p) <==> ('A' <= letter_of(p) <= 'Z'),
        !white_piece(piece_of(false, k)),
        kind_of(piece_of(false, k)) == k,
        white_piece(piece_of(true, k)),
        kind_of(piece_of(true, k)) == k,
        piece_of(white_piece(p), kind_of(p)) == p,
{
}

} // verus!
