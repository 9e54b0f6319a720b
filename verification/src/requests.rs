//! The request contracts of the three service routes, checked on the plain
//! values a request carries: the start-game parameters, the move request,
//! and the board-setup request.

use vstd::prelude::*;
use vstd::string::*;

use crate::game::Mode;
use crate::game::overview::{Cell, Overview, OverviewView};
use crate::game::piece::{Piece, cell_of_chars, valid_cell_chars};
use crate::game::square::{Square, parse_square};
use crate::outside::{decimal_i64, parse_i64};

verus! {

/// Why a request was rejected before any game logic ran.
#[derive(Debug, Clone, Copy, PartialEq, Eq, Structural)]
pub enum RequestError {
    InvalidMode,
    InvalidPieceCount,
    InvalidMoveRequest,
    InvalidSquare,
    InvalidBoardSetup,
    InvalidBoard,
}

impl RequestError {
    /// The stable error message of the rejection.
    pub fn message(self) -> (res: &'static str)
        ensures
            self == RequestError::InvalidMode ==> res@ == "invalid mode"@,
            self == RequestError::InvalidPieceCount ==> res@ == "invalid piece count"@,
            self == RequestError::InvalidMoveRequest ==> res@ == "invalid move request"@,
            self == RequestError::InvalidSquare ==> res@ == "invalid square"@,
            self == RequestError::InvalidBoardSetup ==> res@ == "invalid board setup"@,
            self == RequestError::InvalidBoard ==> res@ == "invalid board"@,
    {
        match self {
            RequestError::InvalidMode => "invalid mode",
            RequestError::InvalidPieceCount => "invalid piece count",
            RequestError::InvalidMoveRequest => "invalid move request",
            RequestError::InvalidSquare => "invalid square",
            RequestError::InvalidBoardSetup => "invalid board setup",
            RequestError::InvalidBoard => "invalid board",
        }
    }
}

/// The piece count of a random game when none is given.
pub const DEFAULT_PIECES: u8 = 16;

/// The fewest pieces per side of a random game.
pub const MIN_PIECES: u8 = 2;

/// The most pieces per side of a random game.
pub const MAX_PIECES: u8 = 16;

/// The start-game parameters read as a mode and a piece count: the mode is
/// `standard` (the default) or `random`, matched case-sensitively; a random
/// game's count defaults to 16 and must be an integer in `2..=16`; a
/// standard game ignores the count.
pub open spec fn start_decision(mode: Option<Seq<char>>, pieces: Option<Seq<char>>) -> Result<(Mode, u8), RequestError> {
    let chosen = match mode {
        None => Some(Mode::Standard),
        Some(m) => if m == "standard"@ {
            Some(Mode::Standard)
        } else if m == "random"@ {
            Some(Mode::Random)
        } else {
            None
        },
    };
    match chosen {
        None => Err(RequestError::InvalidMode),
        Some(Mode::Standard) => Ok((Mode::Standard, 16u8)),
        Some(Mode::Random) => match pieces {
            None => Ok((Mode::Random, 16u8)),
            Some(raw) => match decimal_i64(raw) {
                Some(n) => if 2 <= n <= 16 {
                    Ok((Mode::Random, n as u8))
                } else {
                    Err(RequestError::InvalidPieceCount)
                },
                None => Err(RequestError::InvalidPieceCount),
            },
        },
    }
}

/// `true` when `s` is exactly the text `lit`.
fn str_is(s: &str, lit: &str) -> (res: bool)
    ensures
        res == (s@ == lit@),
{
    String::from_str(s) == String::from_str(lit)
}

/// Validate the start-game parameters `mode` and `pieces`.
pub fn start_params(mode: Option<&str>, pieces: Option<&str>) -> (res: Result<(Mode, u8), RequestError>)
    ensures
        res == start_decision(
            match mode {
                Some(m) => Some(m@),
                None => None,
            },
            match pieces {
                Some(p) => Some(p@),
                None => None,
            },
        ),
{
    proof {
        reveal_strlit("standard");
        reveal_strlit("random");
    }
    let mode = match mode {
        None => Mode::Standard,
        Some(m) => {
            if str_is(m, "standard") {
                Mode::Standard
            } else if str_is(m, "random") {
                Mode::Random
            } else {
                return Err(RequestError::InvalidMode);
            }
        },
    };
    proof {
        assert(DEFAULT_PIECES == 16 && MIN_PIECES == 2 && MAX_PIECES == 16);
    }
    if mode == Mode::Random {
        match pieces {
            None => Ok((Mode::Random, DEFAULT_PIECES)),
                Some(raw) => match parse_i64(raw) {
                Some(n) => {
                    if MIN_PIECES as i64 <= n && n <= MAX_PIECES as i64 {
                        Ok((Mode::Random, n as u8))
                    } else {
                        Err(RequestError::InvalidPieceCount)
                    }
                },
                None => Err(RequestError::InvalidPieceCount),
            },
        }
    } else {
        Ok((Mode::Standard, DEFAULT_PIECES))
    }
}

/// The move request read as a game id and two squares: all three fields
/// present, `from` and `to` different, and both squares in `a1..h8`.
pub open spec fn move_decision(uuid: Option<Seq<char>>, from: Option<Seq<char>>, to: Option<Seq<char>>) -> Result<(Square, Square), RequestError> {
    match (uuid, from, to) {
        (Some(u), Some(f), Some(t)) => if f == t {
            Err(RequestError::InvalidMoveRequest)
        } else {
            match (parse_square(f), parse_square(t)) {
                (Some(fs), Some(ts)) => Ok((fs, ts)),
                _ => Err(RequestError::InvalidSquare),
            }
        },
        _ => Err(RequestError::InvalidMoveRequest),
    }
}

/// The text of an optional string.
pub open spec fn opt_view(s: Option<String>) -> Option<Seq<char>> {
    match s {
        Some(x) => Some(x@),
        None => None,
    }
}

/// Validate a move request; on success give back the game id and the two
/// squares.
pub fn move_request(uuid: Option<String>, from: Option<String>, to: Option<String>) -> (res: Result<(String, Square, Square), RequestError>)
    ensures
        match move_decision(opt_view(uuid), opt_view(from), opt_view(to)) {
            Ok(sq) => res matches Ok(r) && r.0@ == uuid->0@ && r.1 == sq.0 && r.2 == sq.1,
            Err(e) => res matches Err(x) && x == e,
        },
{
    let (uuid, from, to) = match (uuid, from, to) {
        (Some(u), Some(f), Some(t)) => (u, f, t),
        _ => return Err(RequestError::InvalidMoveRequest),
    };
    if from == to {
        return Err(RequestError::InvalidMoveRequest);
    }
    match (Square::parse(from.as_str()), Square::parse(to.as_str())) {
        (Some(f), Some(t)) => Ok((uuid, f, t)),
        _ => Err(RequestError::InvalidSquare),
    }
}

/// `true` when `value` is a castling availability: `both`, `short castle`,
/// `long castle` or `none`.
pub open spec fn castle_ok(value: Seq<char>) -> bool {
    value == "both"@ || value == "short castle"@ || value == "long castle"@ || value == "none"@
}

/// `true` when `value` is a valid castling availability.
pub fn is_valid_castle(value: &str) -> (res: bool)
    ensures
        res == castle_ok(value@),
{
    str_is(value, "both") || str_is(value, "short castle") || str_is(value, "long castle") || str_is(value, "none")
}

/// The setup board is an 8×8 grid of strings.
pub open spec fn grid_8x8(b: Seq<Vec<String>>) -> bool {
    b.len() == 8 && forall|r: int| 0 <= r < 8 ==> (#[trigger] b[r])@.len() == 8
}

/// Every cell string is `""` or one piece letter.
pub open spec fn cells_valid(b: Seq<Vec<String>>) -> bool {
    forall|r: int, c: int| 0 <= r < 8 && 0 <= c < 8 ==> valid_cell_chars((#[trigger] b[r]@[c])@)
}

/// The cells of the setup board read as pieces.
pub open spec fn setup_grid(b: Seq<Vec<String>>) -> Seq<Seq<Cell>> {
    Seq::new(8, |r: int| Seq::new(8, |c: int| cell_of_chars(b[r]@[c]@)))
}

/// The castling value of a setup request, `both` when absent.
pub open spec fn castle_or_both(v: Option<String>) -> Seq<char> {
    match v {
        Some(x) => x@,
        None => "both"@,
    }
}

/// The setup request's decision: a game id and an 8×8 board are required,
/// every cell must be `""` or a piece letter, and both castling values
/// (default `both`) must be valid.
pub open spec fn setup_decision(uuid: Option<String>, board: Option<Vec<Vec<String>>>, white: Option<String>, black: Option<String>) -> Result<(), RequestError> {
    if uuid is None {
        Err(RequestError::InvalidBoardSetup)
    } else if !(board matches Some(b) && grid_8x8(b@)) {
        Err(RequestError::InvalidBoardSetup)
    } else if !cells_valid(board->0@) {
        Err(RequestError::InvalidBoard)
    } else if !castle_ok(castle_or_both(white)) || !castle_ok(castle_or_both(black)) {
        Err(RequestError::InvalidBoardSetup)
    } else {
        Ok(())
    }
}

/// Validate a board-setup request; on success give back the game id and the
/// overview to install (cells parsed into pieces, castling defaulting to
/// `both`).
pub fn setup_request(uuid: Option<String>, board: Option<Vec<Vec<String>>>, white: Option<String>, black: Option<String>) -> (res: Result<(String, Overview), RequestError>)
    ensures
        match setup_decision(uuid, board, white, black) {
            Ok(_) => res matches Ok(r) && r.0@ == uuid->0@ && r.1@ == (OverviewView {
                board: setup_grid(board->0@),
                white: castle_or_both(white),
                black: castle_or_both(black),
            }) && r.1.board@.len() == 8,
            Err(e) => res matches Err(x) && x == e,
        },
{
    let ghost board0 = board;
    let ghost decision = setup_decision(uuid, board, white, black);
    let uuid = match uuid {
        Some(u) => u,
        None => return Err(RequestError::InvalidBoardSetup),
    };
    let board = match board {
        Some(b) => b,
        None => return Err(RequestError::InvalidBoardSetup),
    };
    proof {
        assert(board0 == Some(board));
    }
    if board.len() != 8 {
        proof {
            assert(!grid_8x8(board@));
        }
        return Err(RequestError::InvalidBoardSetup);
    }
    let mut shape_ok = true;
    for r in 0..8usize
        invariant
            board@.len() == 8,
            shape_ok == forall|i: int| 0 <= i < r ==> (#[trigger] board@[i])@.len() == 8,
    {
        if board[r].len() != 8 {
            shape_ok = false;
        }
    }
    if !shape_ok {
        return Err(RequestError::InvalidBoardSetup);
    }
    let mut cells_ok = true;
    for r in 0..8usize
        invariant
            grid_8x8(board@),
            cells_ok == forall|i: int, c: int| 0 <= i < r && 0 <= c < 8 ==> valid_cell_chars((#[trigger] board@[i]@[c])@),
    {
        let mut row_ok = true;
        for c in 0..8usize
            invariant
                grid_8x8(board@),
                r < 8,
                row_ok == forall|j: int| 0 <= j < c ==> valid_cell_chars((#[trigger] board@[r as int]@[j])@),
        {
            if !crate::game::piece::is_valid_cell(board[r][c].as_str()) {
                row_ok = false;
            }
        }
        proof {
            assert((forall|i: int, c: int| 0 <= i < r + 1 && 0 <= c < 8 ==> valid_cell_chars((#[trigger] board@[i]@[c])@))
                == (cells_ok && row_ok));
        }
        cells_ok = cells_ok && row_ok;
    }
    if !cells_ok {
        return Err(RequestError::InvalidBoard);
    }
    let ghost white_v = castle_or_both(white);
    let ghost black_v = castle_or_both(black);
    let white = match white {
        Some(w) => w,
        None => String::from_str("both"),
    };
    let black = match black {
        Some(b) => b,
        None => String::from_str("both"),
    };
    if !is_valid_castle(white.as_str()) || !is_valid_castle(black.as_str()) {
        return Err(RequestError::InvalidBoardSetup);
    }
    let mut cells: Vec<Vec<Cell>> = Vec::new();
    for r in 0..8usize
        invariant
            grid_8x8(board@),
            cells@.len() == r,
            forall|i: int| 0 <= i < r ==> (#[trigger] cells@[i])@ == setup_grid(board@)[i],
    {
        let mut row: Vec<Cell> = Vec::new();
        for c in 0..8usize
            invariant
                grid_8x8(board@),
                r < 8,
                row@ == Seq::new(c as nat, |j: int| cell_of_chars(board@[r as int]@[j]@)),
        {
            row.push(Piece::cell_from_str(board[r][c].as_str()));
        }
        proof {
            assert(row@ =~= setup_grid(board@)[r as int]);
        }
        cells.push(row);
    }
    let overview = Overview { board: cells, white, black };
    proof {
        assert(overview@.board =~= setup_grid(board@));
    }
    Ok((uuid, overview))
}

} // verus!
