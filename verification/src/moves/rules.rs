//! The mathematical chess geometry that the move routines are proved
//! against: where a piece may go, which squares lie between two squares, when
//! a king is attacked, and what a move does to the board.

use vstd::prelude::*;

use crate::game::overview::Cell;
use crate::game::piece::{Kind, Piece, kind_of, white_piece};
use crate::game::square::Square;

verus! {

/// What sits on an accessible destination square.
#[derive(Debug, Clone, Copy, PartialEq, Eq, Structural)]
pub enum Target {
    /// The destination is vacant: a quiet move.
    Empty,
    /// The destination holds an enemy piece that would be taken.
    Capture(Piece),
}

/// A square the piece on `from` may reach, tagged by occupancy.
#[derive(Debug, Clone, Copy, PartialEq, Eq, Structural)]
pub struct AccessibleSquare {
    /// The reachable board coordinate.
    pub square: Square,
    /// `Empty` or `Capture(piece)`.
    pub target: Target,
}

/// Why a well-formed move was refused.
#[derive(Debug, Clone, Copy, PartialEq, Eq, Structural)]
pub enum IllegalReason {
    NotYourPiece,
    OwnPieceOnTarget,
    IllegalShape,
    PathBlocked,
    KingInCheck,
}

/// Which of White's castling rights a move has used up since the position
/// was set: the king leaving `e1` uses up both, a move from or onto `h1`
/// the short one, from or onto `a1` the long one.
#[derive(Debug, Clone, Copy, PartialEq, Eq, Structural)]
pub struct CastleSpent {
    pub short: bool,
    pub long: bool,
}

/// The grid has at least 8 rows, each with at least 8 cells, so every
/// square of the 8×8 board can be read.
pub open spec fn covers_board(g: Seq<Seq<Cell>>) -> bool {
    &&& g.len() >= 8
    &&& forall|r: int| 0 <= r < 8 ==> #[trigger] g[r].len() >= 8
}

/// The cell at row `r`, column `c`.
pub open spec fn at(g: Seq<Seq<Cell>>, r: int, c: int) -> Cell {
    g[r][c]
}

/// The cell on a square.
pub open spec fn cell(g: Seq<Seq<Cell>>, s: Square) -> Cell {
    g[s.row as int][s.col as int]
}

/// `(r, c)` lies on the 8×8 board.
pub open spec fn inb(r: int, c: int) -> bool {
    0 <= r < 8 && 0 <= c < 8
}

/// The absolute value.
pub open spec fn abs(x: int) -> int {
    if x < 0 {
        -x
    } else {
        x
    }
}

/// The sign: -1, 0 or 1.
pub open spec fn sgn(x: int) -> int {
    if x > 0 {
        1
    } else if x < 0 {
        -1
    } else {
        0
    }
}

/// The larger of two integers.
pub open spec fn max(a: int, b: int) -> int {
    if a >= b {
        a
    } else {
        b
    }
}

/// `k` steps of unit direction `d` (`d` in `-1..=1`).
pub open spec fn step(k: int, d: int) -> int {
    if d > 0 {
        k
    } else if d < 0 {
        -k
    } else {
        0
    }
}

/// The cell `k` steps from `(r, c)` in direction `(dr, dc)`.
pub open spec fn ray_cell(g: Seq<Seq<Cell>>, r: int, c: int, dr: int, dc: int, k: int) -> Cell {
    at(g, r + step(k, dr), c + step(k, dc))
}

/// The cells `1..n` steps from `(r, c)` in direction `(dr, dc)` are empty.
pub open spec fn path_empty(g: Seq<Seq<Cell>>, r: int, c: int, dr: int, dc: int, n: int) -> bool {
    forall|k: int| 1 <= k < n ==> #[trigger] ray_cell(g, r, c, dr, dc, k) is None
}

/// Every square strictly between `(fr, fc)` and `(tr, tc)` along the line
/// joining them is empty.
pub open spec fn between_clear(g: Seq<Seq<Cell>>, fr: int, fc: int, tr: int, tc: int) -> bool {
    path_empty(g, fr, fc, sgn(tr - fr), sgn(tc - fc), max(abs(tr - fr), abs(tc - fc)))
}

/// `(tr, tc)` is on a rank, file or diagonal through `(fr, fc)`.
pub open spec fn colinear(fr: int, fc: int, tr: int, tc: int) -> bool {
    tr - fr == 0 || tc - fc == 0 || abs(tr - fr) == abs(tc - fc)
}

/// The square is empty or holds a piece of the other colour than `white`.
pub open spec fn not_friendly(g: Seq<Seq<Cell>>, r: int, c: int, white: bool) -> bool {
    match at(g, r, c) {
        None => true,
        Some(p) => white_piece(p) != white,
    }
}

/// The square holds a piece of the other colour than `white`.
pub open spec fn enemy_at(g: Seq<Seq<Cell>>, r: int, c: int, white: bool) -> bool {
    match at(g, r, c) {
        None => false,
        Some(p) => white_piece(p) != white,
    }
}

/// The occupancy tag of a square.
pub open spec fn target_at(g: Seq<Seq<Cell>>, r: int, c: int) -> Target {
    match at(g, r, c) {
        None => Target::Empty,
        Some(p) => Target::Capture(p),
    }
}

/// A straight line along a rank or a file.
pub open spec fn rook_shape(dr: int, dc: int) -> bool {
    (dr == 0) != (dc == 0)
}

/// A diagonal line.
pub open spec fn bishop_shape(dr: int, dc: int) -> bool {
    abs(dr) == abs(dc) && dr != 0
}

/// One step in any direction.
pub open spec fn king_shape(dr: int, dc: int) -> bool {
    max(abs(dr), abs(dc)) == 1
}

/// The knight's L: two squares one way and one the other.
pub open spec fn knight_shape(dr: int, dc: int) -> bool {
    (abs(dr) == 1 && abs(dc) == 2) || (abs(dr) == 2 && abs(dc) == 1)
}

/// Forward for a pawn of the colour: White moves up the board (toward row 0).
pub open spec fn pawn_dir(white: bool) -> int {
    if white {
        -1
    } else {
        1
    }
}

/// The row from which a pawn of the colour may advance two squares.
pub open spec fn pawn_base(white: bool) -> int {
    if white {
        6
    } else {
        1
    }
}

/// Piece `p` standing on `(fr, fc)` may go to the on-board square
/// `(tr, tc)`: its geometry fits, sliders are not blocked, the destination is
/// not friendly, and a pawn advances onto empty squares and takes only
/// diagonally.
pub open spec fn piece_reaches(
    g: Seq<Seq<Cell>>,
    p: Piece,
    fr: int,
    fc: int,
    tr: int,
    tc: int,
) -> bool {
    let w = white_piece(p);
    let dr = tr - fr;
    let dc = tc - fc;
    match kind_of(p) {
        Kind::King => king_shape(dr, dc) && not_friendly(g, tr, tc, w),
        Kind::Knight => knight_shape(dr, dc) && not_friendly(g, tr, tc, w),
        Kind::Rook => rook_shape(dr, dc) && between_clear(g, fr, fc, tr, tc) && not_friendly(
            g,
            tr,
            tc,
            w,
        ),
        Kind::Bishop => bishop_shape(dr, dc) && between_clear(g, fr, fc, tr, tc) && not_friendly(
            g,
            tr,
            tc,
            w,
        ),
        Kind::Queen => (rook_shape(dr, dc) || bishop_shape(dr, dc)) && between_clear(
            g,
            fr,
            fc,
            tr,
            tc,
        ) && not_friendly(g, tr, tc, w),
        Kind::Pawn => {
            let dir = pawn_dir(w);
            ||| (dc == 0 && dr == dir && at(g, tr, tc) is None)
            ||| (dc == 0 && dr == 2 * dir && fr == pawn_base(w) && at(g, fr + dir, fc) is None
                && at(g, tr, tc) is None)
            ||| (abs(dc) == 1 && dr == dir && enemy_at(g, tr, tc, w))
        },
    }
}

/// The piece on `from` may go to `to`.
pub open spec fn reaches(g: Seq<Seq<Cell>>, from: Square, to: Square) -> bool {
    match cell(g, from) {
        None => false,
        Some(p) => inb(to.row as int, to.col as int) && piece_reaches(
            g,
            p,
            from.row as int,
            from.col as int,
            to.row as int,
            to.col as int,
        ),
    }
}

/// The accessible-square entry for `sq`: the square tagged by its occupancy.
pub open spec fn entry_for(g: Seq<Seq<Cell>>, sq: Square) -> AccessibleSquare {
    AccessibleSquare { square: sq, target: target_at(g, sq.row as int, sq.col as int) }
}

/// `s` is the list of accessible squares of the piece on `from`: each entry
/// is reachable and tagged by its occupancy, every reachable square is
/// listed, and no square is listed twice.
pub open spec fn accessible_list(g: Seq<Seq<Cell>>, from: Square, s: Seq<AccessibleSquare>) -> bool {
    &&& forall|i: int|
        #![trigger s[i]]
        0 <= i < s.len() ==> reaches(g, from, s[i].square) && s[i].target == target_at(
            g,
            s[i].square.row as int,
            s[i].square.col as int,
        )
    &&& forall|sq: Square| #[trigger] reaches(g, from, sq) ==> s.contains(entry_for(g, sq))
    &&& forall|i: int, j: int| 0 <= i < j < s.len() ==> s[i].square != s[j].square
}

/// Pure geometry of a piece, ignoring blockers; a pawn's diagonal counts only
/// onto an enemy piece and its pushes only onto an empty square.
pub open spec fn shape_fits(g: Seq<Seq<Cell>>, p: Piece, from: Square, to: Square) -> bool {
    let fr = from.row as int;
    let fc = from.col as int;
    let tr = to.row as int;
    let tc = to.col as int;
    let dr = tr - fr;
    let dc = tc - fc;
    let w = white_piece(p);
    match kind_of(p) {
        Kind::King => king_shape(dr, dc),
        Kind::Knight => knight_shape(dr, dc),
        Kind::Rook => rook_shape(dr, dc),
        Kind::Bishop => bishop_shape(dr, dc),
        Kind::Queen => rook_shape(dr, dc) || bishop_shape(dr, dc),
        Kind::Pawn => {
            let dir = pawn_dir(w);
            let target_empty = at(g, tr, tc) is None;
            if dc == 0 && dr == dir && target_empty {
                true
            } else if dc == 0 && dr == 2 * dir && fr == pawn_base(w) && target_empty {
                true
            } else if abs(dc) == 1 && dr == dir {
                enemy_at(g, tr, tc, w)
            } else {
                false
            }
        },
    }
}

/// No square strictly between `from` and `to` on a line is occupied; when
/// the two squares share no line there is nothing between them.
pub open spec fn clear_path(g: Seq<Seq<Cell>>, from: Square, to: Square) -> bool {
    let fr = from.row as int;
    let fc = from.col as int;
    let tr = to.row as int;
    let tc = to.col as int;
    colinear(fr, fc, tr, tc) ==> between_clear(g, fr, fc, tr, tc)
}

/// The board after moving the piece on `from` to `to`: `from` emptied, `to`
/// holding what stood on `from` (any piece on `to` is removed).
pub open spec fn after_move(g: Seq<Seq<Cell>>, from: Square, to: Square) -> Seq<Seq<Cell>> {
    let fr = from.row as int;
    let fc = from.col as int;
    let tr = to.row as int;
    let tc = to.col as int;
    let cleared = g.update(fr, g[fr].update(fc, None));
    cleared.update(tr, cleared[tr].update(tc, g[fr][fc]))
}

/// The row-major cell index `k` of the 8×8 board.
pub open spec fn square_of_index(k: int) -> Square {
    Square { row: (k / 8) as usize, col: (k % 8) as usize }
}

/// The last square, in row-major order among the first `n` cells, that holds
/// `p`.
pub open spec fn last_square_of(g: Seq<Seq<Cell>>, p: Piece, n: int) -> Option<Square>
    decreases n,
{
    if n <= 0 {
        None
    } else if cell(g, square_of_index(n - 1)) == Some(p) {
        Some(square_of_index(n - 1))
    } else {
        last_square_of(g, p, n - 1)
    }
}

/// The king of the colour: the last one found scanning rank 8 to rank 1,
/// file a to file h.
pub open spec fn king_square(g: Seq<Seq<Cell>>, white: bool) -> Option<Square> {
    last_square_of(g, if white { Piece::WhiteKing } else { Piece::BlackKing }, 64)
}

/// A piece of the colour `by_white` on the board may go to `sq`.
pub open spec fn attacked(g: Seq<Seq<Cell>>, sq: Square, by_white: bool) -> bool {
    exists|a: Square|
        #![trigger reaches(g, a, sq)]
        inb(a.row as int, a.col as int) && cell(g, a) is Some && white_piece(cell(g, a)->0)
            == by_white && reaches(g, a, sq)
}

/// The king of colour `white` is attacked by an opposing piece; with no such
/// king on the board, no check.
pub open spec fn in_check(g: Seq<Seq<Cell>>, white: bool) -> bool {
    match king_square(g, white) {
        None => false,
        Some(k) => attacked(g, k, !white),
    }
}

/// The decision on White moving the piece on `from` to `to`: the source
/// must hold a White piece, the target must not, the target must be among the
/// piece's accessible squares (else the path is blocked when the shape fits
/// but a square between is occupied, or the shape is wrong), and the move
/// must not leave White's king attacked. A legal move yields what stood on
/// the target: the captured Black piece, or nothing.
pub open spec fn validation(g: Seq<Seq<Cell>>, from: Square, to: Square) -> Result<
    Option<Piece>,
    IllegalReason,
> {
    match cell(g, from) {
        Some(p) if white_piece(p) => {
            if cell(g, to) matches Some(q) && white_piece(q) {
                Err(IllegalReason::OwnPieceOnTarget)
            } else if !reaches(g, from, to) {
                if shape_fits(g, p, from, to) && !clear_path(g, from, to) {
                    Err(IllegalReason::PathBlocked)
                } else {
                    Err(IllegalReason::IllegalShape)
                }
            } else if in_check(after_move(g, from, to), true) {
                Err(IllegalReason::KingInCheck)
            } else {
                Ok(cell(g, to))
            }
        },
        _ => Err(IllegalReason::NotYourPiece),
    }
}

/// White's king square `e1`.
pub open spec fn white_king_home() -> Square {
    Square { row: 7, col: 4 }
}

/// The move is White's castling attempt: the White king on `e1` going two
/// squares along rank 1, to `g1` (short, king side) or `c1` (long, queen
/// side).
pub open spec fn castle_attempt(g: Seq<Seq<Cell>>, from: Square, to: Square) -> bool {
    &&& from == white_king_home()
    &&& cell(g, from) == Some(Piece::WhiteKing)
    &&& to.row == 7
    &&& (to.col == 6 || to.col == 2)
}

/// The castling availability (`both`, `short castle`, `long castle` or
/// `none`) allows castling on that side.
pub open spec fn castle_allowed(rights: Seq<char>, short: bool) -> bool {
    ||| rights == "both"@
    ||| short && rights == "short castle"@
    ||| !short && rights == "long castle"@
}

/// The corner square of the castling rook: `h1` short, `a1` long.
pub open spec fn castle_rook_from(short: bool) -> Square {
    Square { row: 7, col: if short { 7 } else { 0 } }
}

/// Where the castling rook lands, which is also the square the king passes
/// over: `f1` short, `d1` long.
pub open spec fn castle_rook_to(short: bool) -> Square {
    Square { row: 7, col: if short { 5 } else { 3 } }
}

/// Where the castling king lands: `g1` short, `c1` long.
pub open spec fn castle_king_to(short: bool) -> Square {
    Square { row: 7, col: if short { 6 } else { 2 } }
}

/// Every square between the king and the rook is empty: `f1`, `g1` short;
/// `b1`, `c1`, `d1` long.
pub open spec fn castle_path_empty(g: Seq<Seq<Cell>>, short: bool) -> bool {
    if short {
        at(g, 7, 5) is None && at(g, 7, 6) is None
    } else {
        at(g, 7, 1) is None && at(g, 7, 2) is None && at(g, 7, 3) is None
    }
}

/// The board after castling: the king from `e1` to its castling square and
/// the rook from its corner to the square the king passed over.
pub open spec fn castled(g: Seq<Seq<Cell>>, short: bool) -> Seq<Seq<Cell>> {
    after_move(
        after_move(g, white_king_home(), castle_king_to(short)),
        castle_rook_from(short),
        castle_rook_to(short),
    )
}

/// The castling right on that side is used up.
pub open spec fn side_spent(spent: CastleSpent, short: bool) -> bool {
    if short {
        spent.short
    } else {
        spent.long
    }
}

/// The rights used up once White has moved from `from` to `to`.
pub open spec fn spent_after_move(spent: CastleSpent, from: Square, to: Square) -> CastleSpent {
    CastleSpent {
        short: spent.short || from == white_king_home() || from == castle_rook_from(true) || to
            == castle_rook_from(true),
        long: spent.long || from == white_king_home() || from == castle_rook_from(false) || to
            == castle_rook_from(false),
    }
}

/// The rights used up once Black has moved onto `to` (taking a rook on its
/// corner).
pub open spec fn spent_after_reply(spent: CastleSpent, to: Square) -> CastleSpent {
    CastleSpent {
        short: spent.short || to == castle_rook_from(true),
        long: spent.long || to == castle_rook_from(false),
    }
}

/// The decision on White's castling attempt to `to`: the target must not
/// hold a White piece; the availability must allow the side, no earlier
/// king or rook move may have used the right up, and the rook must stand on
/// its corner (else the shape is illegal); the squares between king and rook
/// must be empty (else the path is blocked); and the king may not be in
/// check, pass over an attacked square or land in check. Castling takes
/// nothing.
pub open spec fn castle_validation(g: Seq<Seq<Cell>>, rights: Seq<char>, spent: CastleSpent, to: Square) -> Result<
    Option<Piece>,
    IllegalReason,
> {
    let short = to.col == 6;
    if cell(g, to) matches Some(q) && white_piece(q) {
        Err(IllegalReason::OwnPieceOnTarget)
    } else if !castle_allowed(rights, short) || side_spent(spent, short) || cell(g, castle_rook_from(short))
        != Some(Piece::WhiteRook) {
        Err(IllegalReason::IllegalShape)
    } else if !castle_path_empty(g, short) {
        Err(IllegalReason::PathBlocked)
    } else if in_check(g, true) || in_check(after_move(g, white_king_home(), castle_rook_to(short)), true)
        || in_check(castled(g, short), true) {
        Err(IllegalReason::KingInCheck)
    } else {
        Ok(None)
    }
}

/// The move is White's en-passant capture: a White pawn on rank 5 stepping
/// diagonally onto the empty square `ep` that a Black pawn, now beside it on
/// rank 5, skipped over with its two-square advance on the last move.
pub open spec fn en_passant_attempt(g: Seq<Seq<Cell>>, ep: Option<Square>, from: Square, to: Square) -> bool {
    &&& ep == Some(to)
    &&& cell(g, from) == Some(Piece::WhitePawn)
    &&& from.row == 3
    &&& to.row == 2
    &&& abs(to.col - from.col) == 1
    &&& cell(g, to) is None
    &&& at(g, 3, to.col as int) == Some(Piece::BlackPawn)
}

/// The board after White's en-passant capture: the pawn moved to `to` and
/// the Black pawn it passes, on rank 5 below `to`, removed.
pub open spec fn en_passant_board(g: Seq<Seq<Cell>>, from: Square, to: Square) -> Seq<Seq<Cell>> {
    let moved = after_move(g, from, to);
    moved.update(3, moved[3].update(to.col as int, None))
}

/// The decision on White's en-passant capture: it takes the Black pawn,
/// unless it would leave White's king attacked.
pub open spec fn en_passant_validation(g: Seq<Seq<Cell>>, from: Square, to: Square) -> Result<
    Option<Piece>,
    IllegalReason,
> {
    if in_check(en_passant_board(g, from, to), true) {
        Err(IllegalReason::KingInCheck)
    } else {
        Ok(Some(Piece::BlackPawn))
    }
}

/// The decision on a White move given White's castling availability
/// `rights`, the rights already used up `spent`, and the square `ep` open to
/// an en-passant capture: a castling
/// attempt is decided by the castling rules, an en-passant capture by its
/// own, and any other move by the ordinary rules.
pub open spec fn move_validation(
    g: Seq<Seq<Cell>>,
    rights: Seq<char>,
    spent: CastleSpent,
    ep: Option<Square>,
    from: Square,
    to: Square,
) -> Result<Option<Piece>, IllegalReason> {
    if castle_attempt(g, from, to) {
        castle_validation(g, rights, spent, to)
    } else if en_passant_attempt(g, ep, from, to) {
        en_passant_validation(g, from, to)
    } else {
        validation(g, from, to)
    }
}

/// The enumeration and the per-check decision define the same pseudo-legal
/// set: a piece may go to an on-board square exactly when its shape fits,
/// nothing stands between the two squares, and the target is not friendly.
pub proof fn lemma_reach_iff_shape_and_path(g: Seq<Seq<Cell>>, from: Square, to: Square)
    requires
        covers_board(g),
        inb(from.row as int, from.col as int),
        inb(to.row as int, to.col as int),
        cell(g, from) is Some,
    ensures
        reaches(g, from, to) <==> shape_fits(g, cell(g, from)->0, from, to) && clear_path(
            g,
            from,
            to,
        ) && not_friendly(g, to.row as int, to.col as int, white_piece(cell(g, from)->0)),
{
    let p = cell(g, from)->0;
    let fr = from.row as int;
    let fc = from.col as int;
    let tr = to.row as int;
    let tc = to.col as int;
    let w = white_piece(p);
    if kind_of(p) == Kind::Pawn {
        if tc == fc && tr - fr == 2 * pawn_dir(w) {
            assert(step(1, sgn(tr - fr)) == pawn_dir(w));
            assert(ray_cell(g, fr, fc, sgn(tr - fr), sgn(tc - fc), 1) == at(g, fr + pawn_dir(w), fc));
            if at(g, fr + pawn_dir(w), fc) is None {
                assert forall|k: int| 1 <= k < 2 implies #[trigger] ray_cell(
                    g,
                    fr,
                    fc,
                    sgn(tr - fr),
                    sgn(tc - fc),
                    k,
                ) is None by {
                    assert(k == 1);
                }
            }
            assert(reaches(g, from, to) == (shape_fits(g, p, from, to) && clear_path(g, from, to)
                && not_friendly(g, tr, tc, w)));
        } else {
            assert(reaches(g, from, to) == (shape_fits(g, p, from, to) && clear_path(g, from, to)
                && not_friendly(g, tr, tc, w)));
        }
    } else {
        assert(reaches(g, from, to) == (shape_fits(g, p, from, to) && clear_path(g, from, to)
            && not_friendly(g, tr, tc, w)));
    }
}

/// No piece may go onto a square held by a piece of its own colour.
pub proof fn lemma_never_onto_own_piece(g: Seq<Seq<Cell>>, from: Square, to: Square)
    requires
        reaches(g, from, to),
    ensures
        cell(g, to) matches Some(q) ==> white_piece(q) != white_piece(cell(g, from)->0),
{
}

/// A king or knight step has nothing between its two squares.
pub proof fn lemma_steps_are_clear(g: Seq<Seq<Cell>>, from: Square, to: Square)
    requires
        king_shape(to.row - from.row, to.col - from.col) || knight_shape(
            to.row - from.row,
            to.col - from.col,
        ),
    ensures
        clear_path(g, from, to),
{
}

/// Moving a piece empties its source, puts it on the target (removing what
/// stood there), and leaves every other cell as it was.
pub proof fn lemma_after_move_cells(g: Seq<Seq<Cell>>, from: Square, to: Square, r: int, c: int)
    requires
        covers_board(g),
        inb(from.row as int, from.col as int),
        inb(to.row as int, to.col as int),
        inb(r, c),
    ensures
        cell(after_move(g, from, to), to) == cell(g, from),
        from != to ==> cell(after_move(g, from, to), from) is None,
        (r != from.row || c != from.col) && (r != to.row || c != to.col) ==> at(
            after_move(g, from, to),
            r,
            c,
        ) == at(g, r, c),
{
}

/// A move that validation accepts moves a White piece to one of its
/// accessible squares, does not leave White's king attacked, and takes at
/// most a Black piece.
pub proof fn lemma_accepted_move(g: Seq<Seq<Cell>>, from: Square, to: Square)
    requires
        validation(g, from, to) is Ok,
    ensures
        cell(g, from) matches Some(p) && white_piece(p),
        reaches(g, from, to),
        !in_check(after_move(g, from, to), true),
        validation(g, from, to) == Ok::<Option<Piece>, IllegalReason>(cell(g, to)),
        cell(g, to) matches Some(q) ==> !white_piece(q),
{
}

/// Castling, once accepted, puts the king on `g1` (`c1`) and the rook on
/// `f1` (`d1`), empties `e1` and the rook's corner, leaves every other
/// square as it was, and does not leave White's king attacked; the side
/// was allowed and its right not used up.
pub proof fn lemma_castling_moves_king_and_rook(
    g: Seq<Seq<Cell>>,
    rights: Seq<char>,
    spent: CastleSpent,
    to: Square,
    r: int,
    c: int,
)
    requires
        covers_board(g),
        castle_attempt(g, white_king_home(), to),
        castle_validation(g, rights, spent, to) is Ok,
        inb(r, c),
    ensures
        ({
            let short = to.col == 6;
            let h = castled(g, short);
            &&& cell(h, castle_king_to(short)) == Some(Piece::WhiteKing)
            &&& cell(h, castle_rook_to(short)) == Some(Piece::WhiteRook)
            &&& cell(h, white_king_home()) is None
            &&& cell(h, castle_rook_from(short)) is None
            &&& !in_check(h, true)
            &&& castle_allowed(rights, short) && !side_spent(spent, short)
            &&& (r != 7 || (c != 4 && c != castle_king_to(short).col && c != castle_rook_to(short).col
                && c != castle_rook_from(short).col)) ==> at(h, r, c) == at(g, r, c)
        }),
{
}

/// An accepted en-passant capture moves the White pawn to `to`, removes the
/// Black pawn beside its source, takes that pawn, and leaves every other
/// square as it was; ordinary rules alone would refuse the move (a pawn's
/// diagonal step needs an enemy on its target).
pub proof fn lemma_en_passant_takes_the_passing_pawn(
    g: Seq<Seq<Cell>>,
    ep: Option<Square>,
    from: Square,
    to: Square,
    r: int,
    c: int,
)
    requires
        covers_board(g),
        inb(from.row as int, from.col as int),
        inb(to.row as int, to.col as int),
        en_passant_attempt(g, ep, from, to),
        en_passant_validation(g, from, to) is Ok,
        inb(r, c),
    ensures
        ({
            let h = en_passant_board(g, from, to);
            &&& cell(h, to) == Some(Piece::WhitePawn)
            &&& cell(h, from) is None
            &&& at(h, 3, to.col as int) is None
            &&& en_passant_validation(g, from, to) == Ok::<Option<Piece>, IllegalReason>(Some(Piece::BlackPawn))
            &&& !in_check(h, true)
            &&& validation(g, from, to) is Err
            &&& (r != from.row || c != from.col) && (r != to.row || c != to.col) && (r != 3 || c != to.col)
                ==> at(h, r, c) == at(g, r, c)
        }),
{
    assert(!reaches(g, from, to));
}

/// A White move that its piece may make and that leaves White's king
/// unattacked is accepted, taking whatever stood on the target; whether
/// White was in check before the move plays no part (stepping out of check
/// is a move like any other).
pub proof fn lemma_safe_move_is_accepted(g: Seq<Seq<Cell>>, from: Square, to: Square)
    requires
        cell(g, from) matches Some(p) && white_piece(p),
        reaches(g, from, to),
        !in_check(after_move(g, from, to), true),
    ensures
        validation(g, from, to) == Ok::<Option<Piece>, IllegalReason>(cell(g, to)),
{
}

/// Row-major index `i` of the 8×8 board names the square on row `i / 8`,
/// column `i % 8`, and each on-board square has exactly one such index.
proof fn lemma_index_square(i: int, s: Square)
    requires
        0 <= i < 64,
    ensures
        inb(square_of_index(i).row as int, square_of_index(i).col as int),
        square_of_index(i) == s ==> i == 8 * s.row + s.col,
        inb(s.row as int, s.col as int) && i == 8 * s.row + s.col ==> square_of_index(i) == s,
{
    vstd::arithmetic::div_mod::lemma_fundamental_div_mod(i, 8);
    vstd::arithmetic::div_mod::lemma_mod_bound(i, 8);
    if inb(s.row as int, s.col as int) && i == 8 * s.row + s.col {
        vstd::arithmetic::div_mod::lemma_fundamental_div_mod_converse(i, 8, s.row as int, s.col as int);
    }
}

/// Scanning the first `n` cells finds `p` on `k` when `k` lies among them
/// and no other square holds `p`.
proof fn lemma_only_square_of(g: Seq<Seq<Cell>>, p: Piece, k: Square, n: int)
    requires
        0 <= n <= 64,
        inb(k.row as int, k.col as int),
        cell(g, k) == Some(p),
        forall|s: Square| inb(s.row as int, s.col as int) && s != k ==> cell(g, s) != Some(p),
    ensures
        last_square_of(g, p, n) == (if 8 * k.row + k.col < n {
            Some(k)
        } else {
            None
        }),
    decreases n,
{
    if n > 0 {
        lemma_index_square(n - 1, k);
        lemma_only_square_of(g, p, k, n - 1);
    }
}

/// A king stands in check when an enemy king is on a neighbouring square:
/// with one king of each colour on the board, side by side, both kings are
/// in check.
pub proof fn lemma_adjacent_kings_are_in_check(g: Seq<Seq<Cell>>, wk: Square, bk: Square)
    requires
        inb(wk.row as int, wk.col as int),
        inb(bk.row as int, bk.col as int),
        wk != bk,
        -1 <= wk.row - bk.row <= 1,
        -1 <= wk.col - bk.col <= 1,
        cell(g, wk) == Some(Piece::WhiteKing),
        cell(g, bk) == Some(Piece::BlackKing),
        forall|s: Square| inb(s.row as int, s.col as int) && s != wk ==> cell(g, s) != Some(Piece::WhiteKing),
        forall|s: Square| inb(s.row as int, s.col as int) && s != bk ==> cell(g, s) != Some(Piece::BlackKing),
    ensures
        in_check(g, true),
        in_check(g, false),
{
    lemma_only_square_of(g, Piece::WhiteKing, wk, 64);
    lemma_only_square_of(g, Piece::BlackKing, bk, 64);
    assert(reaches(g, bk, wk));
    assert(reaches(g, wk, bk));
}

/// A king is in check exactly when some opposing piece on the board, of
/// any kind, kings included, may go to the king's square; without a king on
/// the board there is no check.
pub proof fn lemma_check_is_an_attack_by_any_piece(g: Seq<Seq<Cell>>, white: bool)
    ensures
        in_check(g, white) <==> (king_square(g, white) matches Some(k) && exists|a: Square|
            #![trigger reaches(g, a, k)]
            inb(a.row as int, a.col as int) && cell(g, a) is Some && white_piece(cell(g, a)->0)
                != white && reaches(g, a, k)),
{
}

} // verus!
