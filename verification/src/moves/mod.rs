//! The authoritative move validator: pure chess geometry
//! (`accessible_squares`, `legal_shape`, `path_clear`, `board_after`,
//! `is_in_check`, `validate_move`), White's castling (`validate_castle`,
//! `castled_board`), and the business step `move_piece` that applies a
//! validated White move to a stored game.
//!
//! The board is the overview grid: `board[0]` is rank 8, `board[7]` is rank
//! 1; column 0 is file `a`, column 7 is file `h`.

pub mod rules;

use vstd::prelude::*;
use vstd::string::*;

use crate::game::overview::{Cell, Overview, OverviewView, grid, copy_board, set_cell, grid_set, wf_grid};
use crate::game::{Game, GameView, Registry, copy_pieces, storable};
use crate::outside::{parse_uuid, parsed_uuid};
use crate::game::piece::{Kind, Piece, kind_of, white_piece};
use crate::game::square::{Square, on_board};
pub use self::rules::{AccessibleSquare, CastleSpent, IllegalReason, Target};
use self::rules::{
    abs, after_move, attacked, clear_path, colinear, in_check, king_square, last_square_of,
    shape_fits, square_of_index, validation, accessible_list, at, between_clear, bishop_shape, cell,
    covers_board, inb, king_shape, knight_shape, max, not_friendly, path_empty, pawn_base,
    pawn_dir, reaches, entry_for, rook_shape, sgn, step, target_at, ray_cell, enemy_at,
    castle_allowed, castle_attempt, castle_king_to, castle_path_empty, castle_rook_from,
    castle_rook_to, castle_validation, castled, move_validation, white_king_home,
    en_passant_attempt, en_passant_board, en_passant_validation, side_spent, spent_after_move,
};

verus! {

/// The cell at `(r, c)` of a board that covers the 8×8 squares.
pub fn get_cell(board: &Vec<Vec<Cell>>, r: usize, c: usize) -> (res: Cell)
    requires
        covers_board(grid(board@)),
        r < 8,
        c < 8,
    ensures
        res == at(grid(board@), r as int, c as int),
{
    assert(board@[r as int]@ == grid(board@)[r as int]);
    board[r][c]
}

/// Every listed square is reachable from `from` and tagged by its occupancy.
pub open spec fn sound_list(g: Seq<Seq<Cell>>, from: Square, s: Seq<AccessibleSquare>) -> bool {
    forall|i: int|
        #![trigger s[i]]
        0 <= i < s.len() ==> reaches(g, from, s[i].square) && s[i].target == target_at(
            g,
            s[i].square.row as int,
            s[i].square.col as int,
        )
}

/// Ordering key of a king or knight destination: its offset from `from`.
pub open spec fn off_key(from: Square, sq: Square) -> int {
    (sq.row as int - from.row as int + 2) * 5 + (sq.col as int - from.col as int + 2)
}

/// Index of a unit direction in the queen's scanning order.
pub open spec fn dir_index(dr: int, dc: int) -> int {
    if dr == -1 && dc == 0 {
        0
    } else if dr == 1 && dc == 0 {
        1
    } else if dr == 0 && dc == -1 {
        2
    } else if dr == 0 && dc == 1 {
        3
    } else if dr == -1 && dc == -1 {
        4
    } else if dr == -1 && dc == 1 {
        5
    } else if dr == 1 && dc == -1 {
        6
    } else {
        7
    }
}

/// Ordering key of a slider destination: its direction, then its distance.
pub open spec fn ray_key(from: Square, sq: Square) -> int {
    let dr = sq.row as int - from.row as int;
    let dc = sq.col as int - from.col as int;
    dir_index(sgn(dr), sgn(dc)) * 8 + max(abs(dr), abs(dc))
}

/// Ordering key of a destination; `ray` selects the slider key.
pub open spec fn dest_key(from: Square, sq: Square, ray: bool) -> int {
    if ray {
        ray_key(from, sq)
    } else {
        off_key(from, sq)
    }
}

/// The keys of the listed squares strictly increase.
pub open spec fn keys_sorted(from: Square, s: Seq<AccessibleSquare>, ray: bool) -> bool {
    forall|i: int, j: int|
        0 <= i < j < s.len() ==> #[trigger] dest_key(from, s[i].square, ray) < #[trigger] dest_key(
            from,
            s[j].square,
            ray,
        )
}

/// Ordering key of a pawn destination: the single push, the double push,
/// then the diagonal toward file `a`, then the one toward file `h`.
pub open spec fn pawn_key(from: Square, sq: Square) -> int {
    let dr = sq.row as int - from.row as int;
    let dc = sq.col as int - from.col as int;
    if dc == 0 {
        abs(dr)
    } else if dc < 0 {
        3
    } else {
        4
    }
}

/// Ordering key of a destination of the piece on `from`: a king's or
/// knight's offset in row-major order; a rook's, bishop's or queen's
/// direction (north, south, west, east, north-west, north-east, south-west,
/// south-east) then distance; a pawn's push before its diagonals.
pub open spec fn order_key(g: Seq<Seq<Cell>>, from: Square, sq: Square) -> int {
    match cell(g, from) {
        Some(p) => match kind_of(p) {
            Kind::King | Kind::Knight => off_key(from, sq),
            Kind::Pawn => pawn_key(from, sq),
            _ => ray_key(from, sq),
        },
        None => 0,
    }
}

/// The list runs in increasing order of its destinations' keys.
pub open spec fn listed_in_order(g: Seq<Seq<Cell>>, from: Square, s: Seq<AccessibleSquare>) -> bool {
    forall|i: int, j: int|
        0 <= i < j < s.len() ==> #[trigger] order_key(g, from, s[i].square) < #[trigger] order_key(
            g,
            from,
            s[j].square,
        )
}

/// Every listed key is below `bound`.
pub open spec fn keys_below(from: Square, s: Seq<AccessibleSquare>, ray: bool, bound: int) -> bool {
    forall|i: int| 0 <= i < s.len() ==> #[trigger] dest_key(from, s[i].square, ray) < bound
}

/// The destination `(dr, dc)` away from `from`, tagged by occupancy.
pub open spec fn dest(g: Seq<Seq<Cell>>, from: Square, dr: int, dc: int) -> AccessibleSquare {
    let tr = from.row as int + dr;
    let tc = from.col as int + dc;
    AccessibleSquare { square: Square { row: tr as usize, col: tc as usize }, target: target_at(g, tr, tc) }
}

/// Appending a reachable, correctly tagged square with a key above all
/// present keys keeps the list sound, sorted and bounded, and keeps every
/// present entry.
proof fn lemma_push_entry(
    g: Seq<Seq<Cell>>,
    from: Square,
    before: Seq<AccessibleSquare>,
    a: AccessibleSquare,
    ray: bool,
    bound: int,
)
    requires
        sound_list(g, from, before),
        keys_sorted(from, before, ray),
        keys_below(from, before, ray, bound),
        reaches(g, from, a.square),
        a.target == target_at(g, a.square.row as int, a.square.col as int),
        dest_key(from, a.square, ray) >= bound,
    ensures
        sound_list(g, from, before.push(a)),
        keys_sorted(from, before.push(a), ray),
        keys_below(from, before.push(a), ray, dest_key(from, a.square, ray) + 1),
        forall|x: AccessibleSquare| before.contains(x) ==> before.push(a).contains(x),
        before.push(a).contains(a),
{
    let s = before.push(a);
    assert(s[before.len() as int] == a);
    assert forall|i: int| 0 <= i < s.len() implies reaches(g, from, s[i].square) && s[i].target
        == target_at(g, s[i].square.row as int, s[i].square.col as int) by {
        if i < before.len() {
            assert(s[i] == before[i]);
        }
    }
    assert forall|i: int, j: int| 0 <= i < j < s.len() implies #[trigger] dest_key(from, s[i].square, ray)
        < #[trigger] dest_key(from, s[j].square, ray) by {
        assert(s[i] == before[i]);
        if j < before.len() {
            assert(s[j] == before[j]);
        }
    }
    assert forall|i: int| 0 <= i < s.len() implies #[trigger] dest_key(from, s[i].square, ray)
        < dest_key(from, a.square, ray) + 1 by {
        if i < before.len() {
            assert(s[i] == before[i]);
        }
    }
    assert forall|x: AccessibleSquare| before.contains(x) implies s.contains(x) by {
        let i = choose|i: int| 0 <= i < before.len() && before[i] == x;
        assert(s[i] == x);
    }
}

/// A king or knight step: list `from + (dr, dc)` when it is on the board and
/// not friendly.
fn try_step(
    board: &Vec<Vec<Cell>>,
    from: Square,
    white: bool,
    dr: i64,
    dc: i64,
    out: &mut Vec<AccessibleSquare>,
)
    requires
        covers_board(grid(board@)),
        on_board(from),
        -2 <= dr <= 2,
        -2 <= dc <= 2,
        cell(grid(board@), from) matches Some(p) && white_piece(p) == white && ((kind_of(p)
            == Kind::King && king_shape(dr as int, dc as int)) || (kind_of(p) == Kind::Knight
            && knight_shape(dr as int, dc as int))),
        sound_list(grid(board@), from, old(out)@),
        keys_sorted(from, old(out)@, false),
        keys_below(from, old(out)@, false, 5 * dr + dc + 12),
    ensures
        sound_list(grid(board@), from, final(out)@),
        keys_sorted(from, final(out)@, false),
        keys_below(from, final(out)@, false, 5 * dr + dc + 13),
        forall|x: AccessibleSquare| old(out)@.contains(x) ==> final(out)@.contains(x),
        inb(from.row + dr, from.col + dc) && not_friendly(
            grid(board@),
            from.row + dr,
            from.col + dc,
            white,
        ) ==> final(out)@.contains(dest(grid(board@), from, dr as int, dc as int)),
{
    let ghost g = grid(board@);
    let ghost old_out = out@;
    let nr = from.row as i64 + dr;
    let nc = from.col as i64 + dc;
    if 0 <= nr && nr < 8 && 0 <= nc && nc < 8 {
        let ur = nr as usize;
        let uc = nc as usize;
        let found = match get_cell(board, ur, uc) {
            None => Some(AccessibleSquare { square: Square::new(ur, uc), target: Target::Empty }),
            Some(p) => {
                if p.is_white() != white {
                    Some(AccessibleSquare { square: Square::new(ur, uc), target: Target::Capture(p) })
                } else {
                    None
                }
            },
        };
        if let Some(a) = found {
            proof {
                assert(a == dest(g, from, dr as int, dc as int));
                assert(reaches(g, from, a.square));
                lemma_push_entry(g, from, out@, a, false, 5 * dr + dc + 12);
            }
            out.push(a);
        }
    }
}

/// All steps of a king (`knight == false`) or knight on `from`.
fn stepper_squares(board: &Vec<Vec<Cell>>, from: Square, white: bool, knight: bool) -> (res: Vec<
    AccessibleSquare,
>)
    requires
        covers_board(grid(board@)),
        on_board(from),
        cell(grid(board@), from) matches Some(p) && white_piece(p) == white && kind_of(p) == (if knight {
            Kind::Knight
        } else {
            Kind::King
        }),
    ensures
        accessible_list(grid(board@), from, res@),
        keys_sorted(from, res@, false),
{
    let ghost g = grid(board@);
    let mut out: Vec<AccessibleSquare> = Vec::new();
    if knight {
        try_step(board, from, white, -2, -1, &mut out);
        try_step(board, from, white, -2, 1, &mut out);
        try_step(board, from, white, -1, -2, &mut out);
        try_step(board, from, white, -1, 2, &mut out);
        try_step(board, from, white, 1, -2, &mut out);
        try_step(board, from, white, 1, 2, &mut out);
        try_step(board, from, white, 2, -1, &mut out);
        try_step(board, from, white, 2, 1, &mut out);
    } else {
        try_step(board, from, white, -1, -1, &mut out);
        try_step(board, from, white, -1, 0, &mut out);
        try_step(board, from, white, -1, 1, &mut out);
        try_step(board, from, white, 0, -1, &mut out);
        try_step(board, from, white, 0, 1, &mut out);
        try_step(board, from, white, 1, -1, &mut out);
        try_step(board, from, white, 1, 0, &mut out);
        try_step(board, from, white, 1, 1, &mut out);
    }
    proof {
        assert forall|sq: Square| reaches(g, from, sq) implies out@.contains(entry_for(g, sq)) by {
            let dr = sq.row as int - from.row as int;
            let dc = sq.col as int - from.col as int;
            assert(dest(g, from, dr, dc) == entry_for(g, sq));
        }
        assert(sound_list(g, from, out@));
        assert(forall|sq: Square| #[trigger] reaches(g, from, sq) ==> out@.contains(entry_for(g, sq)));
        assert forall|i: int, j: int| 0 <= i < j < out@.len() implies out@[i].square
            != out@[j].square by {
            assert(dest_key(from, out@[i].square, false) < dest_key(from, out@[j].square, false));
        }
    }
    out
}


/// The square `k` steps from `from` in direction `(dr, dc)`, tagged.
pub open spec fn ray_dest(g: Seq<Seq<Cell>>, from: Square, dr: int, dc: int, k: int) -> AccessibleSquare {
    dest(g, from, step(k, dr), step(k, dc))
}

/// A slider may travel in direction `(dr, dc)`.
pub open spec fn slider_dir(p: Piece, dr: int, dc: int) -> bool {
    match kind_of(p) {
        Kind::Rook => rook_shape(dr, dc),
        Kind::Bishop => bishop_shape(dr, dc),
        Kind::Queen => rook_shape(dr, dc) || bishop_shape(dr, dc),
        _ => false,
    }
}

/// Walk one ray from `from` until the first occupied square: an enemy there
/// is listed as a capture and ends the ray, a friendly piece ends it unlisted.
fn push_ray(
    board: &Vec<Vec<Cell>>,
    from: Square,
    white: bool,
    dr: i64,
    dc: i64,
    out: &mut Vec<AccessibleSquare>,
)
    requires
        covers_board(grid(board@)),
        on_board(from),
        -1 <= dr <= 1,
        -1 <= dc <= 1,
        cell(grid(board@), from) matches Some(p) && white_piece(p) == white && slider_dir(
            p,
            dr as int,
            dc as int,
        ),
        sound_list(grid(board@), from, old(out)@),
        keys_sorted(from, old(out)@, true),
        keys_below(from, old(out)@, true, dir_index(dr as int, dc as int) * 8 + 1),
    ensures
        sound_list(grid(board@), from, final(out)@),
        keys_sorted(from, final(out)@, true),
        keys_below(from, final(out)@, true, dir_index(dr as int, dc as int) * 8 + 8),
        forall|x: AccessibleSquare| old(out)@.contains(x) ==> final(out)@.contains(x),
        forall|k: int|
            1 <= k && inb(from.row + step(k, dr as int), from.col + step(k, dc as int))
                && path_empty(grid(board@), from.row as int, from.col as int, dr as int, dc as int, k)
                && not_friendly(
                grid(board@),
                from.row + step(k, dr as int),
                from.col + step(k, dc as int),
                white,
            ) ==> final(out)@.contains(#[trigger] ray_dest(grid(board@), from, dr as int, dc as int, k)),
{
    let ghost g = grid(board@);
    let ghost old_out = out@;
    let ghost d = dir_index(dr as int, dc as int);
    let ghost p0 = cell(g, from)->0;
    let mut k: i64 = 1;
    let mut nr: i64 = from.row as i64 + dr;
    let mut nc: i64 = from.col as i64 + dc;
    let mut go = true;
    while go && 0 <= nr && nr < 8 && 0 <= nc && nc < 8
        invariant
            covers_board(g),
            g == grid(board@),
            on_board(from),
            -1 <= dr <= 1,
            -1 <= dc <= 1,
            cell(g, from) == Some(p0),
            white_piece(p0) == white,
            slider_dir(p0, dr as int, dc as int),
            d == dir_index(dr as int, dc as int),
            1 <= k <= 8,
            nr == from.row + step(k as int, dr as int),
            nc == from.col + step(k as int, dc as int),
            go ==> path_empty(g, from.row as int, from.col as int, dr as int, dc as int, k as int),
            sound_list(g, from, out@),
            keys_sorted(from, out@, true),
            keys_below(from, out@, true, d * 8 + k),
            forall|x: AccessibleSquare| old_out.contains(x) ==> out@.contains(x),
            forall|j: int|
                1 <= j < k && inb(from.row + step(j, dr as int), from.col + step(j, dc as int))
                    && path_empty(g, from.row as int, from.col as int, dr as int, dc as int, j)
                    && not_friendly(g, from.row + step(j, dr as int), from.col + step(j, dc as int), white)
                    ==> out@.contains(#[trigger] ray_dest(g, from, dr as int, dc as int, j)),
            !go ==> forall|j: int|
                j >= k ==> !(#[trigger] path_empty(g, from.row as int, from.col as int, dr as int, dc as int, j)
                    && not_friendly(g, from.row + step(j, dr as int), from.col + step(j, dc as int), white)),
        decreases 9 - k - (if go { 0int } else { 1int }),
    {
        let ur = nr as usize;
        let uc = nc as usize;
        let c = get_cell(board, ur, uc);
        let ghost before = out@;
        let ghost kk = k as int;
        match c {
            None => {
                let a = AccessibleSquare { square: Square::new(ur, uc), target: Target::Empty };
                proof {
                    assert(a == ray_dest(g, from, dr as int, dc as int, kk));
                    assert(reaches(g, from, a.square));
                    assert(dest_key(from, a.square, true) == d * 8 + kk);
                    lemma_push_entry(g, from, out@, a, true, d * 8 + kk);
                }
                out.push(a);
                proof {
                    assert forall|j: int| 1 <= j < kk + 1 && inb(from.row + step(j, dr as int), from.col + step(j, dc as int))
                        && path_empty(g, from.row as int, from.col as int, dr as int, dc as int, j)
                        && not_friendly(g, from.row + step(j, dr as int), from.col + step(j, dc as int), white)
                        implies out@.contains(ray_dest(g, from, dr as int, dc as int, j)) by {
                        if j < kk {
                            assert(before.contains(ray_dest(g, from, dr as int, dc as int, j)));
                        }
                    }
                    assert(path_empty(g, from.row as int, from.col as int, dr as int, dc as int, kk + 1)) by {
                        assert forall|j: int| 1 <= j < kk + 1 implies #[trigger] ray_cell(g, from.row as int, from.col as int, dr as int, dc as int, j) is None by {
                            if j < kk {
                                assert(ray_cell(g, from.row as int, from.col as int, dr as int, dc as int, j) is None);
                            }
                        }
                    }
                }
                k = k + 1;
                nr = nr + dr;
                nc = nc + dc;
            },
            Some(p) => {
                proof {
                    assert(ray_cell(g, from.row as int, from.col as int, dr as int, dc as int, kk) == Some(p));
                }
                if p.is_white() != white {
                    let a = AccessibleSquare { square: Square::new(ur, uc), target: Target::Capture(p) };
                    proof {
                        assert(a == ray_dest(g, from, dr as int, dc as int, kk));
                        assert(reaches(g, from, a.square));
                        assert(dest_key(from, a.square, true) == d * 8 + kk);
                        lemma_push_entry(g, from, out@, a, true, d * 8 + kk);
                    }
                    out.push(a);
                    proof {
                        assert forall|j: int| 1 <= j < kk + 1 && inb(from.row + step(j, dr as int), from.col + step(j, dc as int))
                            && path_empty(g, from.row as int, from.col as int, dr as int, dc as int, j)
                            && not_friendly(g, from.row + step(j, dr as int), from.col + step(j, dc as int), white)
                            implies out@.contains(ray_dest(g, from, dr as int, dc as int, j)) by {
                            if j < kk {
                                assert(before.contains(ray_dest(g, from, dr as int, dc as int, j)));
                            }
                        }
                        assert forall|j: int| j >= kk + 1 implies !(#[trigger] path_empty(g, from.row as int, from.col as int, dr as int, dc as int, j)
                            && not_friendly(g, from.row + step(j, dr as int), from.col + step(j, dc as int), white)) by {
                            if path_empty(g, from.row as int, from.col as int, dr as int, dc as int, j) {
                                assert(ray_cell(g, from.row as int, from.col as int, dr as int, dc as int, kk) is None);
                            }
                        }
                    }
                    k = k + 1;
                    nr = nr + dr;
                    nc = nc + dc;
                    go = false;
                } else {
                    proof {
                        assert forall|j: int| j >= kk implies !(#[trigger] path_empty(g, from.row as int, from.col as int, dr as int, dc as int, j)
                            && not_friendly(g, from.row + step(j, dr as int), from.col + step(j, dc as int), white)) by {
                            if j > kk && path_empty(g, from.row as int, from.col as int, dr as int, dc as int, j) {
                                assert(ray_cell(g, from.row as int, from.col as int, dr as int, dc as int, kk) is None);
                            }
                        }
                    }
                    go = false;
                }
            },
        }
    }
    proof {
        assert forall|j: int|
            1 <= j && inb(from.row + step(j, dr as int), from.col + step(j, dc as int))
                && path_empty(g, from.row as int, from.col as int, dr as int, dc as int, j)
                && not_friendly(g, from.row + step(j, dr as int), from.col + step(j, dc as int), white)
                implies out@.contains(#[trigger] ray_dest(g, from, dr as int, dc as int, j)) by {
            if j >= k {
                if go {
                    // the walk left the board at step k, and stays off it beyond
                    assert(!inb(from.row + step(j, dr as int), from.col + step(j, dc as int)));
                }
            }
        }
        assert forall|i: int| 0 <= i < out@.len() implies #[trigger] dest_key(from, out@[i].square, true) < d * 8 + 8 by {
            assert(dest_key(from, out@[i].square, true) < d * 8 + k);
        }
    }
}

/// All destinations of a rook, bishop or queen on `from`: the four files and
/// ranks when `orth`, then the four diagonals when `diag`.
fn slider_squares(board: &Vec<Vec<Cell>>, from: Square, white: bool, orth: bool, diag: bool) -> (res: Vec<
    AccessibleSquare,
>)
    requires
        covers_board(grid(board@)),
        on_board(from),
        cell(grid(board@), from) matches Some(p) && white_piece(p) == white && (kind_of(p) == Kind::Rook
            && orth && !diag || kind_of(p) == Kind::Bishop && !orth && diag || kind_of(p) == Kind::Queen
            && orth && diag),
    ensures
        accessible_list(grid(board@), from, res@),
        keys_sorted(from, res@, true),
{
    let ghost g = grid(board@);
    let mut out: Vec<AccessibleSquare> = Vec::new();
    if orth {
        push_ray(board, from, white, -1, 0, &mut out);
        push_ray(board, from, white, 1, 0, &mut out);
        push_ray(board, from, white, 0, -1, &mut out);
        push_ray(board, from, white, 0, 1, &mut out);
    }
    if diag {
        push_ray(board, from, white, -1, -1, &mut out);
        push_ray(board, from, white, -1, 1, &mut out);
        push_ray(board, from, white, 1, -1, &mut out);
        push_ray(board, from, white, 1, 1, &mut out);
    }
    proof {
        assert forall|sq: Square| #[trigger] reaches(g, from, sq) implies out@.contains(entry_for(g, sq)) by {
            let dr = sq.row as int - from.row as int;
            let dc = sq.col as int - from.col as int;
            let n = max(abs(dr), abs(dc));
            assert(ray_dest(g, from, sgn(dr), sgn(dc), n) == entry_for(g, sq));
        }
        assert forall|i: int, j: int| 0 <= i < j < out@.len() implies out@[i].square != out@[j].square by {
            assert(dest_key(from, out@[i].square, true) < dest_key(from, out@[j].square, true));
        }
    }
    out
}

/// A pawn's diagonal: list `(one, from.col + dc)` when it holds an enemy.
fn pawn_diag(
    board: &Vec<Vec<Cell>>,
    from: Square,
    white: bool,
    one: i64,
    dc: i64,
    out: &mut Vec<AccessibleSquare>,
)
    requires
        covers_board(grid(board@)),
        on_board(from),
        dc == -1 || dc == 1,
        one == from.row + pawn_dir(white),
    ensures
        ({
            let tc = from.col + dc;
            if inb(one as int, tc) && enemy_at(grid(board@), one as int, tc, white) {
                final(out)@ == old(out)@.push(dest(grid(board@), from, pawn_dir(white), dc as int))
            } else {
                final(out)@ == old(out)@
            }
        }),
{
    let nc = from.col as i64 + dc;
    if 0 <= one && one < 8 && 0 <= nc && nc < 8 {
        let ur = one as usize;
        let uc = nc as usize;
        if let Some(p) = get_cell(board, ur, uc) {
            if p.is_white() != white {
                out.push(AccessibleSquare { square: Square::new(ur, uc), target: Target::Capture(p) });
            }
        }
    }
}

/// All destinations of a pawn on `from`: one step forward onto an empty
/// square, two from its base row over empty squares, and a diagonal step
/// onto an enemy piece.
fn pawn_squares(board: &Vec<Vec<Cell>>, from: Square, white: bool) -> (res: Vec<AccessibleSquare>)
    requires
        covers_board(grid(board@)),
        on_board(from),
        cell(grid(board@), from) matches Some(p) && white_piece(p) == white && kind_of(p) == Kind::Pawn,
    ensures
        accessible_list(grid(board@), from, res@),
        forall|i: int, j: int|
            0 <= i < j < res@.len() ==> #[trigger] pawn_key(from, res@[i].square) < #[trigger] pawn_key(
                from,
                res@[j].square,
            ),
{
    let ghost g = grid(board@);
    let mut out: Vec<AccessibleSquare> = Vec::new();
    let ri = from.row as i64;
    let dir: i64 = if white { -1 } else { 1 };
    let base: i64 = if white { 6 } else { 1 };
    let one = ri + dir;
    if 0 <= one && one < 8 && get_cell(board, one as usize, from.col).is_none() {
        out.push(AccessibleSquare { square: Square::new(one as usize, from.col), target: Target::Empty });
        let two = ri + 2 * dir;
        if ri == base && 0 <= two && two < 8 && get_cell(board, two as usize, from.col).is_none() {
            out.push(AccessibleSquare { square: Square::new(two as usize, from.col), target: Target::Empty });
        }
    }
    let ghost pushes = out@;
    pawn_diag(board, from, white, one, -1, &mut out);
    pawn_diag(board, from, white, one, 1, &mut out);
    proof {
        assert forall|sq: Square| #[trigger] reaches(g, from, sq) implies out@.contains(entry_for(g, sq)) by {
            let dr = sq.row as int - from.row as int;
            let dc = sq.col as int - from.col as int;
            if dc == 0 && dr == pawn_dir(white) {
                assert(pushes[0] == entry_for(g, sq));
                assert(out@[0] == entry_for(g, sq));
            } else if dc == 0 {
                assert(pushes[1] == entry_for(g, sq));
                assert(out@[1] == entry_for(g, sq));
            } else if dc == -1 {
                assert(out@[pushes.len() as int] == entry_for(g, sq));
            } else {
                assert(out@.last() == entry_for(g, sq));
            }
        }
    }
    out
}

/// Every square the piece on `from` may legally reach, each tagged `Empty`
/// or `Capture`, in a fixed order: a king's or knight's offsets row by row,
/// a slider's rays north, south, west, east, north-west, north-east,
/// south-west, south-east (each outward), a pawn's pushes before its
/// diagonals. Runs for either colour. Off-board and friendly-occupied squares
/// are excluded; an empty source has no moves.
pub fn accessible_squares(board: &Vec<Vec<Cell>>, from: Square) -> (res: Vec<AccessibleSquare>)
    requires
        covers_board(grid(board@)),
        on_board(from),
    ensures
        accessible_list(grid(board@), from, res@),
        listed_in_order(grid(board@), from, res@),
{
    let ghost g = grid(board@);
    match get_cell(board, from.row, from.col) {
        None => Vec::new(),
        Some(piece) => {
            let white = piece.is_white();
            let res = match piece.kind() {
                Kind::King => stepper_squares(board, from, white, false),
                Kind::Knight => stepper_squares(board, from, white, true),
                Kind::Rook => slider_squares(board, from, white, true, false),
                Kind::Bishop => slider_squares(board, from, white, false, true),
                Kind::Queen => slider_squares(board, from, white, true, true),
                Kind::Pawn => pawn_squares(board, from, white),
            };
            proof {
                assert forall|i: int, j: int| 0 <= i < j < res@.len() implies order_key(g, from, res@[i].square)
                    < order_key(g, from, res@[j].square) by {
                    match kind_of(piece) {
                        Kind::King | Kind::Knight => {
                            assert(dest_key(from, res@[i].square, false) < dest_key(from, res@[j].square, false));
                        },
                        Kind::Pawn => {
                            assert(pawn_key(from, res@[i].square) < pawn_key(from, res@[j].square));
                        },
                        _ => {
                            assert(dest_key(from, res@[i].square, true) < dest_key(from, res@[j].square, true));
                        },
                    }
                }
            }
            res
        },
    }
}

impl IllegalReason {
    /// The stable wire string carried in the refusal body.
    pub fn as_str(self) -> (res: &'static str)
        ensures
            self == IllegalReason::NotYourPiece ==> res@ == "not your piece"@,
            self == IllegalReason::OwnPieceOnTarget ==> res@ == "own piece on target"@,
            self == IllegalReason::IllegalShape ==> res@ == "illegal shape"@,
            self == IllegalReason::PathBlocked ==> res@ == "path blocked"@,
            self == IllegalReason::KingInCheck ==> res@ == "king in check"@,
    {
        match self {
            IllegalReason::NotYourPiece => "not your piece",
            IllegalReason::OwnPieceOnTarget => "own piece on target",
            IllegalReason::IllegalShape => "illegal shape",
            IllegalReason::PathBlocked => "path blocked",
            IllegalReason::KingInCheck => "king in check",
        }
    }
}

/// The colour of a cell: `Some(true)` White, `Some(false)` Black, `None`
/// empty.
pub fn color_of(c: Cell) -> (res: Option<bool>)
    ensures
        res == (match c {
            None => None,
            Some(p) => Some(white_piece(p)),
        }),
{
    match c {
        None => None,
        Some(p) => Some(p.is_white()),
    }
}

/// The absolute value of a coordinate difference.
fn abs_i64(x: i64) -> (res: i64)
    requires
        x > i64::MIN,
    ensures
        res == abs(x as int),
{
    if x < 0 {
        -x
    } else {
        x
    }
}

/// The sign of a coordinate difference: -1, 0 or 1.
fn sgn_i64(x: i64) -> (res: i64)
    ensures
        res == sgn(x as int),
{
    if x > 0 {
        1
    } else if x < 0 {
        -1
    } else {
        0
    }
}

/// Pure per-piece geometry, ignoring sliding blockers; a pawn diagonal is a
/// shape only onto an enemy piece, a pawn push only onto an empty square.
pub fn legal_shape(piece: Piece, from: Square, to: Square, board: &Vec<Vec<Cell>>) -> (res: bool)
    requires
        covers_board(grid(board@)),
        on_board(from),
        on_board(to),
    ensures
        res == shape_fits(grid(board@), piece, from, to),
{
    let dr = to.row as i64 - from.row as i64;
    let dc = to.col as i64 - from.col as i64;
    let white = piece.is_white();
    let (a, b) = (abs_i64(dr), abs_i64(dc));
    match piece.kind() {
        Kind::King => (if a >= b { a } else { b }) == 1,
        Kind::Knight => (a == 1 && b == 2) || (a == 2 && b == 1),
        Kind::Rook => (dr == 0) != (dc == 0),
        Kind::Bishop => a == b && dr != 0,
        Kind::Queen => ((dr == 0) != (dc == 0)) || (a == b && dr != 0),
        Kind::Pawn => {
            let dir: i64 = if white { -1 } else { 1 };
            let base: i64 = if white { 6 } else { 1 };
            let target = get_cell(board, to.row, to.col);
            let target_empty = target.is_none();
            if dc == 0 && dr == dir && target_empty {
                true
            } else if dc == 0 && dr == 2 * dir && from.row as i64 == base && target_empty {
                true
            } else if b == 1 && dr == dir {
                match target {
                    Some(p) => p.is_white() != white,
                    None => false,
                }
            } else {
                false
            }
        },
    }
}

/// Every square strictly between `from` and `to` is empty. Two squares that
/// share no rank, file or diagonal have nothing between them, so a knight or
/// king step is always clear.
pub fn path_clear(board: &Vec<Vec<Cell>>, from: Square, to: Square) -> (res: bool)
    requires
        covers_board(grid(board@)),
        on_board(from),
        on_board(to),
    ensures
        res == clear_path(grid(board@), from, to),
{
    let ghost g = grid(board@);
    let rr = to.row as i64 - from.row as i64;
    let cc = to.col as i64 - from.col as i64;
    let (a, b) = (abs_i64(rr), abs_i64(cc));
    if !(rr == 0 || cc == 0 || a == b) {
        return true;
    }
    let dr = sgn_i64(rr);
    let dc = sgn_i64(cc);
    let n: i64 = if a >= b { a } else { b };
    let mut k: i64 = 1;
    let mut r: i64 = from.row as i64 + dr;
    let mut c: i64 = from.col as i64 + dc;
    while k < n
        invariant
            covers_board(g),
            g == grid(board@),
            on_board(from),
            on_board(to),
            colinear(from.row as int, from.col as int, to.row as int, to.col as int),
            dr == sgn(rr as int),
            dc == sgn(cc as int),
            rr == to.row - from.row,
            cc == to.col - from.col,
            n == max(abs(rr as int), abs(cc as int)),
            1 <= k,
            k <= n || n == 0,
            r == from.row + step(k as int, dr as int),
            c == from.col + step(k as int, dc as int),
            path_empty(g, from.row as int, from.col as int, dr as int, dc as int, k as int),
        decreases n - k,
    {
        let ghost kk = k as int;
        if get_cell(board, r as usize, c as usize).is_some() {
            proof {
                assert(ray_cell(g, from.row as int, from.col as int, dr as int, dc as int, kk) is Some);
            }
            return false;
        }
        proof {
            assert forall|j: int| 1 <= j < kk + 1 implies #[trigger] ray_cell(g, from.row as int, from.col as int, dr as int, dc as int, j) is None by {
                if j < kk {
                    assert(ray_cell(g, from.row as int, from.col as int, dr as int, dc as int, j) is None);
                }
            }
        }
        k = k + 1;
        r = r + dr;
        c = c + dc;
    }
    true
}

/// The board with the move applied: the piece on `from` moved to `to`, any
/// piece on `to` removed.
pub fn board_after(board: &Vec<Vec<Cell>>, from: Square, to: Square) -> (res: Vec<Vec<Cell>>)
    requires
        from.row < board@.len(),
        from.col < board@[from.row as int]@.len(),
        to.row < board@.len(),
        to.col < board@[to.row as int]@.len(),
    ensures
        grid(res@) == after_move(grid(board@), from, to),
        res@.len() == board@.len(),
{
    let mut b = copy_board(board);
    assert(b@[from.row as int]@ == grid(b@)[from.row as int]);
    let piece = b[from.row][from.col];
    set_cell(&mut b, from.row, from.col, None);
    assert(b@[to.row as int]@ == grid(b@)[to.row as int]);
    set_cell(&mut b, to.row, to.col, piece);
    b
}

/// `true` when some entry of `acc` is on `sq`.
fn lists_square(acc: &Vec<AccessibleSquare>, sq: Square) -> (res: bool)
    ensures
        res == exists|i: int| 0 <= i < acc@.len() && (#[trigger] acc@[i]).square == sq,
{
    let n = acc.len();
    for i in 0..n
        invariant
            n == acc@.len(),
            forall|j: int| 0 <= j < i ==> (#[trigger] acc@[j]).square != sq,
    {
        if acc[i].square == sq {
            return true;
        }
    }
    false
}

/// Cell `(r, c)` sits at index `8 * r + c` of the row-major order, and
/// that index names the square back.
proof fn lemma_square_index(r: int, c: int)
    requires
        0 <= r,
        0 <= c < 8,
    ensures
        (8 * r + c) / 8 == r,
        (8 * r + c) % 8 == c,
        square_of_index(8 * r + c) == (Square { row: r as usize, col: c as usize }),
{
    vstd::arithmetic::div_mod::lemma_fundamental_div_mod_converse(8 * r + c, 8, r, c);
}

/// `true` when the king of colour `white` is attacked by any opposing
/// piece; with no such king on the board, `false`.
pub fn is_in_check(board: &Vec<Vec<Cell>>, white: bool) -> (res: bool)
    requires
        covers_board(grid(board@)),
    ensures
        res == in_check(grid(board@), white),
{
    let ghost g = grid(board@);
    let king = if white { Piece::WhiteKing } else { Piece::BlackKing };
    let mut king_sq: Option<Square> = None;
    for r in 0..8usize
        invariant
            covers_board(g),
            g == grid(board@),
            king_sq == last_square_of(g, king, 8 * r as int),
            king_sq matches Some(s) ==> on_board(s),
    {
        for c in 0..8usize
            invariant
                covers_board(g),
                g == grid(board@),
                r < 8,
                king_sq == last_square_of(g, king, 8 * r + c as int),
                king_sq matches Some(s) ==> on_board(s),
        {
            proof {
                lemma_square_index(r as int, c as int);
            }
            if let Some(p) = get_cell(board, r, c) {
                if p == king {
                    king_sq = Some(Square::new(r, c));
                }
            }
        }
    }
    let ks = match king_sq {
        Some(s) => s,
        None => return false,
    };
    for r in 0..8usize
        invariant
            covers_board(g),
            g == grid(board@),
            on_board(ks),
            Some(ks) == king_square(g, white),
            forall|a: Square|
                a.row < r && a.col < 8 && cell(g, a) is Some && white_piece(cell(g, a)->0) != white
                    ==> !#[trigger] reaches(g, a, ks),
    {
        for c in 0..8usize
            invariant
                covers_board(g),
                g == grid(board@),
                on_board(ks),
                Some(ks) == king_square(g, white),
                r < 8,
                forall|a: Square|
                    (a.row < r || (a.row == r && a.col < c)) && a.col < 8 && cell(g, a) is Some
                        && white_piece(cell(g, a)->0) != white ==> !#[trigger] reaches(g, a, ks),
        {
            let here = Square::new(r, c);
            if let Some(w) = color_of(get_cell(board, r, c)) {
                if w != white {
                    let acc = accessible_squares(board, here);
                    if lists_square(&acc, ks) {
                        proof {
                            let i = choose|i: int| 0 <= i < acc@.len() && (#[trigger] acc@[i]).square == ks;
                            assert(reaches(g, here, acc@[i].square));
                            assert(attacked(g, ks, !white));
                            assert(in_check(g, white));
                        }
                        return true;
                    }
                    proof {
                        if reaches(g, here, ks) {
                            assert(acc@.contains(rules::entry_for(g, ks)));
                            let i = choose|i: int| 0 <= i < acc@.len() && acc@[i] == rules::entry_for(g, ks);
                            assert(acc@[i].square == ks);
                        }
                    }
                }
            }
        }
    }
    false
}

/// Full legality check of an ordinary White move (castling is decided by
/// [`validate_castle`]). Returns the captured Black piece (if any) on
/// success, or the precise reason for refusal.
pub fn validate_move(board: &Vec<Vec<Cell>>, from: Square, to: Square) -> (res: Result<
    Option<Piece>,
    IllegalReason,
>)
    requires
        covers_board(grid(board@)),
        on_board(from),
        on_board(to),
    ensures
        res == validation(grid(board@), from, to),
{
    let ghost g = grid(board@);
    let piece = match get_cell(board, from.row, from.col) {
        Some(p) => {
            if p.is_white() {
                p
            } else {
                return Err(IllegalReason::NotYourPiece);
            }
        },
        None => return Err(IllegalReason::NotYourPiece),
    };
    if let Some(q) = get_cell(board, to.row, to.col) {
        if q.is_white() {
            return Err(IllegalReason::OwnPieceOnTarget);
        }
    }
    let acc = accessible_squares(board, from);
    let n = acc.len();
    let mut found: Option<Target> = None;
    let mut i: usize = 0;
    while i < n && found.is_none()
        invariant
            n == acc@.len(),
            0 <= i <= n,
            found is None ==> forall|j: int| 0 <= j < i ==> (#[trigger] acc@[j]).square != to,
            found matches Some(t) ==> exists|j: int| 0 <= j < n && (#[trigger] acc@[j]).square == to && acc@[j].target == t,
        decreases n - i + (if found is None { 1int } else { 0int }),
    {
        if acc[i].square == to {
            found = Some(acc[i].target);
        } else {
            i = i + 1;
        }
    }
    let capture = match found {
        Some(Target::Empty) => None,
        Some(Target::Capture(p)) => Some(p),
        None => {
            proof {
                if reaches(g, from, to) {
                    assert(acc@.contains(rules::entry_for(g, to)));
                    let j = choose|j: int| 0 <= j < acc@.len() && acc@[j] == rules::entry_for(g, to);
                    assert(acc@[j].square == to);
                }
                assert(!reaches(g, from, to));
                assert(cell(g, from) == Some(piece));
            }
            if legal_shape(piece, from, to, board) && !path_clear(board, from, to) {
                return Err(IllegalReason::PathBlocked);
            }
            return Err(IllegalReason::IllegalShape);
        },
    };
    proof {
        let j = choose|j: int| 0 <= j < n && (#[trigger] acc@[j]).square == to && acc@[j].target == found->0;
        assert(reaches(g, from, acc@[j].square));
        assert(capture == cell(g, to));
    }
    let next = board_after(board, from, to);
    proof {
        assert(covers_board(grid(next@)));
    }
    if is_in_check(&next, true) {
        return Err(IllegalReason::KingInCheck);
    }
    Ok(capture)
}

/// `true` when the castling availability `rights` allows castling on that
/// side (`short`: king side).
fn castle_allowed_exec(rights: &str, short: bool) -> (res: bool)
    ensures
        res == castle_allowed(rights@, short),
{
    let r = String::from_str(rights);
    if r == String::from_str("both") {
        true
    } else if short {
        r == String::from_str("short castle")
    } else {
        r == String::from_str("long castle")
    }
}

/// The board after White castles on that side: the king from `e1` to `g1`
/// (`c1`), the rook from `h1` (`a1`) to `f1` (`d1`).
pub fn castled_board(board: &Vec<Vec<Cell>>, short: bool) -> (res: Vec<Vec<Cell>>)
    requires
        covers_board(grid(board@)),
    ensures
        grid(res@) == castled(grid(board@), short),
        res@.len() == board@.len(),
        covers_board(grid(res@)),
{
    let king_to = Square::new(7, if short { 6 } else { 2 });
    let rook_from = Square::new(7, if short { 7 } else { 0 });
    let rook_to = Square::new(7, if short { 5 } else { 3 });
    assert(board@[7]@ == grid(board@)[7]);
    let moved = board_after(board, Square::new(7, 4), king_to);
    assert(covers_board(grid(moved@)));
    assert(moved@[7]@ == grid(moved@)[7]);
    let res = board_after(&moved, rook_from, rook_to);
    assert(covers_board(grid(res@)));
    res
}

/// Decide White's castling attempt from `e1` to `to` (`g1` or `c1`) under
/// the castling availability `rights` and the rights already used up
/// `spent`: `Ok(None)` when the side is allowed and not used up, the rook
/// stands on its corner, the squares between are empty and the
/// king is not in check, does not pass over an attacked square and does not
/// land in check; else the reason for refusal.
pub fn validate_castle(board: &Vec<Vec<Cell>>, rights: &str, spent: CastleSpent, to: Square) -> (res: Result<
    Option<Piece>,
    IllegalReason,
>)
    requires
        covers_board(grid(board@)),
        castle_attempt(grid(board@), white_king_home(), to),
    ensures
        res == castle_validation(grid(board@), rights@, spent, to),
{
    let ghost g = grid(board@);
    let short = to.col == 6;
    if let Some(q) = get_cell(board, to.row, to.col) {
        if q.is_white() {
            return Err(IllegalReason::OwnPieceOnTarget);
        }
    }
    let rook_col: usize = if short { 7 } else { 0 };
    let rook_home = matches!(get_cell(board, 7, rook_col), Some(Piece::WhiteRook));
    let used = if short { spent.short } else { spent.long };
    if !castle_allowed_exec(rights, short) || used || !rook_home {
        return Err(IllegalReason::IllegalShape);
    }
    let path_empty = if short {
        get_cell(board, 7, 5).is_none() && get_cell(board, 7, 6).is_none()
    } else {
        get_cell(board, 7, 1).is_none() && get_cell(board, 7, 2).is_none() && get_cell(board, 7, 3).is_none()
    };
    if !path_empty {
        return Err(IllegalReason::PathBlocked);
    }
    if is_in_check(board, true) {
        return Err(IllegalReason::KingInCheck);
    }
    let passing = board_after(board, Square::new(7, 4), Square::new(7, if short { 5 } else { 3 }));
    assert(covers_board(grid(passing@)));
    if is_in_check(&passing, true) {
        return Err(IllegalReason::KingInCheck);
    }
    let done = castled_board(board, short);
    if is_in_check(&done, true) {
        return Err(IllegalReason::KingInCheck);
    }
    Ok(None)
}

/// `true` when the move is White's en-passant capture onto `ep`: a White
/// pawn on rank 5 stepping diagonally onto that empty square, the Black pawn
/// that skipped it standing beside the source.
pub fn is_en_passant(board: &Vec<Vec<Cell>>, ep: Option<Square>, from: Square, to: Square) -> (res: bool)
    requires
        covers_board(grid(board@)),
        on_board(from),
        on_board(to),
    ensures
        res == en_passant_attempt(grid(board@), ep, from, to),
{
    let open = match ep {
        Some(s) => s == to,
        None => false,
    };
    open && from.row == 3 && to.row == 2 && (to.col == from.col + 1 || from.col == to.col + 1)
        && matches!(get_cell(board, from.row, from.col), Some(Piece::WhitePawn))
        && get_cell(board, to.row, to.col).is_none()
        && matches!(get_cell(board, 3, to.col), Some(Piece::BlackPawn))
}

/// The board after White's en-passant capture from `from` to `to`: the pawn
/// moved and the Black pawn on rank 5 below `to` removed.
pub fn board_after_en_passant(board: &Vec<Vec<Cell>>, from: Square, to: Square) -> (res: Vec<Vec<Cell>>)
    requires
        covers_board(grid(board@)),
        on_board(from),
        on_board(to),
    ensures
        grid(res@) == en_passant_board(grid(board@), from, to),
        res@.len() == board@.len(),
        covers_board(grid(res@)),
{
    let mut next = board_after(board, from, to);
    assert(next@[3]@ == grid(next@)[3]);
    set_cell(&mut next, 3, to.col, None);
    assert(grid(next@) =~= en_passant_board(grid(board@), from, to));
    next
}

/// Decide White's en-passant capture: it takes the passed Black pawn unless
/// it would leave White's king attacked.
pub fn validate_en_passant(board: &Vec<Vec<Cell>>, from: Square, to: Square) -> (res: Result<
    Option<Piece>,
    IllegalReason,
>)
    requires
        covers_board(grid(board@)),
        on_board(from),
        on_board(to),
    ensures
        res == en_passant_validation(grid(board@), from, to),
{
    let next = board_after_en_passant(board, from, to);
    if is_in_check(&next, true) {
        Err(IllegalReason::KingInCheck)
    } else {
        Ok(Some(Piece::BlackPawn))
    }
}

/// Outcome of `move_piece`: the move applied (the moving piece, any capture,
/// and the new position), refused with a reason, or no such game.
pub enum MoveOutcome {
    Applied { piece: Piece, capture: Option<Piece>, overview: Overview },
    Illegal(IllegalReason),
    UnknownGame,
}

/// The stored position after a legal White move: castling moves the king
/// and its rook; an en-passant capture (onto `ep`) removes the Black pawn
/// passed; any other move is applied as it is, a White pawn reaching rank 8
/// replaced by a White queen.
pub open spec fn applied_board(g: Seq<Seq<Cell>>, ep: Option<Square>, from: Square, to: Square) -> Seq<Seq<Cell>> {
    if castle_attempt(g, from, to) {
        castled(g, to.col == 6)
    } else if en_passant_attempt(g, ep, from, to) {
        en_passant_board(g, from, to)
    } else {
        let moved = after_move(g, from, to);
        if cell(g, from) == Some(Piece::WhitePawn) && to.row == 0 {
            grid_set(moved, 0, to.col as int, Some(Piece::WhiteQueen))
        } else {
            moved
        }
    }
}

/// The game after a legal White move: its board replaced, any captured
/// piece appended to its taken list, and no square left open to an
/// en-passant capture. Castling sets White's castling availability to
/// `none`; any other move leaves both castling fields as they were, but a
/// move of the king, or from or onto a rook's corner, uses up the rights it
/// touches.
pub open spec fn game_after_move(game: GameView, from: Square, to: Square, capture: Option<Piece>) -> GameView {
    GameView {
        overview: OverviewView {
            board: applied_board(game.overview.board, game.en_passant, from, to),
            white: if castle_attempt(game.overview.board, from, to) {
                "none"@
            } else {
                game.overview.white
            },
            ..game.overview
        },
        taken: match capture {
            Some(p) => game.taken.push(p),
            None => game.taken,
        },
        en_passant: None,
        castle_spent: spent_after_move(game.castle_spent, from, to),
        ..game
    }
}

/// Look up the game named by `uuid`, validate White's move against its
/// stored board and White's castling availability, and on success apply it:
/// castling (allowed by White's availability, with no earlier king or rook
/// move having used the right up) moves the king and its rook and sets
/// White's availability to `none`; an en-passant capture onto the square a Black pawn just skipped
/// also removes that pawn; any other move clears `from` and puts the piece
/// on `to` (a White pawn reaching rank 8 becomes a White queen). Any
/// captured piece is appended to the game's taken list, and no square stays
/// open to an en-passant capture. An illegal move, or an unknown game,
/// changes nothing.
pub fn move_piece(registry: &mut Registry, uuid: &str, from: Square, to: Square) -> (res: MoveOutcome)
    requires
        on_board(from),
        on_board(to),
    ensures
        final(registry)@.dom() == old(registry)@.dom(),
        match parsed_uuid(uuid@) {
            Some(id) if old(registry)@.contains_key(id) => {
                let game = old(registry)@[id];
                let g = game.overview.board;
                match move_validation(g, game.overview.white, game.castle_spent, game.en_passant, from, to) {
                    Err(reason) => res matches MoveOutcome::Illegal(r) && r == reason && final(registry)@
                        == old(registry)@,
                    Ok(capture) => {
                        &&& res matches MoveOutcome::Applied { piece, capture: c, overview } && piece == cell(
                            g,
                            from,
                        )->0 && c == capture && overview@ == game_after_move(game, from, to, capture).overview
                        &&& final(registry)@ == old(registry)@.insert(id, game_after_move(game, from, to, capture))
                    },
                }
            },
            _ => res is UnknownGame && final(registry)@ == old(registry)@,
        },
{
    let id = match parse_uuid(uuid) {
        Some(id) => id,
        None => return MoveOutcome::UnknownGame,
    };
    let (board, mode, taken, white, black, ep, spent) = match registry.get(id) {
        Some(game) => (
            copy_board(&game.overview.board),
            game.mode,
            copy_pieces(&game.taken),
            game.overview.white.clone(),
            game.overview.black.clone(),
            game.en_passant,
            game.castle_spent,
        ),
        None => return MoveOutcome::UnknownGame,
    };
    let ghost game = registry@[id];
    let ghost g = game.overview.board;
    proof {
        assert(grid(board@) == g);
        assert(covers_board(g));
    }
    let castling = from.row == 7 && from.col == 4 && to.row == 7 && (to.col == 6 || to.col == 2)
        && matches!(get_cell(&board, 7, 4), Some(Piece::WhiteKing));
    let passant = !castling && is_en_passant(&board, ep, from, to);
    let verdict = if castling {
        validate_castle(&board, white.as_str(), spent, to)
    } else if passant {
        validate_en_passant(&board, from, to)
    } else {
        validate_move(&board, from, to)
    };
    match verdict {
        Err(reason) => MoveOutcome::Illegal(reason),
        Ok(capture) => {
            let piece = match get_cell(&board, from.row, from.col) {
                Some(p) => p,
                None => {
                    proof {
                        assert(false);
                    }
                    return MoveOutcome::UnknownGame;
                },
            };
            let mut next = if castling {
                castled_board(&board, to.col == 6)
            } else if passant {
                board_after_en_passant(&board, from, to)
            } else {
                board_after(&board, from, to)
            };
            if !castling && !passant && piece == Piece::WhitePawn && to.row == 0 {
                proof {
                    assert(next@[0]@ == grid(next@)[0]);
                }
                set_cell(&mut next, 0, to.col, Some(Piece::WhiteQueen));
            }
            let white = if castling { String::from_str("none") } else { white };
            let mut taken = taken;
            if let Some(p) = capture {
                taken.push(p);
            }
            let overview = Overview { board: next, white, black };
            let echo = overview.duplicate();
            proof {
                assert(overview@ == game_after_move(game, from, to, capture).overview);
                assert(storable(game_after_move(game, from, to, capture)));
            }
            let king_or_h1 = (from.row == 7 && (from.col == 4 || from.col == 7)) || (to.row == 7 && to.col == 7);
            let king_or_a1 = (from.row == 7 && (from.col == 4 || from.col == 0)) || (to.row == 7 && to.col == 0);
            let castle_spent = CastleSpent { short: spent.short || king_or_h1, long: spent.long || king_or_a1 };
            let updated = Game { uuid: id, mode, overview, taken, en_passant: None, castle_spent };
            proof {
                assert(updated@ == game_after_move(game, from, to, capture));
            }
            registry.replace(updated);
            proof {
                assert(registry@.dom() =~= old(registry)@.dom());
            }
            MoveOutcome::Applied { piece, capture, overview: echo }
        },
    }
}
} // verus!
