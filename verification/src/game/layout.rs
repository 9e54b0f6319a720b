//! Counting on the 8×8 board: the multiset of pieces a grid holds, how many
//! empty squares a placement zone offers, and the shape of one colour's army.

use vstd::prelude::*;
use vstd::multiset::Multiset;

use crate::game::overview::{Cell, grid_set, wf_grid};
use crate::game::piece::{Kind, Piece, kind_of, piece_of, white_piece};

verus! {

broadcast use vstd::seq_lib::group_to_multiset_ensures;

/// Where a piece may be placed.
#[derive(Debug, Clone, Copy, PartialEq, Eq, Structural)]
pub enum Zone {
    /// Any square.
    Any,
    /// A dark square: `(row + col)` odd, so `a1` is dark.
    Dark,
    /// A light square: `(row + col)` even.
    Light,
    /// Any square off the given row.
    NotRow(usize),
}

/// The zone allows cell `(r, c)`.
pub open spec fn zone_allows(z: Zone, r: int, c: int) -> bool {
    match z {
        Zone::Any => true,
        Zone::Dark => (r + c) % 2 == 1,
        Zone::Light => (r + c) % 2 == 0,
        Zone::NotRow(x) => r != x,
    }
}

/// The cell with row-major index `k`.
pub open spec fn cell_k(g: Seq<Seq<Cell>>, k: int) -> Cell {
    g[k / 8][k % 8]
}

/// The pieces on the first `n` cells in row-major order.
pub open spec fn pieces_upto(g: Seq<Seq<Cell>>, n: int) -> Multiset<Piece>
    decreases n,
{
    if n <= 0 {
        Multiset::empty()
    } else {
        let rest = pieces_upto(g, n - 1);
        match cell_k(g, n - 1) {
            Some(p) => rest.insert(p),
            None => rest,
        }
    }
}

/// The pieces on the board.
pub open spec fn board_pieces(g: Seq<Seq<Cell>>) -> Multiset<Piece> {
    pieces_upto(g, 64)
}

/// How many of the first `n` cells the zone allows.
pub open spec fn zone_size(z: Zone, n: int) -> int
    decreases n,
{
    if n <= 0 {
        0
    } else {
        zone_size(z, n - 1) + if zone_allows(z, (n - 1) / 8, (n - 1) % 8) {
            1int
        } else {
            0int
        }
    }
}

/// How many of the first `n` cells are empty and allowed by the zone.
pub open spec fn free_cells(g: Seq<Seq<Cell>>, z: Zone, n: int) -> int
    decreases n,
{
    if n <= 0 {
        0
    } else {
        free_cells(g, z, n - 1) + if zone_allows(z, (n - 1) / 8, (n - 1) % 8) && cell_k(g, n - 1) is None {
            1int
        } else {
            0int
        }
    }
}

/// Cell `(r, c)` sits at index `8 * r + c` of the row-major order.
pub(crate) proof fn lemma_index(r: int, c: int)
    requires
        0 <= r,
        0 <= c < 8,
    ensures
        (8 * r + c) / 8 == r,
        (8 * r + c) % 8 == c,
{
    vstd::arithmetic::div_mod::lemma_fundamental_div_mod_converse(8 * r + c, 8, r, c);
}

/// Index `k` of the row-major order is cell `(k / 8, k % 8)`.
proof fn lemma_index_inv(k: int)
    requires
        0 <= k < 64,
    ensures
        0 <= k / 8 < 8,
        0 <= k % 8 < 8,
        k == 8 * (k / 8) + k % 8,
{
    vstd::arithmetic::div_mod::lemma_fundamental_div_mod(k, 8);
    vstd::arithmetic::div_mod::lemma_mod_bound(k, 8);
}

/// Every allowed cell is either empty (and counted free) or holds a piece,
/// so the free cells are at least the zone's size less the pieces.
pub(crate) proof fn lemma_free_bound(g: Seq<Seq<Cell>>, z: Zone, n: int)
    requires
        0 <= n,
    ensures
        free_cells(g, z, n) + pieces_upto(g, n).len() >= zone_size(z, n),
    decreases n,
{
    if n > 0 {
        lemma_free_bound(g, z, n - 1);
    }
}

/// How many squares of the zone lie in the first `j` rows.
proof fn lemma_zone_rows(z: Zone, j: int)
    requires
        0 <= j <= 8,
    ensures
        zone_size(z, 8 * j) == (match z {
            Zone::Any => 8 * j,
            Zone::Dark => 4 * j,
            Zone::Light => 4 * j,
            Zone::NotRow(x) => if x < j {
                8 * j - 8
            } else {
                8 * j
            },
        }),
    decreases j,
{
    if j > 0 {
        lemma_zone_rows(z, j - 1);
        let b = 8 * (j - 1);
        lemma_index(j - 1, 0);
        lemma_index(j - 1, 1);
        lemma_index(j - 1, 2);
        lemma_index(j - 1, 3);
        lemma_index(j - 1, 4);
        lemma_index(j - 1, 5);
        lemma_index(j - 1, 6);
        lemma_index(j - 1, 7);
        assert forall|i: int| 0 <= i < 8 implies #[trigger] zone_size(z, b + i + 1) == zone_size(z, b + i) + (if zone_allows(
            z,
            j - 1,
            i,
        ) {
            1int
        } else {
            0int
        }) by {
            lemma_index(j - 1, i);
        }
        let a = j - 1;
        assert(zone_size(z, b + 1) == zone_size(z, b + 0 + 1));
        assert(zone_size(z, b + 2) == zone_size(z, b + 1 + 1));
        assert(zone_size(z, b + 3) == zone_size(z, b + 2 + 1));
        assert(zone_size(z, b + 4) == zone_size(z, b + 3 + 1));
        assert(zone_size(z, b + 5) == zone_size(z, b + 4 + 1));
        assert(zone_size(z, b + 6) == zone_size(z, b + 5 + 1));
        assert(zone_size(z, b + 7) == zone_size(z, b + 6 + 1));
        assert(zone_size(z, b + 8) == zone_size(z, b + 7 + 1));
        assert((a + 1) % 2 == 1 - a % 2);
        assert((a + 2) % 2 == a % 2);
        assert((a + 3) % 2 == 1 - a % 2);
        assert((a + 4) % 2 == a % 2);
        assert((a + 5) % 2 == 1 - a % 2);
        assert((a + 6) % 2 == a % 2);
        assert((a + 7) % 2 == 1 - a % 2);
        assert(8 * j == b + 8);
    }
}

/// The board has 64 squares, 32 dark and 32 light, and 56 off any one row.
pub(crate) proof fn lemma_zone_sizes(z: Zone)
    ensures
        zone_size(z, 64) == (match z {
            Zone::Any => 64int,
            Zone::Dark => 32int,
            Zone::Light => 32int,
            Zone::NotRow(x) => if x < 8 {
                56int
            } else {
                64int
            },
        }),
{
    lemma_zone_rows(z, 8);
}

/// Putting a piece on an empty cell adds it to the pieces of every prefix
/// that contains the cell.
pub(crate) proof fn lemma_set_piece(g: Seq<Seq<Cell>>, r: int, c: int, p: Piece, n: int)
    requires
        wf_grid(g),
        0 <= r < 8,
        0 <= c < 8,
        g[r][c] is None,
        0 <= n <= 64,
    ensures
        pieces_upto(grid_set(g, r, c, Some(p)), n) == if 8 * r + c < n {
            pieces_upto(g, n).insert(p)
        } else {
            pieces_upto(g, n)
        },
    decreases n,
{
    if n > 0 {
        lemma_set_piece(g, r, c, p, n - 1);
        let k = n - 1;
        lemma_index_inv(k);
        lemma_index(r, c);
        let g2 = grid_set(g, r, c, Some(p));
        if k == 8 * r + c {
            assert(cell_k(g2, k) == Some(p));
            assert(cell_k(g, k) is None);
        } else {
            assert(cell_k(g2, k) == cell_k(g, k));
        }
        assert(pieces_upto(g2, n) =~= if 8 * r + c < n {
            pieces_upto(g, n).insert(p)
        } else {
            pieces_upto(g, n)
        });
    }
}

/// The cells of a grid with no piece hold no pieces.
pub(crate) proof fn lemma_empty_pieces(g: Seq<Seq<Cell>>, n: int)
    requires
        wf_grid(g),
        forall|r: int, c: int| 0 <= r < 8 && 0 <= c < 8 ==> (#[trigger] g[r][c]) is None,
        0 <= n <= 64,
    ensures
        pieces_upto(g, n) =~= Multiset::<Piece>::empty(),
    decreases n,
{
    if n > 0 {
        lemma_empty_pieces(g, n - 1);
        lemma_index_inv(n - 1);
        assert(g[(n - 1) / 8][(n - 1) % 8] is None);
    }
}

/// The number of pieces of one colour.
pub open spec fn colour_count(m: Multiset<Piece>, white: bool) -> nat {
    m.count(piece_of(white, Kind::King)) + m.count(piece_of(white, Kind::Queen)) + m.count(
        piece_of(white, Kind::Rook),
    ) + m.count(piece_of(white, Kind::Bishop)) + m.count(piece_of(white, Kind::Knight)) + m.count(
        piece_of(white, Kind::Pawn),
    )
}

/// One colour's pieces in a random layout of `n` pieces a side: exactly one
/// king, at most one queen, two rooks, two bishops, two knights and eight
/// pawns, `n` pieces in all, and the full army when `n` is 16.
pub open spec fn army_counts(m: Multiset<Piece>, white: bool, n: nat) -> bool {
    &&& m.count(piece_of(white, Kind::King)) == 1
    &&& m.count(piece_of(white, Kind::Queen)) <= 1
    &&& m.count(piece_of(white, Kind::Rook)) <= 2
    &&& m.count(piece_of(white, Kind::Bishop)) <= 2
    &&& m.count(piece_of(white, Kind::Knight)) <= 2
    &&& m.count(piece_of(white, Kind::Pawn)) <= 8
    &&& colour_count(m, white) == n
    &&& n == 16 ==> {
        &&& m.count(piece_of(white, Kind::Queen)) == 1
        &&& m.count(piece_of(white, Kind::Rook)) == 2
        &&& m.count(piece_of(white, Kind::Bishop)) == 2
        &&& m.count(piece_of(white, Kind::Knight)) == 2
        &&& m.count(piece_of(white, Kind::Pawn)) == 8
    }
}

/// All pieces of the multiset are of the colour `white`.
pub open spec fn one_colour(m: Multiset<Piece>, white: bool) -> bool {
    forall|p: Piece| #[trigger] m.count(p) > 0 ==> white_piece(p) == white
}

/// Every element is a non-king piece of the colour.
pub open spec fn non_king_army(s: Seq<Piece>, white: bool) -> bool {
    forall|i: int| 0 <= i < s.len() ==> white_piece(#[trigger] s[i]) == white && kind_of(s[i]) != Kind::King
}

/// A prefix never holds more copies of a piece than the whole sequence.
pub(crate) proof fn lemma_take_count(s: Seq<Piece>, k: int, x: Piece)
    requires
        0 <= k <= s.len(),
    ensures
        s.take(k).to_multiset().count(x) <= s.to_multiset().count(x),
    decreases s.len() - k,
{
    if k < s.len() {
        lemma_take_count(s, k + 1, x);
        assert(s.take(k + 1) =~= s.take(k).push(s[k]));
    } else {
        assert(s.take(k) =~= s);
    }
}

/// A sequence of non-king pieces of one colour holds no king and no piece
/// of the other colour, and its five kinds add up to its length.
pub(crate) proof fn lemma_army_sum(s: Seq<Piece>, white: bool)
    requires
        non_king_army(s, white),
    ensures
        s.to_multiset().count(piece_of(white, Kind::King)) == 0,
        one_colour(s.to_multiset(), white),
        s.to_multiset().count(piece_of(white, Kind::Queen)) + s.to_multiset().count(
            piece_of(white, Kind::Rook),
        ) + s.to_multiset().count(piece_of(white, Kind::Bishop)) + s.to_multiset().count(
            piece_of(white, Kind::Knight),
        ) + s.to_multiset().count(piece_of(white, Kind::Pawn)) == s.len(),
    decreases s.len(),
{
    if s.len() == 0 {
        assert(s.to_multiset() =~= Multiset::<Piece>::empty());
    } else {
        let t = s.drop_last();
        assert(non_king_army(t, white)) by {
            assert forall|i: int| 0 <= i < t.len() implies white_piece(#[trigger] t[i]) == white
                && kind_of(t[i]) != Kind::King by {
                assert(t[i] == s[i]);
            }
        }
        lemma_army_sum(t, white);
        assert(s =~= t.push(s.last()));
        let x = s.last();
        assert(white_piece(x) == white && kind_of(x) != Kind::King);
        assert forall|p: Piece| #[trigger] s.to_multiset().count(p) > 0 implies white_piece(p) == white by {
            if p != x {
                assert(t.to_multiset().count(p) > 0);
            }
        }
    }
}

} // verus!
