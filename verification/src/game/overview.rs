//! The `Overview` board model: an 8×8 grid of cells plus per-colour castling
//! availability. `board[0]` is rank 8, `board[7]` is rank 1; column 0 is file
//! `a`, column 7 is file `h`. A cell is `None` (empty) or a piece.

use vstd::prelude::*;
use vstd::string::*;
use vstd::multiset::Multiset;

use crate::game::piece::{Piece, Kind, kind_of, piece_of, piece_of_letter, white_piece};
use crate::game::layout::{
    Zone, zone_allows, zone_size, free_cells, cell_k, board_pieces, pieces_upto, lemma_free_bound,
    lemma_zone_sizes, lemma_set_piece, lemma_empty_pieces, lemma_index, army_counts, one_colour,
    non_king_army, lemma_take_count, lemma_army_sum, colour_count,
};
use crate::moves::get_cell;
use crate::outside::{choose_square, shuffle_pieces};

verus! {

broadcast use vstd::seq_lib::group_to_multiset_ensures;

/// One board cell: `None` (empty) or a piece.
pub type Cell = Option<Piece>;

/// The board model returned to the front end.
pub struct Overview {
    /// 8 rows × 8 columns, `board[0]` = rank 8 … `board[7]` = rank 1.
    pub board: Vec<Vec<Cell>>,
    /// White castling availability: `"both" | "short castle" | "long castle" | "none"`.
    pub white: String,
    /// Black castling availability.
    pub black: String,
}

/// The mathematical value of an overview: its grid of cells and the two
/// castling strings.
pub struct OverviewView {
    pub board: Seq<Seq<Cell>>,
    pub white: Seq<char>,
    pub black: Seq<char>,
}

/// The grid of cells of a board of rows.
pub open spec fn grid(b: Seq<Vec<Cell>>) -> Seq<Seq<Cell>> {
    b.map_values(|row: Vec<Cell>| row@)
}

impl View for Overview {
    type V = OverviewView;

    open spec fn view(&self) -> OverviewView {
        OverviewView { board: grid(self.board@), white: self.white@, black: self.black@ }
    }
}

/// The grid has 8 rows of 8 cells.
pub open spec fn wf_grid(g: Seq<Seq<Cell>>) -> bool {
    &&& g.len() == 8
    &&& forall|r: int| 0 <= r < 8 ==> #[trigger] g[r].len() == 8
}

/// The grid with cell `(r, c)` replaced by `v`.
pub open spec fn grid_set(g: Seq<Seq<Cell>>, r: int, c: int, v: Cell) -> Seq<Seq<Cell>> {
    g.update(r, g[r].update(c, v))
}

/// A copy of one board row.
pub fn copy_row(row: &Vec<Cell>) -> (res: Vec<Cell>)
    ensures
        res@ == row@,
{
    let mut out: Vec<Cell> = Vec::new();
    let n = row.len();
    for i in 0..n
        invariant
            n == row@.len(),
            out@ == row@.subrange(0, i as int),
    {
        out.push(row[i]);
    }
    assert(out@ =~= row@);
    out
}

/// A copy of a board.
pub fn copy_board(board: &Vec<Vec<Cell>>) -> (res: Vec<Vec<Cell>>)
    ensures
        grid(res@) == grid(board@),
        res@.len() == board@.len(),
{
    let mut out: Vec<Vec<Cell>> = Vec::new();
    let n = board.len();
    for i in 0..n
        invariant
            n == board@.len(),
            out@.len() == i,
            forall|j: int| 0 <= j < i ==> #[trigger] out@[j]@ == board@[j]@,
    {
        out.push(copy_row(&board[i]));
    }
    assert(grid(out@) =~= grid(board@));
    out
}

/// Write `v` into cell `(r, c)` of a board.
pub fn set_cell(board: &mut Vec<Vec<Cell>>, r: usize, c: usize, v: Cell)
    requires
        r < old(board)@.len(),
        c < old(board)@[r as int]@.len(),
    ensures
        grid(final(board)@) == grid_set(grid(old(board)@), r as int, c as int, v),
        final(board)@.len() == old(board)@.len(),
{
    assert(board@[r as int]@ == grid(board@)[r as int]);
    let mut row = copy_row(&board[r]);
    row.set(c, v);
    board.set(r, row);
    assert(grid(board@) =~= grid_set(grid(old(board)@), r as int, c as int, v));
}

impl Overview {
    /// A copy of this overview.
    pub fn duplicate(&self) -> (res: Overview)
        ensures
            res@ == self@,
            res.board@.len() == self.board@.len(),
    {
        Overview { board: copy_board(&self.board), white: self.white.clone(), black: self.black.clone() }
    }
}


/// The cell a builder literal denotes: `""` is empty, otherwise the piece of
/// its first letter.
pub open spec fn literal_cell(s: Seq<char>) -> Cell {
    if s.len() == 0 {
        None
    } else {
        piece_of_letter(s[0])
    }
}

/// Read a builder cell literal (`""` empty, or a piece letter) into a cell.
/// The literals are fixed and valid, so a non-piece first letter is excluded.
fn cell_of(s: &str) -> (res: Cell)
    requires
        s@.len() > 0 ==> piece_of_letter(s@[0]) is Some,
    ensures
        res == literal_cell(s@),
{
    if s.unicode_len() == 0 {
        None
    } else {
        Piece::from_letter(s.get_char(0))
    }
}

/// A board row built from eight cell literals.
fn rank_of(cells: [&str; 8]) -> (res: Vec<Cell>)
    requires
        forall|i: int| 0 <= i < 8 ==> (#[trigger] cells@[i])@.len() > 0 ==> piece_of_letter(cells@[i]@[0]) is Some,
    ensures
        res@ == Seq::new(8, |i: int| literal_cell(cells@[i]@)),
{
    let mut out: Vec<Cell> = Vec::new();
    for i in 0..8usize
        invariant
            forall|j: int| 0 <= j < 8 ==> (#[trigger] cells@[j])@.len() > 0 ==> piece_of_letter(cells@[j]@[0]) is Some,
            out@ == Seq::new(i as nat, |j: int| literal_cell(cells@[j]@)),
    {
        out.push(cell_of(cells[i]));
    }
    out
}

/// The standard starting position, rank 8 first.
pub open spec fn standard_grid() -> Seq<Seq<Cell>> {
    let back = |white: bool| seq![
        Some(piece_of(white, Kind::Rook)),
        Some(piece_of(white, Kind::Knight)),
        Some(piece_of(white, Kind::Bishop)),
        Some(piece_of(white, Kind::Queen)),
        Some(piece_of(white, Kind::King)),
        Some(piece_of(white, Kind::Bishop)),
        Some(piece_of(white, Kind::Knight)),
        Some(piece_of(white, Kind::Rook)),
    ];
    let pawns = |white: bool| Seq::new(8, |i: int| Some(piece_of(white, Kind::Pawn)));
    let empty = Seq::new(8, |i: int| None::<Piece>);
    seq![back(false), pawns(false), empty, empty, empty, empty, pawns(true), back(true)]
}

/// Build the standard starting position; both sides keep `"both"` castling.
pub fn standard_overview() -> (res: Overview)
    ensures
        res@.board == standard_grid(),
        res@.white == "both"@,
        res@.black == "both"@,
        res.board@.len() == 8,
{
    proof {
        reveal_strlit("r");
        reveal_strlit("n");
        reveal_strlit("b");
        reveal_strlit("q");
        reveal_strlit("k");
        reveal_strlit("p");
        reveal_strlit("R");
        reveal_strlit("N");
        reveal_strlit("B");
        reveal_strlit("Q");
        reveal_strlit("K");
        reveal_strlit("P");
        reveal_strlit("");
    }
    let mut board: Vec<Vec<Cell>> = Vec::new();
    board.push(rank_of(["r", "n", "b", "q", "k", "b", "n", "r"]));
    board.push(rank_of(["p", "p", "p", "p", "p", "p", "p", "p"]));
    board.push(rank_of(["", "", "", "", "", "", "", ""]));
    board.push(rank_of(["", "", "", "", "", "", "", ""]));
    board.push(rank_of(["", "", "", "", "", "", "", ""]));
    board.push(rank_of(["", "", "", "", "", "", "", ""]));
    board.push(rank_of(["P", "P", "P", "P", "P", "P", "P", "P"]));
    board.push(rank_of(["R", "N", "B", "Q", "K", "B", "N", "R"]));
    let res = Overview { board, white: String::from_str("both"), black: String::from_str("both") };
    assert(res@.board[0] =~= standard_grid()[0]);
    assert(res@.board[1] =~= standard_grid()[1]);
    assert(res@.board[2] =~= standard_grid()[2]);
    assert(res@.board[3] =~= standard_grid()[3]);
    assert(res@.board[4] =~= standard_grid()[4]);
    assert(res@.board[5] =~= standard_grid()[5]);
    assert(res@.board[6] =~= standard_grid()[6]);
    assert(res@.board[7] =~= standard_grid()[7]);
    assert(res@.board =~= standard_grid());
    res
}

/// A cell is dark when `(row + col)` is odd, so `a1` (row 7, col 0) is dark.
pub fn is_dark(row: usize, col: usize) -> (res: bool)
    requires
        row < 8,
        col < 8,
    ensures
        res == ((row + col) % 2 == 1),
{
    (row + col) % 2 == 1
}

/// The zone allows cell `(r, c)`.
fn zone_allows_exec(z: Zone, r: usize, c: usize) -> (res: bool)
    requires
        r < 8,
        c < 8,
    ensures
        res == zone_allows(z, r as int, c as int),
{
    match z {
        Zone::Any => true,
        Zone::Dark => is_dark(r, c),
        Zone::Light => !is_dark(r, c),
        Zone::NotRow(x) => r != x,
    }
}

/// No White pawn stands on rank 8 and no Black pawn on rank 1.
pub open spec fn pawn_rows_ok(g: Seq<Seq<Cell>>) -> bool {
    forall|c: int|
        0 <= c < 8 ==> #[trigger] g[0][c] != Some(Piece::WhitePawn) && g[7][c] != Some(Piece::BlackPawn)
}

/// Every occupied cell of `g` holds the same piece in `h`.
pub open spec fn kept(g: Seq<Seq<Cell>>, h: Seq<Seq<Cell>>) -> bool {
    forall|r: int, c: int| 0 <= r < 8 && 0 <= c < 8 && (#[trigger] g[r][c]) is Some ==> h[r][c] == g[r][c]
}

/// A piece may be placed in the zone without breaking the pawn-rank rule.
pub open spec fn zone_fits(piece: Piece, z: Zone) -> bool {
    &&& piece == Piece::WhitePawn ==> z == Zone::NotRow(0)
    &&& piece == Piece::BlackPawn ==> z == Zone::NotRow(7)
    &&& z matches Zone::NotRow(x) ==> x < 8
}

/// Place `piece` on an empty cell that the zone allows, picked at random. The
/// caller guarantees such a cell exists: fewer pieces stand on the board
/// than the zone has squares.
fn place_on(board: &mut Vec<Vec<Cell>>, piece: Piece, zone: Zone) -> (sq: (usize, usize))
    requires
        wf_grid(grid(old(board)@)),
        board_pieces(grid(old(board)@)).len() < zone_size(zone, 64),
        zone_fits(piece, zone),
        pawn_rows_ok(grid(old(board)@)),
    ensures
        sq.0 < 8 && sq.1 < 8,
        zone_allows(zone, sq.0 as int, sq.1 as int),
        grid(old(board)@)[sq.0 as int][sq.1 as int] is None,
        grid(final(board)@) == grid_set(grid(old(board)@), sq.0 as int, sq.1 as int, Some(piece)),
        wf_grid(grid(final(board)@)),
        board_pieces(grid(final(board)@)) == board_pieces(grid(old(board)@)).insert(piece),
        kept(grid(old(board)@), grid(final(board)@)),
        pawn_rows_ok(grid(final(board)@)),
{
    let ghost g = grid(board@);
    let mut cands: Vec<(usize, usize)> = Vec::new();
    for r in 0..8usize
        invariant
            g == grid(board@),
            wf_grid(g),
            cands@.len() == free_cells(g, zone, 8 * r as int),
            forall|i: int| 0 <= i < cands@.len() ==> (#[trigger] cands@[i]).0 < 8 && cands@[i].1 < 8
                && zone_allows(zone, cands@[i].0 as int, cands@[i].1 as int) && g[cands@[i].0 as int][cands@[i].1 as int] is None,
    {
        for c in 0..8usize
            invariant
                g == grid(board@),
                wf_grid(g),
                r < 8,
                cands@.len() == free_cells(g, zone, 8 * r + c as int),
                forall|i: int| 0 <= i < cands@.len() ==> (#[trigger] cands@[i]).0 < 8 && cands@[i].1 < 8
                    && zone_allows(zone, cands@[i].0 as int, cands@[i].1 as int) && g[cands@[i].0 as int][cands@[i].1 as int] is None,
        {
            proof {
                lemma_index(r as int, c as int);
                assert(cell_k(g, 8 * r + c) == g[r as int][c as int]);
            }
            if get_cell(board, r, c).is_none() && zone_allows_exec(zone, r, c) {
                cands.push((r, c));
            }
        }
    }
    proof {
        lemma_free_bound(g, zone, 64);
        lemma_zone_sizes(zone);
    }
    let (r, c) = choose_square(&cands).unwrap();
    proof {
        let i = choose|i: int| 0 <= i < cands@.len() && cands@[i] == (r, c);
        assert(cands@[i].0 < 8);
        assert(g[r as int][c as int] is None);
        assert(board@[r as int]@ == g[r as int]);
    }
    set_cell(board, r, c, Some(piece));
    proof {
        lemma_set_piece(g, r as int, c as int, piece, 64);
        lemma_index(r as int, c as int);
        assert(wf_grid(grid(board@)));
    }
    (r, c)
}

/// The capped pool of non-king pieces for one colour: one queen, two rooks,
/// two bishops, two knights, eight pawns.
pub fn non_king_pool(white: bool) -> (res: Vec<Piece>)
    ensures
        res@.len() == 15,
        non_king_army(res@, white),
        res@.to_multiset().count(piece_of(white, Kind::Queen)) == 1,
        res@.to_multiset().count(piece_of(white, Kind::Rook)) == 2,
        res@.to_multiset().count(piece_of(white, Kind::Bishop)) == 2,
        res@.to_multiset().count(piece_of(white, Kind::Knight)) == 2,
        res@.to_multiset().count(piece_of(white, Kind::Pawn)) == 8,
{
    let (q, r, b, n, p) = if white {
        (Piece::WhiteQueen, Piece::WhiteRook, Piece::WhiteBishop, Piece::WhiteKnight, Piece::WhitePawn)
    } else {
        (Piece::BlackQueen, Piece::BlackRook, Piece::BlackBishop, Piece::BlackKnight, Piece::BlackPawn)
    };
    let mut pool: Vec<Piece> = Vec::new();
    proof {
        assert(pool@.to_multiset() =~= Multiset::<Piece>::empty());
    }
    pool.push(q);
    pool.push(r);
    pool.push(r);
    pool.push(b);
    pool.push(b);
    pool.push(n);
    pool.push(n);
    for i in 0..8usize
        invariant
            pool@.len() == 7 + i,
            non_king_army(pool@, white),
            p == piece_of(white, Kind::Pawn),
            q == piece_of(white, Kind::Queen),
            r == piece_of(white, Kind::Rook),
            b == piece_of(white, Kind::Bishop),
            n == piece_of(white, Kind::Knight),
            p != q && p != r && p != b && p != n,
            pool@.to_multiset().count(q) == 1,
            pool@.to_multiset().count(r) == 2,
            pool@.to_multiset().count(b) == 2,
            pool@.to_multiset().count(n) == 2,
            pool@.to_multiset().count(p) == i,
    {
        let ghost before = pool@;
        pool.push(p);
        proof {
            assert(pool@ == before.push(p));
            vstd::seq_lib::to_multiset_build(before, p);
            assert(pool@.to_multiset().count(q) == before.to_multiset().count(q));
            assert(pool@.to_multiset().count(r) == before.to_multiset().count(r));
        }
    }
    pool
}

/// A pair of bishops of the colour sits on opposite-coloured squares: one
/// bishop on a dark square and one on a light square.
pub open spec fn bishops_split(g: Seq<Seq<Cell>>, white: bool) -> bool {
    let b = piece_of(white, Kind::Bishop);
    &&& exists|r: int, c: int|
        0 <= r < 8 && 0 <= c < 8 && (r + c) % 2 == 1 && #[trigger] g[r][c] == Some(b)
    &&& exists|r: int, c: int|
        0 <= r < 8 && 0 <= c < 8 && (r + c) % 2 == 0 && #[trigger] g[r][c] == Some(b)
}

/// The rules of a random layout with `n` pieces a side: an 8×8 board, no
/// castling for either side, per colour exactly one king and the capped
/// army of `n` pieces, no White pawn on rank 8 nor Black pawn on rank 1, and
/// a bishop pair on opposite-coloured squares.
pub open spec fn random_layout(o: OverviewView, n: nat) -> bool {
    &&& wf_grid(o.board)
    &&& o.white == "none"@
    &&& o.black == "none"@
    &&& army_counts(board_pieces(o.board), true, n)
    &&& army_counts(board_pieces(o.board), false, n)
    &&& pawn_rows_ok(o.board)
    &&& board_pieces(o.board).count(Piece::WhiteBishop) == 2 ==> bishops_split(o.board, true)
    &&& board_pieces(o.board).count(Piece::BlackBishop) == 2 ==> bishops_split(o.board, false)
}

/// A reordering of a non-king army of one colour is such an army.
proof fn lemma_perm_army(s: Seq<Piece>, t: Seq<Piece>, white: bool)
    requires
        non_king_army(s, white),
        s.to_multiset() == t.to_multiset(),
    ensures
        non_king_army(t, white),
{
    assert forall|i: int| 0 <= i < t.len() implies white_piece(#[trigger] t[i]) == white && kind_of(t[i])
        != Kind::King by {
        assert(t.contains(t[i]));
        assert(t.to_multiset().count(t[i]) > 0);
        assert(s.to_multiset().count(t[i]) > 0);
        assert(s.contains(t[i]));
        let j = choose|j: int| 0 <= j < s.len() && s[j] == t[i];
        assert(white_piece(s[j]) == white);
    }
}

/// The first `pieces - 1` pieces of a reordered pool, with the king, form
/// the capped army of `pieces` pieces of the pool's colour.
proof fn lemma_drawn_army(pool0: Seq<Piece>, pool: Seq<Piece>, white: bool, pieces: nat)
    requires
        pool0.len() == 15,
        non_king_army(pool0, white),
        pool0.to_multiset().count(piece_of(white, Kind::Queen)) == 1,
        pool0.to_multiset().count(piece_of(white, Kind::Rook)) == 2,
        pool0.to_multiset().count(piece_of(white, Kind::Bishop)) == 2,
        pool0.to_multiset().count(piece_of(white, Kind::Knight)) == 2,
        pool0.to_multiset().count(piece_of(white, Kind::Pawn)) == 8,
        pool.len() == 15,
        pool.to_multiset() == pool0.to_multiset(),
        1 <= pieces <= 16,
    ensures
        ({
            let m = pool.take(pieces - 1).to_multiset().insert(piece_of(white, Kind::King));
            army_counts(m, white, pieces) && one_colour(m, white) && m.len() == pieces
        }),
{
    let king = piece_of(white, Kind::King);
    lemma_perm_army(pool0, pool, white);
    let ch = pool.take(pieces - 1);
    let m = ch.to_multiset().insert(king);
    assert(non_king_army(ch, white)) by {
        assert forall|i: int| 0 <= i < ch.len() implies white_piece(#[trigger] ch[i]) == white && kind_of(ch[i])
            != Kind::King by {
            assert(ch[i] == pool[i]);
        }
    }
    lemma_army_sum(ch, white);
    lemma_take_count(pool, pieces - 1, piece_of(white, Kind::Queen));
    lemma_take_count(pool, pieces - 1, piece_of(white, Kind::Rook));
    lemma_take_count(pool, pieces - 1, piece_of(white, Kind::Bishop));
    lemma_take_count(pool, pieces - 1, piece_of(white, Kind::Knight));
    lemma_take_count(pool, pieces - 1, piece_of(white, Kind::Pawn));
    if pieces == 16 {
        assert(ch =~= pool);
    }
    assert forall|p: Piece| #[trigger] m.count(p) > 0 implies white_piece(p) == white by {
        if p != king {
            assert(ch.to_multiset().count(p) > 0);
        }
    }
}

/// Place one colour's `pieces` (king plus a capped, randomly drawn army)
/// onto empty squares; a bishop pair is split across square colours, and
/// pawns avoid their own far rank.
fn place_army(board: &mut Vec<Vec<Cell>>, white: bool, pieces: u8) -> (placed: Ghost<Multiset<Piece>>)
    requires
        wf_grid(grid(old(board)@)),
        1 <= pieces <= 16,
        board_pieces(grid(old(board)@)).len() + pieces <= 32,
        pawn_rows_ok(grid(old(board)@)),
    ensures
        wf_grid(grid(final(board)@)),
        board_pieces(grid(final(board)@)) == board_pieces(grid(old(board)@)).add(placed@),
        army_counts(placed@, white, pieces as nat),
        one_colour(placed@, white),
        placed@.len() == pieces,
        pawn_rows_ok(grid(final(board)@)),
        kept(grid(old(board)@), grid(final(board)@)),
        placed@.count(piece_of(white, Kind::Bishop)) == 2 ==> bishops_split(grid(final(board)@), white),
{
    let ghost g0 = grid(board@);
    let king = if white { Piece::WhiteKing } else { Piece::BlackKing };
    let bishop = if white { Piece::WhiteBishop } else { Piece::BlackBishop };
    let pawn = if white { Piece::WhitePawn } else { Piece::BlackPawn };
    let forbid_pawn_row: usize = if white { 0 } else { 7 };
    proof {
        lemma_zone_sizes(Zone::Any);
        lemma_zone_sizes(Zone::Dark);
        lemma_zone_sizes(Zone::Light);
        lemma_zone_sizes(Zone::NotRow(forbid_pawn_row));
    }
    place_on(board, king, Zone::Any);
    let ghost mut placed: Multiset<Piece> = Multiset::empty().insert(king);
    proof {
        assert(board_pieces(grid(board@)) =~= board_pieces(g0).add(placed));
    }
    let mut pool = non_king_pool(white);
    let ghost pool0 = pool@;
    shuffle_pieces(&mut pool);
    proof {
        lemma_perm_army(pool0, pool@, white);
    }
    let take = (pieces - 1) as usize;
    let mut nb: usize = 0;
    for i in 0..take
        invariant
            take < 16,
            pool@.len() == 15,
            nb <= i,
            nb == pool@.take(i as int).to_multiset().count(bishop),
    {
        proof {
            assert(pool@.take(i + 1) =~= pool@.take(i as int).push(pool@[i as int]));
        }
        if pool[i] == bishop {
            nb = nb + 1;
        }
    }
    let ghost mut dark_sq: (usize, usize) = (0, 0);
    let ghost mut light_sq: (usize, usize) = (0, 0);
    if nb == 2 {
        let d = place_on(board, bishop, Zone::Dark);
        proof {
            dark_sq = d;
            placed = placed.insert(bishop);
            assert(board_pieces(grid(board@)) =~= board_pieces(g0).add(placed));
        }
        let ghost g_d = grid(board@);
        let l = place_on(board, bishop, Zone::Light);
        proof {
            light_sq = l;
            placed = placed.insert(bishop);
            assert(board_pieces(grid(board@)) =~= board_pieces(g0).add(placed));
            assert(g_d[d.0 as int][d.1 as int] == Some(bishop));
            assert(grid(board@)[l.0 as int][l.1 as int] == Some(bishop));
            assert(grid(board@)[d.0 as int][d.1 as int] == Some(bishop));
        }
    } else if nb == 1 {
        place_on(board, bishop, Zone::Any);
        proof {
            placed = placed.insert(bishop);
            assert(board_pieces(grid(board@)) =~= board_pieces(g0).add(placed));
        }
    }
    let ghost g_b = grid(board@);
    proof {
        lemma_take_count(pool@, take as int, bishop);
        assert(pool@.to_multiset().count(bishop) == 2);
        assert(nb <= 2);
        assert(king != bishop);
        assert(kept(g0, g_b));
        assert(placed.len() <= 3);
        assert forall|x: Piece| #[trigger] placed.count(x) == (if x == king { 1nat } else { 0nat }) + (if x == bishop {
            nb as nat
        } else {
            pool@.take(0).to_multiset().count(x)
        }) by {
            assert(pool@.take(0).to_multiset() =~= Multiset::<Piece>::empty());
        }
    }
    for i in 0..take
        invariant
            take < 16,
            take == pieces - 1,
            pool@.len() == 15,
            non_king_army(pool@, white),
            king == piece_of(white, Kind::King),
            bishop == piece_of(white, Kind::Bishop),
            pawn == piece_of(white, Kind::Pawn),
            forbid_pawn_row == (if white { 0usize } else { 7usize }),
            zone_size(Zone::Any, 64) == 64,
            zone_size(Zone::NotRow(forbid_pawn_row), 64) == 56,
            board_pieces(g0).len() + pieces <= 32,
            wf_grid(grid(board@)),
            pawn_rows_ok(grid(board@)),
            kept(g0, grid(board@)),
            kept(g_b, grid(board@)),
            board_pieces(grid(board@)) == board_pieces(g0).add(placed),
            placed.len() <= 3 + i,
            forall|x: Piece| #[trigger] placed.count(x) == (if x == king { 1nat } else { 0nat }) + (if x == bishop {
                nb as nat
            } else {
                pool@.take(i as int).to_multiset().count(x)
            }),
    {
        let t = pool[i];
        let ghost before = placed;
        let ghost g_i = grid(board@);
        proof {
            assert(pool@.take(i + 1) =~= pool@.take(i as int).push(t));
            assert(white_piece(t) == white && kind_of(t) != Kind::King);
        }
        if t != bishop {
            if t == pawn {
                place_on(board, t, Zone::NotRow(forbid_pawn_row));
            } else {
                place_on(board, t, Zone::Any);
            }
            proof {
                placed = placed.insert(t);
                assert(board_pieces(grid(board@)) =~= board_pieces(g0).add(placed));
                assert(kept(g0, grid(board@)));
                assert(kept(g_b, grid(board@)));
            }
        }
        proof {
            assert forall|x: Piece| #[trigger] placed.count(x) == (if x == king { 1nat } else { 0nat }) + (if x == bishop {
                nb as nat
            } else {
                pool@.take(i + 1).to_multiset().count(x)
            }) by {
                assert(before.count(x) == (if x == king { 1nat } else { 0nat }) + (if x == bishop {
                    nb as nat
                } else {
                    pool@.take(i as int).to_multiset().count(x)
                }));
            }
        }
    }
    proof {
        assert(placed =~= pool@.take(take as int).to_multiset().insert(king));
        lemma_drawn_army(pool0, pool@, white, pieces as nat);
        if nb == 2 {
            let g = grid(board@);
            assert(g[dark_sq.0 as int][dark_sq.1 as int] == Some(bishop));
            assert(g[light_sq.0 as int][light_sq.1 as int] == Some(bishop));
        }
    }
    Ghost(placed)
}

/// An empty 8×8 board.
fn empty_board() -> (res: Vec<Vec<Cell>>)
    ensures
        wf_grid(grid(res@)),
        forall|r: int, c: int| 0 <= r < 8 && 0 <= c < 8 ==> (#[trigger] grid(res@)[r][c]) is None,
{
    let mut board: Vec<Vec<Cell>> = Vec::new();
    for r in 0..8usize
        invariant
            board@.len() == r,
            forall|i: int| 0 <= i < r ==> (#[trigger] board@[i])@ == Seq::new(8, |j: int| None::<Piece>),
    {
        let mut row: Vec<Cell> = Vec::new();
        for c in 0..8usize
            invariant
                row@ == Seq::new(c as nat, |j: int| None::<Piece>),
        {
            row.push(None);
        }
        board.push(row);
    }
    board
}

/// Build a random layout with exactly `pieces` pieces of each colour: one
/// king each, a capped army, no castling rights, no pawn on its own far
/// rank, and any bishop pair on opposite-coloured squares. The count is
/// validated by the caller (`1..=16`; the service accepts `2..=16`).
pub fn random_overview(pieces: u8) -> (res: Overview)
    requires
        1 <= pieces <= 16,
    ensures
        random_layout(res@, pieces as nat),
        res.board@.len() == 8,
{
    let mut board = empty_board();
    proof {
        lemma_empty_pieces(grid(board@), 64);
    }
    let white = place_army(&mut board, true, pieces);
    let black = place_army(&mut board, false, pieces);
    let res = Overview { board, white: String::from_str("none"), black: String::from_str("none") };
    proof {
        let m = board_pieces(res@.board);
        assert(m =~= white@.add(black@));
        assert(forall|p: Piece| #[trigger] white_piece(p) ==> black@.count(p) == 0);
        assert(forall|p: Piece| !#[trigger] white_piece(p) ==> white@.count(p) == 0);
    }
    res
}
} // verus!
