//! The Stockfish opponent: FEN serialisation of the stored position, reading
//! of the engine's reply, applying Black's move, and scoring the result.
//! Whether Black has a move, and whether Black's reply mates White, is the
//! engine's call; this module runs no legal-move generator.

pub mod fen;

pub use self::fen::to_fen;

use vstd::prelude::*;
use vstd::string::*;

use crate::game::overview::{Cell, Overview, OverviewView, copy_board, grid, grid_set, set_cell, wf_grid};
use crate::game::piece::{Kind, Piece, kind_of, piece_of, promo_kind, white_piece};
use crate::game::square::{Square, algebraic_chars, on_board, parse_square};
use crate::game::{Game, GameView, Registry, copy_pieces, storable};
use crate::moves::rules::{CastleSpent, after_move, castle_attempt, cell, covers_board, in_check, spent_after_reply};
use crate::moves::{board_after, game_after_move, get_cell, is_in_check};
use crate::outside::{parse_uuid, parsed_uuid};

verus! {

/// The game state carried in the opponent's reply.
#[derive(Debug, Clone, Copy, PartialEq, Eq, Structural)]
pub enum GameStatus {
    /// An ordinary reply; White is to move and not in check.
    Move,
    /// Black's reply gives check.
    WhiteInCheck,
    /// Black's reply mates White (the engine scored it mate in 1).
    WhiteInCheckmate,
    /// Black has no move and is in check.
    BlackInCheckmate,
    /// Black has no move and is not in check: a draw.
    BlackInStalemate,
}

impl GameStatus {
    /// The stable wire string carried in the `status` field.
    pub fn as_str(self) -> (res: &'static str)
        ensures
            self == GameStatus::Move ==> res@ == "move"@,
            self == GameStatus::WhiteInCheck ==> res@ == "white-in-check"@,
            self == GameStatus::WhiteInCheckmate ==> res@ == "white-in-checkmate"@,
            self == GameStatus::BlackInCheckmate ==> res@ == "black-in-checkmate"@,
            self == GameStatus::BlackInStalemate ==> res@ == "black-in-stalemate"@,
    {
        match self {
            GameStatus::Move => "move",
            GameStatus::WhiteInCheck => "white-in-check",
            GameStatus::WhiteInCheckmate => "white-in-checkmate",
            GameStatus::BlackInCheckmate => "black-in-checkmate",
            GameStatus::BlackInStalemate => "black-in-stalemate",
        }
    }
}

/// The status of the position after Black's reply: mate in one by the
/// engine's decision, else check as the server finds it, else a plain move.
pub open spec fn status_after(g: Seq<Seq<Cell>>, mate_in: Option<i32>) -> GameStatus {
    if mate_in == Some(1i32) {
        GameStatus::WhiteInCheckmate
    } else if in_check(g, true) {
        GameStatus::WhiteInCheck
    } else {
        GameStatus::Move
    }
}

/// Score the position after Black's reply for White, who is now to move.
pub fn game_status(board: &Vec<Vec<Cell>>, mate_in: Option<i32>) -> (res: GameStatus)
    requires
        covers_board(grid(board@)),
    ensures
        res == status_after(grid(board@), mate_in),
{
    let mate_in_one = match mate_in {
        Some(n) => n == 1,
        None => false,
    };
    if mate_in_one {
        GameStatus::WhiteInCheckmate
    } else if is_in_check(board, true) {
        GameStatus::WhiteInCheck
    } else {
        GameStatus::Move
    }
}

/// A parsed UCI long-algebraic move: two squares and an optional promotion.
#[derive(Debug, Clone, Copy, PartialEq, Eq, Structural)]
pub struct UciMove {
    pub from: Square,
    pub to: Square,
    /// The promotion kind; the colour is the mover's.
    pub promo: Option<Kind>,
}

/// A UCI move `fftt` or `fttp`: two algebraic squares, then an optional
/// promotion letter (a fifth character that is not `q r b n` in either case
/// names no promotion).
pub open spec fn uci_of(s: Seq<char>) -> Option<UciMove> {
    if s.len() >= 4 && parse_square(s.subrange(0, 2)) is Some && parse_square(s.subrange(2, 4)) is Some {
        Some(
            UciMove {
                from: parse_square(s.subrange(0, 2))->0,
                to: parse_square(s.subrange(2, 4))->0,
                promo: if s.len() > 4 {
                    promo_kind(s[4])
                } else {
                    None
                },
            },
        )
    } else {
        None
    }
}

/// Split a UCI move (`"c7c5"`, `"a2a1q"`) into its squares and optional
/// promotion; `None` when malformed.
pub fn parse_uci(s: &str) -> (res: Option<UciMove>)
    ensures
        res == uci_of(s@),
        res matches Some(m) ==> on_board(m.from) && on_board(m.to),
{
    let n = s.unicode_len();
    if n < 4 {
        return None;
    }
    let from = match Square::parse(s.substring_char(0, 2)) {
        Some(sq) => sq,
        None => return None,
    };
    let to = match Square::parse(s.substring_char(2, 4)) {
        Some(sq) => sq,
        None => return None,
    };
    let promo = if n > 4 {
        Kind::from_promo(s.get_char(4))
    } else {
        None
    };
    Some(UciMove { from, to, promo })
}

/// The board after Black's move: the move applied, and on a promotion the
/// target holding the Black piece of the promotion kind.
pub open spec fn black_move_board(g: Seq<Seq<Cell>>, m: UciMove) -> Seq<Seq<Cell>> {
    match m.promo {
        Some(k) => grid_set(after_move(g, m.from, m.to), m.to.row as int, m.to.col as int, Some(piece_of(false, k))),
        None => after_move(g, m.from, m.to),
    }
}

/// The board with Black's move applied, and whatever stood on the target
/// (a White piece, for a capture).
pub fn apply_black_move(board: &Vec<Vec<Cell>>, uci: &UciMove) -> (res: (Vec<Vec<Cell>>, Option<Piece>))
    requires
        covers_board(grid(board@)),
        on_board(uci.from),
        on_board(uci.to),
    ensures
        grid(res.0@) == black_move_board(grid(board@), *uci),
        res.0@.len() == board@.len(),
        res.1 == cell(grid(board@), uci.to),
{
    let capture = get_cell(board, uci.to.row, uci.to.col);
    proof {
        assert(board@[uci.from.row as int]@ == grid(board@)[uci.from.row as int]);
        assert(board@[uci.to.row as int]@ == grid(board@)[uci.to.row as int]);
    }
    let mut next = board_after(board, uci.from, uci.to);
    if let Some(kind) = uci.promo {
        proof {
            assert(next@[uci.to.row as int]@ == grid(next@)[uci.to.row as int]);
        }
        set_cell(&mut next, uci.to.row, uci.to.col, Some(Piece::black(kind)));
    }
    (next, capture)
}


/// The score of one engine line: its unit (`"cp"` or `"mate"`) and value.
pub struct Score {
    pub unit: String,
    pub value: i32,
}

/// One line of the engine's analysis: its search depth and score, each
/// possibly absent.
pub struct InfoLine {
    pub depth: Option<i32>,
    pub score: Option<Score>,
}

/// The line carries both a depth and a score.
pub open spec fn scored(l: InfoLine) -> bool {
    l.depth is Some && l.score is Some
}

/// Line `i` is the deepest scored line, the last one among equally deep.
pub open spec fn is_deepest(info: Seq<InfoLine>, i: int) -> bool {
    &&& 0 <= i < info.len()
    &&& scored(info[i])
    &&& forall|j: int| 0 <= j < info.len() && scored(#[trigger] info[j]) ==> info[j].depth->0 <= info[i].depth->0
    &&& forall|j: int| i < j < info.len() && scored(#[trigger] info[j]) ==> info[j].depth->0 < info[i].depth->0
}

/// The mate distance of a line scored in mate units.
pub open spec fn mate_of(l: InfoLine) -> Option<i32> {
    match l.score {
        Some(s) => if s.unit@ == "mate"@ {
            Some(s.value)
        } else {
            None
        },
        None => None,
    }
}

/// The mate distance of the deepest scored line, `None` for a centipawn
/// score or when no line is scored.
pub open spec fn deepest_mate(info: Seq<InfoLine>) -> Option<i32> {
    if exists|i: int| is_deepest(info, i) {
        mate_of(info[choose|i: int| is_deepest(info, i)])
    } else {
        None
    }
}

/// At most one line is the deepest.
proof fn lemma_deepest_unique(info: Seq<InfoLine>, i: int, k: int)
    requires
        is_deepest(info, i),
        is_deepest(info, k),
    ensures
        i == k,
{
    if i < k {
        assert(scored(info[k]));
    } else if k < i {
        assert(scored(info[i]));
    }
}

/// The mate distance of the deepest scored analysis line (the last of the
/// deepest on a tie): `Some(n)` for a mate score, `None` for a centipawn
/// score or when no line carries both depth and score.
pub fn deepest_mate_in(info: &Vec<InfoLine>) -> (res: Option<i32>)
    ensures
        res == deepest_mate(info@),
{
    let mut best: Option<usize> = None;
    let n = info.len();
    for i in 0..n
        invariant
            n == info@.len(),
            match best {
                Some(b) => is_deepest(info@.take(i as int), b as int),
                None => forall|j: int| 0 <= j < i ==> !scored(#[trigger] info@[j]),
            },
    {
        let ghost pre = info@.take(i as int);
        let ghost post = info@.take(i + 1);
        proof {
            assert(post =~= pre.push(info@[i as int]));
        }
        let line = &info[i];
        let newer = match (line.depth, &line.score) {
            (Some(d), Some(_)) => match best {
                None => true,
                Some(b) => match info[b].depth {
                    Some(bd) => d >= bd,
                    None => true,
                },
            },
            _ => false,
        };
        if newer {
            proof {
                assert forall|j: int| 0 <= j < post.len() && scored(#[trigger] post[j]) implies post[j].depth->0
                    <= post[i as int].depth->0 by {
                    if j < i {
                        assert(post[j] == pre[j]);
                    }
                }
            }
            best = Some(i);
        } else {
            proof {
                if let Some(b) = best {
                    assert forall|j: int| 0 <= j < post.len() && scored(#[trigger] post[j]) implies post[j].depth->0
                        <= post[b as int].depth->0 by {
                        if j < i {
                            assert(post[j] == pre[j]);
                        }
                    }
                    assert forall|j: int| b < j < post.len() && scored(#[trigger] post[j]) implies post[j].depth->0
                        < post[b as int].depth->0 by {
                        if j < i {
                            assert(post[j] == pre[j]);
                        }
                    }
                    assert(post[b as int] == pre[b as int]);
                }
            }
        }
    }
    proof {
        assert(info@.take(n as int) =~= info@);
    }
    match best {
        None => {
            proof {
                if exists|i: int| is_deepest(info@, i) {
                    let i = choose|i: int| is_deepest(info@, i);
                    assert(scored(info@[i]));
                }
            }
            None
        },
        Some(b) => {
            proof {
                let c = choose|i: int| is_deepest(info@, i);
                lemma_deepest_unique(info@, b as int, c);
            }
            match &info[b].score {
                Some(s) => {
                    if s.unit == String::from_str("mate") {
                        Some(s.value)
                    } else {
                        None
                    }
                },
                None => None,
            }
        },
    }
}

/// The parsed engine reply: the best move (`None` when the engine reports
/// `(none)`, Black having no move), and the mate distance of its deepest
/// line.
#[derive(Debug, Clone, Copy, PartialEq, Eq, Structural)]
pub struct EngineReply {
    pub best: Option<UciMove>,
    pub mate_in: Option<i32>,
}

/// An engine transport or protocol failure.
#[derive(Debug, Clone, Copy, PartialEq, Eq, Structural)]
pub struct EngineError;

/// Read the engine's answer: `"(none)"` is no move (a game-over signal, not
/// an error), any other best move must be a UCI move, and the mate distance
/// comes from the deepest scored line.
pub fn engine_reply(bestmove: &str, info: &Vec<InfoLine>) -> (res: Result<EngineReply, EngineError>)
    ensures
        bestmove@ == "(none)"@ ==> res == Ok::<EngineReply, EngineError>(EngineReply { best: None, mate_in: deepest_mate(info@) }),
        bestmove@ != "(none)"@ ==> res == match uci_of(bestmove@) {
            Some(m) => Ok::<EngineReply, EngineError>(EngineReply { best: Some(m), mate_in: deepest_mate(info@) }),
            None => Err(EngineError),
        },
        match res {
            Ok(r) => match r.best {
                Some(m) => on_board(m.from) && on_board(m.to),
                None => true,
            },
            Err(_) => true,
        },
{
    let none = String::from_str(bestmove) == String::from_str("(none)");
    let best = if none {
        None
    } else {
        match parse_uci(bestmove) {
            Some(m) => Some(m),
            None => return Err(EngineError),
        }
    };
    Ok(EngineReply { best, mate_in: deepest_mate_in(info) })
}


/// The opponent's reply: Black's move (absent when Black has none), the
/// moved piece and any capture, the resulting status, and the position.
pub struct OpponentReply {
    pub from: Option<String>,
    pub to: Option<String>,
    pub piece: Option<Piece>,
    pub capture: Option<Piece>,
    pub status: GameStatus,
    pub overview: Overview,
}

/// Outcome of the opponent step: a reply, no such game, or the engine could
/// not be reached.
pub enum OpponentOutcome {
    Reply(Box<OpponentReply>),
    UnknownGame,
    EngineUnavailable,
}

/// The stored position of the game named by `uuid`, to be serialised for
/// the engine; `None` for an unknown game.
pub fn opponent_position(registry: &Registry, uuid: &str) -> (res: Option<(u128, Overview)>)
    ensures
        match parsed_uuid(uuid@) {
            Some(id) if registry@.contains_key(id) => res matches Some(p) && p.0 == id && p.1@
                == registry@[id].overview && wf_grid(p.1@.board) && p.1.board@.len() == 8,
            _ => res is None,
        },
{
    let id = match parse_uuid(uuid) {
        Some(id) => id,
        None => return None,
    };
    match registry.get(id) {
        Some(game) => Some((id, game.overview.duplicate())),
        None => None,
    }
}

/// The square a Black pawn skips when Black's move `m` on the board `g` is
/// that pawn's two-square advance from rank 7 to rank 5; `None` for any other
/// move.
pub open spec fn skipped_square(g: Seq<Seq<Cell>>, m: UciMove) -> Option<Square> {
    if cell(g, m.from) == Some(Piece::BlackPawn) && m.from.row == 1 && m.to.row == 3 && m.from.col == m.to.col {
        Some(Square { row: 2, col: m.from.col })
    } else {
        None
    }
}

/// The game after Black's move: its board replaced, any captured piece
/// appended to its taken list, the square a two-square pawn advance
/// skipped left open to an en-passant capture (else none), and White's
/// castling right on a side used up when Black lands on that rook's corner.
pub open spec fn game_after_reply(game: GameView, g: Seq<Seq<Cell>>, m: UciMove) -> GameView {
    GameView {
        overview: OverviewView { board: black_move_board(g, m), ..game.overview },
        taken: match cell(g, m.to) {
            Some(p) => game.taken.push(p),
            None => game.taken,
        },
        en_passant: skipped_square(g, m),
        castle_spent: spent_after_reply(game.castle_spent, m.to),
        ..game
    }
}

/// The reply reports Black's move `m` on the board `g`: its squares in
/// algebraic form, the moved piece, whatever stood on the target, the status
/// of the new position, and the stored position.
pub open spec fn reply_moved(r: OpponentReply, g: Seq<Seq<Cell>>, m: UciMove, mate_in: Option<i32>, stored: OverviewView) -> bool {
    &&& r.from is Some && r.from->0@ == algebraic_chars(m.from)
    &&& r.to is Some && r.to->0@ == algebraic_chars(m.to)
    &&& r.piece == cell(g, m.from)
    &&& r.capture == cell(g, m.to)
    &&& r.status == status_after(black_move_board(g, m), mate_in)
    &&& r.overview@ == stored
}

/// Apply the engine's reply to the game `id` whose position was `overview`.
/// With no Black move the game is over: checkmate when Black is in check,
/// else stalemate, and nothing changes. Otherwise Black's move is applied,
/// any captured White piece recorded, and the position scored.
pub fn opponent_reply(registry: &mut Registry, id: u128, overview: &Overview, reply: EngineReply) -> (res: OpponentOutcome)
    requires
        wf_grid(overview@.board),
        overview.board@.len() == 8,
        reply.best matches Some(m) ==> on_board(m.from) && on_board(m.to),
    ensures
        final(registry)@.dom() == old(registry)@.dom(),
        ({
            let g = overview@.board;
            match reply.best {
                None => {
                    &&& final(registry)@ == old(registry)@
                    &&& res matches OpponentOutcome::Reply(r) && r.from is None && r.to is None && r.piece is None
                        && r.capture is None && r.overview@ == overview@ && r.status == (if in_check(g, false) {
                        GameStatus::BlackInCheckmate
                    } else {
                        GameStatus::BlackInStalemate
                    })
                },
                Some(m) => if old(registry)@.contains_key(id) {
                    let stored = game_after_reply(old(registry)@[id], g, m);
                    &&& final(registry)@ == old(registry)@.insert(id, stored)
                    &&& res matches OpponentOutcome::Reply(r) && reply_moved(*r, g, m, reply.mate_in, stored.overview)
                } else {
                    final(registry)@ == old(registry)@ && res is UnknownGame
                },
            }
        }),
{
    let ghost g = overview@.board;
    proof {
        assert(grid(overview.board@) == g);
    }
    match reply.best {
        None => {
            let status = if is_in_check(&overview.board, false) {
                GameStatus::BlackInCheckmate
            } else {
                GameStatus::BlackInStalemate
            };
            OpponentOutcome::Reply(
                Box::new(
                    OpponentReply {
                        from: None,
                        to: None,
                        piece: None,
                        capture: None,
                        status,
                        overview: overview.duplicate(),
                    },
                ),
            )
        },
        Some(uci) => {
            let piece = get_cell(&overview.board, uci.from.row, uci.from.col);
            let (next_board, capture) = apply_black_move(&overview.board, &uci);
            proof {
                assert(wf_grid(grid(next_board@)));
            }
            let status = game_status(&next_board, reply.mate_in);
            let (mode, taken, white, black, spent) = match registry.get(id) {
                Some(game) => (
                    game.mode,
                    copy_pieces(&game.taken),
                    game.overview.white.clone(),
                    game.overview.black.clone(),
                    game.castle_spent,
                ),
                None => return OpponentOutcome::UnknownGame,
            };
            let ghost game = registry@[id];
            let mut taken = taken;
            if let Some(p) = capture {
                taken.push(p);
            }
            let stored = Overview { board: next_board, white, black };
            let echo = stored.duplicate();
            let skipped = match piece {
                Some(Piece::BlackPawn) => if uci.from.row == 1 && uci.to.row == 3 && uci.from.col == uci.to.col {
                    Some(Square::new(2, uci.from.col))
                } else {
                    None
                },
                _ => None,
            };
            let castle_spent = CastleSpent {
                short: spent.short || (uci.to.row == 7 && uci.to.col == 7),
                long: spent.long || (uci.to.row == 7 && uci.to.col == 0),
            };
            let updated = Game { uuid: id, mode, overview: stored, taken, en_passant: skipped, castle_spent };
            proof {
                assert(updated@ == game_after_reply(game, g, uci));
            }
            registry.replace(updated);
            proof {
                assert(registry@.dom() =~= old(registry)@.dom());
            }
            OpponentOutcome::Reply(
                Box::new(
                    OpponentReply {
                        from: Some(uci.from.algebraic()),
                        to: Some(uci.to.algebraic()),
                        piece,
                        capture,
                        status,
                        overview: echo,
                    },
                ),
            )
        },
    }
}

/// A White move and Black's reply change only the board, the taken list,
/// the square open to an en-passant capture, the record of used-up castling
/// rights and, when White castles, White's castling availability (then
/// `none`): the
/// game's UUID and mode stay as they were, Black's availability always does,
/// White's does on every other move, and the taken list only grows (what was
/// taken stays taken, in order).
pub proof fn lemma_moves_keep_the_game_fields(
    game: GameView,
    from: Square,
    to: Square,
    capture: Option<Piece>,
    g: Seq<Seq<Cell>>,
    m: UciMove,
)
    ensures
        ({
            let w = game_after_move(game, from, to, capture);
            &&& w.uuid == game.uuid && w.mode == game.mode
            &&& w.overview.black == game.overview.black
            &&& w.overview.white == if castle_attempt(game.overview.board, from, to) {
                "none"@
            } else {
                game.overview.white
            }
            &&& game.taken.is_prefix_of(w.taken)
        }),
        ({
            let b = game_after_reply(game, g, m);
            &&& b.uuid == game.uuid && b.mode == game.mode
            &&& b.overview.white == game.overview.white && b.overview.black == game.overview.black
            &&& game.taken.is_prefix_of(b.taken)
        }),
{
    let w = game_after_move(game, from, to, capture);
    let b = game_after_reply(game, g, m);
    assert(game.taken =~= w.taken.take(game.taken.len() as int));
    assert(game.taken =~= b.taken.take(game.taken.len() as int));
}

/// Only the engine's mate in one is checkmate: the status is
/// `WhiteInCheckmate` exactly when the deepest line is scored mate 1; for any
/// other score (none, a longer mate, a mate against Black) it is
/// `WhiteInCheck` when White's king is attacked and `Move` when it is not.
pub proof fn lemma_only_mate_in_one_is_checkmate(g: Seq<Seq<Cell>>, mate_in: Option<i32>)
    ensures
        (status_after(g, mate_in) == GameStatus::WhiteInCheckmate) <==> (mate_in == Some(1i32)),
        mate_in != Some(1i32) && in_check(g, true) ==> status_after(g, mate_in) == GameStatus::WhiteInCheck,
        mate_in != Some(1i32) && !in_check(g, true) ==> status_after(g, mate_in) == GameStatus::Move,
{
}

/// Black's move leaves its source empty, puts on its target the moving
/// piece, or on a promotion a Black piece of the promotion kind, and leaves
/// every other cell of the board as it was.
pub proof fn lemma_black_move_cells(g: Seq<Seq<Cell>>, m: UciMove, r: int, c: int)
    requires
        covers_board(g),
        on_board(m.from),
        on_board(m.to),
        0 <= r < 8,
        0 <= c < 8,
    ensures
        ({
            let h = black_move_board(g, m);
            let (fr, fc, tr, tc) = (m.from.row as int, m.from.col as int, m.to.row as int, m.to.col as int);
            &&& h.len() == g.len()
            &&& m.from != m.to ==> h[fr][fc] is None
            &&& match m.promo {
                Some(k) => h[tr][tc] matches Some(x) && !white_piece(x) && kind_of(x) == k,
                None => h[tr][tc] == g[fr][fc],
            }
            &&& (r != fr || c != fc) && (r != tr || c != tc) ==> h[r][c] == g[r][c]
        }),
{
    if let Some(k) = m.promo {
        crate::game::piece::lemma_colour_and_kind(Piece::WhitePawn, k);
    }
}

} // verus!
