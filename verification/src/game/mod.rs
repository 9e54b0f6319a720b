//! Game lifecycle: the game model, the in-memory registry of games keyed by
//! their UUID, and the `start_game` and `setup_board` steps.

pub mod layout;
pub mod overview;
pub mod piece;
pub mod square;

use std::collections::HashMap;

use vstd::prelude::*;

use crate::game::overview::{Overview, OverviewView, random_layout, random_overview, standard_grid, standard_overview, wf_grid};
use crate::game::piece::Piece;
use crate::game::square::Square;
use crate::moves::rules::CastleSpent;
use crate::outside::{is_v4, new_uuid_v4, parse_uuid, parsed_uuid, uuid_text};

verus! {

broadcast use vstd::std_specs::hash::group_hash_axioms;

/// Requested layout mode.
#[derive(Debug, Clone, Copy, PartialEq, Eq, Structural)]
pub enum Mode {
    Standard,
    Random,
}

impl Mode {
    /// The wire name of the mode.
    pub fn as_str(self) -> (res: &'static str)
        ensures
            self == Mode::Standard ==> res@ == "standard"@,
            self == Mode::Random ==> res@ == "random"@,
    {
        match self {
            Mode::Standard => "standard",
            Mode::Random => "random",
        }
    }
}

/// A created game: its id, its mode, the position served to the front end,
/// the pieces taken so far, the square a Black pawn skipped over with a
/// two-square advance on the last move, which a White pawn may take en
/// passant (`None` when the last move was anything else), and which of
/// White's castling rights a king or rook move has used up.
pub struct Game {
    pub uuid: u128,
    pub mode: Mode,
    pub overview: Overview,
    pub taken: Vec<Piece>,
    pub en_passant: Option<Square>,
    pub castle_spent: CastleSpent,
}

/// The mathematical value of a game.
pub struct GameView {
    pub uuid: u128,
    pub mode: Mode,
    pub overview: OverviewView,
    pub taken: Seq<Piece>,
    pub en_passant: Option<Square>,
    pub castle_spent: CastleSpent,
}

impl View for Game {
    type V = GameView;

    open spec fn view(&self) -> GameView {
        GameView {
            uuid: self.uuid,
            mode: self.mode,
            overview: self.overview@,
            taken: self.taken@,
            en_passant: self.en_passant,
            castle_spent: self.castle_spent,
        }
    }
}

/// The in-memory registry of games, keyed by UUID. Every stored game sits
/// under its own UUID and holds an 8×8 board.
pub struct Registry {
    games: HashMap<u128, Game>,
}

impl View for Registry {
    type V = Map<u128, GameView>;

    closed spec fn view(&self) -> Map<u128, GameView> {
        self.games@.map_values(|g: Game| g@)
    }
}

/// A game that may be stored: an 8×8 board.
pub open spec fn storable(g: GameView) -> bool {
    wf_grid(g.overview.board)
}

impl Registry {
    #[verifier::type_invariant]
    closed spec fn well_formed(self) -> bool {
        forall|id: u128|
            #[trigger] self.games@.contains_key(id) ==> self.games@[id].uuid == id && storable(
                self.games@[id]@,
            ) && self.games@[id].overview.board@.len() == 8
    }

    /// An empty registry.
    pub fn new() -> (res: Registry)
        ensures
            res@ == Map::<u128, GameView>::empty(),
    {
        let res = Registry { games: HashMap::new() };
        assert(res@ =~= Map::<u128, GameView>::empty());
        res
    }

    /// Store `game` under its UUID, replacing any game stored there.
    pub fn insert(&mut self, game: Game)
        requires
            storable(game@),
            game.overview.board@.len() == 8,
        ensures
            final(self)@ == old(self)@.insert(game.uuid, game@),
    {
        proof {
            use_type_invariant(&*self);
        }
        let id = game.uuid;
        let ghost gv = game@;
        let mut games: HashMap<u128, Game> = HashMap::new();
        std::mem::swap(&mut games, &mut self.games);
        games.insert(id, game);
        self.games = games;
        assert(self@ =~= old(self)@.insert(id, gv));
    }

    /// The stored game with this UUID value, if any.
    pub fn get(&self, id: u128) -> (res: Option<&Game>)
        ensures
            match res {
                Some(g) => self@.contains_key(id) && self@[id] == g@ && g.overview.board@.len() == 8
                    && g.uuid == id && storable(g@),
                None => !self@.contains_key(id),
            },
    {
        proof {
            use_type_invariant(self);
        }
        self.games.get(&id)
    }

    /// Replace the stored game `id` (already present) by `game`.
    pub(crate) fn replace(&mut self, game: Game)
        requires
            old(self)@.contains_key(game.uuid),
            storable(game@),
            game.overview.board@.len() == 8,
        ensures
            final(self)@ == old(self)@.insert(game.uuid, game@),
    {
        self.insert(game);
    }
}

/// A copy of a list of pieces.
pub fn copy_pieces(v: &Vec<Piece>) -> (res: Vec<Piece>)
    ensures
        res@ == v@,
{
    let mut out: Vec<Piece> = Vec::new();
    let n = v.len();
    for i in 0..n
        invariant
            n == v@.len(),
            out@ == v@.subrange(0, i as int),
    {
        out.push(v[i]);
    }
    assert(out@ =~= v@);
    out
}

/// The position a new game of the mode starts from.
pub open spec fn fresh_position(o: OverviewView, mode: Mode, pieces: u8) -> bool {
    match mode {
        Mode::Standard => o.board == standard_grid() && o.white == "both"@ && o.black == "both"@,
        Mode::Random => random_layout(o, pieces as nat),
    }
}

/// Create a new game under a fresh version-4 UUID, build its overview for
/// the mode (`pieces` is ignored for `Standard`), register it, and return
/// the UUID as text (the form every later request names the game by) and
/// the overview. The text reads back as the very id the game is stored
/// under.
pub fn start_game(registry: &mut Registry, mode: Mode, pieces: u8) -> (res: (String, Overview))
    requires
        mode == Mode::Random ==> 1 <= pieces <= 16,
    ensures
        parsed_uuid(res.0@) is Some,
        ({
            let id = parsed_uuid(res.0@)->0;
            &&& is_v4(id)
            &&& fresh_position(res.1@, mode, pieces)
            &&& final(registry)@ == old(registry)@.insert(
                id,
                GameView {
                    uuid: id,
                    mode,
                    overview: res.1@,
                    taken: Seq::empty(),
                    en_passant: None,
                    castle_spent: CastleSpent { short: false, long: false },
                },
            )
        }),
{
    let overview = match mode {
        Mode::Standard => standard_overview(),
        Mode::Random => random_overview(pieces),
    };
    let uuid = new_uuid_v4();
    let echo = overview.duplicate();
    let game = Game {
        uuid,
        mode,
        overview,
        taken: Vec::new(),
        en_passant: None,
        castle_spent: CastleSpent { short: false, long: false },
    };
    registry.insert(game);
    (uuid_text(uuid), echo)
}

/// Install `overview` as the stored position of the game named by `uuid`
/// (no Black advance is then open to an en-passant capture, and White's
/// castling rights are those its availability gives) and echo it back; `None`, with nothing changed and no game created, when
/// no such game exists. No legality check is made.
pub fn setup_board(registry: &mut Registry, uuid: &str, overview: Overview) -> (res: Option<Overview>)
    requires
        wf_grid(overview@.board),
        overview.board@.len() == 8,
    ensures
        final(registry)@.dom() == old(registry)@.dom(),
        match parsed_uuid(uuid@) {
            Some(id) if old(registry)@.contains_key(id) => {
                &&& res matches Some(o) && o@ == overview@
                &&& final(registry)@ == old(registry)@.insert(
                    id,
                    GameView {
                        overview: overview@,
                        en_passant: None,
                        castle_spent: CastleSpent { short: false, long: false },
                        ..old(registry)@[id]
                    },
                )
            },
            _ => res is None && final(registry)@ == old(registry)@,
        },
{
    let id = match parse_uuid(uuid) {
        Some(id) => id,
        None => return None,
    };
    let (mode, taken) = match registry.get(id) {
        Some(game) => (game.mode, copy_pieces(&game.taken)),
        None => return None,
    };
    let echo = overview.duplicate();
    registry.replace(
        Game {
            uuid: id,
            mode,
            overview,
            taken,
            en_passant: None,
            castle_spent: CastleSpent { short: false, long: false },
        },
    );
    proof {
        assert(registry@.dom() =~= old(registry)@.dom());
    }
    Some(echo)
}

} // verus!
