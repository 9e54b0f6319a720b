// The service scenarios of the three features, driven through the library
// steps each route runs: the request check, then the game step on one shared
// registry. Wire values are compared as the letters a board cell travels as.

use std::collections::HashSet;

use fisher_server::engine::{engine_reply, opponent_position, opponent_reply, InfoLine, OpponentOutcome, Score};
use fisher_server::game::overview::Overview;
use fisher_server::game::square::Square;
use fisher_server::game::{setup_board, start_game, Mode, Registry};
use fisher_server::moves::{move_piece, MoveOutcome};
use fisher_server::requests::{move_request, setup_request, start_params, RequestError};

const N: usize = 50;

fn grid(rows: [&str; 8]) -> Vec<Vec<String>> {
    rows.iter()
        .map(|row| {
            row.split(' ')
                .map(|c| if c == "." { String::new() } else { c.to_string() })
                .collect::<Vec<_>>()
        })
        .collect()
}

fn letters(ov: &Overview) -> Vec<Vec<String>> {
    ov.board
        .iter()
        .map(|row| {
            row.iter()
                .map(|c| match c {
                    Some(p) => p.letter_str().to_string(),
                    None => String::new(),
                })
                .collect()
        })
        .collect()
}

fn cell(ov: &Overview, square: &str) -> String {
    let sq = Square::parse(square).expect("a square");
    letters(ov)[sq.row][sq.col].clone()
}

fn count_piece(ov: &Overview, letter: &str) -> usize {
    letters(ov).iter().flatten().filter(|c| c.as_str() == letter).count()
}

fn count_color(ov: &Overview, white: bool) -> usize {
    letters(ov)
        .iter()
        .flatten()
        .filter(|c| match c.chars().next() {
            Some(ch) if white => ch.is_ascii_uppercase(),
            Some(ch) => ch.is_ascii_lowercase(),
            None => false,
        })
        .count()
}

fn cells_of(ov: &Overview, letter: &str) -> Vec<(usize, usize)> {
    let mut v = Vec::new();
    for (r, row) in letters(ov).iter().enumerate() {
        for (c, x) in row.iter().enumerate() {
            if x == letter {
                v.push((r, c));
            }
        }
    }
    v
}

/// `GET /start-game` with the given query values: the parameters checked,
/// then the game started.
fn start(reg: &mut Registry, mode: Option<&str>, pieces: Option<&str>) -> Result<(String, Mode, Overview), RequestError> {
    let (mode, pieces) = start_params(mode, pieces)?;
    let (uuid, overview) = start_game(reg, mode, pieces);
    Ok((uuid, mode, overview))
}

/// `POST /private/setup-board`.
fn setup(reg: &mut Registry, uuid: Option<&str>, board: Vec<Vec<String>>) -> Result<Option<Overview>, RequestError> {
    let (u, ov) = setup_request(uuid.map(String::from), Some(board), Some("both".to_string()), Some("both".to_string()))?;
    Ok(setup_board(reg, &u, ov))
}

/// A started game with `board` installed and White's castling
/// availability `white`; gives its UUID.
fn seed_with(reg: &mut Registry, board: Vec<Vec<String>>, white: &str) -> String {
    let (uuid, _, _) = start(reg, None, None).expect("a standard game");
    let (u, ov) = setup_request(Some(uuid.clone()), Some(board.clone()), Some(white.to_string()), Some("both".to_string()))
        .expect("a valid setup");
    let stored = setup_board(reg, &u, ov).expect("a known game");
    assert_eq!(letters(&stored), board, "seed: the echoed board is the installed one");
    assert_eq!(stored.white, white);
    uuid
}

/// A started game with `board` installed; gives its UUID.
fn seed(reg: &mut Registry, board: Vec<Vec<String>>) -> String {
    seed_with(reg, board, "both")
}

enum Answer {
    Applied { piece: String, capture: Option<String>, overview: Overview },
    Illegal(String),
    BadRequest(String),
    UnknownGame,
}

/// `POST /move-a-piece`.
fn play(reg: &mut Registry, uuid: Option<&str>, from: Option<&str>, to: Option<&str>) -> Answer {
    match move_request(uuid.map(String::from), from.map(String::from), to.map(String::from)) {
        Err(e) => Answer::BadRequest(e.message().to_string()),
        Ok((u, f, t)) => match move_piece(reg, &u, f, t) {
            MoveOutcome::Applied { piece, capture, overview } => Answer::Applied {
                piece: piece.letter_str().to_string(),
                capture: capture.map(|p| p.letter_str().to_string()),
                overview,
            },
            MoveOutcome::Illegal(reason) => Answer::Illegal(reason.as_str().to_string()),
            MoveOutcome::UnknownGame => Answer::UnknownGame,
        },
    }
}

fn applied(a: Answer) -> (String, Option<String>, Overview) {
    match a {
        Answer::Applied { piece, capture, overview } => (piece, capture, overview),
        _ => panic!("the move was expected to be applied"),
    }
}

fn refused(a: Answer) -> String {
    match a {
        Answer::Illegal(reason) => reason,
        _ => panic!("the move was expected to be refused"),
    }
}

fn bad_request(a: Answer) -> String {
    match a {
        Answer::BadRequest(message) => message,
        _ => panic!("the request was expected to be rejected"),
    }
}

fn standard_board() -> Vec<Vec<String>> {
    grid([
        "r n b q k b n r",
        "p p p p p p p p",
        ". . . . . . . .",
        ". . . . . . . .",
        ". . . . . . . .",
        ". . . . . . . .",
        "P P P P P P P P",
        "R N B Q K B N R",
    ])
}

// ---- start a game -----------------------------------------------------------

#[test]
fn t10_f0001_default_standard_overview() {
    let mut reg = Registry::new();
    let (uuid, mode, ov) = start(&mut reg, None, None).expect("default start");
    let id = uuid::Uuid::parse_str(&uuid).expect("uuid parses");
    assert_eq!(id.get_version_num(), 4);
    assert_eq!(mode.as_str(), "standard");
    assert_eq!(letters(&ov), standard_board());
    assert_eq!(ov.white, "both");
    assert_eq!(ov.black, "both");
}

#[test]
fn t20_f0001_explicit_standard() {
    let mut reg = Registry::new();
    let (_, mode, ov) = start(&mut reg, Some("standard"), None).expect("explicit standard");
    assert_eq!(mode.as_str(), "standard");
    assert_eq!(letters(&ov)[0], vec!["r", "n", "b", "q", "k", "b", "n", "r"]);
    assert_eq!(letters(&ov)[7], vec!["R", "N", "B", "Q", "K", "B", "N", "R"]);
    assert_eq!(ov.white, "both");
    assert_eq!(ov.black, "both");
}

#[test]
fn t30_f0001_two_calls_distinct_uuid() {
    let mut reg = Registry::new();
    let (a, _, _) = start(&mut reg, None, None).unwrap();
    let (b, _, _) = start(&mut reg, None, None).unwrap();
    assert_ne!(a, b, "each call creates a new game");
}

#[test]
fn t40_f0001_random_requested_piece_counts() {
    let mut reg = Registry::new();
    let cases: &[(Option<&str>, usize)] = &[(Some("2"), 2), (Some("4"), 4), (Some("16"), 16), (None, 16)];
    for (pieces, expected) in cases {
        let mut occupied_sets: HashSet<Vec<(usize, usize)>> = HashSet::new();
        for _ in 0..N {
            let (_, mode, ov) = start(&mut reg, Some("random"), *pieces).expect("random start");
            assert_eq!(mode.as_str(), "random");
            assert_eq!(count_color(&ov, true), *expected);
            assert_eq!(count_color(&ov, false), *expected);
            let mut occupied = Vec::new();
            for (r, row) in letters(&ov).iter().enumerate() {
                for (c, x) in row.iter().enumerate() {
                    if !x.is_empty() {
                        occupied.push((r, c));
                    }
                }
            }
            occupied_sets.insert(occupied);
        }
        assert!(occupied_sets.len() > 1, "positions vary across draws");
    }
}

#[test]
fn t50_f0001_random_one_king_each() {
    let mut reg = Registry::new();
    for _ in 0..N {
        let (_, _, ov) = start(&mut reg, Some("random"), None).unwrap();
        assert_eq!(count_piece(&ov, "K"), 1);
        assert_eq!(count_piece(&ov, "k"), 1);
    }
}

#[test]
fn t60_f0001_random_valid_8x8_cells() {
    let mut reg = Registry::new();
    let valid: HashSet<&str> = ["p", "n", "b", "r", "q", "k", "P", "N", "B", "R", "Q", "K"].into_iter().collect();
    for _ in 0..N {
        let (_, _, ov) = start(&mut reg, Some("random"), None).unwrap();
        let board = letters(&ov);
        assert_eq!(board.len(), 8);
        assert!(board.iter().all(|row| row.len() == 8));
        for x in board.iter().flatten() {
            if !x.is_empty() {
                assert_eq!(x.chars().count(), 1);
                assert!(valid.contains(x.as_str()));
            }
        }
    }
}

#[test]
fn t70_f0001_random_pawn_ranks() {
    let mut reg = Registry::new();
    for _ in 0..N {
        let (_, _, ov) = start(&mut reg, Some("random"), None).unwrap();
        let board = letters(&ov);
        assert!(!board[0].iter().any(|c| c == "P"), "no white pawn on rank 8");
        assert!(!board[7].iter().any(|c| c == "p"), "no black pawn on rank 1");
    }
}

#[test]
fn t80_f0001_random_no_castling() {
    let mut reg = Registry::new();
    for _ in 0..N {
        let (_, _, ov) = start(&mut reg, Some("random"), None).unwrap();
        assert_eq!(ov.white, "none");
        assert_eq!(ov.black, "none");
    }
}

#[test]
fn t90_f0001_invalid_mode_400() {
    let mut reg = Registry::new();
    for mode in ["xyz", "STANDARD"] {
        let e = start(&mut reg, Some(mode), None).err().expect("rejected");
        assert_eq!(e.message(), "invalid mode");
    }
}

#[test]
fn t110_f0001_invalid_piece_count_400() {
    let mut reg = Registry::new();
    for pieces in ["1", "17", "abc"] {
        let e = start(&mut reg, Some("random"), Some(pieces)).err().expect("rejected");
        assert_eq!(e.message(), "invalid piece count");
    }
    for pieces in ["2", "16"] {
        assert!(start(&mut reg, Some("random"), Some(pieces)).is_ok(), "inclusive bound accepted");
    }
}

#[test]
fn t120_f0001_random_material_caps() {
    let mut reg = Registry::new();
    let cases: &[(Option<&str>, usize)] = &[(Some("2"), 2), (Some("8"), 8), (None, 16), (Some("16"), 16)];
    let caps: &[(&str, &str, usize)] = &[("Q", "q", 1), ("R", "r", 2), ("B", "b", 2), ("N", "n", 2), ("P", "p", 8)];
    for (pieces, count) in cases {
        for _ in 0..N {
            let (_, mode, ov) = start(&mut reg, Some("random"), *pieces).unwrap();
            assert_eq!(mode.as_str(), "random");
            assert_eq!(count_piece(&ov, "K"), 1);
            assert_eq!(count_piece(&ov, "k"), 1);
            for (w, b, cap) in caps {
                assert!(count_piece(&ov, w) <= *cap);
                assert!(count_piece(&ov, b) <= *cap);
                if *count == 16 {
                    assert_eq!(count_piece(&ov, w), *cap);
                    assert_eq!(count_piece(&ov, b), *cap);
                }
            }
        }
    }
}

#[test]
fn t130_f0001_random_bishop_pair_opposite_colors() {
    let mut reg = Registry::new();
    for _ in 0..N {
        let (_, _, ov) = start(&mut reg, Some("random"), Some("16")).unwrap();
        for letter in ["B", "b"] {
            let bishops = cells_of(&ov, letter);
            assert_eq!(bishops.len(), 2);
            let (a, c) = (bishops[0], bishops[1]);
            assert_ne!((a.0 + a.1) % 2, (c.0 + c.1) % 2, "the pair sits on opposite square colours");
        }
    }
}

// ---- move a piece -----------------------------------------------------------

fn capture_board() -> Vec<Vec<String>> {
    grid([
        ". . . . k . . .",
        ". . . . . . . .",
        ". . . . . . . .",
        ". . . p . . . .",
        ". . . . P . . .",
        ". . . . . . . .",
        ". . . . . . . .",
        ". . . . K . . .",
    ])
}

fn pin_board() -> Vec<Vec<String>> {
    grid([
        "k . . . r . . .",
        ". . . . . . . .",
        ". . . . . . . .",
        ". . . . . . . .",
        ". . . . . . . .",
        ". . . . . . . .",
        ". . . . B . . .",
        ". . . . K . . .",
    ])
}

fn opera_board() -> Vec<Vec<String>> {
    grid([
        "r n . . k b . r",
        "p p p . q p p p",
        ". . . . . n . .",
        ". . . . p . . .",
        ". . B . P . . .",
        ". Q N . . . . .",
        "P P P . . P P P",
        "R . B . K . . R",
    ])
}

#[test]
fn t10_f0002_setup_board_round_trip() {
    let mut reg = Registry::new();
    let (uuid, _, _) = start(&mut reg, None, None).unwrap();
    let board = capture_board();
    let stored = setup(&mut reg, Some(&uuid), board.clone()).unwrap().expect("a known game");
    assert_eq!(letters(&stored), board);
    assert_eq!(cell(&stored, "e4"), "P");
    assert_eq!(cell(&stored, "d5"), "p");
    assert_eq!(stored.white, "both");
    assert_eq!(stored.black, "both");
}

#[test]
fn t20_f0002_setup_board_malformed_400() {
    let mut reg = Registry::new();
    let (uuid, _, _) = start(&mut reg, None, None).unwrap();
    let seven_by_eight: Vec<Vec<String>> = standard_board().into_iter().take(7).collect();
    let e = setup(&mut reg, Some(&uuid), seven_by_eight).err().expect("rejected");
    assert_eq!(e.message(), "invalid board setup");
    let mut bad_cell = standard_board();
    bad_cell[3][3] = "X".to_string();
    let e = setup(&mut reg, Some(&uuid), bad_cell).err().expect("rejected");
    assert_eq!(e.message(), "invalid board");
}

#[test]
fn t30_f0002_setup_board_unknown_uuid_404() {
    let mut reg = Registry::new();
    let unknown = uuid::Uuid::new_v4().to_string();
    assert!(setup(&mut reg, Some(&unknown), standard_board()).unwrap().is_none(), "unknown game");
    assert!(matches!(play(&mut reg, Some(&unknown), Some("d2"), Some("d4")), Answer::UnknownGame), "nothing was minted");
}

#[test]
fn t40_f0002_valid_pawn_push() {
    let mut reg = Registry::new();
    let uuid = seed(&mut reg, standard_board());
    let (piece, capture, ov) = applied(play(&mut reg, Some(&uuid), Some("d2"), Some("d4")));
    assert_eq!(piece, "P");
    assert_eq!(capture, None);
    assert_eq!(cell(&ov, "d2"), "");
    assert_eq!(cell(&ov, "d4"), "P");
    assert_eq!(ov.white, "both");
    assert_eq!(ov.black, "both");
}

#[test]
fn t50_f0002_valid_diagonal_capture() {
    let mut reg = Registry::new();
    let uuid = seed(&mut reg, capture_board());
    let (piece, capture, ov) = applied(play(&mut reg, Some(&uuid), Some("e4"), Some("d5")));
    assert_eq!(piece, "P");
    assert_eq!(capture, Some("p".to_string()));
    assert_eq!(cell(&ov, "e4"), "");
    assert_eq!(cell(&ov, "d5"), "P");
}

#[test]
fn t60_f0002_not_your_piece() {
    for (from, to) in [("e4", "e5"), ("d7", "d5")] {
        let mut reg = Registry::new();
        let uuid = seed(&mut reg, standard_board());
        assert_eq!(refused(play(&mut reg, Some(&uuid), Some(from), Some(to))), "not your piece");
    }
}

#[test]
fn t70_f0002_own_piece_on_target() {
    let mut reg = Registry::new();
    let uuid = seed(&mut reg, standard_board());
    assert_eq!(refused(play(&mut reg, Some(&uuid), Some("g1"), Some("e2"))), "own piece on target");
}

#[test]
fn t80_f0002_illegal_shape() {
    for (from, to) in [("d2", "d5"), ("e2", "d3")] {
        let mut reg = Registry::new();
        let uuid = seed(&mut reg, standard_board());
        assert_eq!(refused(play(&mut reg, Some(&uuid), Some(from), Some(to))), "illegal shape");
    }
}

#[test]
fn t90_f0002_path_blocked() {
    for (from, to) in [("d1", "d3"), ("a1", "a4")] {
        let mut reg = Registry::new();
        let uuid = seed(&mut reg, standard_board());
        assert_eq!(refused(play(&mut reg, Some(&uuid), Some(from), Some(to))), "path blocked");
    }
}

#[test]
fn t100_f0002_king_safety_pin_and_escape() {
    let mut reg = Registry::new();
    let uuid = seed(&mut reg, pin_board());
    assert_eq!(refused(play(&mut reg, Some(&uuid), Some("e2"), Some("d3"))), "king in check");

    let uuid = seed(&mut reg, pin_board());
    let (piece, capture, ov) = applied(play(&mut reg, Some(&uuid), Some("e1"), Some("f1")));
    assert_eq!(piece, "K");
    assert_eq!(capture, None);
    assert_eq!(cell(&ov, "e1"), "");
    assert_eq!(cell(&ov, "f1"), "K");
}

#[test]
fn t110_f0002_malformed_request_400() {
    let mut reg = Registry::new();
    let uuid = seed(&mut reg, standard_board());
    assert_eq!(bad_request(play(&mut reg, Some(&uuid), Some("d2"), Some("d2"))), "invalid move request");
    assert_eq!(bad_request(play(&mut reg, Some(&uuid), Some("d2"), Some("d9"))), "invalid square");
    assert_eq!(bad_request(play(&mut reg, Some(&uuid), Some("d2"), None)), "invalid move request");
}

#[test]
fn t120_f0002_unknown_game_404() {
    let mut reg = Registry::new();
    let unknown = uuid::Uuid::new_v4().to_string();
    assert!(matches!(play(&mut reg, Some(&unknown), Some("d2"), Some("d4")), Answer::UnknownGame));
}

#[test]
fn t140_f0002_valid_knight_move() {
    let mut reg = Registry::new();
    let uuid = seed(&mut reg, opera_board());
    let (piece, capture, ov) = applied(play(&mut reg, Some(&uuid), Some("c3"), Some("d5")));
    assert_eq!(piece, "N");
    assert_eq!(capture, None);
    assert_eq!(cell(&ov, "c3"), "");
    assert_eq!(cell(&ov, "d5"), "N");
}

#[test]
fn t150_f0002_valid_king_move() {
    let mut reg = Registry::new();
    let uuid = seed(&mut reg, opera_board());
    let (piece, capture, ov) = applied(play(&mut reg, Some(&uuid), Some("e1"), Some("f1")));
    assert_eq!(piece, "K");
    assert_eq!(capture, None);
    assert_eq!(cell(&ov, "e1"), "");
    assert_eq!(cell(&ov, "f1"), "K");
    assert_eq!(ov.white, "both");
}

#[test]
fn t160_f0002_valid_queen_capture() {
    let mut reg = Registry::new();
    let uuid = seed(&mut reg, opera_board());
    let (piece, capture, ov) = applied(play(&mut reg, Some(&uuid), Some("b3"), Some("b7")));
    assert_eq!(piece, "Q");
    assert_eq!(capture, Some("p".to_string()));
    assert_eq!(cell(&ov, "b3"), "");
    assert_eq!(cell(&ov, "b7"), "Q");
}

#[test]
fn t170_f0002_valid_rook_move() {
    let mut reg = Registry::new();
    let uuid = seed(&mut reg, opera_board());
    let (piece, capture, ov) = applied(play(&mut reg, Some(&uuid), Some("a1"), Some("b1")));
    assert_eq!(piece, "R");
    assert_eq!(capture, None);
    assert_eq!(cell(&ov, "a1"), "");
    assert_eq!(cell(&ov, "b1"), "R");
    assert_eq!(ov.white, "both");
}

#[test]
fn t180_f0002_valid_bishop_capture() {
    let mut reg = Registry::new();
    let uuid = seed(&mut reg, opera_board());
    let (piece, capture, ov) = applied(play(&mut reg, Some(&uuid), Some("c4"), Some("f7")));
    assert_eq!(piece, "B");
    assert_eq!(capture, Some("p".to_string()));
    assert_eq!(cell(&ov, "c4"), "");
    assert_eq!(cell(&ov, "f7"), "B");
}

// ---- promotion --------------------------------------------------------------

fn promotion_board() -> Vec<Vec<String>> {
    grid([
        "k . . r . . . .",
        ". . . . P . . .",
        ". . . . . . . .",
        ". . . . . . . .",
        ". . . . . . . .",
        ". . . . . . . .",
        ". . . . . . . .",
        ". . . . K . . .",
    ])
}

#[test]
fn t10_f0004_promotion_push_to_queen() {
    let mut reg = Registry::new();
    let uuid = seed(&mut reg, promotion_board());
    let (piece, capture, ov) = applied(play(&mut reg, Some(&uuid), Some("e7"), Some("e8")));
    assert_eq!(piece, "P", "the mover pawn is echoed, not the queen");
    assert_eq!(capture, None);
    assert_eq!(cell(&ov, "e7"), "");
    assert_eq!(cell(&ov, "e8"), "Q");
}

#[test]
fn t20_f0004_promotion_capture_to_queen() {
    let mut reg = Registry::new();
    let uuid = seed(&mut reg, promotion_board());
    let (piece, capture, ov) = applied(play(&mut reg, Some(&uuid), Some("e7"), Some("d8")));
    assert_eq!(piece, "P");
    assert_eq!(capture.as_deref(), Some("r"));
    assert_eq!(cell(&ov, "e7"), "");
    assert_eq!(cell(&ov, "d8"), "Q");
}

#[test]
fn t30_f0004_blocked_promotion_illegal_shape() {
    let mut reg = Registry::new();
    let uuid = seed(
        &mut reg,
        grid([
            "k . . . n . . .",
            ". . . . P . . .",
            ". . . . . . . .",
            ". . . . . . . .",
            ". . . . . . . .",
            ". . . . . . . .",
            ". . . . . . . .",
            ". . . . K . . .",
        ]),
    );
    assert_eq!(refused(play(&mut reg, Some(&uuid), Some("e7"), Some("e8"))), "illegal shape");
}

// ---- the opponent's reply, with the engine's answer given -------------------

fn line(depth: i32, unit: &str, value: i32) -> InfoLine {
    InfoLine { depth: Some(depth), score: Some(Score { unit: unit.to_string(), value }) }
}

struct ReplyJson {
    from: Option<String>,
    to: Option<String>,
    piece: Option<String>,
    capture: Option<String>,
    status: String,
    overview: Overview,
}

/// `POST /opponent-move`, the engine answering `bestmove` with `info`.
fn reply(reg: &mut Registry, uuid: &str, bestmove: &str, info: Vec<InfoLine>) -> ReplyJson {
    let (id, overview) = opponent_position(reg, uuid).expect("a known game");
    let answer = engine_reply(bestmove, &info).expect("a well-formed engine answer");
    match opponent_reply(reg, id, &overview, answer) {
        OpponentOutcome::Reply(r) => ReplyJson {
            from: r.from,
            to: r.to,
            piece: r.piece.map(|p| p.letter_str().to_string()),
            capture: r.capture.map(|p| p.letter_str().to_string()),
            status: r.status.as_str().to_string(),
            overview: r.overview,
        },
        _ => panic!("a reply was expected"),
    }
}

#[test]
fn t20_f0003_capture_reported_and_removed() {
    let mut reg = Registry::new();
    let uuid = seed(
        &mut reg,
        grid([
            ". . . . k . . .",
            ". . . . . . . .",
            ". . . . p . . .",
            ". . . Q . . . .",
            ". . . . . . . .",
            ". . . . . . . .",
            ". . . . . . . .",
            ". . . . K . . .",
        ]),
    );
    let body = reply(&mut reg, &uuid, "e6d5", vec![line(12, "cp", 900)]);
    assert_eq!(body.status, "move");
    assert_eq!(body.capture.as_deref(), Some("Q"));
    assert_eq!(body.piece.as_deref(), Some("p"));
    let (from, to) = (body.from.unwrap(), body.to.unwrap());
    assert_eq!(cell(&body.overview, &to), "p");
    assert_eq!(cell(&body.overview, &from), "");
}

#[test]
fn t30_f0003_reply_checks_white() {
    let mut reg = Registry::new();
    let uuid = seed(
        &mut reg,
        grid([
            ". . . . . . k .",
            ". . . . . . . .",
            ". . . . . . . .",
            ". . . . . . n .",
            ". . . . . . . .",
            ". . . . . . . .",
            ". . . Q . . . .",
            ". . . . . . K .",
        ]),
    );
    let body = reply(&mut reg, &uuid, "g5f3", vec![line(12, "cp", 800)]);
    assert_eq!(body.status, "white-in-check");
    assert!(body.from.is_some() && body.to.is_some());
}

#[test]
fn t40_f0003_reply_mates_white() {
    let mut reg = Registry::new();
    let uuid = seed(
        &mut reg,
        grid([
            "r n b q k b n r",
            "p p p p . p p p",
            ". . . . . . . .",
            ". . . . p . . .",
            ". . . . . . P .",
            ". . . . . P . .",
            "P P P P P . . P",
            "R N B Q K B N R",
        ]),
    );
    let body = reply(&mut reg, &uuid, "d8h4", vec![line(1, "mate", 1), line(12, "mate", 1)]);
    assert_eq!(body.status, "white-in-checkmate");
    assert!(body.from.is_some() && body.to.is_some());
    assert_eq!(body.piece.as_deref(), Some("q"));
}

#[test]
fn t50_f0003_black_checkmated_no_move() {
    let mut reg = Registry::new();
    let seeded = grid([
        "r . b q k b . r",
        "p p p p . Q p p",
        ". . n . . n . .",
        ". . . . p . . .",
        ". . B . P . . .",
        ". . . . . . . .",
        "P P P P . P P P",
        "R N B . K . N R",
    ]);
    let uuid = seed(&mut reg, seeded.clone());
    let body = reply(&mut reg, &uuid, "(none)", vec![line(0, "mate", 0)]);
    assert_eq!(body.status, "black-in-checkmate");
    assert_eq!(body.from, None);
    assert_eq!(body.to, None);
    assert_eq!(body.piece, None);
    assert_eq!(body.capture, None);
    assert_eq!(letters(&body.overview), seeded);
}

#[test]
fn t60_f0003_black_stalemated_no_move() {
    let mut reg = Registry::new();
    let seeded = grid([
        ". . . . . . . k",
        ". . . . . Q . .",
        ". . . . . . K .",
        ". . . . . . . .",
        ". . . . . . . .",
        ". . . . . . . .",
        ". . . . . . . .",
        ". . . . . . . .",
    ]);
    let uuid = seed(&mut reg, seeded.clone());
    let body = reply(&mut reg, &uuid, "(none)", vec![line(0, "cp", 0)]);
    assert_eq!(body.status, "black-in-stalemate");
    assert!(body.from.is_none() && body.to.is_none() && body.piece.is_none() && body.capture.is_none());
    assert_eq!(letters(&body.overview), seeded);
}

#[test]
fn t100_f0003_white_move_then_reply_compose() {
    let mut reg = Registry::new();
    let (uuid, _, _) = start(&mut reg, None, None).unwrap();
    let (_, _, white) = applied(play(&mut reg, Some(&uuid), Some("d2"), Some("d4")));
    assert_eq!(cell(&white, "d2"), "");
    assert_eq!(cell(&white, "d4"), "P");

    let body = reply(&mut reg, &uuid, "g8f6", vec![line(12, "cp", -20)]);
    assert_eq!(body.status, "move");
    let (from, to, piece) = (body.from.unwrap(), body.to.unwrap(), body.piece.unwrap());
    assert_eq!(piece, piece.to_lowercase(), "a black piece moved");
    assert_eq!(body.capture, None);
    assert_eq!(cell(&body.overview, "d4"), "P", "the white move is still on the board");
    assert_eq!(cell(&body.overview, &from), "");
    assert_eq!(cell(&body.overview, &to), piece);
}

// ---- castling ---------------------------------------------------------------

fn castle_board(rank8: &str, rank1: &str) -> Vec<Vec<String>> {
    grid([
        rank8,
        ". . . . . . . .",
        ". . . . . . . .",
        ". . . . . . . .",
        ". . . . . . . .",
        ". . . . . . . .",
        ". . . . . . . .",
        rank1,
    ])
}

#[test]
fn short_castling_moves_king_and_rook() {
    let mut reg = Registry::new();
    let uuid = seed(&mut reg, castle_board("k . . . . . . .", ". . . . K . . R"));
    let (piece, capture, ov) = applied(play(&mut reg, Some(&uuid), Some("e1"), Some("g1")));
    assert_eq!(piece, "K");
    assert_eq!(capture, None);
    assert_eq!(cell(&ov, "g1"), "K");
    assert_eq!(cell(&ov, "f1"), "R");
    assert_eq!(cell(&ov, "e1"), "");
    assert_eq!(cell(&ov, "h1"), "");
    assert_eq!(ov.white, "none", "castling uses up White's availability");
    assert_eq!(ov.black, "both");
    let (_, stored) = opponent_position(&reg, &uuid).unwrap();
    assert_eq!(letters(&stored), letters(&ov), "the castled position is stored");
    assert_eq!(stored.white, "none");
}

#[test]
fn long_castling_moves_king_and_rook() {
    let mut reg = Registry::new();
    let uuid = seed(&mut reg, castle_board(". . . . k . . .", "R . . . K . . R"));
    let (piece, _, ov) = applied(play(&mut reg, Some(&uuid), Some("e1"), Some("c1")));
    assert_eq!(piece, "K");
    assert_eq!(cell(&ov, "c1"), "K");
    assert_eq!(cell(&ov, "d1"), "R");
    assert_eq!(cell(&ov, "a1"), "");
    assert_eq!(cell(&ov, "e1"), "");
    assert_eq!(cell(&ov, "h1"), "R", "the other rook stays");
    assert_eq!(ov.white, "none");
}

#[test]
fn castling_follows_the_availability() {
    let board = castle_board(". . . . k . . .", "R . . . K . . R");
    for (white, to, legal) in [
        ("none", "g1", false),
        ("none", "c1", false),
        ("short castle", "g1", true),
        ("short castle", "c1", false),
        ("long castle", "c1", true),
        ("long castle", "g1", false),
    ] {
        let mut reg = Registry::new();
        let uuid = seed_with(&mut reg, board.clone(), white);
        match play(&mut reg, Some(&uuid), Some("e1"), Some(to)) {
            Answer::Applied { overview, .. } => {
                assert!(legal, "{white} {to}");
                assert_eq!(overview.white, "none");
            }
            Answer::Illegal(reason) => {
                assert!(!legal, "{white} {to}");
                assert_eq!(reason, "illegal shape", "{white} {to}");
            }
            _ => panic!("a decision was expected"),
        }
    }
}

#[test]
fn castling_refusals() {
    let cases = [
        // No rook on the corner.
        (castle_board(". . . . k . . .", ". . . . K . . ."), "g1", "illegal shape"),
        // A piece between king and rook.
        (castle_board(". . . . k . . .", ". . . . K B . R"), "g1", "path blocked"),
        (castle_board(". . . . k . . .", "R n . . K . . ."), "c1", "path blocked"),
        // Own piece on the target.
        (castle_board(". . . . k . . .", ". . . . K . N R"), "g1", "own piece on target"),
        // The king is in check.
        (castle_board("k . . . r . . .", ". . . . K . . R"), "g1", "king in check"),
        // The king passes over an attacked square.
        (castle_board("k . . . . r . .", ". . . . K . . R"), "g1", "king in check"),
        (castle_board("k . . r . . . .", "R . . . K . . ."), "c1", "king in check"),
        // The king lands in check.
        (castle_board("k . . . . . r .", ". . . . K . . R"), "g1", "king in check"),
    ];
    for (board, to, reason) in cases {
        let mut reg = Registry::new();
        let uuid = seed(&mut reg, board.clone());
        assert_eq!(refused(play(&mut reg, Some(&uuid), Some("e1"), Some(to))), reason, "{to}");
        let (_, stored) = opponent_position(&reg, &uuid).unwrap();
        assert_eq!(letters(&stored), board, "a refused castling changes nothing");
        assert_eq!(stored.white, "both");
    }
}

#[test]
fn a_king_step_keeps_the_availability() {
    let mut reg = Registry::new();
    let uuid = seed(&mut reg, castle_board("k . . . . . . .", ". . . . K . . R"));
    let (_, _, ov) = applied(play(&mut reg, Some(&uuid), Some("e1"), Some("f1")));
    assert_eq!(ov.white, "both", "an ordinary king move carries the castling fields unchanged");
    assert_eq!(refused(play(&mut reg, Some(&uuid), Some("f1"), Some("h1"))), "own piece on target");
}

#[test]
fn a_started_game_is_found_by_its_id() {
    let mut reg = Registry::new();
    let (uuid, _, ov) = start(&mut reg, None, None).unwrap();
    let (_, stored) = opponent_position(&reg, &uuid).expect("the handed-out id finds the game");
    assert_eq!(letters(&stored), letters(&ov));
}

// ---- en passant -------------------------------------------------------------

fn passant_board() -> Vec<Vec<String>> {
    grid([
        ". . . . k . . .",
        ". . . p . . . .",
        ". . . . . . . .",
        ". . . . P . . .",
        ". . . . . . . .",
        ". . . . . . . .",
        ". . . . . . . .",
        ". . . . K . . .",
    ])
}

#[test]
fn en_passant_takes_the_pawn_that_just_advanced_two() {
    let mut reg = Registry::new();
    let uuid = seed(&mut reg, passant_board());
    let body = reply(&mut reg, &uuid, "d7d5", vec![line(12, "cp", 0)]);
    assert_eq!(cell(&body.overview, "d5"), "p");
    let (piece, capture, ov) = applied(play(&mut reg, Some(&uuid), Some("e5"), Some("d6")));
    assert_eq!(piece, "P");
    assert_eq!(capture.as_deref(), Some("p"), "the passed pawn is taken");
    assert_eq!(cell(&ov, "d6"), "P");
    assert_eq!(cell(&ov, "e5"), "");
    assert_eq!(cell(&ov, "d5"), "", "the passed pawn is removed");
}

#[test]
fn en_passant_is_open_for_one_move_only() {
    let mut reg = Registry::new();
    let uuid = seed(&mut reg, passant_board());
    reply(&mut reg, &uuid, "d7d5", vec![line(12, "cp", 0)]);
    applied(play(&mut reg, Some(&uuid), Some("e1"), Some("f1")));
    reply(&mut reg, &uuid, "e8f8", vec![line(12, "cp", 0)]);
    assert_eq!(refused(play(&mut reg, Some(&uuid), Some("e5"), Some("d6"))), "illegal shape");
}

#[test]
fn en_passant_needs_the_two_square_advance() {
    let mut reg = Registry::new();
    let uuid = seed(
        &mut reg,
        grid([
            ". . . . k . . .",
            ". . . . . . . .",
            ". . . p . . . .",
            ". . . . P . . .",
            ". . . . . . . .",
            ". . . . . . . .",
            ". . . . . . . .",
            ". . . . K . . .",
        ]),
    );
    reply(&mut reg, &uuid, "d6d5", vec![line(12, "cp", 0)]);
    assert_eq!(refused(play(&mut reg, Some(&uuid), Some("e5"), Some("d6"))), "illegal shape");
}

#[test]
fn en_passant_may_not_expose_the_king() {
    let mut reg = Registry::new();
    let uuid = seed(
        &mut reg,
        grid([
            ". . . . k . . .",
            ". . . p . . . .",
            ". . . . . . . .",
            "K . . . P . . r",
            ". . . . . . . .",
            ". . . . . . . .",
            ". . . . . . . .",
            ". . . . . . . .",
        ]),
    );
    reply(&mut reg, &uuid, "d7d5", vec![line(12, "cp", 0)]);
    assert_eq!(refused(play(&mut reg, Some(&uuid), Some("e5"), Some("d6"))), "king in check");
}

#[test]
fn a_king_or_rook_move_uses_up_castling() {
    // The king steps away and back: both sides are used up, though the
    // availability text is carried unchanged.
    let mut reg = Registry::new();
    let uuid = seed(&mut reg, castle_board(". . . . k . . .", "R . . . K . . R"));
    applied(play(&mut reg, Some(&uuid), Some("e1"), Some("f1")));
    reply(&mut reg, &uuid, "e8d8", vec![line(12, "cp", 0)]);
    let (_, _, ov) = applied(play(&mut reg, Some(&uuid), Some("f1"), Some("e1")));
    assert_eq!(ov.white, "both");
    reply(&mut reg, &uuid, "d8e8", vec![line(12, "cp", 0)]);
    assert_eq!(refused(play(&mut reg, Some(&uuid), Some("e1"), Some("g1"))), "illegal shape");
    assert_eq!(refused(play(&mut reg, Some(&uuid), Some("e1"), Some("c1"))), "illegal shape");

    // The h1 rook steps away and back: only the short side is used up.
    let uuid = seed(&mut reg, castle_board(". . . . k . . .", "R . . . K . . R"));
    applied(play(&mut reg, Some(&uuid), Some("h1"), Some("h2")));
    reply(&mut reg, &uuid, "e8d8", vec![line(12, "cp", 0)]);
    applied(play(&mut reg, Some(&uuid), Some("h2"), Some("h1")));
    reply(&mut reg, &uuid, "d8e8", vec![line(12, "cp", 0)]);
    assert_eq!(refused(play(&mut reg, Some(&uuid), Some("e1"), Some("g1"))), "illegal shape");
    let (_, _, ov) = applied(play(&mut reg, Some(&uuid), Some("e1"), Some("c1")));
    assert_eq!(cell(&ov, "d1"), "R");

    // Installing a board gives back the rights its availability names.
    let uuid = seed(&mut reg, castle_board(". . . . k . . .", "R . . . K . . R"));
    applied(play(&mut reg, Some(&uuid), Some("e1"), Some("f1")));
    let again = setup(&mut reg, Some(&uuid), castle_board(". . . . k . . .", "R . . . K . . R")).unwrap();
    assert!(again.is_some());
    applied(play(&mut reg, Some(&uuid), Some("e1"), Some("g1")));
}
