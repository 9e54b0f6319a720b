use fisher_server::game::overview::{Cell, Overview};
use fisher_server::game::piece::Piece;
use fisher_server::game::square::Square;
use fisher_server::game::{Game, Mode, Registry};
use fisher_server::moves::{
    CastleSpent, IllegalReason, MoveOutcome, Target, accessible_squares, board_after, is_in_check, legal_shape,
    move_piece, path_clear, validate_move,
};

/// Build a board from 8 rank-8-first rows of space-separated cells, `.` empty.
fn board(rows: [&str; 8]) -> Vec<Vec<Cell>> {
    rows.iter()
        .map(|row| {
            row.split(' ')
                .map(|c| if c == "." { None } else { Piece::from_letter(c.chars().next().unwrap()) })
                .collect::<Vec<Cell>>()
        })
        .collect()
}

fn standard() -> Vec<Vec<Cell>> {
    board([
        "r n b q k b n r",
        "p p p p p p p p",
        ". . . . . . . .",
        ". . . . . . . .",
        ". . . . . . . .",
        ". . . . . . . .",
        "P P P P P P P P",
        "R N B Q K B N R",
    ])
}

/// Parse an algebraic square in a test — always a valid coordinate here.
fn sq(s: &str) -> Square {
    Square::parse(s).expect("valid test square")
}

/// Collect accessible squares as `(square, capture-letter-or-empty)` pairs, sorted.
fn acc(b: &Vec<Vec<Cell>>, from: &str) -> Vec<(String, String)> {
    let mut v: Vec<(String, String)> = accessible_squares(b, sq(from))
        .into_iter()
        .map(|a| {
            let cap = match a.target {
                Target::Empty => String::new(),
                Target::Capture(p) => p.letter().to_string(),
            };
            (a.square.algebraic(), cap)
        })
        .collect();
    v.sort();
    v
}

#[test]
fn pawn_double_push_from_base_rank() {
    assert_eq!(acc(&standard(), "d2"), vec![
        ("d3".to_string(), String::new()),
        ("d4".to_string(), String::new()),
    ]);
}

#[test]
fn knight_from_b1_drops_friendly() {
    assert_eq!(acc(&standard(), "b1"), vec![
        ("a3".to_string(), String::new()),
        ("c3".to_string(), String::new()),
    ]);
}

#[test]
fn rook_and_king_boxed_in_have_no_moves() {
    assert!(acc(&standard(), "a1").is_empty());
    assert!(acc(&standard(), "e1").is_empty());
}

#[test]
fn pawn_capture_and_empty_tags() {
    let b = board([
        ". . . . k . . .",
        ". . . . . . . .",
        ". . . . . . . .",
        ". . . p . . . .",
        ". . . . P . . .",
        ". . . . . . . .",
        ". . . . . . . .",
        ". . . . K . . .",
    ]);
    assert_eq!(acc(&b, "e4"), vec![
        ("d5".to_string(), "p".to_string()),
        ("e5".to_string(), String::new()),
    ]);
}

#[test]
fn rook_ray_stops_at_capture() {
    let b = board([
        ". . . . . . . .",
        ". . . . . . . .",
        ". . . . . . . .",
        "p . . . . . . .",
        ". . . . . . . .",
        ". . . . . . . .",
        ". . . . . . . .",
        "R . . . . . . .",
    ]);
    let got = acc(&b, "a1");
    assert!(got.contains(&("a2".to_string(), String::new())));
    assert!(got.contains(&("a4".to_string(), String::new())));
    assert!(got.contains(&("a5".to_string(), "p".to_string())));
    assert!(!got.iter().any(|(s, _)| s == "a6" || s == "a7" || s == "a8"));
    assert!(got.contains(&("h1".to_string(), String::new())));
}

#[test]
fn black_pawn_moves_downward() {
    let b = board([
        ". . . . k . . .",
        ". . . p . . . .",
        ". . . . . . . .",
        ". . . . . . . .",
        ". . . . . . . .",
        ". . . . . . . .",
        ". . . . . . . .",
        ". . . . K . . .",
    ]);
    assert_eq!(acc(&b, "d7"), vec![
        ("d5".to_string(), String::new()),
        ("d6".to_string(), String::new()),
    ]);
}

#[test]
fn check_by_black_rook_along_file() {
    let b = board([
        "k . . . r . . .",
        ". . . . . . . .",
        ". . . . . . . .",
        ". . . . . . . .",
        ". . . . . . . .",
        ". . . . . . . .",
        ". . . . . . . .",
        ". . . . K . . .",
    ]);
    assert!(is_in_check(&b, true), "rook on the open e-file checks the king (B-15)");
}

#[test]
fn check_by_black_knight() {
    let b = board([
        "k . . . . . . .",
        ". . . . . . . .",
        ". . . . . . . .",
        ". . . . . . . .",
        ". . . . . . . .",
        ". . . . . n . .",
        ". . . . . . . .",
        ". . . . K . . .",
    ]);
    assert!(is_in_check(&b, true), "knight on f3 checks the king (B-15)");
}

#[test]
fn check_by_black_pawn_diagonal_not_straight() {
    let checking = board([
        "k . . . . . . .",
        ". . . . . . . .",
        ". . . . . . . .",
        ". . . . . . . .",
        ". . . . . . . .",
        ". . . . . . . .",
        ". . . p . . . .",
        ". . . . K . . .",
    ]);
    assert!(is_in_check(&checking, true), "black pawn checks along its diagonal (B-15)");
    let safe = board([
        "k . . . . . . .",
        ". . . . . . . .",
        ". . . . . . . .",
        ". . . . . . . .",
        ". . . . . . . .",
        ". . . . . . . .",
        ". . . . p . . .",
        ". . . . K . . .",
    ]);
    assert!(!is_in_check(&safe, true), "a pawn straight ahead is not a check (B-15)");
}

#[test]
fn safe_position_is_not_in_check() {
    assert!(!is_in_check(&standard(), true));
}

#[test]
fn validate_pinned_bishop_is_king_in_check() {
    let b = board([
        "k . . . r . . .",
        ". . . . . . . .",
        ". . . . . . . .",
        ". . . . . . . .",
        ". . . . . . . .",
        ". . . . . . . .",
        ". . . . B . . .",
        ". . . . K . . .",
    ]);
    assert_eq!(validate_move(&b, sq("e2"), sq("d3")), Err(IllegalReason::KingInCheck));
    assert_eq!(validate_move(&b, sq("e1"), sq("f1")), Ok(None));
}

/// Build a one-game registry from `board` and return it with the game `uuid`.
fn registry_with(board: Vec<Vec<Cell>>) -> (Registry, String) {
    let uuid = uuid::Uuid::new_v4();
    let overview = Overview { board, white: "both".to_string(), black: "both".to_string() };
    let game = Game { uuid: uuid.as_u128(), mode: Mode::Standard, overview, taken: Vec::new(), en_passant: None, castle_spent: CastleSpent { short: false, long: false } };
    let mut registry = Registry::new();
    registry.insert(game);
    (registry, uuid.to_string())
}

/// A short label for a `MoveOutcome`, for panic messages.
fn label(outcome: &MoveOutcome) -> String {
    match outcome {
        MoveOutcome::Applied { .. } => "Applied".to_string(),
        MoveOutcome::Illegal(r) => format!("Illegal({})", r.as_str()),
        MoveOutcome::UnknownGame => "UnknownGame".to_string(),
    }
}

#[test]
fn white_pawn_push_to_rank_8_promotes_to_queen() {
    let b = board([
        "k . . r . . . .",
        ". . . . P . . .",
        ". . . . . . . .",
        ". . . . . . . .",
        ". . . . . . . .",
        ". . . . . . . .",
        ". . . . . . . .",
        ". . . . K . . .",
    ]);
    let (mut registry, uuid) = registry_with(b);
    match move_piece(&mut registry, &uuid, sq("e7"), sq("e8")) {
        MoveOutcome::Applied { piece, capture, overview } => {
            assert_eq!(piece, Piece::WhitePawn, "piece stays WhitePawn (B-5)");
            assert_eq!(capture, None, "a promotion push takes nothing (B-5)");
            assert_eq!(overview.board[0][4], Some(Piece::WhiteQueen), "e8 holds a White Queen (B-2/B-3)");
            assert_eq!(overview.board[1][4], None, "the pawn left e7 (B-7)");
        }
        other => panic!("promotion push must be applied, got a non-Applied outcome: {}", label(&other)),
    }
}

#[test]
fn white_pawn_diagonal_capture_to_rank_8_promotes_to_queen() {
    let b = board([
        "k . . r . . . .",
        ". . . . P . . .",
        ". . . . . . . .",
        ". . . . . . . .",
        ". . . . . . . .",
        ". . . . . . . .",
        ". . . . . . . .",
        ". . . . K . . .",
    ]);
    let (mut registry, uuid) = registry_with(b);
    match move_piece(&mut registry, &uuid, sq("e7"), sq("d8")) {
        MoveOutcome::Applied { piece, capture, overview } => {
            assert_eq!(piece, Piece::WhitePawn, "piece stays WhitePawn (B-5)");
            assert_eq!(capture, Some(Piece::BlackRook), "the captured rook is reported (B-5)");
            assert_eq!(overview.board[0][3], Some(Piece::WhiteQueen), "d8 holds a White Queen (B-3/B-4)");
        }
        other => panic!("promotion capture must be applied, got: {}", label(&other)),
    }
}

#[test]
fn white_pawn_move_off_rank_8_is_not_promoted() {
    let (mut registry, uuid) = registry_with(standard());
    match move_piece(&mut registry, &uuid, sq("d2"), sq("d4")) {
        MoveOutcome::Applied { piece, overview, .. } => {
            assert_eq!(piece, Piece::WhitePawn, "piece stays WhitePawn");
            assert_eq!(overview.board[4][3], Some(Piece::WhitePawn), "d4 holds a pawn, not a queen (B-6)");
        }
        other => panic!("normal pawn push must be applied, got: {}", label(&other)),
    }
}

// ---- further cases of the move rules ---------------------------------------

#[test]
fn move_reasons_cover_every_refusal() {
    let b = standard();
    assert_eq!(validate_move(&b, sq("e7"), sq("e6")), Err(IllegalReason::NotYourPiece));
    assert_eq!(validate_move(&b, sq("e4"), sq("e5")), Err(IllegalReason::NotYourPiece));
    assert_eq!(validate_move(&b, sq("a1"), sq("a2")), Err(IllegalReason::OwnPieceOnTarget));
    assert_eq!(validate_move(&b, sq("b1"), sq("b3")), Err(IllegalReason::IllegalShape));
    assert_eq!(validate_move(&b, sq("d1"), sq("d3")), Err(IllegalReason::PathBlocked));
    assert_eq!(validate_move(&b, sq("c1"), sq("e3")), Err(IllegalReason::PathBlocked));
    assert_eq!(validate_move(&b, sq("g1"), sq("f3")), Ok(None));
    assert_eq!(IllegalReason::PathBlocked.as_str(), "path blocked");
    assert_eq!(IllegalReason::OwnPieceOnTarget.as_str(), "own piece on target");
}

#[test]
fn blocked_pawn_push_is_an_illegal_shape() {
    let b = board([
        "k . . . p . . .",
        ". . . . P . . .",
        ". . . . . . . .",
        ". . . . . . . .",
        ". . . . . . . .",
        ". . . . . . . .",
        ". . . . . . . .",
        ". . . . K . . .",
    ]);
    assert_eq!(validate_move(&b, sq("e7"), sq("e8")), Err(IllegalReason::IllegalShape));
}

#[test]
fn capture_reports_the_black_piece() {
    let b = board([
        ". . . . k . . .",
        ". . . . . . . .",
        ". . . . . . . .",
        ". . . p . . . .",
        ". . . . P . . .",
        ". . . . . . . .",
        ". . . . . . . .",
        ". . . . K . . .",
    ]);
    assert_eq!(validate_move(&b, sq("e4"), sq("d5")), Ok(Some(Piece::BlackPawn)));
}

#[test]
fn knight_and_king_paths_are_clear_and_sliders_are_checked() {
    let b = standard();
    assert!(path_clear(&b, sq("b1"), sq("c3")));
    assert!(path_clear(&b, sq("g1"), sq("e2")));
    assert!(path_clear(&b, sq("e1"), sq("f2")));
    assert!(!path_clear(&b, sq("a1"), sq("a3")));
    assert!(path_clear(&b, sq("a2"), sq("a4")));
    assert!(!path_clear(&b, sq("c1"), sq("a3")));
}

#[test]
fn shapes_of_each_piece() {
    let b = standard();
    assert!(legal_shape(Piece::WhiteKnight, sq("b1"), sq("c3"), &b));
    assert!(!legal_shape(Piece::WhiteKnight, sq("b1"), sq("b3"), &b));
    assert!(legal_shape(Piece::WhiteRook, sq("a1"), sq("a5"), &b));
    assert!(!legal_shape(Piece::WhiteRook, sq("a1"), sq("b2"), &b));
    assert!(legal_shape(Piece::WhiteBishop, sq("c1"), sq("f4"), &b));
    assert!(legal_shape(Piece::WhiteQueen, sq("d1"), sq("d5"), &b));
    assert!(legal_shape(Piece::WhiteKing, sq("e1"), sq("d2"), &b));
    assert!(!legal_shape(Piece::WhiteKing, sq("e1"), sq("e3"), &b));
    assert!(legal_shape(Piece::WhitePawn, sq("e2"), sq("e4"), &b));
    assert!(!legal_shape(Piece::WhitePawn, sq("e2"), sq("d3"), &b));
    assert!(!legal_shape(Piece::WhitePawn, sq("e2"), sq("e5"), &b));
}

#[test]
fn board_after_moves_and_removes_the_capture() {
    let b = board([
        ". . . . k . . .",
        ". . . . . . . .",
        ". . . . . . . .",
        ". . . p . . . .",
        ". . . . P . . .",
        ". . . . . . . .",
        ". . . . . . . .",
        ". . . . K . . .",
    ]);
    let after = board_after(&b, sq("e4"), sq("d5"));
    assert_eq!(after[4][4], None);
    assert_eq!(after[3][3], Some(Piece::WhitePawn));
    assert_eq!(after[0][4], Some(Piece::BlackKing));
    assert_eq!(b[3][3], Some(Piece::BlackPawn), "the input board is untouched");
}

#[test]
fn no_king_means_no_check() {
    let b = board([
        "k . . . r . . .",
        ". . . . . . . .",
        ". . . . . . . .",
        ". . . . . . . .",
        ". . . . . . . .",
        ". . . . . . . .",
        ". . . . . . . .",
        ". . . . . . . .",
    ]);
    assert!(!is_in_check(&b, true));
}

#[test]
fn move_piece_records_capture_and_leaves_refusals_unchanged() {
    let b = board([
        ". . . . k . . .",
        ". . . . . . . .",
        ". . . . . . . .",
        ". . . p . . . .",
        ". . . . P . . .",
        ". . . . . . . .",
        ". . . . . . . .",
        ". . . . K . . .",
    ]);
    let (mut registry, uuid) = registry_with(b);
    let id = uuid::Uuid::parse_str(&uuid).unwrap().as_u128();
    match move_piece(&mut registry, &uuid, sq("e4"), sq("e6")) {
        MoveOutcome::Illegal(r) => assert_eq!(r, IllegalReason::IllegalShape),
        other => panic!("expected an illegal move, got {}", label(&other)),
    }
    assert_eq!(registry.get(id).unwrap().overview.board[4][4], Some(Piece::WhitePawn));
    match move_piece(&mut registry, &uuid, sq("e4"), sq("d5")) {
        MoveOutcome::Applied { capture, .. } => assert_eq!(capture, Some(Piece::BlackPawn)),
        other => panic!("expected an applied move, got {}", label(&other)),
    }
    let game = registry.get(id).unwrap();
    assert_eq!(game.taken, vec![Piece::BlackPawn]);
    assert_eq!(game.overview.board[3][3], Some(Piece::WhitePawn));
    assert_eq!(game.overview.white, "both");
}

#[test]
fn move_piece_on_unknown_game() {
    let (mut registry, _) = registry_with(standard());
    let other = uuid::Uuid::new_v4().to_string();
    assert!(matches!(move_piece(&mut registry, &other, sq("d2"), sq("d4")), MoveOutcome::UnknownGame));
    assert!(matches!(move_piece(&mut registry, "not-a-uuid", sq("d2"), sq("d4")), MoveOutcome::UnknownGame));
}

/// The accessible squares in the order they are listed.
fn listed(b: &Vec<Vec<Cell>>, from: &str) -> Vec<String> {
    accessible_squares(b, sq(from)).into_iter().map(|a| a.square.algebraic()).collect()
}

#[test]
fn accessible_squares_come_in_a_fixed_order() {
    let b = board([
        ". . . . k . . .",
        ". . . . . . . .",
        ". . . p . . . .",
        ". . . . . . . .",
        ". P . Q . . . .",
        ". . . . . . . .",
        ". . . . . . . .",
        ". . . . K . . .",
    ]);
    // Queen on d4: north, south, west, east, then the four diagonals, each outward.
    assert_eq!(
        listed(&b, "d4"),
        vec![
            "d5", "d6", "d3", "d2", "d1", "c4", "e4", "f4", "g4", "h4", "c5", "b6", "a7", "e5", "f6", "g7",
            "h8", "c3", "b2", "a1", "e3", "f2", "g1",
        ]
    );
    // King on e1: its offsets row by row.
    assert_eq!(listed(&b, "e1"), vec!["d2", "e2", "f2", "d1", "f1"]);
    // Knight order on the standard board: b1 reaches a3 then c3.
    let s = board([
        "r n b q k b n r",
        "p p p p p p p p",
        ". . . . . . . .",
        ". . . . . . . .",
        ". . . . . . . .",
        ". . . . . . . .",
        "P P P P P P P P",
        "R N B Q K B N R",
    ]);
    assert_eq!(listed(&s, "b1"), vec!["a3", "c3"]);
    // Pawn: pushes before diagonals, file a before file h.
    let p = board([
        ". . . . k . . .",
        ". . . . . . . .",
        ". . . . . . . .",
        ". . . . . . . .",
        ". . . . . . . .",
        ". . . n . b . .",
        ". . . . P . . .",
        ". . . . K . . .",
    ]);
    assert_eq!(listed(&p, "e2"), vec!["e3", "e4", "d3", "f3"]);
}
