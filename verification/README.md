# fisher-server

The rules and game state behind a small web service where a human plays
White against the Stockfish engine, written in Verus with their contracts
proved.

- `src/` — the verified library: pieces, squares and boards (`game/`), the
  move rules, check, castling, en passant and the step that applies White's
  move (`moves/`), FEN output, the engine's answer and Black's reply
  (`engine/`), the request checks of the routes (`requests.rs`), the
  proof-log vocabulary (`proof_log.rs`), and the few trusted calls into
  `uuid`, `rand` and std (`outside.rs`).
- `app/` — the HTTP service around it (axum, tokio, reqwest, tracing): it
  reads requests, calls the library, asks the engine, and writes answers.
- `tests/` — the library's tests.
