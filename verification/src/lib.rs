//! fisher-server: the chess rules and game state behind a small web service
//! where a human plays White against the Stockfish engine.

pub mod game;
pub mod moves;
pub mod outside;
pub mod engine;
pub mod requests;
pub mod proof_log;
