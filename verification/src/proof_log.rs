//! Proof-log vocabulary: the closed set of stream tags, and the `follower`
//! trailer `[[session][request][stream]]` that places a log line in its proof
//! line.

use vstd::prelude::*;
use vstd::string::*;

verus! {

/// The closed set of streams, one per feature.
#[derive(Debug, Clone, Copy, PartialEq, Eq, Structural)]
pub enum LogFeature {
    /// Start a game.
    StartAGame,
    /// Move a piece.
    MoveAPiece,
    /// Play with Stockfish (the opponent reply).
    PlayWithStockfish,
}

impl LogFeature {
    /// The business tag written into every proof log of this stream.
    pub fn as_str(self) -> (res: &'static str)
        ensures
            self == LogFeature::StartAGame ==> res@ == "START-A-GAME"@,
            self == LogFeature::MoveAPiece ==> res@ == "MOVE-A-PIECE"@,
            self == LogFeature::PlayWithStockfish ==> res@ == "PLAY-WITH-STOCKFISH"@,
    {
        match self {
            LogFeature::StartAGame => "START-A-GAME",
            LogFeature::MoveAPiece => "MOVE-A-PIECE",
            LogFeature::PlayWithStockfish => "PLAY-WITH-STOCKFISH",
        }
    }
}

/// The `follower` trailer of a proof log: the session, the request tracking
/// id and the stream.
pub struct Follower<'a> {
    /// Session id: the browser session the request belongs to.
    pub session: &'a str,
    /// Request tracking id: one request, across every service it touches.
    pub request: &'a str,
    /// Stream: which feature the log belongs to.
    pub stream: &'a str,
}

impl<'a> Follower<'a> {
    /// The trailer as written in a log: `[[session][request][stream]]`.
    pub fn render(&self) -> (res: String)
        ensures
            res@ == "[["@ + self.session@ + "]["@ + self.request@ + "]["@ + self.stream@ + "]]"@,
    {
        let mut out = String::from_str("[[");
        out.append(self.session);
        out.append("][");
        out.append(self.request);
        out.append("][");
        out.append(self.stream);
        out.append("]]");
        out
    }
}

} // verus!
