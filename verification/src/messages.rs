//! Wire-level message shapes shared by the HTTP API and its clients.
//!
//! Instants are carried as milliseconds since the Unix epoch; the transport
//! layer converts to and from its own timestamp representation.

use vstd::prelude::*;

verus! {

/// Names of every registered player.
pub struct PlayersResponse {
    pub names: Vec<String>,
}

/// The currently published commander catalog snapshot.
pub struct CommandersResponse {
    pub commanders: Vec<String>,
}

/// First step of the card-data download: where the full payload lives.
pub struct BulkDataResponse {
    pub download_uri: String,
}

/// Outcome of a write request: accepted, or rejected with a reason.
pub struct PostResponse {
    pub success: bool,
    pub error: Option<String>,
}

/// One participant in a submitted or reported game result.
#[derive(Debug)]
pub struct Player {
    pub name: String,
    pub commanders: Vec<String>,
    pub rank: usize,
}

/// All recorded games, one nested record per game.
pub struct GamesResponse {
    pub games: Vec<Game>,
}

/// A recorded game: its time window and its participants.
pub struct Game {
    pub start_datetime: i64,
    pub end_datetime: i64,
    pub players: Vec<Player>,
}

/// A player-registration request.
pub struct PlayerPayload {
    pub name: String,
}

/// A game-result submission as it arrives from a client, with the time
/// window still in its textual form.
pub struct CreateGamePayload {
    pub start_datetime: String,
    pub end_datetime: String,
    pub players: Vec<Player>,
}

/// Failure report for a request that did not present a valid bearer token.
pub struct BearerAuthFailureResponse {
    pub success: bool,
    pub error: String,
}

} // verus!
