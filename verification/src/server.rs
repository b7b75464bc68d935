//! The normalized status record, the error taxonomy, and the monitor
//! configuration.

use vstd::prelude::*;

verus! {

/// Normalized status of the monitored game server, assembled from one
/// query response.
#[derive(Debug, Clone, PartialEq)]
pub struct ServerInfo {
    /// Short clock-like token taken verbatim from the keyword string.
    pub server_time: Option<String>,
    /// Queue length decoded from the keyword string.
    pub players_in_queue: Option<u32>,
    /// Current player count reported by the server.
    pub players: u32,
    /// Player capacity reported by the server.
    pub max_players: u32,
}

/// Mathematical image of a [`ServerInfo`]: the clock token as a character
/// sequence, the other fields as plain values.
pub struct ServerInfoView {
    pub server_time: Option<Seq<char>>,
    pub players_in_queue: Option<u32>,
    pub players: u32,
    pub max_players: u32,
}

impl View for ServerInfo {
    type V = ServerInfoView;

    open spec fn view(&self) -> ServerInfoView {
        ServerInfoView {
            server_time: match self.server_time {
                Some(t) => Some(t@),
                None => None,
            },
            players_in_queue: self.players_in_queue,
            players: self.players,
            max_players: self.max_players,
        }
    }
}

/// Failure taxonomy of one status fetch. The transport variants carry the
/// reported cause as text; the surroundings that perform the network call
/// fill it in.
#[derive(Debug, Clone, PartialEq)]
pub enum DayzMonitorError {
    /// Socket-level failure while talking to the server.
    TokioIOError(String),
    /// Query protocol failure (malformed or missing response).
    A2SError(String),
    /// The query succeeded but the response carried no keyword string.
    ExtractServerInfoKeywordsMissing,
}

/// Immutable monitor configuration for one process run.
#[derive(Debug, Clone, PartialEq)]
pub struct DayzMonitorConfig {
    /// Authentication token for the chat platform.
    pub discord_token: String,
    /// Query address of the game server, as `ip:queryport` text.
    pub server_address: String,
    /// Display name used when rendering the status.
    pub server_name: String,
    /// Channel that holds the status message.
    pub text_channel_id: u64,
    /// Identifier of a pre-existing status message to edit. When set, the
    /// monitor never sends a message of its own.
    pub status_message_id: Option<u64>,
    /// Seconds slept between two ticks.
    pub update_interval_secs: u64,
}

/// Display name used when the configuration does not set one.
pub fn default_server_name() -> (r: String)
    ensures
        r@ == "DayZ Server"@,
{
    "DayZ Server".to_owned()
}

/// Update interval used when the configuration does not set one.
pub fn default_update_interval_secs() -> (r: u64)
    ensures
        r == 60,
{
    60
}

/// Assembles the normalized status record for one query whose transport
/// already succeeded: decodes the keyword string of the response and
/// overwrites the decoded player counts with the authoritative counts
/// the response reports directly. A response that carries no keyword
/// string fails with
/// [`DayzMonitorError::ExtractServerInfoKeywordsMissing`]; that is the
/// only failure here.
pub fn retrieve_server_info(players: u32, max_players: u32, keywords: Option<String>) -> (r:
    Result<ServerInfo, DayzMonitorError>)
    ensures
        r is Ok <==> keywords is Some,
        keywords matches Some(k) ==> r matches Ok(info) && info@ == (ServerInfoView {
            players,
            max_players,
            ..crate::keywords::status_of_keywords(k@)
        }),
        r matches Err(e) ==> e is ExtractServerInfoKeywordsMissing,
{
    let mut info = match crate::keywords::extract_time_and_queue(keywords) {
        Some(info) => info,
        None => {
            return Err(DayzMonitorError::ExtractServerInfoKeywordsMissing);
        },
    };
    info.players = players;
    info.max_players = max_players;
    Ok(info)
}

/// Decoding is deterministic: two status records decoded from the same
/// keyword string are identical, field for field.
pub proof fn lemma_extract_deterministic(a: ServerInfo, b: ServerInfo, k: Seq<char>)
    requires
        a@ == crate::keywords::status_of_keywords(k),
        b@ == crate::keywords::status_of_keywords(k),
    ensures
        a@ == b@,
{
}

/// The queue length that the rendered status line shows: present counts
/// only, a zero-length queue is shown as no queue at all.
pub open spec fn spec_visible_queue(players_in_queue: Option<u32>) -> Option<u32> {
    match players_in_queue {
        Some(q) => if q > 0 {
            Some(q)
        } else {
            None
        },
        None => None,
    }
}

/// Decides whether the rendered player line mentions the queue.
pub fn visible_queue(info: &ServerInfo) -> (r: Option<u32>)
    ensures
        r == spec_visible_queue(info.players_in_queue),
{
    match info.players_in_queue {
        Some(q) => if q > 0 {
            Some(q)
        } else {
            None
        },
        None => None,
    }
}

} // verus!
