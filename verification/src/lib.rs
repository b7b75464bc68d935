//! Keeps a single chat message in sync with the live status of a game
//! server.
//!
//! The library holds the verified core: the keyword parser that reads the
//! semi-structured metadata string of a status query response, the
//! normalization step that assembles a [`ServerInfo`] record, and the state
//! machine that governs the lifecycle of the one persistent status message.
//! Network transport and chat-platform plumbing live outside, and hand the
//! library plain values.

pub mod keywords;
pub mod monitor;
pub mod server;

pub use keywords::extract_time_and_queue;
pub use monitor::MonitorState;
pub use monitor::RenderKind;
pub use monitor::TickAction;
pub use monitor::apply_edit_result;
pub use monitor::apply_send_result;
pub use monitor::initial_state;
pub use monitor::render_kind;
pub use monitor::tick_action;
pub use server::DayzMonitorConfig;
pub use server::DayzMonitorError;
pub use server::ServerInfo;
pub use server::default_server_name;
pub use server::default_update_interval_secs;
pub use server::retrieve_server_info;
pub use server::visible_queue;
