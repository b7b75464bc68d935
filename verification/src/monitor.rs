//! The state machine that governs the single persistent status message.
//!
//! The monitor owns at most one chat message. Each tick either creates
//! that message (when no identifier is known yet) or edits it with a
//! freshly rendered status. The decisions are pure functions from state
//! and event to next state and action; the surroundings perform the
//! network calls and hand back the outcomes.

use vstd::prelude::*;

use crate::server::DayzMonitorError;
use crate::server::ServerInfo;

verus! {

/// Lifecycle state of the single persistent status message.
#[derive(Debug, Clone, Copy, PartialEq, Eq, Structural)]
pub enum MonitorState {
    /// No message identifier is known yet.
    Uninitialized,
    /// A message identifier is known; every tick edits that message.
    Active { message_id: u64 },
}

/// What one tick asks its surroundings to do first.
#[derive(Debug, Clone, Copy, PartialEq, Eq, Structural)]
pub enum TickAction {
    /// Post the placeholder message that later ticks will edit.
    SendPlaceholder,
    /// Query the server and edit the message with this identifier.
    QueryServer { message_id: u64 },
}

/// Which of the two representations a tick renders.
#[derive(Debug, Clone, PartialEq)]
pub enum RenderKind {
    /// The query succeeded; render the online view of this status.
    Online(ServerInfo),
    /// The query failed; render the offline view for this error.
    Offline(DayzMonitorError),
}

/// State the monitor starts in: a pre-configured message identifier goes
/// straight to `Active`, otherwise no message is known yet.
pub open spec fn spec_initial_state(preset_message_id: Option<u64>) -> MonitorState {
    match preset_message_id {
        Some(id) => MonitorState::Active { message_id: id },
        None => MonitorState::Uninitialized,
    }
}

/// Enters the start state. With a pre-configured identifier the monitor
/// only ever edits that message and never sends one of its own.
pub fn initial_state(preset_message_id: Option<u64>) -> (s: MonitorState)
    ensures
        s == spec_initial_state(preset_message_id),
{
    match preset_message_id {
        Some(id) => MonitorState::Active { message_id: id },
        None => MonitorState::Uninitialized,
    }
}

/// Action a tick takes in a given state: create the message while none is
/// known, otherwise query the server and edit the known message.
pub open spec fn spec_tick_action(s: MonitorState) -> TickAction {
    match s {
        MonitorState::Uninitialized => TickAction::SendPlaceholder,
        MonitorState::Active { message_id } => TickAction::QueryServer { message_id },
    }
}

/// Decides what this tick does. In `Active` the action is never
/// `SendPlaceholder`, so at most one message is ever created.
pub fn tick_action(s: &MonitorState) -> (a: TickAction)
    ensures
        a == spec_tick_action(*s),
{
    match s {
        MonitorState::Uninitialized => TickAction::SendPlaceholder,
        MonitorState::Active { message_id } => TickAction::QueryServer { message_id: *message_id },
    }
}

/// State after a placeholder send: success records the new identifier,
/// failure keeps waiting (the tick is skipped and the send is retried on
/// the next tick). A monitor that is already `Active` never sends, so its
/// state is unchanged whatever is handed in.
pub open spec fn spec_apply_send_result(s: MonitorState, sent: Option<u64>) -> MonitorState {
    match s {
        MonitorState::Uninitialized => match sent {
            Some(id) => MonitorState::Active { message_id: id },
            None => MonitorState::Uninitialized,
        },
        MonitorState::Active { message_id } => MonitorState::Active { message_id },
    }
}

/// Applies the outcome of the placeholder send: `Some` carries the
/// identifier of the freshly created message, `None` reports a failure.
pub fn apply_send_result(s: MonitorState, sent: Option<u64>) -> (s2: MonitorState)
    ensures
        s2 == spec_apply_send_result(s, sent),
{
    match s {
        MonitorState::Uninitialized => match sent {
            Some(id) => MonitorState::Active { message_id: id },
            None => MonitorState::Uninitialized,
        },
        MonitorState::Active { message_id } => MonitorState::Active { message_id },
    }
}

/// The representation a tick renders for a fetch outcome: the online view
/// of the fetched status, or the offline view carrying the error.
pub open spec fn spec_render_kind(result: Result<ServerInfo, DayzMonitorError>) -> RenderKind {
    match result {
        Ok(info) => RenderKind::Online(info),
        Err(e) => RenderKind::Offline(e),
    }
}

/// Chooses between the online and the offline rendering.
pub fn render_kind(result: Result<ServerInfo, DayzMonitorError>) -> (r: RenderKind)
    ensures
        r == spec_render_kind(result),
{
    match result {
        Ok(info) => RenderKind::Online(info),
        Err(e) => RenderKind::Offline(e),
    }
}

/// State after the edit of the status message: unchanged, whether the
/// edit worked or not. An edit failure (say, the message was deleted
/// externally) is surfaced by the caller but the identifier is kept; the
/// monitor does not recreate the message.
pub open spec fn spec_apply_edit_result(s: MonitorState, edit_ok: bool) -> MonitorState {
    s
}

/// Applies the outcome of the message edit. The state never changes here.
pub fn apply_edit_result(s: MonitorState, edit_ok: bool) -> (s2: MonitorState)
    ensures
        s2 == spec_apply_edit_result(s, edit_ok),
        s2 == s,
{
    s
}

/// A tick sends the placeholder exactly while no identifier is known:
/// once the monitor is `Active`, no tick ever sends again, so at most
/// one message is created per run.
pub proof fn lemma_send_only_while_uninitialized()
    ensures
        forall|s: MonitorState|
            #[trigger] spec_tick_action(s) == TickAction::SendPlaceholder <==> s
                is Uninitialized,
{
}

/// A failed placeholder send leaves the identifier unset, so the next
/// tick retries the send; a success on that next tick records the new
/// identifier. Together with [`lemma_send_only_while_uninitialized`]
/// this rules out a duplicate message: after the successful send the
/// state is `Active` and no later tick sends.
pub proof fn lemma_send_fail_then_success(id: u64)
    ensures
        spec_apply_send_result(MonitorState::Uninitialized, None) == MonitorState::Uninitialized,
        spec_tick_action(spec_apply_send_result(MonitorState::Uninitialized, None))
            == TickAction::SendPlaceholder,
        spec_apply_send_result(
            spec_apply_send_result(MonitorState::Uninitialized, None),
            Some(id),
        ) == (MonitorState::Active { message_id: id }),
        spec_tick_action(MonitorState::Active { message_id: id }) == (TickAction::QueryServer {
            message_id: id,
        }),
{
}

/// A failing query on a tick in `Active` renders the offline view for
/// that error, and the stored message identifier is unchanged afterwards
/// whether or not the edit itself succeeded.
pub proof fn lemma_query_failure_offline_keeps_id(id: u64, e: DayzMonitorError, edit_ok: bool)
    ensures
        spec_render_kind(Err(e)) == RenderKind::Offline(e),
        spec_apply_edit_result(MonitorState::Active { message_id: id }, edit_ok)
            == (MonitorState::Active { message_id: id }),
{
}

} // verus!
