use dayz_monitor::apply_edit_result;
use dayz_monitor::apply_send_result;
use dayz_monitor::default_server_name;
use dayz_monitor::default_update_interval_secs;
use dayz_monitor::initial_state;
use dayz_monitor::render_kind;
use dayz_monitor::tick_action;
use dayz_monitor::visible_queue;
use dayz_monitor::DayzMonitorError;
use dayz_monitor::MonitorState;
use dayz_monitor::RenderKind;
use dayz_monitor::ServerInfo;
use dayz_monitor::TickAction;

#[test]
fn starts_uninitialized_without_a_preset_id() {
    let s = initial_state(None);
    assert_eq!(s, MonitorState::Uninitialized);
    assert_eq!(tick_action(&s), TickAction::SendPlaceholder);
}

#[test]
fn preset_id_goes_straight_to_active() {
    let s = initial_state(Some(5));
    assert_eq!(s, MonitorState::Active { message_id: 5 });
    assert_eq!(tick_action(&s), TickAction::QueryServer { message_id: 5 });
}

#[test]
fn failed_send_then_successful_send() {
    let s0 = initial_state(None);
    assert_eq!(tick_action(&s0), TickAction::SendPlaceholder);

    // Tick one: the send fails; the identifier stays unset.
    let s1 = apply_send_result(s0, None);
    assert_eq!(s1, MonitorState::Uninitialized);

    // Tick two: the send succeeds; the identifier is recorded.
    assert_eq!(tick_action(&s1), TickAction::SendPlaceholder);
    let s2 = apply_send_result(s1, Some(77));
    assert_eq!(s2, MonitorState::Active { message_id: 77 });

    // From now on a tick only queries: no duplicate message is created.
    assert_eq!(tick_action(&s2), TickAction::QueryServer { message_id: 77 });
    let s3 = apply_send_result(s2, Some(123));
    assert_eq!(s3, MonitorState::Active { message_id: 77 });
}

#[test]
fn failing_query_renders_offline_and_keeps_the_id() {
    let s = initial_state(Some(9));
    let err = DayzMonitorError::A2SError(String::from("timed out"));
    let rendered = render_kind(Err(err.clone()));
    assert_eq!(rendered, RenderKind::Offline(err));

    // The edit outcome never moves the state.
    assert_eq!(apply_edit_result(s, true), MonitorState::Active { message_id: 9 });
    assert_eq!(apply_edit_result(s, false), MonitorState::Active { message_id: 9 });
}

#[test]
fn successful_query_renders_online() {
    let info = ServerInfo {
        server_time: Some(String::from("12:34")),
        players_in_queue: Some(2),
        players: 40,
        max_players: 60,
    };
    assert_eq!(render_kind(Ok(info.clone())), RenderKind::Online(info));
}

#[test]
fn zero_queue_is_not_shown() {
    let mut info = ServerInfo {
        server_time: None,
        players_in_queue: Some(0),
        players: 1,
        max_players: 2,
    };
    assert_eq!(visible_queue(&info), None);
    info.players_in_queue = Some(3);
    assert_eq!(visible_queue(&info), Some(3));
    info.players_in_queue = None;
    assert_eq!(visible_queue(&info), None);
}

#[test]
fn configuration_defaults() {
    assert_eq!(default_server_name(), "DayZ Server");
    assert_eq!(default_update_interval_secs(), 60);
}
