use dayz_monitor::extract_time_and_queue;
use dayz_monitor::retrieve_server_info;
use dayz_monitor::DayzMonitorError;

fn parse(s: &str) -> dayz_monitor::ServerInfo {
    extract_time_and_queue(Some(String::from(s))).expect("a present keyword string decodes")
}

#[test]
fn example_queue_and_first_time() {
    let info = parse("lqs3,12:34,foo,08:00");
    assert_eq!(info.players_in_queue, Some(3));
    assert_eq!(info.server_time.as_deref(), Some("12:34"));
    assert_eq!(info.players, 0);
    assert_eq!(info.max_players, 0);
}

#[test]
fn no_lqs_token_leaves_queue_unset() {
    let info = parse("12:34,foo,bar");
    assert_eq!(info.players_in_queue, None);
}

#[test]
fn last_parsing_lqs_token_wins() {
    assert_eq!(parse("lqs3,lqs7").players_in_queue, Some(7));
    assert_eq!(parse("lqs3,foo,lqs9,12:34").players_in_queue, Some(9));
}

#[test]
fn failing_lqs_token_keeps_earlier_value() {
    assert_eq!(parse("lqs3,lqsx").players_in_queue, Some(3));
    assert_eq!(parse("lqs3,lqs").players_in_queue, Some(3));
}

#[test]
fn empty_lqs_suffix_is_swallowed() {
    let info = parse("lqs");
    assert_eq!(info.players_in_queue, None);
    assert_eq!(info.server_time, None);
}

#[test]
fn first_time_token_wins() {
    let info = parse("08:00,12:34");
    assert_eq!(info.server_time.as_deref(), Some("08:00"));
}

#[test]
fn long_colon_token_is_ignored() {
    let info = parse("123:56789,12:34");
    assert_eq!(info.server_time.as_deref(), Some("12:34"));
}

#[test]
fn colon_token_longer_than_eight_never_matches() {
    let info = parse("123:567890");
    assert_eq!(info.server_time, None);
}

#[test]
fn only_the_leading_lqs_prefix_is_stripped() {
    // The suffix "lqs3" is not a numeral, so the token is passed over.
    assert_eq!(parse("lqslqs3").players_in_queue, None);
}

#[test]
fn lqs_rule_short_circuits_the_clock_rule() {
    // The token starts with "lqs", so it is never a clock candidate,
    // even though it contains a colon and is short enough.
    let info = parse("lqs12:34");
    assert_eq!(info.players_in_queue, None);
    assert_eq!(info.server_time, None);
}

#[test]
fn lqs_token_is_never_the_clock() {
    let info = parse("lqs:1");
    assert_eq!(info.server_time, None);
    assert_eq!(info.players_in_queue, None);
}

#[test]
fn missing_keywords_decode_to_nothing() {
    assert!(extract_time_and_queue(None).is_none());
}

#[test]
fn empty_keyword_string_sets_neither_field() {
    let info = parse("");
    assert_eq!(info.server_time, None);
    assert_eq!(info.players_in_queue, None);
}

#[test]
fn queue_value_at_the_32_bit_limit() {
    assert_eq!(parse("lqs4294967295").players_in_queue, Some(4294967295));
    assert_eq!(parse("lqs4294967296").players_in_queue, None);
}

#[test]
fn queue_numeral_shapes() {
    assert_eq!(parse("lqs+7").players_in_queue, Some(7));
    assert_eq!(parse("lqs07").players_in_queue, Some(7));
    assert_eq!(parse("lqs-7").players_in_queue, None);
    assert_eq!(parse("lqs 7").players_in_queue, None);
    assert_eq!(parse("lqs7x").players_in_queue, None);
}

#[test]
fn reparsing_is_idempotent() {
    let first = parse("lqs3,12:34,foo,08:00");
    let second = parse("lqs3,12:34,foo,08:00");
    assert_eq!(first, second);
}

#[test]
fn fetch_without_keywords_fails_with_keywords_missing() {
    let r = retrieve_server_info(10, 50, None);
    assert_eq!(r, Err(DayzMonitorError::ExtractServerInfoKeywordsMissing));
}

#[test]
fn fetch_overwrites_counts_with_the_reported_ones() {
    let info = retrieve_server_info(42, 60, Some(String::from("lqs2,09:15"))).unwrap();
    assert_eq!(info.players, 42);
    assert_eq!(info.max_players, 60);
    assert_eq!(info.players_in_queue, Some(2));
    assert_eq!(info.server_time.as_deref(), Some("09:15"));
}
