use pigeon::layout::{
    delivery_cursor_from_text, delivery_cursor_text, delivery_state_key, fetch_cursor_from_text,
    fetch_cursor_text, identity_of_partition, partition_name,
};
use pigeon::poll::timeline_path;
use pigeon::users::usernames_query;
use pigeon::{
    channel_for, included_poll_configs, included_push_configs, millis_to_rfc3339,
    parse_record_id, timestamp_from_str, Data, FetchCursor, Message, PollConfig, PushConfig,
    StateTracker, Tweet, User,
};

#[test]
fn test_timestamp_from_str() {
    let time_str = "2022-03-24T02:46:46.000Z";
    let time = timestamp_from_str(time_str).unwrap();
    assert_eq!(1648090006000, time);
}

#[test]
fn timestamp_errors_name_the_input() {
    let e = timestamp_from_str("not a time").unwrap_err();
    assert!(e.contains("not a time"));
}

#[test]
fn millis_render_as_rfc3339() {
    let text = millis_to_rfc3339(1648090006000).unwrap();
    assert_eq!(text, "2022-03-24T02:46:46+00:00");
    assert_eq!(timestamp_from_str(&text).unwrap(), 1648090006000);
    assert!(millis_to_rfc3339(i64::MAX).is_none());
}

#[test]
fn record_ids_parse_as_decimal() {
    assert_eq!(parse_record_id("1587946527955329024"), Some(1587946527955329024));
    assert_eq!(parse_record_id("0"), Some(0));
    assert_eq!(parse_record_id("18446744073709551615"), Some(u64::MAX));
    assert_eq!(parse_record_id("18446744073709551616"), None);
    assert_eq!(parse_record_id(""), None);
    assert_eq!(parse_record_id("12a"), None);
    assert_eq!(parse_record_id("-1"), None);
}

#[test]
fn message_joins_text_and_time() {
    let t = Tweet { id: "1".to_string(), created_at: "2022-11-02T23:15:29.000Z".to_string(), text: "hello".to_string() };
    let m = Message::new("some_channel", t);
    assert_eq!(m.chat_id, "some_channel");
    assert_eq!(m.text, "hello\n\n2022-11-02T23:15:29.000Z");
}

fn push(included: bool, from: &str, to: &str) -> PushConfig {
    PushConfig { included, from: from.to_string(), username: to.to_string() }
}

#[test]
fn later_route_wins() {
    let cfgs = vec![push(true, "alice", "c1"), push(true, "bob", "c2"), push(true, "alice", "c3")];
    assert_eq!(channel_for(&cfgs, "alice"), Some("c3".to_string()));
    assert_eq!(channel_for(&cfgs, "bob"), Some("c2".to_string()));
    assert_eq!(channel_for(&cfgs, "carol"), None);
}

#[test]
fn only_included_configs_are_kept() {
    let cfgs = vec![push(true, "a", "1"), push(false, "b", "2"), push(true, "c", "3")];
    let kept: Vec<String> = included_push_configs(cfgs).into_iter().map(|c| c.from).collect();
    assert_eq!(kept, vec!["a", "c"]);
    let poll = |included: bool, name: &str| PollConfig {
        included,
        username: name.to_string(),
        max_results: None,
        start_time: None,
        end_time: None,
        since_id: None,
    };
    let kept: Vec<String> = included_poll_configs(vec![poll(false, "x"), poll(true, "y")])
        .into_iter()
        .map(|c| c.username)
        .collect();
    assert_eq!(kept, vec!["y"]);
}

#[test]
fn stored_start_time_wins_over_configured() {
    let mut cfg = PollConfig {
        included: true,
        username: "TwitterDev".to_string(),
        max_results: Some(5),
        start_time: Some("2022-10-25T00:00:00.000Z".to_string()),
        end_time: None,
        since_id: None,
    };
    cfg.insert_start_time(None);
    assert_eq!(cfg.start_time.as_deref(), Some("2022-10-25T00:00:00.000Z"));
    cfg.insert_start_time(Some("2022-11-01T00:00:00.000Z".to_string()));
    assert_eq!(cfg.start_time.as_deref(), Some("2022-11-01T00:00:00.000Z"));
}

#[test]
fn user_lookup_maps_names_to_ids() {
    let data = |id: &str, username: &str| Data { id: id.to_string(), name: "n".to_string(), username: username.to_string() };
    let u = User { data: vec![data("2244994945", "TwitterDev"), data("12", "jack")] };
    assert_eq!(u.user_ids(), vec!["2244994945".to_string(), "12".to_string()]);
    assert_eq!(u.id_of("jack"), Some("12".to_string()));
    assert_eq!(u.id_of("nobody"), None);
}

#[test]
fn partition_names_carry_the_prefix() {
    assert_eq!(partition_name("alice"), "timeline:alice");
    assert_eq!(identity_of_partition("timeline:alice"), Some("alice".to_string()));
    assert_eq!(identity_of_partition("timeline:"), Some(String::new()));
    assert_eq!(identity_of_partition("state"), None);
    assert_eq!(identity_of_partition("timelinex:alice"), None);
}

#[test]
fn cursor_texts_round_trip() {
    assert_eq!(delivery_state_key("alice"), "alice#delivery");
    assert_eq!(delivery_cursor_text(1587946527955329024), "1587946527955329024");
    assert_eq!(delivery_cursor_from_text("42"), Some(42));
    let token = FetchCursor::NextToken("7140dibdnow9c7btw423x78o50g6e358t5r7iusluud6d".to_string());
    let text = fetch_cursor_text(&token).unwrap();
    assert!(matches!(fetch_cursor_from_text(&text), FetchCursor::NextToken(t) if t == text));
    let mark = FetchCursor::SinceMarker(1648090006000);
    let text = fetch_cursor_text(&mark).unwrap();
    assert!(matches!(fetch_cursor_from_text(&text), FetchCursor::SinceMarker(1648090006000)));
}

#[test]
fn tracker_keeps_cursors_per_identity() {
    let mut t = StateTracker::new();
    t.set_delivery_cursor("a", 5);
    t.set_delivery_cursor("b", 7);
    t.set_delivery_cursor("a", 6);
    assert_eq!(t.get_delivery_cursor("a"), Some(6));
    t.clear_delivery_cursor("a");
    assert_eq!(t.get_delivery_cursor("a"), None);
    assert_eq!(t.get_delivery_cursor("b"), Some(7));
    t.advance_fetch_marker("a", 100);
    t.advance_fetch_marker("a", 50);
    assert!(matches!(t.get_fetch_cursor("a"), Some(FetchCursor::SinceMarker(100))));
    t.set_fetch_cursor("a", FetchCursor::NextToken("tok".to_string()));
    t.advance_fetch_marker("a", 10);
    assert!(matches!(t.get_fetch_cursor("a"), Some(FetchCursor::SinceMarker(10))));
}

#[test]
fn lease_is_exclusive_per_identity() {
    let mut leases = pigeon::Leases::new();
    assert!(leases.acquire("alice"));
    assert!(!leases.acquire("alice"));
    assert!(leases.acquire("bob"));
    leases.release("alice");
    assert!(leases.acquire("alice"));
}

#[test]
fn usernames_are_joined_by_commas() {
    let names = vec!["john".to_string(), "mick".to_string()];
    assert_eq!(usernames_query(&names), "john,mick");
    assert_eq!(usernames_query(&vec!["solo".to_string()]), "solo");
    assert_eq!(usernames_query(&Vec::new()), "");
}

#[test]
fn timeline_path_names_the_account() {
    assert_eq!(timeline_path("123"), "users/123/tweets");
}
