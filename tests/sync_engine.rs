use pigeon::{
    ingest_page, page_query, resume_token, timestamp_from_str, DrainOutcome, DrainSession,
    FetchCursor, Page, PageResponse, PaginationToken, PollConfig, PollError, PollSession,
    RecordStore, SendResult, StateTracker, StoreError, Tweet,
};

fn tweet(id: &str, created_at: &str, text: &str) -> Tweet {
    Tweet { id: id.to_string(), created_at: created_at.to_string(), text: text.to_string() }
}

fn three_newest_first() -> Vec<Tweet> {
    vec![
        tweet("3", "2022-11-03T00:00:00.000Z", "three"),
        tweet("2", "2022-11-02T00:00:00.000Z", "two"),
        tweet("1", "2022-11-01T00:00:00.000Z", "one"),
    ]
}

fn page(records: Vec<Tweet>, next: Option<&str>) -> PageResponse {
    PageResponse::Page(Page { records, next_token: next.map(|s| s.to_string()) })
}

fn marker(tracker: &StateTracker, identity: &str) -> Option<i64> {
    match tracker.get_fetch_cursor(identity) {
        Some(FetchCursor::SinceMarker(ms)) => Some(*ms),
        _ => None,
    }
}

/// Polls `identity` once, answering its page requests from `answers` in turn.
fn poll_once(
    store: &mut RecordStore,
    tracker: &mut StateTracker,
    identity: &str,
    answers: Vec<PageResponse>,
) -> (usize, Vec<Option<PaginationToken>>) {
    let mut session = PollSession::begin(store, identity, None);
    let mut answers = answers.into_iter();
    let mut stored = 0;
    let mut asked = Vec::new();
    while let Some(token) = session.next_request() {
        asked.push(token);
        let answer = answers.next().unwrap_or(PageResponse::Failed);
        match session.on_response(store, tracker, answer) {
            Ok(n) => stored += n,
            Err(e) => assert_eq!(e, PollError::UpstreamFailed),
        }
    }
    (stored, asked)
}

/// Drains `identity`, sending each record through `send`; returns the ids sent.
fn drain(
    store: &mut RecordStore,
    tracker: &mut StateTracker,
    identity: &str,
    mut send: impl FnMut(&Tweet) -> SendResult,
) -> (Result<DrainOutcome, StoreError>, Vec<String>) {
    let mut session = DrainSession::begin(store, tracker, identity).unwrap();
    let mut sent = Vec::new();
    while let Some(key) = session.next_key() {
        let t = store.get(identity, key).unwrap().unwrap();
        let result = send(t);
        if result == SendResult::Delivered {
            sent.push(t.id.clone());
        }
        session.record(result);
    }
    (session.finish(store, tracker), sent)
}

#[test]
fn scenario_fresh_identity_poll_then_drain() {
    let mut store = RecordStore::new();
    let mut tracker = StateTracker::new();
    let (stored, _) = poll_once(&mut store, &mut tracker, "alice", vec![page(three_newest_first(), None)]);
    assert_eq!(stored, 3);
    assert_eq!(marker(&tracker, "alice"), Some(timestamp_from_str("2022-11-03T00:00:00.000Z").unwrap()));
    assert_eq!(store.partition("alice").unwrap().len(), 3);

    let (outcome, sent) = drain(&mut store, &mut tracker, "alice", |_| SendResult::Delivered);
    assert_eq!(outcome, Ok(DrainOutcome::Compacted));
    assert_eq!(sent, vec!["1", "2", "3"]);
    assert!(store.partition("alice").is_none());
    assert_eq!(tracker.get_delivery_cursor("alice"), None);
}

#[test]
fn scenario_send_fails_on_third_record() {
    let mut store = RecordStore::new();
    let mut tracker = StateTracker::new();
    poll_once(&mut store, &mut tracker, "alice", vec![page(three_newest_first(), None)]);
    let (outcome, sent) = drain(&mut store, &mut tracker, "alice", |t| {
        if t.id == "3" { SendResult::Rejected } else { SendResult::Delivered }
    });
    assert_eq!(outcome, Ok(DrainOutcome::PartialFailure(3)));
    assert_eq!(sent, vec!["1", "2"]);
    assert_eq!(tracker.get_delivery_cursor("alice"), Some(3));
    assert_eq!(store.partition("alice").unwrap().len(), 3);
}

#[test]
fn scenario_rate_limited_first_page() {
    let mut store = RecordStore::new();
    let mut tracker = StateTracker::new();
    tracker.set_fetch_cursor("alice", FetchCursor::SinceMarker(1_000));
    let (stored, asked) = poll_once(&mut store, &mut tracker, "alice", vec![PageResponse::RateLimited]);
    assert_eq!(stored, 0);
    assert_eq!(asked.len(), 1);
    assert_eq!(marker(&tracker, "alice"), Some(1_000));
    assert!(store.partition("alice").unwrap().is_empty());
}

#[test]
fn resume_after_partial_failure_starts_at_failed_record() {
    let mut store = RecordStore::new();
    let mut tracker = StateTracker::new();
    poll_once(&mut store, &mut tracker, "alice", vec![page(three_newest_first(), None)]);
    drain(&mut store, &mut tracker, "alice", |t| {
        if t.id == "2" { SendResult::Rejected } else { SendResult::Delivered }
    });
    let (outcome, sent) = drain(&mut store, &mut tracker, "alice", |_| SendResult::Delivered);
    assert_eq!(sent, vec!["2", "3"]);
    assert_eq!(outcome, Ok(DrainOutcome::Compacted));
    assert!(store.partition("alice").is_none());
    assert_eq!(tracker.get_delivery_cursor("alice"), None);
}

#[test]
fn shutdown_keeps_cursor_at_unsent_record() {
    let mut store = RecordStore::new();
    let mut tracker = StateTracker::new();
    poll_once(&mut store, &mut tracker, "alice", vec![page(three_newest_first(), None)]);
    let (outcome, sent) = drain(&mut store, &mut tracker, "alice", |t| {
        if t.id == "1" { SendResult::Delivered } else { SendResult::Shutdown }
    });
    assert_eq!(sent, vec!["1"]);
    assert_eq!(outcome, Ok(DrainOutcome::PartialFailure(2)));
    assert_eq!(tracker.get_delivery_cursor("alice"), Some(2));
}

#[test]
fn delivery_goes_in_ascending_key_order() {
    let mut store = RecordStore::new();
    let mut tracker = StateTracker::new();
    let recs = vec![
        tweet("30", "2022-11-03T00:00:00.000Z", "c"),
        tweet("7", "2022-11-02T00:00:00.000Z", "b"),
        tweet("12", "2022-11-01T00:00:00.000Z", "a"),
    ];
    poll_once(&mut store, &mut tracker, "bob", vec![page(recs, None)]);
    let (_, sent) = drain(&mut store, &mut tracker, "bob", |_| SendResult::Delivered);
    assert_eq!(sent, vec!["7", "12", "30"]);
}

#[test]
fn compaction_keeps_records_stored_during_the_drain() {
    let mut store = RecordStore::new();
    let mut tracker = StateTracker::new();
    poll_once(&mut store, &mut tracker, "alice", vec![page(three_newest_first(), None)]);
    let mut session = DrainSession::begin(&store, &tracker, "alice").unwrap();
    while let Some(_) = session.next_key() {
        session.record(SendResult::Delivered);
    }
    let late = vec![tweet("4", "2022-11-04T00:00:00.000Z", "four")];
    ingest_page(&mut store, &mut tracker, "alice", &late, false).unwrap();
    assert_eq!(session.finish(&mut store, &mut tracker), Ok(DrainOutcome::Compacted));
    let part = store.partition("alice").unwrap();
    assert_eq!(part.len(), 1);
    assert!(part.get(4).is_some());
    assert!(part.get(1).is_none() && part.get(2).is_none() && part.get(3).is_none());
}

#[test]
fn compaction_keeps_older_records_stored_during_the_drain() {
    let mut store = RecordStore::new();
    let mut tracker = StateTracker::new();
    let recs = vec![tweet("5", "2022-11-05T00:00:00.000Z", "e"), tweet("1", "2022-11-01T00:00:00.000Z", "a")];
    poll_once(&mut store, &mut tracker, "alice", vec![page(recs, None)]);
    let mut session = DrainSession::begin(&store, &tracker, "alice").unwrap();
    assert_eq!(session.known_keys(), &vec![1, 5]);
    while let Some(_) = session.next_key() {
        session.record(SendResult::Delivered);
    }
    // An older page arrives while the drain runs: its keys lie below 5.
    let older = vec![tweet("3", "2022-11-03T00:00:00.000Z", "c")];
    ingest_page(&mut store, &mut tracker, "alice", &older, false).unwrap();
    assert_eq!(session.finish(&mut store, &mut tracker), Ok(DrainOutcome::Compacted));
    let part = store.partition("alice").unwrap();
    assert_eq!(part.len(), 1);
    assert_eq!(part.get(3).unwrap().text, "c");
    let (_, sent) = drain(&mut store, &mut tracker, "alice", |_| SendResult::Delivered);
    assert_eq!(sent, vec!["3"]);
}

#[test]
fn resumed_drain_compacts_records_below_the_cursor() {
    let mut store = RecordStore::new();
    let mut tracker = StateTracker::new();
    poll_once(&mut store, &mut tracker, "alice", vec![page(three_newest_first(), None)]);
    drain(&mut store, &mut tracker, "alice", |t| {
        if t.id == "3" { SendResult::Rejected } else { SendResult::Delivered }
    });
    let (outcome, sent) = drain(&mut store, &mut tracker, "alice", |_| SendResult::Delivered);
    assert_eq!(sent, vec!["3"]);
    assert_eq!(outcome, Ok(DrainOutcome::Compacted));
    assert!(store.partition("alice").is_none());
}

#[test]
fn page_with_next_token_keeps_the_poll_going() {
    let mut store = RecordStore::new();
    let mut tracker = StateTracker::new();
    let mut session = PollSession::begin(&mut store, "alice", None);
    assert!(matches!(session.next_request(), Some(None)));
    let first = vec![tweet("5", "2022-11-05T00:00:00.000Z", "e")];
    assert_eq!(session.on_response(&mut store, &mut tracker, page(first, Some("tok"))), Ok(1));
    assert!(matches!(session.next_request(), Some(Some(PaginationToken::NextToken(t))) if t == "tok"));
    let last = vec![tweet("4", "2022-11-04T00:00:00.000Z", "d")];
    assert_eq!(session.on_response(&mut store, &mut tracker, page(last, None)), Ok(1));
    assert!(session.next_request().is_none());
}

#[test]
fn stopped_poll_sends_no_more_requests() {
    let mut store = RecordStore::new();
    let mut tracker = StateTracker::new();
    let mut session = PollSession::begin(&mut store, "alice", None);
    session.next_request();
    let first = vec![tweet("5", "2022-11-05T00:00:00.000Z", "e")];
    session.on_response(&mut store, &mut tracker, page(first, Some("tok"))).unwrap();
    session.stop();
    assert!(session.next_request().is_none());
    assert_eq!(store.partition("alice").unwrap().len(), 1);
}

#[test]
fn drain_of_missing_partition_fails() {
    let store = RecordStore::new();
    let tracker = StateTracker::new();
    assert!(matches!(
        DrainSession::begin(&store, &tracker, "nobody"),
        Err(StoreError::NoSuchPartition)
    ));
}

#[test]
fn reingesting_the_same_record_stores_it_once() {
    let mut store = RecordStore::new();
    let mut tracker = StateTracker::new();
    poll_once(&mut store, &mut tracker, "alice", vec![page(three_newest_first(), None)]);
    let again = vec![tweet("2", "2022-11-02T00:00:00.000Z", "two")];
    poll_once(&mut store, &mut tracker, "alice", vec![page(again, None)]);
    assert_eq!(store.partition("alice").unwrap().len(), 3);
    assert_eq!(store.get("alice", 2).unwrap().unwrap().text, "two");
}

#[test]
fn fetch_marker_never_moves_back() {
    let mut store = RecordStore::new();
    let mut tracker = StateTracker::new();
    poll_once(&mut store, &mut tracker, "alice", vec![page(three_newest_first(), None)]);
    let newest = marker(&tracker, "alice").unwrap();
    let older = vec![tweet("9", "2022-10-01T00:00:00.000Z", "old")];
    poll_once(&mut store, &mut tracker, "alice", vec![page(older, None)]);
    assert_eq!(marker(&tracker, "alice"), Some(newest));
    let newer = vec![tweet("10", "2022-12-01T00:00:00.000Z", "new")];
    poll_once(&mut store, &mut tracker, "alice", vec![page(newer, None)]);
    assert_eq!(marker(&tracker, "alice"), Some(timestamp_from_str("2022-12-01T00:00:00.000Z").unwrap()));
}

#[test]
fn only_first_page_moves_the_marker() {
    let mut store = RecordStore::new();
    let mut tracker = StateTracker::new();
    let first = vec![tweet("5", "2022-11-05T00:00:00.000Z", "e")];
    let second = vec![tweet("4", "2022-12-30T00:00:00.000Z", "d")];
    let (stored, asked) = poll_once(
        &mut store,
        &mut tracker,
        "alice",
        vec![page(first, Some("tok")), page(second, None)],
    );
    assert_eq!(stored, 2);
    assert!(matches!(&asked[1], Some(PaginationToken::NextToken(t)) if t == "tok"));
    assert_eq!(marker(&tracker, "alice"), Some(timestamp_from_str("2022-11-05T00:00:00.000Z").unwrap()));
}

#[test]
fn empty_page_ends_the_poll() {
    let mut store = RecordStore::new();
    let mut tracker = StateTracker::new();
    let (stored, asked) = poll_once(&mut store, &mut tracker, "alice", vec![page(vec![], Some("tok"))]);
    assert_eq!(stored, 0);
    assert_eq!(asked.len(), 1);
}

#[test]
fn failed_request_ends_the_poll_keeping_earlier_pages() {
    let mut store = RecordStore::new();
    let mut tracker = StateTracker::new();
    let (stored, asked) = poll_once(
        &mut store,
        &mut tracker,
        "alice",
        vec![page(three_newest_first(), Some("tok")), PageResponse::Failed],
    );
    assert_eq!(stored, 3);
    assert_eq!(asked.len(), 2);
    assert_eq!(store.partition("alice").unwrap().len(), 3);
}

#[test]
fn failed_request_is_reported() {
    let mut store = RecordStore::new();
    let mut tracker = StateTracker::new();
    let mut session = PollSession::begin(&mut store, "alice", None);
    assert!(session.next_request().is_some());
    assert_eq!(
        session.on_response(&mut store, &mut tracker, PageResponse::Failed),
        Err(PollError::UpstreamFailed)
    );
    assert!(session.next_request().is_none());
    let mut session = PollSession::begin(&mut store, "alice", None);
    session.next_request();
    assert_eq!(session.on_response(&mut store, &mut tracker, PageResponse::RateLimited), Ok(0));
}

#[test]
fn malformed_record_id_is_rejected_without_change() {
    let mut store = RecordStore::new();
    let mut tracker = StateTracker::new();
    store.create_partition("alice");
    let bad = vec![tweet("12", "2022-11-01T00:00:00.000Z", "ok"), tweet("x1", "2022-11-01T00:00:00.000Z", "bad")];
    assert_eq!(ingest_page(&mut store, &mut tracker, "alice", &bad, true), Err(PollError::MalformedRecord));
    assert!(store.partition("alice").unwrap().is_empty());
    assert!(tracker.get_fetch_cursor("alice").is_none());
}

#[test]
fn malformed_first_timestamp_is_rejected() {
    let mut store = RecordStore::new();
    let mut tracker = StateTracker::new();
    store.create_partition("alice");
    let bad = vec![tweet("12", "yesterday", "x")];
    assert_eq!(ingest_page(&mut store, &mut tracker, "alice", &bad, true), Err(PollError::MalformedRecord));
    assert_eq!(ingest_page(&mut store, &mut tracker, "alice", &bad, false), Ok(()));
}

#[test]
fn ingest_into_missing_partition_fails() {
    let mut store = RecordStore::new();
    let mut tracker = StateTracker::new();
    let recs = three_newest_first();
    assert_eq!(ingest_page(&mut store, &mut tracker, "alice", &recs, true), Err(PollError::NoSuchPartition));
}

fn config(since_id: Option<&str>, start_time: Option<&str>) -> PollConfig {
    PollConfig {
        included: true,
        username: "TwitterDev".to_string(),
        max_results: Some(5),
        start_time: start_time.map(|s| s.to_string()),
        end_time: Some("2022-10-30T00:00:00.000Z".to_string()),
        since_id: since_id.map(|s| s.to_string()),
    }
}

#[test]
fn resume_prefers_token_then_since_id_then_marker() {
    let cfg = config(Some("100"), Some("2022-10-25T00:00:00.000Z"));
    let token = FetchCursor::NextToken("abc".to_string());
    assert!(matches!(resume_token(&cfg, Some(&token)), Some(PaginationToken::NextToken(t)) if t == "abc"));
    let ms = timestamp_from_str("2022-11-02T23:15:29.000Z").unwrap();
    let mark = FetchCursor::SinceMarker(ms);
    assert!(matches!(resume_token(&cfg, Some(&mark)), Some(PaginationToken::TweetID(t)) if t == "100"));
    let cfg = config(None, Some("2022-10-25T00:00:00.000Z"));
    match resume_token(&cfg, Some(&mark)) {
        Some(PaginationToken::StartTime(t)) => {
            assert_eq!(timestamp_from_str(&t).unwrap(), ms + 1000);
        }
        _ => panic!("expected a start time"),
    }
    assert!(matches!(resume_token(&cfg, None), Some(PaginationToken::StartTime(t)) if t == "2022-10-25T00:00:00.000Z"));
    assert!(resume_token(&config(None, None), None).is_none());
}

#[test]
fn page_query_carries_one_continuation() {
    let cfg = config(None, None);
    let q = page_query(&cfg, &Some(PaginationToken::NextToken("tok".to_string())));
    let pairs: Vec<(&str, &str)> = q.iter().map(|(k, v)| (k.as_str(), v.as_str())).collect();
    assert_eq!(
        pairs,
        vec![
            ("tweet.fields", "created_at"),
            ("max_results", "5"),
            ("end_time", "2022-10-30T00:00:00.000Z"),
            ("pagination_token", "tok"),
        ]
    );
    let mut plain = config(None, None);
    plain.max_results = None;
    plain.end_time = None;
    let q = page_query(&plain, &None);
    let pairs: Vec<(&str, &str)> = q.iter().map(|(k, v)| (k.as_str(), v.as_str())).collect();
    assert_eq!(pairs, vec![("tweet.fields", "created_at"), ("max_results", "100")]);
}
