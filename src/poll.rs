use vstd::prelude::*;
use vstd::string::*;
use crate::config::PollConfig;
use crate::record::{decimal_value, is_decimal, parse_record_id, record_key, u64_text, Tweet};
use crate::state::{advanced_marker, lookup, FetchCursor, StateTracker};
use crate::store::RecordStore;
use crate::time::{millis_to_rfc3339, rfc3339_millis, rfc3339_text, timestamp_from_str};
use crate::timeline::{PageResponse, PaginationToken, Timeline};

verus! {

/// Why ingesting a page failed. Nothing is changed when it does.
#[derive(PartialEq, Eq, Structural, Debug, Clone, Copy)]
pub enum PollError {
    /// The identity's partition does not exist.
    NoSuchPartition,
    /// A record id is not a decimal `u64`, or the creation time that would
    /// become the fetch cursor is not RFC 3339.
    MalformedRecord,
    /// Upstream answered with a failure other than a rate limit.
    UpstreamFailed,
}

/// Page size asked for when the configuration names none.
pub const DEFAULT_MAX_RESULTS: u8 = 100;

/// The insertion key of a record whose id is well formed.
pub open spec fn key_of(t: Tweet) -> u64 {
    match record_key(t.id@) {
        Some(k) => k,
        None => 0,
    }
}

/// Every record id is a decimal `u64`.
pub open spec fn all_keyed(recs: Seq<Tweet>) -> bool {
    forall|i: int| 0 <= i < recs.len() ==> (#[trigger] record_key(recs[i].id@)) is Some
}

/// `part` after storing `recs` one after another, each under its key.
pub open spec fn ingested(part: Map<u64, Tweet>, recs: Seq<Tweet>) -> Map<u64, Tweet>
    decreases recs.len(),
{
    if recs.len() == 0 {
        part
    } else {
        ingested(part, recs.drop_last()).insert(key_of(recs.last()), recs.last())
    }
}

/// Does ingesting `recs` as page `first_page` fail, and how?
pub open spec fn ingest_error(
    store: Map<Seq<char>, Map<u64, Tweet>>,
    identity: Seq<char>,
    recs: Seq<Tweet>,
    first_page: bool,
) -> Option<PollError> {
    if !store.contains_key(identity) {
        Some(PollError::NoSuchPartition)
    } else if !all_keyed(recs) || (first_page && recs.len() > 0 && rfc3339_millis(
        recs[0].created_at@,
    ) is None) {
        Some(PollError::MalformedRecord)
    } else {
        None
    }
}

/// Stores one page of records of `identity`. On the first page of a poll the
/// creation time of its first (newest) record advances the fetch cursor
/// before any record is stored.
pub fn ingest_page(
    store: &mut RecordStore,
    tracker: &mut StateTracker,
    identity: &str,
    records: &Vec<Tweet>,
    first_page: bool,
) -> (r: Result<(), PollError>)
    requires
        old(store).wf(),
        old(tracker).wf(),
    ensures
        final(store).wf(),
        final(tracker).wf(),
        final(tracker).delivery_view() == old(tracker).delivery_view(),
        ingest_error(old(store)@, identity@, records@, first_page) matches Some(e) ==> {
            &&& r == Err::<(), PollError>(e)
            &&& final(store)@ == old(store)@
            &&& final(tracker).fetch_view() == old(tracker).fetch_view()
        },
        ingest_error(old(store)@, identity@, records@, first_page) is None ==> {
            &&& r is Ok
            &&& final(store)@ == old(store)@.insert(identity@, ingested(old(store)@[identity@], records@))
            &&& first_page && records@.len() > 0 ==> final(tracker).fetch_view() == old(tracker).fetch_view().insert(
                identity@,
                FetchCursor::SinceMarker(advanced_marker(
                    lookup(old(tracker).fetch_view(), identity@),
                    rfc3339_millis(records@[0].created_at@)->0,
                )),
            )
            &&& !(first_page && records@.len() > 0) ==> final(tracker).fetch_view() == old(tracker).fetch_view()
        },
{
    if store.partition(identity).is_none() {
        return Err(PollError::NoSuchPartition);
    }
    let n = records.len();
    let mut keys: Vec<u64> = Vec::new();
    let mut i: usize = 0;
    while i < n
        invariant
            n == records@.len(),
            i <= n,
            keys@.len() == i,
            forall|j: int| 0 <= j < i ==> record_key(#[trigger] records@[j].id@) == Some(keys@[j]),
            store.wf(),
            tracker.wf(),
            *store == *old(store),
            *tracker == *old(tracker),
            store@.contains_key(identity@),
        decreases n - i,
    {
        match parse_record_id(records[i].id.as_str()) {
            Some(k) => keys.push(k),
            None => return Err(PollError::MalformedRecord),
        }
        i = i + 1;
    }
    assert(all_keyed(records@)) by {
        assert forall|j: int| 0 <= j < records@.len() implies (#[trigger] record_key(records@[j].id@)) is Some by {
            assert(record_key(records@[j].id@) == Some(keys@[j]));
        }
    }
    if first_page && n > 0 {
        match timestamp_from_str(records[0].created_at.as_str()) {
            Ok(ms) => tracker.advance_fetch_marker(identity, ms),
            Err(_) => return Err(PollError::MalformedRecord),
        }
    }
    let ghost part = store@[identity@];
    let mut i: usize = 0;
    while i < n
        invariant
            n == records@.len(),
            keys@.len() == n,
            i <= n,
            forall|j: int| 0 <= j < n ==> record_key(#[trigger] records@[j].id@) == Some(keys@[j]),
            store.wf(),
            store@ == old(store)@.insert(identity@, ingested(part, records@.take(i as int))),
        decreases n - i,
    {
        let t = records[i].duplicate();
        let _ = store.put(identity, keys[i], t);
        proof {
            let s = records@.take(i + 1);
            assert(s.drop_last() =~= records@.take(i as int));
            assert(key_of(records@[i as int]) == keys@[i as int]);
        }
        i = i + 1;
    }
    proof {
        assert(records@.take(n as int) =~= records@);
    }
    Ok(())
}

/// Where polling resumes: a stored continuation token first, then the
/// configured `since_id`, then one second after the stored since marker,
/// then the configured start time.
pub fn resume_token(cfg: &PollConfig, cursor: Option<&FetchCursor>) -> (r: Option<PaginationToken>)
    ensures
        cursor matches Some(FetchCursor::NextToken(t)) ==> r == Some(PaginationToken::NextToken(*t)),
        !(cursor matches Some(FetchCursor::NextToken(_))) ==> {
            match cfg.since_id {
                Some(id) => r == Some(PaginationToken::TweetID(id)),
                None => {
                    let marked = match cursor {
                        Some(FetchCursor::SinceMarker(ms)) => *ms <= i64::MAX - 1000 && rfc3339_text((*ms + 1000) as i64) is Some,
                        _ => false,
                    };
                    if marked {
                        r matches Some(PaginationToken::StartTime(s)) && Some(s@) == rfc3339_text((cursor->0->SinceMarker_0 + 1000) as i64)
                    } else {
                        match cfg.start_time {
                            Some(s) => r == Some(PaginationToken::StartTime(s)),
                            None => r is None,
                        }
                    }
                },
            }
        },
{
    if let Some(FetchCursor::NextToken(t)) = cursor {
        return Some(PaginationToken::NextToken(t.clone()));
    }
    if let Some(id) = &cfg.since_id {
        return Some(PaginationToken::TweetID(id.clone()));
    }
    if let Some(FetchCursor::SinceMarker(ms)) = cursor {
        if *ms <= i64::MAX - 1000 {
            if let Some(s) = millis_to_rfc3339(*ms + 1000) {
                return Some(PaginationToken::StartTime(s));
            }
        }
    }
    match &cfg.start_time {
        Some(s) => Some(PaginationToken::StartTime(s.clone())),
        None => None,
    }
}

/// The query parameter that carries a continuation: its name and value.
pub open spec fn token_param(t: PaginationToken) -> (Seq<char>, String) {
    match t {
        PaginationToken::NextToken(v) => ("pagination_token"@, v),
        PaginationToken::TweetID(v) => ("since_id"@, v),
        PaginationToken::StartTime(v) => ("start_time"@, v),
    }
}

/// The page size that a configuration asks for.
pub open spec fn page_size(cfg: PollConfig) -> u8 {
    match cfg.max_results {
        Some(m) => m,
        None => DEFAULT_MAX_RESULTS,
    }
}

/// The query parameters of one page request, in order: the fields asked for,
/// the page size, the configured end time if any, and the continuation if
/// any. At most one continuation mechanism is ever sent.
pub fn page_query(cfg: &PollConfig, token: &Option<PaginationToken>) -> (r: Vec<(String, String)>)
    ensures
        r@.len() == 2 + (if cfg.end_time is Some { 1int } else { 0 }) + (if token is Some { 1int } else { 0 }),
        r@[0].0@ == "tweet.fields"@,
        r@[0].1@ == "created_at"@,
        r@[1].0@ == "max_results"@,
        is_decimal(r@[1].1@),
        decimal_value(r@[1].1@) == page_size(*cfg),
        cfg.end_time matches Some(e) ==> r@[2].0@ == "end_time"@ && r@[2].1 == e,
        token matches Some(t) ==> r@.last().0@ == token_param(*t).0 && r@.last().1 == token_param(*t).1,
{
    let mut r: Vec<(String, String)> = Vec::new();
    r.push((String::from_str("tweet.fields"), String::from_str("created_at")));
    let size = match cfg.max_results {
        Some(m) => m,
        None => DEFAULT_MAX_RESULTS,
    };
    r.push((String::from_str("max_results"), u64_text(size as u64)));
    if let Some(e) = &cfg.end_time {
        r.push((String::from_str("end_time"), e.clone()));
    }
    match token {
        Some(PaginationToken::NextToken(v)) => r.push((String::from_str("pagination_token"), v.clone())),
        Some(PaginationToken::TweetID(v)) => r.push((String::from_str("since_id"), v.clone())),
        Some(PaginationToken::StartTime(v)) => r.push((String::from_str("start_time"), v.clone())),
        None => {},
    }
    r
}

/// The records that an answer carries.
pub open spec fn page_records(resp: PageResponse) -> Seq<Tweet> {
    match resp {
        PageResponse::Page(p) => p.records@,
        _ => Seq::empty(),
    }
}

/// The continuation that an answer names for the following page.
pub open spec fn page_next(resp: PageResponse) -> Option<PaginationToken> {
    match resp {
        PageResponse::Page(p) => match p.next_token {
            Some(t) => Some(PaginationToken::NextToken(t)),
            None => None,
        },
        _ => None,
    }
}

/// One poll of one identity: page requests go out until upstream has no more
/// pages, answers with a rate limit or a failure, or a page cannot be
/// ingested.
pub struct PollSession {
    identity: String,
    timeline: Timeline,
    first_page: bool,
    failed: bool,
}

impl PollSession {
    pub closed spec fn identity_view(&self) -> Seq<char> {
        self.identity@
    }

    /// Whether no page with records has been ingested yet.
    pub closed spec fn first_page(&self) -> bool {
        self.first_page
    }

    /// Whether the poll has ended.
    pub closed spec fn finished(&self) -> bool {
        self.failed || self.timeline.done()
    }

    /// The continuation of the next request.
    pub closed spec fn pending(&self) -> Option<PaginationToken> {
        self.timeline.next_view()
    }

    /// Starts polling `identity` from `resume`, creating its partition if it
    /// does not exist yet.
    pub fn begin(store: &mut RecordStore, identity: &str, resume: Option<PaginationToken>) -> (r: PollSession)
        requires
            old(store).wf(),
        ensures
            final(store).wf(),
            final(store)@ == (if old(store)@.contains_key(identity@) {
                old(store)@
            } else {
                old(store)@.insert(identity@, Map::<u64, Tweet>::empty())
            }),
            r.identity_view() == identity@,
            r.first_page(),
            !r.finished(),
            r.pending() == resume,
    {
        store.create_partition(identity);
        PollSession {
            identity: String::from_str(identity),
            timeline: Timeline::new(resume),
            first_page: true,
            failed: false,
        }
    }

    /// The continuation of the next page request, or `None` when the poll has
    /// ended. Its answer goes to `on_response`.
    pub fn next_request(&mut self) -> (r: Option<Option<PaginationToken>>)
        ensures
            final(self).identity_view() == old(self).identity_view(),
            final(self).first_page() == old(self).first_page(),
            old(self).finished() ==> r is None && final(self).finished(),
            !old(self).finished() ==> r == Some(old(self).pending()) && !final(self).finished()
                && final(self).pending() is None,
    {
        if self.failed {
            None
        } else {
            self.timeline.next_request()
        }
    }

    /// Ends the poll between pages, as on a shutdown request: no further
    /// request goes out, and what was stored stays.
    pub fn stop(&mut self)
        ensures
            final(self).finished(),
            final(self).identity_view() == old(self).identity_view(),
    {
        self.failed = true;
    }

    /// Ingests upstream's answer to the request in flight, and returns how
    /// many records it stored. A rate limit or an empty page ends the poll
    /// quietly; a failed request ends it with an error. Pages ingested before
    /// stay stored either way.
    pub fn on_response(
        &mut self,
        store: &mut RecordStore,
        tracker: &mut StateTracker,
        resp: PageResponse,
    ) -> (r: Result<usize, PollError>)
        requires
            !old(self).finished(),
            old(self).pending() is None,
            old(store).wf(),
            old(tracker).wf(),
        ensures
            final(store).wf(),
            final(tracker).wf(),
            final(tracker).delivery_view() == old(tracker).delivery_view(),
            final(self).identity_view() == old(self).identity_view(),
            page_records(resp).len() == 0 ==> {
                &&& resp is Failed ==> r == Err::<usize, PollError>(PollError::UpstreamFailed)
                &&& !(resp is Failed) ==> r == Ok::<usize, PollError>(0)
                &&& final(self).finished()
                &&& final(store)@ == old(store)@
                &&& final(tracker).fetch_view() == old(tracker).fetch_view()
            },
            page_records(resp).len() > 0 ==> match ingest_error(old(store)@, old(self).identity_view(), page_records(resp), old(self).first_page()) {
                Some(e) => {
                    &&& r == Err::<usize, PollError>(e)
                    &&& final(self).finished()
                    &&& final(store)@ == old(store)@
                    &&& final(tracker).fetch_view() == old(tracker).fetch_view()
                },
                None => {
                    &&& r == Ok::<usize, PollError>(page_records(resp).len() as usize)
                    &&& !final(self).first_page()
                    &&& final(self).pending() == page_next(resp)
                    &&& final(self).finished() == (page_next(resp) is None)
                    &&& final(store)@ == old(store)@.insert(
                        old(self).identity_view(),
                        ingested(old(store)@[old(self).identity_view()], page_records(resp)),
                    )
                    &&& old(self).first_page() ==> final(tracker).fetch_view() == old(tracker).fetch_view().insert(
                        old(self).identity_view(),
                        FetchCursor::SinceMarker(advanced_marker(
                            lookup(old(tracker).fetch_view(), old(self).identity_view()),
                            rfc3339_millis(page_records(resp)[0].created_at@)->0,
                        )),
                    )
                    &&& !old(self).first_page() ==> final(tracker).fetch_view() == old(tracker).fetch_view()
                },
            },
    {
        let upstream_failed = match resp {
            PageResponse::Failed => true,
            _ => false,
        };
        let recs = self.timeline.accept(resp);
        if recs.len() == 0 {
            self.failed = true;
            if upstream_failed {
                return Err(PollError::UpstreamFailed);
            }
            return Ok(0);
        }
        match ingest_page(store, tracker, self.identity.as_str(), &recs, self.first_page) {
            Ok(()) => {
                self.first_page = false;
                Ok(recs.len())
            },
            Err(e) => {
                self.failed = true;
                Err(e)
            },
        }
    }
}

/// The path, below the API base, of the timeline of the account `user_id`.
pub fn timeline_path(user_id: &str) -> (r: String)
    ensures
        r@ == "users/"@ + user_id@ + "/tweets"@,
{
    String::from_str("users/").concat(user_id).concat("/tweets")
}

} // verus!
