use vstd::prelude::*;
use crate::slots::Slots;

verus! {

/// Where upstream pagination resumes for an identity.
pub enum FetchCursor {
    /// An opaque continuation token handed out by upstream.
    NextToken(String),
    /// The creation time, in milliseconds since the Unix epoch, of the newest
    /// record known to have been ingested.
    SinceMarker(i64),
}

/// The value held under `k`, if any.
pub open spec fn lookup<V>(m: Map<Seq<char>, V>, k: Seq<char>) -> Option<V> {
    if m.contains_key(k) {
        Some(m[k])
    } else {
        None
    }
}

/// The since marker of a cursor, if it is one.
pub open spec fn marker_of(c: Option<FetchCursor>) -> Option<i64> {
    match c {
        Some(FetchCursor::SinceMarker(ms)) => Some(ms),
        _ => None,
    }
}

/// The marker after seeing a record created at `ms`: it never moves back.
pub open spec fn advanced_marker(prev: Option<FetchCursor>, ms: i64) -> i64 {
    match marker_of(prev) {
        Some(p) => if p > ms {
            p
        } else {
            ms
        },
        None => ms,
    }
}

/// Per-identity cursors: where fetching resumes, and which record is
/// delivered next.
pub struct StateTracker {
    fetch: Slots<FetchCursor>,
    delivery: Slots<u64>,
}

impl StateTracker {
    /// Fetch cursors by identity name.
    pub closed spec fn fetch_view(&self) -> Map<Seq<char>, FetchCursor> {
        self.fetch@
    }

    /// Delivery cursors (the key of the next record to deliver) by identity
    /// name.
    pub closed spec fn delivery_view(&self) -> Map<Seq<char>, u64> {
        self.delivery@
    }

    pub closed spec fn wf(&self) -> bool {
        self.fetch.wf() && self.delivery.wf()
    }

    /// No cursors.
    pub fn new() -> (r: StateTracker)
        ensures
            r.wf(),
            r.fetch_view() == Map::<Seq<char>, FetchCursor>::empty(),
            r.delivery_view() == Map::<Seq<char>, u64>::empty(),
    {
        StateTracker { fetch: Slots::new(), delivery: Slots::new() }
    }

    /// The fetch cursor of `identity`, if any.
    pub fn get_fetch_cursor(&self, identity: &str) -> (r: Option<&FetchCursor>)
        requires
            self.wf(),
        ensures
            r == (if self.fetch_view().contains_key(identity@) {
                Some(&self.fetch_view()[identity@])
            } else {
                None::<&FetchCursor>
            }),
    {
        self.fetch.get(identity)
    }

    /// Replaces the fetch cursor of `identity`.
    pub fn set_fetch_cursor(&mut self, identity: &str, cursor: FetchCursor)
        requires
            old(self).wf(),
        ensures
            final(self).wf(),
            final(self).fetch_view() == old(self).fetch_view().insert(identity@, cursor),
            final(self).delivery_view() == old(self).delivery_view(),
    {
        self.fetch.set(identity, cursor);
    }

    /// Records that a record created at `ms` was seen: the since marker of
    /// `identity` becomes the later of its old value and `ms`.
    pub fn advance_fetch_marker(&mut self, identity: &str, ms: i64)
        requires
            old(self).wf(),
        ensures
            final(self).wf(),
            final(self).fetch_view() == old(self).fetch_view().insert(
                identity@,
                FetchCursor::SinceMarker(
                    advanced_marker(lookup(old(self).fetch_view(), identity@), ms),
                ),
            ),
            final(self).delivery_view() == old(self).delivery_view(),
    {
        let next = match self.fetch.get(identity) {
            Some(FetchCursor::SinceMarker(p)) => if *p > ms {
                *p
            } else {
                ms
            },
            _ => ms,
        };
        self.fetch.set(identity, FetchCursor::SinceMarker(next));
    }

    /// The delivery cursor of `identity`, if any.
    pub fn get_delivery_cursor(&self, identity: &str) -> (r: Option<u64>)
        requires
            self.wf(),
        ensures
            r == lookup(self.delivery_view(), identity@),
    {
        match self.delivery.get(identity) {
            Some(k) => Some(*k),
            None => None,
        }
    }

    /// Points the delivery cursor of `identity` at `key`.
    pub fn set_delivery_cursor(&mut self, identity: &str, key: u64)
        requires
            old(self).wf(),
        ensures
            final(self).wf(),
            final(self).delivery_view() == old(self).delivery_view().insert(identity@, key),
            final(self).fetch_view() == old(self).fetch_view(),
    {
        self.delivery.set(identity, key);
    }

    /// Removes the delivery cursor of `identity`.
    pub fn clear_delivery_cursor(&mut self, identity: &str)
        requires
            old(self).wf(),
        ensures
            final(self).wf(),
            final(self).delivery_view() == old(self).delivery_view().remove(identity@),
            final(self).fetch_view() == old(self).fetch_view(),
    {
        self.delivery.clear(identity);
    }
}

} // verus!
