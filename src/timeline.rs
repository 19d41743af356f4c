use vstd::prelude::*;
use crate::record::Tweet;

verus! {

/// The one continuation mechanism that a page request carries.
pub enum PaginationToken {
    /// Resume exactly where the previous page ended (`pagination_token`).
    NextToken(String),
    /// Only records newer than this record id (`since_id`).
    TweetID(String),
    /// Only records created at or after this RFC 3339 time (`start_time`).
    StartTime(String),
}

/// One page of an upstream timeline: records newest first, and the token of
/// the following page when there is one.
pub struct Page {
    pub records: Vec<Tweet>,
    pub next_token: Option<String>,
}

/// What upstream answered to a page request.
pub enum PageResponse {
    /// A page was read.
    Page(Page),
    /// Upstream asked for a cooldown.
    RateLimited,
    /// Any other failure: a non-success status, an unreadable body, or a
    /// failed transport.
    Failed,
}

/// Traversal of a paginated timeline for one identity.
pub struct Timeline {
    next: Option<PaginationToken>,
    pages: u64,
    done: bool,
}

impl Timeline {
    /// The continuation of the next request.
    pub closed spec fn next_view(&self) -> Option<PaginationToken> {
        self.next
    }

    /// Pages read so far.
    pub closed spec fn pages(&self) -> nat {
        self.pages as nat
    }

    /// Whether traversal has ended.
    pub closed spec fn done(&self) -> bool {
        self.done
    }

    /// A traversal whose first request resumes from `resume`, or starts from
    /// upstream's default when it is `None`.
    pub fn new(resume: Option<PaginationToken>) -> (r: Timeline)
        ensures
            r.next_view() == resume,
            r.pages() == 0,
            !r.done(),
    {
        Timeline { next: resume, pages: 0, done: false }
    }

    /// The continuation to send with the next page request, or `None` when
    /// traversal has ended. The request is then in flight: its answer goes to
    /// `accept`.
    pub fn next_request(&mut self) -> (r: Option<Option<PaginationToken>>)
        ensures
            old(self).done() ==> r is None && *final(self) == *old(self),
            !old(self).done() ==> r == Some(old(self).next_view()) && final(self).next_view() is None
                && final(self).pages() == old(self).pages() && !final(self).done(),
    {
        if self.done {
            None
        } else {
            Some(self.next.take())
        }
    }

    /// Takes upstream's answer to the request in flight and hands back the
    /// records to ingest, newest first. A page with records continues the
    /// traversal when it names a next page; an empty page, a rate limit or a
    /// failure ends it without records.
    pub fn accept(&mut self, response: PageResponse) -> (r: Vec<Tweet>)
        requires
            !old(self).done(),
            old(self).next_view() is None,
        ensures
            match response {
                PageResponse::Page(page) => if page.records@.len() > 0 {
                    &&& r@ == page.records@
                    &&& final(self).pages() == old(self).pages() + 1 || old(self).pages() == u64::MAX
                    &&& final(self).done() == (page.next_token is None)
                    &&& final(self).next_view() == match page.next_token {
                        Some(t) => Some(PaginationToken::NextToken(t)),
                        None => None::<PaginationToken>,
                    }
                } else {
                    r@.len() == 0 && final(self).done()
                },
                _ => r@.len() == 0 && final(self).done(),
            },
    {
        match response {
            PageResponse::Page(page) => {
                if page.records.len() == 0 {
                    self.done = true;
                    Vec::new()
                } else {
                    if self.pages < u64::MAX {
                        self.pages = self.pages + 1;
                    }
                    match page.next_token {
                        Some(t) => {
                            self.next = Some(PaginationToken::NextToken(t));
                        },
                        None => {
                            self.done = true;
                        },
                    }
                    page.records
                }
            },
            _ => {
                self.done = true;
                Vec::new()
            },
        }
    }
}

} // verus!
