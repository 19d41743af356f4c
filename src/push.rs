use vstd::prelude::*;
use vstd::string::*;
use crate::record::Tweet;
use crate::state::{lookup, StateTracker};
use crate::store::{in_scan, strictly_ascending, without_range, Direction, RecordStore, StoreError};

verus! {

/// What became of one attempt to hand a record downstream.
#[derive(PartialEq, Eq, Structural, Debug, Clone, Copy)]
pub enum SendResult {
    /// Downstream acknowledged the message.
    Delivered,
    /// Downstream refused it, or it could not be sent.
    Rejected,
    /// A shutdown was requested before the record was sent.
    Shutdown,
}

/// How a drain ended.
#[derive(PartialEq, Eq, Structural, Debug, Clone, Copy)]
pub enum DrainOutcome {
    /// Every record was delivered and the delivered range was deleted.
    Compacted,
    /// Delivery stopped at this key, where the next drain resumes.
    PartialFailure(u64),
}

/// `plan` lists, in ascending order, exactly the keys of `part` at or after
/// `cursor` (all keys when there is none).
pub open spec fn is_plan(plan: Seq<u64>, part: Map<u64, Tweet>, cursor: Option<u64>) -> bool {
    &&& strictly_ascending(plan)
    &&& forall|k: u64| #[trigger]
        plan.contains(k) <==> (part.contains_key(k) && in_scan(k, cursor, Direction::Forward))
}

/// `known` lists, in ascending order, exactly the keys of `part`.
pub open spec fn lists_keys(known: Seq<u64>, part: Map<u64, Tweet>) -> bool {
    is_plan(known, part, None)
}

/// `part` without the keys in `known`.
pub open spec fn compacted(part: Map<u64, Tweet>, known: Seq<u64>) -> Map<u64, Tweet> {
    Map::new(|k: u64| part.contains_key(k) && !known.contains(k), |k: u64| part[k])
}

/// One run of delivery for one identity: the keys to deliver, in order, and
/// how far delivery got.
pub struct DrainSession {
    identity: String,
    plan: Vec<u64>,
    pos: usize,
    known: Vec<u64>,
    stopped: bool,
}

impl DrainSession {
    pub closed spec fn identity_view(&self) -> Seq<char> {
        self.identity@
    }

    /// The keys this run delivers, in delivery order.
    pub closed spec fn plan(&self) -> Seq<u64> {
        self.plan@
    }

    /// How many keys of the plan have been delivered.
    pub closed spec fn pos(&self) -> nat {
        self.pos as nat
    }

    /// The keys of the partition when the run began: those delivered by
    /// earlier runs (below the cursor) and those this run delivers.
    pub closed spec fn known(&self) -> Seq<u64> {
        self.known@
    }

    /// Whether delivery was stopped by a rejection or a shutdown.
    pub closed spec fn stopped(&self) -> bool {
        self.stopped
    }

    pub closed spec fn wf(&self) -> bool {
        &&& self.pos <= self.plan@.len()
        &&& self.stopped ==> self.pos < self.plan@.len()
        &&& strictly_ascending(self.plan@)
    }

    /// A session never reports more progress than its plan holds, and a
    /// stopped one stopped at a planned key.
    pub proof fn lemma_progress_bounds(&self)
        requires
            self.wf(),
        ensures
            self.pos() <= self.plan().len(),
            self.stopped() ==> self.pos() < self.plan().len(),
            strictly_ascending(self.plan()),
    {
    }

    /// Starts delivery for `identity` at its delivery cursor, or at the first
    /// key of its partition when it has none.
    pub fn begin(store: &RecordStore, tracker: &StateTracker, identity: &str) -> (r: Result<DrainSession, StoreError>)
        requires
            store.wf(),
            tracker.wf(),
        ensures
            r is Err <==> !store@.contains_key(identity@),
            r is Err ==> r == Err::<DrainSession, StoreError>(StoreError::NoSuchPartition),
            r matches Ok(s) ==> {
                &&& s.wf()
                &&& s.identity_view() == identity@
                &&& is_plan(s.plan(), store@[identity@], lookup(tracker.delivery_view(), identity@))
                &&& lists_keys(s.known(), store@[identity@])
                &&& s.pos() == 0
                &&& !s.stopped()
            },
    {
        match store.partition(identity) {
            None => Err(StoreError::NoSuchPartition),
            Some(p) => {
                let cursor = tracker.get_delivery_cursor(identity);
                let plan = p.scan(cursor, Direction::Forward);
                let known = p.scan(None, Direction::Forward);
                let s = DrainSession {
                    identity: String::from_str(identity),
                    plan,
                    pos: 0,
                    known,
                    stopped: false,
                };
                Ok(s)
            },
        }
    }

    /// The keys of the partition when the run began: a completed run deletes
    /// exactly these.
    pub fn known_keys(&self) -> (r: &Vec<u64>)
        ensures
            r@ == self.known(),
    {
        &self.known
    }

    /// The key of the record to send next, or `None` when this run has
    /// nothing more to send.
    pub fn next_key(&self) -> (r: Option<u64>)
        requires
            self.wf(),
        ensures
            r == (if !self.stopped() && self.pos() < self.plan().len() {
                Some(self.plan()[self.pos() as int])
            } else {
                None::<u64>
            }),
    {
        if !self.stopped && self.pos < self.plan.len() {
            Some(self.plan[self.pos])
        } else {
            None
        }
    }

    /// Takes note of what became of the record that `next_key` named.
    pub fn record(&mut self, result: SendResult)
        requires
            old(self).wf(),
            !old(self).stopped(),
            old(self).pos() < old(self).plan().len(),
        ensures
            final(self).wf(),
            final(self).identity_view() == old(self).identity_view(),
            final(self).plan() == old(self).plan(),
            final(self).known() == old(self).known(),
            final(self).pos() <= final(self).plan().len(),
            result is Delivered ==> final(self).pos() == old(self).pos() + 1 && !final(self).stopped(),
            !(result is Delivered) ==> final(self).pos() == old(self).pos() && final(self).stopped(),
    {
        match result {
            SendResult::Delivered => {
                if self.pos < self.plan.len() {
                    self.pos = self.pos + 1;
                }
            },
            _ => {
                self.stopped = true;
            },
        }
    }

    /// Ends the run, whichever way it went. Where a record is left
    /// undelivered, the delivery cursor points at it and nothing is deleted.
    /// Otherwise exactly the keys the partition held when the run began are
    /// deleted (all of them are delivered by now), the delivery cursor is
    /// cleared, and an emptied partition is dropped. Records stored after the
    /// run began are never deleted.
    pub fn finish(self, store: &mut RecordStore, tracker: &mut StateTracker) -> (r: Result<DrainOutcome, StoreError>)
        requires
            self.wf(),
            old(store).wf(),
            old(tracker).wf(),
        ensures
            final(store).wf(),
            final(tracker).wf(),
            final(tracker).fetch_view() == old(tracker).fetch_view(),
            self.pos() < self.plan().len() ==> {
                &&& r == Ok::<DrainOutcome, StoreError>(DrainOutcome::PartialFailure(self.plan()[self.pos() as int]))
                &&& final(store)@ == old(store)@
                &&& final(tracker).delivery_view() == old(tracker).delivery_view().insert(
                    self.identity_view(),
                    self.plan()[self.pos() as int],
                )
            },
            self.pos() == self.plan().len() ==> {
                &&& final(tracker).delivery_view() == old(tracker).delivery_view().remove(self.identity_view())
                &&& !old(store)@.contains_key(self.identity_view()) ==> {
                    &&& r == Err::<DrainOutcome, StoreError>(StoreError::NoSuchPartition)
                    &&& final(store)@ == old(store)@
                }
                &&& old(store)@.contains_key(self.identity_view()) ==> {
                    let rest = compacted(old(store)@[self.identity_view()], self.known());
                    &&& r == Ok::<DrainOutcome, StoreError>(DrainOutcome::Compacted)
                    &&& rest.dom() == Set::<u64>::empty() ==> final(store)@ == old(store)@.remove(self.identity_view())
                    &&& rest.dom() != Set::<u64>::empty() ==> final(store)@ == old(store)@.insert(self.identity_view(), rest)
                    &&& forall|k: u64| #[trigger] old(store)@[self.identity_view()].contains_key(k)
                        && !self.known().contains(k) ==> {
                        &&& final(store)@.contains_key(self.identity_view())
                        &&& final(store)@[self.identity_view()].contains_key(k)
                        &&& final(store)@[self.identity_view()][k] == old(store)@[self.identity_view()][k]
                    }
                }
            },
    {
        let id = self.identity.as_str();
        if self.pos < self.plan.len() {
            let k = self.plan[self.pos];
            tracker.set_delivery_cursor(id, k);
            return Ok(DrainOutcome::PartialFailure(k));
        }
        tracker.clear_delivery_cursor(id);
        if store.partition(id).is_none() {
            return Err(StoreError::NoSuchPartition);
        }
        let ghost part = old(store)@[id@];
        let n = self.known.len();
        let mut i: usize = 0;
        proof {
            assert(compacted(part, self.known@.take(0)) =~= part);
            assert(old(store)@.insert(id@, part) =~= old(store)@);
        }
        while i < n
            invariant
                n == self.known@.len(),
                i <= n,
                store.wf(),
                store@ == old(store)@.insert(id@, compacted(part, self.known@.take(i as int))),
            decreases n - i,
        {
            let _ = store.remove(id, self.known[i]);
            proof {
                let before = compacted(part, self.known@.take(i as int));
                let after = compacted(part, self.known@.take(i + 1));
                assert forall|k: u64| #[trigger] self.known@.take(i + 1).contains(k) == (self.known@.take(i as int).contains(k) || k == self.known@[i as int]) by {
                    if self.known@.take(i + 1).contains(k) {
                        let x = choose|x: int| 0 <= x < i + 1 && #[trigger] self.known@.take(i + 1)[x] == k;
                        if x < i {
                            assert(self.known@.take(i as int)[x] == k);
                        }
                    }
                    if self.known@.take(i as int).contains(k) {
                        let x = choose|x: int| 0 <= x < i && #[trigger] self.known@.take(i as int)[x] == k;
                        assert(self.known@.take(i + 1)[x] == k);
                    }
                    if k == self.known@[i as int] {
                        assert(self.known@.take(i + 1)[i as int] == k);
                    }
                }
                assert(after =~= before.remove(self.known@[i as int]));
            }
            i = i + 1;
        }
        proof {
            assert(self.known@.take(n as int) =~= self.known@);
        }
        let emptied = match store.partition(id) {
            Some(p) => p.is_empty(),
            None => false,
        };
        proof {
            let rest = compacted(part, self.known@);
            if rest.dom() == Set::<u64>::empty() {
                assert(rest =~= Map::<u64, Tweet>::empty());
            }
            if emptied {
                assert(rest.dom() =~= Set::<u64>::empty());
            }
            assert forall|k: u64| #[trigger] part.contains_key(k) && !self.known@.contains(k) implies rest.contains_key(k) && rest.dom() != Set::<u64>::empty() by {
                assert(rest.dom().contains(k));
            }
        }
        if emptied {
            let _ = store.drop_partition(id);
            proof {
                assert(store@ =~= old(store)@.remove(id@));
            }
        }
        Ok(DrainOutcome::Compacted)
    }
}

} // verus!
