use vstd::prelude::*;
use crate::record::Tweet;
use vstd::string::*;

verus! {

/// Keys strictly increase along the sequence.
pub open spec fn strictly_ascending(s: Seq<u64>) -> bool {
    forall|i: int, j: int| 0 <= i < j < s.len() ==> s[i] < s[j]
}

/// Keys strictly decrease along the sequence.
pub open spec fn strictly_descending(s: Seq<u64>) -> bool {
    forall|i: int, j: int| 0 <= i < j < s.len() ==> s[i] > s[j]
}

/// Where a range scan starts, and which way it goes.
pub enum Direction {
    /// From the given key (inclusive) upwards, or from the first key.
    Forward,
    /// From the given key (inclusive) downwards, or from the last key.
    Backward,
}

/// Is `k` a key that a scan starting at `from` in direction `dir` visits?
pub open spec fn in_scan(k: u64, from: Option<u64>, dir: Direction) -> bool {
    match from {
        None => true,
        Some(f) => match dir {
            Direction::Forward => f <= k,
            Direction::Backward => k <= f,
        },
    }
}

/// The ordered records of one identity, keyed by insertion key.
pub struct Partition {
    entries: Vec<(u64, Tweet)>,
}

impl View for Partition {
    type V = Map<u64, Tweet>;

    closed spec fn view(&self) -> Map<u64, Tweet> {
        Map::new(
            |k: u64| exists|i: int| 0 <= i < self.entries@.len() && self.entries@[i].0 == k,
            |k: u64| self.entries@[self.index_of(k)].1,
        )
    }
}

impl Partition {
    spec fn index_of(&self, k: u64) -> int {
        choose|i: int| 0 <= i < self.entries@.len() && self.entries@[i].0 == k
    }

    spec fn key_seq(&self) -> Seq<u64> {
        self.entries@.map_values(|e: (u64, Tweet)| e.0)
    }

    /// Keys are unique and kept in ascending order.
    pub closed spec fn wf(&self) -> bool {
        strictly_ascending(self.key_seq())
    }

    proof fn lemma_view_at(&self, i: int)
        requires
            self.wf(),
            0 <= i < self.entries@.len(),
        ensures
            self@.contains_key(self.entries@[i].0),
            self@[self.entries@[i].0] == self.entries@[i].1,
            self.index_of(self.entries@[i].0) == i,
    {
        let k = self.entries@[i].0;
        assert(self.key_seq()[i] == k);
        let j = self.index_of(k);
        assert(self.key_seq()[j] == k);
    }

    /// An empty partition.
    pub fn new() -> (r: Partition)
        ensures
            r.wf(),
            r@ == Map::<u64, Tweet>::empty(),
    {
        let r = Partition { entries: Vec::new() };
        assert(r@ =~= Map::<u64, Tweet>::empty());
        r
    }

    /// The number of records held.
    pub fn len(&self) -> (r: usize)
        requires
            self.wf(),
        ensures
            r == self@.len(),
    {
        proof { self.lemma_len(); }
        self.entries.len()
    }

    /// Whether no record is held.
    pub fn is_empty(&self) -> (r: bool)
        requires
            self.wf(),
        ensures
            r == (self@ == Map::<u64, Tweet>::empty()),
    {
        proof {
            self.lemma_len();
            if self.entries@.len() > 0 {
                self.lemma_view_at(0);
            } else {
                assert(self@ =~= Map::<u64, Tweet>::empty());
            }
        }
        self.entries.len() == 0
    }

    proof fn lemma_len(&self)
        requires
            self.wf(),
        ensures
            self@.dom().finite(),
            self@.len() == self.entries@.len(),
        decreases self.entries@.len(),
    {
        let ks = self.key_seq();
        assert(ks.no_duplicates());
        assert(self@.dom() =~= ks.to_set()) by {
            assert forall|k: u64| self@.dom().contains(k) implies ks.to_set().contains(k) by {
                let i = self.index_of(k);
                assert(ks[i] == k);
            }
            assert forall|k: u64| ks.to_set().contains(k) implies self@.dom().contains(k) by {
                let i = choose|i: int| 0 <= i < ks.len() && ks[i] == k;
                assert(self.entries@[i].0 == k);
            }
        }
        ks.unique_seq_to_set();
    }

    /// Position of the first entry whose key is not below `key`.
    fn lower_bound(&self, key: u64) -> (r: usize)
        requires
            self.wf(),
        ensures
            r <= self.entries@.len(),
            forall|i: int| 0 <= i < r ==> self.entries@[i].0 < key,
            forall|i: int| r <= i < self.entries@.len() ==> self.entries@[i].0 >= key,
    {
        let mut i: usize = 0;
        while i < self.entries.len()
            invariant
                self.wf(),
                i <= self.entries@.len(),
                forall|j: int| 0 <= j < i ==> self.entries@[j].0 < key,
            decreases self.entries@.len() - i,
        {
            if self.entries[i].0 >= key {
                proof {
                    assert forall|j: int| i <= j < self.entries@.len() implies self.entries@[j].0
                        >= key by {
                        if j > i {
                            assert(self.key_seq()[i as int] < self.key_seq()[j]);
                        }
                    }
                }
                return i;
            }
            i = i + 1;
        }
        i
    }

    /// Position just past the last entry whose key is not above `key`.
    fn upper_bound(&self, key: u64) -> (r: usize)
        requires
            self.wf(),
        ensures
            r <= self.entries@.len(),
            forall|i: int| 0 <= i < r ==> self.entries@[i].0 <= key,
            forall|i: int| r <= i < self.entries@.len() ==> self.entries@[i].0 > key,
    {
        let lb = self.lower_bound(key);
        if lb < self.entries.len() && self.entries[lb].0 == key {
            proof {
                assert forall|i: int| lb + 1 <= i < self.entries@.len() implies self.entries@[i].0
                    > key by {
                    assert(self.key_seq()[lb as int] < self.key_seq()[i]);
                }
            }
            lb + 1
        } else {
            proof {
                assert forall|i: int| lb <= i < self.entries@.len() implies self.entries@[i].0
                    > key by {
                    if i > lb {
                        assert(self.key_seq()[lb as int] < self.key_seq()[i]);
                    }
                }
            }
            lb
        }
    }

    /// The record stored under `key`, if any.
    pub fn get(&self, key: u64) -> (r: Option<&Tweet>)
        requires
            self.wf(),
        ensures
            r == (if self@.contains_key(key) {
                Some(&self@[key])
            } else {
                None::<&Tweet>
            }),
    {
        let i = self.lower_bound(key);
        if i < self.entries.len() && self.entries[i].0 == key {
            proof { self.lemma_view_at(i as int); }
            Some(&self.entries[i].1)
        } else {
            proof {
                if self@.contains_key(key) {
                    let j = self.index_of(key);
                    if j > i {
                        assert(self.key_seq()[i as int] < self.key_seq()[j]);
                    }
                }
            }
            None
        }
    }

    /// Stores `value` under `key`, replacing a record already stored there.
    pub fn put(&mut self, key: u64, value: Tweet)
        requires
            old(self).wf(),
        ensures
            final(self).wf(),
            final(self)@ == old(self)@.insert(key, value),
    {
        let i = self.lower_bound(key);
        let ghost pre = self.entries@;
        if i < self.entries.len() && self.entries[i].0 == key {
            self.entries.set(i, (key, value));
            proof {
                assert(self.key_seq() =~= old(self).key_seq());
                self.lemma_view_at(i as int);
                assert forall|k: u64| #[trigger] self@.contains_key(k) == old(self)@.insert(key, value).contains_key(k) by {
                    if self@.contains_key(k) {
                        let j = self.index_of(k);
                        assert(self.key_seq()[j] == k);
                        if j != i {
                            old(self).lemma_view_at(j);
                        }
                    }
                    if old(self)@.contains_key(k) {
                        let j = old(self).index_of(k);
                        assert(old(self).key_seq()[j] == k);
                        assert(self.key_seq()[j] == k);
                    }
                }
                assert forall|k: u64| #[trigger] self@.contains_key(k) implies self@[k] == old(self)@.insert(key, value)[k] by {
                    let j = self.index_of(k);
                    assert(self.key_seq()[j] == k);
                    self.lemma_view_at(j);
                    if j != i {
                        old(self).lemma_view_at(j);
                    }
                }
                assert(self@ =~= old(self)@.insert(key, value));
            }
        } else {
            self.entries.insert(i, (key, value));
            proof {
                assert(self.entries@ == pre.insert(i as int, (key, value)));
                assert(i < pre.len() ==> pre[i as int].0 != key);
                assert forall|a: int, b: int| 0 <= a < b < self.entries@.len() implies self.key_seq()[a] < self.key_seq()[b] by {
                    let ka = self.entries@[a].0;
                    let kb = self.entries@[b].0;
                    if b < i {
                        assert(old(self).key_seq()[a] < old(self).key_seq()[b]);
                    } else if a > i {
                        assert(old(self).key_seq()[a - 1] < old(self).key_seq()[b - 1]);
                    } else if a < i && b > i {
                        assert(ka == pre[a].0);
                        assert(kb == pre[b - 1].0);
                        assert(pre[a].0 < key);
                        assert(pre[b - 1].0 >= key);
                        if b - 1 > i {
                            assert(old(self).key_seq()[i as int] < old(self).key_seq()[b - 1]);
                        }
                    } else if a == i {
                        assert(kb == pre[b - 1].0);
                        assert(pre[b - 1].0 >= key);
                        if b - 1 == i {
                            assert(pre[b - 1].0 != key);
                        } else {
                            assert(old(self).key_seq()[i as int] < old(self).key_seq()[b - 1]);
                        }
                    } else {
                        assert(b == i);
                        assert(pre[a].0 < key);
                    }
                }
                self.lemma_view_at(i as int);
                assert forall|k: u64| #[trigger] self@.contains_key(k) == old(self)@.insert(key, value).contains_key(k) by {
                    if self@.contains_key(k) {
                        let j = self.index_of(k);
                        assert(self.key_seq()[j] == k);
                        if j < i {
                            old(self).lemma_view_at(j);
                        } else if j > i {
                            old(self).lemma_view_at(j - 1);
                        }
                    }
                    if old(self)@.contains_key(k) {
                        let j = old(self).index_of(k);
                        assert(old(self).key_seq()[j] == k);
                        if j < i {
                            assert(self.entries@[j].0 == k);
                        } else {
                            assert(self.entries@[j + 1].0 == k);
                        }
                    }
                }
                assert forall|k: u64| #[trigger] self@.contains_key(k) implies self@[k] == old(self)@.insert(key, value)[k] by {
                    let j = self.index_of(k);
                    assert(self.key_seq()[j] == k);
                    self.lemma_view_at(j);
                    if j < i {
                        old(self).lemma_view_at(j);
                    } else if j > i {
                        old(self).lemma_view_at(j - 1);
                    }
                }
                assert(self@ =~= old(self)@.insert(key, value));
            }
        }
    }

    /// Dropping the entries in positions `lo..hi` keeps the other keys with
    /// their records.
    proof fn lemma_cut(pre: &Partition, post: &Partition, lo: int, hi: int)
        requires
            pre.wf(),
            0 <= lo <= hi <= pre.entries@.len(),
            post.entries@ == pre.entries@.subrange(0, lo) + pre.entries@.subrange(
                hi,
                pre.entries@.len() as int,
            ),
        ensures
            post.wf(),
            forall|k: u64| #[trigger]
                post@.contains_key(k) <==> (pre@.contains_key(k) && !(lo <= pre.index_of(k)
                    < hi)),
            forall|k: u64| #[trigger] post@.contains_key(k) ==> post@[k] == pre@[k],
    {
        let n = pre.entries@.len() as int;
        let d = hi - lo;
        assert forall|i: int| 0 <= i < post.entries@.len() implies #[trigger] post.entries@[i]
            == (if i < lo {
            pre.entries@[i]
        } else {
            pre.entries@[i + d]
        }) by {}
        assert forall|a: int, b: int| 0 <= a < b < post.entries@.len() implies post.key_seq()[a]
            < post.key_seq()[b] by {
            let a2 = if a < lo {
                a
            } else {
                a + d
            };
            let b2 = if b < lo {
                b
            } else {
                b + d
            };
            assert(pre.key_seq()[a2] < pre.key_seq()[b2]);
        }
        assert forall|k: u64| #[trigger]
            post@.contains_key(k) <==> (pre@.contains_key(k) && !(lo <= pre.index_of(k)
                < hi)) by {
            if post@.contains_key(k) {
                let i = post.index_of(k);
                let i2 = if i < lo {
                    i
                } else {
                    i + d
                };
                pre.lemma_view_at(i2);
            }
            if pre@.contains_key(k) && !(lo <= pre.index_of(k) < hi) {
                let j = pre.index_of(k);
                let j2 = if j < lo {
                    j
                } else {
                    j - d
                };
                assert(post.entries@[j2].0 == k);
            }
        }
        assert forall|k: u64| #[trigger] post@.contains_key(k) implies post@[k] == pre@[k] by {
            let i = post.index_of(k);
            post.lemma_view_at(i);
            let i2 = if i < lo {
                i
            } else {
                i + d
            };
            pre.lemma_view_at(i2);
        }
    }

    /// Deletes every record whose key lies in `from..to` (`from` inclusive,
    /// `to` exclusive).
    pub fn delete_range(&mut self, from: u64, to: u64)
        requires
            old(self).wf(),
        ensures
            final(self).wf(),
            final(self)@ == without_range(old(self)@, from, to),
    {
        if from >= to {
            proof {
                assert(self@ =~= without_range(old(self)@, from, to));
            }
            return;
        }
        let lo = self.lower_bound(from);
        let hi = self.lower_bound(to);
        assert(lo <= hi) by {
            if hi < lo {
                assert(self.entries@[hi as int].0 >= to);
            }
        }
        let ghost pre = *self;
        let mut tail = self.entries.split_off(hi);
        self.entries.truncate(lo);
        self.entries.append(&mut tail);
        proof {
            assert(self.entries@ =~= pre.entries@.subrange(0, lo as int) + pre.entries@.subrange(
                hi as int,
                pre.entries@.len() as int,
            ));
            Self::lemma_cut(&pre, self, lo as int, hi as int);
            assert forall|k: u64| pre@.contains_key(k) implies (lo <= #[trigger] pre.index_of(k) < hi
                <==> from <= k && k < to) by {
                let j = pre.index_of(k);
                pre.lemma_view_at(j);
            }
            assert(self@ =~= without_range(old(self)@, from, to));
        }
    }

    /// Deletes the record stored under `key`, if any.
    pub fn remove(&mut self, key: u64)
        requires
            old(self).wf(),
        ensures
            final(self).wf(),
            final(self)@ == old(self)@.remove(key),
    {
        let i = self.lower_bound(key);
        if i < self.entries.len() && self.entries[i].0 == key {
            let ghost pre = *self;
            let _ = self.entries.remove(i);
            proof {
                assert(self.entries@ =~= pre.entries@.subrange(0, i as int) + pre.entries@.subrange(
                    i + 1,
                    pre.entries@.len() as int,
                ));
                Self::lemma_cut(&pre, self, i as int, i + 1);
                pre.lemma_view_at(i as int);
                assert forall|k: u64| pre@.contains_key(k) implies (i <= #[trigger] pre.index_of(k) < i + 1
                    <==> k == key) by {
                    let j = pre.index_of(k);
                    pre.lemma_view_at(j);
                }
                assert(self@ =~= old(self)@.remove(key));
            }
        } else {
            proof {
                if self@.contains_key(key) {
                    let j = self.index_of(key);
                    if j > i {
                        assert(self.key_seq()[i as int] < self.key_seq()[j]);
                    }
                }
                assert(self@ =~= old(self)@.remove(key));
            }
        }
    }

    /// The smallest key held, if any.
    pub fn first_key(&self) -> (r: Option<u64>)
        requires
            self.wf(),
        ensures
            r is None <==> self@.dom() == Set::<u64>::empty(),
            r matches Some(k) ==> self@.contains_key(k) && forall|j: u64| #[trigger]
                self@.contains_key(j) ==> k <= j,
    {
        if self.entries.len() == 0 {
            proof {
                assert(self@.dom() =~= Set::<u64>::empty());
            }
            None
        } else {
            let k = self.entries[0].0;
            proof {
                self.lemma_view_at(0);
                assert forall|j: u64| #[trigger] self@.contains_key(j) implies k <= j by {
                    let x = self.index_of(j);
                    if x > 0 {
                        assert(self.key_seq()[0] < self.key_seq()[x]);
                    }
                }
            }
            Some(k)
        }
    }

    /// The largest key held, if any.
    pub fn last_key(&self) -> (r: Option<u64>)
        requires
            self.wf(),
        ensures
            r is None <==> self@.dom() == Set::<u64>::empty(),
            r matches Some(k) ==> self@.contains_key(k) && forall|j: u64| #[trigger]
                self@.contains_key(j) ==> j <= k,
    {
        let n = self.entries.len();
        if n == 0 {
            proof {
                assert(self@.dom() =~= Set::<u64>::empty());
            }
            None
        } else {
            let k = self.entries[n - 1].0;
            proof {
                self.lemma_view_at(n - 1);
                assert forall|j: u64| #[trigger] self@.contains_key(j) implies j <= k by {
                    let x = self.index_of(j);
                    if x < n - 1 {
                        assert(self.key_seq()[x] < self.key_seq()[n - 1]);
                    }
                }
            }
            Some(k)
        }
    }
}

impl Partition {
    /// The keys that a range scan visits, in the order it visits them: from
    /// `from` (inclusive; the first or the last key when absent) upwards for
    /// `Forward`, downwards for `Backward`.
    pub fn scan(&self, from: Option<u64>, dir: Direction) -> (r: Vec<u64>)
        requires
            self.wf(),
        ensures
            dir is Forward ==> strictly_ascending(r@),
            dir is Backward ==> strictly_descending(r@),
            forall|k: u64| #[trigger]
                r@.contains(k) <==> (self@.contains_key(k) && in_scan(k, from, dir)),
    {
        let n = self.entries.len();
        let mut r: Vec<u64> = Vec::new();
        match dir {
            Direction::Forward => {
                let start = match from {
                    None => 0,
                    Some(f) => self.lower_bound(f),
                };
                let mut j: usize = start;
                while j < n
                    invariant
                        self.wf(),
                        n == self.entries@.len(),
                        start <= j <= n,
                        r@ == self.key_seq().subrange(start as int, j as int),
                    decreases n - j,
                {
                    r.push(self.entries[j].0);
                    j = j + 1;
                    proof {
                        assert(r@ =~= self.key_seq().subrange(start as int, j as int));
                    }
                }
                proof {
                    assert forall|a: int, b: int| 0 <= a < b < r@.len() implies r@[a] < r@[b] by {
                        assert(self.key_seq()[start + a] < self.key_seq()[start + b]);
                    }
                    assert forall|k: u64| #[trigger] r@.contains(k) <==> (self@.contains_key(k)
                        && in_scan(k, from, dir)) by {
                        if r@.contains(k) {
                            let a = choose|a: int| 0 <= a < r@.len() && r@[a] == k;
                            self.lemma_view_at(start + a);
                        }
                        if self@.contains_key(k) && in_scan(k, from, dir) {
                            let x = self.index_of(k);
                            self.lemma_view_at(x);
                            assert(r@[x - start] == k);
                        }
                    }
                }
            },
            Direction::Backward => {
                let end: usize = match from {
                    None => n,
                    Some(f) => self.upper_bound(f),
                };
                assert forall|x: int| 0 <= x < n implies (x < end <==> in_scan(
                    #[trigger] self.entries@[x].0,
                    from,
                    dir,
                )) by {}
                let mut j: usize = end;
                while j > 0
                    invariant
                        self.wf(),
                        n == self.entries@.len(),
                        0 <= j <= end <= n,
                        r@.len() == end - j,
                        forall|a: int| 0 <= a < r@.len() ==> r@[a] == self.key_seq()[end - 1 - a],
                    decreases j,
                {
                    j = j - 1;
                    r.push(self.entries[j].0);
                }
                proof {
                    assert forall|a: int, b: int| 0 <= a < b < r@.len() implies r@[a] > r@[b] by {
                        assert(self.key_seq()[end - 1 - b] < self.key_seq()[end - 1 - a]);
                    }
                    assert forall|k: u64| #[trigger] r@.contains(k) <==> (self@.contains_key(k)
                        && in_scan(k, from, dir)) by {
                        if r@.contains(k) {
                            let a = choose|a: int| 0 <= a < r@.len() && r@[a] == k;
                            self.lemma_view_at(end - 1 - a);
                        }
                        if self@.contains_key(k) && in_scan(k, from, dir) {
                            let x = self.index_of(k);
                            self.lemma_view_at(x);
                            assert(r@[end - 1 - x] == k);
                        }
                    }
                }
            },
        }
        r
    }
}

/// `m` without the keys in `from..to`.
pub open spec fn without_range(m: Map<u64, Tweet>, from: u64, to: u64) -> Map<u64, Tweet> {
    Map::new(|k: u64| m.contains_key(k) && !(from <= k && k < to), |k: u64| m[k])
}

/// Why a store operation failed.
#[derive(PartialEq, Eq, Structural, Debug, Clone, Copy)]
pub enum StoreError {
    /// The named partition does not exist; partitions are never created
    /// implicitly.
    NoSuchPartition,
}

/// Ordered records partitioned by name.
pub struct RecordStore {
    names: Vec<String>,
    parts: Vec<Partition>,
}

impl View for RecordStore {
    type V = Map<Seq<char>, Map<u64, Tweet>>;

    closed spec fn view(&self) -> Map<Seq<char>, Map<u64, Tweet>> {
        Map::new(
            |n: Seq<char>| exists|i: int| 0 <= i < self.names@.len() && self.names@[i]@ == n,
            |n: Seq<char>| self.parts@[self.slot(n)]@,
        )
    }
}

impl RecordStore {
    spec fn slot(&self, n: Seq<char>) -> int {
        choose|i: int| 0 <= i < self.names@.len() && self.names@[i]@ == n
    }

    /// Partition names are unique and every partition keeps its keys ordered.
    pub closed spec fn wf(&self) -> bool {
        &&& self.names@.len() == self.parts@.len()
        &&& forall|i: int, j: int|
            0 <= i < j < self.names@.len() ==> self.names@[i]@ != self.names@[j]@
        &&& forall|i: int| 0 <= i < self.parts@.len() ==> (#[trigger] self.parts@[i]).wf()
    }

    proof fn lemma_at(&self, i: int)
        requires
            self.wf(),
            0 <= i < self.names@.len(),
        ensures
            self@.contains_key(self.names@[i]@),
            self@[self.names@[i]@] == self.parts@[i]@,
            self.slot(self.names@[i]@) == i,
    {
        let j = self.slot(self.names@[i]@);
        assert(0 <= j < self.names@.len() && self.names@[j]@ == self.names@[i]@);
    }

    /// A store without partitions.
    pub fn new() -> (r: RecordStore)
        ensures
            r.wf(),
            r@ == Map::<Seq<char>, Map<u64, Tweet>>::empty(),
    {
        let r = RecordStore { names: Vec::new(), parts: Vec::new() };
        assert(r@ =~= Map::<Seq<char>, Map<u64, Tweet>>::empty());
        r
    }

    fn find(&self, name: &str) -> (r: Option<usize>)
        requires
            self.wf(),
        ensures
            r is None <==> !self@.contains_key(name@),
            r matches Some(i) ==> i < self.names@.len() && self.names@[i as int]@ == name@,
    {
        let wanted = String::from_str(name);
        let mut i: usize = 0;
        while i < self.names.len()
            invariant
                self.wf(),
                wanted@ == name@,
                i <= self.names@.len(),
                forall|j: int| 0 <= j < i ==> self.names@[j]@ != name@,
            decreases self.names@.len() - i,
        {
            if self.names[i] == wanted {
                proof { self.lemma_at(i as int); }
                return Some(i);
            }
            i = i + 1;
        }
        proof {
            if self@.contains_key(name@) {
                let j = self.slot(name@);
                assert(self.names@[j]@ == name@);
            }
        }
        None
    }

    /// The partition named `name`, if it exists.
    pub fn partition(&self, name: &str) -> (r: Option<&Partition>)
        requires
            self.wf(),
        ensures
            r is None <==> !self@.contains_key(name@),
            r matches Some(p) ==> p.wf() && p@ == self@[name@],
    {
        match self.find(name) {
            None => None,
            Some(i) => {
                proof { self.lemma_at(i as int); }
                Some(&self.parts[i])
            },
        }
    }

    /// The names of all partitions, each once.
    pub fn list_partitions(&self) -> (r: Vec<String>)
        requires
            self.wf(),
        ensures
            r@.len() == self@.dom().len(),
            forall|i: int, j: int| 0 <= i < j < r@.len() ==> r@[i]@ != r@[j]@,
            forall|n: Seq<char>| #[trigger] self@.contains_key(n) <==> exists|i: int|
                0 <= i < r@.len() && r@[i]@ == n,
    {
        let mut r: Vec<String> = Vec::new();
        let mut i: usize = 0;
        while i < self.names.len()
            invariant
                self.wf(),
                i <= self.names@.len(),
                r@.len() == i,
                forall|j: int| 0 <= j < i ==> r@[j] == self.names@[j],
            decreases self.names@.len() - i,
        {
            r.push(self.names[i].clone());
            i = i + 1;
        }
        proof {
            assert forall|n: Seq<char>| #[trigger] self@.contains_key(n) <==> exists|i: int|
                0 <= i < r@.len() && r@[i]@ == n by {
                if self@.contains_key(n) {
                    let j = self.slot(n);
                    assert(r@[j]@ == n);
                }
            }
            let views = self.names@.map_values(|s: String| s@);
            assert(views.no_duplicates());
            assert(self@.dom() =~= views.to_set()) by {
                assert forall|n: Seq<char>| self@.dom().contains(n) implies views.to_set().contains(n) by {
                    let j = self.slot(n);
                    assert(views[j] == n);
                }
                assert forall|n: Seq<char>| views.to_set().contains(n) implies self@.dom().contains(n) by {
                    let j = choose|j: int| 0 <= j < views.len() && views[j] == n;
                    assert(self.names@[j]@ == n);
                }
            }
            views.unique_seq_to_set();
        }
        r
    }

    /// Creates an empty partition named `name`, unless one exists.
    pub fn create_partition(&mut self, name: &str)
        requires
            old(self).wf(),
        ensures
            final(self).wf(),
            final(self)@ == (if old(self)@.contains_key(name@) {
                old(self)@
            } else {
                old(self)@.insert(name@, Map::<u64, Tweet>::empty())
            }),
    {
        match self.find(name) {
            Some(_) => {},
            None => {
                let ghost pre = *self;
                self.names.push(String::from_str(name));
                self.parts.push(Partition::new());
                proof {
                    let n = pre.names@.len() as int;
                    assert forall|i: int| 0 <= i < n implies self.names@[i] == pre.names@[i] && self.parts@[i] == pre.parts@[i] by {}
                    assert forall|k: Seq<char>| #[trigger] self@.contains_key(k) <==> old(self)@.insert(name@, Map::<u64, Tweet>::empty()).contains_key(k) by {
                        if self@.contains_key(k) {
                            let j = self.slot(k);
                            if j < n {
                                pre.lemma_at(j);
                            }
                        }
                        if pre@.contains_key(k) {
                            let j = pre.slot(k);
                            assert(self.names@[j]@ == k);
                        }
                        if k == name@ {
                            assert(self.names@[n]@ == k);
                        }
                    }
                    assert forall|k: Seq<char>| #[trigger] self@.contains_key(k) implies self@[k] == old(self)@.insert(name@, Map::<u64, Tweet>::empty())[k] by {
                        let j = self.slot(k);
                        self.lemma_at(j);
                        if j < n {
                            pre.lemma_at(j);
                        }
                    }
                    assert(self@ =~= old(self)@.insert(name@, Map::<u64, Tweet>::empty()));
                }
            },
        }
    }

    /// Removes the partition named `name` with all its records.
    pub fn drop_partition(&mut self, name: &str) -> (r: Result<(), StoreError>)
        requires
            old(self).wf(),
        ensures
            final(self).wf(),
            r is Err <==> !old(self)@.contains_key(name@),
            r is Err ==> r == Err::<(), StoreError>(StoreError::NoSuchPartition) && final(self)@ == old(self)@,
            r is Ok ==> final(self)@ == old(self)@.remove(name@),
    {
        match self.find(name) {
            None => Err(StoreError::NoSuchPartition),
            Some(i) => {
                let ghost pre = *self;
                let _ = self.names.remove(i);
                let _ = self.parts.remove(i);
                proof {
                    pre.lemma_at(i as int);
                    let m = self.names@.len() as int;
                    assert forall|j: int| 0 <= j < m implies self.names@[j] == pre.names@[if j < i { j } else { j + 1 }]
                        && self.parts@[j] == pre.parts@[if j < i { j } else { j + 1 }] by {}
                    assert forall|a: int, b: int| 0 <= a < b < m implies self.names@[a]@ != self.names@[b]@ by {
                        let a2 = if a < i { a } else { a + 1 };
                        let b2 = if b < i { b } else { b + 1 };
                        assert(pre.names@[a2]@ != pre.names@[b2]@);
                    }
                    assert forall|j: int| 0 <= j < m implies (#[trigger] self.parts@[j]).wf() by {
                        let j2 = if j < i { j } else { j + 1 };
                        assert(pre.parts@[j2].wf());
                    }
                    assert forall|k: Seq<char>| #[trigger] self@.contains_key(k) <==> old(self)@.remove(name@).contains_key(k) by {
                        if self@.contains_key(k) {
                            let j = self.slot(k);
                            let j2 = if j < i { j } else { j + 1 };
                            pre.lemma_at(j2);
                            assert(pre.names@[j2]@ != pre.names@[i as int]@);
                        }
                        if pre@.contains_key(k) && k != name@ {
                            let j = pre.slot(k);
                            let j3 = if j < i { j } else { j - 1 };
                            assert(self.names@[j3]@ == k);
                        }
                    }
                    assert forall|k: Seq<char>| #[trigger] self@.contains_key(k) implies self@[k] == old(self)@.remove(name@)[k] by {
                        let j = self.slot(k);
                        self.lemma_at(j);
                        let j2 = if j < i { j } else { j + 1 };
                        pre.lemma_at(j2);
                    }
                    assert(self@ =~= old(self)@.remove(name@));
                }
                Ok(())
            },
        }
    }

    /// Replacing the partition in slot `i` changes only the entry for its name.
    proof fn lemma_replaced(pre: &RecordStore, post: &RecordStore, i: int)
        requires
            pre.wf(),
            0 <= i < pre.names@.len(),
            post.names@ == pre.names@,
            post.parts@.len() == pre.parts@.len(),
            post.parts@[i].wf(),
            forall|j: int| 0 <= j < pre.parts@.len() && j != i ==> post.parts@[j] == pre.parts@[j],
        ensures
            post.wf(),
            post@ == pre@.insert(pre.names@[i]@, post.parts@[i]@),
    {
        assert forall|j: int| 0 <= j < post.parts@.len() implies (#[trigger] post.parts@[j]).wf() by {
            if j != i {
                assert(pre.parts@[j].wf());
            }
        }
        pre.lemma_at(i);
        assert forall|k: Seq<char>| #[trigger] post@.contains_key(k) == pre@.insert(pre.names@[i]@, post.parts@[i]@).contains_key(k) by {
            if post@.contains_key(k) {
                let j = post.slot(k);
                pre.lemma_at(j);
            }
            if pre@.contains_key(k) {
                let j = pre.slot(k);
                assert(post.names@[j]@ == k);
            }
        }
        assert forall|k: Seq<char>| #[trigger] post@.contains_key(k) implies post@[k] == pre@.insert(pre.names@[i]@, post.parts@[i]@)[k] by {
            let j = post.slot(k);
            post.lemma_at(j);
            pre.lemma_at(j);
        }
        assert(post@ =~= pre@.insert(pre.names@[i]@, post.parts@[i]@));
    }

    /// Stores `value` under `key` in partition `name`, replacing a record
    /// already stored there.
    pub fn put(&mut self, name: &str, key: u64, value: Tweet) -> (r: Result<(), StoreError>)
        requires
            old(self).wf(),
        ensures
            final(self).wf(),
            r is Err <==> !old(self)@.contains_key(name@),
            r is Err ==> r == Err::<(), StoreError>(StoreError::NoSuchPartition) && final(self)@ == old(self)@,
            r is Ok ==> final(self)@ == old(self)@.insert(name@, old(self)@[name@].insert(key, value)),
    {
        match self.find(name) {
            None => Err(StoreError::NoSuchPartition),
            Some(i) => {
                let ghost pre = *self;
                let mut p = self.parts.remove(i);
                proof { assert(pre.parts@[i as int].wf()); }
                p.put(key, value);
                self.parts.insert(i, p);
                proof {
                    pre.lemma_at(i as int);
                    assert forall|j: int| 0 <= j < pre.parts@.len() && j != i implies self.parts@[j] == pre.parts@[j] by {}
                    Self::lemma_replaced(&pre, self, i as int);
                }
                Ok(())
            },
        }
    }

    /// The record stored under `key` in partition `name`, if any.
    pub fn get(&self, name: &str, key: u64) -> (r: Result<Option<&Tweet>, StoreError>)
        requires
            self.wf(),
        ensures
            r is Err <==> !self@.contains_key(name@),
            r is Err ==> r == Err::<Option<&Tweet>, StoreError>(StoreError::NoSuchPartition),
            r matches Ok(v) ==> v == (if self@[name@].contains_key(key) {
                Some(&self@[name@][key])
            } else {
                None::<&Tweet>
            }),
    {
        match self.partition(name) {
            None => Err(StoreError::NoSuchPartition),
            Some(p) => Ok(p.get(key)),
        }
    }

    /// The keys of partition `name` that a range scan from `from` in
    /// direction `dir` visits, in visiting order.
    pub fn scan(&self, name: &str, from: Option<u64>, dir: Direction) -> (r: Result<Vec<u64>, StoreError>)
        requires
            self.wf(),
        ensures
            r is Err <==> !self@.contains_key(name@),
            r is Err ==> r == Err::<Vec<u64>, StoreError>(StoreError::NoSuchPartition),
            r matches Ok(ks) ==> {
                &&& dir is Forward ==> strictly_ascending(ks@)
                &&& dir is Backward ==> strictly_descending(ks@)
                &&& forall|k: u64| #[trigger]
                    ks@.contains(k) <==> (self@[name@].contains_key(k) && in_scan(k, from, dir))
            },
    {
        match self.partition(name) {
            None => Err(StoreError::NoSuchPartition),
            Some(p) => Ok(p.scan(from, dir)),
        }
    }

    /// Deletes the records of partition `name` whose keys lie in `from..to`.
    pub fn delete_range(&mut self, name: &str, from: u64, to: u64) -> (r: Result<(), StoreError>)
        requires
            old(self).wf(),
        ensures
            final(self).wf(),
            r is Err <==> !old(self)@.contains_key(name@),
            r is Err ==> r == Err::<(), StoreError>(StoreError::NoSuchPartition) && final(self)@ == old(self)@,
            r is Ok ==> final(self)@ == old(self)@.insert(name@, without_range(old(self)@[name@], from, to)),
    {
        match self.find(name) {
            None => Err(StoreError::NoSuchPartition),
            Some(i) => {
                let ghost pre = *self;
                let mut p = self.parts.remove(i);
                proof { assert(pre.parts@[i as int].wf()); }
                p.delete_range(from, to);
                self.parts.insert(i, p);
                proof {
                    pre.lemma_at(i as int);
                    assert forall|j: int| 0 <= j < pre.parts@.len() && j != i implies self.parts@[j] == pre.parts@[j] by {}
                    Self::lemma_replaced(&pre, self, i as int);
                }
                Ok(())
            },
        }
    }

    /// Deletes the record stored under `key` in partition `name`, if any.
    pub fn remove(&mut self, name: &str, key: u64) -> (r: Result<(), StoreError>)
        requires
            old(self).wf(),
        ensures
            final(self).wf(),
            r is Err <==> !old(self)@.contains_key(name@),
            r is Err ==> r == Err::<(), StoreError>(StoreError::NoSuchPartition) && final(self)@ == old(self)@,
            r is Ok ==> final(self)@ == old(self)@.insert(name@, old(self)@[name@].remove(key)),
    {
        match self.find(name) {
            None => Err(StoreError::NoSuchPartition),
            Some(i) => {
                let ghost pre = *self;
                let mut p = self.parts.remove(i);
                proof { assert(pre.parts@[i as int].wf()); }
                p.remove(key);
                self.parts.insert(i, p);
                proof {
                    pre.lemma_at(i as int);
                    assert forall|j: int| 0 <= j < pre.parts@.len() && j != i implies self.parts@[j] == pre.parts@[j] by {}
                    Self::lemma_replaced(&pre, self, i as int);
                }
                Ok(())
            },
        }
    }
}

} // verus!
