use vstd::prelude::*;
use vstd::string::*;

verus! {

/// Values keyed by name, each name at most once.
pub struct Slots<V> {
    names: Vec<String>,
    vals: Vec<V>,
}

impl<V> View for Slots<V> {
    type V = Map<Seq<char>, V>;

    closed spec fn view(&self) -> Map<Seq<char>, V> {
        Map::new(
            |n: Seq<char>| exists|i: int| 0 <= i < self.names@.len() && self.names@[i]@ == n,
            |n: Seq<char>| self.vals@[self.slot(n)],
        )
    }
}

impl<V> Slots<V> {
    spec fn slot(&self, n: Seq<char>) -> int {
        choose|i: int| 0 <= i < self.names@.len() && self.names@[i]@ == n
    }

    /// Names are unique and each has one value.
    pub closed spec fn wf(&self) -> bool {
        &&& self.names@.len() == self.vals@.len()
        &&& forall|i: int, j: int|
            0 <= i < j < self.names@.len() ==> self.names@[i]@ != self.names@[j]@
    }

    proof fn lemma_at(&self, i: int)
        requires
            self.wf(),
            0 <= i < self.names@.len(),
        ensures
            self@.contains_key(self.names@[i]@),
            self@[self.names@[i]@] == self.vals@[i],
            self.slot(self.names@[i]@) == i,
    {
        let j = self.slot(self.names@[i]@);
        assert(0 <= j < self.names@.len() && self.names@[j]@ == self.names@[i]@);
    }

    /// No names.
    pub fn new() -> (r: Slots<V>)
        ensures
            r.wf(),
            r@ == Map::<Seq<char>, V>::empty(),
    {
        let r = Slots { names: Vec::new(), vals: Vec::new() };
        assert(r@ =~= Map::<Seq<char>, V>::empty());
        r
    }

    fn find(&self, name: &str) -> (r: Option<usize>)
        requires
            self.wf(),
        ensures
            r is None <==> !self@.contains_key(name@),
            r matches Some(i) ==> i < self.names@.len() && self.names@[i as int]@ == name@,
    {
        let wanted = String::from_str(name);
        let mut i: usize = 0;
        while i < self.names.len()
            invariant
                self.wf(),
                wanted@ == name@,
                i <= self.names@.len(),
                forall|j: int| 0 <= j < i ==> self.names@[j]@ != name@,
            decreases self.names@.len() - i,
        {
            if self.names[i] == wanted {
                proof { self.lemma_at(i as int); }
                return Some(i);
            }
            i = i + 1;
        }
        proof {
            if self@.contains_key(name@) {
                let j = self.slot(name@);
                assert(self.names@[j]@ == name@);
            }
        }
        None
    }

    /// The value held under `name`, if any.
    pub fn get(&self, name: &str) -> (r: Option<&V>)
        requires
            self.wf(),
        ensures
            r == (if self@.contains_key(name@) {
                Some(&self@[name@])
            } else {
                None::<&V>
            }),
    {
        match self.find(name) {
            None => None,
            Some(i) => {
                proof { self.lemma_at(i as int); }
                Some(&self.vals[i])
            },
        }
    }

    /// Holds `v` under `name`, replacing what was there.
    pub fn set(&mut self, name: &str, v: V)
        requires
            old(self).wf(),
        ensures
            final(self).wf(),
            final(self)@ == old(self)@.insert(name@, v),
    {
        let ghost pre = *self;
        match self.find(name) {
            Some(i) => {
                self.vals.set(i, v);
                proof {
                    pre.lemma_at(i as int);
                    assert forall|k: Seq<char>| #[trigger] self@.contains_key(k) == pre@.insert(name@, v).contains_key(k) by {
                        if self@.contains_key(k) {
                            let j = self.slot(k);
                            pre.lemma_at(j);
                        }
                        if pre@.contains_key(k) {
                            let j = pre.slot(k);
                            assert(self.names@[j]@ == k);
                        }
                    }
                    assert forall|k: Seq<char>| #[trigger] self@.contains_key(k) implies self@[k] == pre@.insert(name@, v)[k] by {
                        let j = self.slot(k);
                        self.lemma_at(j);
                        pre.lemma_at(j);
                    }
                    assert(self@ =~= pre@.insert(name@, v));
                }
            },
            None => {
                self.names.push(String::from_str(name));
                self.vals.push(v);
                proof {
                    let n = pre.names@.len() as int;
                    assert forall|i: int| 0 <= i < n implies self.names@[i] == pre.names@[i] && self.vals@[i] == pre.vals@[i] by {}
                    assert forall|k: Seq<char>| #[trigger] self@.contains_key(k) <==> pre@.insert(name@, v).contains_key(k) by {
                        if self@.contains_key(k) {
                            let j = self.slot(k);
                            if j < n {
                                pre.lemma_at(j);
                            }
                        }
                        if pre@.contains_key(k) {
                            let j = pre.slot(k);
                            assert(self.names@[j]@ == k);
                        }
                        if k == name@ {
                            assert(self.names@[n]@ == k);
                        }
                    }
                    assert forall|k: Seq<char>| #[trigger] self@.contains_key(k) implies self@[k] == pre@.insert(name@, v)[k] by {
                        let j = self.slot(k);
                        self.lemma_at(j);
                        if j < n {
                            pre.lemma_at(j);
                        }
                    }
                    assert(self@ =~= pre@.insert(name@, v));
                }
            },
        }
    }

    /// Forgets the value held under `name`, if any.
    pub fn clear(&mut self, name: &str)
        requires
            old(self).wf(),
        ensures
            final(self).wf(),
            final(self)@ == old(self)@.remove(name@),
    {
        match self.find(name) {
            None => {
                proof { assert(self@ =~= old(self)@.remove(name@)); }
            },
            Some(i) => {
                let ghost pre = *self;
                let _ = self.names.remove(i);
                let _ = self.vals.remove(i);
                proof {
                    pre.lemma_at(i as int);
                    let m = self.names@.len() as int;
                    assert forall|j: int| 0 <= j < m implies self.names@[j] == pre.names@[if j < i { j } else { j + 1 }]
                        && self.vals@[j] == pre.vals@[if j < i { j } else { j + 1 }] by {}
                    assert forall|a: int, b: int| 0 <= a < b < m implies self.names@[a]@ != self.names@[b]@ by {
                        let a2 = if a < i { a } else { a + 1 };
                        let b2 = if b < i { b } else { b + 1 };
                        assert(pre.names@[a2]@ != pre.names@[b2]@);
                    }
                    assert forall|k: Seq<char>| #[trigger] self@.contains_key(k) <==> pre@.remove(name@).contains_key(k) by {
                        if self@.contains_key(k) {
                            let j = self.slot(k);
                            let j2 = if j < i { j } else { j + 1 };
                            pre.lemma_at(j2);
                            assert(pre.names@[j2]@ != pre.names@[i as int]@);
                        }
                        if pre@.contains_key(k) && k != name@ {
                            let j = pre.slot(k);
                            let j3 = if j < i { j } else { j - 1 };
                            assert(self.names@[j3]@ == k);
                        }
                    }
                    assert forall|k: Seq<char>| #[trigger] self@.contains_key(k) implies self@[k] == pre@.remove(name@)[k] by {
                        let j = self.slot(k);
                        self.lemma_at(j);
                        let j2 = if j < i { j } else { j + 1 };
                        pre.lemma_at(j2);
                    }
                    assert(self@ =~= pre@.remove(name@));
                }
            },
        }
    }
}

} // verus!
