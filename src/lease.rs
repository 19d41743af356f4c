use vstd::prelude::*;
use crate::slots::Slots;

verus! {

/// Exclusive per-identity leases: fetching and delivering for one identity
/// happen only under its lease, so their cursor writes never interleave.
pub struct Leases {
    held: Slots<()>,
}

impl Leases {
    /// The identities currently leased.
    pub closed spec fn held_view(&self) -> Set<Seq<char>> {
        self.held@.dom()
    }

    pub closed spec fn wf(&self) -> bool {
        self.held.wf()
    }

    /// No leases held.
    pub fn new() -> (r: Leases)
        ensures
            r.wf(),
            r.held_view() == Set::<Seq<char>>::empty(),
    {
        Leases { held: Slots::new() }
    }

    /// Takes the lease of `identity`; `false`, changing nothing, when it is
    /// already held.
    pub fn acquire(&mut self, identity: &str) -> (r: bool)
        requires
            old(self).wf(),
        ensures
            final(self).wf(),
            r == !old(self).held_view().contains(identity@),
            final(self).held_view() == old(self).held_view().insert(identity@),
    {
        if self.held.get(identity).is_some() {
            proof {
                assert(self.held_view() =~= old(self).held_view().insert(identity@));
            }
            false
        } else {
            self.held.set(identity, ());
            proof {
                assert(self.held_view() =~= old(self).held_view().insert(identity@));
            }
            true
        }
    }

    /// Gives back the lease of `identity`.
    pub fn release(&mut self, identity: &str)
        requires
            old(self).wf(),
        ensures
            final(self).wf(),
            final(self).held_view() == old(self).held_view().remove(identity@),
    {
        self.held.clear(identity);
        proof {
            assert(self.held_view() =~= old(self).held_view().remove(identity@));
        }
    }
}

} // verus!
