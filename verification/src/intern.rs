//! An explicit insert-if-absent table for identity values.
//!
//! Repeated construction from the same source — the fast path for values
//! built over and over from one literal — goes through a table owned by an
//! explicit context value rather than through hidden process-wide state.
//! Interning is idempotent: a second request for content the table already
//! holds changes nothing and returns a value content-equal to the first.
//! The table itself is a plain value; an embedder that interns from several
//! threads places it behind a lock of its own choosing.

use vstd::prelude::*;

use crate::content::truncated;
use crate::identity::StringIdentity;

verus! {

/// A table of identity values with pairwise distinct contents.
#[derive(Debug)]
pub struct InternTable {
    entries: Vec<StringIdentity>,
}

impl InternTable {
    /// The contents the table holds, in insertion order.
    pub closed spec fn contents(&self) -> Seq<Seq<u8>> {
        self.entries@.map_values(|e: StringIdentity| e@)
    }

    /// Whether the table holds the given content.
    pub open spec fn holds(&self, s: Seq<u8>) -> bool {
        exists|k: int| 0 <= k < self.contents().len() && self.contents()[k] == s
    }

    /// Every entry is a well-formed identity value and no two entries have
    /// the same content.
    pub open spec fn wf(&self) -> bool {
        &&& forall|k: int|
            0 <= k < self.contents().len() ==> crate::content::null_free(
                #[trigger] self.contents()[k],
            )
        &&& forall|k1: int, k2: int|
            0 <= k1 < k2 < self.contents().len() ==> self.contents()[k1] != self.contents()[k2]
    }

    /// An empty table.
    pub fn new() -> (r: InternTable)
        ensures
            r.wf(),
            r.contents() == Seq::<Seq<u8>>::empty(),
    {
        let r = InternTable { entries: Vec::new() };
        proof {
            assert(r.contents() =~= Seq::<Seq<u8>>::empty());
        }
        r
    }

    /// Number of distinct contents interned so far.
    pub fn len(&self) -> (r: usize)
        ensures
            r == self.contents().len(),
    {
        self.entries.len()
    }

    /// Returns the identity value for the given source, truncated at its
    /// first null byte as any construction is. The content is added only
    /// if the table does not hold it yet, so interning the same source
    /// twice returns content-equal values and leaves the table unchanged
    /// the second time.
    pub fn intern(&mut self, b: &[u8]) -> (r: StringIdentity)
        requires
            old(self).wf(),
        ensures
            final(self).wf(),
            r.wf(),
            r@ == truncated(b@),
            final(self).holds(truncated(b@)),
            final(self).contents() == if old(self).holds(truncated(b@)) {
                old(self).contents()
            } else {
                old(self).contents().push(truncated(b@))
            },
    {
        let wanted = StringIdentity::from_bytes(b);
        let mut k: usize = 0;
        while k < self.entries.len()
            invariant
                self.wf(),
                *self == *old(self),
                wanted@ == truncated(b@),
                wanted.wf(),
                0 <= k <= self.contents().len(),
                forall|j: int| 0 <= j < k ==> self.contents()[j] != wanted@,
            decreases self.contents().len() - k,
        {
            let hit = &self.entries[k] == &wanted;
            if hit {
                proof {
                    assert(self.contents()[k as int] == wanted@);
                    assert(self.holds(truncated(b@)));
                }
                let r = self.entries[k].clone();
                return r;
            }
            k = k + 1;
        }
        proof {
            assert(!self.holds(wanted@));
        }
        let r = wanted.clone();
        let ghost before = self.contents();
        self.entries.push(wanted);
        proof {
            assert(self.contents() =~= before.push(truncated(b@)));
            assert(self.contents()[before.len() as int] == truncated(b@));
            assert(self.holds(truncated(b@)));
        }
        r
    }

    /// Releases the table. Entries are plain values owned by the table, so
    /// there is nothing further to tear down; the hook exists so that an
    /// embedder with an explicit shutdown order has a place to call.
    pub fn shutdown(self) {
    }
}

} // verus!
