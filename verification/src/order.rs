//! A strict total order over identity values.
//!
//! [`TransientOrd`] wraps an identity value's content so that the ordering
//! operators can be used for set or map placement. The order is total and
//! consistent with content equality — for two values exactly one of `<`,
//! `==`, `>` holds — but callers may not rely on it agreeing with any
//! particular collation or staying stable across releases; only the
//! consistency laws below are promised.

use vstd::prelude::*;

use crate::identity::StringIdentity;

verus! {

/// Three-way comparison of byte sequences: negative when `a` comes first,
/// zero exactly on equal sequences, positive when `b` comes first.
pub open spec fn seq_cmp(a: Seq<u8>, b: Seq<u8>) -> int
    decreases a.len(),
{
    if a.len() == 0 && b.len() == 0 {
        0
    } else if a.len() == 0 {
        -1
    } else if b.len() == 0 {
        1
    } else if a[0] < b[0] {
        -1
    } else if a[0] > b[0] {
        1
    } else {
        seq_cmp(a.skip(1), b.skip(1))
    }
}

/// The comparison returns one of its three outcomes and nothing else.
pub proof fn lemma_seq_cmp_range(a: Seq<u8>, b: Seq<u8>)
    ensures
        seq_cmp(a, b) == -1 || seq_cmp(a, b) == 0 || seq_cmp(a, b) == 1,
    decreases a.len(),
{
    if a.len() == 0 || b.len() == 0 {
    } else {
        lemma_seq_cmp_range(a.skip(1), b.skip(1));
    }
}

/// The comparison is zero exactly on equal sequences.
pub proof fn lemma_seq_cmp_zero_iff_eq(a: Seq<u8>, b: Seq<u8>)
    ensures
        seq_cmp(a, b) == 0 <==> a == b,
    decreases a.len(),
{
    if a.len() == 0 && b.len() == 0 {
        assert(a =~= b);
    } else if a.len() == 0 || b.len() == 0 {
    } else {
        lemma_seq_cmp_zero_iff_eq(a.skip(1), b.skip(1));
        if seq_cmp(a, b) == 0 {
            assert(a =~= seq![a[0]] + a.skip(1));
            assert(b =~= seq![b[0]] + b.skip(1));
        } else {
            if a == b {
                assert(a.skip(1) =~= b.skip(1));
            }
        }
    }
}

/// Swapping the operands negates the comparison.
pub proof fn lemma_seq_cmp_antisymmetric(a: Seq<u8>, b: Seq<u8>)
    ensures
        seq_cmp(b, a) == -seq_cmp(a, b),
    decreases a.len(),
{
    if a.len() == 0 || b.len() == 0 {
    } else {
        lemma_seq_cmp_antisymmetric(a.skip(1), b.skip(1));
    }
}

/// An identity value's content, wrapped so that the ordering operators
/// apply to it.
#[derive(Debug, Hash)]
pub struct TransientOrd {
    bytes: Vec<u8>,
}

impl View for TransientOrd {
    type V = Seq<u8>;

    closed spec fn view(&self) -> Seq<u8> {
        self.bytes@
    }
}

impl TransientOrd {
    /// Wraps the content of an identity value.
    pub fn of_identity(id: &StringIdentity) -> (r: TransientOrd)
        ensures
            r@ == id@,
    {
        let mut bytes: Vec<u8> = Vec::new();
        bytes.extend_from_slice(id.as_bytes());
        proof {
            assert(bytes@ =~= id@);
        }
        TransientOrd { bytes }
    }
}

impl Clone for TransientOrd {
    /// A clone is content-equal to its source, so it compares equal to it
    /// under both equality and the order.
    fn clone(&self) -> (r: TransientOrd)
        ensures
            r@ == self@,
    {
        let bytes = self.bytes.clone();
        proof {
            assert(bytes@ =~= self.bytes@);
        }
        TransientOrd { bytes }
    }
}

impl PartialEq for TransientOrd {
    /// Equality is structural over the wrapped content.
    fn eq(&self, other: &TransientOrd) -> (r: bool) {
        let r = self.bytes == other.bytes;
        proof {
            if r {
                assert(self.bytes@ =~= other.bytes@);
            }
        }
        r
    }
}

impl Eq for TransientOrd {

}

impl vstd::std_specs::cmp::PartialEqSpecImpl for TransientOrd {
    open spec fn obeys_eq_spec() -> bool {
        true
    }

    open spec fn eq_spec(&self, other: &TransientOrd) -> bool {
        self@ == other@
    }
}

impl vstd::std_specs::cmp::PartialOrdSpecImpl for TransientOrd {
    open spec fn obeys_partial_cmp_spec() -> bool {
        true
    }

    open spec fn partial_cmp_spec(&self, other: &TransientOrd) -> Option<core::cmp::Ordering> {
        if seq_cmp(self@, other@) < 0 {
            Some(core::cmp::Ordering::Less)
        } else if seq_cmp(self@, other@) == 0 {
            Some(core::cmp::Ordering::Equal)
        } else {
            Some(core::cmp::Ordering::Greater)
        }
    }
}

impl PartialOrd for TransientOrd {
    /// Three-way comparison of the wrapped contents; always defined.
    fn partial_cmp(&self, other: &TransientOrd) -> (r: Option<core::cmp::Ordering>) {
        let a = &self.bytes;
        let b = &other.bytes;
        let mut i: usize = 0;
        loop
            invariant
                a@ == self@,
                b@ == other@,
                0 <= i <= a@.len(),
                i <= b@.len(),
                forall|k: int| 0 <= k < i ==> a@[k] == b@[k],
            decreases a@.len() - i,
        {
            proof {
                lemma_seq_cmp_common_prefix(a@, b@, i as int);
            }
            if i == a.len() && i == b.len() {
                proof {
                    assert(a@.skip(i as int).len() == 0);
                    assert(b@.skip(i as int).len() == 0);
                    assert(seq_cmp(a@.skip(i as int), b@.skip(i as int)) == 0);
                    assert(seq_cmp(a@, b@) == 0);
                }
                return Some(core::cmp::Ordering::Equal);
            }
            if i == a.len() {
                proof {
                    assert(a@.skip(i as int).len() == 0);
                    assert(b@.skip(i as int).len() > 0);
                    assert(seq_cmp(a@.skip(i as int), b@.skip(i as int)) == -1);
                    assert(seq_cmp(a@, b@) == -1);
                }
                return Some(core::cmp::Ordering::Less);
            }
            if i == b.len() {
                proof {
                    assert(b@.skip(i as int).len() == 0);
                    assert(a@.skip(i as int).len() > 0);
                    assert(seq_cmp(a@.skip(i as int), b@.skip(i as int)) == 1);
                    assert(seq_cmp(a@, b@) == 1);
                }
                return Some(core::cmp::Ordering::Greater);
            }
            let x = a[i];
            let y = b[i];
            proof {
                assert(a@.skip(i as int).len() > 0);
                assert(b@.skip(i as int).len() > 0);
                assert(a@.skip(i as int)[0] == a@[i as int]);
                assert(b@.skip(i as int)[0] == b@[i as int]);
            }
            if x < y {
                proof {
                    assert(seq_cmp(a@.skip(i as int), b@.skip(i as int)) == -1);
                    assert(seq_cmp(a@, b@) == -1);
                }
                return Some(core::cmp::Ordering::Less);
            }
            if x > y {
                proof {
                    assert(seq_cmp(a@.skip(i as int), b@.skip(i as int)) == 1);
                    assert(seq_cmp(a@, b@) == 1);
                }
                return Some(core::cmp::Ordering::Greater);
            }
            i = i + 1;
        }
    }
}

/// As long as two sequences agree on a common prefix, their comparison is
/// the comparison of what follows it.
pub proof fn lemma_seq_cmp_common_prefix(a: Seq<u8>, b: Seq<u8>, i: int)
    requires
        0 <= i <= a.len(),
        i <= b.len(),
        forall|k: int| 0 <= k < i ==> a[k] == b[k],
    ensures
        seq_cmp(a, b) == seq_cmp(a.skip(i), b.skip(i)),
    decreases i,
{
    if i == 0 {
        assert(a.skip(0) =~= a);
        assert(b.skip(0) =~= b);
    } else {
        assert(a.len() > 0 && b.len() > 0);
        assert(a[0] == b[0]);
        assert(a.skip(1).skip(i - 1) =~= a.skip(i));
        assert(b.skip(1).skip(i - 1) =~= b.skip(i));
        assert(forall|k: int| 0 <= k < i - 1 ==> a.skip(1)[k] == b.skip(1)[k]);
        lemma_seq_cmp_common_prefix(a.skip(1), b.skip(1), i - 1);
    }
}

/// The transient order is a strict total order consistent with content
/// equality: for any two values the three-way comparison takes exactly one
/// of its three outcomes, it is zero exactly on equal contents — so a value
/// and its clone always compare equal — and it negates when the operands
/// swap, so exactly one of `a < b`, `a == b`, `a > b` holds.
pub proof fn lemma_transient_order_total(a: TransientOrd, b: TransientOrd)
    ensures
        seq_cmp(a@, b@) == -1 || seq_cmp(a@, b@) == 0 || seq_cmp(a@, b@) == 1,
        seq_cmp(a@, b@) == 0 <==> a@ == b@,
        seq_cmp(a@, a@) == 0,
        seq_cmp(b@, a@) == -seq_cmp(a@, b@),
{
    lemma_seq_cmp_range(a@, b@);
    lemma_seq_cmp_zero_iff_eq(a@, b@);
    lemma_seq_cmp_zero_iff_eq(a@, a@);
    lemma_seq_cmp_antisymmetric(a@, b@);
}

} // verus!
