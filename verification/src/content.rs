//! The byte-level content model shared by every value type of the crate.
//!
//! Content is a sequence of bytes. Construction of an identity value keeps
//! only the prefix before the first null byte; [`truncated`] is the
//! specification of that rule and [`truncate_at_null`] the executable
//! counterpart.

use vstd::prelude::*;

verus! {

/// A byte sequence that contains no null byte.
pub open spec fn null_free(s: Seq<u8>) -> bool {
    forall|i: int| 0 <= i < s.len() ==> s[i] != 0
}

/// The prefix of `s` before its first null byte: the content that any
/// identity-value construction keeps. A null-free sequence is kept whole.
pub open spec fn truncated(s: Seq<u8>) -> Seq<u8>
    decreases s.len(),
{
    if s.len() == 0 || s[0] == 0 {
        Seq::empty()
    } else {
        seq![s[0]] + truncated(s.skip(1))
    }
}

/// Truncation never introduces a null byte.
pub proof fn lemma_truncated_null_free(s: Seq<u8>)
    ensures
        null_free(truncated(s)),
    decreases s.len(),
{
    if s.len() == 0 || s[0] == 0 {
    } else {
        lemma_truncated_null_free(s.skip(1));
    }
}

/// Truncation is the identity exactly on null-free sequences.
pub proof fn lemma_truncated_of_null_free(s: Seq<u8>)
    requires
        null_free(s),
    ensures
        truncated(s) == s,
    decreases s.len(),
{
    if s.len() == 0 {
        assert(truncated(s) =~= s);
    } else {
        lemma_truncated_of_null_free(s.skip(1));
        assert(truncated(s) =~= s);
    }
}

/// Truncating twice is the same as truncating once.
pub proof fn lemma_truncated_idempotent(s: Seq<u8>)
    ensures
        truncated(truncated(s)) == truncated(s),
{
    lemma_truncated_null_free(s);
    lemma_truncated_of_null_free(truncated(s));
}

/// Everything from the first null byte on is invisible: appending a null
/// byte and arbitrary further bytes to any sequence leaves its truncated
/// content unchanged.
pub proof fn lemma_null_truncation(s: Seq<u8>, t: Seq<u8>)
    ensures
        truncated(s + seq![0u8] + t) == truncated(s),
    decreases s.len(),
{
    let whole = s + seq![0u8] + t;
    if s.len() == 0 {
        assert(whole[0] == 0);
    } else if s[0] == 0 {
        assert(whole[0] == 0);
    } else {
        assert(whole[0] == s[0]);
        assert(whole.skip(1) =~= s.skip(1) + seq![0u8] + t);
        lemma_null_truncation(s.skip(1), t);
    }
}

/// A null-free prefix that ends at a null byte (or at the end of the
/// sequence) is exactly the truncated content.
pub proof fn lemma_truncated_stops_at(s: Seq<u8>, i: int)
    requires
        0 <= i <= s.len(),
        null_free(s.take(i)),
        i == s.len() || s[i] == 0,
    ensures
        truncated(s) == s.take(i),
    decreases i,
{
    if i == 0 {
        assert(truncated(s) =~= s.take(0));
    } else {
        assert(s.take(i)[0] == s[0]);
        assert(s[0] != 0);
        assert(s.skip(1).take(i - 1) =~= s.take(i).skip(1));
        assert(null_free(s.skip(1).take(i - 1)));
        if i == s.len() {
            lemma_truncated_stops_at(s.skip(1), i - 1);
        } else {
            assert(s.skip(1)[i - 1] == s[i]);
            lemma_truncated_stops_at(s.skip(1), i - 1);
        }
        assert(truncated(s) =~= seq![s[0]] + s.skip(1).take(i - 1));
        assert(seq![s[0]] + s.skip(1).take(i - 1) =~= s.take(i));
    }
}

/// Copies the prefix of `b` before its first null byte.
pub fn truncate_at_null(b: &[u8]) -> (r: Vec<u8>)
    ensures
        r@ == truncated(b@),
        null_free(r@),
{
    let mut out: Vec<u8> = Vec::new();
    let mut i: usize = 0;
    while i < b.len() && b[i] != 0
        invariant
            0 <= i <= b@.len(),
            out@ =~= b@.take(i as int),
            null_free(out@),
        decreases b@.len() - i,
    {
        out.push(b[i]);
        i = i + 1;
        assert(out@ =~= b@.take(i as int));
    }
    proof {
        lemma_truncated_stops_at(b@, i as int);
    }
    out
}

} // verus!
