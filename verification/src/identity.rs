//! The immutable, content-addressed string-identity value.

use vstd::prelude::*;

use crate::content::lemma_truncated_of_null_free;
use crate::content::null_free;
use crate::content::truncate_at_null;
use crate::content::truncated;
use crate::plain::PlainString;

verus! {

/// An immutable text value, equal to another exactly when their byte
/// sequences are equal. Construction from any source truncates at the
/// first null byte, so a well-formed value is always null-free.
#[derive(Debug, Hash)]
pub struct StringIdentity {
    bytes: Vec<u8>,
}

impl View for StringIdentity {
    type V = Seq<u8>;

    closed spec fn view(&self) -> Seq<u8> {
        self.bytes@
    }
}

impl StringIdentity {
    /// Every constructor establishes this invariant: the content holds no
    /// null byte.
    pub open spec fn wf(&self) -> bool {
        null_free(self@)
    }

    /// The empty value, content-equal to a construction from an empty
    /// source.
    pub fn empty() -> (r: StringIdentity)
        ensures
            r@ == Seq::<u8>::empty(),
            r.wf(),
    {
        StringIdentity { bytes: Vec::new() }
    }

    /// Builds an identity value from a byte slice, keeping only the prefix
    /// before the first null byte.
    pub fn from_bytes(b: &[u8]) -> (r: StringIdentity)
        ensures
            r@ == truncated(b@),
            r.wf(),
    {
        StringIdentity { bytes: truncate_at_null(b) }
    }

    /// Builds an identity value from a C-style null-terminated byte
    /// sequence: the terminator and anything after it are excluded, by the
    /// same rule that truncates any other source at its first null byte.
    pub fn from_cstr_bytes(b: &[u8]) -> (r: StringIdentity)
        ensures
            r@ == truncated(b@),
            r.wf(),
    {
        StringIdentity { bytes: truncate_at_null(b) }
    }

    /// Builds an identity value from a plain text value, truncating at the
    /// first null byte.
    pub fn from_plain(p: &PlainString) -> (r: StringIdentity)
        ensures
            r@ == truncated(p@),
            r.wf(),
    {
        StringIdentity::from_bytes(p.as_bytes())
    }

    /// Content round-trip out of the identity value; truncation happened at
    /// construction time, never here.
    pub fn to_plain_string(&self) -> (r: PlainString)
        ensures
            r@ == self@,
    {
        PlainString::from_bytes(self.bytes.as_slice())
    }

    /// Number of content bytes; zero for the default value.
    pub fn len(&self) -> (r: usize)
        ensures
            r == self@.len(),
    {
        self.bytes.len()
    }

    /// Whether the content is empty.
    pub fn is_empty(&self) -> (r: bool)
        ensures
            r == (self@.len() == 0),
    {
        self.bytes.is_empty()
    }

    /// Read access to the content bytes.
    pub fn as_bytes(&self) -> (r: &[u8])
        ensures
            r@ == self@,
    {
        self.bytes.as_slice()
    }

    /// Reinterprets the content as a segmented path; no validation beyond
    /// delimiter scanning.
    pub fn to_segmented_path(&self) -> (r: crate::path::SegmentedPath)
        requires
            self.wf(),
        ensures
            r.wf(),
            r.content() == self@,
    {
        crate::path::SegmentedPath::from_identity(self)
    }

    /// Wraps the content in a value with a strict total order consistent
    /// with content equality; see [`crate::order::TransientOrd`] for what
    /// the order does and does not promise.
    pub fn transient_ord(&self) -> (r: crate::order::TransientOrd)
        ensures
            r@ == self@,
    {
        crate::order::TransientOrd::of_identity(self)
    }
}

impl Default for StringIdentity {
    /// The default value is the empty value.
    fn default() -> (r: StringIdentity)
        ensures
            r@ == Seq::<u8>::empty(),
            r.wf(),
    {
        StringIdentity::empty()
    }
}

impl Clone for StringIdentity {
    /// A clone is content-equal to its source.
    fn clone(&self) -> (r: StringIdentity)
        ensures
            r@ == self@,
    {
        let bytes = self.bytes.clone();
        proof {
            assert(bytes@ =~= self.bytes@);
        }
        StringIdentity { bytes }
    }
}

impl PartialEq for StringIdentity {
    /// Equality is structural over the content bytes.
    fn eq(&self, other: &StringIdentity) -> (r: bool) {
        let r = self.bytes == other.bytes;
        proof {
            if r {
                assert(self.bytes@ =~= other.bytes@);
            }
        }
        r
    }
}

impl Eq for StringIdentity {

}

impl vstd::std_specs::cmp::PartialEqSpecImpl for StringIdentity {
    open spec fn obeys_eq_spec() -> bool {
        true
    }

    open spec fn eq_spec(&self, other: &StringIdentity) -> bool {
        self@ == other@
    }
}

/// Conversion to a plain text value and back is the identity on content:
/// the plain copy carries exactly the identity's bytes, and because those
/// are already null-free, rebuilding an identity from it truncates nothing.
pub proof fn lemma_plain_round_trip(id: StringIdentity, p: PlainString, back: StringIdentity)
    requires
        id.wf(),
        p@ == id@,
        back@ == truncated(p@),
    ensures
        back@ == id@,
{
    lemma_truncated_of_null_free(id@);
}

} // verus!
