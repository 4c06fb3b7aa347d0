//! A mutable, growable text value.
//!
//! [`PlainString`] holds bytes exactly as given — unlike an identity value
//! it may contain null bytes. The null-truncation rule applies only when an
//! identity value is constructed from it.

use vstd::prelude::*;

verus! {

/// A growable text value, freely convertible to and from an identity value
/// by content.
#[derive(Debug, Hash)]
pub struct PlainString {
    bytes: Vec<u8>,
}

impl View for PlainString {
    type V = Seq<u8>;

    closed spec fn view(&self) -> Seq<u8> {
        self.bytes@
    }
}

impl PlainString {
    /// The empty text value.
    pub fn new() -> (r: PlainString)
        ensures
            r@ == Seq::<u8>::empty(),
    {
        PlainString { bytes: Vec::new() }
    }

    /// Copies the given bytes verbatim, null bytes included.
    pub fn from_bytes(b: &[u8]) -> (r: PlainString)
        ensures
            r@ == b@,
    {
        let mut bytes: Vec<u8> = Vec::new();
        bytes.extend_from_slice(b);
        proof {
            assert(bytes@ =~= b@);
        }
        PlainString { bytes }
    }

    /// Number of content bytes.
    pub fn len(&self) -> (r: usize)
        ensures
            r == self@.len(),
    {
        self.bytes.len()
    }

    /// Whether the value holds no bytes at all.
    pub fn is_empty(&self) -> (r: bool)
        ensures
            r == (self@.len() == 0),
    {
        self.bytes.is_empty()
    }

    /// Read access to the content bytes.
    pub fn as_bytes(&self) -> (r: &[u8])
        ensures
            r@ == self@,
    {
        self.bytes.as_slice()
    }

    /// Appends one byte at the end.
    pub fn push_byte(&mut self, b: u8)
        ensures
            final(self)@ == old(self)@.push(b),
    {
        self.bytes.push(b);
    }

    /// Appends the given bytes at the end.
    pub fn append_bytes(&mut self, b: &[u8])
        ensures
            final(self)@ == old(self)@ + b@,
    {
        self.bytes.extend_from_slice(b);
        proof {
            assert(self.bytes@ =~= old(self)@ + b@);
        }
    }
}

impl Default for PlainString {
    /// The default value is the empty text value.
    fn default() -> (r: PlainString)
        ensures
            r@ == Seq::<u8>::empty(),
    {
        PlainString::new()
    }
}

impl Clone for PlainString {
    /// A clone holds exactly the content of its source.
    fn clone(&self) -> (r: PlainString)
        ensures
            r@ == self@,
    {
        let bytes = self.bytes.clone();
        proof {
            assert(bytes@ =~= self.bytes@);
        }
        PlainString { bytes }
    }
}

impl PartialEq for PlainString {
    /// Equality is structural over the content bytes.
    fn eq(&self, other: &PlainString) -> (r: bool) {
        let r = self.bytes == other.bytes;
        proof {
            if r {
                assert(self.bytes@ =~= other.bytes@);
            }
        }
        r
    }
}

impl Eq for PlainString {

}

impl vstd::std_specs::cmp::PartialEqSpecImpl for PlainString {
    open spec fn obeys_eq_spec() -> bool {
        true
    }

    open spec fn eq_spec(&self, other: &PlainString) -> bool {
        self@ == other@
    }
}

} // verus!
