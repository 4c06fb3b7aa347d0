//! Interned, copy-on-write string-identity values.
//!
//! The crate models text as immutable, content-addressed values
//! ([`StringIdentity`]), freely convertible to a growable text value
//! ([`PlainString`]) and to a delimited path representation
//! ([`SegmentedPath`]). Construction from any source truncates the content
//! at the first null byte; equality and hashing are structural over the
//! remaining bytes.
//!
//! Beside the value types stands the decision core of the simulation
//! component adapter ([`adapter`]): the rules for refusing, accepting or
//! forwarding operations around a native runtime, on plain values, so that
//! the embedder's glue holds no logic of its own.

pub mod adapter;
pub mod content;
pub mod identity;
pub mod intern;
pub mod order;
pub mod path;
pub mod plain;

pub use content::null_free;
pub use content::truncated;
pub use identity::StringIdentity;
pub use intern::InternTable;
pub use order::TransientOrd;
pub use path::SegmentedPath;
pub use plain::PlainString;
