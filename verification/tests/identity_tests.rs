use std::collections::HashSet;

use string_identity::InternTable;
use string_identity::PlainString;
use string_identity::SegmentedPath;
use string_identity::StringIdentity;

#[test]
fn string_identity_default() {
    let name = StringIdentity::default();
    let back = name.to_plain_string();

    assert_eq!(back, PlainString::new());
}

#[test]
fn string_identity_conversion() {
    let string = PlainString::from_bytes("some string".as_bytes());
    let name = StringIdentity::from_plain(&string);
    let back = name.to_plain_string();

    assert_eq!(string, back);
}

#[test]
fn string_identity_path_conversion() {
    let string = StringIdentity::from_bytes("some string".as_bytes());
    let name = SegmentedPath::from_identity(&string);
    let back = name.to_identity();

    assert_eq!(string, back);
}

#[test]
fn string_identity_to_plain() {
    let string_name = StringIdentity::from_bytes("test string".as_bytes());
    assert_eq!(
        string_name.to_plain_string(),
        PlainString::from_bytes("test string".as_bytes())
    );
}

#[test]
fn string_identity_to_path() {
    let string_name = StringIdentity::from_bytes("path/to/node".as_bytes());
    assert_eq!(
        string_name.to_segmented_path(),
        SegmentedPath::from_bytes("path/to/node".as_bytes())
    );
}

#[test]
fn string_identity_equality() {
    let string = StringIdentity::from_bytes("some string".as_bytes());
    let second = StringIdentity::from_bytes("some string".as_bytes());
    let different = StringIdentity::from_bytes("some".as_bytes());

    assert_eq!(string, second);
    assert_ne!(string, different);
}

#[test]
fn string_identity_transient_ord() {
    // The ordering is not promised to agree with any collation, so the test
    // only checks consistency between the operators.
    let low = StringIdentity::from_bytes("Alpha".as_bytes());
    let high = StringIdentity::from_bytes("Beta".as_bytes());

    let mut low = low.transient_ord();
    let mut high = high.transient_ord();

    if low > high {
        std::mem::swap(&mut low, &mut high);
    }

    assert!(low < high);
    assert!(low <= high);
    assert!(high > low);
    assert!(high >= low);

    assert!(low == low.clone());
    assert!(high == high.clone());
    assert!(!(low < low.clone()) && low <= low.clone() && low >= low.clone());
    assert!(low != high);

    // Exactly one strict-order relation holds between two values.
    assert!((low < high) as u8 + (low == high) as u8 + (low > high) as u8 == 1);
}

#[test]
fn string_identity_clone() {
    let first = StringIdentity::from_bytes("some string".as_bytes());
    let cloned = first.clone();

    assert_eq!(first, cloned);
}

#[test]
fn string_identity_hash() {
    let set: HashSet<StringIdentity> = [
        "string_1",
        "SECOND string! :D",
        "emoji time: 😎",
        r#"got/!()%)=!"/]}¡[$½{¥¡}@£symbol characters"#,
        "some garbageTƉ馧쟻�韂󥢛ꮛ૎ཾ̶D@/8ݚ򹾴-䌗򤷨񄣷8",
    ]
    .into_iter()
    .map(|s| StringIdentity::from_bytes(s.as_bytes()))
    .collect();
    assert_eq!(set.len(), 5);
}

#[test]
fn string_identity_length() {
    let string = "hello!";
    let name = StringIdentity::from_bytes(string.as_bytes());
    assert_eq!(name.len(), string.len());

    let empty = StringIdentity::default();
    assert_eq!(empty.len(), 0);
}

#[test]
fn string_identity_is_empty() {
    let name = StringIdentity::from_bytes("hello!".as_bytes());
    assert!(!name.is_empty());
    let empty = StringIdentity::default();
    assert!(empty.is_empty());
}

#[test]
fn string_identity_from_cstr() {
    // A null-terminated source loses exactly its terminator and whatever
    // would follow it.
    let cases: [(&[u8], &str); 3] = [
        (b"pure ASCII\t[~]\0", "pure ASCII\t[~]"),
        (b"\0", ""),
        (b"terminated\0junk", "terminated"),
    ];

    for (bytes, string) in cases.into_iter() {
        let a = StringIdentity::from_cstr_bytes(bytes);
        let b = StringIdentity::from_bytes(string.as_bytes());

        assert_eq!(a, b);
    }
}

#[test]
fn string_identity_interned() {
    let mut table = InternTable::new();

    let a = table.intern(b"pure ASCII\t[~]");
    let b = StringIdentity::from_bytes(b"pure ASCII\t[~]");
    assert_eq!(a, b);

    let a1 = a.clone();
    let a2 = table.intern(b"pure ASCII\t[~]");
    assert_eq!(a, a1);
    assert_eq!(a1, a2);
    assert_eq!(table.len(), 1);

    let c = table.intern(b"another name");
    assert_eq!(table.len(), 2);
    assert_ne!(a, c);

    // A source with a null byte interns as its truncated content.
    let d = table.intern(b"pure ASCII\t[~]\0tail");
    assert_eq!(d, a);
    assert_eq!(table.len(), 2);

    table.shutdown();
}

#[test]
fn string_identity_with_null() {
    // Bytes after a null byte are always ignored.
    let cases: &[(&str, &str)] = &[
        ("some random string", "some random string\0 with a null byte"),
        ("", "\0"),
    ];

    for (left, right) in cases.iter() {
        let left = StringIdentity::from_bytes(left.as_bytes());
        let right = StringIdentity::from_bytes(right.as_bytes());

        assert_eq!(left, right);
    }
}

#[test]
fn plain_string_growth() {
    let mut s = PlainString::new();
    assert!(s.is_empty());
    s.append_bytes(b"ab");
    s.push_byte(b'c');
    assert_eq!(s.len(), 3);
    assert_eq!(s, PlainString::from_bytes(b"abc"));

    // A plain string keeps null bytes; the identity built from it does not.
    s.push_byte(0);
    s.append_bytes(b"tail");
    assert_eq!(s.len(), 8);
    let id = StringIdentity::from_plain(&s);
    assert_eq!(id, StringIdentity::from_bytes(b"abc"));

    let back = id.to_plain_string();
    assert_eq!(back, PlainString::from_bytes(b"abc"));
}
