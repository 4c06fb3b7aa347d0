use std::collections::HashSet;

use string_identity::PlainString;
use string_identity::SegmentedPath;
use string_identity::StringIdentity;

fn path(s: &str) -> SegmentedPath {
    SegmentedPath::from_bytes(s.as_bytes())
}

#[test]
fn segmented_path_default() {
    let name = SegmentedPath::default();
    let back = name.to_plain_string();

    assert_eq!(back, PlainString::new());
}

#[test]
fn segmented_path_conversion() {
    let string = PlainString::from_bytes("some string".as_bytes());
    let name = SegmentedPath::from_plain(&string);
    let back = name.to_plain_string();

    assert_eq!(string, back);
}

#[test]
fn segmented_path_to_plain() {
    let node_path = path("path/to/node");
    assert_eq!(
        node_path.to_plain_string(),
        PlainString::from_bytes("path/to/node".as_bytes())
    );
}

#[test]
fn segmented_path_to_identity() {
    let node_path = path("test string");
    assert_eq!(
        node_path.to_identity(),
        StringIdentity::from_bytes("test string".as_bytes())
    );
}

#[test]
fn segmented_path_equality() {
    let string = path("some string");
    let second = path("some string");
    let different = path("some");

    assert_eq!(string, second);
    assert_ne!(string, different);
}

#[test]
fn segmented_path_clone() {
    let first = path("some string");
    let cloned = first.clone();

    assert_eq!(first, cloned);
}

#[test]
fn segmented_path_hash() {
    let set: HashSet<SegmentedPath> = [
        "string_1",
        "SECOND string! :D",
        "emoji time: 😎",
        r#"got/!()%)=!"/]}¡[$½{¥¡}@£symbol characters"#,
        "some garbageTƉ馧쟻�韂󥢛ꮛ૎ཾ̶D@/8ݚ򹾴-䌗򤷨񄣷8",
    ]
    .into_iter()
    .map(path)
    .collect();
    assert_eq!(set.len(), 5);
}

#[test]
fn segmented_path_with_null() {
    // Bytes after a null byte are always ignored.
    let cases: &[(&str, &str)] = &[
        ("some random string", "some random string\0 with a null byte"),
        ("", "\0"),
    ];

    for (left, right) in cases.iter() {
        let left = path(left);
        let right = path(right);

        assert_eq!(left, right);
    }
}

#[test]
fn segmented_path_counts() {
    let p = path("path/to/Node:with:props");
    assert_eq!(p.name_count(), 3);
    assert_eq!(p.subname_count(), 2);

    let names_only = path("../RigidBody2D/Sprite2D");
    assert_eq!(names_only.name_count(), 3);
    assert_eq!(names_only.subname_count(), 0);

    let with_subnames = path("Sprite2D:texture:resource_name");
    assert_eq!(with_subnames.name_count(), 1);
    assert_eq!(with_subnames.subname_count(), 2);
}

#[test]
fn segmented_path_subpath() {
    let p = path("path/to/Node:with:props");
    let parts = p.name_count() + p.subname_count();
    assert_eq!(parts, 5);

    assert_eq!(p.subpath(0, 1), path("path"));
    assert_eq!(p.subpath(1, 2), path("to"));
    assert_eq!(p.subpath(2, 3), path("Node"));
    assert_eq!(p.subpath(3, 4), path(":with"));
    assert_eq!(p.subpath(4, 5), path(":props"));

    assert_eq!(p.subpath(1, -1), path("to/Node:with"));
    assert_eq!(p.subpath(1, parts as i64 - 1), path("to/Node:with"));
    assert_eq!(p.subpath(0, -2), path("path/to/Node"));
    assert_eq!(p.subpath(-3, -1), path("Node:with"));
    assert_eq!(p.subpath_from(-2), path(":with:props"));
    assert_eq!(p.subpath_from(-1), path(":props"));

    // The selected segments render with exactly the delimiters they had in
    // the full path.
    assert_eq!(
        p.subpath(1, -1).to_identity(),
        StringIdentity::from_bytes(b"to/Node:with")
    );
    assert_eq!(
        p.subpath_from(-2).to_identity(),
        StringIdentity::from_bytes(b":with:props")
    );
}

#[test]
fn segmented_path_get_name() {
    let p = path("../RigidBody2D/Sprite2D");
    assert_eq!(p.get_name(0), StringIdentity::from_bytes(b".."));
    assert_eq!(p.get_name_or_empty(0), StringIdentity::from_bytes(b".."));
    assert_eq!(
        p.get_name_or_empty(1),
        StringIdentity::from_bytes(b"RigidBody2D")
    );
    assert_eq!(
        p.get_name_or_empty(2),
        StringIdentity::from_bytes(b"Sprite2D")
    );

    // Out of bounds: the total form returns the documented empty sentinel.
    assert_eq!(p.get_name_or_empty(3), StringIdentity::empty());
}

#[test]
fn segmented_path_get_subname() {
    let p = path("Sprite2D:texture:resource_name");
    assert_eq!(p.get_subname(0), StringIdentity::from_bytes(b"texture"));
    assert_eq!(
        p.get_subname_or_empty(0),
        StringIdentity::from_bytes(b"texture")
    );
    assert_eq!(
        p.get_subname_or_empty(1),
        StringIdentity::from_bytes(b"resource_name")
    );

    // Out of bounds: the total form returns the documented empty sentinel.
    assert_eq!(p.get_subname_or_empty(2), StringIdentity::empty());
}

#[test]
fn segmented_path_round_trip_closure() {
    // Identity -> path -> identity and identity -> plain -> identity are
    // the identity on content.
    let cases = [
        "",
        "path/to/Node:with:props",
        "a//b",
        ":starts:with:subnames",
        "trailing/",
        "name:",
        "sub:with/slash",
    ];
    for s in cases.into_iter() {
        let id = StringIdentity::from_bytes(s.as_bytes());
        let through_path = id.to_segmented_path().to_identity();
        assert_eq!(through_path, id);

        let through_plain = StringIdentity::from_plain(&id.to_plain_string());
        assert_eq!(through_plain, id);
    }
}
