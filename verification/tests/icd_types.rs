use anachro::icd::{str_contains, str_equal, ManagedString, Name, Path, PubSubPath, Uuid, Version};

#[test]
fn uuid_round_trip() {
    let bytes = [7u8; 16];
    let id = Uuid::from_bytes(bytes);
    assert_eq!(id.as_bytes(), &bytes);
    assert_eq!(id.as_slice(), &bytes[..]);
    let mut other = bytes;
    other[15] = 8;
    assert!(id.same_as(&Uuid::from_bytes(bytes)));
    assert!(!id.same_as(&Uuid::from_bytes(other)));
}

#[test]
fn topic_matching() {
    assert!(anachro::icd::matches("foo/bar/baz", "foo/bar/baz"));
    assert!(anachro::icd::matches("foo/+/baz", "foo/bar/baz"));
    assert!(anachro::icd::matches("foo/#", "foo/bar/baz"));
    assert!(anachro::icd::matches("#", "anything/at/all"));
    assert!(!anachro::icd::matches("foo/+", "foo/bar/baz"));
    assert!(!anachro::icd::matches("foo/bar", "foo/baz"));
    assert!(!anachro::icd::matches("foo/bar/baz", "foo/bar"));
    assert!(!anachro::icd::matches("", "foo"));
    assert!(!anachro::icd::matches("foo", ""));
    assert!(anachro::icd::matches("+/+", "a/b"));
}

#[test]
fn string_helpers() {
    assert!(str_equal("abc", "abc"));
    assert!(!str_equal("abc", "abd"));
    assert!(str_contains("a/#", '#'));
    assert!(!str_contains("a/b", '+'));
}

#[test]
fn managed_strings() {
    let p: Path = ManagedString::borrow_from_str("foo/bar");
    assert_eq!(p.as_str(), "foo/bar");
    let owned = p.try_to_owned().unwrap();
    assert!(matches!(owned, ManagedString::Owned(_)));
    assert_eq!(owned.as_str(), "foo/bar");
    let b = owned.as_borrowed();
    assert!(matches!(b, ManagedString::Borrow("foo/bar")));

    let long = "x".repeat(128);
    assert!(Path::try_from_str(&long).is_err());
    assert!(Path::try_from_str(&long[..127]).is_ok());

    let name: Result<Name, ()> = ManagedString::try_from_str("cool-board");
    assert_eq!(name.unwrap().as_str(), "cool-board");
    assert!(Name::try_from_str(&"n".repeat(33)).is_err());
}

#[test]
fn pubsub_path_duplicate() {
    let p = PubSubPath::Short(0x8001);
    assert_eq!(p.duplicate(), PubSubPath::Short(0x8001));
    let l = PubSubPath::Long(Path::borrow_from_str("a/b"));
    assert_eq!(l.duplicate(), l);
    let v = Version { major: 0, minor: 1, trivial: 0, misc: 123 };
    assert_eq!(v, Version { major: 0, minor: 1, trivial: 0, misc: 123 });
}
