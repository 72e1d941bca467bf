//! The metadata index: insertion, removal, reference counting, and MMID
//! validation.

use confetti_box::database::Mochibase;
use confetti_box::entry::MochiFile;
use confetti_box::mhash::MHash;
use confetti_box::mmid::Mmid;

fn mmid(s: &str) -> Mmid {
    Mmid::try_from_str(s).expect("valid mmid")
}

fn hash_of(data: &[u8]) -> MHash {
    MHash::of_bytes(&data.to_vec())
}

fn entry(id: &str, name: &str, data: &[u8], upload: i64, expiry: i64) -> MochiFile {
    MochiFile::new(
        mmid(id),
        name.as_bytes().to_vec(),
        b"application/octet-stream".to_vec(),
        hash_of(data),
        upload,
        expiry,
    )
}

#[test]
fn insert_and_get() {
    let mut db = Mochibase::new();
    let e = entry("abcd1234", "a.txt", b"hello", 0, 100);
    assert!(db.insert(&mmid("abcd1234"), e));
    let got = db.get(&mmid("abcd1234")).expect("entry present");
    assert_eq!(got.name(), &b"a.txt".to_vec());
    assert_eq!(got.expiry(), 100);
    assert_eq!(got.upload(), 0);
    assert!(db.get(&mmid("zzzz9999")).is_none());
}

#[test]
fn insert_duplicate_mmid_fails() {
    let mut db = Mochibase::new();
    assert!(db.insert(&mmid("abcd1234"), entry("abcd1234", "a", b"x", 0, 10)));
    assert!(!db.insert(&mmid("abcd1234"), entry("abcd1234", "b", b"y", 0, 20)));
    // The refused insert changed nothing.
    assert_eq!(db.get(&mmid("abcd1234")).unwrap().name(), &b"a".to_vec());
}

#[test]
fn shared_hash_collects_both_mmids() {
    let mut db = Mochibase::new();
    let h = hash_of(b"same-bytes");
    assert!(db.insert(&mmid("aaaa0000"), entry("aaaa0000", "one", b"same-bytes", 0, 60)));
    assert!(db.insert(&mmid("bbbb1111"), entry("bbbb1111", "two", b"same-bytes", 1, 3600)));
    let refs = db.get_hash(&h).expect("hash tracked");
    assert_eq!(refs.len(), 2);
    assert_eq!(db.is_hash_empty(&h), Some(false));
    assert!(!db.is_last_reference(&h));
}

#[test]
fn remove_mmid_drops_hash_only_when_last() {
    let mut db = Mochibase::new();
    let h = hash_of(b"shared");
    assert!(db.insert(&mmid("aaaa0000"), entry("aaaa0000", "one", b"shared", 0, 60)));
    assert!(db.insert(&mmid("bbbb1111"), entry("bbbb1111", "two", b"shared", 0, 3600)));
    assert!(db.remove_mmid(&mmid("aaaa0000")));
    // The sibling still references the hash.
    assert!(db.get_hash(&h).is_some());
    assert!(!db.is_last_reference(&h));
    assert!(db.get(&mmid("aaaa0000")).is_none());
    assert!(db.remove_mmid(&mmid("bbbb1111")));
    // The reference set became empty and disappeared.
    assert!(db.get_hash(&h).is_none());
    assert!(db.is_last_reference(&h));
    // Removing again reports absence.
    assert!(!db.remove_mmid(&mmid("bbbb1111")));
}

#[test]
fn remove_hash_refuses_while_referenced() {
    let mut db = Mochibase::new();
    let h = hash_of(b"blob");
    assert!(db.insert(&mmid("cccc2222"), entry("cccc2222", "n", b"blob", 0, 60)));
    assert_eq!(db.remove_hash(&h), Some(false));
    assert_eq!(db.remove_hash(&hash_of(b"unknown")), None);
}

#[test]
fn entries_lists_everything() {
    let mut db = Mochibase::new();
    assert_eq!(db.len(), 0);
    assert!(db.insert(&mmid("aaaa0000"), entry("aaaa0000", "one", b"1", 0, 60)));
    assert!(db.insert(&mmid("bbbb1111"), entry("bbbb1111", "two", b"2", 0, 60)));
    assert_eq!(db.len(), 2);
    assert_eq!(db.entries().len(), 2);
}

#[test]
fn mmid_validation() {
    // Too short.
    assert!(Mmid::try_from_str("abc").is_none());
    // Right length, bad character.
    assert!(Mmid::try_from_str("ABCDEFG!").is_none());
    // Too long.
    assert!(Mmid::try_from_str("abcdefghi").is_none());
    // Multi-byte characters are refused even when the byte count is eight.
    assert!(Mmid::try_from_str("éééé").is_none());
    // A well-formed identifier is accepted verbatim.
    let m = Mmid::try_from_str("xNLF6ogx").expect("valid");
    assert_eq!(m.as_bytes(), &b"xNLF6ogx".to_vec());
}

#[test]
fn generated_mmids_are_well_formed() {
    for _ in 0..200 {
        let m = Mmid::new_random();
        let bytes = m.as_bytes();
        assert_eq!(bytes.len(), 8);
        assert!(bytes.iter().all(|b| b.is_ascii_alphanumeric()));
    }
}

#[test]
fn mmid_equality_is_by_content() {
    assert!(mmid("abcd1234") == mmid("abcd1234"));
    assert!(mmid("abcd1234") != mmid("abcd1235"));
}
