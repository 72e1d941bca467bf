//! Snapshot persistence: the round trip, crash recovery, and refusal of
//! damaged images.

use confetti_box::database::Mochibase;
use confetti_box::entry::MochiFile;
use confetti_box::mhash::MHash;
use confetti_box::mmid::Mmid;
use confetti_box::snapshot::{encode_db, snapshot_bytes, SnapshotError};

fn mmid(s: &str) -> Mmid {
    Mmid::try_from_str(s).expect("valid mmid")
}

fn entry(id: &str, name: &str, data: &[u8], upload: i64, expiry: i64) -> MochiFile {
    MochiFile::new(
        mmid(id),
        name.as_bytes().to_vec(),
        b"text/plain".to_vec(),
        MHash::of_bytes(&data.to_vec()),
        upload,
        expiry,
    )
}

fn sample_db() -> Mochibase {
    let mut db = Mochibase::new();
    assert!(db.insert(&mmid("aaaa0000"), entry("aaaa0000", "first.txt", b"alpha", -5, 100)));
    assert!(db.insert(&mmid("bbbb1111"), entry("bbbb1111", "second.txt", b"beta", 3, 7200)));
    // Two entries sharing a hash survive the round trip as two references.
    assert!(db.insert(&mmid("cccc2222"), entry("cccc2222", "third.txt", b"alpha", 4, 9000)));
    db
}

fn assert_same_entries(a: &Mochibase, b: &Mochibase) {
    let ea = a.entries();
    let eb = b.entries();
    assert_eq!(ea.len(), eb.len());
    for i in 0..ea.len() {
        assert_eq!(ea[i].mmid().as_bytes(), eb[i].mmid().as_bytes());
        assert_eq!(ea[i].name(), eb[i].name());
        assert_eq!(ea[i].mime_type(), eb[i].mime_type());
        assert_eq!(ea[i].hash().as_bytes(), eb[i].hash().as_bytes());
        assert_eq!(ea[i].upload(), eb[i].upload());
        assert_eq!(ea[i].expiry(), eb[i].expiry());
    }
}

#[test]
fn snapshot_reload_roundtrip() {
    let db = sample_db();
    let bytes = snapshot_bytes(&db).expect("image fits the framing");
    let reloaded = Mochibase::open(&bytes).expect("snapshot loads");
    assert_same_entries(&db, &reloaded);
    // The reference index is rebuilt consistently: the shared hash carries
    // both of its MMIDs again.
    let h = MHash::of_bytes(&b"alpha".to_vec());
    assert_eq!(reloaded.get_hash(&h).unwrap().len(), 2);
}

#[test]
fn empty_snapshot_roundtrip() {
    let db = Mochibase::new();
    let bytes = snapshot_bytes(&db).expect("image fits the framing");
    let reloaded = Mochibase::open(&bytes).expect("snapshot loads");
    assert_eq!(reloaded.len(), 0);
}

#[test]
fn reload_reflects_last_persisted_state() {
    // In-memory changes made after the snapshot are lost on reload, and the
    // loaded index is consistent on its own.
    let mut db = sample_db();
    let bytes = snapshot_bytes(&db).expect("image fits the framing");
    assert!(db.insert(&mmid("dddd3333"), entry("dddd3333", "late.txt", b"gamma", 8, 9999)));
    let reloaded = Mochibase::open(&bytes).expect("snapshot loads");
    assert_eq!(reloaded.len(), 3);
    assert!(reloaded.get(&mmid("dddd3333")).is_none());
    assert!(reloaded.get(&mmid("aaaa0000")).is_some());
}

#[test]
fn names_survive_as_raw_bytes() {
    // A file name need not be UTF-8; the snapshot carries it verbatim.
    let mut db = Mochibase::new();
    let raw_name: Vec<u8> = vec![0xff, 0xfe, 0x00, 0x41];
    let e = MochiFile::new(
        mmid("eeee4444"),
        raw_name.clone(),
        b"application/octet-stream".to_vec(),
        MHash::of_bytes(&b"payload".to_vec()),
        1,
        2,
    );
    assert!(db.insert(&mmid("eeee4444"), e));
    let packed = snapshot_bytes(&db).expect("image fits the framing");
    let reloaded = Mochibase::open(&packed).expect("snapshot loads");
    assert_eq!(reloaded.get(&mmid("eeee4444")).unwrap().name(), &raw_name);
}

#[test]
fn garbage_is_refused() {
    let garbage = b"not a snapshot at all".to_vec();
    assert!(matches!(Mochibase::open(&garbage), Err(SnapshotError::Corrupt)));
}

#[test]
fn truncated_snapshot_is_refused() {
    let db = sample_db();
    let mut bytes = snapshot_bytes(&db).expect("image fits the framing");
    bytes.truncate(bytes.len() - 1);
    assert!(matches!(Mochibase::open(&bytes), Err(SnapshotError::Corrupt)));
}

#[test]
fn snapshot_is_compressed_framing_of_the_image() {
    // The written bytes are not the raw image: the compressor framed them,
    // and only the framed form loads.
    let db = sample_db();
    let raw = encode_db(&db);
    let packed = snapshot_bytes(&db).expect("image fits the framing");
    assert_ne!(raw, packed);
    assert!(matches!(Mochibase::open(&raw), Err(SnapshotError::Corrupt)));
    assert!(Mochibase::open(&packed).is_ok());
}
