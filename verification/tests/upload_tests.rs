//! The chunked upload protocol: validation bounds, chunk guards, promotion,
//! deduplication, and the reaper's dedup-aware garbage collection.

use confetti_box::blobstore::BlobStore;
use confetti_box::chunkbase::{Chunkbase, ChunkedInfo};
use confetti_box::database::Mochibase;
use confetti_box::lookup::{file_info, lookup_mmid_noredir};
use confetti_box::reaper::clean_database;
use confetti_box::settings::Settings;
use confetti_box::upload::{
    chunked_upload_continue, chunked_upload_finish, chunked_upload_start, validate_upload_request,
    UploadError,
};

fn open_settings() -> Settings {
    let mut s = Settings::default();
    s.duration.restrict_to_allowed = false;
    s
}

fn info(name: &str, size: u64, duration: i64) -> ChunkedInfo {
    let mut i = ChunkedInfo::default();
    i.name = name.as_bytes().to_vec();
    i.size = size;
    i.expire_duration = duration;
    i
}

fn start(cb: &mut Chunkbase, s: &Settings, name: &str, size: u64, duration: i64) -> u128 {
    let r = chunked_upload_start(cb, s, info(name, size, duration), 0);
    assert!(r.status, "{}", r.message);
    assert_eq!(r.chunk_size, Some(s.chunk_size));
    r.uuid.expect("uuid on success")
}

#[test]
fn validation_bounds_are_exact() {
    let s = open_settings();
    assert_eq!(validate_upload_request(&s, s.max_filesize, 60), Ok(()));
    assert_eq!(
        validate_upload_request(&s, s.max_filesize + 1, 60),
        Err(UploadError::FileLargerThanExpected)
    );
    assert_eq!(validate_upload_request(&s, 1, s.duration.maximum), Ok(()));
    assert_eq!(
        validate_upload_request(&s, 1, s.duration.maximum + 1),
        Err(UploadError::InvalidDuration)
    );
    assert_eq!(validate_upload_request(&s, 1, 0), Err(UploadError::InvalidDuration));
    let restricted = Settings::default();
    assert_eq!(validate_upload_request(&restricted, 1, 59), Err(UploadError::InvalidDuration));
    assert_eq!(validate_upload_request(&restricted, 1, restricted.duration.allowed[0]), Ok(()));
}

#[test]
fn upload_of_exactly_max_filesize_starts() {
    let mut cb = Chunkbase::new();
    let s = open_settings();
    let r = chunked_upload_start(&mut cb, &s, info("f", s.max_filesize, 60), 0);
    assert!(r.status);
}

#[test]
fn upload_one_byte_over_max_is_refused() {
    let mut cb = Chunkbase::new();
    let s = open_settings();
    let r = chunked_upload_start(&mut cb, &s, info("f", s.max_filesize + 1, 60), 0);
    assert!(!r.status);
    assert_eq!(r.message, "File too large");
    assert!(r.uuid.is_none());
}

#[test]
fn duration_exactly_maximum_is_accepted() {
    let mut cb = Chunkbase::new();
    let s = open_settings();
    let r = chunked_upload_start(&mut cb, &s, info("f", 10, s.duration.maximum), 0);
    assert!(r.status);
}

#[test]
fn duration_one_second_over_maximum_is_refused() {
    let mut cb = Chunkbase::new();
    let s = open_settings();
    let r = chunked_upload_start(&mut cb, &s, info("f", 10, s.duration.maximum + 1), 0);
    assert!(!r.status);
    assert_eq!(r.message, "Duration too large");
}

#[test]
fn duration_outside_allowed_list_is_refused() {
    let mut cb = Chunkbase::new();
    let s = Settings::default();
    assert!(s.duration.restrict_to_allowed);
    let r = chunked_upload_start(&mut cb, &s, info("f", 10, 59), 0);
    assert!(!r.status);
    assert_eq!(r.message, "Duration not allowed");
    let allowed = s.duration.allowed[0];
    let r2 = chunked_upload_start(&mut cb, &s, info("f", 10, allowed), 0);
    assert!(r2.status);
}

#[test]
fn empty_tail_chunk_is_refused() {
    let mut cb = Chunkbase::new();
    let mut s = open_settings();
    s.chunk_size = 10;
    let uuid = start(&mut cb, &s, "f", 10, 60);
    // Chunk index 1 starts exactly at the declared size.
    let r = chunked_upload_continue(&mut cb, &s, uuid, 1, &vec![], 0);
    assert_eq!(r, Err(UploadError::InvalidChunkOffset));
    // The violation was fatal: the upload is gone.
    let r2 = chunked_upload_continue(&mut cb, &s, uuid, 0, &vec![1], 0);
    assert_eq!(r2, Err(UploadError::UnknownUuid));
}

#[test]
fn overrun_rejection_removes_upload() {
    let mut cb = Chunkbase::new();
    let s = open_settings();
    let uuid = start(&mut cb, &s, "f", 10, 60);
    // Eleven bytes into a ten-byte file.
    let r = chunked_upload_continue(&mut cb, &s, uuid, 0, &vec![7u8; 11], 0);
    assert_eq!(r, Err(UploadError::FileLargerThanExpected));
    let r2 = chunked_upload_continue(&mut cb, &s, uuid, 0, &vec![7u8; 5], 0);
    assert_eq!(r2, Err(UploadError::UnknownUuid));
}

#[test]
fn oversized_chunk_body_is_refused() {
    let mut cb = Chunkbase::new();
    let mut s = open_settings();
    s.chunk_size = 4;
    let uuid = start(&mut cb, &s, "f", 100, 60);
    let r = chunked_upload_continue(&mut cb, &s, uuid, 0, &vec![1u8; 5], 0);
    assert_eq!(r, Err(UploadError::WroteTooMuch));
}

#[test]
fn repeated_chunk_index_is_refused() {
    let mut cb = Chunkbase::new();
    let mut s = open_settings();
    s.chunk_size = 4;
    let uuid = start(&mut cb, &s, "f", 100, 60);
    assert_eq!(chunked_upload_continue(&mut cb, &s, uuid, 0, &vec![1u8; 4], 0), Ok(()));
    let r = chunked_upload_continue(&mut cb, &s, uuid, 0, &vec![2u8; 4], 0);
    assert_eq!(r, Err(UploadError::ChunkAlreadyUploaded));
}

#[test]
fn finish_unknown_uuid() {
    let mut db = Mochibase::new();
    let mut cb = Chunkbase::new();
    let mut bs = BlobStore::new();
    let r = chunked_upload_finish(&mut db, &mut cb, &mut bs, 42, 0);
    assert_eq!(r.err(), Some(UploadError::UnknownUuid));
}

#[test]
fn finish_with_nonpositive_duration_fails() {
    let mut db = Mochibase::new();
    let mut cb = Chunkbase::new();
    let mut bs = BlobStore::new();
    let uuid = cb.new_file(info("f", 10, 0), 30, 0).expect("registered");
    let r = chunked_upload_finish(&mut db, &mut cb, &mut bs, uuid, 0);
    assert_eq!(r.err(), Some(UploadError::InvalidDuration));
}

#[test]
fn chunked_resume_out_of_order() {
    let mut db = Mochibase::new();
    let mut cb = Chunkbase::new();
    let mut bs = BlobStore::new();
    let mut s = open_settings();
    s.chunk_size = 1000;
    s.max_filesize = 20000;
    // Ten chunks of one thousand bytes, each filled with its own index.
    let total: Vec<u8> = (0..10u8).flat_map(|c| vec![c; 1000]).collect();
    let uuid = start(&mut cb, &s, "big.bin", 10000, 60);
    for c in [0u64, 2, 3, 5, 1, 4, 6, 7, 8, 9] {
        let chunk = vec![c as u8; 1000];
        assert_eq!(chunked_upload_continue(&mut cb, &s, uuid, c, &chunk, 0), Ok(()));
    }
    let entry = chunked_upload_finish(&mut db, &mut cb, &mut bs, uuid, 0).expect("finished");
    let expected = blake3::hash(&total);
    assert_eq!(entry.hash().as_bytes().as_slice(), expected.as_bytes());
    // The served bytes equal the original out-of-order upload.
    let mmid_str = String::from_utf8(entry.mmid().as_bytes().clone()).unwrap();
    let (_, served) = lookup_mmid_noredir(&db, &bs, &mmid_str).expect("served");
    assert_eq!(served, total);
}

#[test]
fn finishing_with_gaps_hashes_zero_filled_bytes() {
    let mut db = Mochibase::new();
    let mut cb = Chunkbase::new();
    let mut bs = BlobStore::new();
    let mut s = open_settings();
    s.chunk_size = 1000;
    let uuid = start(&mut cb, &s, "gappy", 3000, 60);
    // Only chunk 1 arrives; the gap before it reads as zero, and nothing
    // follows it.
    assert_eq!(chunked_upload_continue(&mut cb, &s, uuid, 1, &vec![9u8; 1000], 0), Ok(()));
    let entry = chunked_upload_finish(&mut db, &mut cb, &mut bs, uuid, 0).expect("finished");
    let mut expected_bytes = vec![0u8; 1000];
    expected_bytes.extend_from_slice(&[9u8; 1000]);
    let expected = blake3::hash(&expected_bytes);
    assert_eq!(entry.hash().as_bytes().as_slice(), expected.as_bytes());
}

#[test]
fn upload_finish_lookup_roundtrip() {
    let mut db = Mochibase::new();
    let mut cb = Chunkbase::new();
    let mut bs = BlobStore::new();
    let s = open_settings();
    let body = b"the quick brown fox".to_vec();
    let uuid = start(&mut cb, &s, "fox.txt", body.len() as u64, 60);
    assert_eq!(chunked_upload_continue(&mut cb, &s, uuid, 0, &body, 0), Ok(()));
    let entry = chunked_upload_finish(&mut db, &mut cb, &mut bs, uuid, 5).expect("finished");
    assert_eq!(entry.upload(), 5);
    assert_eq!(entry.expiry(), 65);
    assert_eq!(entry.name(), &b"fox.txt".to_vec());
    // The returned hash equals an independent hash of the client bytes.
    assert_eq!(entry.hash().as_bytes().as_slice(), blake3::hash(&body).as_bytes());
    // The returned bytes equal the uploaded bytes.
    let mmid_str = String::from_utf8(entry.mmid().as_bytes().clone()).unwrap();
    let (got, served) = lookup_mmid_noredir(&db, &bs, &mmid_str).expect("served");
    assert_eq!(served, body);
    assert_eq!(got.hash().as_bytes(), entry.hash().as_bytes());
}

fn upload_bytes(
    db: &mut Mochibase,
    cb: &mut Chunkbase,
    bs: &mut BlobStore,
    s: &Settings,
    name: &str,
    body: &[u8],
    duration: i64,
    now: i64,
) -> confetti_box::entry::MochiFile {
    let r = chunked_upload_start(cb, s, info(name, body.len() as u64, duration), now);
    assert!(r.status, "{}", r.message);
    let uuid = r.uuid.unwrap();
    assert_eq!(chunked_upload_continue(cb, s, uuid, 0, &body.to_vec(), now), Ok(()));
    chunked_upload_finish(db, cb, bs, uuid, now).expect("finished")
}

#[test]
fn dedup_and_independent_expiries() {
    let mut db = Mochibase::new();
    let mut cb = Chunkbase::new();
    let mut bs = BlobStore::new();
    let s = open_settings();
    // Upload "hello\n" with a 60 s lifetime, then the same bytes again with
    // an hour.
    let a = upload_bytes(&mut db, &mut cb, &mut bs, &s, "a.txt", b"hello\n", 60, 0);
    let b = upload_bytes(&mut db, &mut cb, &mut bs, &s, "b.txt", b"hello\n", 3600, 0);
    assert_ne!(a.mmid().as_bytes(), b.mmid().as_bytes());
    assert_eq!(a.hash().as_bytes(), b.hash().as_bytes());
    // Both entries point at one stored blob.
    assert_eq!(db.get_hash(a.hash()).unwrap().len(), 2);
    // After 61 s the first entry expires; the blob still serves the second.
    clean_database(&mut db, &mut bs, 61);
    let a_str = String::from_utf8(a.mmid().as_bytes().clone()).unwrap();
    let b_str = String::from_utf8(b.mmid().as_bytes().clone()).unwrap();
    assert!(file_info(&db, &a_str).is_none());
    let (_, served) = lookup_mmid_noredir(&db, &bs, &b_str).expect("blob survives");
    assert_eq!(served, b"hello\n".to_vec());
    // After the second expiry the entry and the blob are both gone.
    clean_database(&mut db, &mut bs, 3601);
    assert!(file_info(&db, &b_str).is_none());
    assert!(lookup_mmid_noredir(&db, &bs, &b_str).is_none());
    assert!(bs.open(a.hash()).is_none());
}

#[test]
fn reaper_keeps_unexpired_entries_untouched() {
    let mut db = Mochibase::new();
    let mut cb = Chunkbase::new();
    let mut bs = BlobStore::new();
    let s = open_settings();
    let keep = upload_bytes(&mut db, &mut cb, &mut bs, &s, "keep", b"keep-these", 3600, 0);
    let drop_ = upload_bytes(&mut db, &mut cb, &mut bs, &s, "drop", b"drop-these", 60, 0);
    clean_database(&mut db, &mut bs, 100);
    assert!(db.get(keep.mmid()).is_some());
    assert!(db.get(drop_.mmid()).is_none());
    assert!(bs.open(keep.hash()).is_some());
    assert!(bs.open(drop_.hash()).is_none());
}

#[test]
fn stale_uploads_time_out() {
    let mut cb = Chunkbase::new();
    let s = open_settings();
    let uuid = start(&mut cb, &s, "slow", 10, 60);
    // The deadline sits thirty seconds after the start.
    cb.delete_timed_out(29);
    assert!(cb.get_file(uuid).is_some());
    cb.delete_timed_out(30);
    assert!(cb.get_file(uuid).is_none());
}
