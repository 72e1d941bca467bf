//! Read-side behavior: resolution by MMID and name, capability reporting,
//! MIME inference, and download headers.

use confetti_box::blobstore::BlobStore;
use confetti_box::chunkbase::{Chunkbase, ChunkedInfo};
use confetti_box::database::Mochibase;
use confetti_box::lookup::{
    content_disposition_attachment, file_info, lookup_mmid, lookup_mmid_name, lookup_mmid_noredir,
};
use confetti_box::settings::{server_info, Settings};
use confetti_box::upload::{chunked_upload_continue, chunked_upload_finish, chunked_upload_start};

fn open_settings() -> Settings {
    let mut s = Settings::default();
    s.duration.restrict_to_allowed = false;
    s
}

fn upload(
    db: &mut Mochibase,
    bs: &mut BlobStore,
    s: &Settings,
    name: &str,
    body: &[u8],
) -> confetti_box::entry::MochiFile {
    let mut cb = Chunkbase::new();
    let mut i = ChunkedInfo::default();
    i.name = name.as_bytes().to_vec();
    i.size = body.len() as u64;
    i.expire_duration = 60;
    let r = chunked_upload_start(&mut cb, s, i, 0);
    assert!(r.status);
    let uuid = r.uuid.unwrap();
    assert!(chunked_upload_continue(&mut cb, s, uuid, 0, &body.to_vec(), 0).is_ok());
    chunked_upload_finish(db, &mut cb, bs, uuid, 0).expect("finished")
}

#[test]
fn file_info_validates_the_mmid() {
    let mut db = Mochibase::new();
    let mut bs = BlobStore::new();
    let s = open_settings();
    let entry = upload(&mut db, &mut bs, &s, "x.bin", b"payload");
    // A malformed identifier resolves to nothing, whatever the index holds.
    assert!(file_info(&db, "abc").is_none());
    assert!(file_info(&db, "ABCDEFG!").is_none());
    // The published identifier resolves to its entry.
    let mmid_str = String::from_utf8(entry.mmid().as_bytes().clone()).unwrap();
    let got = file_info(&db, &mmid_str).expect("entry found");
    assert_eq!(got.name(), &b"x.bin".to_vec());
    assert_eq!(lookup_mmid(&db, &mmid_str).expect("redirect source").name(), &b"x.bin".to_vec());
    // A well-formed but unknown identifier also resolves to nothing.
    assert!(file_info(&db, "zzzzzzzz").is_none());
}

#[test]
fn lookup_by_name_requires_exact_match() {
    let mut db = Mochibase::new();
    let mut bs = BlobStore::new();
    let s = open_settings();
    let entry = upload(&mut db, &mut bs, &s, "名前.txt", b"named-bytes");
    let mmid_str = String::from_utf8(entry.mmid().as_bytes().clone()).unwrap();
    let (_, served) = lookup_mmid_name(&db, &bs, &mmid_str, &"名前.txt".as_bytes().to_vec())
        .expect("name matches");
    assert_eq!(served, b"named-bytes".to_vec());
    assert!(lookup_mmid_name(&db, &bs, &mmid_str, &b"other.txt".to_vec()).is_none());
}

#[test]
fn lookup_reports_missing_blob_as_absence() {
    let mut db = Mochibase::new();
    let mut bs = BlobStore::new();
    let s = open_settings();
    let entry = upload(&mut db, &mut bs, &s, "gone.bin", b"soon gone");
    // The blob disappears externally; resolution reports absence.
    bs.delete(entry.hash());
    let mmid_str = String::from_utf8(entry.mmid().as_bytes().clone()).unwrap();
    assert!(lookup_mmid_noredir(&db, &bs, &mmid_str).is_none());
    // The metadata itself is still there.
    assert!(file_info(&db, &mmid_str).is_some());
}

#[test]
fn mime_type_is_inferred_from_content() {
    let mut db = Mochibase::new();
    let mut bs = BlobStore::new();
    let s = open_settings();
    // A PNG signature, padded into a small body.
    let mut body = vec![0x89u8, 0x50, 0x4e, 0x47, 0x0d, 0x0a, 0x1a, 0x0a];
    body.extend_from_slice(&[0u8; 64]);
    let entry = upload(&mut db, &mut bs, &s, "pic", &body);
    let expected = file_format::FileFormat::from_bytes(&body).media_type().as_bytes().to_vec();
    assert_eq!(entry.mime_type(), &expected);
    assert_eq!(entry.mime_type(), &b"image/png".to_vec());
}

#[test]
fn server_info_reports_the_limits() {
    let s = Settings::default();
    let info = server_info(&s);
    assert_eq!(info.max_filesize, 1000000);
    assert_eq!(info.max_duration, 259200);
    assert_eq!(info.default_duration, 21600);
    assert_eq!(info.allowed_durations, vec![3600, 21600, 86400, 172800]);
}

#[test]
fn content_disposition_folds_and_encodes_the_name() {
    let name = "héllo wörld.txt";
    let got = content_disposition_attachment(name);
    let expected = format!(
        "attachment; filename=\"{}\"; filename*=UTF-8''{}",
        unidecode::unidecode(name),
        urlencoding::encode(name)
    );
    assert_eq!(got, expected);
    // The folded filename is plain ASCII, the starred one percent-encoded.
    assert!(got.contains("hello world.txt"));
    assert!(got.contains("h%C3%A9llo%20w%C3%B6rld.txt"));
}
