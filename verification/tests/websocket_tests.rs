//! The streaming upload protocol: progress frames, end-of-stream promotion,
//! and overrun handling.

use confetti_box::blobstore::BlobStore;
use confetti_box::chunkbase::Chunkbase;
use confetti_box::database::Mochibase;
use confetti_box::settings::Settings;
use confetti_box::upload::chunked_upload_finish;
use confetti_box::websocket::{websocket_frame, websocket_upload_start, WsFrameAction};

fn start_ok(cb: &mut Chunkbase, s: &Settings, name: &[u8], size: u64, duration: i64) -> u128 {
    match websocket_upload_start(cb, s, name.to_vec(), size, duration, 0) {
        Ok(u) => u,
        Err(r) => panic!("{}", r.message),
    }
}

fn open_settings() -> Settings {
    let mut s = Settings::default();
    s.duration.restrict_to_allowed = false;
    s.max_filesize = 100000;
    s
}

#[test]
fn websocket_progress_frames() {
    let mut db = Mochibase::new();
    let mut cb = Chunkbase::new();
    let mut bs = BlobStore::new();
    let s = open_settings();
    let uuid = start_ok(&mut cb, &s, b"stream.bin", 5000, 60);
    // Two thousand bytes: the progress frame counts them.
    match websocket_frame(&mut cb, &s, uuid, &vec![1u8; 2000], 0) {
        WsFrameAction::Progress(p) => assert_eq!(p, 2000u64.to_le_bytes().to_vec()),
        _ => panic!("expected progress"),
    }
    // Three thousand more reach the declared size exactly.
    match websocket_frame(&mut cb, &s, uuid, &vec![2u8; 3000], 0) {
        WsFrameAction::Progress(p) => assert_eq!(p, 5000u64.to_le_bytes().to_vec()),
        _ => panic!("expected progress"),
    }
    // The empty frame ends the stream; promotion yields the entry.
    match websocket_frame(&mut cb, &s, uuid, &vec![], 0) {
        WsFrameAction::Finish => {},
        _ => panic!("expected finish"),
    }
    let entry = chunked_upload_finish(&mut db, &mut cb, &mut bs, uuid, 0).expect("finished");
    let mut body = vec![1u8; 2000];
    body.extend_from_slice(&vec![2u8; 3000]);
    assert_eq!(entry.hash().as_bytes().as_slice(), blake3::hash(&body).as_bytes());
    assert_eq!(entry.name(), &b"stream.bin".to_vec());
}

#[test]
fn websocket_overrun_discards_upload() {
    let mut cb = Chunkbase::new();
    let s = open_settings();
    let uuid = start_ok(&mut cb, &s, b"tiny", 5, 60);
    match websocket_frame(&mut cb, &s, uuid, &vec![1u8; 6], 0) {
        WsFrameAction::Abort => {},
        _ => panic!("expected abort"),
    }
    // The staged upload is gone: a further frame aborts as unknown.
    match websocket_frame(&mut cb, &s, uuid, &vec![1u8; 1], 0) {
        WsFrameAction::Abort => {},
        _ => panic!("expected abort"),
    }
    assert!(cb.get_file(uuid).is_none());
}

#[test]
fn websocket_upload_reaped_mid_stream_aborts() {
    let mut cb = Chunkbase::new();
    let s = open_settings();
    let uuid = start_ok(&mut cb, &s, b"slow", 100, 60);
    match websocket_frame(&mut cb, &s, uuid, &vec![1u8; 10], 0) {
        WsFrameAction::Progress(_) => {},
        _ => panic!("expected progress"),
    }
    // The reaper times the upload out between frames.
    cb.delete_timed_out(1000);
    match websocket_frame(&mut cb, &s, uuid, &vec![1u8; 10], 1000) {
        WsFrameAction::Abort => {},
        _ => panic!("expected abort"),
    }
}

#[test]
fn websocket_start_validates_like_chunked_start() {
    let mut cb = Chunkbase::new();
    let s = open_settings();
    let refused = websocket_upload_start(&mut cb, &s, b"big".to_vec(), s.max_filesize + 1, 60, 0);
    match refused {
        Err(resp) => assert_eq!(resp.message, "File too large"),
        Ok(_) => panic!("expected refusal"),
    }
}

#[test]
fn websocket_frame_reaching_exact_size_then_finish() {
    let mut db = Mochibase::new();
    let mut cb = Chunkbase::new();
    let mut bs = BlobStore::new();
    let s = open_settings();
    let uuid = start_ok(&mut cb, &s, b"exact", 3, 60);
    match websocket_frame(&mut cb, &s, uuid, &b"abc".to_vec(), 0) {
        WsFrameAction::Progress(p) => assert_eq!(p, 3u64.to_le_bytes().to_vec()),
        _ => panic!("expected progress"),
    }
    match websocket_frame(&mut cb, &s, uuid, &vec![], 0) {
        WsFrameAction::Finish => {},
        _ => panic!("expected finish"),
    }
    let entry = chunked_upload_finish(&mut db, &mut cb, &mut bs, uuid, 0).expect("finished");
    assert_eq!(entry.hash().as_bytes().as_slice(), blake3::hash(b"abc").as_bytes());
}
