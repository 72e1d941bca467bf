//! The streaming upload protocol: one socket carries the whole file.  Each
//! binary frame is appended to the staged bytes and answered with a progress
//! message — the little-endian eight-byte count of bytes received so far.
//! An empty frame ends the stream; the upload is then promoted through
//! [`crate::upload::chunked_upload_finish`], so both protocols produce the
//! same final result.

use crate::bytes::{spec_sat_add, u64_le_bytes};
use crate::chunkbase::{Chunkbase, ChunkedInfo, InfoV, SlotV};
use crate::settings::Settings;
use crate::upload::{spec_start_failure_message, spec_upload_valid, ChunkedResponse, CHUNK_TIMEOUT_SECS};
use vstd::prelude::*;

verus! {

/// What the server does in answer to one incoming frame.
pub enum WsFrameAction {
    /// Bytes accepted: send this progress message back to the client.
    Progress(Vec<u8>),
    /// Empty frame: the stream is complete, promote the upload.
    Finish,
    /// The upload is gone or has overrun its declared size: close the
    /// socket abnormally; the staged upload is discarded.
    Abort,
}

/// Open a streaming upload.  Validation is the same as for a chunked start;
/// a refused request reports the first violated rule.
pub fn websocket_upload_start(
    cb: &mut Chunkbase,
    settings: &Settings,
    name: Vec<u8>,
    size: u64,
    duration: i64,
    now: i64,
) -> (r: Result<u128, ChunkedResponse>)
    requires
        old(cb).inv(),
    ensures
        final(cb).inv(),
        spec_upload_valid(settings, size, duration) && old(cb).s_chunks() == Map::<
            u128,
            SlotV,
        >::empty() ==> r is Ok,
        match r {
            Ok(u) => {
                &&& spec_upload_valid(settings, size, duration)
                &&& !old(cb).s_chunks().contains_key(u)
                &&& final(cb).s_chunks() == old(cb).s_chunks().insert(
                    u,
                    SlotV {
                        deadline: spec_sat_add(now, CHUNK_TIMEOUT_SECS),
                        info: InfoV {
                            name: name@,
                            size: size,
                            expire_duration: duration,
                            recieved_chunks: Set::empty(),
                            data: Seq::empty(),
                        },
                    },
                )
            },
            Err(resp) => {
                &&& resp.status == false
                &&& final(cb).s_chunks() == old(cb).s_chunks()
                &&& (!spec_upload_valid(settings, size, duration) ==> resp.message@
                    == spec_start_failure_message(settings, size, duration))
            },
        },
{
    let mut info = ChunkedInfo::default();
    info.name = name;
    info.size = size;
    info.expire_duration = duration;
    let r = crate::upload::chunked_upload_start(cb, settings, info, now);
    if r.status {
        match r.uuid {
            Some(u) => Ok(u),
            None => Err(ChunkedResponse::failure("Could not register upload")),
        }
    } else {
        Err(r)
    }
}

/// Handle one frame of a streaming upload.  An empty frame completes the
/// stream; bytes that would push the total past the declared size or the
/// configured maximum abort the upload and discard it; otherwise the bytes
/// are appended, the deadline refreshed, and the new total reported.
pub fn websocket_frame(
    cb: &mut Chunkbase,
    settings: &Settings,
    uuid: u128,
    frame: &Vec<u8>,
    now: i64,
) -> (r: WsFrameAction)
    requires
        old(cb).inv(),
        settings.wf(),
    ensures
        final(cb).inv(),
        ({
            let present = old(cb).s_chunks().contains_key(uuid);
            let slot = old(cb).s_chunks()[uuid];
            let total = slot.info.data.len() + frame@.len();
            match r {
                WsFrameAction::Finish => {
                    &&& present
                    &&& frame@.len() == 0
                    &&& final(cb).s_chunks() == old(cb).s_chunks()
                },
                WsFrameAction::Abort => {
                    ||| (!present && final(cb).s_chunks() == old(cb).s_chunks())
                    ||| (present && frame@.len() > 0 && (total > slot.info.size || total
                        > settings.max_filesize) && final(cb).s_chunks() == old(
                        cb,
                    ).s_chunks().remove(uuid))
                },
                WsFrameAction::Progress(p) => {
                    &&& present
                    &&& frame@.len() > 0
                    &&& total <= slot.info.size
                    &&& total <= settings.max_filesize
                    &&& p@ == u64_le_bytes(total as u64)
                    &&& final(cb).s_chunks() == old(cb).s_chunks().insert(
                        uuid,
                        SlotV {
                            deadline: spec_sat_add(now, CHUNK_TIMEOUT_SECS),
                            info: InfoV { data: slot.info.data + frame@, ..slot.info },
                        },
                    )
                },
            }
        }),
{
    let (data_len, size) = match cb.get_file(uuid) {
        Some(slot) => (slot.info.data.len(), slot.info.size),
        None => {
            return WsFrameAction::Abort;
        },
    };
    if frame.len() == 0 {
        return WsFrameAction::Finish;
    }
    let total = match (data_len as u64).checked_add(frame.len() as u64) {
        Some(t) => t,
        None => {
            // More bytes than a `u64` can count certainly exceed the
            // configured maximum.
            cb.remove_file(uuid);
            return WsFrameAction::Abort;
        },
    };
    if total > size || total > settings.max_filesize {
        cb.remove_file(uuid);
        return WsFrameAction::Abort;
    }
    cb.append_data(uuid, frame);
    cb.extend_timeout(uuid, CHUNK_TIMEOUT_SECS, now);
    proof {
        let slot = old(cb).s_chunks()[uuid];
        assert(cb.s_chunks() =~= old(cb).s_chunks().insert(
            uuid,
            SlotV {
                deadline: spec_sat_add(now, CHUNK_TIMEOUT_SECS),
                info: InfoV { data: slot.info.data + frame@, ..slot.info },
            },
        ));
    }
    WsFrameAction::Progress(crate::bytes::u64_le_vec(total))
}

} // verus!
