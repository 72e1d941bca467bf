//! The chunked upload protocol: request validation, positional chunk
//! acceptance with its protocol guards, and the promotion of a finished
//! staging buffer into a published entry.

use crate::blobstore::BlobStore;
use crate::bytes::{sat_add, spec_sat_add, spec_write_at};
use crate::chunkbase::{contains_u64, Chunkbase, ChunkedInfo, InfoV, SlotV};
use crate::database::Mochibase;
use crate::entry::{EntryV, MochiFile};
use crate::mhash::{digest_of, MHash};
use crate::mmid::{clone_bytes, Mmid};
use crate::settings::Settings;
use vstd::prelude::*;
use vstd::string::*;

verus! {

/// Seconds an upload may sit untouched before the reaper may drop it.
pub const CHUNK_TIMEOUT_SECS: i64 = 30;

/// How many fresh MMIDs are drawn before an insert gives up.
pub const MMID_ATTEMPTS: usize = 8;

/// Why an upload request or an individual chunk was refused.
#[derive(Debug, Clone, Copy, PartialEq, Eq, Structural)]
pub enum UploadError {
    /// No staged upload is registered under the given UUID.
    UnknownUuid,
    /// This chunk index has already been received.
    ChunkAlreadyUploaded,
    /// The chunk's start position lies at or past the declared size.
    InvalidChunkOffset,
    /// The chunk body holds more bytes than one chunk may carry.
    WroteTooMuch,
    /// The write would run past the declared size.
    FileLargerThanExpected,
    /// The requested lifetime cannot yield an expiry after the upload time.
    InvalidDuration,
    /// Every drawn MMID collided with an existing entry.
    MmidCollision,
}

/// A valid upload request: within the size bound, a lifetime no longer than
/// the maximum and of at least one second, and, where the configuration
/// restricts lifetimes, one of the offered values.
pub open spec fn spec_upload_valid(settings: &Settings, size: u64, duration: i64) -> bool {
    &&& size <= settings.max_filesize
    &&& (!settings.duration.restrict_to_allowed || settings.duration.spec_allows(duration))
    &&& duration <= settings.duration.maximum
    &&& duration >= 1
}

/// Check an upload request, reporting the first violated rule.
pub fn validate_upload_request(settings: &Settings, size: u64, duration: i64) -> (r: Result<
    (),
    UploadError,
>)
    ensures
        r is Ok <==> spec_upload_valid(settings, size, duration),
        r == Err::<(), UploadError>(UploadError::FileLargerThanExpected) <==> size
            > settings.max_filesize,
        r == Err::<(), UploadError>(UploadError::InvalidDuration) <==> size
            <= settings.max_filesize && ((settings.duration.restrict_to_allowed
            && !settings.duration.spec_allows(duration)) || duration > settings.duration.maximum
            || duration < 1),
{
    if size > settings.max_filesize {
        return Err(UploadError::FileLargerThanExpected);
    }
    if settings.duration.restrict_to_allowed && !settings.duration.allows(duration) {
        return Err(UploadError::InvalidDuration);
    }
    if duration > settings.duration.maximum {
        return Err(UploadError::InvalidDuration);
    }
    if duration < 1 {
        return Err(UploadError::InvalidDuration);
    }
    Ok(())
}

/// A response to the client from the chunked upload endpoints.
pub struct ChunkedResponse {
    pub status: bool,
    pub message: String,
    /// UUID used for associating the chunk with the final file.
    pub uuid: Option<u128>,
    /// Valid max chunk size in bytes.
    pub chunk_size: Option<u64>,
}

impl ChunkedResponse {
    /// A failed response carrying only a message.
    pub fn failure(message: &str) -> (r: ChunkedResponse)
        ensures
            r.status == false,
            r.message@ == message@,
            r.uuid is None,
            r.chunk_size is None,
    {
        ChunkedResponse {
            status: false,
            message: String::from_str(message),
            uuid: None,
            chunk_size: None,
        }
    }
}

/// The message a refused upload start carries: the first violated rule, in
/// the order the rules are checked.
pub open spec fn spec_start_failure_message(
    settings: &Settings,
    size: u64,
    duration: i64,
) -> Seq<char> {
    if size > settings.max_filesize {
        "File too large"@
    } else if settings.duration.restrict_to_allowed && !settings.duration.spec_allows(duration) {
        "Duration not allowed"@
    } else if duration > settings.duration.maximum {
        "Duration too large"@
    } else {
        "Duration not allowed"@
    }
}

/// Start a chunked upload.  On success the response carries the fresh UUID
/// and the chunk size to use; a refused request reports the first violated
/// rule and leaves the registry untouched.
pub fn chunked_upload_start(
    cb: &mut Chunkbase,
    settings: &Settings,
    info: ChunkedInfo,
    now: i64,
) -> (r: ChunkedResponse)
    requires
        old(cb).inv(),
    ensures
        final(cb).inv(),
        !spec_upload_valid(settings, info@.size, info@.expire_duration) ==> {
            &&& r.status == false
            &&& r.message@ == spec_start_failure_message(settings, info@.size, info@.expire_duration)
            &&& r.uuid is None
            &&& final(cb).s_chunks() == old(cb).s_chunks()
        },
        r.status ==> spec_upload_valid(settings, info@.size, info@.expire_duration),
        spec_upload_valid(settings, info@.size, info@.expire_duration) && old(cb).s_chunks()
            == Map::<u128, SlotV>::empty() ==> r.status && r.uuid is Some,
        spec_upload_valid(settings, info@.size, info@.expire_duration) ==> match r.uuid {
            Some(u) => {
                &&& r.status == true
                &&& r.chunk_size == Some(settings.chunk_size)
                &&& !old(cb).s_chunks().contains_key(u)
                &&& final(cb).s_chunks() == old(cb).s_chunks().insert(
                    u,
                    SlotV {
                        deadline: spec_sat_add(now, CHUNK_TIMEOUT_SECS),
                        info: InfoV {
                            name: info@.name,
                            size: info@.size,
                            expire_duration: info@.expire_duration,
                            recieved_chunks: Set::empty(),
                            data: Seq::empty(),
                        },
                    },
                )
            },
            None => r.status == false && final(cb).s_chunks() == old(cb).s_chunks(),
        },
{
    if info.size > settings.max_filesize {
        return ChunkedResponse::failure("File too large");
    }
    if settings.duration.restrict_to_allowed && !settings.duration.allows(info.expire_duration) {
        return ChunkedResponse::failure("Duration not allowed");
    }
    if info.expire_duration > settings.duration.maximum {
        return ChunkedResponse::failure("Duration too large");
    }
    if info.expire_duration < 1 {
        return ChunkedResponse::failure("Duration not allowed");
    }
    let chunk_size = settings.chunk_size;
    match cb.new_file(info, CHUNK_TIMEOUT_SECS, now) {
        Some(uuid) => ChunkedResponse {
            status: true,
            message: String::from_str(""),
            uuid: Some(uuid),
            chunk_size: Some(chunk_size),
        },
        None => ChunkedResponse::failure("Could not register upload"),
    }
}

/// Law: the lifetime boundary is exact.  A request for exactly the maximum
/// lifetime passes validation, one second more does not; and where the
/// allowed-durations restriction does not interfere, the refusal is
/// reported as the lifetime being too large.  With the contract of
/// [`chunked_upload_start`], the first request is never refused for
/// validation reasons, and the second is refused with that message and no
/// upload registered.
pub proof fn lemma_duration_boundary(settings: &Settings, size: u64)
    requires
        size <= settings.max_filesize,
        settings.duration.maximum >= 1,
        settings.duration.maximum < i64::MAX,
        !settings.duration.restrict_to_allowed || settings.duration.spec_allows(
            settings.duration.maximum,
        ),
    ensures
        spec_upload_valid(settings, size, settings.duration.maximum),
        !spec_upload_valid(settings, size, (settings.duration.maximum + 1) as i64),
        (!settings.duration.restrict_to_allowed || settings.duration.spec_allows(
            (settings.duration.maximum + 1) as i64,
        )) ==> spec_start_failure_message(settings, size, (settings.duration.maximum + 1) as i64)
            == "Duration too large"@,
{
}

/// Accept chunk `chunk` of an upload: `data` is written at byte position
/// `chunk * chunk_size` of the staging buffer.  Any protocol violation —
/// an unknown or repeated index, a start position at or past the declared
/// size, an oversized body, or a write that would run past the declared
/// size — is fatal: the upload and its staged bytes are dropped.  On
/// success the chunk index is recorded and the deadline refreshed.
pub fn chunked_upload_continue(
    cb: &mut Chunkbase,
    settings: &Settings,
    uuid: u128,
    chunk: u64,
    data: &Vec<u8>,
    now: i64,
) -> (r: Result<(), UploadError>)
    requires
        old(cb).inv(),
        settings.wf(),
    ensures
        final(cb).inv(),
        ({
            let present = old(cb).s_chunks().contains_key(uuid);
            let slot = old(cb).s_chunks()[uuid];
            let offset = chunk * settings.chunk_size;
            let dup = slot.info.recieved_chunks.contains(chunk);
            let too_far = offset >= slot.info.size;
            let too_big = data@.len() > settings.chunk_size;
            let overrun = offset + data@.len() > slot.info.size || offset + data@.len()
                > usize::MAX;
            match r {
                Ok(_) => {
                    &&& present
                    &&& !dup
                    &&& !too_far
                    &&& !too_big
                    &&& !overrun
                    &&& final(cb).s_chunks() == old(cb).s_chunks().insert(
                        uuid,
                        SlotV {
                            deadline: spec_sat_add(now, CHUNK_TIMEOUT_SECS),
                            info: InfoV {
                                recieved_chunks: slot.info.recieved_chunks.insert(chunk),
                                data: spec_write_at(slot.info.data, offset, data@),
                                ..slot.info
                            },
                        },
                    )
                },
                Err(UploadError::UnknownUuid) => !present && final(cb).s_chunks() == old(cb).s_chunks(),
                Err(UploadError::ChunkAlreadyUploaded) => present && dup && final(cb).s_chunks()
                    == old(cb).s_chunks().remove(uuid),
                Err(UploadError::InvalidChunkOffset) => present && !dup && too_far && final(cb).s_chunks() == old(cb).s_chunks().remove(uuid),
                Err(UploadError::WroteTooMuch) => present && !dup && !too_far && too_big && final(cb).s_chunks() == old(cb).s_chunks().remove(uuid),
                Err(UploadError::FileLargerThanExpected) => present && !dup && !too_far && !too_big
                    && overrun && final(cb).s_chunks() == old(cb).s_chunks().remove(uuid),
                Err(_) => false,
            }
        }),
{
    let (size, dup) = match cb.get_file(uuid) {
        Some(slot) => (slot.info.size, contains_u64(&slot.info.recieved_chunks, chunk)),
        None => {
            return Err(UploadError::UnknownUuid);
        },
    };
    if dup {
        cb.remove_file(uuid);
        return Err(UploadError::ChunkAlreadyUploaded);
    }
    let offset = match chunk.checked_mul(settings.chunk_size) {
        Some(o) => o,
        None => {
            // The mathematical offset exceeds what a `u64` holds, so it
            // certainly lies past the declared size.
            cb.remove_file(uuid);
            return Err(UploadError::InvalidChunkOffset);
        },
    };
    if offset >= size {
        cb.remove_file(uuid);
        return Err(UploadError::InvalidChunkOffset);
    }
    if data.len() as u64 > settings.chunk_size {
        cb.remove_file(uuid);
        return Err(UploadError::WroteTooMuch);
    }
    let end = match offset.checked_add(data.len() as u64) {
        Some(e) => e,
        None => {
            cb.remove_file(uuid);
            return Err(UploadError::FileLargerThanExpected);
        },
    };
    if end > size {
        cb.remove_file(uuid);
        return Err(UploadError::FileLargerThanExpected);
    }
    if end > usize::MAX as u64 {
        cb.remove_file(uuid);
        return Err(UploadError::FileLargerThanExpected);
    }
    cb.write_chunk_data(uuid, offset as usize, data);
    let ghost mid1 = cb.s_chunks();
    cb.add_recieved_chunk(uuid, chunk);
    cb.extend_timeout(uuid, CHUNK_TIMEOUT_SECS, now);
    proof {
        let slot = old(cb).s_chunks()[uuid];
        assert(mid1[uuid].info.recieved_chunks == slot.info.recieved_chunks);
        assert(cb.s_chunks() =~= old(cb).s_chunks().insert(
            uuid,
            SlotV {
                deadline: spec_sat_add(now, CHUNK_TIMEOUT_SECS),
                info: InfoV {
                    recieved_chunks: slot.info.recieved_chunks.insert(chunk),
                    data: spec_write_at(slot.info.data, offset as int, data@),
                    ..slot.info
                },
            },
        ));
    }
    Ok(())
}

/// A name for the MIME type that content inspection assigns to a byte
/// sequence: a pure function of the bytes.
pub uninterp spec fn media_type_of(bytes: Seq<u8>) -> Seq<u8>;

/// Relies on file_format's `FileFormat::from_bytes` and `media_type`: the
/// detected format, and hence the MIME string, is derived from the bytes
/// alone.
#[verifier::external_body]
fn infer_media_type(data: &Vec<u8>) -> (r: Vec<u8>)
    ensures
        r@ == media_type_of(data@),
{
    file_format::FileFormat::from_bytes(data.as_slice()).media_type().as_bytes().to_vec()
}

/// Law: a finalized upload keeps the index and the store consistent in
/// both directions — every reference has its blob, and every blob keeps a
/// reference.  The requires mirror what `chunked_upload_finish` ensures of
/// a successful promotion.
pub proof fn lemma_finish_preserves_consistency(
    db_pre: Mochibase,
    db_post: Mochibase,
    bs_pre: BlobStore,
    bs_post: BlobStore,
    h: Seq<u8>,
    m: Seq<u8>,
    data: Seq<u8>,
)
    requires
        crate::reaper::refs_covered(&db_pre, &bs_pre),
        crate::reaper::no_orphans(&db_pre, &bs_pre),
        db_post.s_refs() == db_pre.s_refs().insert(
            h,
            (if db_pre.s_refs().contains_key(h) {
                db_pre.s_refs()[h]
            } else {
                Set::empty()
            }).insert(m),
        ),
        bs_post.s_blobs() == (if bs_pre.s_blobs().contains_key(h) {
            bs_pre.s_blobs()
        } else {
            bs_pre.s_blobs().insert(h, data)
        }),
    ensures
        crate::reaper::refs_covered(&db_post, &bs_post),
        crate::reaper::no_orphans(&db_post, &bs_post),
{
    assert forall|x: Seq<u8>| #[trigger]
        db_post.s_refs().contains_key(x) implies bs_post.s_blobs().contains_key(x) by {
        if x != h {
            assert(db_pre.s_refs().contains_key(x));
            assert(bs_pre.s_blobs().contains_key(x));
        }
    }
    assert forall|x: Seq<u8>| #[trigger]
        bs_post.s_blobs().contains_key(x) implies db_post.s_refs().contains_key(x) by {
        if x != h {
            assert(bs_pre.s_blobs().contains_key(x));
            assert(db_pre.s_refs().contains_key(x));
        }
    }
}

/// Finalize an upload: the staged bytes are hashed, promoted into the blob
/// store — or dropped, if a blob with that hash already exists — and a new
/// entry is registered under a fresh MMID.  The upload leaves the staging
/// registry whatever the outcome.  Both upload protocols end here, so they
/// produce the same result.
pub fn chunked_upload_finish(
    db: &mut Mochibase,
    cb: &mut Chunkbase,
    bs: &mut BlobStore,
    uuid: u128,
    now: i64,
) -> (r: Result<MochiFile, UploadError>)
    requires
        old(db).inv(),
        old(cb).inv(),
        old(bs).inv(),
    ensures
        final(db).inv(),
        final(cb).inv(),
        final(bs).inv(),
        ({
            let present = old(cb).s_chunks().contains_key(uuid);
            let slot = old(cb).s_chunks()[uuid];
            let dur = slot.info.expire_duration;
            let expiry = spec_sat_add(now, dur);
            let h = digest_of(slot.info.data);
            let promoted_blobs = if old(bs).s_blobs().contains_key(h) {
                old(bs).s_blobs()
            } else {
                old(bs).s_blobs().insert(h, slot.info.data)
            };
            &&& (present && dur >= 1 && expiry > now && old(db).s_entries() == Map::<
                Seq<u8>,
                EntryV,
            >::empty() ==> r is Ok)
            &&& match r {
                Err(UploadError::UnknownUuid) => {
                    &&& !present
                    &&& final(db).s_entries() == old(db).s_entries()
                    &&& final(db).s_refs() == old(db).s_refs()
                    &&& final(cb).s_chunks() == old(cb).s_chunks()
                    &&& final(bs).s_blobs() == old(bs).s_blobs()
                },
                Err(UploadError::InvalidDuration) => {
                    &&& present
                    &&& (dur < 1 || expiry <= now)
                    &&& final(cb).s_chunks() == old(cb).s_chunks().remove(uuid)
                    &&& final(db).s_entries() == old(db).s_entries()
                    &&& final(db).s_refs() == old(db).s_refs()
                    &&& final(bs).s_blobs() == old(bs).s_blobs()
                },
                Ok(e) => {
                    &&& present
                    &&& dur >= 1
                    &&& expiry > now
                    &&& final(cb).s_chunks() == old(cb).s_chunks().remove(uuid)
                    &&& e@.hash == h
                    &&& e@.mime_type == media_type_of(slot.info.data)
                    &&& e@.name == slot.info.name
                    &&& e@.upload_datetime == now
                    &&& e@.expiry_datetime == expiry
                    &&& e.wf()
                    &&& !old(db).s_entries().contains_key(e@.mmid)
                    &&& final(db).s_entries() == old(db).s_entries().insert(e@.mmid, e@)
                    &&& final(db).s_refs() == old(db).s_refs().insert(
                        h,
                        (if old(db).s_refs().contains_key(h) {
                            old(db).s_refs()[h]
                        } else {
                            Set::empty()
                        }).insert(e@.mmid),
                    )
                    &&& final(bs).s_blobs() == promoted_blobs
                },
                Err(UploadError::MmidCollision) => {
                    &&& present
                    &&& dur >= 1
                    &&& expiry > now
                    &&& final(cb).s_chunks() == old(cb).s_chunks().remove(uuid)
                    &&& final(db).s_entries() == old(db).s_entries()
                    &&& final(db).s_refs() == old(db).s_refs()
                    &&& final(bs).s_blobs() == promoted_blobs
                },
                Err(_) => false,
            }
        }),
{
    let slot = match cb.take_file(uuid) {
        Some(s) => s,
        None => {
            return Err(UploadError::UnknownUuid);
        },
    };
    let dur = slot.info.expire_duration;
    if dur < 1 {
        return Err(UploadError::InvalidDuration);
    }
    let expiry = sat_add(now, dur);
    if expiry <= now {
        return Err(UploadError::InvalidDuration);
    }
    let hash = MHash::of_bytes(&slot.info.data);
    let mime = infer_media_type(&slot.info.data);
    let name = slot.info.name;
    let data = slot.info.data;
    let _ = bs.put_from_staged(data, &hash);
    let mut attempts: usize = 0;
    while attempts < MMID_ATTEMPTS
        invariant
            db.inv(),
            db.s_entries() == old(db).s_entries(),
            db.s_refs() == old(db).s_refs(),
            attempts == 0 || old(db).s_entries() != Map::<Seq<u8>, EntryV>::empty(),
            cb.inv(),
            cb.s_chunks() == old(cb).s_chunks().remove(uuid),
            bs.inv(),
            old(cb).s_chunks().contains_key(uuid),
            hash.wf(),
            hash@ == digest_of(old(cb).s_chunks()[uuid].info.data),
            mime@ == media_type_of(old(cb).s_chunks()[uuid].info.data),
            name@ == old(cb).s_chunks()[uuid].info.name,
            old(cb).s_chunks()[uuid].info.expire_duration >= 1,
            expiry == spec_sat_add(now, old(cb).s_chunks()[uuid].info.expire_duration),
            now < expiry,
            bs.s_blobs() == (if old(bs).s_blobs().contains_key(hash@) {
                old(bs).s_blobs()
            } else {
                old(bs).s_blobs().insert(hash@, old(cb).s_chunks()[uuid].info.data)
            }),
        decreases MMID_ATTEMPTS - attempts,
    {
        let mmid = Mmid::new_random();
        let entry = MochiFile::new(
            mmid.clone(),
            clone_bytes(&name),
            clone_bytes(&mime),
            hash.clone(),
            now,
            expiry,
        );
        if db.insert(&mmid, entry.clone()) {
            return Ok(entry);
        }
        proof {
            // A collision means the index holds that MMID, so it is not
            // empty.
            assert(db.s_entries().contains_key(mmid@));
            assert(!Map::<Seq<u8>, EntryV>::empty().contains_key(mmid@));
        }
        attempts = attempts + 1;
    }
    Err(UploadError::MmidCollision)
}

} // verus!
