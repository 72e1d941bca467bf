//! Database entries: the durable metadata record for one uploaded file.

use crate::mhash::MHash;
use crate::mmid::{clone_bytes, Mmid};
use vstd::prelude::*;

verus! {

/// Mathematical image of a [`MochiFile`]: every field as a plain value.
pub struct EntryV {
    pub mmid: Seq<u8>,
    pub name: Seq<u8>,
    pub mime_type: Seq<u8>,
    pub hash: Seq<u8>,
    pub upload_datetime: i64,
    pub expiry_datetime: i64,
}

/// An entry in the database storing metadata about a file.  Timestamps are
/// UTC seconds since the Unix epoch; the name and the MIME type are kept as
/// raw UTF-8 bytes.
pub struct MochiFile {
    /// A unique identifier describing this file.
    mmid: Mmid,
    /// The original name of the file.
    name: Vec<u8>,
    /// The MIME type of the file, inferred from its content.
    mime_type: Vec<u8>,
    /// The content hash of the stored blob.
    hash: MHash,
    /// When the file was uploaded.
    upload_datetime: i64,
    /// When the file is set to expire.
    expiry_datetime: i64,
}

impl View for MochiFile {
    type V = EntryV;

    closed spec fn view(&self) -> EntryV {
        EntryV {
            mmid: self.mmid@,
            name: self.name@,
            mime_type: self.mime_type@,
            hash: self.hash@,
            upload_datetime: self.upload_datetime,
            expiry_datetime: self.expiry_datetime,
        }
    }
}

/// Well-formed entry image: a valid MMID, a 32-byte hash, and an expiry
/// strictly after the upload time.
pub open spec fn valid_entry(e: EntryV) -> bool {
    &&& crate::mmid::valid_mmid_bytes(e.mmid)
    &&& crate::mhash::valid_hash_bytes(e.hash)
    &&& e.upload_datetime < e.expiry_datetime
}

impl MochiFile {
    /// The entry is internally consistent.
    pub open spec fn wf(&self) -> bool {
        valid_entry(self@)
    }

    /// Create a new entry that expires at `expiry`.
    pub fn new(
        mmid: Mmid,
        name: Vec<u8>,
        mime_type: Vec<u8>,
        hash: MHash,
        upload: i64,
        expiry: i64,
    ) -> (r: MochiFile)
        requires
            mmid.wf(),
            hash.wf(),
            upload < expiry,
        ensures
            r@ == (EntryV {
                mmid: mmid@,
                name: name@,
                mime_type: mime_type@,
                hash: hash@,
                upload_datetime: upload,
                expiry_datetime: expiry,
            }),
            r.wf(),
    {
        MochiFile { mmid, name, mime_type, hash, upload_datetime: upload, expiry_datetime: expiry }
    }

    /// The original file name.
    pub fn name(&self) -> (r: &Vec<u8>)
        ensures
            r@ == self@.name,
    {
        &self.name
    }

    /// When the entry expires.
    pub fn expiry(&self) -> (r: i64)
        ensures
            r == self@.expiry_datetime,
    {
        self.expiry_datetime
    }

    /// When the entry was uploaded.
    pub fn upload(&self) -> (r: i64)
        ensures
            r == self@.upload_datetime,
    {
        self.upload_datetime
    }

    /// Whether the entry is expired at the instant `now`.
    pub fn is_expired_at(&self, now: i64) -> (r: bool)
        ensures
            r == (now > self@.expiry_datetime),
    {
        now > self.expiry_datetime
    }

    /// Whether the entry is expired at the current wall-clock instant.  The
    /// clock is an outside input; [`MochiFile::is_expired_at`] is the same
    /// decision with the instant under the caller's control.
    pub fn is_expired(&self) -> bool {
        let now = timestamp_now();
        self.is_expired_at(now)
    }

    /// The content hash of the stored blob.
    pub fn hash(&self) -> (r: &MHash)
        ensures
            r@ == self@.hash,
    {
        &self.hash
    }

    /// The entry's identifier.
    pub fn mmid(&self) -> (r: &Mmid)
        ensures
            r@ == self@.mmid,
    {
        &self.mmid
    }

    /// The MIME type inferred from the blob's content when the entry was
    /// created.
    pub fn mime_type(&self) -> (r: &Vec<u8>)
        ensures
            r@ == self@.mime_type,
    {
        &self.mime_type
    }
}

/// The name and MIME components of an entry's view are machine-bounded:
/// each is the view of a held vector.
pub proof fn lemma_entry_view_len(e: &MochiFile)
    ensures
        e@.name.len() <= usize::MAX,
        e@.mime_type.len() <= usize::MAX,
{
    assert(e.name.len() == e@.name.len());
    assert(e.mime_type.len() == e@.mime_type.len());
}

impl Clone for MochiFile {
    fn clone(&self) -> (r: Self)
        ensures
            r@ == self@,
    {
        MochiFile {
            mmid: self.mmid.clone(),
            name: clone_bytes(&self.name),
            mime_type: clone_bytes(&self.mime_type),
            hash: self.hash.clone(),
            upload_datetime: self.upload_datetime,
            expiry_datetime: self.expiry_datetime,
        }
    }
}

/// Relies on chrono's `Utc::now`: the current UTC time, reported as whole
/// seconds since the Unix epoch.  The clock is outside the program, so
/// nothing is promised of the value.
#[verifier::external_body]
pub fn timestamp_now() -> i64 {
    chrono::Utc::now().timestamp()
}

} // verus!
