//! Read-side operations: resolve an MMID to its entry, open the blob behind
//! it, and build the download headers.

use crate::blobstore::BlobStore;
use crate::database::Mochibase;
use crate::entry::MochiFile;
use crate::mhash::MHash;
use crate::mmid::{eq_bytes, valid_mmid_bytes, Mmid};
use vstd::prelude::*;
use vstd::string::*;

verus! {

/// The entry a candidate identifier resolves to, if the identifier is well
/// formed and known: the `/info/<mmid>` decision.
pub fn file_info(db: &Mochibase, mmid: &str) -> (r: Option<MochiFile>)
    requires
        db.inv(),
    ensures
        match r {
            Some(e) => valid_mmid_bytes(mmid.spec_bytes()) && db.s_entries().contains_key(
                mmid.spec_bytes(),
            ) && e@ == db.s_entries()[mmid.spec_bytes()],
            None => !valid_mmid_bytes(mmid.spec_bytes()) || !db.s_entries().contains_key(
                mmid.spec_bytes(),
            ),
        },
{
    let m = match Mmid::try_from_str(mmid) {
        Some(m) => m,
        None => {
            return None;
        },
    };
    match db.get(&m) {
        Some(e) => Some(e.clone()),
        None => None,
    }
}

/// Resolve an MMID for the redirecting lookup: the entry is returned so the
/// caller can build the named location from its file name.
pub fn lookup_mmid(db: &Mochibase, mmid: &str) -> (r: Option<MochiFile>)
    requires
        db.inv(),
    ensures
        match r {
            Some(e) => valid_mmid_bytes(mmid.spec_bytes()) && db.s_entries().contains_key(
                mmid.spec_bytes(),
            ) && e@ == db.s_entries()[mmid.spec_bytes()],
            None => !valid_mmid_bytes(mmid.spec_bytes()) || !db.s_entries().contains_key(
                mmid.spec_bytes(),
            ),
        },
{
    file_info(db, mmid)
}

/// Resolve an MMID and open its blob: the non-redirecting download.  A
/// missing blob is reported as absence, exactly like an unknown MMID.
pub fn lookup_mmid_noredir(db: &Mochibase, bs: &BlobStore, mmid: &str) -> (r: Option<
    (MochiFile, Vec<u8>),
>)
    requires
        db.inv(),
        bs.inv(),
    ensures
        match r {
            Some(p) => {
                &&& valid_mmid_bytes(mmid.spec_bytes())
                &&& db.s_entries().contains_key(mmid.spec_bytes())
                &&& p.0@ == db.s_entries()[mmid.spec_bytes()]
                &&& bs.s_blobs().contains_key(p.0@.hash)
                &&& p.1@ == bs.s_blobs()[p.0@.hash]
            },
            None => !valid_mmid_bytes(mmid.spec_bytes()) || !db.s_entries().contains_key(
                mmid.spec_bytes(),
            ) || !bs.s_blobs().contains_key(db.s_entries()[mmid.spec_bytes()].hash),
        },
{
    let entry = match file_info(db, mmid) {
        Some(e) => e,
        None => {
            return None;
        },
    };
    match bs.open(entry.hash()) {
        Some(data) => {
            let bytes = crate::mmid::clone_bytes(data);
            Some((entry, bytes))
        },
        None => None,
    }
}

/// Resolve an MMID under its published name: the blob is served only when
/// the requested name matches the entry's name exactly.
pub fn lookup_mmid_name(db: &Mochibase, bs: &BlobStore, mmid: &str, name: &Vec<u8>) -> (r: Option<
    (MochiFile, Vec<u8>),
>)
    requires
        db.inv(),
        bs.inv(),
    ensures
        match r {
            Some(p) => {
                &&& valid_mmid_bytes(mmid.spec_bytes())
                &&& db.s_entries().contains_key(mmid.spec_bytes())
                &&& p.0@ == db.s_entries()[mmid.spec_bytes()]
                &&& p.0@.name == name@
                &&& bs.s_blobs().contains_key(p.0@.hash)
                &&& p.1@ == bs.s_blobs()[p.0@.hash]
            },
            None => !valid_mmid_bytes(mmid.spec_bytes()) || !db.s_entries().contains_key(
                mmid.spec_bytes(),
            ) || db.s_entries()[mmid.spec_bytes()].name != name@ || !bs.s_blobs().contains_key(
                db.s_entries()[mmid.spec_bytes()].hash,
            ),
        },
{
    let entry = match file_info(db, mmid) {
        Some(e) => e,
        None => {
            return None;
        },
    };
    if !eq_bytes(entry.name(), name) {
        return None;
    }
    match bs.open(entry.hash()) {
        Some(data) => {
            let bytes = crate::mmid::clone_bytes(data);
            Some((entry, bytes))
        },
        None => None,
    }
}

/// A name for the ASCII transliteration an attachment filename is folded
/// to: a pure function of the characters.
pub uninterp spec fn ascii_fold_of(s: Seq<char>) -> Seq<char>;

/// The byte stays verbatim under percent-encoding: an ASCII alphanumeric
/// or one of `-`, `.`, `_`, `~`.
pub open spec fn is_url_unreserved(b: u8) -> bool {
    &&& (crate::mmid::is_alphanumeric_byte(b) || b == 0x2d || b == 0x2e || b == 0x5f || b == 0x7e)
}

/// The uppercase hexadecimal digit character for a value below 16.
pub open spec fn spec_hex_upper(d: u8) -> char
    recommends
        d < 16,
{
    if d < 10 {
        ((0x30 + d) as u8) as char
    } else {
        ((0x41 + (d - 10)) as u8) as char
    }
}

/// The percent-encoding of one byte: kept verbatim when unreserved, else
/// `%` and two uppercase hexadecimal digits.
pub open spec fn spec_percent_byte(b: u8) -> Seq<char> {
    if is_url_unreserved(b) {
        seq![b as char]
    } else {
        seq!['%', spec_hex_upper(b >> 4), spec_hex_upper(b & 0xf)]
    }
}

/// The percent-encoding of a byte sequence, byte by byte.
pub open spec fn spec_percent_encoded(s: Seq<u8>) -> Seq<char>
    decreases s.len(),
{
    if s.len() == 0 {
        Seq::empty()
    } else {
        spec_percent_byte(s[0]) + spec_percent_encoded(s.drop_first())
    }
}

/// Every character of the sequence is ASCII.
pub open spec fn ascii_chars(s: Seq<char>) -> bool {
    forall|i: int| 0 <= i < s.len() ==> ((#[trigger] s[i]) as int) < 128
}

/// Relies on unidecode's `unidecode`: a transliteration into pure ASCII
/// that depends on the characters alone.
#[verifier::external_body]
fn ascii_fold(s: &str) -> (r: String)
    ensures
        r@ == ascii_fold_of(s@),
        ascii_chars(r@),
{
    unidecode::unidecode(s)
}

/// Relies on urlencoding's `encode`: every byte of the string's UTF-8
/// form is kept when unreserved and otherwise written as `%` and two
/// uppercase hexadecimal digits.
#[verifier::external_body]
fn percent_encode(s: &str) -> (r: String)
    ensures
        r@ == spec_percent_encoded(s.spec_bytes()),
{
    urlencoding::encode(s).to_string()
}

/// The `Content-Disposition` value for an attachment download: the plain
/// `filename` carries the ASCII-folded name, the extended `filename*` the
/// percent-encoded original.
pub fn content_disposition_attachment(name: &str) -> (r: String)
    ensures
        r@ == "attachment; filename=\""@ + ascii_fold_of(name@) + "\"; filename*=UTF-8''"@
            + spec_percent_encoded(name.spec_bytes()),
{
    let mut r = String::from_str("attachment; filename=\"");
    let folded = ascii_fold(name);
    r.append(folded.as_str());
    r.append("\"; filename*=UTF-8''");
    let encoded = percent_encode(name);
    r.append(encoded.as_str());
    r
}

} // verus!
