//! Durable snapshots of the metadata index.  Entries are laid out in a
//! fixed binary form — a version tag, then identifiers and hashes verbatim,
//! numbers little endian, names and MIME strings length-framed — and the
//! whole image is block-compressed.  Decoding an encoding gives the entries
//! back exactly; anything malformed, or of an unknown version, is refused,
//! so a damaged snapshot never loads and a future format can be told
//! apart.

use crate::bytes::{
    lemma_i64_u64_roundtrip, lemma_u64_le_roundtrip, push_u64_le, read_u64_le, subvec, u64_from_le,
    u64_le_bytes,
};
use crate::database::Mochibase;
use crate::entry::{valid_entry, EntryV, MochiFile};
use crate::mhash::MHash;
use crate::mmid::{clone_bytes, Mmid};
use vstd::prelude::*;

verus! {

/// The version tag this layout writes; a decoder refuses any other.
pub const SNAPSHOT_VERSION: u8 = 1;

/// Bytes of one encoded entry: MMID (8 raw), hash (32 raw), upload and
/// expiry times (8 little-endian bytes each, the two's-complement image of
/// the signed second count), then the length-framed name and MIME type.
pub open spec fn spec_encode_entry(e: EntryV) -> Seq<u8> {
    e.mmid + e.hash + u64_le_bytes(e.upload_datetime as u64) + u64_le_bytes(
        e.expiry_datetime as u64,
    ) + u64_le_bytes(e.name.len() as u64) + e.name + u64_le_bytes(e.mime_type.len() as u64)
        + e.mime_type
}

/// Bytes of a sequence of encoded entries, one after the other.
pub open spec fn spec_encode_entries(s: Seq<EntryV>) -> Seq<u8>
    decreases s.len(),
{
    if s.len() == 0 {
        Seq::empty()
    } else {
        spec_encode_entry(s[0]) + spec_encode_entries(s.drop_first())
    }
}

/// Bytes of a whole snapshot: the version tag, the entry count, then the
/// entries.
pub open spec fn spec_encode(s: Seq<EntryV>) -> Seq<u8> {
    seq![SNAPSHOT_VERSION] + u64_le_bytes(s.len() as u64) + spec_encode_entries(s)
}

/// Decode one entry from the front of `b`: the entry and the number of
/// bytes it occupied, or nothing if the bytes are malformed or the entry
/// they spell is not well formed.
pub open spec fn spec_decode_entry(b: Seq<u8>) -> Option<(EntryV, int)> {
    if b.len() < 64 {
        None
    } else {
        let name_len = u64_from_le(b.subrange(56, 64)) as int;
        if b.len() < 72 + name_len {
            None
        } else {
            let mime_len = u64_from_le(b.subrange(64 + name_len, 72 + name_len)) as int;
            if b.len() < 72 + name_len + mime_len {
                None
            } else {
                let e = EntryV {
                    mmid: b.subrange(0, 8),
                    hash: b.subrange(8, 40),
                    upload_datetime: u64_from_le(b.subrange(40, 48)) as i64,
                    expiry_datetime: u64_from_le(b.subrange(48, 56)) as i64,
                    name: b.subrange(64, 64 + name_len),
                    mime_type: b.subrange(72 + name_len, 72 + name_len + mime_len),
                };
                if valid_entry(e) {
                    Some((e, 72 + name_len + mime_len))
                } else {
                    None
                }
            }
        }
    }
}

/// Decode exactly `n` entries, insisting that they use up all of `b`.
pub open spec fn spec_decode_entries(b: Seq<u8>, n: int) -> Option<Seq<EntryV>>
    decreases n,
{
    if n <= 0 {
        if b.len() == 0 {
            Some(Seq::empty())
        } else {
            None
        }
    } else {
        match spec_decode_entry(b) {
            None => None,
            Some((e, used)) => match spec_decode_entries(b.skip(used), n - 1) {
                None => None,
                Some(rest) => Some(seq![e] + rest),
            },
        }
    }
}

/// Decode a whole snapshot image.
pub open spec fn spec_decode(b: Seq<u8>) -> Option<Seq<EntryV>> {
    if b.len() < 9 || b[0] != SNAPSHOT_VERSION {
        None
    } else {
        spec_decode_entries(b.skip(9), u64_from_le(b.subrange(1, 9)) as int)
    }
}

/// An entry that the snapshot format can carry faithfully: well formed,
/// with machine-bounded name and MIME type.
pub open spec fn encodable_entry(e: EntryV) -> bool {
    &&& valid_entry(e)
    &&& e.name.len() <= usize::MAX
    &&& e.mime_type.len() <= usize::MAX
}

/// Decoding the encoding of one entry, with anything appended, gives the
/// entry back and consumes exactly its bytes.
proof fn lemma_decode_encode_entry(e: EntryV, rest: Seq<u8>)
    requires
        encodable_entry(e),
    ensures
        spec_decode_entry(spec_encode_entry(e) + rest) == Some(
            (e, spec_encode_entry(e).len() as int),
        ),
{
    let enc = spec_encode_entry(e);
    let b = enc + rest;
    let nl = e.name.len() as int;
    let ml = e.mime_type.len() as int;
    assert(e.mmid.len() == 8);
    assert(e.hash.len() == 32);
    assert(enc.len() == 72 + nl + ml);
    lemma_u64_le_roundtrip(e.upload_datetime as u64);
    lemma_u64_le_roundtrip(e.expiry_datetime as u64);
    lemma_u64_le_roundtrip(e.name.len() as u64);
    lemma_u64_le_roundtrip(e.mime_type.len() as u64);
    lemma_i64_u64_roundtrip(e.upload_datetime);
    lemma_i64_u64_roundtrip(e.expiry_datetime);
    assert(b.subrange(0, 8) =~= e.mmid);
    assert(b.subrange(8, 40) =~= e.hash);
    assert(b.subrange(40, 48) =~= u64_le_bytes(e.upload_datetime as u64));
    assert(b.subrange(48, 56) =~= u64_le_bytes(e.expiry_datetime as u64));
    assert(b.subrange(56, 64) =~= u64_le_bytes(e.name.len() as u64));
    assert(u64_from_le(b.subrange(56, 64)) == e.name.len() as u64);
    assert(b.subrange(64, 64 + nl) =~= e.name);
    assert(b.subrange(64 + nl, 72 + nl) =~= u64_le_bytes(e.mime_type.len() as u64));
    assert(u64_from_le(b.subrange(64 + nl, 72 + nl)) == e.mime_type.len() as u64);
    assert(b.subrange(72 + nl, 72 + nl + ml) =~= e.mime_type);
    let d = EntryV {
        mmid: b.subrange(0, 8),
        hash: b.subrange(8, 40),
        upload_datetime: u64_from_le(b.subrange(40, 48)) as i64,
        expiry_datetime: u64_from_le(b.subrange(48, 56)) as i64,
        name: b.subrange(64, 64 + nl),
        mime_type: b.subrange(72 + nl, 72 + nl + ml),
    };
    assert(d == e);
}

/// Decoding the encoding of a sequence of entries gives the sequence back.
#[verifier::rlimit(60)]
proof fn lemma_decode_encode_entries(s: Seq<EntryV>)
    requires
        forall|i: int| 0 <= i < s.len() ==> encodable_entry(#[trigger] s[i]),
    ensures
        spec_decode_entries(spec_encode_entries(s), s.len() as int) == Some(s),
    decreases s.len(),
{
    if s.len() == 0 {
        assert(spec_encode_entries(s).len() == 0);
    } else {
        let e = s[0];
        let tail = s.drop_first();
        let enc_tail = spec_encode_entries(tail);
        lemma_decode_encode_entry(e, enc_tail);
        assert(spec_encode_entries(s) == spec_encode_entry(e) + enc_tail);
        let used = spec_encode_entry(e).len() as int;
        assert((spec_encode_entry(e) + enc_tail).skip(used) =~= enc_tail);
        lemma_decode_encode_entries(tail);
        assert(spec_decode_entries(enc_tail, tail.len() as int) == Some(tail));
        assert(seq![e] + tail =~= s);
    }
}

/// Law: the snapshot codec round-trips.  Decoding the encoding of any
/// carryable sequence of entries gives exactly that sequence back.
pub proof fn lemma_snapshot_roundtrip(s: Seq<EntryV>)
    requires
        forall|i: int| 0 <= i < s.len() ==> encodable_entry(#[trigger] s[i]),
        s.len() <= u64::MAX,
    ensures
        spec_decode(spec_encode(s)) == Some(s),
{
    let b = spec_encode(s);
    lemma_u64_le_roundtrip(s.len() as u64);
    assert(b[0] == SNAPSHOT_VERSION);
    assert(b.subrange(1, 9) =~= u64_le_bytes(s.len() as u64));
    assert(b.skip(9) =~= spec_encode_entries(s));
    lemma_decode_encode_entries(s);
}

/// Appending one entry appends its encoding.
proof fn lemma_encode_entries_snoc(s: Seq<EntryV>, e: EntryV)
    ensures
        spec_encode_entries(s.push(e)) == spec_encode_entries(s) + spec_encode_entry(e),
    decreases s.len(),
{
    if s.len() == 0 {
        assert(s.push(e).len() == 1);
        assert(s.push(e)[0] == e);
        assert(s.push(e).drop_first() =~= Seq::<EntryV>::empty());
        assert(spec_encode_entries(Seq::<EntryV>::empty()) == Seq::<u8>::empty());
        assert(spec_encode_entries(s.push(e)) == spec_encode_entry(e) + Seq::<u8>::empty());
        assert(spec_encode_entry(e) + Seq::<u8>::empty() =~= spec_encode_entry(e));
        assert(spec_encode_entries(s) + spec_encode_entry(e) =~= spec_encode_entry(e));
    } else {
        assert(s.push(e)[0] == s[0]);
        assert(s.push(e).drop_first() =~= s.drop_first().push(e));
        lemma_encode_entries_snoc(s.drop_first(), e);
        assert(spec_encode_entries(s.push(e)) == spec_encode_entry(s[0]) + (spec_encode_entries(
            s.drop_first(),
        ) + spec_encode_entry(e)));
        assert(spec_encode_entry(s[0]) + (spec_encode_entries(s.drop_first()) + spec_encode_entry(
            e,
        )) =~= (spec_encode_entry(s[0]) + spec_encode_entries(s.drop_first()))
            + spec_encode_entry(e));
    }
}

/// Encode one entry at the end of `out`.
fn push_entry(out: &mut Vec<u8>, e: &MochiFile)
    ensures
        final(out)@ == old(out)@ + spec_encode_entry(e@),
{
    let ghost base = out@;
    out.append(&mut clone_bytes(e.mmid().as_bytes()));
    out.append(&mut clone_bytes(e.hash().as_bytes()));
    #[verifier::truncate]
    let upload_bits = e.upload() as u64;
    push_u64_le(out, upload_bits);
    #[verifier::truncate]
    let expiry_bits = e.expiry() as u64;
    push_u64_le(out, expiry_bits);
    let name = e.name();
    push_u64_le(out, name.len() as u64);
    out.append(&mut clone_bytes(name));
    let mime = e.mime_type();
    push_u64_le(out, mime.len() as u64);
    out.append(&mut clone_bytes(mime));
    proof {
        assert(out@ =~= base + spec_encode_entry(e@));
    }
}

/// The uncompressed snapshot image of the index.
pub fn encode_db(db: &Mochibase) -> (r: Vec<u8>)
    requires
        db.inv(),
    ensures
        r@ == spec_encode(db.s_entry_seq()),
{
    let es = db.entries();
    let mut out: Vec<u8> = Vec::new();
    out.push(SNAPSHOT_VERSION);
    push_u64_le(&mut out, es.len() as u64);
    let ghost header = out@;
    proof {
        assert(header =~= seq![SNAPSHOT_VERSION] + u64_le_bytes(es@.len() as u64));
    }
    let mut i: usize = 0;
    while i < es.len()
        invariant
            0 <= i <= es@.len(),
            header == seq![SNAPSHOT_VERSION] + u64_le_bytes(es@.len() as u64),
            forall|k: int| 0 <= k < es@.len() ==> (#[trigger] es@[k])@ == db.s_entry_seq()[k],
            es@.len() == db.s_entry_seq().len(),
            out@ == header + spec_encode_entries(db.s_entry_seq().take(i as int)),
        decreases es@.len() - i,
    {
        let ghost pre = db.s_entry_seq().take(i as int);
        push_entry(&mut out, &es[i]);
        proof {
            lemma_encode_entries_snoc(pre, db.s_entry_seq()[i as int]);
            assert(db.s_entry_seq().take(i as int + 1) =~= pre.push(db.s_entry_seq()[i as int]));
            assert(out@ =~= header + spec_encode_entries(db.s_entry_seq().take(i as int + 1)));
        }
        i = i + 1;
    }
    proof {
        assert(db.s_entry_seq().take(es@.len() as int) =~= db.s_entry_seq());
        assert(out@ =~= spec_encode(db.s_entry_seq()));
    }
    out
}

/// Why a snapshot could not be read or written.
#[derive(Debug, Clone, Copy, PartialEq, Eq, Structural)]
pub enum SnapshotError {
    /// The bytes do not spell a well-formed snapshot.
    Corrupt,
    /// The image is too large for the compressed framing's length prefix.
    TooLarge,
}

/// No two entries share an MMID.
pub open spec fn unique_entry_keys(s: Seq<EntryV>) -> bool {
    forall|i: int, j: int| 0 <= i < j < s.len() ==> s[i].mmid != s[j].mmid
}

/// Decode one entry starting at byte position `pos`.
#[verifier::rlimit(80)]
fn decode_entry_at(b: &Vec<u8>, pos: usize) -> (r: Option<(MochiFile, usize)>)
    requires
        pos <= b@.len(),
    ensures
        match spec_decode_entry(b@.skip(pos as int)) {
            None => r is None,
            Some((e, used)) => {
                &&& r is Some
                &&& r.unwrap().0@ == e
                &&& r.unwrap().0.wf()
                &&& r.unwrap().1 == pos + used
            },
        },
{
    let ghost tail = b@.skip(pos as int);
    let len = b.len();
    let avail = len - pos;
    if avail < 72 {
        proof {
            if tail.len() >= 64 {
                let name_len = u64_from_le(tail.subrange(56, 64)) as int;
                assert(tail.len() < 72 + name_len);
            }
        }
        return None;
    }
    let name_len_u = read_u64_le(b, pos + 56);
    proof {
        assert(b@.subrange(pos as int + 56, pos as int + 64) =~= tail.subrange(56, 64));
    }
    if name_len_u > (avail - 72) as u64 {
        return None;
    }
    let name_len = name_len_u as usize;
    let mime_len_u = read_u64_le(b, pos + 64 + name_len);
    proof {
        assert(b@.subrange(
            pos as int + 64 + name_len as int,
            pos as int + 72 + name_len as int,
        ) =~= tail.subrange(64 + name_len as int, 72 + name_len as int));
    }
    if mime_len_u > (avail - 72 - name_len) as u64 {
        return None;
    }
    let mime_len = mime_len_u as usize;
    let mmid_bytes = subvec(b, pos, pos + 8);
    let hash_bytes = subvec(b, pos + 8, pos + 40);
    let upload_bits = read_u64_le(b, pos + 40);
    let expiry_bits = read_u64_le(b, pos + 48);
    let name = subvec(b, pos + 64, pos + 64 + name_len);
    let mime = subvec(b, pos + 72 + name_len, pos + 72 + name_len + mime_len);
    proof {
        assert(b@.subrange(pos as int, pos as int + 8) =~= tail.subrange(0, 8));
        assert(b@.subrange(pos as int + 8, pos as int + 40) =~= tail.subrange(8, 40));
        assert(b@.subrange(pos as int + 40, pos as int + 48) =~= tail.subrange(40, 48));
        assert(b@.subrange(pos as int + 48, pos as int + 56) =~= tail.subrange(48, 56));
        assert(b@.subrange(
            pos as int + 64,
            pos as int + 64 + name_len as int,
        ) =~= tail.subrange(64, 64 + name_len as int));
        assert(b@.subrange(
            pos as int + 72 + name_len as int,
            pos as int + 72 + name_len as int + mime_len as int,
        ) =~= tail.subrange(72 + name_len as int, 72 + name_len as int + mime_len as int));
    }
    #[verifier::truncate]
    let upload = upload_bits as i64;
    #[verifier::truncate]
    let expiry = expiry_bits as i64;
    proof {
        assert(upload_bits as i64 as u64 == upload_bits) by (bit_vector);
        assert(expiry_bits as i64 as u64 == expiry_bits) by (bit_vector);
    }
    let mmid = match Mmid::try_from_bytes(&mmid_bytes) {
        Some(m) => m,
        None => {
            return None;
        },
    };
    let hash = match MHash::try_from_bytes(&hash_bytes) {
        Some(h) => h,
        None => {
            return None;
        },
    };
    if !(upload < expiry) {
        return None;
    }
    let entry = MochiFile::new(mmid, name, mime, hash, upload, expiry);
    Some((entry, pos + 72 + name_len + mime_len))
}

/// Rebuild an index from an uncompressed snapshot image.  The image must
/// decode exactly, and no two decoded entries may share an MMID; anything
/// else is refused as corrupt, and the caller must fail fast rather than
/// overwrite the stored snapshot.
fn decode_db(bytes: &Vec<u8>) -> (r: Result<Mochibase, SnapshotError>)
    ensures
        match r {
            Ok(db) => {
                &&& db.inv()
                &&& spec_decode(bytes@) == Some(db.s_entry_seq())
            },
            Err(_) => spec_decode(bytes@) is None || !unique_entry_keys(
                spec_decode(bytes@).unwrap(),
            ),
        },
{
    let len = bytes.len();
    if len < 9 {
        return Err(SnapshotError::Corrupt);
    }
    if bytes[0] != SNAPSHOT_VERSION {
        return Err(SnapshotError::Corrupt);
    }
    let count = read_u64_le(bytes, 1);
    let mut db = Mochibase::new();
    let mut pos: usize = 9;
    let mut k: u64 = 0;
    while k < count
        invariant
            9 <= pos <= bytes@.len(),
            0 <= k <= count,
            db.inv(),
            count == u64_from_le(bytes@.subrange(1, 9)),
            bytes@.len() >= 9,
            bytes@[0] == SNAPSHOT_VERSION,
            spec_decode_entries(bytes@.skip(9), count as int) == (match spec_decode_entries(
                bytes@.skip(pos as int),
                count - k,
            ) {
                None => None::<Seq<EntryV>>,
                Some(rest) => Some(db.s_entry_seq() + rest),
            }),
        decreases count - k,
    {
        let ghost pre_seq = db.s_entry_seq();
        let (entry, newpos) = match decode_entry_at(bytes, pos) {
            Some(p) => p,
            None => {
                proof {
                    assert(spec_decode_entries(bytes@.skip(pos as int), count - k) is None);
                }
                return Err(SnapshotError::Corrupt);
            },
        };
        let mmid = entry.mmid().clone();
        let ghost ev = entry@;
        let ghost used = newpos - pos;
        proof {
            assert(spec_decode_entry(bytes@.skip(pos as int)) == Some((ev, used as int)));
            assert(bytes@.skip(pos as int).skip(used as int) =~= bytes@.skip(newpos as int));
        }
        let inserted = db.insert(&mmid, entry);
        if !inserted {
            proof {
                // The decoded sequence repeats this MMID, so the whole
                // snapshot is refused.
                crate::database::lemma_entry_seq_matches_map(db);
                match spec_decode_entries(bytes@.skip(newpos as int), count - k - 1) {
                    None => {
                        assert(spec_decode_entries(bytes@.skip(9), count as int) is None);
                    },
                    Some(rest2) => {
                        let full = pre_seq + (seq![ev] + rest2);
                        assert(spec_decode_entries(bytes@.skip(9), count as int) == Some(full));
                        let i0 = choose|i0: int|
                            0 <= i0 < pre_seq.len() && (#[trigger] pre_seq[i0]).mmid == ev.mmid;
                        assert(full[i0].mmid == ev.mmid);
                        assert(full[pre_seq.len() as int].mmid == ev.mmid);
                        assert(!unique_entry_keys(full));
                        assert(spec_decode(bytes@) == Some(full));
                    },
                }
            }
            return Err(SnapshotError::Corrupt);
        }
        proof {
            assert(db.s_entry_seq() == pre_seq.push(ev));
            match spec_decode_entries(bytes@.skip(newpos as int), count - k - 1) {
                None => {},
                Some(rest2) => {
                    assert(pre_seq + (seq![ev] + rest2) =~= pre_seq.push(ev) + rest2);
                },
            }
        }
        pos = newpos;
        k = k + 1;
    }
    if pos != len {
        proof {
            assert(bytes@.skip(pos as int).len() != 0);
            assert(spec_decode_entries(bytes@.skip(pos as int), 0) is None);
        }
        return Err(SnapshotError::Corrupt);
    }
    proof {
        assert(bytes@.skip(pos as int).len() == 0);
        assert(spec_decode_entries(bytes@.skip(pos as int), 0) == Some(Seq::<EntryV>::empty()));
        assert(db.s_entry_seq() + Seq::<EntryV>::empty() =~= db.s_entry_seq());
    }
    Ok(db)
}

/// A name for the block form that the compressor gives a byte sequence: a
/// pure function of the bytes.
pub uninterp spec fn lz4_block_of(b: Seq<u8>) -> Seq<u8>;

/// Relies on lz4_flex's `compress_prepend_size`: compression is a pure
/// function of the input bytes.  The four-byte length prefix it writes
/// holds the input length as a `u32`, so only inputs below 2^32 bytes are
/// framed faithfully; larger ones are refused here.
#[verifier::external_body]
fn lz4_compress(b: &Vec<u8>) -> (r: Vec<u8>)
    requires
        b@.len() < 0x1_0000_0000,
    ensures
        r@ == lz4_block_of(b@),
{
    lz4_flex::compress_prepend_size(b.as_slice())
}

/// Relies on lz4_flex's `decompress_size_prepended`: decompression is
/// lossless, so a compressed block decompresses back to the bytes it was
/// made from — for originals whose length fits the block's four-byte
/// prefix, the only ones the compressor frames faithfully.
#[verifier::external_body]
fn lz4_decompress(b: &Vec<u8>) -> (r: Option<Vec<u8>>)
    ensures
        forall|orig: Seq<u8>|
            orig.len() < 0x1_0000_0000 && b@ == #[trigger] lz4_block_of(orig) ==> r is Some
                && r.unwrap()@ == orig,
{
    match lz4_flex::decompress_size_prepended(b.as_slice()) {
        Ok(v) => Some(v),
        Err(_) => None,
    }
}

/// The compressed snapshot of the index: what the persistence layer writes
/// to the backup file before renaming it over the primary.  An index whose
/// image does not fit the compressed framing's length prefix is refused
/// rather than framed wrongly.
pub fn snapshot_bytes(db: &Mochibase) -> (r: Result<Vec<u8>, SnapshotError>)
    requires
        db.inv(),
    ensures
        (r is Ok) == (spec_encode(db.s_entry_seq()).len() < 0x1_0000_0000),
        r is Ok ==> r.unwrap()@ == lz4_block_of(spec_encode(db.s_entry_seq())),
{
    let raw = encode_db(db);
    if raw.len() as u64 >= 0x1_0000_0000u64 {
        return Err(SnapshotError::TooLarge);
    }
    Ok(lz4_compress(&raw))
}

impl Mochibase {
    /// Open an index from the contents of its snapshot file; reading the
    /// file itself happens at the I/O edge.  For a snapshot produced from
    /// any sequence of entries the framing can carry, the loaded index
    /// holds exactly those entries; anything damaged is refused, and the
    /// caller must fail fast rather than overwrite the stored file.
    pub fn open(bytes: &Vec<u8>) -> (r: Result<Mochibase, SnapshotError>)
        ensures
            r is Ok ==> r.unwrap().inv(),
            forall|orig: Seq<u8>|
                orig.len() < 0x1_0000_0000 && bytes@ == #[trigger] lz4_block_of(orig) ==> match r {
                    Ok(db) => spec_decode(orig) == Some(db.s_entry_seq()),
                    Err(_) => spec_decode(orig) is None || !unique_entry_keys(
                        spec_decode(orig).unwrap(),
                    ),
                },
    {
        let raw = match lz4_decompress(bytes) {
            Some(v) => v,
            None => {
                return Err(SnapshotError::Corrupt);
            },
        };
        decode_db(&raw)
    }
}

} // verus!
