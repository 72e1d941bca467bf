//! Content hashes: the 32-byte identity under which blobs are stored.

use crate::mmid::{clone_bytes, eq_bytes};
use vstd::prelude::*;

verus! {

/// Number of bytes in a content hash.
pub open spec fn hash_len() -> int {
    32
}

/// Well-formed hash content: exactly 32 raw bytes.
pub open spec fn valid_hash_bytes(s: Seq<u8>) -> bool {
    s.len() == hash_len()
}

/// A name for the 32-byte content hash that the blob store derives from a
/// byte sequence.  The mapping is pure: the same bytes always give the same
/// hash.
pub uninterp spec fn digest_of(bytes: Seq<u8>) -> Seq<u8>;

/// The content hash of a stored blob: 32 raw bytes, shown in lowercase
/// hexadecimal wherever a filesystem name or a wire value is needed.
pub struct MHash {
    bytes: Vec<u8>,
}

impl View for MHash {
    type V = Seq<u8>;

    closed spec fn view(&self) -> Seq<u8> {
        self.bytes@
    }
}

impl MHash {
    /// The hash is exactly 32 bytes.
    pub open spec fn wf(&self) -> bool {
        valid_hash_bytes(self@)
    }

    /// Hash a byte buffer.
    pub fn of_bytes(data: &Vec<u8>) -> (r: MHash)
        ensures
            r@ == digest_of(data@),
            r.wf(),
    {
        let bytes = blake3_digest(data);
        MHash { bytes }
    }

    /// Adopt 32 raw bytes as a hash value, as when one is read back from a
    /// snapshot; anything of another length is refused.
    pub fn try_from_bytes(value: &Vec<u8>) -> (r: Option<MHash>)
        ensures
            match r {
                Some(h) => h@ == value@ && valid_hash_bytes(value@),
                None => !valid_hash_bytes(value@),
            },
    {
        if value.len() != 32 {
            return None;
        }
        Some(MHash { bytes: clone_bytes(value) })
    }

    /// The raw hash bytes.
    pub fn as_bytes(&self) -> (r: &Vec<u8>)
        ensures
            r@ == self@,
    {
        &self.bytes
    }

    /// The lowercase hexadecimal rendering of the hash, as ASCII bytes; this
    /// is the blob's filesystem name and its wire form.
    pub fn to_hex_bytes(&self) -> (r: Vec<u8>)
        ensures
            r@ == hex_of(self@),
    {
        hex_bytes(&self.bytes)
    }
}

impl Clone for MHash {
    fn clone(&self) -> (r: Self)
        ensures
            r@ == self@,
    {
        MHash { bytes: clone_bytes(&self.bytes) }
    }
}

impl PartialEq for MHash {
    fn eq(&self, other: &Self) -> (r: bool) {
        let r = eq_bytes(&self.bytes, &other.bytes);
        r
    }
}

impl vstd::std_specs::cmp::PartialEqSpecImpl for MHash {
    open spec fn obeys_eq_spec() -> bool {
        true
    }

    open spec fn eq_spec(&self, other: &MHash) -> bool {
        self@ == other@
    }
}

/// The lowercase hexadecimal digit for a value below 16.
pub open spec fn hex_digit(n: u8) -> u8
    recommends
        n < 16,
{
    if n < 10 {
        (0x30 + n) as u8
    } else {
        (0x61 + (n - 10)) as u8
    }
}

/// The lowercase hexadecimal rendering of a byte sequence: two digits per
/// byte, high nibble first.
pub open spec fn hex_of(s: Seq<u8>) -> Seq<u8> {
    Seq::new(
        (s.len() * 2) as nat,
        |i: int|
            if i % 2 == 0 {
                hex_digit(s[i / 2] >> 4)
            } else {
                hex_digit((s[i / 2] & 0xf) as u8)
            },
    )
}

/// Render a byte buffer in lowercase hexadecimal.
pub fn hex_bytes(s: &Vec<u8>) -> (r: Vec<u8>)
    ensures
        r@ == hex_of(s@),
{
    let mut r: Vec<u8> = Vec::new();
    let mut i: usize = 0;
    while i < s.len()
        invariant
            0 <= i <= s@.len(),
            r@ =~= hex_of(s@).take(2 * i as int),
        decreases s@.len() - i,
    {
        let b = s[i];
        let hi = b >> 4;
        let lo = b & 0xf;
        proof {
            assert(b >> 4 < 16) by (bit_vector);
            assert(b & 0xf < 16) by (bit_vector);
        }
        r.push(hex_digit_exec(hi));
        r.push(hex_digit_exec(lo));
        proof {
            assert(r@ =~= hex_of(s@).take(2 * (i as int + 1)));
        }
        i = i + 1;
    }
    proof {
        assert(r@ =~= hex_of(s@));
    }
    r
}

/// The lowercase hexadecimal digit for a nibble.
fn hex_digit_exec(n: u8) -> (r: u8)
    requires
        n < 16,
    ensures
        r == hex_digit(n),
{
    if n < 10 {
        0x30 + n
    } else {
        0x61 + (n - 10)
    }
}

/// Relies on `blake3::hash`: a pure function of the input bytes whose output
/// is 32 bytes wide.
#[verifier::external_body]
fn blake3_digest(data: &Vec<u8>) -> (r: Vec<u8>)
    ensures
        r@ == digest_of(data@),
        r@.len() == hash_len(),
{
    blake3::hash(data.as_slice()).as_bytes().to_vec()
}

} // verus!
