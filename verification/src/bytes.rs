//! Byte-level helpers: little-endian integer encoding and positional writes
//! into a growable byte buffer.

use vstd::prelude::*;

verus! {

/// The eight little-endian bytes of a `u64`.
pub open spec fn u64_le_bytes(x: u64) -> Seq<u8> {
    seq![
        (x & 0xff) as u8,
        ((x >> 8) & 0xff) as u8,
        ((x >> 16) & 0xff) as u8,
        ((x >> 24) & 0xff) as u8,
        ((x >> 32) & 0xff) as u8,
        ((x >> 40) & 0xff) as u8,
        ((x >> 48) & 0xff) as u8,
        ((x >> 56) & 0xff) as u8,
    ]
}

/// The `u64` denoted by eight little-endian bytes.
pub open spec fn u64_from_le(b: Seq<u8>) -> u64
    recommends
        b.len() == 8,
{
    ((b[0] as u64) | ((b[1] as u64) << 8) | ((b[2] as u64) << 16) | ((b[3] as u64) << 24)
        | ((b[4] as u64) << 32) | ((b[5] as u64) << 40) | ((b[6] as u64) << 48) | ((b[7] as u64)
        << 56)) as u64
}

/// Decoding the little-endian encoding of a `u64` gives the number back.
pub proof fn lemma_u64_le_roundtrip(x: u64)
    ensures
        u64_from_le(u64_le_bytes(x)) == x,
{
    let b = u64_le_bytes(x);
    assert(((x & 0xff) as u8 as u64) | (((x >> 8) & 0xff) as u8 as u64) << 8 | (((x >> 16)
        & 0xff) as u8 as u64) << 16 | (((x >> 24) & 0xff) as u8 as u64) << 24 | (((x >> 32)
        & 0xff) as u8 as u64) << 32 | (((x >> 40) & 0xff) as u8 as u64) << 40 | (((x >> 48)
        & 0xff) as u8 as u64) << 48 | (((x >> 56) & 0xff) as u8 as u64) << 56 == x)
        by (bit_vector);
}

/// Emit the little-endian bytes of `x` at the end of `out`.
pub fn push_u64_le(out: &mut Vec<u8>, x: u64)
    ensures
        final(out)@ == old(out)@ + u64_le_bytes(x),
{
    out.push((x & 0xff) as u8);
    out.push(((x >> 8) & 0xff) as u8);
    out.push(((x >> 16) & 0xff) as u8);
    out.push(((x >> 24) & 0xff) as u8);
    out.push(((x >> 32) & 0xff) as u8);
    out.push(((x >> 40) & 0xff) as u8);
    out.push(((x >> 48) & 0xff) as u8);
    out.push(((x >> 56) & 0xff) as u8);
    proof {
        assert(final(out)@ =~= old(out)@ + u64_le_bytes(x));
    }
}

/// The little-endian bytes of `x`, as a fresh buffer.
pub fn u64_le_vec(x: u64) -> (r: Vec<u8>)
    ensures
        r@ == u64_le_bytes(x),
{
    let mut r: Vec<u8> = Vec::new();
    push_u64_le(&mut r, x);
    proof {
        assert(r@ =~= u64_le_bytes(x));
    }
    r
}

/// Read the `u64` stored in little-endian order at `b[off .. off + 8]`.
pub fn read_u64_le(b: &Vec<u8>, off: usize) -> (r: u64)
    requires
        off + 8 <= b@.len(),
    ensures
        r == u64_from_le(b@.subrange(off as int, off as int + 8)),
{
    let blen: usize = b.len();
    let r: u64 = (b[off] as u64) | ((b[off + 1] as u64) << 8) | ((b[off + 2] as u64) << 16) | ((
    b[off + 3] as u64) << 24) | ((b[off + 4] as u64) << 32) | ((b[off + 5] as u64) << 40) | ((b[off
        + 6] as u64) << 48) | ((b[off + 7] as u64) << 56);
    proof {
        let s = b@.subrange(off as int, off as int + 8);
        assert(s[0] == b@[off as int]);
        assert(s[1] == b@[off as int + 1]);
        assert(s[2] == b@[off as int + 2]);
        assert(s[3] == b@[off as int + 3]);
        assert(s[4] == b@[off as int + 4]);
        assert(s[5] == b@[off as int + 5]);
        assert(s[6] == b@[off as int + 6]);
        assert(s[7] == b@[off as int + 7]);
    }
    r
}

/// The bytes `b[from .. to]`, as a fresh buffer.
pub fn subvec(b: &Vec<u8>, from: usize, to: usize) -> (r: Vec<u8>)
    requires
        from <= to <= b@.len(),
    ensures
        r@ == b@.subrange(from as int, to as int),
{
    let mut r: Vec<u8> = Vec::new();
    let mut i: usize = from;
    while i < to
        invariant
            from <= i <= to <= b@.len(),
            r@ =~= b@.subrange(from as int, i as int),
        decreases to - i,
    {
        r.push(b[i]);
        proof {
            assert(r@ =~= b@.subrange(from as int, i as int + 1));
        }
        i = i + 1;
    }
    proof {
        assert(r@ =~= b@.subrange(from as int, to as int));
    }
    r
}

/// Round trip between `i64` and its bit pattern as `u64`.
pub proof fn lemma_i64_u64_roundtrip(x: i64)
    ensures
        (x as u64) as i64 == x,
{
    assert((x as u64) as i64 == x) by (bit_vector);
}

/// `max` on mathematical integers.
pub open spec fn spec_max(a: int, b: int) -> int {
    if a >= b {
        a
    } else {
        b
    }
}

/// The buffer after writing `b` at position `off` of `s`: positions past the
/// end of `s` that the write skips over read as zero, exactly as a positional
/// file write past the end of a file does.
pub open spec fn spec_write_at(s: Seq<u8>, off: int, b: Seq<u8>) -> Seq<u8>
    recommends
        0 <= off,
{
    Seq::new(
        spec_max(s.len() as int, off + b.len() as int) as nat,
        |i: int|
            if off <= i < off + b.len() {
                b[i - off]
            } else if i < s.len() {
                s[i]
            } else {
                0u8
            },
    )
}

/// Write `b` into `s` at position `off`, zero-filling any gap between the old
/// end of `s` and `off`.
pub fn write_at(s: &Vec<u8>, off: usize, b: &Vec<u8>) -> (r: Vec<u8>)
    requires
        off + b@.len() <= usize::MAX,
    ensures
        r@ == spec_write_at(s@, off as int, b@),
{
    let end: usize = off + b.len();
    let n: usize = if s.len() >= end {
        s.len()
    } else {
        end
    };
    let mut r: Vec<u8> = Vec::new();
    let mut i: usize = 0;
    while i < n
        invariant
            0 <= i <= n,
            n == spec_max(s@.len() as int, off + b@.len()),
            end == off + b@.len(),
            r@ =~= spec_write_at(s@, off as int, b@).take(i as int),
        decreases n - i,
    {
        let c: u8 = if off <= i && i < end {
            b[i - off]
        } else if i < s.len() {
            s[i]
        } else {
            0u8
        };
        r.push(c);
        proof {
            assert(r@ =~= spec_write_at(s@, off as int, b@).take(i as int + 1));
        }
        i = i + 1;
    }
    proof {
        assert(r@ =~= spec_write_at(s@, off as int, b@));
    }
    r
}

/// The bytes of `a` followed by the bytes of `b`.
pub fn concat_bytes(a: &Vec<u8>, b: &Vec<u8>) -> (r: Vec<u8>)
    ensures
        r@ == a@ + b@,
{
    let mut r: Vec<u8> = Vec::new();
    let mut i: usize = 0;
    while i < a.len()
        invariant
            0 <= i <= a@.len(),
            r@ =~= a@.take(i as int),
        decreases a@.len() - i,
    {
        r.push(a[i]);
        proof {
            assert(r@ =~= a@.take(i as int + 1));
        }
        i = i + 1;
    }
    let mut j: usize = 0;
    while j < b.len()
        invariant
            0 <= j <= b@.len(),
            r@ =~= a@ + b@.take(j as int),
        decreases b@.len() - j,
    {
        r.push(b[j]);
        proof {
            assert(r@ =~= a@ + b@.take(j as int + 1));
        }
        j = j + 1;
    }
    proof {
        assert(r@ =~= a@ + b@);
    }
    r
}

/// Law: positional writes to disjoint ranges commute.  Chunks of an upload
/// land on disjoint chunk-aligned ranges, so they may arrive in any order
/// and still assemble the same bytes.
pub proof fn lemma_write_at_commutes(s: Seq<u8>, off1: int, b1: Seq<u8>, off2: int, b2: Seq<u8>)
    requires
        0 <= off1,
        0 <= off2,
        off1 + b1.len() <= off2 || off2 + b2.len() <= off1,
    ensures
        spec_write_at(spec_write_at(s, off1, b1), off2, b2) == spec_write_at(
            spec_write_at(s, off2, b2),
            off1,
            b1,
        ),
{
    let l = spec_write_at(spec_write_at(s, off1, b1), off2, b2);
    let r = spec_write_at(spec_write_at(s, off2, b2), off1, b1);
    assert(l.len() == r.len());
    assert forall|i: int| 0 <= i < l.len() implies l[i] == r[i] by {
        if off1 <= i < off1 + b1.len() {
            assert(l[i] == b1[i - off1]);
            assert(r[i] == b1[i - off1]);
        } else if off2 <= i < off2 + b2.len() {
            assert(l[i] == b2[i - off2]);
            assert(r[i] == b2[i - off2]);
        } else if i < s.len() {
            assert(l[i] == s[i]);
            assert(r[i] == s[i]);
        } else {
            assert(l[i] == 0u8);
            assert(r[i] == 0u8);
        }
    }
    assert(l =~= r);
}

/// Addition on `i64` that stops at the largest representable value instead of
/// wrapping.
pub open spec fn spec_sat_add(a: i64, b: i64) -> i64
    recommends
        b >= 0,
{
    if a + b > i64::MAX {
        i64::MAX
    } else {
        (a + b) as i64
    }
}

/// Saturating addition of a non-negative delay to a timestamp.
pub fn sat_add(a: i64, b: i64) -> (r: i64)
    requires
        b >= 0,
    ensures
        r == spec_sat_add(a, b),
{
    if a > i64::MAX - b {
        i64::MAX
    } else {
        a + b
    }
}

} // verus!
