//! MMIDs: the short opaque handles under which uploaded files are published.

use rand::distributions::{Alphanumeric, DistString};
use vstd::prelude::*;
use vstd::string::*;

verus! {

/// The byte is an ASCII alphanumeric character (`0-9`, `A-Z` or `a-z`).
pub open spec fn is_alphanumeric_byte(b: u8) -> bool {
    (0x30 <= b <= 0x39) || (0x41 <= b <= 0x5a) || (0x61 <= b <= 0x7a)
}

/// Well-formed MMID content: exactly eight ASCII alphanumeric bytes.
pub open spec fn valid_mmid_bytes(s: Seq<u8>) -> bool {
    &&& s.len() == 8
    &&& forall|i: int| 0 <= i < s.len() ==> is_alphanumeric_byte(#[trigger] s[i])
}

/// A unique identifier for an entry in the database, 8 characters long,
/// consisting of ASCII alphanumeric characters (`a-z`, `A-Z`, and `0-9`).
pub struct Mmid {
    bytes: Vec<u8>,
}

impl View for Mmid {
    type V = Seq<u8>;

    closed spec fn view(&self) -> Seq<u8> {
        self.bytes@
    }
}

impl Mmid {
    /// The identifier is eight ASCII alphanumeric bytes.
    pub open spec fn wf(&self) -> bool {
        valid_mmid_bytes(self@)
    }

    /// Create a new random MMID.
    pub fn new_random() -> (r: Mmid)
        ensures
            r.wf(),
    {
        let bytes = sample_alphanumeric(8);
        Mmid { bytes }
    }

    /// Accept a candidate identifier, refusing anything that is not exactly
    /// eight ASCII alphanumeric bytes.
    pub fn try_from_bytes(value: &Vec<u8>) -> (r: Option<Mmid>)
        ensures
            match r {
                Some(m) => m@ == value@ && valid_mmid_bytes(value@),
                None => !valid_mmid_bytes(value@),
            },
    {
        if value.len() != 8 {
            return None;
        }
        let mut i: usize = 0;
        while i < value.len()
            invariant
                value@.len() == 8,
                0 <= i <= 8,
                forall|j: int| 0 <= j < i ==> is_alphanumeric_byte(#[trigger] value@[j]),
            decreases value@.len() - i,
        {
            let b = value[i];
            let ok = (0x30 <= b && b <= 0x39) || (0x41 <= b && b <= 0x5a) || (0x61 <= b && b
                <= 0x7a);
            if !ok {
                return None;
            }
            i = i + 1;
        }
        Some(Mmid { bytes: clone_bytes(value) })
    }

    /// Accept a candidate identifier given as a string slice; the byte-level
    /// check is equivalent to the character-level one, since no multi-byte
    /// UTF-8 sequence consists of ASCII alphanumeric bytes.
    pub fn try_from_str(value: &str) -> (r: Option<Mmid>)
        ensures
            match r {
                Some(m) => m@ == value.spec_bytes() && valid_mmid_bytes(value.spec_bytes()),
                None => !valid_mmid_bytes(value.spec_bytes()),
            },
    {
        let bytes = value.as_bytes_vec();
        Mmid::try_from_bytes(&bytes)
    }

    /// The identifier's bytes.
    pub fn as_bytes(&self) -> (r: &Vec<u8>)
        ensures
            r@ == self@,
    {
        &self.bytes
    }
}

impl Clone for Mmid {
    fn clone(&self) -> (r: Self)
        ensures
            r@ == self@,
    {
        Mmid { bytes: clone_bytes(&self.bytes) }
    }
}

impl PartialEq for Mmid {
    fn eq(&self, other: &Self) -> (r: bool) {
        let r = eq_bytes(&self.bytes, &other.bytes);
        r
    }
}

impl vstd::std_specs::cmp::PartialEqSpecImpl for Mmid {
    open spec fn obeys_eq_spec() -> bool {
        true
    }

    open spec fn eq_spec(&self, other: &Mmid) -> bool {
        self@ == other@
    }
}

} // verus!

verus! {

/// Copy of a byte vector, with the view preserved.
pub fn clone_bytes(v: &Vec<u8>) -> (r: Vec<u8>)
    ensures
        r@ == v@,
{
    let r = v.clone();
    proof {
        assert(r@ =~= v@);
    }
    r
}

/// Byte-vector equality, decided at the level of views.
pub fn eq_bytes(a: &Vec<u8>, b: &Vec<u8>) -> (r: bool)
    ensures
        r == (a@ == b@),
{
    if a.len() != b.len() {
        proof {
            assert(a@ != b@);
        }
        return false;
    }
    let mut i: usize = 0;
    while i < a.len()
        invariant
            a@.len() == b@.len(),
            0 <= i <= a@.len(),
            forall|j: int| 0 <= j < i ==> a@[j] == b@[j],
        decreases a@.len() - i,
    {
        if a[i] != b[i] {
            return false;
        }
        i = i + 1;
    }
    proof {
        assert(a@ =~= b@);
    }
    true
}

/// Relies on rand's `Alphanumeric` distribution: `sample_string` draws the
/// requested number of characters uniformly from the set
/// `A-Z`, `a-z`, `0-9`.
#[verifier::external_body]
fn sample_alphanumeric(len: usize) -> (r: Vec<u8>)
    ensures
        r@.len() == len,
        forall|i: int| 0 <= i < r@.len() ==> is_alphanumeric_byte(#[trigger] r@[i]),
{
    Alphanumeric.sample_string(&mut rand::thread_rng(), len).into_bytes()
}

} // verus!
