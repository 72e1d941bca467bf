//! The blob store: immutable byte blobs addressed by their content hash.
//! The name is the identity, so promotion is idempotent and at most one blob
//! ever exists per hash.

use crate::mhash::{digest_of, MHash};
use vstd::prelude::*;

verus! {

/// One stored blob.
pub struct Blob {
    pub hash: MHash,
    pub data: Vec<u8>,
}

/// What became of a staged file handed to the store.
pub enum PutOutcome {
    /// The staged bytes were adopted as a new blob.
    Promoted,
    /// A blob with this hash already existed; the staged bytes were dropped.
    Deduplicated,
}

/// There is a blob for hash `h`.
pub open spec fn has_blob(bs: Seq<Blob>, h: Seq<u8>) -> bool {
    exists|i: int| 0 <= i < bs.len() && bs[i].hash@ == h
}

/// Index of the blob for hash `h`.
pub open spec fn blob_index(bs: Seq<Blob>, h: Seq<u8>) -> int {
    choose|i: int| 0 <= i < bs.len() && bs[i].hash@ == h
}

/// No two blobs share a hash.
pub open spec fn unique_blob_hashes(bs: Seq<Blob>) -> bool {
    forall|i: int, j: int| 0 <= i < j < bs.len() ==> bs[i].hash@ != bs[j].hash@
}

/// The map from hash to blob content that a sequence of blobs denotes.
pub open spec fn blobs_map_of(bs: Seq<Blob>) -> Map<Seq<u8>, Seq<u8>> {
    Map::new(|h: Seq<u8>| has_blob(bs, h), |h: Seq<u8>| bs[blob_index(bs, h)].data@)
}

/// Content-addressed storage for immutable byte blobs.
pub struct BlobStore {
    blobs: Vec<Blob>,
}

impl BlobStore {
    /// The stored blobs, as a map from hash to content.
    pub closed spec fn s_blobs(&self) -> Map<Seq<u8>, Seq<u8>> {
        blobs_map_of(self.blobs@)
    }

    /// The store invariant: one blob per hash, and every blob lies under the
    /// hash of its own content.
    pub closed spec fn inv(&self) -> bool {
        &&& unique_blob_hashes(self.blobs@)
        &&& forall|i: int| 0 <= i < self.blobs@.len() ==> (#[trigger] self.blobs@[i]).hash.wf()
        &&& forall|i: int|
            0 <= i < self.blobs@.len() ==> (#[trigger] self.blobs@[i]).hash@ == digest_of(
                self.blobs@[i].data@,
            )
    }

    /// Create an empty store.
    pub fn new() -> (r: BlobStore)
        ensures
            r.inv(),
            r.s_blobs() == Map::<Seq<u8>, Seq<u8>>::empty(),
    {
        let r = BlobStore { blobs: Vec::new() };
        proof {
            assert(r.s_blobs() =~= Map::<Seq<u8>, Seq<u8>>::empty());
        }
        r
    }

    /// Adopt a staged file: if no blob exists for `hash` yet the bytes are
    /// stored (the rename of the staging file onto the blob's name);
    /// otherwise the staged bytes are dropped and the existing blob stands.
    pub fn put_from_staged(&mut self, data: Vec<u8>, hash: &MHash) -> (r: PutOutcome)
        requires
            old(self).inv(),
            hash.wf(),
            hash@ == digest_of(data@),
        ensures
            final(self).inv(),
            (r is Promoted) == !old(self).s_blobs().contains_key(hash@),
            r is Promoted ==> final(self).s_blobs() == old(self).s_blobs().insert(hash@, data@),
            r is Deduplicated ==> final(self).s_blobs() == old(self).s_blobs(),
    {
        let ghost old_blobs = self.blobs@;
        match find_blob(&self.blobs, hash) {
            Some(_) => PutOutcome::Deduplicated,
            None => {
                self.blobs.push(Blob { hash: hash.clone(), data });
                proof {
                    lemma_blobs_push(old_blobs, self.blobs@, hash@);
                }
                PutOutcome::Promoted
            },
        }
    }

    /// Open the blob stored under `hash`, if any.
    pub fn open(&self, hash: &MHash) -> (r: Option<&Vec<u8>>)
        requires
            self.inv(),
        ensures
            match r {
                Some(d) => self.s_blobs().contains_key(hash@) && d@ == self.s_blobs()[hash@],
                None => !self.s_blobs().contains_key(hash@),
            },
    {
        match find_blob(&self.blobs, hash) {
            Some(i) => Some(&self.blobs[i].data),
            None => None,
        }
    }

    /// Remove the blob stored under `hash`.  A missing blob is treated as
    /// success: the store may race with external removal.
    pub fn delete(&mut self, hash: &MHash)
        requires
            old(self).inv(),
        ensures
            final(self).inv(),
            final(self).s_blobs() == old(self).s_blobs().remove(hash@),
    {
        let ghost old_blobs = self.blobs@;
        match find_blob(&self.blobs, hash) {
            Some(i) => {
                let _ = self.blobs.remove(i);
                proof {
                    lemma_blobs_remove(old_blobs, i as int);
                }
            },
            None => {
                proof {
                    assert(self.s_blobs() =~= old(self).s_blobs().remove(hash@));
                }
            },
        }
    }
}

/// Law: the store is content-addressed.  Every stored blob's content hashes
/// to exactly the hash it is stored under.
pub proof fn lemma_content_addressed(bs: BlobStore, h: Seq<u8>)
    requires
        bs.inv(),
        bs.s_blobs().contains_key(h),
    ensures
        digest_of(bs.s_blobs()[h]) == h,
{
    let i = blob_index(bs.blobs@, h);
    assert(0 <= i < bs.blobs@.len() && bs.blobs@[i].hash@ == h);
}

/// Law: an upload promoted under a hash new to the store serves back
/// exactly the uploaded bytes.  The requires mirror what promotion ensures
/// of the store.
pub proof fn lemma_fresh_upload_roundtrip(
    pre: BlobStore,
    post: BlobStore,
    data: Seq<u8>,
    h: Seq<u8>,
)
    requires
        h == digest_of(data),
        !pre.s_blobs().contains_key(h),
        post.s_blobs() == (if pre.s_blobs().contains_key(h) {
            pre.s_blobs()
        } else {
            pre.s_blobs().insert(h, data)
        }),
    ensures
        post.s_blobs().contains_key(h),
        post.s_blobs()[h] == data,
        digest_of(post.s_blobs()[h]) == h,
{
}

/// Find the position of a blob by hash.
fn find_blob(bs: &Vec<Blob>, hash: &MHash) -> (r: Option<usize>)
    ensures
        match r {
            Some(i) => 0 <= i < bs@.len() && bs@[i as int].hash@ == hash@ && has_blob(bs@, hash@),
            None => !has_blob(bs@, hash@),
        },
{
    let mut i: usize = 0;
    while i < bs.len()
        invariant
            0 <= i <= bs@.len(),
            forall|j: int| 0 <= j < i ==> bs@[j].hash@ != hash@,
        decreases bs@.len() - i,
    {
        if crate::mmid::eq_bytes(bs[i].hash.as_bytes(), hash.as_bytes()) {
            return Some(i);
        }
        i = i + 1;
    }
    None
}

/// Appending a blob under a fresh hash extends the denoted map by exactly
/// that binding.
proof fn lemma_blobs_push(bs: Seq<Blob>, bs2: Seq<Blob>, h: Seq<u8>)
    requires
        unique_blob_hashes(bs),
        !has_blob(bs, h),
        bs2 == bs.push(bs2[bs.len() as int]),
        bs2[bs.len() as int].hash@ == h,
    ensures
        unique_blob_hashes(bs2),
        blobs_map_of(bs2) == blobs_map_of(bs).insert(h, bs2[bs.len() as int].data@),
{
    let n = bs.len() as int;
    assert forall|i: int, j: int| 0 <= i < j < bs2.len() implies bs2[i].hash@ != bs2[j].hash@ by {
        if j < n {
            assert(bs2[i] == bs[i] && bs2[j] == bs[j]);
        } else {
            assert(bs2[i] == bs[i]);
            if bs[i].hash@ == h {
                assert(has_blob(bs, h));
            }
        }
    }
    assert forall|x: Seq<u8>| #[trigger] has_blob(bs2, x) == (has_blob(bs, x) || x == h) by {
        if has_blob(bs2, x) {
            let j = choose|j: int| 0 <= j < bs2.len() && bs2[j].hash@ == x;
            if j < n {
                assert(bs[j].hash@ == x);
            }
        }
        if has_blob(bs, x) {
            let j = choose|j: int| 0 <= j < bs.len() && bs[j].hash@ == x;
            assert(bs2[j].hash@ == x);
        }
        if x == h {
            assert(bs2[n].hash@ == x);
        }
    }
    assert forall|x: Seq<u8>| has_blob(bs2, x) implies bs2[blob_index(bs2, x)].data@
        == blobs_map_of(bs).insert(h, bs2[n].data@)[x] by {
        let j = blob_index(bs2, x);
        assert(0 <= j < bs2.len() && bs2[j].hash@ == x);
        if x == h {
            if j < n {
                assert(has_blob(bs, h));
                assert(false);
            }
        } else {
            assert(j < n);
            assert(bs2[j] == bs[j]);
            let k = blob_index(bs, x);
            assert(0 <= k < bs.len() && bs[k].hash@ == x);
            if k != j {
                assert(false);
            }
        }
    }
    assert(blobs_map_of(bs2) =~= blobs_map_of(bs).insert(h, bs2[n].data@));
}

/// Removing the blob at position `i` shrinks the denoted map by exactly its
/// hash.
proof fn lemma_blobs_remove(bs: Seq<Blob>, i: int)
    requires
        unique_blob_hashes(bs),
        0 <= i < bs.len(),
    ensures
        unique_blob_hashes(bs.remove(i)),
        blobs_map_of(bs.remove(i)) == blobs_map_of(bs).remove(bs[i].hash@),
{
    let bs2 = bs.remove(i);
    let h0 = bs[i].hash@;
    assert forall|a: int, b: int| 0 <= a < b < bs2.len() implies bs2[a].hash@ != bs2[b].hash@ by {
        let a0 = if a < i { a } else { a + 1 };
        let b0 = if b < i { b } else { b + 1 };
        assert(bs2[a] == bs[a0] && bs2[b] == bs[b0]);
    }
    assert forall|x: Seq<u8>| #[trigger] has_blob(bs2, x) == (has_blob(bs, x) && x != h0) by {
        if has_blob(bs2, x) {
            let j = choose|j: int| 0 <= j < bs2.len() && bs2[j].hash@ == x;
            let j0 = if j < i { j } else { j + 1 };
            assert(bs2[j] == bs[j0]);
            assert(bs[j0].hash@ == x);
            if x == h0 {
                assert(bs[i].hash@ == h0 && j0 != i);
                assert(false);
            }
        }
        if has_blob(bs, x) && x != h0 {
            let j0 = choose|j0: int| 0 <= j0 < bs.len() && bs[j0].hash@ == x;
            assert(j0 != i);
            let j = if j0 < i { j0 } else { j0 - 1 };
            assert(bs2[j] == bs[j0]);
        }
    }
    assert forall|x: Seq<u8>| has_blob(bs2, x) implies bs2[blob_index(bs2, x)].data@
        == blobs_map_of(bs).remove(h0)[x] by {
        let j = blob_index(bs2, x);
        assert(0 <= j < bs2.len() && bs2[j].hash@ == x);
        let j0 = if j < i { j } else { j + 1 };
        assert(bs2[j] == bs[j0]);
        let k = blob_index(bs, x);
        assert(0 <= k < bs.len() && bs[k].hash@ == x);
        if k != j0 {
            assert(false);
        }
    }
    assert(blobs_map_of(bs2) =~= blobs_map_of(bs).remove(h0));
}

} // verus!
