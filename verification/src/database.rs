//! The metadata index: a durable mapping from MMID to entry, coupled with a
//! reverse index from content hash to the set of MMIDs referencing it.  The
//! reverse index is the reference-count structure of the blob store.

use crate::entry::{EntryV, MochiFile};
use crate::mhash::MHash;
use crate::mmid::Mmid;
use vstd::prelude::*;

verus! {

/// One reference set: a content hash together with every MMID whose entry
/// stores that hash.
pub struct RefSet {
    pub hash: MHash,
    pub mmids: Vec<Mmid>,
}

/// There is an entry with identifier `m` in `s`.
pub open spec fn has_entry(s: Seq<MochiFile>, m: Seq<u8>) -> bool {
    exists|i: int| 0 <= i < s.len() && s[i]@.mmid == m
}

/// Index of the entry with identifier `m` in `s`.
pub open spec fn entry_index(s: Seq<MochiFile>, m: Seq<u8>) -> int {
    choose|i: int| 0 <= i < s.len() && s[i]@.mmid == m
}

/// No two entries share an identifier.
pub open spec fn unique_entry_mmids(s: Seq<MochiFile>) -> bool {
    forall|i: int, j: int| 0 <= i < j < s.len() ==> s[i]@.mmid != s[j]@.mmid
}

/// The map from MMID to entry that a sequence of entries denotes.
pub open spec fn entries_map_of(s: Seq<MochiFile>) -> Map<Seq<u8>, EntryV> {
    Map::new(|m: Seq<u8>| has_entry(s, m), |m: Seq<u8>| s[entry_index(s, m)]@)
}

/// The set of identifiers that a sequence of MMIDs denotes.
pub open spec fn mmid_set_of(v: Seq<Mmid>) -> Set<Seq<u8>> {
    Set::new(|m: Seq<u8>| exists|i: int| 0 <= i < v.len() && v[i]@ == m)
}

/// No identifier occurs twice.
pub open spec fn unique_mmids(v: Seq<Mmid>) -> bool {
    forall|i: int, j: int| 0 <= i < j < v.len() ==> v[i]@ != v[j]@
}

/// There is a reference set for hash `h`.
pub open spec fn has_refset(hs: Seq<RefSet>, h: Seq<u8>) -> bool {
    exists|i: int| 0 <= i < hs.len() && hs[i].hash@ == h
}

/// Index of the reference set for hash `h`.
pub open spec fn refset_index(hs: Seq<RefSet>, h: Seq<u8>) -> int {
    choose|i: int| 0 <= i < hs.len() && hs[i].hash@ == h
}

/// No two reference sets share a hash.
pub open spec fn unique_refset_hashes(hs: Seq<RefSet>) -> bool {
    forall|i: int, j: int| 0 <= i < j < hs.len() ==> hs[i].hash@ != hs[j].hash@
}

/// The map from hash to reference set that a sequence of reference sets
/// denotes.
pub open spec fn refs_map_of(hs: Seq<RefSet>) -> Map<Seq<u8>, Set<Seq<u8>>> {
    Map::new(
        |h: Seq<u8>| has_refset(hs, h),
        |h: Seq<u8>| mmid_set_of(hs[refset_index(hs, h)].mmids@),
    )
}

/// The durable index of uploaded files.  `entries` maps each MMID to its
/// entry; `hashes` maps each content hash to the set of MMIDs referencing
/// it.  The two are kept consistent: an entry's hash always has a reference
/// set containing the entry's MMID, and every referenced MMID resolves to an
/// entry with the matching hash.
pub struct Mochibase {
    entries: Vec<MochiFile>,
    hashes: Vec<RefSet>,
}

impl Mochibase {
    /// The entries of the index, as a map from MMID to entry.
    pub closed spec fn s_entries(&self) -> Map<Seq<u8>, EntryV> {
        entries_map_of(self.entries@)
    }

    /// The reference sets of the index, as a map from hash to MMID set.
    pub closed spec fn s_refs(&self) -> Map<Seq<u8>, Set<Seq<u8>>> {
        refs_map_of(self.hashes@)
    }

    /// The entries of the index in their storage order.
    pub closed spec fn s_entry_seq(&self) -> Seq<EntryV> {
        Seq::new(self.entries@.len(), |i: int| self.entries@[i]@)
    }

    /// Structural part of the invariant: keys are unique, every stored value
    /// is well formed, and no reference set is empty.
    spec fn inv_structure(&self) -> bool {
        &&& unique_entry_mmids(self.entries@)
        &&& unique_refset_hashes(self.hashes@)
        &&& forall|i: int| 0 <= i < self.entries@.len() ==> (#[trigger] self.entries@[i]).wf()
        &&& forall|i: int|
            0 <= i < self.hashes@.len() ==> (#[trigger] self.hashes@[i]).hash.wf()
        &&& forall|i: int|
            0 <= i < self.hashes@.len() ==> unique_mmids(#[trigger] self.hashes@[i].mmids@)
        &&& forall|i: int| 0 <= i < self.hashes@.len() ==> (#[trigger] self.hashes@[i]).mmids@.len() > 0
    }

    /// Every entry's hash has a reference set that contains the entry's MMID.
    spec fn inv_entries_referenced(&self) -> bool {
        forall|i: int|
            0 <= i < self.entries@.len() ==> {
                let e = (#[trigger] self.entries@[i])@;
                &&& has_refset(self.hashes@, e.hash)
                &&& mmid_set_of(self.hashes@[refset_index(self.hashes@, e.hash)].mmids@).contains(
                    e.mmid,
                )
            }
    }

    /// Every MMID in a reference set resolves to an entry whose hash matches.
    spec fn inv_refs_resolve(&self) -> bool {
        forall|i: int, k: int|
            0 <= i < self.hashes@.len() && 0 <= k < (#[trigger] self.hashes@[i]).mmids@.len()
                ==> {
                let m = (#[trigger] self.hashes@[i].mmids@[k])@;
                &&& has_entry(self.entries@, m)
                &&& self.entries@[entry_index(self.entries@, m)]@.hash == self.hashes@[i].hash@
            }
    }

    /// The index invariant.
    pub closed spec fn inv(&self) -> bool {
        &&& self.inv_structure()
        &&& self.inv_entries_referenced()
        &&& self.inv_refs_resolve()
    }

    /// Create a new index with no data.
    pub fn new() -> (r: Mochibase)
        ensures
            r.inv(),
            r.s_entries() == Map::<Seq<u8>, EntryV>::empty(),
            r.s_refs() == Map::<Seq<u8>, Set<Seq<u8>>>::empty(),
            r.s_entry_seq() == Seq::<EntryV>::empty(),
    {
        let r = Mochibase { entries: Vec::new(), hashes: Vec::new() };
        proof {
            assert(r.s_entries() =~= Map::<Seq<u8>, EntryV>::empty());
            assert(r.s_refs() =~= Map::<Seq<u8>, Set<Seq<u8>>>::empty());
            assert(r.s_entry_seq() =~= Seq::<EntryV>::empty());
        }
        r
    }

    /// Get an entry by its MMID, or `None` if it does not exist.
    pub fn get(&self, mmid: &Mmid) -> (r: Option<&MochiFile>)
        requires
            self.inv(),
        ensures
            match r {
                Some(e) => self.s_entries().contains_key(mmid@) && e@ == self.s_entries()[mmid@],
                None => !self.s_entries().contains_key(mmid@),
            },
    {
        match find_entry(&self.entries, mmid) {
            Some(i) => Some(&self.entries[i]),
            None => None,
        }
    }

    /// The reference set of a hash, or `None` if the hash is not present.
    pub fn get_hash(&self, hash: &MHash) -> (r: Option<&Vec<Mmid>>)
        requires
            self.inv(),
        ensures
            match r {
                Some(v) => self.s_refs().contains_key(hash@) && mmid_set_of(v@)
                    == self.s_refs()[hash@],
                None => !self.s_refs().contains_key(hash@),
            },
    {
        match find_refset(&self.hashes, hash) {
            Some(i) => Some(&self.hashes[i].mmids),
            None => None,
        }
    }

    /// Whether a hash has no reference set at all: the reaper's criterion for
    /// deleting the blob after removals.
    pub fn is_last_reference(&self, hash: &MHash) -> (r: bool)
        requires
            self.inv(),
        ensures
            r == !self.s_refs().contains_key(hash@),
    {
        match find_refset(&self.hashes, hash) {
            Some(_) => false,
            None => true,
        }
    }

    /// Whether the reference set of a hash is empty; `None` if the hash has
    /// no reference set.  While the invariant holds, a present set is never
    /// empty.
    pub fn is_hash_empty(&self, hash: &MHash) -> (r: Option<bool>)
        requires
            self.inv(),
        ensures
            match r {
                Some(b) => self.s_refs().contains_key(hash@) && b == self.s_refs()[hash@].is_empty(),
                None => !self.s_refs().contains_key(hash@),
            },
    {
        match find_refset(&self.hashes, hash) {
            Some(i) => {
                let empty = self.hashes[i].mmids.len() == 0;
                proof {
                    let h = hash@;
                    let hs = self.hashes@;
                    let v = hs[refset_index(hs, h)].mmids@;
                    if v.len() > 0 {
                        assert(mmid_set_of(v).contains(v[0]@));
                        assert(!mmid_set_of(v).is_empty());
                    } else {
                        assert(mmid_set_of(v) =~= Set::<Seq<u8>>::empty());
                    }
                    assert(hs[i as int].mmids@ == v);
                }
                Some(empty)
            },
            None => None,
        }
    }

    /// Insert an entry into the index under its MMID.
    ///
    /// Fails, returning `false` and changing nothing, exactly when the MMID
    /// already exists.  On success the entry is added and its MMID joins the
    /// reference set of the entry's hash, which is created if absent.
    pub fn insert(&mut self, mmid: &Mmid, entry: MochiFile) -> (r: bool)
        requires
            old(self).inv(),
            entry.wf(),
            mmid@ == entry@.mmid,
        ensures
            final(self).inv(),
            r == !old(self).s_entries().contains_key(mmid@),
            r ==> final(self).s_entries() == old(self).s_entries().insert(mmid@, entry@),
            r ==> final(self).s_refs() == old(self).s_refs().insert(
                entry@.hash,
                (if old(self).s_refs().contains_key(entry@.hash) {
                    old(self).s_refs()[entry@.hash]
                } else {
                    Set::empty()
                }).insert(mmid@),
            ),
            r ==> final(self).s_entry_seq() == old(self).s_entry_seq().push(entry@),
            !r ==> final(self).s_entries() == old(self).s_entries() && final(self).s_refs()
                == old(self).s_refs() && final(self).s_entry_seq() == old(self).s_entry_seq(),
    {
        if find_entry(&self.entries, mmid).is_some() {
            return false;
        }
        let ghost old_entries = self.entries@;
        let ghost old_hashes = self.hashes@;
        let ghost h = entry@.hash;
        let hash_copy = entry.hash().clone();
        self.entries.push(entry);
        proof {
            lemma_entries_push(old_entries, self.entries@[old_entries.len() as int]);
            assert(self.entries@ == old_entries.push(self.entries@[old_entries.len() as int]));
        }
        match find_refset(&self.hashes, &hash_copy) {
            Some(i) => {
                proof {
                    // The new MMID is in no reference set yet: it resolves to
                    // no entry of the old index.
                    assert forall|k: int|
                        0 <= k < old_hashes[i as int].mmids@.len() implies old_hashes[i as int].mmids@[k]@
                        != mmid@ by {
                        if old_hashes[i as int].mmids@[k]@ == mmid@ {
                            assert(has_entry(old_entries, mmid@));
                        }
                    }
                }
                let rs = &mut self.hashes[i];
                rs.mmids.push(mmid.clone());
                proof {
                    lemma_refs_update_push(old_hashes, i as int, mmid@, self.hashes@);
                    assert forall|j: int|
                        0 <= j < self.hashes@.len() && (#[trigger] self.hashes@[j]).hash@
                            == h implies mmid_set_of(self.hashes@[j].mmids@) == mmid_set_of(
                        old_hashes[refset_index(old_hashes, h)].mmids@,
                    ).insert(mmid@) by {
                        if j != i as int {
                            assert(self.hashes@[i as int].hash@ == h);
                            assert(false);
                        }
                    }
                }
            },
            None => {
                let mut mv: Vec<Mmid> = Vec::new();
                mv.push(mmid.clone());
                self.hashes.push(RefSet { hash: hash_copy, mmids: mv });
                proof {
                    lemma_refs_push_new(old_hashes, self.hashes@, h, mmid@);
                    assert forall|j: int|
                        0 <= j < self.hashes@.len() && (#[trigger] self.hashes@[j]).hash@
                            == h implies mmid_set_of(self.hashes@[j].mmids@) == Set::<
                        Seq<u8>,
                    >::empty().insert(mmid@) by {
                        if j != old_hashes.len() as int {
                            assert(self.hashes@[old_hashes.len() as int].hash@ == h);
                            assert(false);
                        }
                    }
                }
            },
        }
        proof {
            lemma_insert_restores_inv(*old(self), *self, mmid@, h);
            assert(self.s_entry_seq() =~= old(self).s_entry_seq().push(
                self.entries@[old(self).entries@.len() as int]@,
            ));
        }
        true
    }

    /// Remove an MMID from the index entirely.
    ///
    /// Returns whether the MMID existed.  On removal the MMID also leaves the
    /// reference set of its entry's hash; a reference set that becomes empty
    /// disappears from the index altogether.
    pub fn remove_mmid(&mut self, mmid: &Mmid) -> (r: bool)
        requires
            old(self).inv(),
        ensures
            final(self).inv(),
            r == old(self).s_entries().contains_key(mmid@),
            r ==> final(self).s_entries() == old(self).s_entries().remove(mmid@),
            r ==> ({
                let h = old(self).s_entries()[mmid@].hash;
                &&& old(self).s_refs().contains_key(h)
                &&& (old(self).s_refs()[h].remove(mmid@) =~= Set::<Seq<u8>>::empty()
                    ==> final(self).s_refs() == old(self).s_refs().remove(h))
                &&& (!(old(self).s_refs()[h].remove(mmid@) =~= Set::<Seq<u8>>::empty())
                    ==> final(self).s_refs() == old(self).s_refs().insert(h, old(self).s_refs()[h].remove(mmid@)))
            }),
            !r ==> final(self).s_entries() == old(self).s_entries() && final(self).s_refs()
                == old(self).s_refs() && final(self).s_entry_seq() == old(self).s_entry_seq(),
    {
        let ei = match find_entry(&self.entries, mmid) {
            Some(i) => i,
            None => {
                return false;
            },
        };
        let ghost old_entries = self.entries@;
        let ghost old_hashes = self.hashes@;
        let ghost m = mmid@;
        let ghost h = old_entries[ei as int]@.hash;
        let hash_copy = self.entries[ei].hash().clone();
        let _ = self.entries.remove(ei);
        proof {
            lemma_entries_remove(old_entries, ei as int);
        }
        let hi = match find_refset(&self.hashes, &hash_copy) {
            Some(i) => i,
            None => {
                proof {
                    // The invariant says the entry's hash has a reference set.
                    assert(old_entries[ei as int].wf());
                    assert(has_refset(old_hashes, h));
                }
                proof {
                    assert(false);
                }
                return false;
            },
        };
        let ki = match find_member(&self.hashes[hi].mmids, mmid) {
            Some(k) => k,
            None => {
                proof {
                    assert(mmid_set_of(old_hashes[refset_index(old_hashes, h)].mmids@).contains(m));
                    assert(false);
                }
                return false;
            },
        };
        let ghost v = old_hashes[hi as int].mmids@;
        let rs = &mut self.hashes[hi];
        let _ = rs.mmids.remove(ki);
        proof {
            lemma_mmid_seq_remove(v, ki as int);
            lemma_refs_update_set(
                old_hashes,
                hi as int,
                self.hashes@,
                mmid_set_of(v).remove(m),
            );
        }
        let now_empty = self.hashes[hi].mmids.len() == 0;
        let ghost mid_hashes = self.hashes@;
        if now_empty {
            let _ = self.hashes.remove(hi);
            proof {
                assert(self.hashes@ =~= old_hashes.remove(hi as int));
                assert(mmid_set_of(mid_hashes[hi as int].mmids@) =~= Set::<Seq<u8>>::empty());
                lemma_refs_remove(mid_hashes, hi as int);
                assert(refs_map_of(self.hashes@) =~= refs_map_of(old_hashes).remove(h)) by {
                    assert(refs_map_of(mid_hashes) == refs_map_of(old_hashes).insert(
                        h,
                        mmid_set_of(v).remove(m),
                    ));
                    assert(refs_map_of(self.hashes@) == refs_map_of(mid_hashes).remove(h));
                }
                assert(mmid_set_of(v).remove(m) =~= Set::<Seq<u8>>::empty()) by {
                    assert(mmid_set_of(mid_hashes[hi as int].mmids@) == mmid_set_of(v).remove(m));
                }
            }
        } else {
            proof {
                assert(!(mmid_set_of(v).remove(m) =~= Set::<Seq<u8>>::empty())) by {
                    let v2 = mid_hashes[hi as int].mmids@;
                    assert(mmid_set_of(v2) == mmid_set_of(v).remove(m));
                    assert(v2.len() > 0);
                    assert(mmid_set_of(v2).contains(v2[0]@));
                }
            }
        }
        proof {
            lemma_remove_restores_inv(*old(self), *self, m, h);
            assert(self.s_entries() =~= old(self).s_entries().remove(m));
            assert(old(self).s_refs().contains_key(h));
            assert(old(self).s_refs()[h] == mmid_set_of(v));
        }
        true
    }

    /// Remove a hash from the index entirely.
    ///
    /// Refuses, returning `Some(false)`, while the hash still has references;
    /// returns `None` for an unknown hash.  While the invariant holds a
    /// present reference set is never empty, so this can only report the
    /// state; it is kept for parity with the storage format's surface.
    pub fn remove_hash(&mut self, hash: &MHash) -> (r: Option<bool>)
        requires
            old(self).inv(),
        ensures
            final(self).inv(),
            final(self).s_entries() == old(self).s_entries(),
            final(self).s_refs() == old(self).s_refs(),
            match r {
                Some(b) => old(self).s_refs().contains_key(hash@)
                    && b == old(self).s_refs()[hash@].is_empty(),
                None => !old(self).s_refs().contains_key(hash@),
            },
    {
        let r = self.is_hash_empty(hash);
        match r {
            Some(true) => Some(true),
            Some(false) => Some(false),
            None => None,
        }
    }

    /// All entries, in storage order: the snapshot that the reaper and the
    /// persistence layer walk.
    pub fn entries(&self) -> (r: &Vec<MochiFile>)
        ensures
            r@.len() == self.s_entry_seq().len(),
            forall|i: int| 0 <= i < r@.len() ==> (#[trigger] r@[i])@ == self.s_entry_seq()[i],
    {
        &self.entries
    }

    /// The number of entries in the index.
    pub fn len(&self) -> (r: usize)
        ensures
            r == self.s_entry_seq().len(),
    {
        self.entries.len()
    }
}

/// Law: every entry's hash is tracked, and the entry's own MMID is a member
/// of that hash's reference set.
pub proof fn lemma_entry_ref_membership(db: Mochibase, m: Seq<u8>)
    requires
        db.inv(),
        db.s_entries().contains_key(m),
    ensures
        db.s_refs().contains_key(db.s_entries()[m].hash),
        db.s_refs()[db.s_entries()[m].hash].contains(m),
{
    let i = entry_index(db.entries@, m);
    assert(0 <= i < db.entries@.len() && db.entries@[i]@.mmid == m);
    let e = db.entries@[i]@;
    assert(has_refset(db.hashes@, e.hash));
    assert(mmid_set_of(db.hashes@[refset_index(db.hashes@, e.hash)].mmids@).contains(e.mmid));
}

/// The stored order and the map agree: each position holds the entry its
/// MMID maps to, positions carry distinct MMIDs, and every mapped MMID
/// appears at some position.
pub proof fn lemma_entry_seq_matches_map(db: Mochibase)
    requires
        db.inv(),
    ensures
        forall|k: int|
            0 <= k < db.s_entry_seq().len() ==> db.s_entries().contains_key(
                (#[trigger] db.s_entry_seq()[k]).mmid,
            ) && db.s_entries()[db.s_entry_seq()[k].mmid] == db.s_entry_seq()[k],
        forall|k1: int, k2: int|
            0 <= k1 < k2 < db.s_entry_seq().len() ==> db.s_entry_seq()[k1].mmid
                != db.s_entry_seq()[k2].mmid,
        forall|m: Seq<u8>| #[trigger]
            db.s_entries().contains_key(m) ==> exists|k: int|
                0 <= k < db.s_entry_seq().len() && db.s_entry_seq()[k].mmid == m,
        forall|k: int|
            0 <= k < db.s_entry_seq().len() ==> crate::entry::valid_entry(
                #[trigger] db.s_entry_seq()[k],
            ),
        forall|k: int|
            0 <= k < db.s_entry_seq().len() ==> (#[trigger] db.s_entry_seq()[k]).name.len()
                <= usize::MAX && db.s_entry_seq()[k].mime_type.len() <= usize::MAX,
        db.s_entry_seq().len() <= usize::MAX,
{
    assert forall|k: int|
        0 <= k < db.s_entry_seq().len() implies crate::entry::valid_entry(
        #[trigger] db.s_entry_seq()[k],
    ) && db.s_entry_seq()[k].name.len() <= usize::MAX && db.s_entry_seq()[k].mime_type.len()
        <= usize::MAX by {
        assert(db.entries@[k].wf());
        assert(db.s_entry_seq()[k] == db.entries@[k]@);
        crate::entry::lemma_entry_view_len(&db.entries@[k]);
    }
    assert(db.entries.len() == db.entries@.len());
    assert forall|k: int| 0 <= k < db.s_entry_seq().len() implies db.s_entries().contains_key(
        (#[trigger] db.s_entry_seq()[k]).mmid,
    ) && db.s_entries()[db.s_entry_seq()[k].mmid] == db.s_entry_seq()[k] by {
        let m = db.s_entry_seq()[k].mmid;
        assert(db.entries@[k]@.mmid == m);
        assert(has_entry(db.entries@, m));
        let i = entry_index(db.entries@, m);
        assert(0 <= i < db.entries@.len() && db.entries@[i]@.mmid == m);
        if i != k {
            assert(false);
        }
    }
    assert forall|m: Seq<u8>| #[trigger] db.s_entries().contains_key(m) implies exists|k: int|
        0 <= k < db.s_entry_seq().len() && db.s_entry_seq()[k].mmid == m by {
        let i = entry_index(db.entries@, m);
        assert(0 <= i < db.entries@.len() && db.entries@[i]@.mmid == m);
        assert(db.s_entry_seq()[i].mmid == m);
    }
}

/// Law: every tracked reference set is non-empty, and each of its members
/// resolves to an entry whose hash matches.
pub proof fn lemma_refs_resolve(db: Mochibase, h: Seq<u8>)
    requires
        db.inv(),
        db.s_refs().contains_key(h),
    ensures
        !db.s_refs()[h].is_empty(),
        forall|m: Seq<u8>| #[trigger]
            db.s_refs()[h].contains(m) ==> db.s_entries().contains_key(m)
                && db.s_entries()[m].hash == h,
{
    let i = refset_index(db.hashes@, h);
    assert(0 <= i < db.hashes@.len() && db.hashes@[i].hash@ == h);
    let v = db.hashes@[i].mmids@;
    assert(v.len() > 0);
    assert(mmid_set_of(v).contains(v[0]@));
    assert forall|m: Seq<u8>| #[trigger] db.s_refs()[h].contains(m) implies db.s_entries()
        .contains_key(m) && db.s_entries()[m].hash == h by {
        let k = choose|k: int| 0 <= k < v.len() && v[k]@ == m;
        assert(has_entry(db.entries@, m));
        assert(db.entries@[entry_index(db.entries@, m)]@.hash == db.hashes@[i].hash@);
    }
}

/// Law: while another MMID still references the same hash, removing one of
/// the two leaves the hash tracked, so the reaper will not delete its blob.
/// The requires mirror what `remove_mmid` ensures of a successful removal.
pub proof fn lemma_remove_keeps_shared_hash(
    pre: Mochibase,
    post: Mochibase,
    m1: Seq<u8>,
    m2: Seq<u8>,
)
    requires
        pre.inv(),
        pre.s_entries().contains_key(m1),
        pre.s_entries().contains_key(m2),
        m1 != m2,
        pre.s_entries()[m1].hash == pre.s_entries()[m2].hash,
        ({
            let h = pre.s_entries()[m1].hash;
            &&& (pre.s_refs()[h].remove(m1) =~= Set::<Seq<u8>>::empty() ==> post.s_refs()
                == pre.s_refs().remove(h))
            &&& (!(pre.s_refs()[h].remove(m1) =~= Set::<Seq<u8>>::empty()) ==> post.s_refs()
                == pre.s_refs().insert(h, pre.s_refs()[h].remove(m1)))
        }),
    ensures
        post.s_refs().contains_key(pre.s_entries()[m1].hash),
        post.s_refs()[pre.s_entries()[m1].hash].contains(m2),
{
    let h = pre.s_entries()[m1].hash;
    lemma_entry_ref_membership(pre, m1);
    lemma_entry_ref_membership(pre, m2);
    assert(pre.s_refs()[h].contains(m2));
    assert(pre.s_refs()[h].remove(m1).contains(m2));
    assert(!(pre.s_refs()[h].remove(m1) =~= Set::<Seq<u8>>::empty()));
}

/// Find the position of an entry by MMID.
fn find_entry(s: &Vec<MochiFile>, mmid: &Mmid) -> (r: Option<usize>)
    ensures
        match r {
            Some(i) => 0 <= i < s@.len() && s@[i as int]@.mmid == mmid@,
            None => !has_entry(s@, mmid@),
        },
{
    let mut i: usize = 0;
    while i < s.len()
        invariant
            0 <= i <= s@.len(),
            forall|j: int| 0 <= j < i ==> s@[j]@.mmid != mmid@,
        decreases s@.len() - i,
    {
        if crate::mmid::eq_bytes(s[i].mmid().as_bytes(), mmid.as_bytes()) {
            return Some(i);
        }
        i = i + 1;
    }
    None
}

/// Find the position of a reference set by hash.
fn find_refset(hs: &Vec<RefSet>, hash: &MHash) -> (r: Option<usize>)
    requires
        unique_refset_hashes(hs@),
    ensures
        match r {
            Some(i) => 0 <= i < hs@.len() && hs@[i as int].hash@ == hash@ && i
                == refset_index(hs@, hash@) && has_refset(hs@, hash@),
            None => !has_refset(hs@, hash@),
        },
{
    let mut i: usize = 0;
    while i < hs.len()
        invariant
            unique_refset_hashes(hs@),
            0 <= i <= hs@.len(),
            forall|j: int| 0 <= j < i ==> hs@[j].hash@ != hash@,
        decreases hs@.len() - i,
    {
        if crate::mmid::eq_bytes(hs[i].hash.as_bytes(), hash.as_bytes()) {
            proof {
                let k = refset_index(hs@, hash@);
                assert(0 <= k < hs@.len() && hs@[k].hash@ == hash@);
                if k != i as int {
                    assert(false);
                }
            }
            return Some(i);
        }
        i = i + 1;
    }
    None
}

/// Find the position of an MMID inside a reference set's member list.
fn find_member(v: &Vec<Mmid>, mmid: &Mmid) -> (r: Option<usize>)
    ensures
        match r {
            Some(i) => 0 <= i < v@.len() && v@[i as int]@ == mmid@,
            None => !mmid_set_of(v@).contains(mmid@),
        },
{
    let mut i: usize = 0;
    while i < v.len()
        invariant
            0 <= i <= v@.len(),
            forall|j: int| 0 <= j < i ==> v@[j]@ != mmid@,
        decreases v@.len() - i,
    {
        if crate::mmid::eq_bytes(v[i].as_bytes(), mmid.as_bytes()) {
            return Some(i);
        }
        i = i + 1;
    }
    None
}

/// Pushing an entry with a fresh MMID extends the denoted map by exactly that
/// binding.
proof fn lemma_entries_push(s: Seq<MochiFile>, e: MochiFile)
    requires
        unique_entry_mmids(s),
        !has_entry(s, e@.mmid),
    ensures
        unique_entry_mmids(s.push(e)),
        entries_map_of(s.push(e)) == entries_map_of(s).insert(e@.mmid, e@),
{
    let s2 = s.push(e);
    assert forall|i: int, j: int| 0 <= i < j < s2.len() implies s2[i]@.mmid != s2[j]@.mmid by {
        if j < s.len() {
            assert(s2[i] == s[i] && s2[j] == s[j]);
        } else {
            assert(s2[j] == e);
            assert(s2[i] == s[i]);
            if s[i]@.mmid == e@.mmid {
                assert(has_entry(s, e@.mmid));
            }
        }
    }
    assert forall|m: Seq<u8>| #[trigger] has_entry(s2, m) == (has_entry(s, m) || m == e@.mmid) by {
        if has_entry(s2, m) {
            let i = choose|i: int| 0 <= i < s2.len() && s2[i]@.mmid == m;
            if i < s.len() {
                assert(s[i]@.mmid == m);
            }
        }
        if has_entry(s, m) {
            let i = choose|i: int| 0 <= i < s.len() && s[i]@.mmid == m;
            assert(s2[i]@.mmid == m);
        }
        if m == e@.mmid {
            assert(s2[s.len() as int]@.mmid == m);
        }
    }
    assert forall|m: Seq<u8>| has_entry(s2, m) implies s2[entry_index(s2, m)]@
        == entries_map_of(s).insert(e@.mmid, e@)[m] by {
        let i = entry_index(s2, m);
        assert(0 <= i < s2.len() && s2[i]@.mmid == m);
        if m == e@.mmid {
            if i < s.len() {
                assert(has_entry(s, m));
                assert(false);
            }
            assert(s2[i] == e);
        } else {
            assert(i < s.len());
            assert(s2[i] == s[i]);
            let k = entry_index(s, m);
            assert(0 <= k < s.len() && s[k]@.mmid == m);
            if k != i {
                assert(false);
            }
        }
    }
    assert(entries_map_of(s2) =~= entries_map_of(s).insert(e@.mmid, e@));
}

/// Removing the entry at position `i` shrinks the denoted map by exactly its
/// MMID.
proof fn lemma_entries_remove(s: Seq<MochiFile>, i: int)
    requires
        unique_entry_mmids(s),
        0 <= i < s.len(),
    ensures
        unique_entry_mmids(s.remove(i)),
        entries_map_of(s.remove(i)) == entries_map_of(s).remove(s[i]@.mmid),
{
    let s2 = s.remove(i);
    let m0 = s[i]@.mmid;
    assert forall|a: int, b: int| 0 <= a < b < s2.len() implies s2[a]@.mmid != s2[b]@.mmid by {
        let a0 = if a < i { a } else { a + 1 };
        let b0 = if b < i { b } else { b + 1 };
        assert(s2[a] == s[a0] && s2[b] == s[b0]);
    }
    assert forall|m: Seq<u8>| #[trigger] has_entry(s2, m) == (has_entry(s, m) && m != m0) by {
        if has_entry(s2, m) {
            let j = choose|j: int| 0 <= j < s2.len() && s2[j]@.mmid == m;
            let j0 = if j < i { j } else { j + 1 };
            assert(s2[j] == s[j0]);
            assert(s[j0]@.mmid == m);
            if m == m0 {
                assert(s[i]@.mmid == m0 && s[j0]@.mmid == m0 && j0 != i);
                assert(false);
            }
        }
        if has_entry(s, m) && m != m0 {
            let j0 = choose|j0: int| 0 <= j0 < s.len() && s[j0]@.mmid == m;
            assert(j0 != i);
            let j = if j0 < i { j0 } else { j0 - 1 };
            assert(s2[j] == s[j0]);
        }
    }
    assert forall|m: Seq<u8>| has_entry(s2, m) implies s2[entry_index(s2, m)]@ == entries_map_of(
        s,
    ).remove(m0)[m] by {
        let j = entry_index(s2, m);
        assert(0 <= j < s2.len() && s2[j]@.mmid == m);
        let j0 = if j < i { j } else { j + 1 };
        assert(s2[j] == s[j0]);
        let k = entry_index(s, m);
        assert(0 <= k < s.len() && s[k]@.mmid == m);
        if k != j0 {
            assert(false);
        }
    }
    assert(entries_map_of(s2) =~= entries_map_of(s).remove(m0));
}

/// Removing the identifier at position `k` shrinks the denoted set by exactly
/// that identifier.
proof fn lemma_mmid_seq_remove(v: Seq<Mmid>, k: int)
    requires
        unique_mmids(v),
        0 <= k < v.len(),
    ensures
        unique_mmids(v.remove(k)),
        mmid_set_of(v.remove(k)) == mmid_set_of(v).remove(v[k]@),
{
    let v2 = v.remove(k);
    let m0 = v[k]@;
    assert forall|a: int, b: int| 0 <= a < b < v2.len() implies v2[a]@ != v2[b]@ by {
        let a0 = if a < k { a } else { a + 1 };
        let b0 = if b < k { b } else { b + 1 };
        assert(v2[a] == v[a0] && v2[b] == v[b0]);
    }
    assert forall|x: Seq<u8>| #[trigger] mmid_set_of(v2).contains(x) == (mmid_set_of(v).contains(x)
        && x != m0) by {
        if mmid_set_of(v2).contains(x) {
            let j = choose|j: int| 0 <= j < v2.len() && v2[j]@ == x;
            let j0 = if j < k { j } else { j + 1 };
            assert(v2[j] == v[j0]);
            assert(v[j0]@ == x);
            if x == m0 {
                assert(v[k]@ == m0 && j0 != k);
                assert(false);
            }
        }
        if mmid_set_of(v).contains(x) && x != m0 {
            let j0 = choose|j0: int| 0 <= j0 < v.len() && v[j0]@ == x;
            assert(j0 != k);
            let j = if j0 < k { j0 } else { j0 - 1 };
            assert(v2[j] == v[j0]);
        }
    }
    assert(mmid_set_of(v2) =~= mmid_set_of(v).remove(m0));
}

/// Replacing the member list of the reference set at position `i` updates the
/// denoted map at exactly that hash.
proof fn lemma_refs_update_set(hs: Seq<RefSet>, i: int, hs2: Seq<RefSet>, s2: Set<Seq<u8>>)
    requires
        unique_refset_hashes(hs),
        0 <= i < hs.len(),
        hs2.len() == hs.len(),
        forall|j: int| 0 <= j < hs.len() && j != i ==> hs2[j] == hs[j],
        hs2[i].hash@ == hs[i].hash@,
        mmid_set_of(hs2[i].mmids@) == s2,
    ensures
        unique_refset_hashes(hs2),
        refs_map_of(hs2) == refs_map_of(hs).insert(hs[i].hash@, s2),
{
    let h = hs[i].hash@;
    assert forall|a: int, b: int| 0 <= a < b < hs2.len() implies hs2[a].hash@ != hs2[b].hash@ by {
        assert(hs2[a].hash@ == hs[a].hash@ && hs2[b].hash@ == hs[b].hash@);
    }
    assert forall|x: Seq<u8>| #[trigger] has_refset(hs2, x) == has_refset(hs, x) by {
        if has_refset(hs2, x) {
            let j = choose|j: int| 0 <= j < hs2.len() && hs2[j].hash@ == x;
            assert(hs[j].hash@ == x);
        }
        if has_refset(hs, x) {
            let j = choose|j: int| 0 <= j < hs.len() && hs[j].hash@ == x;
            assert(hs2[j].hash@ == x);
        }
    }
    assert forall|x: Seq<u8>| has_refset(hs2, x) implies mmid_set_of(
        hs2[refset_index(hs2, x)].mmids@,
    ) == refs_map_of(hs).insert(h, s2)[x] by {
        let j = refset_index(hs2, x);
        assert(0 <= j < hs2.len() && hs2[j].hash@ == x);
        let j0 = refset_index(hs, x);
        assert(0 <= j0 < hs.len() && hs[j0].hash@ == x);
        assert(hs2[j].hash@ == hs[j].hash@);
        if j != j0 {
            assert(false);
        }
        if x == h {
            if j != i {
                assert(hs[j].hash@ == hs[i].hash@);
                assert(false);
            }
        } else {
            assert(j != i);
            assert(hs2[j] == hs[j]);
        }
    }
    assert(refs_map_of(hs2) =~= refs_map_of(hs).insert(h, s2));
}

/// Removing the reference set at position `i` shrinks the denoted map by
/// exactly its hash.
proof fn lemma_refs_remove(hs: Seq<RefSet>, i: int)
    requires
        unique_refset_hashes(hs),
        0 <= i < hs.len(),
    ensures
        unique_refset_hashes(hs.remove(i)),
        refs_map_of(hs.remove(i)) == refs_map_of(hs).remove(hs[i].hash@),
{
    let hs2 = hs.remove(i);
    let h0 = hs[i].hash@;
    assert forall|a: int, b: int| 0 <= a < b < hs2.len() implies hs2[a].hash@ != hs2[b].hash@ by {
        let a0 = if a < i { a } else { a + 1 };
        let b0 = if b < i { b } else { b + 1 };
        assert(hs2[a] == hs[a0] && hs2[b] == hs[b0]);
    }
    assert forall|x: Seq<u8>| #[trigger] has_refset(hs2, x) == (has_refset(hs, x) && x != h0) by {
        if has_refset(hs2, x) {
            let j = choose|j: int| 0 <= j < hs2.len() && hs2[j].hash@ == x;
            let j0 = if j < i { j } else { j + 1 };
            assert(hs2[j] == hs[j0]);
            assert(hs[j0].hash@ == x);
            if x == h0 {
                assert(hs[i].hash@ == h0 && j0 != i);
                assert(false);
            }
        }
        if has_refset(hs, x) && x != h0 {
            let j0 = choose|j0: int| 0 <= j0 < hs.len() && hs[j0].hash@ == x;
            assert(j0 != i);
            let j = if j0 < i { j0 } else { j0 - 1 };
            assert(hs2[j] == hs[j0]);
        }
    }
    assert forall|x: Seq<u8>| has_refset(hs2, x) implies mmid_set_of(
        hs2[refset_index(hs2, x)].mmids@,
    ) == refs_map_of(hs).remove(h0)[x] by {
        let j = refset_index(hs2, x);
        assert(0 <= j < hs2.len() && hs2[j].hash@ == x);
        let j0 = if j < i { j } else { j + 1 };
        assert(hs2[j] == hs[j0]);
        let k = refset_index(hs, x);
        assert(0 <= k < hs.len() && hs[k].hash@ == x);
        if k != j0 {
            assert(false);
        }
    }
    assert(refs_map_of(hs2) =~= refs_map_of(hs).remove(h0));
}

/// After `remove_mmid` has taken the entry and its reference out, the index
/// invariant holds again.
proof fn lemma_remove_restores_inv(pre: Mochibase, post: Mochibase, m: Seq<u8>, h: Seq<u8>)
    requires
        pre.inv(),
        exists|eidx: int|
            0 <= eidx < pre.entries@.len() && pre.entries@[eidx]@.mmid == m
                && pre.entries@[eidx]@.hash == h && post.entries@ == pre.entries@.remove(eidx),
        unique_entry_mmids(post.entries@),
        entries_map_of(post.entries@) == entries_map_of(pre.entries@).remove(m),
        unique_refset_hashes(post.hashes@),
        has_refset(pre.hashes@, h),
        ({
            let hidx = refset_index(pre.hashes@, h);
            let v = pre.hashes@[hidx].mmids@;
            ||| (post.hashes@ == pre.hashes@.remove(hidx) && mmid_set_of(v).remove(m)
                =~= Set::<Seq<u8>>::empty())
            ||| (post.hashes@.len() == pre.hashes@.len() && (forall|j: int|
                0 <= j < pre.hashes@.len() && j != hidx ==> post.hashes@[j] == pre.hashes@[j])
                && post.hashes@[hidx].hash@ == h && post.hashes@[hidx].mmids@.len() > 0
                && mmid_set_of(post.hashes@[hidx].mmids@) == mmid_set_of(v).remove(m)
                && unique_mmids(post.hashes@[hidx].mmids@))
        }),
    ensures
        post.inv(),
{
    let hidx = refset_index(pre.hashes@, h);
    let v = pre.hashes@[hidx].mmids@;
    let eidx = choose|eidx: int|
        0 <= eidx < pre.entries@.len() && pre.entries@[eidx]@.mmid == m && pre.entries@[eidx]@.hash
            == h && post.entries@ == pre.entries@.remove(eidx);
    let removed_set = post.hashes@ == pre.hashes@.remove(hidx);
    // Only the reference set for h can mention m: m resolves to the entry at
    // eidx, whose hash is h.
    assert forall|j: int, k: int|
        0 <= j < pre.hashes@.len() && 0 <= k < pre.hashes@[j].mmids@.len()
            && (#[trigger] pre.hashes@[j].mmids@[k])@ == m implies j == hidx by {
        assert(entry_index(pre.entries@, m) == eidx) by {
            let e0 = entry_index(pre.entries@, m);
            assert(0 <= e0 < pre.entries@.len() && pre.entries@[e0]@.mmid == m);
            if e0 != eidx {
                assert(false);
            }
        }
        assert(pre.hashes@[j].hash@ == h);
        if j != hidx {
            assert(pre.hashes@[hidx].hash@ == h);
            assert(false);
        }
    }
    // Structural invariant.
    assert(post.inv_structure()) by {
        if removed_set {
            assert forall|j: int| 0 <= j < post.hashes@.len() implies (#[trigger] post.hashes@[j]).hash.wf()
                && unique_mmids(post.hashes@[j].mmids@) && post.hashes@[j].mmids@.len() > 0 by {
                let j0 = if j < hidx { j } else { j + 1 };
                assert(post.hashes@[j] == pre.hashes@[j0]);
            }
        } else {
            assert forall|j: int| 0 <= j < post.hashes@.len() implies (#[trigger] post.hashes@[j]).hash.wf()
                && unique_mmids(post.hashes@[j].mmids@) && post.hashes@[j].mmids@.len() > 0 by {
                if j != hidx {
                    assert(post.hashes@[j] == pre.hashes@[j]);
                } else {
                    assert(post.hashes@[hidx].hash@ == h);
                    assert(pre.hashes@[hidx].hash.wf());
                    assert(post.hashes@[hidx].hash@ == pre.hashes@[hidx].hash@);
                    assert(post.hashes@[hidx].hash.wf());
                }
            }
        }
        assert forall|j: int| 0 <= j < post.entries@.len() implies (#[trigger] post.entries@[j]).wf() by {
            let j0 = if j < eidx { j } else { j + 1 };
            assert(post.entries@[j] == pre.entries@[j0]);
        }
    }
    // Entries still referenced.
    assert forall|i: int| 0 <= i < post.entries@.len() implies {
        let e = (#[trigger] post.entries@[i])@;
        &&& has_refset(post.hashes@, e.hash)
        &&& mmid_set_of(post.hashes@[refset_index(post.hashes@, e.hash)].mmids@).contains(e.mmid)
    } by {
        let i0 = if i < eidx { i } else { i + 1 };
        assert(post.entries@[i] == pre.entries@[i0]);
        let e = pre.entries@[i0]@;
        assert(has_refset(pre.hashes@, e.hash));
        assert(mmid_set_of(pre.hashes@[refset_index(pre.hashes@, e.hash)].mmids@).contains(e.mmid));
        assert(e.mmid != m) by {
            if e.mmid == m {
                assert(i0 != eidx);
                assert(pre.entries@[eidx]@.mmid == m);
                assert(false);
            }
        }
        let j0 = refset_index(pre.hashes@, e.hash);
        assert(0 <= j0 < pre.hashes@.len() && pre.hashes@[j0].hash@ == e.hash);
        if removed_set {
            assert(mmid_set_of(v).remove(m) =~= Set::<Seq<u8>>::empty());
            assert(e.hash != h) by {
                if e.hash == h {
                    assert(j0 == hidx) by {
                        if j0 != hidx {
                            assert(pre.hashes@[hidx].hash@ == h);
                            assert(false);
                        }
                    }
                    assert(mmid_set_of(v).contains(e.mmid));
                    assert(mmid_set_of(v).remove(m).contains(e.mmid));
                    assert(false);
                }
            }
            assert(j0 != hidx);
            let j = if j0 < hidx { j0 } else { j0 - 1 };
            assert(post.hashes@[j] == pre.hashes@[j0]);
            assert(has_refset(post.hashes@, e.hash));
            let jf = refset_index(post.hashes@, e.hash);
            assert(0 <= jf < post.hashes@.len() && post.hashes@[jf].hash@ == e.hash);
            if jf != j {
                assert(false);
            }
        } else {
            if e.hash == h {
                assert(j0 == hidx) by {
                    if j0 != hidx {
                        assert(pre.hashes@[hidx].hash@ == h);
                        assert(false);
                    }
                }
                assert(post.hashes@[hidx].hash@ == e.hash);
                assert(has_refset(post.hashes@, e.hash));
                let jf = refset_index(post.hashes@, e.hash);
                if jf != hidx {
                    assert(false);
                }
                assert(mmid_set_of(post.hashes@[hidx].mmids@) == mmid_set_of(v).remove(m));
                assert(mmid_set_of(v).contains(e.mmid));
            } else {
                assert(j0 != hidx);
                assert(post.hashes@[j0] == pre.hashes@[j0]);
                assert(has_refset(post.hashes@, e.hash));
                let jf = refset_index(post.hashes@, e.hash);
                if jf != j0 {
                    assert(false);
                }
            }
        }
    }
    // References still resolve.
    assert forall|i: int, k: int|
        0 <= i < post.hashes@.len() && 0 <= k < (#[trigger] post.hashes@[i]).mmids@.len() implies {
        let x = (#[trigger] post.hashes@[i].mmids@[k])@;
        &&& has_entry(post.entries@, x)
        &&& post.entries@[entry_index(post.entries@, x)]@.hash == post.hashes@[i].hash@
    } by {
        let x = post.hashes@[i].mmids@[k]@;
        // Map the post reference back to a pre reference.
        let i0 = if removed_set {
            if i < hidx {
                i
            } else {
                i + 1
            }
        } else {
            i
        };
        assert(0 <= i0 < pre.hashes@.len());
        assert(post.hashes@[i].hash@ == pre.hashes@[i0].hash@ && mmid_set_of(
            post.hashes@[i].mmids@,
        ).subset_of(mmid_set_of(pre.hashes@[i0].mmids@))) by {
            if removed_set {
                assert(post.hashes@[i] == pre.hashes@[i0]);
            } else {
                if i != hidx {
                    assert(post.hashes@[i] == pre.hashes@[i0]);
                } else {
                    assert(mmid_set_of(post.hashes@[hidx].mmids@) == mmid_set_of(v).remove(m));
                }
            }
        }
        assert(mmid_set_of(post.hashes@[i].mmids@).contains(x));
        assert(mmid_set_of(pre.hashes@[i0].mmids@).contains(x));
        let k0 = choose|k0: int|
            0 <= k0 < pre.hashes@[i0].mmids@.len() && pre.hashes@[i0].mmids@[k0]@ == x;
        assert(has_entry(pre.entries@, x));
        assert(pre.entries@[entry_index(pre.entries@, x)]@.hash == pre.hashes@[i0].hash@);
        assert(x != m) by {
            if x == m {
                if removed_set {
                    assert(i0 == hidx);
                    assert(post.hashes@[i] == pre.hashes@[hidx]);
                    assert(false);
                } else {
                    if i == hidx {
                        assert(mmid_set_of(post.hashes@[hidx].mmids@) == mmid_set_of(v).remove(m));
                        assert(!mmid_set_of(v).remove(m).contains(m));
                        assert(false);
                    } else {
                        assert(i0 == hidx);
                        assert(false);
                    }
                }
            }
        }
        let e0 = entry_index(pre.entries@, x);
        assert(0 <= e0 < pre.entries@.len() && pre.entries@[e0]@.mmid == x);
        assert(e0 != eidx);
        let ef = if e0 < eidx { e0 } else { e0 - 1 };
        assert(post.entries@[ef] == pre.entries@[e0]);
        assert(has_entry(post.entries@, x));
        let e1 = entry_index(post.entries@, x);
        assert(0 <= e1 < post.entries@.len() && post.entries@[e1]@.mmid == x);
        if e1 != ef {
            assert(false);
        }
    }
}

/// Adding a fresh MMID to the reference set at position `i` updates the
/// denoted map at exactly that hash.
proof fn lemma_refs_update_push(hs: Seq<RefSet>, i: int, m: Seq<u8>, hs2: Seq<RefSet>)
    requires
        unique_refset_hashes(hs),
        0 <= i < hs.len(),
        hs2.len() == hs.len(),
        forall|j: int| 0 <= j < hs.len() && j != i ==> hs2[j] == hs[j],
        hs2[i].hash@ == hs[i].hash@,
        hs2[i].mmids@ == hs[i].mmids@.push(hs2[i].mmids@[hs[i].mmids@.len() as int]),
        hs2[i].mmids@[hs[i].mmids@.len() as int]@ == m,
        !mmid_set_of(hs[i].mmids@).contains(m),
    ensures
        unique_refset_hashes(hs2),
        refs_map_of(hs2) == refs_map_of(hs).insert(hs[i].hash@, mmid_set_of(hs[i].mmids@).insert(m)),
        unique_mmids(hs[i].mmids@) ==> unique_mmids(hs2[i].mmids@),
        mmid_set_of(hs2[i].mmids@) == mmid_set_of(hs[i].mmids@).insert(m),
{
    let h = hs[i].hash@;
    let v = hs[i].mmids@;
    let v2 = hs2[i].mmids@;
    assert forall|j: int, k: int| 0 <= j < k < hs2.len() implies hs2[j].hash@ != hs2[k].hash@ by {
        assert(hs2[j].hash@ == hs[j].hash@ && hs2[k].hash@ == hs[k].hash@);
    }
    assert forall|x: Seq<u8>| #[trigger] mmid_set_of(v2).contains(x) == (mmid_set_of(v).contains(x)
        || x == m) by {
        if mmid_set_of(v2).contains(x) {
            let k = choose|k: int| 0 <= k < v2.len() && v2[k]@ == x;
            if k < v.len() {
                assert(v[k]@ == x);
            }
        }
        if mmid_set_of(v).contains(x) {
            let k = choose|k: int| 0 <= k < v.len() && v[k]@ == x;
            assert(v2[k]@ == x);
        }
        if x == m {
            assert(v2[v.len() as int]@ == x);
        }
    }
    assert(mmid_set_of(v2) =~= mmid_set_of(v).insert(m));
    assert forall|x: Seq<u8>| #[trigger] has_refset(hs2, x) == has_refset(hs, x) by {
        if has_refset(hs2, x) {
            let j = choose|j: int| 0 <= j < hs2.len() && hs2[j].hash@ == x;
            assert(hs[j].hash@ == x);
        }
        if has_refset(hs, x) {
            let j = choose|j: int| 0 <= j < hs.len() && hs[j].hash@ == x;
            assert(hs2[j].hash@ == x);
        }
    }
    assert forall|x: Seq<u8>| has_refset(hs2, x) implies mmid_set_of(
        hs2[refset_index(hs2, x)].mmids@,
    ) == refs_map_of(hs).insert(h, mmid_set_of(v).insert(m))[x] by {
        let j = refset_index(hs2, x);
        assert(0 <= j < hs2.len() && hs2[j].hash@ == x);
        let j0 = refset_index(hs, x);
        assert(0 <= j0 < hs.len() && hs[j0].hash@ == x);
        assert(hs2[j].hash@ == hs[j].hash@);
        if j != j0 {
            assert(false);
        }
        if x == h {
            if j != i {
                assert(hs[j].hash@ == hs[i].hash@);
                assert(false);
            }
        } else {
            assert(j != i);
            assert(hs2[j] == hs[j]);
        }
    }
    assert(refs_map_of(hs2) =~= refs_map_of(hs).insert(h, mmid_set_of(v).insert(m)));
    if unique_mmids(v) {
        assert forall|a: int, b: int| 0 <= a < b < v2.len() implies v2[a]@ != v2[b]@ by {
            if b < v.len() {
                assert(v2[a]@ == v[a]@ && v2[b]@ == v[b]@);
            } else {
                assert(v2[b]@ == m);
                assert(v2[a]@ == v[a]@);
                if v[a]@ == m {
                    assert(mmid_set_of(v).contains(m));
                }
            }
        }
    }
}

/// Appending a brand-new reference set for a fresh hash extends the denoted
/// map by exactly that binding.
proof fn lemma_refs_push_new(hs: Seq<RefSet>, hs2: Seq<RefSet>, h: Seq<u8>, m: Seq<u8>)
    requires
        unique_refset_hashes(hs),
        !has_refset(hs, h),
        hs2.len() == hs.len() + 1,
        forall|j: int| 0 <= j < hs.len() ==> hs2[j] == hs[j],
        hs2[hs.len() as int].hash@ == h,
        hs2[hs.len() as int].mmids@.len() == 1,
        hs2[hs.len() as int].mmids@[0]@ == m,
    ensures
        unique_refset_hashes(hs2),
        refs_map_of(hs2) == refs_map_of(hs).insert(h, Set::<Seq<u8>>::empty().insert(m)),
        unique_mmids(hs2[hs.len() as int].mmids@),
        mmid_set_of(hs2[hs.len() as int].mmids@) == Set::<Seq<u8>>::empty().insert(m),
{
    let n = hs.len() as int;
    assert forall|i: int, j: int| 0 <= i < j < hs2.len() implies hs2[i].hash@ != hs2[j].hash@ by {
        if j < n {
            assert(hs2[i] == hs[i] && hs2[j] == hs[j]);
        } else {
            assert(hs2[i] == hs[i]);
            if hs[i].hash@ == h {
                assert(has_refset(hs, h));
            }
        }
    }
    assert(mmid_set_of(hs2[n].mmids@) =~= Set::<Seq<u8>>::empty().insert(m)) by {
        assert forall|x: Seq<u8>| #[trigger] mmid_set_of(hs2[n].mmids@).contains(x) == (x == m) by {
            if mmid_set_of(hs2[n].mmids@).contains(x) {
                let k = choose|k: int| 0 <= k < hs2[n].mmids@.len() && hs2[n].mmids@[k]@ == x;
                assert(k == 0);
            }
            if x == m {
                assert(hs2[n].mmids@[0]@ == x);
            }
        }
    }
    assert forall|x: Seq<u8>| #[trigger] has_refset(hs2, x) == (has_refset(hs, x) || x == h) by {
        if has_refset(hs2, x) {
            let j = choose|j: int| 0 <= j < hs2.len() && hs2[j].hash@ == x;
            if j < n {
                assert(hs[j].hash@ == x);
            }
        }
        if has_refset(hs, x) {
            let j = choose|j: int| 0 <= j < hs.len() && hs[j].hash@ == x;
            assert(hs2[j].hash@ == x);
        }
        if x == h {
            assert(hs2[n].hash@ == x);
        }
    }
    assert forall|x: Seq<u8>| has_refset(hs2, x) implies mmid_set_of(
        hs2[refset_index(hs2, x)].mmids@,
    ) == refs_map_of(hs).insert(h, Set::<Seq<u8>>::empty().insert(m))[x] by {
        let j = refset_index(hs2, x);
        assert(0 <= j < hs2.len() && hs2[j].hash@ == x);
        if x == h {
            if j < n {
                assert(has_refset(hs, h));
                assert(false);
            }
        } else {
            assert(j < n);
            assert(hs2[j] == hs[j]);
            let j0 = refset_index(hs, x);
            assert(0 <= j0 < hs.len() && hs[j0].hash@ == x);
            if j0 != j {
                assert(false);
            }
        }
    }
    assert(refs_map_of(hs2) =~= refs_map_of(hs).insert(h, Set::<Seq<u8>>::empty().insert(m)));
}

/// After a successful `insert`, the index invariant holds again.
proof fn lemma_insert_restores_inv(pre: Mochibase, post: Mochibase, m: Seq<u8>, h: Seq<u8>)
    requires
        pre.inv(),
        !has_entry(pre.entries@, m),
        post.entries@ == pre.entries@.push(post.entries@[pre.entries@.len() as int]),
        post.entries@[pre.entries@.len() as int]@.mmid == m,
        post.entries@[pre.entries@.len() as int]@.hash == h,
        post.entries@[pre.entries@.len() as int].wf(),
        unique_entry_mmids(post.entries@),
        unique_refset_hashes(post.hashes@),
        refs_map_of(post.hashes@) == refs_map_of(pre.hashes@).insert(
            h,
            (if has_refset(pre.hashes@, h) {
                mmid_set_of(pre.hashes@[refset_index(pre.hashes@, h)].mmids@)
            } else {
                Set::empty()
            }).insert(m),
        ),
        forall|i: int|
            0 <= i < post.hashes@.len() ==> (#[trigger] post.hashes@[i]).hash.wf(),
        forall|i: int|
            0 <= i < post.hashes@.len() ==> unique_mmids(#[trigger] post.hashes@[i].mmids@),
        forall|i: int| 0 <= i < post.hashes@.len() ==> (#[trigger] post.hashes@[i]).mmids@.len() > 0,
        // structural relation between pre and post hash sequences
        forall|i: int|
            0 <= i < post.hashes@.len() ==> (#[trigger] post.hashes@[i]).hash@ == h || (i
                < pre.hashes@.len() && post.hashes@[i] == pre.hashes@[i]),
        forall|i: int|
            0 <= i < post.hashes@.len() && (#[trigger] post.hashes@[i]).hash@ == h ==> mmid_set_of(
                post.hashes@[i].mmids@,
            ) == (if has_refset(pre.hashes@, h) {
                mmid_set_of(pre.hashes@[refset_index(pre.hashes@, h)].mmids@)
            } else {
                Set::empty()
            }).insert(m),
    ensures
        post.inv(),
{
    let n = pre.entries@.len() as int;
    let e = post.entries@[n];
    // entries referenced
    assert forall|i: int| 0 <= i < post.entries@.len() implies {
        let ev = (#[trigger] post.entries@[i])@;
        &&& has_refset(post.hashes@, ev.hash)
        &&& mmid_set_of(post.hashes@[refset_index(post.hashes@, ev.hash)].mmids@).contains(ev.mmid)
    } by {
        let ev = post.entries@[i]@;
        if i < n {
            assert(post.entries@[i] == pre.entries@[i]);
            assert(has_refset(pre.hashes@, ev.hash) && mmid_set_of(
                pre.hashes@[refset_index(pre.hashes@, ev.hash)].mmids@,
            ).contains(ev.mmid));
            // the refs map at ev.hash only grew
            assert(refs_map_of(pre.hashes@).contains_key(ev.hash));
            assert(refs_map_of(post.hashes@).contains_key(ev.hash));
            let j = refset_index(post.hashes@, ev.hash);
            assert(refs_map_of(post.hashes@)[ev.hash] == mmid_set_of(post.hashes@[j].mmids@));
            if ev.hash == h {
                assert(refs_map_of(post.hashes@)[ev.hash].contains(ev.mmid));
            } else {
                assert(refs_map_of(post.hashes@)[ev.hash] == refs_map_of(pre.hashes@)[ev.hash]);
                assert(refs_map_of(pre.hashes@)[ev.hash] == mmid_set_of(
                    pre.hashes@[refset_index(pre.hashes@, ev.hash)].mmids@,
                ));
            }
            assert(mmid_set_of(post.hashes@[j].mmids@).contains(ev.mmid));
        } else {
            assert(ev == e@);
            assert(refs_map_of(post.hashes@).contains_key(h));
            let j = refset_index(post.hashes@, h);
            assert(refs_map_of(post.hashes@)[h] == mmid_set_of(post.hashes@[j].mmids@));
            assert(refs_map_of(post.hashes@)[h].contains(m));
        }
    }
    // refs resolve
    assert forall|i: int, k: int|
        0 <= i < post.hashes@.len() && 0 <= k < (#[trigger] post.hashes@[i]).mmids@.len() implies {
        let x = (#[trigger] post.hashes@[i].mmids@[k])@;
        &&& has_entry(post.entries@, x)
        &&& post.entries@[entry_index(post.entries@, x)]@.hash == post.hashes@[i].hash@
    } by {
        let x = post.hashes@[i].mmids@[k]@;
        if post.hashes@[i].hash@ == h {
            assert(mmid_set_of(post.hashes@[i].mmids@).contains(x));
            if x == m {
                assert(post.entries@[n]@.mmid == m);
                assert(has_entry(post.entries@, x));
                let ix = entry_index(post.entries@, x);
                assert(0 <= ix < post.entries@.len() && post.entries@[ix]@.mmid == x);
                if ix != n {
                    assert(post.entries@[ix] == pre.entries@[ix]);
                    assert(has_entry(pre.entries@, m));
                    assert(false);
                }
                assert(post.entries@[ix]@.hash == h);
            } else {
                // x was already in the old reference set for h
                assert(has_refset(pre.hashes@, h));
                let j0 = refset_index(pre.hashes@, h);
                assert(mmid_set_of(pre.hashes@[j0].mmids@).contains(x));
                let k0 = choose|k0: int|
                    0 <= k0 < pre.hashes@[j0].mmids@.len() && pre.hashes@[j0].mmids@[k0]@ == x;
                assert(has_entry(pre.entries@, x) && pre.entries@[entry_index(pre.entries@, x)]@.hash
                    == pre.hashes@[j0].hash@);
                let ix0 = entry_index(pre.entries@, x);
                assert(post.entries@[ix0]@.mmid == x);
                assert(has_entry(post.entries@, x));
                let ix = entry_index(post.entries@, x);
                if ix != ix0 {
                    assert(false);
                }
                assert(post.entries@[ix]@.hash == h);
            }
        } else {
            assert(i < pre.hashes@.len() && post.hashes@[i] == pre.hashes@[i]);
            let x2 = pre.hashes@[i].mmids@[k]@;
            assert(x2 == x);
            assert(has_entry(pre.entries@, x) && pre.entries@[entry_index(pre.entries@, x)]@.hash
                == pre.hashes@[i].hash@);
            let ix0 = entry_index(pre.entries@, x);
            assert(post.entries@[ix0]@.mmid == x);
            assert(has_entry(post.entries@, x));
            let ix = entry_index(post.entries@, x);
            if ix != ix0 {
                assert(false);
            }
            assert(post.entries@[ix]@.hash == post.hashes@[i].hash@);
        }
    }
}

} // verus!
