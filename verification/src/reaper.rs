//! The reaper's sweep over the metadata index and the blob store: expired
//! entries are removed, and a blob whose last reference disappears is
//! deleted with it.  Persistence of the swept index is the caller's next
//! step.

use crate::blobstore::BlobStore;
use crate::database::{lemma_entry_seq_matches_map, Mochibase};
use crate::mhash::MHash;
use crate::mmid::Mmid;
use vstd::prelude::*;

verus! {

/// Every tracked reference set has its blob: the index never points at a
/// missing blob.
pub open spec fn refs_covered(db: &Mochibase, bs: &BlobStore) -> bool {
    forall|h: Seq<u8>| #[trigger]
        db.s_refs().contains_key(h) ==> bs.s_blobs().contains_key(h)
}

/// Every blob is referenced: no blob survives the loss of its last
/// reference.
pub open spec fn no_orphans(db: &Mochibase, bs: &BlobStore) -> bool {
    forall|h: Seq<u8>| #[trigger]
        bs.s_blobs().contains_key(h) ==> db.s_refs().contains_key(h)
}

/// One expired entry queued for removal.
struct ExpiredPair {
    mmid: Mmid,
    hash: MHash,
}

/// The MMID occurs among the queued pairs.
spec fn removed_in(ps: Seq<ExpiredPair>, m: Seq<u8>) -> bool {
    exists|j: int| 0 <= j < ps.len() && ps[j].mmid@ == m
}

/// Clean the database: remove every entry whose expiry lies before `now`,
/// and delete each blob that loses its last reference in the process.
/// Surviving entries and blobs are untouched, only unreferenced blobs are
/// deleted, and both directions of index/store consistency are preserved.
pub fn clean_database(db: &mut Mochibase, bs: &mut BlobStore, now: i64)
    requires
        old(db).inv(),
        old(bs).inv(),
    ensures
        final(db).inv(),
        final(bs).inv(),
        forall|m: Seq<u8>|
            final(db).s_entries().contains_key(m) == (old(db).s_entries().contains_key(m) && !(now
                > old(db).s_entries()[m].expiry_datetime)),
        forall|m: Seq<u8>| #[trigger]
            final(db).s_entries().contains_key(m) ==> final(db).s_entries()[m] == old(db).s_entries()[m],
        forall|h: Seq<u8>| #[trigger]
            final(db).s_refs().contains_key(h) ==> old(db).s_refs().contains_key(h),
        forall|h: Seq<u8>| #[trigger]
            final(bs).s_blobs().contains_key(h) ==> old(bs).s_blobs().contains_key(h) && final(bs).s_blobs()[h] == old(bs).s_blobs()[h],
        forall|h: Seq<u8>|
            old(bs).s_blobs().contains_key(h) && !final(bs).s_blobs().contains_key(h) ==> !final(db).s_refs().contains_key(h),
        refs_covered(old(db), old(bs)) ==> refs_covered(final(db), final(bs)),
        no_orphans(old(db), old(bs)) ==> no_orphans(final(db), final(bs)),
{
    proof {
        lemma_entry_seq_matches_map(*old(db));
    }
    // Gather the expired entries as (MMID, hash) pairs.
    let mut pairs: Vec<ExpiredPair> = Vec::new();
    let n = db.len();
    let mut i: usize = 0;
    while i < n
        invariant
            db == old(db),
            db.inv(),
            n == db.s_entry_seq().len(),
            0 <= i <= n,
            forall|j: int|
                0 <= j < pairs@.len() ==> {
                    let m = (#[trigger] pairs@[j]).mmid@;
                    &&& old(db).s_entries().contains_key(m)
                    &&& now > old(db).s_entries()[m].expiry_datetime
                    &&& pairs@[j].hash@ == old(db).s_entries()[m].hash
                },
            forall|j: int|
                0 <= j < pairs@.len() ==> exists|k: int|
                    0 <= k < i && (#[trigger] pairs@[j]).mmid@ == old(db).s_entry_seq()[k].mmid,
            forall|j1: int, j2: int|
                0 <= j1 < j2 < pairs@.len() ==> pairs@[j1].mmid@ != pairs@[j2].mmid@,
            forall|k: int|
                0 <= k < i && now > (#[trigger] old(db).s_entry_seq()[k]).expiry_datetime
                    ==> removed_in(pairs@, old(db).s_entry_seq()[k].mmid),
        decreases n - i,
    {
        proof {
            lemma_entry_seq_matches_map(*old(db));
        }
        let ghost pre_pairs = pairs@;
        let es = db.entries();
        let expired = es[i].is_expired_at(now);
        if expired {
            let mmid = es[i].mmid().clone();
            let hash = es[i].hash().clone();
            proof {
                // A fresh MMID: every queued pair stems from an earlier
                // position, and positions carry distinct MMIDs.
                assert forall|j: int| 0 <= j < pre_pairs.len() implies (#[trigger] pre_pairs[j]).mmid@
                    != mmid@ by {
                    let k = choose|k: int|
                        0 <= k < i && pre_pairs[j].mmid@ == (#[trigger] old(db).s_entry_seq()[k]).mmid;
                    assert(old(db).s_entry_seq()[k].mmid != old(db).s_entry_seq()[i as int].mmid);
                }
            }
            pairs.push(ExpiredPair { mmid, hash });
            proof {
                assert forall|j: int| 0 <= j < pairs@.len() implies exists|k: int|
                    0 <= k < i + 1 && (#[trigger] pairs@[j]).mmid@ == old(db).s_entry_seq()[k].mmid
                    by {
                    if j < pre_pairs.len() {
                        let k = choose|k: int|
                            0 <= k < i && pre_pairs[j].mmid@ == (#[trigger] old(db).s_entry_seq()[k]).mmid;
                        assert(0 <= k < i + 1 && pairs@[j].mmid@ == old(db).s_entry_seq()[k].mmid);
                    } else {
                        assert(pairs@[j].mmid@ == old(db).s_entry_seq()[i as int].mmid);
                    }
                }
                assert forall|k: int|
                    0 <= k < i + 1 && now > (#[trigger] old(db).s_entry_seq()[k]).expiry_datetime
                        implies removed_in(pairs@, old(db).s_entry_seq()[k].mmid) by {
                    if k < i {
                        assert(removed_in(pre_pairs, old(db).s_entry_seq()[k].mmid));
                        let j = choose|j: int|
                            0 <= j < pre_pairs.len() && (#[trigger] pre_pairs[j]).mmid@ == old(
                                db,
                            ).s_entry_seq()[k].mmid;
                        assert(pairs@[j].mmid@ == old(db).s_entry_seq()[k].mmid);
                    } else {
                        assert(pairs@[pre_pairs.len() as int].mmid@ == old(
                            db,
                        ).s_entry_seq()[i as int].mmid);
                    }
                }
            }
        }
        i = i + 1;
    }
    // Remove each queued entry; a blob whose reference set vanished goes
    // with it.
    let ghost all_pairs = pairs@;
    let mut t: usize = 0;
    while t < pairs.len()
        invariant
            pairs@ == all_pairs,
            0 <= t <= pairs@.len(),
            db.inv(),
            bs.inv(),
            forall|j: int|
                0 <= j < all_pairs.len() ==> {
                    let m = (#[trigger] all_pairs[j]).mmid@;
                    &&& old(db).s_entries().contains_key(m)
                    &&& now > old(db).s_entries()[m].expiry_datetime
                    &&& all_pairs[j].hash@ == old(db).s_entries()[m].hash
                },
            forall|j1: int, j2: int|
                0 <= j1 < j2 < all_pairs.len() ==> all_pairs[j1].mmid@ != all_pairs[j2].mmid@,
            forall|m: Seq<u8>|
                old(db).s_entries().contains_key(m) && now > old(db).s_entries()[m].expiry_datetime
                    ==> removed_in(all_pairs, m),
            forall|m: Seq<u8>|
                db.s_entries().contains_key(m) == (old(db).s_entries().contains_key(m)
                    && !removed_in(all_pairs.take(t as int), m)),
            forall|m: Seq<u8>| #[trigger]
                db.s_entries().contains_key(m) ==> db.s_entries()[m] == old(db).s_entries()[m],
            forall|h: Seq<u8>| #[trigger]
                db.s_refs().contains_key(h) ==> old(db).s_refs().contains_key(h),
            forall|h: Seq<u8>| #[trigger]
                bs.s_blobs().contains_key(h) ==> old(bs).s_blobs().contains_key(h)
                    && bs.s_blobs()[h] == old(bs).s_blobs()[h],
            forall|h: Seq<u8>|
                old(bs).s_blobs().contains_key(h) && !bs.s_blobs().contains_key(h)
                    ==> !db.s_refs().contains_key(h),
            refs_covered(old(db), old(bs)) ==> refs_covered(&*db, &*bs),
            no_orphans(old(db), old(bs)) ==> no_orphans(&*db, &*bs),
        decreases pairs@.len() - t,
    {
        let mmid = pairs[t].mmid.clone();
        let hash = pairs[t].hash.clone();
        proof {
            // This pair has not been processed yet, so its entry is still
            // present.
            assert(!removed_in(all_pairs.take(t as int), mmid@)) by {
                if removed_in(all_pairs.take(t as int), mmid@) {
                    let j = choose|j: int|
                        0 <= j < all_pairs.take(t as int).len() && all_pairs.take(t as int)[j].mmid@
                            == mmid@;
                    assert(all_pairs[j].mmid@ == all_pairs[t as int].mmid@);
                    assert(false);
                }
            }
        }
        let removed = db.remove_mmid(&mmid);
        let last = db.is_last_reference(&hash);
        if last {
            bs.delete(&hash);
        }
        proof {
            assert(all_pairs.take(t as int + 1) =~= all_pairs.take(t as int).push(
                all_pairs[t as int],
            ));
            assert forall|m: Seq<u8>|
                db.s_entries().contains_key(m) == (old(db).s_entries().contains_key(m)
                    && !removed_in(all_pairs.take(t as int + 1), m)) by {
                if removed_in(all_pairs.take(t as int + 1), m) {
                    let ps = all_pairs.take(t as int + 1);
                    let j = choose|j: int| 0 <= j < ps.len() && (#[trigger] ps[j]).mmid@ == m;
                    if j < t {
                        assert(all_pairs.take(t as int)[j].mmid@ == m);
                        assert(removed_in(all_pairs.take(t as int), m));
                    } else {
                        assert(m == mmid@);
                    }
                } else {
                    assert(!removed_in(all_pairs.take(t as int), m)) by {
                        if removed_in(all_pairs.take(t as int), m) {
                            let ps0 = all_pairs.take(t as int);
                            let j = choose|j: int|
                                0 <= j < ps0.len() && (#[trigger] ps0[j]).mmid@ == m;
                            assert(all_pairs.take(t as int + 1)[j].mmid@ == m);
                        }
                    }
                    assert(m != mmid@) by {
                        if m == mmid@ {
                            assert(all_pairs.take(t as int + 1)[t as int].mmid@ == m);
                        }
                    }
                }
            }
        }
        t = t + 1;
    }
    proof {
        assert(all_pairs.take(pairs@.len() as int) =~= all_pairs);
        assert forall|m: Seq<u8>|
            db.s_entries().contains_key(m) == (old(db).s_entries().contains_key(m) && !(now > old(db).s_entries()[m].expiry_datetime)) by {
            if old(db).s_entries().contains_key(m) {
                if now > old(db).s_entries()[m].expiry_datetime {
                    assert(removed_in(all_pairs, m));
                } else {
                    if removed_in(all_pairs, m) {
                        let j = choose|j: int|
                            0 <= j < all_pairs.len() && (#[trigger] all_pairs[j]).mmid@ == m;
                        assert(now > old(db).s_entries()[m].expiry_datetime);
                        assert(false);
                    }
                }
            }
        }
    }
}

} // verus!
