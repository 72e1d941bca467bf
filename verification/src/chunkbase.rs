//! Chunk staging: the registry of in-progress uploads.  Each upload owns a
//! staging buffer (the model of its staging file), a record of which chunk
//! indices have arrived, and a deadline past which the reaper may drop it.

use crate::bytes::{sat_add, spec_sat_add, spec_write_at, write_at};
use crate::mmid::clone_bytes;
use vstd::prelude::*;

verus! {

/// Mathematical image of a staged upload's description.
pub struct InfoV {
    pub name: Seq<u8>,
    pub size: u64,
    pub expire_duration: i64,
    pub recieved_chunks: Set<u64>,
    pub data: Seq<u8>,
}

/// Information about an in-progress upload: what the client declared, which
/// chunks have arrived, and the staged bytes themselves.
pub struct ChunkedInfo {
    /// The name the file will be published under.
    pub name: Vec<u8>,
    /// The declared total size in bytes.
    pub size: u64,
    /// The requested lifetime of the entry, in seconds.
    pub expire_duration: i64,
    /// Chunk indices already received, so no part of the file can be
    /// overwritten by a repeated index.
    pub recieved_chunks: Vec<u64>,
    /// The staged bytes: what the staging file holds so far.
    pub data: Vec<u8>,
}

impl View for ChunkedInfo {
    type V = InfoV;

    open spec fn view(&self) -> InfoV {
        InfoV {
            name: self.name@,
            size: self.size,
            expire_duration: self.expire_duration,
            recieved_chunks: u64_set_of(self.recieved_chunks@),
            data: self.data@,
        }
    }
}

impl Default for ChunkedInfo {
    /// An empty description: no name, zero size and duration, nothing staged.
    fn default() -> (r: ChunkedInfo)
        ensures
            r@.name == Seq::<u8>::empty(),
            r@.size == 0u64,
            r@.expire_duration == 0i64,
            r@.recieved_chunks == Set::<u64>::empty(),
            r@.data == Seq::<u8>::empty(),
    {
        let r = ChunkedInfo {
            name: Vec::new(),
            size: 0,
            expire_duration: 0,
            recieved_chunks: Vec::new(),
            data: Vec::new(),
        };
        proof {
            assert(u64_set_of(r.recieved_chunks@) =~= Set::<u64>::empty());
        }
        r
    }
}

impl Clone for ChunkedInfo {
    fn clone(&self) -> (r: Self)
        ensures
            r@ == self@,
    {
        ChunkedInfo {
            name: clone_bytes(&self.name),
            size: self.size,
            expire_duration: self.expire_duration,
            recieved_chunks: clone_u64s(&self.recieved_chunks),
            data: clone_bytes(&self.data),
        }
    }
}

/// Mathematical image of one registry slot.
pub struct SlotV {
    pub deadline: i64,
    pub info: InfoV,
}

/// One registry slot: an upload keyed by its UUID, with its deadline.
pub struct ChunkSlot {
    pub uuid: u128,
    pub deadline: i64,
    pub info: ChunkedInfo,
}

impl View for ChunkSlot {
    type V = SlotV;

    open spec fn view(&self) -> SlotV {
        SlotV { deadline: self.deadline, info: self.info@ }
    }
}

/// The set of numbers a sequence denotes.
pub open spec fn u64_set_of(v: Seq<u64>) -> Set<u64> {
    Set::new(|x: u64| exists|i: int| 0 <= i < v.len() && v[i] == x)
}

/// There is a slot with key `u`.
pub open spec fn has_slot(s: Seq<ChunkSlot>, u: u128) -> bool {
    exists|i: int| 0 <= i < s.len() && s[i].uuid == u
}

/// Index of the slot with key `u`.
pub open spec fn slot_index(s: Seq<ChunkSlot>, u: u128) -> int {
    choose|i: int| 0 <= i < s.len() && s[i].uuid == u
}

/// No two slots share a key.
pub open spec fn unique_uuids(s: Seq<ChunkSlot>) -> bool {
    forall|i: int, j: int| 0 <= i < j < s.len() ==> s[i].uuid != s[j].uuid
}

/// The map from UUID to slot that a sequence of slots denotes.
pub open spec fn slots_map_of(s: Seq<ChunkSlot>) -> Map<u128, SlotV> {
    Map::new(|u: u128| has_slot(s, u), |u: u128| s[slot_index(s, u)]@)
}

/// The registry of in-progress uploads, keyed by UUID.
pub struct Chunkbase {
    chunks: Vec<ChunkSlot>,
}

impl Chunkbase {
    /// The registry contents, as a map from UUID to slot.
    pub closed spec fn s_chunks(&self) -> Map<u128, SlotV> {
        slots_map_of(self.chunks@)
    }

    /// The registry invariant: one slot per UUID.
    pub closed spec fn inv(&self) -> bool {
        unique_uuids(self.chunks@)
    }

    /// Create an empty registry.
    pub fn new() -> (r: Chunkbase)
        ensures
            r.inv(),
            r.s_chunks() == Map::<u128, SlotV>::empty(),
    {
        let r = Chunkbase { chunks: Vec::new() };
        proof {
            assert(r.s_chunks() =~= Map::<u128, SlotV>::empty());
        }
        r
    }

    /// Register a new upload: pick a fresh UUID, reset the staging state of
    /// `info`, and set the deadline `timeout` seconds after `now`.  Fails
    /// only if the drawn UUIDs keep colliding, which a working randomness
    /// source makes vanishingly unlikely — and which an empty registry
    /// makes impossible, so there success is owed.
    pub fn new_file(&mut self, info: ChunkedInfo, timeout: i64, now: i64) -> (r: Option<u128>)
        requires
            old(self).inv(),
            timeout >= 0,
        ensures
            final(self).inv(),
            old(self).s_chunks() == Map::<u128, SlotV>::empty() ==> r is Some,
            match r {
                Some(u) => !old(self).s_chunks().contains_key(u) && final(self).s_chunks() == old(
                    self,
                ).s_chunks().insert(
                    u,
                    SlotV {
                        deadline: spec_sat_add(now, timeout),
                        info: InfoV {
                            name: info@.name,
                            size: info@.size,
                            expire_duration: info@.expire_duration,
                            recieved_chunks: Set::empty(),
                            data: Seq::empty(),
                        },
                    },
                ),
                None => final(self).s_chunks() == old(self).s_chunks(),
            },
    {
        let deadline = sat_add(now, timeout);
        let mut chosen: Option<u128> = None;
        let mut attempts: usize = 0;
        while attempts < 8 && chosen.is_none()
            invariant
                self == old(self),
                match chosen {
                    Some(u) => !has_slot(self.chunks@, u),
                    None => attempts == 0 || old(self).s_chunks() != Map::<u128, SlotV>::empty(),
                },
            decreases 8 - attempts,
        {
            let u = new_uuid();
            match self.find(u) {
                None => {
                    chosen = Some(u);
                },
                Some(_) => {
                    proof {
                        // A collision means the registry holds that UUID, so
                        // it is not empty.
                        assert(self.s_chunks().contains_key(u));
                        assert(!Map::<u128, SlotV>::empty().contains_key(u));
                    }
                },
            }
            attempts = attempts + 1;
        }
        let u = match chosen {
            Some(u) => u,
            None => {
                return None;
            },
        };
        let ghost old_chunks = self.chunks@;
        let slot = ChunkSlot {
            uuid: u,
            deadline,
            info: ChunkedInfo {
                name: info.name,
                size: info.size,
                expire_duration: info.expire_duration,
                recieved_chunks: Vec::new(),
                data: Vec::new(),
            },
        };
        proof {
            assert(slot@.info.recieved_chunks =~= Set::<u64>::empty());
            assert(slot@.info.data =~= Seq::<u8>::empty());
        }
        self.chunks.push(slot);
        proof {
            lemma_slots_push(old_chunks, self.chunks@, u);
            assert(self.s_chunks() =~= old(self).s_chunks().insert(
                u,
                SlotV {
                    deadline: spec_sat_add(now, timeout),
                    info: InfoV {
                        name: info@.name,
                        size: info@.size,
                        expire_duration: info@.expire_duration,
                        recieved_chunks: Set::empty(),
                        data: Seq::empty(),
                    },
                },
            ));
        }
        Some(u)
    }

    /// Look up an upload by UUID.
    pub fn get_file(&self, uuid: u128) -> (r: Option<&ChunkSlot>)
        requires
            self.inv(),
        ensures
            match r {
                Some(s) => self.s_chunks().contains_key(uuid) && s@ == self.s_chunks()[uuid]
                    && s.uuid == uuid,
                None => !self.s_chunks().contains_key(uuid),
            },
    {
        match self.find(uuid) {
            Some(i) => Some(&self.chunks[i]),
            None => None,
        }
    }

    /// Drop an upload, discarding its staged bytes.  Returns whether the
    /// UUID was present; removing an absent upload is a no-op.
    pub fn remove_file(&mut self, uuid: u128) -> (r: bool)
        requires
            old(self).inv(),
        ensures
            final(self).inv(),
            r == old(self).s_chunks().contains_key(uuid),
            final(self).s_chunks() == old(self).s_chunks().remove(uuid),
    {
        let ghost old_chunks = self.chunks@;
        match self.find(uuid) {
            Some(i) => {
                let _ = self.chunks.remove(i);
                proof {
                    lemma_slots_remove(old_chunks, i as int);
                }
                true
            },
            None => {
                proof {
                    assert(self.s_chunks() =~= old(self).s_chunks().remove(uuid));
                }
                false
            },
        }
    }

    /// Take an upload out of the registry, handing its slot to the caller:
    /// the step that moves a finished staging file on towards promotion.
    pub fn take_file(&mut self, uuid: u128) -> (r: Option<ChunkSlot>)
        requires
            old(self).inv(),
        ensures
            final(self).inv(),
            final(self).s_chunks() == old(self).s_chunks().remove(uuid),
            match r {
                Some(s) => old(self).s_chunks().contains_key(uuid) && s@ == old(
                    self,
                ).s_chunks()[uuid] && s.uuid == uuid,
                None => !old(self).s_chunks().contains_key(uuid),
            },
    {
        let ghost old_chunks = self.chunks@;
        match self.find(uuid) {
            Some(i) => {
                let s = self.chunks.remove(i);
                proof {
                    lemma_slots_remove(old_chunks, i as int);
                }
                Some(s)
            },
            None => {
                proof {
                    assert(self.s_chunks() =~= old(self).s_chunks().remove(uuid));
                }
                None
            },
        }
    }

    /// Push an upload's deadline out to `timeout` seconds after `now`.
    /// Returns whether the UUID was present.
    pub fn extend_timeout(&mut self, uuid: u128, timeout: i64, now: i64) -> (r: bool)
        requires
            old(self).inv(),
            timeout >= 0,
        ensures
            final(self).inv(),
            r == old(self).s_chunks().contains_key(uuid),
            r ==> final(self).s_chunks() == old(self).s_chunks().insert(
                uuid,
                SlotV {
                    deadline: spec_sat_add(now, timeout),
                    info: old(self).s_chunks()[uuid].info,
                },
            ),
            !r ==> final(self).s_chunks() == old(self).s_chunks(),
    {
        let ghost old_chunks = self.chunks@;
        match self.find(uuid) {
            Some(i) => {
                let slot = &mut self.chunks[i];
                slot.deadline = sat_add(now, timeout);
                proof {
                    lemma_slots_update(old_chunks, i as int, self.chunks@);
                }
                true
            },
            None => false,
        }
    }

    /// Record that chunk index `chunk` has arrived.  Returns `Some(fresh)`
    /// with whether the index was new, or `None` for an unknown UUID.
    pub fn add_recieved_chunk(&mut self, uuid: u128, chunk: u64) -> (r: Option<bool>)
        requires
            old(self).inv(),
        ensures
            final(self).inv(),
            match r {
                Some(fresh) => {
                    &&& old(self).s_chunks().contains_key(uuid)
                    &&& fresh == !old(self).s_chunks()[uuid].info.recieved_chunks.contains(chunk)
                    &&& final(self).s_chunks() == old(self).s_chunks().insert(
                        uuid,
                        SlotV {
                            deadline: old(self).s_chunks()[uuid].deadline,
                            info: InfoV {
                                recieved_chunks: old(
                                    self,
                                ).s_chunks()[uuid].info.recieved_chunks.insert(chunk),
                                ..old(self).s_chunks()[uuid].info
                            },
                        },
                    )
                },
                None => !old(self).s_chunks().contains_key(uuid) && final(self).s_chunks() == old(
                    self,
                ).s_chunks(),
            },
    {
        let ghost old_chunks = self.chunks@;
        match self.find(uuid) {
            Some(i) => {
                let slot = &mut self.chunks[i];
                let ghost old_recieved = slot.info.recieved_chunks@;
                let fresh = !contains_u64(&slot.info.recieved_chunks, chunk);
                if fresh {
                    slot.info.recieved_chunks.push(chunk);
                    proof {
                        lemma_u64_set_push(old_recieved, chunk);
                    }
                } else {
                    proof {
                        assert(u64_set_of(old_recieved).insert(chunk) =~= u64_set_of(old_recieved));
                    }
                }
                proof {
                    lemma_slots_update(old_chunks, i as int, self.chunks@);
                }
                Some(fresh)
            },
            None => None,
        }
    }

    /// Write `bytes` into an upload's staged data at byte position `offset`,
    /// zero-filling any gap, as a positional write into the staging file
    /// does.  Returns whether the UUID was present.
    pub fn write_chunk_data(&mut self, uuid: u128, offset: usize, bytes: &Vec<u8>) -> (r: bool)
        requires
            old(self).inv(),
            offset + bytes@.len() <= usize::MAX,
        ensures
            final(self).inv(),
            r == old(self).s_chunks().contains_key(uuid),
            r ==> final(self).s_chunks() == old(self).s_chunks().insert(
                uuid,
                SlotV {
                    deadline: old(self).s_chunks()[uuid].deadline,
                    info: InfoV {
                        data: spec_write_at(
                            old(self).s_chunks()[uuid].info.data,
                            offset as int,
                            bytes@,
                        ),
                        ..old(self).s_chunks()[uuid].info
                    },
                },
            ),
            !r ==> final(self).s_chunks() == old(self).s_chunks(),
    {
        let ghost old_chunks = self.chunks@;
        match self.find(uuid) {
            Some(i) => {
                let slot = &mut self.chunks[i];
                let new_data = write_at(&slot.info.data, offset, bytes);
                slot.info.data = new_data;
                proof {
                    lemma_slots_update(old_chunks, i as int, self.chunks@);
                }
                true
            },
            None => false,
        }
    }

    /// Append `bytes` to an upload's staged data, as the streaming protocol
    /// does frame by frame.  Returns whether the UUID was present.
    pub fn append_data(&mut self, uuid: u128, bytes: &Vec<u8>) -> (r: bool)
        requires
            old(self).inv(),
        ensures
            final(self).inv(),
            r == old(self).s_chunks().contains_key(uuid),
            r ==> final(self).s_chunks() == old(self).s_chunks().insert(
                uuid,
                SlotV {
                    deadline: old(self).s_chunks()[uuid].deadline,
                    info: InfoV {
                        data: old(self).s_chunks()[uuid].info.data + bytes@,
                        ..old(self).s_chunks()[uuid].info
                    },
                },
            ),
            !r ==> final(self).s_chunks() == old(self).s_chunks(),
    {
        let ghost old_chunks = self.chunks@;
        match self.find(uuid) {
            Some(i) => {
                let slot = &mut self.chunks[i];
                let new_data = crate::bytes::concat_bytes(&slot.info.data, bytes);
                slot.info.data = new_data;
                proof {
                    lemma_slots_update(old_chunks, i as int, self.chunks@);
                }
                true
            },
            None => false,
        }
    }

    /// Drop every upload whose deadline has passed, keeping the rest with
    /// their state untouched.
    pub fn delete_timed_out(&mut self, now: i64)
        requires
            old(self).inv(),
        ensures
            final(self).inv(),
            forall|u: u128|
                final(self).s_chunks().contains_key(u) == (old(self).s_chunks().contains_key(u)
                    && old(self).s_chunks()[u].deadline > now),
            forall|u: u128| #[trigger]
                final(self).s_chunks().contains_key(u) ==> final(self).s_chunks()[u] == old(
                    self,
                ).s_chunks()[u],
    {
        let ghost old_chunks = self.chunks@;
        let mut kept: Vec<ChunkSlot> = Vec::new();
        while self.chunks.len() > 0
            invariant
                unique_uuids(self.chunks@),
                unique_uuids(kept@),
                forall|u: u128| !(has_slot(self.chunks@, u) && has_slot(kept@, u)),
                forall|u: u128| #[trigger]
                    has_slot(self.chunks@, u) ==> has_slot(old_chunks, u) && slots_map_of(
                        self.chunks@,
                    )[u] == slots_map_of(old_chunks)[u],
                forall|u: u128| #[trigger]
                    has_slot(kept@, u) ==> has_slot(old_chunks, u) && slots_map_of(kept@)[u]
                        == slots_map_of(old_chunks)[u] && slots_map_of(old_chunks)[u].deadline
                        > now,
                forall|u: u128|
                    has_slot(old_chunks, u) && slots_map_of(old_chunks)[u].deadline > now ==> (
                    has_slot(self.chunks@, u) || has_slot(kept@, u)),
            decreases self.chunks@.len(),
        {
            let ghost pre_chunks = self.chunks@;
            let ghost pre_kept = kept@;
            let slot_opt = self.chunks.pop();
            let slot = slot_opt.unwrap();
            let ghost u0 = slot.uuid;
            proof {
                lemma_slots_drop_last(pre_chunks);
                assert(slots_map_of(old_chunks)[u0] == slot@ && has_slot(old_chunks, u0)) by {
                    assert(has_slot(pre_chunks, u0));
                    assert(slots_map_of(pre_chunks)[u0] == slots_map_of(old_chunks)[u0]);
                    let j = slot_index(pre_chunks, u0);
                    assert(0 <= j < pre_chunks.len() && pre_chunks[j].uuid == u0);
                    if j != pre_chunks.len() - 1 {
                        assert(false);
                    }
                }
                assert forall|u: u128| #[trigger] has_slot(self.chunks@, u) implies has_slot(
                    pre_chunks,
                    u,
                ) && u != u0 && slots_map_of(self.chunks@)[u] == slots_map_of(pre_chunks)[u] by {
                    assert(slots_map_of(self.chunks@).contains_key(u));
                    assert(slots_map_of(pre_chunks).remove(u0).contains_key(u));
                    assert(slots_map_of(pre_chunks).contains_key(u));
                    assert(has_slot(pre_chunks, u));
                }
                assert(!has_slot(self.chunks@, u0)) by {
                    if has_slot(self.chunks@, u0) {
                        assert(slots_map_of(self.chunks@).contains_key(u0));
                        assert(slots_map_of(pre_chunks).remove(u0).contains_key(u0));
                        assert(false);
                    }
                }
                assert forall|u: u128|
                    has_slot(pre_chunks, u) && u != u0 implies has_slot(self.chunks@, u) by {
                    assert(slots_map_of(pre_chunks).contains_key(u));
                    assert(slots_map_of(pre_chunks).remove(u0).contains_key(u));
                    assert(slots_map_of(self.chunks@).contains_key(u));
                }
                lemma_has_slot_iff(pre_kept);
            }
            if slot.deadline > now {
                kept.push(slot);
                proof {
                    lemma_slots_push(pre_kept, kept@, u0);
                    lemma_has_slot_iff(kept@);
                    lemma_has_slot_iff(pre_kept);
                    assert(has_slot(kept@, u0)) by {
                        assert(slots_map_of(kept@).contains_key(u0));
                    }
                }
            } else {
                proof {
                    assert(slots_map_of(old_chunks)[u0].deadline <= now);
                }
            }
        }
        self.chunks = kept;
        proof {
            assert forall|u: u128|
                self.s_chunks().contains_key(u) == (slots_map_of(old_chunks).contains_key(u)
                    && slots_map_of(old_chunks)[u].deadline > now) by {
                if has_slot(self.chunks@, u) {
                    assert(has_slot(old_chunks, u) && slots_map_of(old_chunks)[u].deadline > now);
                }
                if has_slot(old_chunks, u) && slots_map_of(old_chunks)[u].deadline > now {
                    assert(has_slot(self.chunks@, u));
                }
            }
        }
    }

    /// Drop every upload unconditionally: the shutdown path.
    pub fn delete_all(&mut self)
        ensures
            final(self).inv(),
            final(self).s_chunks() == Map::<u128, SlotV>::empty(),
    {
        self.chunks.clear();
        proof {
            assert(self.s_chunks() =~= Map::<u128, SlotV>::empty());
        }
    }

    /// Find the position of a slot by UUID.
    fn find(&self, uuid: u128) -> (r: Option<usize>)
        ensures
            match r {
                Some(i) => 0 <= i < self.chunks@.len() && self.chunks@[i as int].uuid == uuid
                    && has_slot(self.chunks@, uuid),
                None => !has_slot(self.chunks@, uuid),
            },
    {
        let mut i: usize = 0;
        while i < self.chunks.len()
            invariant
                0 <= i <= self.chunks@.len(),
                forall|j: int| 0 <= j < i ==> self.chunks@[j].uuid != uuid,
            decreases self.chunks@.len() - i,
        {
            if self.chunks[i].uuid == uuid {
                return Some(i);
            }
            i = i + 1;
        }
        None
    }
}

impl Default for Chunkbase {
    /// An empty registry.
    fn default() -> (r: Chunkbase)
        ensures
            r.inv(),
            r.s_chunks() == Map::<u128, SlotV>::empty(),
    {
        Chunkbase::new()
    }
}

/// Copy of a vector of numbers, with the view preserved.
fn clone_u64s(v: &Vec<u64>) -> (r: Vec<u64>)
    ensures
        r@ == v@,
{
    let r = v.clone();
    proof {
        assert(r@ =~= v@);
    }
    r
}

/// Whether a vector of numbers contains `x`.
pub fn contains_u64(v: &Vec<u64>, x: u64) -> (r: bool)
    ensures
        r == u64_set_of(v@).contains(x),
{
    let mut i: usize = 0;
    while i < v.len()
        invariant
            0 <= i <= v@.len(),
            forall|j: int| 0 <= j < i ==> v@[j] != x,
        decreases v@.len() - i,
    {
        if v[i] == x {
            return true;
        }
        i = i + 1;
    }
    false
}

/// Appending a number extends the denoted set by exactly that number.
proof fn lemma_u64_set_push(v: Seq<u64>, x: u64)
    ensures
        u64_set_of(v.push(x)) == u64_set_of(v).insert(x),
{
    let v2 = v.push(x);
    assert forall|y: u64| #[trigger] u64_set_of(v2).contains(y) == (u64_set_of(v).contains(y) || y
        == x) by {
        if u64_set_of(v2).contains(y) {
            let i = choose|i: int| 0 <= i < v2.len() && v2[i] == y;
            if i < v.len() {
                assert(v[i] == y);
            }
        }
        if u64_set_of(v).contains(y) {
            let i = choose|i: int| 0 <= i < v.len() && v[i] == y;
            assert(v2[i] == y);
        }
        if y == x {
            assert(v2[v.len() as int] == y);
        }
    }
    assert(u64_set_of(v2) =~= u64_set_of(v).insert(x));
}

/// A key is in the denoted map exactly when some slot carries it.
proof fn lemma_has_slot_iff(s: Seq<ChunkSlot>)
    ensures
        forall|u: u128| #[trigger] has_slot(s, u) == slots_map_of(s).contains_key(u),
{
    assert forall|u: u128| #[trigger] has_slot(s, u) == slots_map_of(s).contains_key(u) by {
        assert(slots_map_of(s).contains_key(u) == has_slot(s, u));
    }
}

/// Appending a slot under a fresh UUID extends the denoted map by exactly
/// that binding.
proof fn lemma_slots_push(s: Seq<ChunkSlot>, s2: Seq<ChunkSlot>, u: u128)
    requires
        unique_uuids(s),
        !has_slot(s, u),
        s2 == s.push(s2[s.len() as int]),
        s2[s.len() as int].uuid == u,
    ensures
        unique_uuids(s2),
        slots_map_of(s2) == slots_map_of(s).insert(u, s2[s.len() as int]@),
{
    let n = s.len() as int;
    assert forall|i: int, j: int| 0 <= i < j < s2.len() implies s2[i].uuid != s2[j].uuid by {
        if j < n {
            assert(s2[i] == s[i] && s2[j] == s[j]);
        } else {
            assert(s2[i] == s[i]);
            if s[i].uuid == u {
                assert(has_slot(s, u));
            }
        }
    }
    assert forall|x: u128| #[trigger] has_slot(s2, x) == (has_slot(s, x) || x == u) by {
        if has_slot(s2, x) {
            let j = choose|j: int| 0 <= j < s2.len() && s2[j].uuid == x;
            if j < n {
                assert(s[j].uuid == x);
            }
        }
        if has_slot(s, x) {
            let j = choose|j: int| 0 <= j < s.len() && s[j].uuid == x;
            assert(s2[j].uuid == x);
        }
        if x == u {
            assert(s2[n].uuid == x);
        }
    }
    assert forall|x: u128| has_slot(s2, x) implies s2[slot_index(s2, x)]@ == slots_map_of(s).insert(
        u,
        s2[n]@,
    )[x] by {
        let j = slot_index(s2, x);
        assert(0 <= j < s2.len() && s2[j].uuid == x);
        if x == u {
            if j < n {
                assert(has_slot(s, u));
                assert(false);
            }
        } else {
            assert(j < n);
            assert(s2[j] == s[j]);
            let k = slot_index(s, x);
            assert(0 <= k < s.len() && s[k].uuid == x);
            if k != j {
                assert(false);
            }
        }
    }
    assert(slots_map_of(s2) =~= slots_map_of(s).insert(u, s2[n]@));
}

/// Removing the slot at position `i` shrinks the denoted map by exactly its
/// UUID.
proof fn lemma_slots_remove(s: Seq<ChunkSlot>, i: int)
    requires
        unique_uuids(s),
        0 <= i < s.len(),
    ensures
        unique_uuids(s.remove(i)),
        slots_map_of(s.remove(i)) == slots_map_of(s).remove(s[i].uuid),
{
    let s2 = s.remove(i);
    let u0 = s[i].uuid;
    assert forall|a: int, b: int| 0 <= a < b < s2.len() implies s2[a].uuid != s2[b].uuid by {
        let a0 = if a < i { a } else { a + 1 };
        let b0 = if b < i { b } else { b + 1 };
        assert(s2[a] == s[a0] && s2[b] == s[b0]);
    }
    assert forall|x: u128| #[trigger] has_slot(s2, x) == (has_slot(s, x) && x != u0) by {
        if has_slot(s2, x) {
            let j = choose|j: int| 0 <= j < s2.len() && s2[j].uuid == x;
            let j0 = if j < i { j } else { j + 1 };
            assert(s2[j] == s[j0]);
            assert(s[j0].uuid == x);
            if x == u0 {
                assert(s[i].uuid == u0 && j0 != i);
                assert(false);
            }
        }
        if has_slot(s, x) && x != u0 {
            let j0 = choose|j0: int| 0 <= j0 < s.len() && s[j0].uuid == x;
            assert(j0 != i);
            let j = if j0 < i { j0 } else { j0 - 1 };
            assert(s2[j] == s[j0]);
        }
    }
    assert forall|x: u128| has_slot(s2, x) implies s2[slot_index(s2, x)]@ == slots_map_of(s).remove(
        u0,
    )[x] by {
        let j = slot_index(s2, x);
        assert(0 <= j < s2.len() && s2[j].uuid == x);
        let j0 = if j < i { j } else { j + 1 };
        assert(s2[j] == s[j0]);
        let k = slot_index(s, x);
        assert(0 <= k < s.len() && s[k].uuid == x);
        if k != j0 {
            assert(false);
        }
    }
    assert(slots_map_of(s2) =~= slots_map_of(s).remove(u0));
}

/// Popping the last slot shrinks the denoted map by exactly its UUID, and
/// keeps every other binding.
proof fn lemma_slots_drop_last(s: Seq<ChunkSlot>)
    requires
        unique_uuids(s),
        s.len() > 0,
    ensures
        unique_uuids(s.drop_last()),
        slots_map_of(s.drop_last()) == slots_map_of(s).remove(s[s.len() - 1].uuid),
        slots_map_of(s).contains_key(s[s.len() - 1].uuid),
        slots_map_of(s)[s[s.len() - 1].uuid] == s[s.len() - 1]@,
{
    assert(s.drop_last() =~= s.remove(s.len() - 1));
    lemma_slots_remove(s, s.len() - 1);
    let u0 = s[s.len() - 1].uuid;
    assert(has_slot(s, u0));
    let j = slot_index(s, u0);
    assert(0 <= j < s.len() && s[j].uuid == u0);
    if j != s.len() - 1 {
        assert(false);
    }
}

/// Replacing the slot at position `i` by one with the same UUID updates the
/// denoted map at exactly that key.
proof fn lemma_slots_update(s: Seq<ChunkSlot>, i: int, s2: Seq<ChunkSlot>)
    requires
        unique_uuids(s),
        0 <= i < s.len(),
        s2.len() == s.len(),
        forall|j: int| 0 <= j < s.len() && j != i ==> s2[j] == s[j],
        s2[i].uuid == s[i].uuid,
    ensures
        unique_uuids(s2),
        slots_map_of(s2) == slots_map_of(s).insert(s[i].uuid, s2[i]@),
{
    let u = s[i].uuid;
    assert forall|a: int, b: int| 0 <= a < b < s2.len() implies s2[a].uuid != s2[b].uuid by {
        assert(s2[a].uuid == s[a].uuid && s2[b].uuid == s[b].uuid);
    }
    assert forall|x: u128| #[trigger] has_slot(s2, x) == has_slot(s, x) by {
        if has_slot(s2, x) {
            let j = choose|j: int| 0 <= j < s2.len() && s2[j].uuid == x;
            assert(s[j].uuid == x);
        }
        if has_slot(s, x) {
            let j = choose|j: int| 0 <= j < s.len() && s[j].uuid == x;
            assert(s2[j].uuid == x);
        }
    }
    assert forall|x: u128| has_slot(s2, x) implies s2[slot_index(s2, x)]@ == slots_map_of(s).insert(
        u,
        s2[i]@,
    )[x] by {
        let j = slot_index(s2, x);
        assert(0 <= j < s2.len() && s2[j].uuid == x);
        let j0 = slot_index(s, x);
        assert(0 <= j0 < s.len() && s[j0].uuid == x);
        assert(s2[j].uuid == s[j].uuid);
        if j != j0 {
            assert(false);
        }
        if x == u {
            if j != i {
                assert(s[j].uuid == s[i].uuid);
                assert(false);
            }
        } else {
            assert(j != i);
            assert(s2[j] == s[j]);
        }
    }
    assert(slots_map_of(s2) =~= slots_map_of(s).insert(u, s2[i]@));
}

/// Relies on uuid's `Uuid::new_v4`: a freshly drawn random 128-bit
/// identifier.  Randomness promises nothing, so neither does this.
#[verifier::external_body]
fn new_uuid() -> u128 {
    uuid::Uuid::new_v4().as_u128()
}

} // verus!
