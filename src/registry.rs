//! The instance registry: live instances keyed by a stable identity, stored
//! densely in slots, with the device buffer kept in step through `MirrorOp`s.

use std::collections::HashMap;
use vstd::arithmetic::power2::pow2;
use vstd::prelude::*;

use crate::frame::DrawCall;
use crate::mirror::{
    apply_op, grown_capacity, lemma_growth_composes, lemma_growth_is_least_doubling, record_at,
    zeroed, InstanceBytes, MirrorOp, INITIAL_MIRROR_BYTES, MAX_INSTANCES, MAX_MIRROR_BYTES,
    RECORD_SIZE,
};

verus! {

broadcast use vstd::std_specs::hash::group_hash_axioms;

/// Why a registry operation was refused.
#[derive(Debug, Clone, Copy, PartialEq, Eq, Structural)]
pub enum RegistryError {
    /// The identity is already live.
    DuplicateIdentity,
    /// The identity is not live.
    NotFound,
}

struct Slot<T> {
    id: u128,
    data: T,
    raw: InstanceBytes,
}

/// Live instances of one model. Slots `0..len()` are exactly the live ones:
/// removal moves the last slot into the freed one, so a draw over the first
/// `len()` slots draws every live instance and nothing else.
pub struct InstanceManager<T> {
    slots: Vec<Slot<T>>,
    id_to_index: HashMap<u128, usize>,
    capacity: u64,
    mirror: Ghost<Seq<u8>>,
}

impl<T> View for InstanceManager<T> {
    /// Each live identity with its data and its serialized record.
    type V = Map<u128, (T, Seq<u8>)>;

    closed spec fn view(&self) -> Map<u128, (T, Seq<u8>)> {
        Map::new(
            |id: u128| self.id_to_index@.contains_key(id),
            |id: u128|
                (
                    self.slots@[self.id_to_index@[id] as int].data,
                    self.slots@[self.id_to_index@[id] as int].raw@,
                ),
        )
    }
}

impl<T> InstanceManager<T> {
    /// Number of occupied slots.
    pub closed spec fn live_count(&self) -> nat {
        self.slots@.len()
    }

    /// Slot that holds the live identity `id`.
    pub closed spec fn slot_of(&self, id: u128) -> int {
        self.id_to_index@[id] as int
    }

    /// Byte size of the device buffer.
    pub closed spec fn capacity_bytes(&self) -> nat {
        self.capacity as nat
    }

    /// Contents of the device buffer, as produced by the `MirrorOp`s handed out.
    pub closed spec fn mirror(&self) -> Seq<u8> {
        self.mirror@
    }

    /// Slots and identities correspond one to one, the buffer is large
    /// enough for every occupied slot, and it holds each slot's record.
    pub closed spec fn wf(&self) -> bool {
        &&& self.slots@.len() <= MAX_INSTANCES
        &&& 0 < self.capacity <= MAX_MIRROR_BYTES
        &&& self.slots@.len() * RECORD_SIZE <= self.capacity
        &&& self.mirror@.len() == self.capacity
        &&& forall|i: int|
            0 <= i < self.slots@.len() ==> #[trigger] self.id_to_index@.contains_key(
                self.slots@[i].id,
            ) && self.id_to_index@[self.slots@[i].id] == i
        &&& forall|id: u128| #[trigger]
            self.id_to_index@.contains_key(id) ==> (self.id_to_index@[id] as int)
                < self.slots@.len() && self.slots@[self.id_to_index@[id] as int].id == id
        &&& forall|i: int, j: int|
            0 <= i < self.slots@.len() && 0 <= j < RECORD_SIZE ==> self.mirror@[i
                * RECORD_SIZE + j] == #[trigger] self.slots@[i].raw@[j]
    }

    /// An empty registry whose device buffer is `INITIAL_MIRROR_BYTES` long.
    pub fn new() -> (r: Self)
        ensures
            r.wf(),
            r@ == Map::<u128, (T, Seq<u8>)>::empty(),
            r.live_count() == 0,
            r.capacity_bytes() == INITIAL_MIRROR_BYTES,
            r.mirror() == zeroed(INITIAL_MIRROR_BYTES as nat),
    {
        let r = InstanceManager {
            slots: Vec::new(),
            id_to_index: HashMap::new(),
            capacity: INITIAL_MIRROR_BYTES,
            mirror: Ghost(zeroed(INITIAL_MIRROR_BYTES as nat)),
        };
        assert(r@ =~= Map::<u128, (T, Seq<u8>)>::empty());
        r
    }

    /// The records of all occupied slots, back to back in slot order.
    fn collect_records(&self) -> (r: Vec<u8>)
        ensures
            r@.len() == self.live_count() * RECORD_SIZE,
            forall|i: int, j: int|
                0 <= i < self.live_count() && 0 <= j < RECORD_SIZE ==> r@[i * RECORD_SIZE + j]
                    == #[trigger] self.slots@[i].raw@[j],
    {
        let mut out: Vec<u8> = Vec::new();
        let mut i: usize = 0;
        while i < self.slots.len()
            invariant
                i <= self.slots@.len(),
                out@.len() == i * RECORD_SIZE,
                forall|a: int, b: int|
                    0 <= a < i && 0 <= b < RECORD_SIZE ==> out@[a * RECORD_SIZE + b]
                        == #[trigger] self.slots@[a].raw@[b],
            decreases self.slots@.len() - i,
        {
            let raw = &self.slots[i].raw;
            let mut j: usize = 0;
            while j < 64
                invariant
                    i < self.slots@.len(),
                    *raw == self.slots@[i as int].raw,
                    j <= RECORD_SIZE,
                    out@.len() == i * RECORD_SIZE + j,
                    forall|a: int, b: int|
                        0 <= a < i && 0 <= b < RECORD_SIZE ==> out@[a * RECORD_SIZE + b]
                            == #[trigger] self.slots@[a].raw@[b],
                    forall|b: int| 0 <= b < j ==> out@[i * RECORD_SIZE + b] == raw@[b],
                decreases RECORD_SIZE - j,
            {
                out.push(raw[j]);
                j = j + 1;
            }
            i = i + 1;
        }
        out
    }

    /// Adds the live identity `id` with its data and serialized record.
    /// The instance takes the slot just past the occupied ones. When the
    /// buffer is too small for it, its capacity doubles until the records
    /// fit and every record is uploaded to a new buffer; otherwise the new
    /// record alone is written.
    pub fn add_instance(&mut self, id: u128, data: T, raw: InstanceBytes) -> (r: Result<
        MirrorOp,
        RegistryError,
    >)
        requires
            old(self).wf(),
            old(self).live_count() < MAX_INSTANCES,
        ensures
            final(self).wf(),
            r is Ok <==> !old(self)@.contains_key(id),
            match r {
                Ok(op) => inserted(*old(self), *final(self), id, data, raw@, op),
                Err(e) => e == RegistryError::DuplicateIdentity && *final(self) == *old(self),
            },
    {
        if self.id_to_index.contains_key(&id) {
            return Err(RegistryError::DuplicateIdentity);
        }
        let ghost pre = *self;
        let index = self.slots.len();
        let need: u64 = (index as u64 + 1) * RECORD_SIZE;
        if need <= self.capacity {
            let op = MirrorOp::Write { offset: index as u64 * RECORD_SIZE, record: raw };
            self.slots.push(Slot { id, data, raw });
            self.id_to_index.insert(id, index);
            self.mirror = Ghost(apply_op(self.mirror@, op));
            proof {
                self.lemma_after_push(pre, id, data, raw@);
            }
            Ok(op)
        } else {
            let mut cap = self.capacity;
            while cap < need
                invariant
                    0 < cap <= MAX_MIRROR_BYTES,
                    need <= (MAX_INSTANCES + 1) * RECORD_SIZE,
                    grown_capacity(cap as nat, need as nat) == grown_capacity(
                        pre.capacity as nat,
                        need as nat,
                    ),
                decreases (if cap < need { need - cap } else { 0 }),
            {
                cap = cap * 2;
            }
            self.slots.push(Slot { id, data, raw });
            self.id_to_index.insert(id, index);
            self.capacity = cap;
            let contents = self.collect_records();
            let op = MirrorOp::Realloc { size: cap, contents };
            self.mirror = Ghost(apply_op(self.mirror@, op));
            proof {
                self.lemma_after_push(pre, id, data, raw@);
            }
            Ok(op)
        }
    }

    /// Replaces the data and record of the live identity `id`, in its slot,
    /// and writes the new record over the old one.
    pub fn update_instance(&mut self, id: u128, data: T, raw: InstanceBytes) -> (r: Result<
        MirrorOp,
        RegistryError,
    >)
        requires
            old(self).wf(),
        ensures
            final(self).wf(),
            r is Ok <==> old(self)@.contains_key(id),
            match r {
                Ok(op) => updated(*old(self), *final(self), id, data, raw@, op),
                Err(e) => e == RegistryError::NotFound && *final(self) == *old(self),
            },
    {
        let index = match self.id_to_index.get(&id) {
            Some(i) => *i,
            None => {
                return Err(RegistryError::NotFound);
            },
        };
        let ghost pre = *self;
        let op = MirrorOp::Write { offset: index as u64 * RECORD_SIZE, record: raw };
        self.slots[index] = Slot { id, data, raw };
        self.mirror = Ghost(apply_op(self.mirror@, op));
        proof {
            assert forall|i: int, j: int|
                0 <= i < self.slots@.len() && 0 <= j < RECORD_SIZE implies self.mirror@[i
                    * RECORD_SIZE + j] == #[trigger] self.slots@[i].raw@[j] by {
                if i != index {
                    assert(self.slots@[i] == pre.slots@[i]);
                }
            }
            assert(self@ =~= pre@.insert(id, (data, raw@)));
        }
        Ok(op)
    }

    /// Removes the live identity `id` and hands back its data. The last
    /// occupied slot moves into the freed one, so that the occupied slots stay
    /// contiguous; the record of the moved instance is then written at its new
    /// offset. When the freed slot was the last one nothing is written.
    pub fn remove_instance(&mut self, id: u128) -> (r: Result<(T, Option<MirrorOp>), RegistryError>)
        requires
            old(self).wf(),
        ensures
            final(self).wf(),
            r is Ok <==> old(self)@.contains_key(id),
            match r {
                Ok((data, op)) => removed(*old(self), *final(self), id, data, op),
                Err(e) => e == RegistryError::NotFound && *final(self) == *old(self),
            },
    {
        let index = match self.id_to_index.get(&id) {
            Some(i) => *i,
            None => {
                return Err(RegistryError::NotFound);
            },
        };
        let ghost pre = *self;
        self.id_to_index.remove(&id);
        let last = self.slots.len() - 1;
        let slot = self.slots.swap_remove(index);
        if index < last {
            let moved_id = self.slots[index].id;
            let record = self.slots[index].raw;
            self.id_to_index.insert(moved_id, index);
            let op = MirrorOp::Write { offset: index as u64 * RECORD_SIZE, record };
            self.mirror = Ghost(apply_op(self.mirror@, op));
            proof {
                assert(pre.slots@[last as int] == self.slots@[index as int]);
                assert(record@ =~= pre.mirror@.subrange(
                    last * RECORD_SIZE,
                    (last + 1) * RECORD_SIZE,
                )) by {
                    assert forall|j: int| 0 <= j < RECORD_SIZE implies record@[j]
                        == pre.mirror@[last * RECORD_SIZE + j] by {
                        assert(pre.slots@[last as int].raw@[j] == record@[j]);
                    }
                }
                assert forall|i: int, j: int|
                    0 <= i < self.slots@.len() && 0 <= j < RECORD_SIZE implies self.mirror@[i
                        * RECORD_SIZE + j] == #[trigger] self.slots@[i].raw@[j] by {
                    if i != index {
                        assert(self.slots@[i] == pre.slots@[i]);
                    }
                }
                assert(self@ =~= pre@.remove(id));
            }
            Ok((slot.data, Some(op)))
        } else {
            proof {
                assert forall|i: int, j: int|
                    0 <= i < self.slots@.len() && 0 <= j < RECORD_SIZE implies self.mirror@[i
                        * RECORD_SIZE + j] == #[trigger] self.slots@[i].raw@[j] by {
                    assert(self.slots@[i] == pre.slots@[i]);
                }
                assert(self@ =~= pre@.remove(id));
            }
            Ok((slot.data, None))
        }
    }

    /// Number of live instances.
    pub fn len(&self) -> (r: usize)
        ensures
            r == self.live_count(),
    {
        self.slots.len()
    }

    /// Byte size of the device buffer.
    pub fn capacity(&self) -> (r: u64)
        ensures
            r == self.capacity_bytes(),
    {
        self.capacity
    }

    /// Whether `id` is live.
    pub fn contains(&self, id: u128) -> (r: bool)
        ensures
            r == self@.contains_key(id),
    {
        self.id_to_index.contains_key(&id)
    }

    /// The slot of the live identity `id`.
    pub fn slot_index(&self, id: u128) -> (r: Option<usize>)
        requires
            self.wf(),
        ensures
            match r {
                Some(i) => self@.contains_key(id) && i == self.slot_of(id) && i
                    < self.live_count(),
                None => !self@.contains_key(id),
            },
    {
        match self.id_to_index.get(&id) {
            Some(i) => Some(*i),
            None => None,
        }
    }

    /// The data of the live identity `id`.
    pub fn get(&self, id: u128) -> (r: Option<&T>)
        requires
            self.wf(),
        ensures
            match r {
                Some(d) => self@.contains_key(id) && *d == self@[id].0,
                None => !self@.contains_key(id),
            },
    {
        match self.id_to_index.get(&id) {
            Some(i) => Some(&self.slots[*i].data),
            None => None,
        }
    }

    /// The draw that renders every live instance of a mesh with
    /// `index_count` indices: the occupied slots are exactly `0..len()`.
    pub fn draw_call(&self, index_count: u32) -> (r: DrawCall)
        requires
            self.wf(),
        ensures
            r.index_count == index_count,
            r.instance_count == self.live_count(),
    {
        DrawCall { index_count, instance_count: self.slots.len() as u32 }
    }

    /// What is left to show once a new slot has been pushed, indexed and
    /// written to the mirror.
    proof fn lemma_after_push(&self, pre: Self, id: u128, data: T, raw: Seq<u8>)
        requires
            pre.wf(),
            pre.slots@.len() < MAX_INSTANCES,
            !pre.id_to_index@.contains_key(id),
            self.slots@.len() == pre.slots@.len() + 1,
            forall|i: int| 0 <= i < pre.slots@.len() ==> self.slots@[i] == pre.slots@[i],
            self.slots@.last().id == id,
            self.slots@.last().data == data,
            self.slots@.last().raw@ == raw,
            self.id_to_index@ == pre.id_to_index@.insert(id, pre.slots@.len() as usize),
            self.capacity >= pre.capacity,
            self.capacity <= MAX_MIRROR_BYTES,
            self.slots@.len() * RECORD_SIZE <= self.capacity,
            self.mirror@.len() == self.capacity,
            forall|i: int, j: int|
                0 <= i < self.slots@.len() && 0 <= j < RECORD_SIZE ==> self.mirror@[i
                    * RECORD_SIZE + j] == #[trigger] self.slots@[i].raw@[j],
        ensures
            self.wf(),
            self@ == pre@.insert(id, (data, raw)),
            self.slot_of(id) == pre.live_count(),
            forall|k: u128| pre@.contains_key(k) ==> self.slot_of(k) == pre.slot_of(k),
    {
        assert(self@ =~= pre@.insert(id, (data, raw)));
    }
}

/// `post` is `pre` after `update_instance(id, data, raw)` succeeded with `op`.
pub open spec fn updated<T>(
    pre: InstanceManager<T>,
    post: InstanceManager<T>,
    id: u128,
    data: T,
    raw: Seq<u8>,
    op: MirrorOp,
) -> bool {
    &&& pre@.contains_key(id)
    &&& post@ == pre@.insert(id, (data, raw))
    &&& post.live_count() == pre.live_count()
    &&& forall|k: u128| pre@.contains_key(k) ==> post.slot_of(k) == pre.slot_of(k)
    &&& post.capacity_bytes() == pre.capacity_bytes()
    &&& op is Write
    &&& op->offset == pre.slot_of(id) * RECORD_SIZE
    &&& op->record@ == raw
    &&& post.mirror() == apply_op(pre.mirror(), op)
}

/// `post` is `pre` after `remove_instance(id)` succeeded, handing back `data`
/// and `op`.
pub open spec fn removed<T>(
    pre: InstanceManager<T>,
    post: InstanceManager<T>,
    id: u128,
    data: T,
    op: Option<MirrorOp>,
) -> bool {
    &&& pre@.contains_key(id)
    &&& data == pre@[id].0
    &&& post@ == pre@.remove(id)
    &&& post.live_count() + 1 == pre.live_count()
    &&& post.capacity_bytes() == pre.capacity_bytes()
    &&& forall|k: u128|
        post@.contains_key(k) ==> post.slot_of(k) == if pre.slot_of(k) == post.live_count() {
            pre.slot_of(id)
        } else {
            pre.slot_of(k)
        }
    &&& match op {
        None => {
            &&& pre.slot_of(id) == post.live_count()
            &&& post.mirror() == pre.mirror()
        },
        Some(w) => {
            &&& pre.slot_of(id) < post.live_count()
            &&& w is Write
            &&& w->offset == pre.slot_of(id) * RECORD_SIZE
            &&& w->record@ == pre.mirror().subrange(
                post.live_count() * RECORD_SIZE,
                (post.live_count() + 1) * RECORD_SIZE,
            )
            &&& post.mirror() == apply_op(pre.mirror(), w)
        },
    }
}

/// `post` is `pre` after `add_instance(id, data, raw)` succeeded with `op`.
pub open spec fn inserted<T>(
    pre: InstanceManager<T>,
    post: InstanceManager<T>,
    id: u128,
    data: T,
    raw: Seq<u8>,
    op: MirrorOp,
) -> bool {
    &&& !pre@.contains_key(id)
    &&& post@ == pre@.insert(id, (data, raw))
    &&& post.live_count() == pre.live_count() + 1
    &&& post.slot_of(id) == pre.live_count()
    &&& forall|k: u128| pre@.contains_key(k) ==> post.slot_of(k) == pre.slot_of(k)
    &&& post.capacity_bytes() == grown_capacity(
        pre.capacity_bytes(),
        (post.live_count() * RECORD_SIZE) as nat,
    )
    &&& post.mirror() == apply_op(pre.mirror(), op)
    &&& if post.live_count() * RECORD_SIZE <= pre.capacity_bytes() {
        &&& op is Write
        &&& op->offset == pre.live_count() * RECORD_SIZE
        &&& op->record@ == raw
    } else {
        &&& op is Realloc
        &&& op->size == post.capacity_bytes()
        &&& op->contents@.len() == post.live_count() * RECORD_SIZE
    }
}

/// The device buffer agrees with the registry: every live identity sits in
/// its own slot among the first `live_count()`, there are as many live
/// identities as occupied slots, and the buffer holds at each identity's slot
/// the record last written for it.
pub proof fn lemma_mirror_holds_live_records<T>(r: &InstanceManager<T>)
    requires
        r.wf(),
    ensures
        r.live_count() * RECORD_SIZE <= r.mirror().len(),
        r.live_count() <= MAX_INSTANCES,
        forall|id: u128| #[trigger]
            r@.contains_key(id) ==> 0 <= r.slot_of(id) < r.live_count() && record_at(
                r.mirror(),
                r.slot_of(id),
            ) == r@[id].1,
        forall|a: u128, b: u128|
            r@.contains_key(a) && r@.contains_key(b) && a != b ==> #[trigger] r.slot_of(a)
                != #[trigger] r.slot_of(b),
        r@.dom().len() == r.live_count(),
{
    assert forall|id: u128| #[trigger] r@.contains_key(id) implies 0 <= r.slot_of(id)
        < r.live_count() && record_at(r.mirror(), r.slot_of(id)) == r@[id].1 by {
        let i = r.slot_of(id);
        assert(record_at(r.mirror(), i) =~= r.slots@[i].raw@) by {
            assert forall|j: int| 0 <= j < RECORD_SIZE implies record_at(r.mirror(), i)[j]
                == r.slots@[i].raw@[j] by {
                assert(r.slots@[i].raw@[j] == r.mirror@[i * RECORD_SIZE + j]);
            }
        }
    }
    let ids = r.slots@.map_values(|s: Slot<T>| s.id);
    assert(ids.no_duplicates()) by {
        assert forall|i: int, j: int|
            0 <= i < ids.len() && 0 <= j < ids.len() && i != j implies ids[i] != ids[j] by {
            assert(r.id_to_index@.contains_key(r.slots@[i].id));
            assert(r.id_to_index@.contains_key(r.slots@[j].id));
        }
    }
    ids.unique_seq_to_set();
    assert(r@.dom() =~= ids.to_set()) by {
        assert forall|id: u128| r@.dom().contains(id) implies ids.to_set().contains(id) by {
            assert(ids[r.id_to_index@[id] as int] == id);
        }
        assert forall|id: u128| ids.to_set().contains(id) implies r@.dom().contains(id) by {
            let i = choose|i: int| 0 <= i < ids.len() && ids[i] == id;
            assert(r.id_to_index@.contains_key(r.slots@[i].id));
        }
    }
}

/// After an identity is removed the registry no longer holds it, which is
/// when `update_instance` and `remove_instance` answer `NotFound`; adding it
/// again afterwards stores only the new data, with nothing left of the
/// removed one.
pub proof fn lemma_remove_then_reinsert<T>(
    r0: InstanceManager<T>,
    r1: InstanceManager<T>,
    r2: InstanceManager<T>,
    id: u128,
    old_data: T,
    remove_op: Option<MirrorOp>,
    data: T,
    raw: Seq<u8>,
    insert_op: MirrorOp,
)
    requires
        removed(r0, r1, id, old_data, remove_op),
        inserted(r1, r2, id, data, raw, insert_op),
    ensures
        !r1@.contains_key(id),
        r2@[id] == (data, raw),
        r2@ == r0@.insert(id, (data, raw)),
{
    assert(r2@ =~= r0@.insert(id, (data, raw)));
}

/// An insertion that follows a removal takes the slot that the removal
/// vacated and never grows the buffer: its record is a single write.
pub proof fn lemma_insert_after_remove_reuses_slot<T>(
    r0: InstanceManager<T>,
    r1: InstanceManager<T>,
    r2: InstanceManager<T>,
    gone: u128,
    gone_data: T,
    remove_op: Option<MirrorOp>,
    id: u128,
    data: T,
    raw: Seq<u8>,
    insert_op: MirrorOp,
)
    requires
        r0.wf(),
        removed(r0, r1, gone, gone_data, remove_op),
        inserted(r1, r2, id, data, raw, insert_op),
    ensures
        r2.capacity_bytes() == r0.capacity_bytes(),
        r2.live_count() == r0.live_count(),
        r2.slot_of(id) == r0.live_count() - 1,
        insert_op is Write,
{
}

/// A successful registry call, as seen by its caller.
pub enum Edit<T> {
    Insert { id: u128, data: T, raw: Seq<u8> },
    Update { id: u128, data: T, raw: Seq<u8> },
    Remove { id: u128 },
}

/// The live set `m` after the edit `e`, in terms of maps alone.
pub open spec fn edit_model<T>(m: Map<u128, (T, Seq<u8>)>, e: Edit<T>) -> Map<u128, (T, Seq<u8>)> {
    match e {
        Edit::Insert { id, data, raw } => m.insert(id, (data, raw)),
        Edit::Update { id, data, raw } => m.insert(id, (data, raw)),
        Edit::Remove { id } => m.remove(id),
    }
}

/// The live set `m` after each of `edits` in turn.
pub open spec fn replay<T>(m: Map<u128, (T, Seq<u8>)>, edits: Seq<Edit<T>>) -> Map<
    u128,
    (T, Seq<u8>),
>
    decreases edits.len(),
{
    if edits.len() == 0 {
        m
    } else {
        edit_model(replay(m, edits.drop_last()), edits.last())
    }
}

/// `post` is `pre` after the call that `e` records.
pub open spec fn performs<T>(pre: InstanceManager<T>, post: InstanceManager<T>, e: Edit<T>) -> bool {
    match e {
        Edit::Insert { id, data, raw } => exists|op: MirrorOp| inserted(pre, post, id, data, raw, op),
        Edit::Update { id, data, raw } => exists|op: MirrorOp| updated(pre, post, id, data, raw, op),
        Edit::Remove { id } => exists|d: T, op: Option<MirrorOp>| removed(pre, post, id, d, op),
    }
}

/// Over any run of successful inserts, updates and removals, the registry's
/// live set is the one obtained by applying the same edits to a map, and the
/// device buffer holds, at each live identity's slot, the record last written
/// for it.
pub proof fn lemma_history_matches_model<T>(
    states: Seq<InstanceManager<T>>,
    edits: Seq<Edit<T>>,
)
    requires
        states.len() == edits.len() + 1,
        forall|i: int| 0 <= i < states.len() ==> #[trigger] states[i].wf(),
        forall|i: int| 0 <= i < edits.len() ==> performs(states[i], states[i + 1], #[trigger] edits[i]),
    ensures
        states.last()@ == replay(states[0]@, edits),
        forall|id: u128| #[trigger]
            states.last()@.contains_key(id) ==> 0 <= states.last().slot_of(id)
                < states.last().live_count() && record_at(
                states.last().mirror(),
                states.last().slot_of(id),
            ) == states.last()@[id].1,
    decreases edits.len(),
{
    let n = edits.len();
    if n > 0 {
        let prefix = states.drop_last();
        let earlier = edits.drop_last();
        assert forall|i: int| 0 <= i < earlier.len() implies performs(
            prefix[i],
            prefix[i + 1],
            #[trigger] earlier[i],
        ) by {
            assert(performs(states[i], states[i + 1], edits[i]));
        }
        assert forall|i: int| 0 <= i < prefix.len() implies #[trigger] prefix[i].wf() by {
            assert(states[i].wf());
        }
        lemma_history_matches_model(prefix, earlier);
        let pre = states[n - 1];
        let post = states[n as int];
        assert(performs(pre, post, edits[n - 1]));
    }
    lemma_mirror_holds_live_records(&states.last());
}

/// Capacity only doubles: after any run of insertions the buffer is the
/// smallest power-of-two multiple of its starting size that holds every
/// record.
pub proof fn lemma_inserts_double_capacity<T>(
    states: Seq<InstanceManager<T>>,
    edits: Seq<Edit<T>>,
)
    requires
        states.len() == edits.len() + 1,
        forall|i: int| 0 <= i < states.len() ==> #[trigger] states[i].wf(),
        forall|i: int|
            0 <= i < edits.len() ==> #[trigger] edits[i] is Insert && performs(
                states[i],
                states[i + 1],
                edits[i],
            ),
    ensures
        ({
            let c = states[0].capacity_bytes();
            let need = states.last().live_count() * RECORD_SIZE;
            &&& states.last().capacity_bytes() == grown_capacity(c, need as nat)
            &&& exists|k: nat|
                {
                    &&& states.last().capacity_bytes() == c * #[trigger] pow2(k)
                    &&& c * pow2(k) >= need
                    &&& k > 0 ==> c * pow2((k - 1) as nat) < need
                }
        }),
    decreases edits.len(),
{
    let c = states[0].capacity_bytes();
    let n = edits.len();
    assert(states[0].wf());
    if n == 0 {
        assert(states.last() == states[0]);
    } else {
        let prefix = states.drop_last();
        let earlier = edits.drop_last();
        assert forall|i: int| 0 <= i < earlier.len() implies #[trigger] earlier[i] is Insert
            && performs(prefix[i], prefix[i + 1], earlier[i]) by {
            assert(edits[i] is Insert && performs(states[i], states[i + 1], edits[i]));
        }
        assert forall|i: int| 0 <= i < prefix.len() implies #[trigger] prefix[i].wf() by {
            assert(states[i].wf());
        }
        lemma_inserts_double_capacity(prefix, earlier);
        let pre = states[n - 1];
        let post = states[n as int];
        assert(edits[n - 1] is Insert && performs(pre, post, edits[n - 1]));
        assert(post.live_count() == pre.live_count() + 1);
        lemma_growth_composes(
            c,
            (pre.live_count() * RECORD_SIZE) as nat,
            (post.live_count() * RECORD_SIZE) as nat,
        );
    }
    lemma_growth_is_least_doubling(c, (states.last().live_count() * RECORD_SIZE) as nat);
}

} // verus!
