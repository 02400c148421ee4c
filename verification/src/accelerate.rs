//! Accelerators for memoized calls: small maps from call hashes to return
//! hashes, one per memoized function, looked up by an id.
//!
//! The registry is capped: when a lookup would grow it past
//! [`MAX_ACCELERATORS`] slots, every accelerator is dropped instead, and the
//! ids issued so far no longer find one.

use std::collections::HashMap;

use rustc_hash::FxBuildHasher;
use vstd::prelude::*;

verus! {

/// Maximum number of accelerator slots before automatic eviction.
pub const MAX_ACCELERATORS: usize = 100_000;

/// One accelerator: maps call hashes to return hashes.
pub type Accelerator = HashMap<u128, u128, FxBuildHasher>;

/// The registry of live accelerators and the id counter.
pub struct Accelerators {
    next_id: usize,
    offset: usize,
    slots: Vec<Accelerator>,
}

/// Where a lookup of `id` lands, given the next id to be issued, the id of
/// slot 0 and the number of slots: the slot, or `None`. A lookup beyond the
/// cap drops every slot and the id of slot 0 becomes `next_id`.
pub open spec fn lookup_slot(next_id: nat, offset: nat, len: nat, id: nat) -> Option<nat> {
    if id < offset {
        None
    } else if id - offset < len {
        Some((id - offset) as nat)
    } else if id - offset + 1 > MAX_ACCELERATORS {
        if id < next_id {
            None
        } else {
            Some((id - next_id) as nat)
        }
    } else {
        Some((id - offset) as nat)
    }
}

/// Whether a lookup of `id` drops every slot.
pub open spec fn lookup_evicts(offset: nat, len: nat, id: nat) -> bool {
    id >= offset && id - offset >= len && id - offset + 1 > MAX_ACCELERATORS
}

/// Whether a lookup of `id` adds slots.
pub open spec fn lookup_grows(offset: nat, len: nat, id: nat) -> bool {
    id >= offset && id - offset >= len && id - offset + 1 <= MAX_ACCELERATORS
}

/// The id of slot 0 after a lookup of `id`.
pub open spec fn offset_after_lookup(next_id: nat, offset: nat, len: nat, id: nat) -> nat {
    if lookup_evicts(offset, len, id) {
        next_id
    } else {
        offset
    }
}

/// The number of slots after a lookup of `id`.
pub open spec fn len_after_lookup(offset: nat, len: nat, id: nat) -> nat {
    if lookup_evicts(offset, len, id) {
        0
    } else if lookup_grows(offset, len, id) {
        (id - offset + 1) as nat
    } else {
        len
    }
}

/// Once the accelerators are dropped, no id issued before finds one, and
/// the ids issued after find slots from 0 on.
pub proof fn lemma_eviction_forgets_earlier_ids(next_id: nat, id: nat)
    ensures
        id < next_id ==> lookup_slot(next_id, next_id, 0, id) is None,
        next_id <= id < next_id + MAX_ACCELERATORS ==> lookup_slot(next_id, next_id, 0, id)
            == Some((id - next_id) as nat),
{
}

/// A lookup that found a slot leaves the registry so that looking the same
/// id up again finds the same slot and changes nothing.
pub proof fn lemma_repeated_lookup_is_stable(next_id: nat, offset: nat, len: nat, id: nat)
    requires
        len <= MAX_ACCELERATORS,
        lookup_evicts(offset, len, id) ==> id < next_id,
        lookup_slot(next_id, offset, len, id) is Some,
    ensures
        lookup_slot(
            next_id,
            offset_after_lookup(next_id, offset, len, id),
            len_after_lookup(offset, len, id),
            id,
        ) == lookup_slot(next_id, offset, len, id),
        !lookup_evicts(
            offset_after_lookup(next_id, offset, len, id),
            len_after_lookup(offset, len, id),
            id,
        ),
        !lookup_grows(
            offset_after_lookup(next_id, offset, len, id),
            len_after_lookup(offset, len, id),
            id,
        ),
{
}

/// An id below the id of slot 0 stays forgotten while the id counter does
/// not wrap around: looking it up finds nothing, and neither a lookup of any
/// id nor issuing a new id lifts it back to or above the id of slot 0.
pub proof fn lemma_forgotten_ids_stay_forgotten(
    next_id: nat,
    offset: nat,
    len: nat,
    old_id: nat,
    other: nat,
)
    requires
        old_id < offset <= next_id,
        next_id < usize::MAX,
        lookup_evicts(offset, len, other) ==> other < next_id,
    ensures
        lookup_slot(next_id, offset, len, old_id) is None,
        old_id < offset_after_lookup(next_id, offset, len, other) <= next_id,
        offset <= next_id + 1,
{
}

impl Accelerators {
    /// The next id to be issued.
    pub closed spec fn next_id(&self) -> nat {
        self.next_id as nat
    }

    /// The id whose accelerator is in slot 0.
    pub closed spec fn offset(&self) -> nat {
        self.offset as nat
    }

    /// The contents of each slot.
    pub closed spec fn slots(&self) -> Seq<Map<u128, u128>> {
        self.slots@.map_values(|m: Accelerator| m@)
    }

    /// The registry never holds more than [`MAX_ACCELERATORS`] slots.
    pub open spec fn wf(&self) -> bool {
        self.slots().len() <= MAX_ACCELERATORS
    }

    /// Where a lookup of `id` lands.
    pub open spec fn slot_of(&self, id: nat) -> Option<nat> {
        lookup_slot(self.next_id(), self.offset(), self.slots().len(), id)
    }

    /// Whether a lookup of `id` can be answered: one that drops every slot
    /// must leave `id` before the new first id.
    pub open spec fn lookup_defined(&self, id: nat) -> bool {
        lookup_evicts(self.offset(), self.slots().len(), id) ==> id < self.next_id()
    }

    /// An empty registry whose first id is 0.
    pub fn new() -> (r: Self)
        ensures
            r.wf(),
            r.next_id() == 0,
            r.offset() == 0,
            r.slots() == Seq::<Map<u128, u128>>::empty(),
    {
        let r = Accelerators { next_id: 0, offset: 0, slots: Vec::new() };
        proof {
            assert(r.slots() =~= Seq::<Map<u128, u128>>::empty());
        }
        r
    }

    /// Whether a lookup of `id` can be answered; one that is not would
    /// drop every slot and then index past the empty registry.
    pub fn can_look_up(&self, id: usize) -> (b: bool)
        ensures
            b == self.lookup_defined(id as nat),
    {
        let len = self.slots.len();
        !(id >= self.offset && id - self.offset >= len && id - self.offset >= MAX_ACCELERATORS
            && id >= self.next_id)
    }

    /// The accelerator in `slot`.
    pub fn accelerator(&self, slot: usize) -> (a: &Accelerator)
        requires
            slot < self.slots().len(),
        ensures
            a@ == self.slots()[slot as int],
    {
        &self.slots[slot]
    }

    /// The accelerator in `slot`, to record calls in; the other slots stay
    /// as they are.
    pub fn accelerator_mut(&mut self, slot: usize) -> (a: &mut Accelerator)
        requires
            slot < old(self).slots().len(),
        ensures
            a@ == old(self).slots()[slot as int],
            final(self).next_id() == old(self).next_id(),
            final(self).offset() == old(self).offset(),
            final(self).slots() == old(self).slots().update(slot as int, final(a)@),
            final(self).wf() == old(self).wf(),
    {
        &mut self.slots[slot]
    }

    /// Drop every slot, and let slot 0 belong to the next id.
    fn drop_all(&mut self)
        ensures
            final(self).wf(),
            final(self).next_id() == old(self).next_id(),
            final(self).offset() == old(self).next_id(),
            final(self).slots() == Seq::<Map<u128, u128>>::empty(),
    {
        self.offset = self.next_id;
        self.slots = Vec::new();
        proof {
            assert(self.slots() =~= Seq::<Map<u128, u128>>::empty());
        }
    }

    /// Grow the registry to `len` slots with empty accelerators, or drop
    /// every slot if that would pass the cap.
    fn resize(&mut self, len: usize)
        requires
            old(self).wf(),
        ensures
            final(self).wf(),
            final(self).next_id() == old(self).next_id(),
            len > MAX_ACCELERATORS ==> final(self).offset() == old(self).next_id()
                && final(self).slots() == Seq::<Map<u128, u128>>::empty(),
            len <= MAX_ACCELERATORS ==> final(self).offset() == old(self).offset(),
            len <= MAX_ACCELERATORS && len <= old(self).slots().len() ==> final(self).slots()
                == old(self).slots(),
            len <= MAX_ACCELERATORS && len > old(self).slots().len() ==> final(self).slots()
                == old(self).slots() + Seq::new(
                (len - old(self).slots().len()) as nat,
                |i: int| Map::<u128, u128>::empty(),
            ),
    {
        if len > MAX_ACCELERATORS {
            self.drop_all();
            return;
        }
        let ghost before = self.slots();
        let start = self.slots.len();
        while self.slots.len() < len
            invariant
                start <= self.slots@.len() <= len || (len <= start && self.slots@.len() == start),
                start == before.len(),
                len <= MAX_ACCELERATORS,
                self.next_id == old(self).next_id,
                self.offset == old(self).offset,
                self.slots() == before + Seq::new(
                    (self.slots@.len() - start) as nat,
                    |i: int| Map::<u128, u128>::empty(),
                ),
            decreases len - self.slots@.len(),
        {
            let fresh: Accelerator = HashMap::default();
            let ghost prev = self.slots@;
            let ghost fresh_view = fresh@;
            self.slots.push(fresh);
            proof {
                assert(fresh_view == Map::<u128, u128>::empty());
                assert(self.slots@ == prev.push(fresh));
                assert(self.slots() =~= prev.map_values(|m: Accelerator| m@).push(fresh_view));
                assert(self.slots() =~= before + Seq::new(
                    (self.slots@.len() - start) as nat,
                    |i: int| Map::<u128, u128>::empty(),
                ));
            }
        }
        proof {
            if len <= start {
                assert(self.slots() =~= before);
            }
        }
    }
}

/// Issue a new accelerator id. Ids count up from 0, wrapping around at the
/// end of `usize`.
pub fn id(accelerators: &mut Accelerators) -> (r: usize)
    ensures
        r == old(accelerators).next_id(),
        final(accelerators).next_id() == (if r == usize::MAX {
            0
        } else {
            r + 1
        }),
        final(accelerators).offset() == old(accelerators).offset(),
        final(accelerators).slots() == old(accelerators).slots(),
        old(accelerators).wf() ==> final(accelerators).wf(),
{
    let r = accelerators.next_id;
    accelerators.next_id = r.wrapping_add(1);
    r
}

/// Drop every accelerator. Ids issued so far no longer find one.
pub fn evict(accelerators: &mut Accelerators)
    ensures
        final(accelerators).wf(),
        final(accelerators).next_id() == old(accelerators).next_id(),
        final(accelerators).offset() == old(accelerators).next_id(),
        final(accelerators).slots() == Seq::<Map<u128, u128>>::empty(),
{
    accelerators.drop_all();
}

/// The slot of the accelerator for `id`, growing the registry with empty
/// accelerators as needed; `None` if `id` was issued before the last
/// eviction.
pub fn get(accelerators: &mut Accelerators, id: usize) -> (slot: Option<usize>)
    requires
        old(accelerators).wf(),
        old(accelerators).lookup_defined(id as nat),
    ensures
        final(accelerators).wf(),
        final(accelerators).slots().len() <= MAX_ACCELERATORS,
        slot is Some <==> old(accelerators).slot_of(id as nat) is Some,
        slot matches Some(s) ==> s == old(accelerators).slot_of(id as nat)->0,
        slot matches Some(s) ==> s < final(accelerators).slots().len(),
        final(accelerators).next_id() == old(accelerators).next_id(),
        final(accelerators).offset() == offset_after_lookup(
            old(accelerators).next_id(),
            old(accelerators).offset(),
            old(accelerators).slots().len(),
            id as nat,
        ),
        final(accelerators).slots().len() == len_after_lookup(
            old(accelerators).offset(),
            old(accelerators).slots().len(),
            id as nat,
        ),
        lookup_evicts(old(accelerators).offset(), old(accelerators).slots().len(), id as nat)
            ==> final(accelerators).offset() == old(accelerators).next_id()
            && final(accelerators).slots() == Seq::<Map<u128, u128>>::empty(),
        lookup_grows(old(accelerators).offset(), old(accelerators).slots().len(), id as nat)
            ==> final(accelerators).offset() == old(accelerators).offset()
            && final(accelerators).slots() == old(accelerators).slots() + Seq::new(
            (id - old(accelerators).offset() + 1 - old(accelerators).slots().len()) as nat,
            |i: int| Map::<u128, u128>::empty(),
        ),
        !lookup_evicts(old(accelerators).offset(), old(accelerators).slots().len(), id as nat)
            && !lookup_grows(old(accelerators).offset(), old(accelerators).slots().len(), id as nat)
            ==> final(accelerators).offset() == old(accelerators).offset()
            && final(accelerators).slots() == old(accelerators).slots(),
{
    if id < accelerators.offset {
        return None;
    }
    let i = id - accelerators.offset;
    if i < accelerators.slots.len() {
        return Some(i);
    }
    accelerators.resize(i + 1);
    if id < accelerators.offset {
        return None;
    }
    let i = id - accelerators.offset;
    Some(i)
}

} // verus!
