use vstd::prelude::*;

verus! {

/// Default number of slots in a fresh mapping.
pub const SLOT_SIZE: u64 = 1024;

/// A slot of the materialized mapping: a slot id bound to a backend node,
/// with a flag set while the slot's data is being moved.
#[derive(Clone, Copy, Debug, Hash, PartialEq, Eq, Structural)]
pub struct Slot {
    /// The id of the slot.
    pub id: u64,
    /// The id of the owning backend node.
    pub backend_node_id: u64,
    /// Whether the slot is migrating.
    pub is_migrating: bool,
}

impl Slot {
    /// Create a new slot, not migrating.
    pub fn new(id: u64, backend_node_id: u64) -> (s: Slot)
        ensures
            s == (Slot { id, backend_node_id, is_migrating: false }),
    {
        Slot { id, backend_node_id, is_migrating: false }
    }

    /// Get the id of the slot.
    pub fn id(&self) -> (r: u64)
        ensures
            r == self.id,
    {
        self.id
    }

    /// Get the id of the owning backend node.
    pub fn backend_node_id(&self) -> (r: u64)
        ensures
            r == self.backend_node_id,
    {
        self.backend_node_id
    }

    /// Whether the slot is migrating.
    pub fn is_migrating(&self) -> (r: bool)
        ensures
            r == self.is_migrating,
    {
        self.is_migrating
    }

    /// Set whether the slot is migrating.
    pub fn set_migrating(&mut self, is_migrating: bool)
        ensures
            *final(self) == (Slot { is_migrating, ..*old(self) }),
    {
        self.is_migrating = is_migrating;
    }

    /// Set the id of the owning backend node.
    pub fn set_backend_node_id(&mut self, backend_node_id: u64)
        ensures
            *final(self) == (Slot { backend_node_id, ..*old(self) }),
    {
        self.backend_node_id = backend_node_id;
    }
}

/// The slot-to-node assignment table a read path looks up: an immutable
/// snapshot indexed by slot id.
#[derive(Debug)]
pub struct SlotMapping {
    /// The slots, at the index of their id.
    slots: Vec<Slot>,
}

impl SlotMapping {
    /// The slots of the mapping.
    pub closed spec fn view(self) -> Seq<Slot> {
        self.slots@
    }

    /// Each slot sits at the index of its own id.
    pub open spec fn wf(self) -> bool {
        forall|i: int| 0 <= i < self@.len() ==> (#[trigger] self@[i]).id == i
    }

    /// Create a mapping of `SLOT_SIZE` slots, numbered from zero, all bound
    /// to node zero and not migrating.
    pub fn default() -> (m: SlotMapping)
        ensures
            m.wf(),
            m@.len() == SLOT_SIZE,
            forall|i: int|
                0 <= i < m@.len() ==> #[trigger] m@[i] == (Slot {
                    id: i as u64,
                    backend_node_id: 0,
                    is_migrating: false,
                }),
    {
        let mut slots: Vec<Slot> = Vec::new();
        let mut id: u64 = 0;
        while id < SLOT_SIZE
            invariant
                id <= SLOT_SIZE,
                slots@.len() == id,
                forall|i: int|
                    0 <= i < id ==> #[trigger] slots@[i] == (Slot {
                        id: i as u64,
                        backend_node_id: 0,
                        is_migrating: false,
                    }),
            decreases SLOT_SIZE - id,
        {
            slots.push(Slot { id, backend_node_id: 0, is_migrating: false });
            id = id + 1;
        }
        SlotMapping { slots }
    }

    /// The slots of the mapping, as a fresh vector.
    pub fn inner(&self) -> (out: Vec<Slot>)
        ensures
            out@ == self@,
    {
        let mut out: Vec<Slot> = Vec::new();
        let mut i: usize = 0;
        while i < self.slots.len()
            invariant
                i <= self@.len(),
                self@ == self.slots@,
                out@ =~= self@.take(i as int),
            decreases self@.len() - i,
        {
            out.push(self.slots[i]);
            i = i + 1;
        }
        proof {
            assert(out@ =~= self@);
        }
        out
    }

    /// Get the slot with a given id, absent when the id is out of range.
    pub fn get_slot(&self, id: u64) -> (res: Option<Slot>)
        ensures
            id < self@.len() ==> res == Some(self@[id as int]),
            id >= self@.len() ==> res is None,
    {
        if (id as u128) < (self.slots.len() as u128) {
            Some(self.slots[id as usize])
        } else {
            None
        }
    }

    /// The slots that are available to the read path: those not migrating,
    /// in mapping order.
    pub fn available_slot(&self) -> (out: Vec<Slot>)
        ensures
            out@ == spec_available(self@),
    {
        let mut out: Vec<Slot> = Vec::new();
        let mut i: usize = 0;
        proof {
            reveal(Seq::<Slot>::filter);
            assert(self@.take(0) =~= Seq::<Slot>::empty());
            assert(spec_available(self@.take(0)).len() == 0);
        }
        while i < self.slots.len()
            invariant
                i <= self@.len(),
                self@ == self.slots@,
                out@ == spec_available(self@.take(i as int)),
            decreases self@.len() - i,
        {
            let s = self.slots[i];
            proof {
                reveal(Seq::<Slot>::filter);
                assert(self@.take(i + 1).drop_last() =~= self@.take(i as int));
                assert(self@.take(i + 1).last() == self@[i as int]);
            }
            if !s.is_migrating {
                out.push(s);
            }
            proof {
                assert(out@ == spec_available(self@.take(i + 1)));
            }
            i = i + 1;
        }
        proof {
            assert(self@.take(self@.len() as int) =~= self@);
        }
        out
    }
}

/// The slots of a mapping that are not migrating, in order.
pub open spec fn spec_available(s: Seq<Slot>) -> Seq<Slot> {
    s.filter(|x: Slot| !x.is_migrating)
}

} // verus!
