use vstd::multiset::Multiset;
use vstd::prelude::*;

use crate::slot::Slot;

verus! {

/// Holds the hashring crate's consistent-hashing collection over plain
/// items; the collection itself is opaque to the verifier, and the
/// wrappers below say what its operations do.
#[verifier::external_body]
pub struct RingStore {
    inner: hashring::HashRing<(u64, u64, bool), hashring::DefaultHashBuilder>,
}

/// What the held collection holds: the multiset of its items.
pub uninterp spec fn hr_contents(r: RingStore) -> Multiset<(u64, u64, bool)>;

/// Relies on hashring's `HashRing::new`: a new ring holds nothing.
#[verifier::external_body]
fn hr_new() -> (r: RingStore)
    ensures
        hr_contents(r) == Multiset::<(u64, u64, bool)>::empty(),
{
    RingStore { inner: hashring::HashRing::new() }
}

/// Relies on hashring's `HashRing::batch_add`: every given item joins the
/// ring's contents, duplicates included.
#[verifier::external_body]
fn hr_batch_add(r: &mut RingStore, items: Vec<(u64, u64, bool)>)
    ensures
        hr_contents(*final(r)) == hr_contents(*old(r)).add(items@.to_multiset()),
{
    r.inner.batch_add(items)
}

/// Relies on hashring's `HashRing::get`: absent exactly on an empty ring,
/// otherwise one of the ring's items, chosen by the key's hash.
#[verifier::external_body]
fn hr_get(r: &RingStore, key: &str) -> (res: Option<(u64, u64, bool)>)
    ensures
        (res is None) <==> hr_contents(*r).len() == 0,
        res matches Some(t) ==> hr_contents(*r).count(t) > 0,
{
    r.inner.get(&key).copied()
}

/// A mapping slot as a plain item: id, owning node and migration flag.
pub open spec fn slot_item(s: Slot) -> (u64, u64, bool) {
    (s.id, s.backend_node_id, s.is_migrating)
}

/// The items of a slot sequence, in order.
pub open spec fn spec_items(s: Seq<Slot>) -> Seq<(u64, u64, bool)> {
    s.map_values(|x: Slot| slot_item(x))
}

/// A key-to-slot ring over the mapping slots, backed by the hashring
/// crate's consistent hashing, with a version stamp.
pub struct HashRing {
    /// The version of the ring.
    pub version: u64,
    /// The consistent-hashing collection holding the slots as plain items.
    pub inner: RingStore,
}

impl HashRing {
    /// The items the ring holds.
    pub closed spec fn contents(self) -> Multiset<(u64, u64, bool)> {
        hr_contents(self.inner)
    }

    /// Create a ring holding the given slots, at version zero.
    pub fn new(slots: Vec<Slot>) -> (r: HashRing)
        ensures
            r.version == 0,
            r.contents() == spec_items(slots@).to_multiset(),
    {
        let ghost s = slots@;
        let mut items: Vec<(u64, u64, bool)> = Vec::new();
        let mut i: usize = 0;
        while i < slots.len()
            invariant
                i <= s.len(),
                slots@ == s,
                items@ =~= spec_items(s.take(i as int)),
            decreases s.len() - i,
        {
            let slot = slots[i];
            items.push((slot.id, slot.backend_node_id, slot.is_migrating));
            proof {
                assert(s.take(i + 1) =~= s.take(i as int).push(s[i as int]));
                assert(items@ =~= spec_items(s.take(i + 1)));
            }
            i = i + 1;
        }
        proof {
            assert(s.take(s.len() as int) =~= s);
        }

        let mut inner = hr_new();
        hr_batch_add(&mut inner, items);
        proof {
            assert(Multiset::<(u64, u64, bool)>::empty().add(spec_items(s).to_multiset()) =~= spec_items(
                s,
            ).to_multiset());
        }
        HashRing { version: 0, inner }
    }

    /// Get the version of the ring.
    pub fn version(&self) -> (v: u64)
        ensures
            v == self.version,
    {
        self.version
    }

    /// Get the slot a key is routed to: absent exactly when the ring holds
    /// nothing, otherwise one of the held slots.
    pub fn get_slot(&self, key: &str) -> (res: Option<Slot>)
        ensures
            (res is None) <==> self.contents().len() == 0,
            res matches Some(s) ==> self.contents().count(slot_item(s)) > 0,
    {
        match hr_get(&self.inner, key) {
            Some(item) => Some(
                Slot { id: item.0, backend_node_id: item.1, is_migrating: item.2 },
            ),
            None => None,
        }
    }
}

} // verus!
