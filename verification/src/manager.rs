use vstd::prelude::*;

use crate::client::{MetaClient, MetaError};
use crate::config::Config;
use crate::node::NodeList;
use crate::ring::{spec_items, HashRing};
use crate::slot::{SlotMapping, SLOT_SIZE};

verus! {

/// The ids of `a` that `b` does not hold, in order: the reconciliation
/// diff between two topology views.
pub open spec fn seq_diff(a: Seq<u64>, b: Seq<u64>) -> Seq<u64> {
    a.filter(|x: u64| !b.contains(x))
}

/// Whether a vector holds a value.
fn vec_contains(v: &Vec<u64>, x: u64) -> (b: bool)
    ensures
        b == v@.contains(x),
{
    let mut i: usize = 0;
    let n = v.len();
    while i < n
        invariant
            i <= n,
            n == v@.len(),
            forall|j: int| 0 <= j < i ==> v@[j] != x,
        decreases n - i,
    {
        if v[i] == x {
            return true;
        }
        i = i + 1;
    }
    false
}

/// The ids of `a` not held by `b`, in order.
fn ids_missing_from(a: &Vec<u64>, b: &Vec<u64>) -> (out: Vec<u64>)
    ensures
        out@ == seq_diff(a@, b@),
{
    let mut out: Vec<u64> = Vec::new();
    let mut i: usize = 0;
    let n = a.len();
    proof {
        reveal(Seq::<u64>::filter);
        assert(a@.take(0) =~= Seq::<u64>::empty());
        assert(seq_diff(a@.take(0), b@).len() == 0);
    }
    while i < n
        invariant
            i <= n,
            n == a@.len(),
            out@ == seq_diff(a@.take(i as int), b@),
        decreases n - i,
    {
        proof {
            reveal(Seq::<u64>::filter);
            assert(a@.take(i + 1).drop_last() =~= a@.take(i as int));
            assert(a@.take(i + 1).last() == a@[i as int]);
        }
        let id = a[i];
        if !vec_contains(b, id) {
            out.push(id);
        }
        i = i + 1;
    }
    proof {
        assert(a@.take(a@.len() as int) =~= a@);
    }
    out
}

/// The decision of one reconciliation tick over node ids: which remote
/// nodes are new and must be added, and which local nodes are gone and
/// must be removed.
pub fn diff_topology(local: &Vec<u64>, remote: &Vec<u64>) -> (res: (Vec<u64>, Vec<u64>))
    ensures
        res.0@ == seq_diff(remote@, local@),
        res.1@ == seq_diff(local@, remote@),
{
    let to_add = ids_missing_from(remote, local);
    let to_remove = ids_missing_from(local, remote);
    (to_add, to_remove)
}

/// The in-memory topology of the proxy: the key-to-slot ring, the slot
/// mapping snapshot and the node registry.
pub struct ProxyTopology {
    /// The key-to-slot ring.
    pub hash_ring: HashRing,
    /// The slot-to-node mapping snapshot.
    pub slot_mapping: SlotMapping,
    /// The registry of backend nodes.
    pub node_list: NodeList,
    /// The configured number of slots.
    pub slot_size: usize,
    /// The reconciliation period in seconds.
    pub time_period: usize,
}

impl ProxyTopology {
    /// Create a topology with the default slot mapping, a ring over its
    /// slots, and no registered nodes.
    pub fn new(config: &Config) -> (t: ProxyTopology)
        ensures
            t.slot_mapping@.len() == SLOT_SIZE,
            t.slot_mapping.wf(),
            t.hash_ring.version == 0,
            t.hash_ring.contents() == spec_items(t.slot_mapping@).to_multiset(),
            t.node_list@.len() == 0,
            t.slot_size == config.slot_size,
            t.time_period == config.time_period,
    {
        let slot_mapping = SlotMapping::default();
        let hash_ring = HashRing::new(slot_mapping.inner());
        let node_list = NodeList::new();
        let slot_size = config.slot_size();
        let time_period = config.time_period();
        ProxyTopology { hash_ring, slot_mapping, node_list, slot_size, time_period }
    }

    /// Get the key-to-slot ring.
    pub fn hash_ring(&self) -> (r: &HashRing)
        ensures
            r == &self.hash_ring,
    {
        &self.hash_ring
    }

    /// Get the slot mapping snapshot.
    pub fn slot_mapping(&self) -> (r: &SlotMapping)
        ensures
            r == &self.slot_mapping,
    {
        &self.slot_mapping
    }

    /// Get the node registry.
    pub fn nodes(&self) -> (r: &NodeList)
        ensures
            r == &self.node_list,
    {
        &self.node_list
    }

    /// Get the configured slot size.
    pub fn slot_size(&self) -> (r: usize)
        ensures
            r == self.slot_size,
    {
        self.slot_size
    }

    /// Publish a new slot mapping snapshot and rebuild the ring over it.
    pub fn update_slot_mapping(&mut self, slot_mapping: SlotMapping)
        ensures
            final(self).slot_mapping == slot_mapping,
            final(self).hash_ring.version == 0,
            final(self).hash_ring.contents() == spec_items(slot_mapping@).to_multiset(),
            final(self).node_list == old(self).node_list,
            final(self).slot_size == old(self).slot_size,
            final(self).time_period == old(self).time_period,
    {
        self.slot_mapping = slot_mapping;
        self.hash_ring = HashRing::new(self.slot_mapping.inner());
    }

    /// Replace the node registry.
    pub fn update_node_list(&mut self, node_list: NodeList)
        ensures
            final(self).node_list == node_list,
            final(self).slot_mapping == old(self).slot_mapping,
            final(self).hash_ring == old(self).hash_ring,
            final(self).slot_size == old(self).slot_size,
            final(self).time_period == old(self).time_period,
    {
        self.node_list = node_list;
    }

    /// Install a freshly loaded slot mapping and node list.
    pub fn init(&mut self, slot_mapping: SlotMapping, node_list: NodeList) -> (res: Result<
        (),
        MetaError,
    >)
        ensures
            res is Ok,
            final(self).slot_mapping == slot_mapping,
            final(self).hash_ring.contents() == spec_items(slot_mapping@).to_multiset(),
            final(self).node_list == node_list,
            final(self).slot_size == old(self).slot_size,
            final(self).time_period == old(self).time_period,
    {
        self.update_slot_mapping(slot_mapping);
        self.update_node_list(node_list);
        Ok(())
    }
}

/// The topology manager: owns the in-memory topology, the configuration
/// and the metadata client; the embedding application drives its
/// reconciliation loop.
pub struct CacheProxyManager<C> where C: MetaClient {
    /// The in-memory topology.
    pub inner: ProxyTopology,
    /// The configuration.
    pub config: Config,
    /// The metadata client.
    pub client: C,
}

impl<C> CacheProxyManager<C> where C: MetaClient {
    /// Create a manager over a fresh topology.
    pub fn new(config: Config, client: C) -> (m: CacheProxyManager<C>)
        ensures
            m.inner.slot_mapping@.len() == SLOT_SIZE,
            m.inner.node_list@.len() == 0,
            m.inner.slot_size == config.slot_size,
            m.inner.time_period == config.time_period,
            m.config == config,
    {
        let inner = ProxyTopology::new(&config);
        CacheProxyManager { inner, config, client }
    }

    /// Get the topology.
    pub fn inner(&self) -> (r: &ProxyTopology)
        ensures
            r == &self.inner,
    {
        &self.inner
    }

    /// Get the config.
    pub fn config(&self) -> (r: &Config)
        ensures
            r == &self.config,
    {
        &self.config
    }

    /// Get the metadata client.
    pub fn client(&self) -> (r: &C)
        ensures
            r == &self.client,
    {
        &self.client
    }

    /// Look over the slots that are free to take new assignments.
    pub fn allocate_free_slot(&self) -> (res: Result<(), MetaError>)
        ensures
            res is Ok,
    {
        let slot_mapping = self.inner.slot_mapping();
        let _available_slot = slot_mapping.available_slot();
        Ok(())
    }

    /// Inspect the current assignment ahead of a rebalancing pass.
    pub fn rebalancing(&self) -> (res: Result<(), MetaError>)
        ensures
            res is Ok,
    {
        let slot_mapping = self.inner.slot_mapping();
        let _available_slot = slot_mapping.available_slot();
        let node_list = self.inner.nodes();
        let _node_list = node_list.list();
        Ok(())
    }
}

} // verus!
