use vstd::prelude::*;

verus! {

/// A physical backend node: identity, address and routing weight.
#[derive(Debug)]
pub struct Node {
    /// The id of the node.
    id: u64,
    /// The ip of the node.
    ip: String,
    /// The port of the node.
    port: u16,
    /// The weight of the node.
    weight: u32,
}

/// The fields of a node as plain values: id, address characters, port and
/// weight.
pub open spec fn node_view(n: Node) -> (u64, Seq<char>, u16, u32) {
    (n.spec_id(), n.spec_ip(), n.spec_port(), n.spec_weight())
}

impl Node {
    /// The id of the node.
    pub closed spec fn spec_id(self) -> u64 {
        self.id
    }

    /// The address characters of the node.
    pub closed spec fn spec_ip(self) -> Seq<char> {
        self.ip@
    }

    /// The port of the node.
    pub closed spec fn spec_port(self) -> u16 {
        self.port
    }

    /// The weight of the node.
    pub closed spec fn spec_weight(self) -> u32 {
        self.weight
    }

    /// Create a new node.
    pub fn new(id: u64, ip: String, port: u16, weight: u32) -> (n: Node)
        ensures
            node_view(n) == (id, ip@, port, weight),
    {
        Node { id, ip, port, weight }
    }

    /// Get the id of the node.
    pub fn id(&self) -> (r: u64)
        ensures
            r == self.spec_id(),
    {
        self.id
    }

    /// Get the ip of the node.
    pub fn ip(&self) -> (r: &str)
        ensures
            r@ == self.spec_ip(),
    {
        self.ip.as_str()
    }

    /// Get the port of the node.
    pub fn port(&self) -> (r: u16)
        ensures
            r == self.spec_port(),
    {
        self.port
    }

    /// Get the weight of the node.
    pub fn weight(&self) -> (r: u32)
        ensures
            r == self.spec_weight(),
    {
        self.weight
    }

    /// A field-for-field copy of the node.
    fn duplicate(&self) -> (n: Node)
        ensures
            node_view(n) == node_view(*self),
    {
        Node { id: self.id, ip: self.ip.clone(), port: self.port, weight: self.weight }
    }
}

/// The registry of known backend nodes, in registration order.
#[derive(Debug)]
pub struct NodeList {
    /// The nodes.
    inner: Vec<Node>,
}

/// First index of the node with a given id, if any.
pub open spec fn find_node(s: Seq<Node>, id: u64) -> Option<int>
    decreases s.len(),
{
    if s.len() == 0 {
        None
    } else if s[0].spec_id() == id {
        Some(0int)
    } else {
        match find_node(s.drop_first(), id) {
            Some(i) => Some(i + 1),
            None => None,
        }
    }
}

/// What `find_node` returns: the first index with the id, or nothing when
/// no node has it.
pub proof fn lemma_find_node_char(s: Seq<Node>, id: u64)
    ensures
        match find_node(s, id) {
            None => forall|j: int| 0 <= j < s.len() ==> (#[trigger] s[j]).spec_id() != id,
            Some(i) => 0 <= i < s.len() && s[i].spec_id() == id && (forall|j: int|
                0 <= j < i ==> (#[trigger] s[j]).spec_id() != id),
        },
    decreases s.len(),
{
    if s.len() > 0 && s[0].spec_id() != id {
        let sub = s.drop_first();
        lemma_find_node_char(sub, id);
        assert forall|j: int| 1 <= j < s.len() implies #[trigger] s[j] == sub[j - 1] by {}
        match find_node(sub, id) {
            None => {},
            Some(i) => {
                assert(sub[i] == s[i + 1]);
            },
        }
    }
}

/// The nodes whose id differs from `id`, in order.
pub open spec fn spec_without(s: Seq<Node>, id: u64) -> Seq<Node> {
    s.filter(|n: Node| n.spec_id() != id)
}

impl NodeList {
    /// The registered nodes.
    pub closed spec fn view(self) -> Seq<Node> {
        self.inner@
    }

    /// Create a new, empty node list.
    pub fn new() -> (l: NodeList)
        ensures
            l@.len() == 0,
    {
        NodeList { inner: Vec::new() }
    }

    /// Register a node at the end of the list.
    pub fn add(&mut self, node: Node)
        ensures
            final(self)@ == old(self)@.push(node),
    {
        self.inner.push(node);
    }

    /// The registered nodes, as a fresh vector of copies.
    pub fn list(&self) -> (out: Vec<Node>)
        ensures
            out@.len() == self@.len(),
            forall|i: int|
                0 <= i < self@.len() ==> node_view(#[trigger] out@[i]) == node_view(self@[i]),
    {
        let mut out: Vec<Node> = Vec::new();
        let mut i: usize = 0;
        while i < self.inner.len()
            invariant
                i <= self@.len(),
                self@ == self.inner@,
                out@.len() == i,
                forall|j: int|
                    0 <= j < i ==> node_view(#[trigger] out@[j]) == node_view(self@[j]),
            decreases self@.len() - i,
        {
            let copy = self.inner[i].duplicate();
            out.push(copy);
            i = i + 1;
        }
        out
    }

    /// Deregister every node with the given id, keeping the others in
    /// order.
    pub fn remove(&mut self, id: u64)
        ensures
            final(self)@.len() == spec_without(old(self)@, id).len(),
            forall|i: int|
                0 <= i < final(self)@.len() ==> node_view(#[trigger] final(self)@[i]) == node_view(
                    spec_without(old(self)@, id)[i],
                ),
    {
        let ghost s0 = self.inner@;
        let mut kept: Vec<Node> = Vec::new();
        let mut i: usize = 0;
        proof {
            reveal(Seq::<Node>::filter);
            assert(s0.take(0) =~= Seq::<Node>::empty());
            assert(spec_without(s0.take(0), id).len() == 0);
        }
        while i < self.inner.len()
            invariant
                i <= s0.len(),
                self.inner@ == s0,
                kept@.len() == spec_without(s0.take(i as int), id).len(),
                forall|j: int|
                    0 <= j < kept@.len() ==> node_view(#[trigger] kept@[j]) == node_view(
                        spec_without(s0.take(i as int), id)[j],
                    ),
            decreases s0.len() - i,
        {
            proof {
                reveal(Seq::<Node>::filter);
                assert(s0.take(i + 1).drop_last() =~= s0.take(i as int));
                assert(s0.take(i + 1).last() == s0[i as int]);
            }
            let keep = self.inner[i].id() != id;
            if keep {
                let copy = self.inner[i].duplicate();
                kept.push(copy);
            }
            i = i + 1;
        }
        proof {
            assert(s0.take(s0.len() as int) =~= s0);
        }
        self.inner = kept;
    }

    /// Get a copy of the first node with the given id, absent when no node
    /// has it.
    pub fn get(&self, id: u64) -> (res: Option<Node>)
        ensures
            match find_node(self@, id) {
                None => res is None,
                Some(i) => res matches Some(n) && node_view(n) == node_view(self@[i]),
            },
    {
        proof {
            lemma_find_node_char(self@, id);
        }
        let mut i: usize = 0;
        let n = self.inner.len();
        while i < n
            invariant
                i <= n,
                n == self@.len(),
                self.inner@ == self@,
                forall|j: int| 0 <= j < i ==> (#[trigger] self@[j]).spec_id() != id,
                match find_node(self@, id) {
                    None => forall|j: int| 0 <= j < self@.len() ==> (#[trigger] self@[j]).spec_id()
                        != id,
                    Some(k) => 0 <= k < self@.len() && self@[k].spec_id() == id && (forall|j: int|
                        0 <= j < k ==> (#[trigger] self@[j]).spec_id() != id),
                },
            decreases n - i,
        {
            if self.inner[i].id() == id {
                proof {
                    assert(find_node(self@, id) == Some(i as int));
                }
                return Some(self.inner[i].duplicate());
            }
            i = i + 1;
        }
        None
    }
}

} // verus!
