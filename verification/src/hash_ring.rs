use std::hash::Hasher;

use vstd::prelude::*;

verus! {

/// The default slot size of a ring.
pub const DEFAULT_SLOT_SIZE: u64 = 1024;

/// A slot of the hash ring: an inclusive range `[start, end]` of the key
/// space, owned by the node identified by `inner`.
#[derive(Clone, Copy, Debug)]
pub struct Slot {
    /// The start offset of the slot.
    pub start: u64,
    /// The end offset of the slot.
    pub end: u64,
    /// The identifier of the owning node.
    pub inner: u64,
}

impl Slot {
    /// A slot is a non-empty range.
    pub open spec fn wf(self) -> bool {
        self.start <= self.end
    }

    /// Number of keys the slot covers.
    pub open spec fn size(self) -> int {
        self.end - self.start + 1
    }

    /// Whether the slot's range contains the ring position `idx`.
    pub open spec fn contains(self, idx: u64) -> bool {
        self.start <= idx <= self.end
    }

    /// Create a new slot.
    pub fn new(start: u64, end: u64, inner: u64) -> (s: Slot)
        requires
            start <= end,
        ensures
            s == (Slot { start, end, inner }),
    {
        Slot { start, end, inner }
    }

    /// Get the start offset of the slot.
    pub fn start(&self) -> (r: u64)
        ensures
            r == self.start,
    {
        self.start
    }

    /// Get the end offset of the slot.
    pub fn end(&self) -> (r: u64)
        ensures
            r == self.end,
    {
        self.end
    }

    /// Get the identifier of the owning node.
    pub fn inner(&self) -> (r: u64)
        ensures
            r == self.inner,
    {
        self.inner
    }
}

/// Marker for types that can identify a ring node.
pub trait NodeType {

}

impl NodeType for u64 {

}

/// The hash builder of the default ring; keys are hashed with a fixed-key
/// SipHash so that placement is stable across processes.
#[derive(Clone, Copy, Debug)]
pub struct DefaultHashBuilder;

/// The version counter after one more mutation: an increment that wraps at
/// the top of the 64-bit range.
pub open spec fn bump(v: u64) -> u64 {
    if v == u64::MAX {
        0
    } else {
        (v + 1) as u64
    }
}

/// A sequence of slots partitions `[1, capacity]`: slots are non-empty,
/// sorted, contiguous, cover the whole range, and there are at most
/// `capacity` of them.
pub open spec fn wf_slots(s: Seq<Slot>, capacity: u64) -> bool {
    &&& s.len() <= capacity
    &&& (forall|i: int| 0 <= i < s.len() ==> (#[trigger] s[i]).wf())
    &&& (s.len() > 0 ==> s[0].start == 1 && s[s.len() - 1].end == capacity)
    &&& (forall|i: int| 0 <= i < s.len() - 1 ==> (#[trigger] s[i]).end + 1 == s[i + 1].start)
}

/// The slot layout produced by a rebalance: `[1, capacity]` partitioned into
/// `s.len()` ranges of `capacity / s.len()` keys each, the remainder going to
/// the final slot, with the slot-to-node assignment and order preserved.
pub open spec fn spec_rebalanced(s: Seq<Slot>, capacity: u64) -> Seq<Slot> {
    let n = s.len() as int;
    let sz = capacity as int / n;
    Seq::new(
        s.len(),
        |i: int|
            Slot {
                start: (1 + i * sz) as u64,
                end: if i == n - 1 {
                    capacity
                } else {
                    ((i + 1) * sz) as u64
                },
                inner: s[i].inner,
            },
    )
}

/// A rebalanced layout of a non-empty slot sequence is well formed.
pub proof fn lemma_rebalanced_wf(s: Seq<Slot>, capacity: u64)
    requires
        1 <= s.len() <= capacity,
    ensures
        wf_slots(spec_rebalanced(s, capacity), capacity),
        spec_rebalanced(s, capacity).len() == s.len(),
        forall|i: int|
            0 <= i < s.len() ==> (#[trigger] spec_rebalanced(s, capacity)[i]).inner == s[i].inner,
{
    let n = s.len() as int;
    let cap = capacity as int;
    let sz = cap / n;
    let r = spec_rebalanced(s, capacity);
    assert(n * sz <= cap && sz >= 1) by (nonlinear_arith)
        requires
            1 <= n <= cap,
            sz == cap / n,
    ;
    assert forall|i: int| 0 <= i < n implies (#[trigger] r[i]).wf() && r[i].start == 1 + i * sz && (
    i < n - 1 ==> r[i].end == (i + 1) * sz) by {
        assert(0 <= i * sz && (i + 1) * sz == i * sz + sz && (i + 1) * sz <= n * sz)
            by (nonlinear_arith)
            requires
                0 <= i < n,
                sz >= 1,
                n * sz <= cap,
        ;
    }
    assert(r.len() > 0 ==> r[0].start == 1 && r[r.len() - 1].end == capacity);
    assert forall|i: int| 0 <= i < r.len() - 1 implies (#[trigger] r[i]).end + 1 == r[i
        + 1].start by {
        assert(r[i].end == (i + 1) * sz);
        assert(r[i + 1].start == 1 + (i + 1) * sz);
    }
}

/// Rebalancing an already rebalanced layout only renames the input: the
/// result depends on the owners alone.
pub proof fn lemma_rebalanced_again(s: Seq<Slot>, c1: u64, c2: u64)
    ensures
        spec_rebalanced(spec_rebalanced(s, c1), c2) == spec_rebalanced(s, c2),
{
    assert(spec_rebalanced(spec_rebalanced(s, c1), c2) =~= spec_rebalanced(s, c2));
}

/// The version counter after `n` more mutations.
pub open spec fn bump_n(v: u64, n: nat) -> u64
    decreases n,
{
    if n == 0 {
        v
    } else {
        bump(bump_n(v, (n - 1) as nat))
    }
}

/// A version bump moves the counter strictly forward everywhere below the
/// top of the 64-bit range: every state-changing operation, whose contract
/// gives the new version as one or more bumps of the old one, strictly
/// raises the version until the counter wraps.
pub proof fn lemma_bump_strictly_increases(v: u64)
    requires
        v < u64::MAX,
    ensures
        bump(v) > v,
{
}

/// Below the wrap, `n` bumps are plain addition.
pub proof fn lemma_bump_n_no_wrap(v: u64, n: nat)
    requires
        v + n <= u64::MAX,
    ensures
        bump_n(v, n) == v + n,
    decreases n,
{
    if n > 0 {
        lemma_bump_n_no_wrap(v, (n - 1) as nat);
    }
}

/// Version bumps compose: `a` bumps followed by `b` bumps are `a + b` bumps.
pub proof fn lemma_bump_n_add(v: u64, a: nat, b: nat)
    ensures
        bump_n(bump_n(v, a), b) == bump_n(v, a + b),
    decreases b,
{
    if b > 0 {
        lemma_bump_n_add(v, a, (b - 1) as nat);
    }
}

/// First index of the slot owned by `node`, if any.
pub open spec fn find_owner(s: Seq<Slot>, node: u64) -> Option<int>
    decreases s.len(),
{
    if s.len() == 0 {
        None
    } else if s[0].inner == node {
        Some(0int)
    } else {
        match find_owner(s.drop_first(), node) {
            Some(i) => Some(i + 1),
            None => None,
        }
    }
}

/// What `find_owner` returns: the first index owned by `node`, or nothing
/// when no slot is.
pub proof fn lemma_find_owner_char(s: Seq<Slot>, node: u64)
    ensures
        match find_owner(s, node) {
            None => forall|j: int| 0 <= j < s.len() ==> (#[trigger] s[j]).inner != node,
            Some(i) => 0 <= i < s.len() && s[i].inner == node && (forall|j: int|
                0 <= j < i ==> (#[trigger] s[j]).inner != node),
        },
    decreases s.len(),
{
    if s.len() > 0 && s[0].inner != node {
        let sub = s.drop_first();
        lemma_find_owner_char(sub, node);
        match find_owner(sub, node) {
            None => {
                assert forall|j: int| 0 <= j < s.len() implies (#[trigger] s[j]).inner != node by {
                    if j > 0 {
                        assert(sub[j - 1] == s[j]);
                    }
                }
            },
            Some(i) => {
                assert(sub[i] == s[i + 1]);
                assert forall|j: int| 0 <= j < i + 1 implies (#[trigger] s[j]).inner != node by {
                    if j > 0 {
                        assert(sub[j - 1] == s[j]);
                    }
                }
            },
        }
    }
}

/// The index that a split picks from position `i` on: the slot with the
/// largest range, the last such slot when several tie.
pub open spec fn pick_from(s: Seq<Slot>, i: int) -> int
    decreases s.len() - i,
{
    if i + 1 >= s.len() {
        i
    } else {
        let b = pick_from(s, i + 1);
        if s[b].size() >= s[i].size() {
            b
        } else {
            i
        }
    }
}

/// The index whose slot an `add` splits.
pub open spec fn split_index(s: Seq<Slot>) -> int {
    pick_from(s, 0)
}

/// What `pick_from` returns: a maximal slot, strictly larger than every
/// later one.
pub proof fn lemma_pick_from_char(s: Seq<Slot>, i: int)
    requires
        0 <= i < s.len(),
    ensures
        i <= pick_from(s, i) < s.len(),
        forall|j: int| i <= j < s.len() ==> (#[trigger] s[j]).size() <= s[pick_from(s, i)].size(),
        forall|j: int|
            pick_from(s, i) < j < s.len() ==> (#[trigger] s[j]).size() < s[pick_from(s, i)].size(),
    decreases s.len() - i,
{
    if i + 1 < s.len() {
        lemma_pick_from_char(s, i + 1);
    }
}

/// Splitting the slot at `m` for a new node: the slot keeps the lower half
/// of its range, and a new slot with the upper half, owned by `node`, is
/// inserted right after it.
pub open spec fn spec_split(s: Seq<Slot>, m: int, node: u64) -> Seq<Slot> {
    let chosen = s[m];
    let mid = ((chosen.start + chosen.end) / 2) as u64;
    Seq::new(
        s.len() + 1,
        |i: int|
            if i < m {
                s[i]
            } else if i == m {
                Slot { start: chosen.start, end: mid, inner: chosen.inner }
            } else if i == m + 1 {
                Slot { start: (mid + 1) as u64, end: chosen.end, inner: node }
            } else {
                s[i - 1]
            },
    )
}

/// A split of a slot of at least two keys keeps the layout well formed.
pub proof fn lemma_split_wf(s: Seq<Slot>, capacity: u64, m: int, node: u64)
    requires
        wf_slots(s, capacity),
        s.len() < capacity,
        0 <= m < s.len(),
        s[m].size() >= 2,
    ensures
        wf_slots(spec_split(s, m, node), capacity),
        spec_split(s, m, node).len() == s.len() + 1,
{
    let t = spec_split(s, m, node);
    let chosen = s[m];
    let mid = ((chosen.start + chosen.end) / 2) as u64;
    assert(chosen.start <= mid < chosen.end);
    assert forall|i: int| 0 <= i < t.len() implies (#[trigger] t[i]).wf() by {}
    assert forall|i: int| 0 <= i < t.len() - 1 implies (#[trigger] t[i]).end + 1 == t[i
        + 1].start by {}
    assert(t[0].start == 1 && t[t.len() - 1].end == capacity);
}

/// When every slot covers a single key, slot `i` is exactly `[i+1, i+1]`.
proof fn lemma_unit_starts(s: Seq<Slot>, capacity: u64, i: int)
    requires
        wf_slots(s, capacity),
        0 <= i < s.len(),
        forall|j: int| 0 <= j < s.len() ==> (#[trigger] s[j]).size() <= 1,
    ensures
        s[i].start == i + 1,
        s[i].end == i + 1,
    decreases i,
{
    if i > 0 {
        lemma_unit_starts(s, capacity, i - 1);
    }
}

/// In a ring with fewer slots than capacity, a maximal slot covers at least
/// two keys.
pub proof fn lemma_max_slot_size(s: Seq<Slot>, capacity: u64, m: int)
    requires
        wf_slots(s, capacity),
        1 <= s.len() < capacity,
        0 <= m < s.len(),
        forall|j: int| 0 <= j < s.len() ==> (#[trigger] s[j]).size() <= s[m].size(),
    ensures
        s[m].size() >= 2,
{
    if s[m].size() < 2 {
        let last = s.len() - 1;
        lemma_unit_starts(s, capacity, last);
        assert(s[last].end == capacity);
        assert(s.len() >= capacity);
    }
}

/// The capacity and doubling count that the expand loop of a forced `add`
/// reaches: doubling until fewer than three quarters of the capacity is
/// used, or until a further doubling would overflow.
pub open spec fn spec_grow(cap: u64, len: int) -> (bool, u64, nat)
    decreases
            (if 4 * len - 3 * (cap as int) + 1 >= 0 {
                4 * len - 3 * (cap as int) + 1
            } else {
                0
            }),
{
    if 4 * len < 3 * (cap as int) || cap == 0 {
        (true, cap, 0)
    } else if cap > u64::MAX / 2 {
        (false, cap, 0)
    } else {
        let r = spec_grow((cap * 2) as u64, len);
        (r.0, r.1, (r.2 + 1) as nat)
    }
}

/// Removing the slot at `i`: a neighbor absorbs its range.  The previous
/// slot extends forward; when the head is removed, the new head extends
/// back to the start of the range.
pub open spec fn spec_remove_at(s: Seq<Slot>, i: int) -> Seq<Slot> {
    let removed = s[i];
    Seq::new(
        (s.len() - 1) as nat,
        |j: int|
            if i > 0 {
                if j == i - 1 {
                    Slot { start: s[j].start, end: removed.end, inner: s[j].inner }
                } else if j < i {
                    s[j]
                } else {
                    s[j + 1]
                }
            } else {
                if j == 0 {
                    Slot { start: removed.start, end: s[1].end, inner: s[1].inner }
                } else {
                    s[j + 1]
                }
            },
    )
}

/// Removing a slot and merging its range keeps the layout well formed.
pub proof fn lemma_remove_at_wf(s: Seq<Slot>, capacity: u64, i: int)
    requires
        wf_slots(s, capacity),
        0 <= i < s.len(),
    ensures
        wf_slots(spec_remove_at(s, i), capacity),
        spec_remove_at(s, i).len() == s.len() - 1,
{
    let t = spec_remove_at(s, i);
    assert forall|j: int| 0 <= j < t.len() implies (#[trigger] t[j]).wf() by {}
    assert forall|j: int| 0 <= j < t.len() - 1 implies (#[trigger] t[j]).end + 1 == t[j
        + 1].start by {}
    if t.len() > 0 {
        assert(t[0].start == 1 && t[t.len() - 1].end == capacity);
    }
}

/// The slots and the placed nodes after adding `nodes` one by one without
/// rebalancing: each node lands in the upper half of a largest slot, and a
/// node is skipped once the ring is at capacity.
pub open spec fn spec_batch_add(s: Seq<Slot>, cap: u64, nodes: Seq<u64>) -> (Seq<Slot>, Seq<u64>)
    decreases nodes.len(),
{
    if nodes.len() == 0 {
        (s, Seq::<u64>::empty())
    } else if s.len() >= cap {
        spec_batch_add(s, cap, nodes.drop_first())
    } else {
        let s1 = if s.len() == 0 {
            seq![Slot { start: 1, end: cap, inner: nodes[0] }]
        } else {
            spec_split(s, split_index(s), nodes[0])
        };
        let r = spec_batch_add(s1, cap, nodes.drop_first());
        (r.0, seq![nodes[0]] + r.1)
    }
}

/// The slots and the removed nodes after removing the slot of each listed
/// node in turn; nodes that own no slot are skipped.
pub open spec fn spec_batch_remove(s: Seq<Slot>, nodes: Seq<u64>) -> (Seq<Slot>, Seq<u64>)
    decreases nodes.len(),
{
    if nodes.len() == 0 {
        (s, Seq::<u64>::empty())
    } else {
        match find_owner(s, nodes[0]) {
            None => spec_batch_remove(s, nodes.drop_first()),
            Some(i) => {
                let r = spec_batch_remove(spec_remove_at(s, i), nodes.drop_first());
                (r.0, seq![nodes[0]] + r.1)
            },
        }
    }
}

/// The 64-bit SipHash of a key under the fixed zero key.
pub uninterp spec fn sip64(key: u32) -> u64;

/// Relies on siphasher's `SipHasher` (SipHash-2-4 under the zero key), fed
/// the key's four little-endian bytes: the result is a function of the key
/// alone, stable across processes and machines.
#[verifier::external_body]
fn hash_key(key: u32) -> (r: u64)
    ensures
        r == sip64(key),
{
    let mut hasher = siphasher::sip::SipHasher::new();
    hasher.write(&key.to_le_bytes());
    hasher.finish()
}

/// The ring position a key is routed to: the hash biased into
/// `[1, capacity]`.
pub open spec fn ring_position(key: u32, capacity: u64) -> u64
    recommends
        capacity >= 1,
{
    (sip64(key) % capacity + 1) as u64
}

/// Slots are ordered: a later slot begins after an earlier one ends.
pub proof fn lemma_slot_order(s: Seq<Slot>, capacity: u64, i: int, j: int)
    requires
        wf_slots(s, capacity),
        0 <= i <= j < s.len(),
    ensures
        s[i].end <= s[j].end,
        i < j ==> s[i].end < s[j].start,
    decreases j - i,
{
    if i < j {
        lemma_slot_order(s, capacity, i, j - 1);
    }
}

/// At most one slot of a well-formed layout contains any ring position:
/// `get_slot` answers with the unique owner of the hashed position.
pub proof fn lemma_containing_slot_unique(s: Seq<Slot>, capacity: u64, idx: u64, i: int, j: int)
    requires
        wf_slots(s, capacity),
        0 <= i < s.len(),
        0 <= j < s.len(),
        s[i].contains(idx),
        s[j].contains(idx),
    ensures
        i == j,
{
    if i < j {
        lemma_slot_order(s, capacity, i, j);
    }
    if j < i {
        lemma_slot_order(s, capacity, j, i);
    }
}

/// One unfolding of `spec_grow` when the loop stops at the threshold.
proof fn lemma_grow_stop(cap: u64, len: int)
    requires
        4 * len < 3 * (cap as int) || cap == 0,
    ensures
        spec_grow(cap, len) == (true, cap, 0nat),
{
}

/// One unfolding of `spec_grow` when a further doubling would overflow.
proof fn lemma_grow_fail(cap: u64, len: int)
    requires
        4 * len >= 3 * (cap as int),
        cap >= 1,
        cap > u64::MAX / 2,
    ensures
        spec_grow(cap, len) == (false, cap, 0nat),
{
}

/// One unfolding of `spec_grow` across a successful doubling.
proof fn lemma_grow_step(cap: u64, len: int)
    requires
        4 * len >= 3 * (cap as int),
        cap >= 1,
        cap <= u64::MAX / 2,
    ensures
        spec_grow(cap, len).0 == spec_grow((2 * cap) as u64, len).0,
        spec_grow(cap, len).1 == spec_grow((2 * cap) as u64, len).1,
        spec_grow(cap, len).2 == spec_grow((2 * cap) as u64, len).2 + 1,
{
}

/// After a rebalance of `n` slots every slot but the last covers
/// `capacity / n` keys and the last also takes the remainder, so the spread
/// between the largest and smallest slot is exactly `capacity % n`: at most
/// one whenever the remainder is at most one.
pub proof fn lemma_rebalanced_sizes(s: Seq<Slot>, capacity: u64)
    requires
        1 <= s.len() <= capacity,
    ensures
        forall|i: int|
            0 <= i < s.len() - 1 ==> (#[trigger] spec_rebalanced(s, capacity)[i]).size()
                == capacity as int / s.len() as int,
        spec_rebalanced(s, capacity)[s.len() - 1].size() == capacity as int / s.len() as int
            + capacity as int % s.len() as int,
        capacity as int % s.len() as int <= 1 ==> (forall|i: int, j: int|
            0 <= i < s.len() && 0 <= j < s.len() ==> (#[trigger] spec_rebalanced(s, capacity)[i]).size()
                - (#[trigger] spec_rebalanced(s, capacity)[j]).size() <= 1),
{
    let n = s.len() as int;
    let cap = capacity as int;
    let sz = cap / n;
    let r = spec_rebalanced(s, capacity);
    lemma_rebalanced_wf(s, capacity);
    assert(n * sz <= cap && sz >= 1 && cap % n == cap - n * sz && 0 <= cap % n) by (nonlinear_arith)
        requires
            1 <= n <= cap,
            sz == cap / n,
    ;
    assert forall|i: int| 0 <= i < n implies (#[trigger] r[i]).start == 1 + i * sz && (i < n - 1
        ==> r[i].end == (i + 1) * sz) by {
        assert(0 <= i * sz && (i + 1) * sz == i * sz + sz && (i + 1) * sz <= n * sz)
            by (nonlinear_arith)
            requires
                0 <= i < n,
                sz >= 1,
                n * sz <= cap,
        ;
    }
    assert forall|i: int| 0 <= i < n - 1 implies (#[trigger] r[i]).size() == sz by {
        assert((i + 1) * sz == i * sz + sz) by (nonlinear_arith);
    }
    assert((n - 1) * sz == n * sz - sz) by (nonlinear_arith);
    assert(r[n - 1].size() == cap - (n - 1) * sz);
}

/// Removing the slot inserted by a split restores the layout that was
/// split.
pub proof fn lemma_split_then_remove(s: Seq<Slot>, capacity: u64, m: int, node: u64)
    requires
        wf_slots(s, capacity),
        0 <= m < s.len(),
        s[m].size() >= 2,
    ensures
        spec_remove_at(spec_split(s, m, node), m + 1) == s,
{
    assert(spec_remove_at(spec_split(s, m, node), m + 1) =~= s);
}

/// Adding a node that owns no slot and then removing it again, followed by
/// a rebalance, restores a balanced ring exactly: the key-to-node mapping
/// is the one from before the add.
pub proof fn lemma_add_remove_rebalance_restores(s: Seq<Slot>, capacity: u64, x: u64)
    requires
        wf_slots(s, capacity),
        1 <= s.len() < capacity,
        s == spec_rebalanced(s, capacity),
        forall|i: int| 0 <= i < s.len() ==> (#[trigger] s[i]).inner != x,
    ensures
        ({
            let t = spec_split(s, split_index(s), x);
            &&& find_owner(t, x) == Some(split_index(s) + 1)
            &&& spec_remove_at(t, split_index(s) + 1) == s
            &&& spec_rebalanced(spec_remove_at(t, split_index(s) + 1), capacity) == s
        }),
{
    let m = split_index(s);
    lemma_pick_from_char(s, 0);
    lemma_max_slot_size(s, capacity, m);
    let t = spec_split(s, m, x);
    lemma_split_wf(s, capacity, m, x);
    lemma_find_owner_char(t, x);
    assert(t[m + 1].inner == x);
    match find_owner(t, x) {
        None => {
            assert(false);
        },
        Some(i) => {
            if i < m + 1 {
                assert(t[i].inner == (if i < m {
                    s[i].inner
                } else {
                    s[m].inner
                }));
                assert(false);
            }
            if i > m + 1 {
                assert(t[m + 1].inner != x);
                assert(false);
            }
        },
    }
    lemma_split_then_remove(s, capacity, m, x);
}

/// The hash ring: an ordered sequence of slots covering `[1, capacity]`,
/// and a version counter bumped by every mutation.
#[derive(Clone, Debug)]
pub struct Ring {
    /// The slots, sorted by `start`.
    pub slots: Vec<Slot>,
    /// The size of the virtual key space `[1, capacity]`.
    pub capacity: u64,
    /// The version of the ring.
    pub version: u64,
}

impl Default for Ring {
    /// A ring over the default slot size, with no slots yet.
    fn default() -> (r: Ring)
        ensures
            r.wf(),
            r.slots@.len() == 0,
            r.capacity == DEFAULT_SLOT_SIZE,
            r.version == 0,
    {
        Ring::new(DefaultHashBuilder, DEFAULT_SLOT_SIZE)
    }
}

impl Ring {
    /// The ring invariant: a positive capacity partitioned by the slots.
    pub open spec fn wf(self) -> bool {
        &&& 1 <= self.capacity
        &&& wf_slots(self.slots@, self.capacity)
    }

    /// Create a new hash ring with a given hash builder and capacity.
    pub fn new(hash_builder: DefaultHashBuilder, capacity: u64) -> (r: Ring)
        requires
            capacity >= 1,
        ensures
            r.wf(),
            r.slots@ == Seq::<Slot>::empty(),
            r.capacity == capacity,
            r.version == 0,
    {
        let _ = hash_builder;
        Ring { slots: Vec::new(), capacity, version: 0 }
    }

    /// Get the number of slots.
    pub fn len_slots(&self) -> (n: usize)
        ensures
            n == self.slots@.len(),
    {
        self.slots.len()
    }

    /// Get the capacity of the ring.
    pub fn capacity(&self) -> (c: u64)
        ensures
            c == self.capacity,
    {
        self.capacity
    }

    /// Get the version of the ring.
    pub fn version(&self) -> (v: u64)
        ensures
            v == self.version,
    {
        self.version
    }

    /// Check if the ring is empty.
    pub fn is_empty(&self) -> (b: bool)
        ensures
            b == (self.slots@.len() == 0),
    {
        self.slots.len() == 0
    }

    /// Clear the slots; the capacity and version are kept.
    pub fn slots_clear(&mut self)
        ensures
            final(self).slots@ == Seq::<Slot>::empty(),
            final(self).capacity == old(self).capacity,
            final(self).version == old(self).version,
            old(self).wf() ==> final(self).wf(),
    {
        self.slots.clear();
    }

    /// The index of the slot that a split takes: a largest one, the last on
    /// a tie.
    fn find_split_index(&self) -> (m: usize)
        requires
            self.slots@.len() >= 1,
            forall|j: int| 0 <= j < self.slots@.len() ==> (#[trigger] self.slots@[j]).wf(),
        ensures
            m < self.slots@.len(),
            m as int == split_index(self.slots@),
    {
        let ghost s = self.slots@;
        let n = self.slots.len();
        let mut i: usize = n - 1;
        let mut best: usize = n - 1;
        while i > 0
            invariant
                0 <= i < n,
                n == s.len(),
                self.slots@ == s,
                forall|j: int| 0 <= j < s.len() ==> (#[trigger] s[j]).wf(),
                best as int == pick_from(s, i as int),
                best < n,
            decreases i,
        {
            i = i - 1;
            let ci = self.slots[i];
            let cb = self.slots[best];
            if ci.end - ci.start > cb.end - cb.start {
                best = i;
            }
        }
        proof {
            assert(best as int == pick_from(s, 0));
        }
        best
    }

    /// Get the slot owning a key: the unique slot whose range contains the
    /// key's ring position.  Absent only on an empty ring.
    pub fn get_slot(&self, key: u32) -> (res: Option<Slot>)
        requires
            self.wf(),
        ensures
            (res is None) <==> self.slots@.len() == 0,
            res matches Some(sl) ==> exists|i: int|
                0 <= i < self.slots@.len() && #[trigger] self.slots@[i] == sl && sl.contains(
                    ring_position(key, self.capacity),
                ),
    {
        if self.slots.len() == 0 {
            return None;
        }

        let h = hash_key(key);
        let idx = h % self.capacity + 1;
        let i = self.find_containing(idx);
        proof {
            assert(self.slots@[i as int].contains(ring_position(key, self.capacity)));
        }
        Some(self.slots[i])
    }

    /// Get the node owning a key.  Absent only on an empty ring.
    pub fn get_node(&self, key: u32) -> (res: Option<u64>)
        requires
            self.wf(),
        ensures
            (res is None) <==> self.slots@.len() == 0,
            res matches Some(nid) ==> exists|i: int|
                0 <= i < self.slots@.len() && (#[trigger] self.slots@[i]).inner == nid
                    && self.slots@[i].contains(ring_position(key, self.capacity)),
    {
        match self.get_slot(key) {
            Some(slot) => Some(slot.inner),
            None => None,
        }
    }

    /// Get up to `n` distinct replica slots for a key, walking the ring from
    /// the key's own slot.  When `n` exceeds the slot count, all slots are
    /// returned in ring order.  Absent only on an empty ring.
    #[verifier::rlimit(50)]
    pub fn get_replicas(&self, key: u32, n: usize) -> (res: Option<Vec<Slot>>)
        requires
            self.wf(),
        ensures
            (res is None) <==> self.slots@.len() == 0,
            res matches Some(v) ==> v@.len() == (if n <= self.slots@.len() {
                n as int
            } else {
                self.slots@.len() as int
            }),
            res matches Some(v) ==> (forall|k1: int, k2: int|
                0 <= k1 < k2 < v@.len() ==> v@[k1] != v@[k2]),
            res matches Some(v) ==> (n > self.slots@.len() ==> v@ == self.slots@),
            res matches Some(v) ==> (n <= self.slots@.len() ==> (exists|p: int|
                0 <= p < self.slots@.len() && (#[trigger] self.slots@[p]).contains(
                    ring_position(key, self.capacity),
                ) && (forall|k: int|
                    0 <= k < n ==> v@[k] == self.slots@[(p + k) % (self.slots@.len() as int)]))),
    {
        let ghost s = self.slots@;
        let ghost cap = self.capacity;
        if self.slots.len() == 0 {
            return None;
        }

        let len = self.slots.len();
        if n > len {
            let mut out: Vec<Slot> = Vec::new();
            let mut i: usize = 0;
            while i < len
                invariant
                    self.slots@ == s,
                    len == s.len(),
                    i <= len,
                    out@ =~= s.take(i as int),
                decreases len - i,
            {
                out.push(self.slots[i]);
                i = i + 1;
            }
            proof {
                assert(out@ =~= s);
                assert forall|k1: int, k2: int| 0 <= k1 < k2 < out@.len() implies out@[k1]
                    != out@[k2] by {
                    lemma_slot_order(s, cap, k1, k2);
                }
            }
            return Some(out);
        }

        let h = hash_key(key);
        let idx = h % self.capacity + 1;
        let p = self.find_containing(idx);

        let mut out: Vec<Slot> = Vec::new();
        let mut k: usize = 0;
        while k < n
            invariant
                self.slots@ == s,
                self.capacity == cap,
                len == s.len(),
                0 < len,
                p < len,
                n <= len,
                k <= n,
                out@.len() == k,
                forall|j: int| 0 <= j < k ==> out@[j] == s[(p + j) % (len as int)],
            decreases n - k,
        {
            let pos = if k < len - p {
                p + k
            } else {
                k - (len - p)
            };
            proof {
                assert(pos < len);
                assert(pos as int == (p + k) % (len as int)) by (nonlinear_arith)
                    requires
                        0 <= p < len,
                        0 <= k < len,
                        pos as int == if k < len - p {
                            p + k
                        } else {
                            k as int - ((len - p) as int)
                        },
                ;
            }
            out.push(self.slots[pos]);
            k = k + 1;
        }
        proof {
            assert forall|k1: int, k2: int| 0 <= k1 < k2 < out@.len() implies out@[k1]
                != out@[k2] by {
                let i1 = (p + k1) % (len as int);
                let i2 = (p + k2) % (len as int);
                assert(0 <= i1 < len && 0 <= i2 < len && i1 != i2) by (nonlinear_arith)
                    requires
                        0 <= p < len,
                        0 <= k1 < k2 < len,
                        i1 == (p + k1) % (len as int),
                        i2 == (p + k2) % (len as int),
                ;
                if i1 < i2 {
                    lemma_slot_order(s, cap, i1, i2);
                } else {
                    lemma_slot_order(s, cap, i2, i1);
                }
            }
        }
        Some(out)
    }

    /// The index of the unique slot containing position `idx`, found by a
    /// binary search over the slot starts.
    fn find_containing(&self, idx: u64) -> (i: usize)
        requires
            self.wf(),
            self.slots@.len() > 0,
            1 <= idx <= self.capacity,
        ensures
            i < self.slots@.len(),
            self.slots@[i as int].contains(idx),
    {
        let n = self.slots.len();
        let mut lo: usize = 0;
        let mut hi: usize = n - 1;
        while lo < hi
            invariant
                self.wf(),
                n == self.slots@.len(),
                0 < n,
                lo <= hi < n,
                self.slots@[lo as int].start <= idx,
                hi < n - 1 ==> idx < self.slots@[hi as int + 1].start,
                1 <= idx <= self.capacity,
            decreases hi - lo,
        {
            let mid = lo + (hi - lo + 1) / 2;
            if self.slots[mid].start <= idx {
                lo = mid;
            } else {
                hi = mid - 1;
            }
        }
        proof {
            if lo < n - 1 {
                assert(self.slots@[lo as int].end + 1 == self.slots@[lo as int + 1].start);
            }
        }
        lo
    }

    /// Add a batch of nodes one by one without intermediate rebalancing,
    /// reporting the subset that found a place.  With `must` a ring too
    /// small for the whole batch is expanded once up front, and the ring is
    /// rebalanced at the end.
    #[verifier::rlimit(100)]
    pub fn batch_add(&mut self, nodes: Vec<u64>, must: bool) -> (res: Option<Vec<u64>>)
        requires
            old(self).wf(),
        ensures
            final(self).wf(),
            !must && old(self).slots@.len() + nodes@.len() > old(self).capacity ==> res is None
                && *final(self) == *old(self),
            must && old(self).slots@.len() + nodes@.len() > old(self).capacity
                && old(self).slots@.len() == 0 ==> res is None && *final(self) == *old(self),
            must && old(self).slots@.len() + nodes@.len() > old(self).capacity
                && old(self).slots@.len() > 0 && old(self).capacity > u64::MAX / 2 ==> res is None
                && final(self).slots@ == old(self).slots@
                && final(self).capacity == old(self).capacity
                && final(self).version == bump(old(self).version),
            old(self).slots@.len() + nodes@.len() <= old(self).capacity
                || (must && old(self).slots@.len() > 0 && old(self).capacity <= u64::MAX / 2) ==> ({
                let grown = must && old(self).slots@.len() + nodes@.len() > old(self).capacity;
                let c1 = if grown {
                    (2 * old(self).capacity) as u64
                } else {
                    old(self).capacity
                };
                let s1 = if grown {
                    spec_rebalanced(old(self).slots@, c1)
                } else {
                    old(self).slots@
                };
                let b1: nat = if grown {
                    2
                } else {
                    0
                };
                let r = spec_batch_add(s1, c1, nodes@);
                &&& (res matches Some(v) && v@ == r.1)
                &&& final(self).capacity == c1
                &&& (must && r.0.len() > 0 ==> final(self).slots@ == spec_rebalanced(r.0, c1)
                    && final(self).version == bump_n(
                    old(self).version,
                    (b1 + r.1.len() + 1) as nat,
                ))
                &&& (!(must && r.0.len() > 0) ==> final(self).slots@ == r.0 && final(self).version
                    == bump_n(old(self).version, (b1 + r.1.len()) as nat))
            }),
    {
        let ghost s0 = old(self).slots@;
        let ghost c0 = old(self).capacity;
        let ghost v0 = old(self).version;
        proof {
            assert(bump_n(v0, 0) == v0);
            assert(bump_n(v0, 1) == bump(v0));
            assert(bump_n(v0, 2) == bump(bump_n(v0, 1)));
        }

        if must && (self.slots.len() as u128 + nodes.len() as u128 > self.capacity as u128) {
            if !self.expand() {
                return None;
            }
            if !self.rebalance() {
                return None;
            }
            proof {
                lemma_rebalanced_again(s0, self.capacity, self.capacity);
            }
        } else if self.slots.len() as u128 + nodes.len() as u128 > self.capacity as u128 {
            return None;
        }

        let ghost c1 = self.capacity;
        let ghost s1 = self.slots@;
        let ghost vstart = self.version;
        let ghost b1: nat = if must && s0.len() + nodes@.len() > c0 {
            2
        } else {
            0
        };
        proof {
            assert(vstart == bump_n(v0, b1));
        }
        let ghost full = spec_batch_add(s1, c1, nodes@);

        let mut success_nodes: Vec<u64> = Vec::new();
        proof {
            assert(nodes@.skip(0) =~= nodes@);
            assert(success_nodes@ + full.1 =~= full.1);
            assert(bump_n(vstart, 0) == vstart);
        }
        let mut idx: usize = 0;
        while idx < nodes.len()
            invariant
                self.wf(),
                self.capacity == c1,
                idx <= nodes@.len(),
                full == spec_batch_add(s1, c1, nodes@),
                full.0 == spec_batch_add(self.slots@, c1, nodes@.skip(idx as int)).0,
                full.1 == success_nodes@ + spec_batch_add(
                    self.slots@,
                    c1,
                    nodes@.skip(idx as int),
                ).1,
                self.version == bump_n(vstart, success_nodes@.len() as nat),
            decreases nodes@.len() - idx,
        {
            let ghost cur = self.slots@;
            let ghost rest = nodes@.skip(idx as int);
            proof {
                assert(rest[0] == nodes@[idx as int]);
                assert(rest.drop_first() =~= nodes@.skip(idx as int + 1));
            }
            let node = nodes[idx];
            let added = self.add(node, false);
            proof {
                if cur.len() >= c1 {
                    assert(spec_batch_add(cur, c1, rest) == spec_batch_add(
                        cur,
                        c1,
                        rest.drop_first(),
                    ));
                } else if cur.len() == 0 {
                    assert(self.slots@ == seq![Slot { start: 1, end: c1, inner: node }]);
                } else {
                }
                assert(bump_n(vstart, (success_nodes@.len() + 1) as nat) == bump(
                    bump_n(vstart, success_nodes@.len() as nat),
                ));
            }
            match added {
                Some(n) => {
                    success_nodes.push(n);
                },
                None => {},
            }
            proof {
                assert(full.1 == success_nodes@ + spec_batch_add(
                    self.slots@,
                    c1,
                    nodes@.skip(idx as int + 1),
                ).1);
            }
            idx = idx + 1;
        }
        proof {
            assert(nodes@.skip(nodes@.len() as int) =~= Seq::<u64>::empty());
            assert(full.0 == self.slots@);
            assert(full.1 =~= success_nodes@);
            lemma_bump_n_add(v0, b1, success_nodes@.len() as nat);
            assert(bump_n(vstart, (success_nodes@.len() + 1) as nat) == bump(
                bump_n(vstart, success_nodes@.len() as nat),
            ));
            lemma_bump_n_add(v0, b1, (success_nodes@.len() + 1) as nat);
        }

        if must {
            let _ = self.rebalance();
        }

        Some(success_nodes)
    }

    /// Remove a batch of nodes one by one without intermediate rebalancing,
    /// reporting the subset that owned a slot.  With `must` the ring is
    /// rebalanced at the end; failure to rebalance a ring that became empty
    /// is reported as an absent result.
    #[verifier::rlimit(100)]
    pub fn batch_remove(&mut self, nodes: Vec<u64>, must: bool) -> (res: Option<Vec<u64>>)
        requires
            old(self).wf(),
        ensures
            final(self).wf(),
            final(self).capacity == old(self).capacity,
            ({
                let r = spec_batch_remove(old(self).slots@, nodes@);
                &&& (!must ==> (res matches Some(v) && v@ == r.1) && final(self).slots@ == r.0
                    && final(self).version == bump_n(old(self).version, r.1.len() as nat))
                &&& (must && r.0.len() > 0 ==> (res matches Some(v) && v@ == r.1)
                    && final(self).slots@ == spec_rebalanced(r.0, old(self).capacity)
                    && final(self).version == bump_n(old(self).version, (r.1.len() + 1) as nat))
                &&& (must && r.0.len() == 0 ==> res is None && final(self).slots@ == r.0
                    && final(self).version == bump_n(old(self).version, r.1.len() as nat))
            }),
    {
        let ghost s0 = old(self).slots@;
        let ghost v0 = old(self).version;
        let ghost full = spec_batch_remove(s0, nodes@);

        let mut success_nodes: Vec<u64> = Vec::new();
        proof {
            assert(nodes@.skip(0) =~= nodes@);
            assert(success_nodes@ + full.1 =~= full.1);
            assert(bump_n(v0, 0) == v0);
        }
        let mut idx: usize = 0;
        while idx < nodes.len()
            invariant
                self.wf(),
                self.capacity == old(self).capacity,
                idx <= nodes@.len(),
                full == spec_batch_remove(s0, nodes@),
                full.0 == spec_batch_remove(self.slots@, nodes@.skip(idx as int)).0,
                full.1 == success_nodes@ + spec_batch_remove(
                    self.slots@,
                    nodes@.skip(idx as int),
                ).1,
                self.version == bump_n(v0, success_nodes@.len() as nat),
            decreases nodes@.len() - idx,
        {
            let ghost cur = self.slots@;
            let ghost rest = nodes@.skip(idx as int);
            proof {
                assert(rest[0] == nodes@[idx as int]);
                assert(rest.drop_first() =~= nodes@.skip(idx as int + 1));
                assert(bump_n(v0, (success_nodes@.len() + 1) as nat) == bump(
                    bump_n(v0, success_nodes@.len() as nat),
                ));
            }
            let node = nodes[idx];
            let removed = self.remove(node, false);
            match removed {
                Some(n) => {
                    success_nodes.push(n);
                },
                None => {},
            }
            proof {
                assert(full.1 == success_nodes@ + spec_batch_remove(
                    self.slots@,
                    nodes@.skip(idx as int + 1),
                ).1);
            }
            idx = idx + 1;
        }
        proof {
            assert(nodes@.skip(nodes@.len() as int) =~= Seq::<u64>::empty());
            assert(full.0 == self.slots@);
            assert(full.1 =~= success_nodes@);
            assert(bump_n(v0, (success_nodes@.len() + 1) as nat) == bump(
                bump_n(v0, success_nodes@.len() as nat),
            ));
        }

        if must && !self.rebalance() {
            return None;
        }

        Some(success_nodes)
    }

    /// Add a node: the first node takes the whole range, a later one takes
    /// the upper half of a largest slot.  With `must` the ring is first
    /// expanded while at least three quarters of the capacity is in use, and
    /// rebalanced afterwards.  Fails at capacity without `must`, and with
    /// `must` when expansion overflows.
    #[verifier::rlimit(100)]
    pub fn add(&mut self, node: u64, must: bool) -> (res: Option<u64>)
        requires
            old(self).wf(),
        ensures
            final(self).wf(),
            old(self).slots@.len() >= old(self).capacity && !must ==> res is None && *final(self)
                == *old(self),
            old(self).slots@.len() == 0 ==> res == Some(node) && final(self).slots@ =~= seq![
                Slot { start: 1, end: old(self).capacity, inner: node },
            ] && final(self).capacity == old(self).capacity && final(self).version == bump(
                old(self).version,
            ),
            0 < old(self).slots@.len() < old(self).capacity && !must ==> res == Some(node)
                && final(self).slots@ == spec_split(
                old(self).slots@,
                split_index(old(self).slots@),
                node,
            ) && final(self).capacity == old(self).capacity && final(self).version == bump(
                old(self).version,
            ),
            old(self).slots@.len() > 0 && must ==> ({
                let g = spec_grow(old(self).capacity, old(self).slots@.len() as int);
                let sg = if g.2 == 0 {
                    old(self).slots@
                } else {
                    spec_rebalanced(old(self).slots@, g.1)
                };
                &&& final(self).capacity == g.1
                &&& final(self).version == bump_n(old(self).version, (g.2 + 2) as nat)
                &&& (!g.0 ==> res is None && final(self).slots@ == sg)
                &&& (g.0 ==> res == Some(node) && final(self).slots@ == spec_rebalanced(
                    spec_split(sg, split_index(sg), node),
                    g.1,
                ))
            }),
    {
        let ghost s0 = old(self).slots@;
        let ghost c0 = old(self).capacity;
        let ghost v0 = old(self).version;

        if self.slots.len() as u64 >= self.capacity && !must {
            return None;
        }

        self.version = self.version.wrapping_add(1);

        if self.slots.len() == 0 {
            let cap = self.capacity;
            self.slots.push(Slot { start: 1, end: cap, inner: node });
            return Some(node);
        }

        let ghost g = spec_grow(c0, s0.len() as int);
        proof {
            assert(bump_n(v0, 0) == v0);
            assert(bump_n(v0, 1) == bump(v0));
        }
        if must {
            let grown = self.grow_until_threshold();
            proof {
                lemma_bump_n_add(v0, 1, g.2);
                lemma_bump_n_add(v0, 1, (g.2 + 1) as nat);
                assert(bump_n(v0, (g.2 + 2) as nat) == bump(bump_n(v0, (g.2 + 1) as nat)));
            }
            if !grown {
                return None;
            }
        }

        proof {
            assert(self.slots@.len() < self.capacity);
        }
        self.split_largest(node);

        if must {
            let balanced = self.rebalance();
            if !balanced {
                return None;
            }
        }

        Some(node)
    }

    /// Double the capacity while at least three quarters of it is in use;
    /// fails when a needed doubling would overflow.
    #[verifier::rlimit(100)]
    fn grow_until_threshold(&mut self) -> (ok: bool)
        requires
            old(self).wf(),
            old(self).slots@.len() >= 1,
        ensures
            final(self).wf(),
            ({
                let g = spec_grow(old(self).capacity, old(self).slots@.len() as int);
                &&& ok == g.0
                &&& final(self).capacity == g.1
                &&& final(self).slots@ == (if g.2 == 0 {
                    old(self).slots@
                } else {
                    spec_rebalanced(old(self).slots@, g.1)
                })
                &&& (g.0 ==> final(self).version == bump_n(old(self).version, g.2))
                &&& (!g.0 ==> final(self).version == bump_n(old(self).version, (g.2 + 1) as nat))
                &&& (g.0 ==> final(self).slots@.len() < final(self).capacity)
            }),
    {
        let ghost s0 = old(self).slots@;
        let ghost c0 = old(self).capacity;
        let ghost v0 = old(self).version;
        let ghost g = spec_grow(c0, s0.len() as int);
        proof {
            assert(bump_n(v0, 0) == v0);
        }
        let ghost mut done: nat = 0;
        while (self.slots.len() as u128) * 4 >= (self.capacity as u128) * 3
            invariant
                self.wf(),
                s0 == old(self).slots@,
                c0 == old(self).capacity,
                v0 == old(self).version,
                self.slots@.len() == s0.len(),
                1 <= s0.len(),
                g == spec_grow(c0, s0.len() as int),
                spec_grow(self.capacity, s0.len() as int) == (g.0, g.1, (g.2 - done) as nat),
                done <= g.2,
                self.slots@ == (if done == 0 {
                    s0
                } else {
                    spec_rebalanced(s0, self.capacity)
                }),
                self.version == bump_n(v0, done),
            decreases g.2 - done,
        {
            let ghost cap_before = self.capacity;
            let ghost slots_before = self.slots@;
            proof {
                assert(4 * (s0.len() as int) >= 3 * (cap_before as int));
            }
            if !self.expand() {
                proof {
                    lemma_grow_fail(cap_before, s0.len() as int);
                    assert(g.2 == done);
                    assert(bump_n(v0, (done + 1) as nat) == bump(bump_n(v0, done)));
                }
                return false;
            }
            proof {
                lemma_grow_step(cap_before, s0.len() as int);
                assert(self.capacity == 2 * cap_before);
                assert(self.slots@ == spec_rebalanced(slots_before, self.capacity));
                if done > 0 {
                    lemma_rebalanced_again(s0, cap_before, self.capacity);
                }
                assert(bump_n(v0, (done + 1) as nat) == bump(bump_n(v0, done)));
                done = (done + 1) as nat;
            }
        }
        proof {
            lemma_grow_stop(self.capacity, s0.len() as int);
            assert(g.0 && g.1 == self.capacity && done == g.2);
        }
        true
    }

    /// Remove the slot at `index` and merge its range into a neighbor.
    /// Out of bounds only the version moves.  With `must` the ring is
    /// rebalanced afterwards, and the removal of the final slot reports
    /// failure because an empty ring cannot be rebalanced.
    pub fn remove_by_index(&mut self, index: usize, must: bool) -> (res: Option<u64>)
        requires
            old(self).wf(),
        ensures
            final(self).wf(),
            final(self).capacity == old(self).capacity,
            index >= old(self).slots@.len() ==> res is None && final(self).slots@ == old(
                self,
            ).slots@ && final(self).version == bump(old(self).version),
            index < old(self).slots@.len() ==> ({
                let s1 = spec_remove_at(old(self).slots@, index as int);
                &&& (!must || s1.len() == 0 ==> final(self).slots@ == s1 && final(self).version
                    == bump(old(self).version))
                &&& (must && s1.len() > 0 ==> final(self).slots@ == spec_rebalanced(
                    s1,
                    old(self).capacity,
                ) && final(self).version == bump_n(old(self).version, 2))
                &&& (must && s1.len() == 0 ==> res is None)
                &&& (!must || s1.len() > 0 ==> res == Some(old(self).slots@[index as int].inner))
            }),
    {
        let ghost s0 = old(self).slots@;

        self.version = self.version.wrapping_add(1);

        if index >= self.slots.len() {
            return None;
        }

        let removed = self.slots.remove(index);
        if index > 0 {
            let prev = self.slots[index - 1];
            self.slots[index - 1] = Slot { start: prev.start, end: removed.end, inner: prev.inner };
        } else if self.slots.len() > 0 {
            let head = self.slots[0];
            self.slots[0] = Slot { start: removed.start, end: head.end, inner: head.inner };
        }
        proof {
            assert(self.slots@ =~= spec_remove_at(s0, index as int));
            lemma_remove_at_wf(s0, old(self).capacity, index as int);
            assert(bump_n(old(self).version, 0) == old(self).version);
            assert(bump_n(old(self).version, 1) == bump(old(self).version));
            assert(bump_n(old(self).version, 2) == bump(bump_n(old(self).version, 1)));
        }

        if must && !self.rebalance() {
            return None;
        }

        Some(removed.inner)
    }

    /// Remove the node's slot, located by a linear scan over the slots.
    /// With `must` a rebalance is attempted afterwards; its failure on a
    /// ring that became empty is ignored, as the removal itself succeeded.
    #[verifier::rlimit(100)]
    pub fn remove(&mut self, node: u64, must: bool) -> (res: Option<u64>)
        requires
            old(self).wf(),
        ensures
            final(self).wf(),
            final(self).capacity == old(self).capacity,
            find_owner(old(self).slots@, node) is None ==> res is None && *final(self) == *old(
                self,
            ),
            find_owner(old(self).slots@, node) matches Some(i) ==> ({
                let s1 = spec_remove_at(old(self).slots@, i);
                &&& res == Some(node)
                &&& (must && s1.len() > 0 ==> final(self).slots@ == spec_rebalanced(
                    s1,
                    old(self).capacity,
                ) && final(self).version == bump_n(old(self).version, 2))
                &&& (!must || s1.len() == 0 ==> final(self).slots@ == s1 && final(self).version
                    == bump(old(self).version))
            }),
    {
        proof {
            lemma_find_owner_char(old(self).slots@, node);
        }
        let found = self.find_node_index(node);
        let index = match found {
            Some(index) => index,
            None => {
                return None;
            },
        };

        let ghost s0 = old(self).slots@;
        let ghost i0 = find_owner(s0, node)->Some_0;
        proof {
            assert(i0 == index as int);
            assert(bump_n(old(self).version, 0) == old(self).version);
            assert(bump_n(old(self).version, 1) == bump(old(self).version));
            assert(bump_n(old(self).version, 2) == bump(bump_n(old(self).version, 1)));
        }

        let removed = self.remove_by_index(index, false);
        if removed.is_none() {
            return None;
        }
        proof {
            assert(self.slots@ == spec_remove_at(s0, i0));
        }

        if must {
            let ghost before = self.slots@;
            let _ = self.rebalance();
            proof {
                if before.len() > 0 {
                    assert(self.slots@ == spec_rebalanced(before, old(self).capacity));
                }
            }
        }

        Some(node)
    }

    /// The index of the first slot owned by `node`, by a linear scan.
    fn find_node_index(&self, node: u64) -> (res: Option<usize>)
        ensures
            match res {
                None => find_owner(self.slots@, node) is None,
                Some(j) => find_owner(self.slots@, node) == Some(j as int),
            },
    {
        let ghost s0 = self.slots@;
        proof {
            lemma_find_owner_char(s0, node);
        }
        let n = self.slots.len();
        let mut index: usize = 0;
        while index < n
            invariant
                n == s0.len(),
                self.slots@ == s0,
                index <= n,
                forall|j: int| 0 <= j < index ==> (#[trigger] s0[j]).inner != node,
                match find_owner(s0, node) {
                    None => forall|j: int| 0 <= j < s0.len() ==> (#[trigger] s0[j]).inner != node,
                    Some(i) => 0 <= i < s0.len() && s0[i].inner == node && (forall|j: int|
                        0 <= j < i ==> (#[trigger] s0[j]).inner != node),
                },
            decreases n - index,
        {
            if self.slots[index].inner == node {
                proof {
                    assert(find_owner(s0, node) == Some(index as int));
                }
                return Some(index);
            }
            index = index + 1;
        }
        None
    }

    /// Split a largest slot for a new node: the chosen slot keeps the lower
    /// half of its range and the node takes the upper half, right after it.
    #[verifier::rlimit(100)]
    fn split_largest(&mut self, node: u64)
        requires
            old(self).wf(),
            0 < old(self).slots@.len() < old(self).capacity,
        ensures
            final(self).wf(),
            final(self).capacity == old(self).capacity,
            final(self).version == old(self).version,
            final(self).slots@ == spec_split(
                old(self).slots@,
                split_index(old(self).slots@),
                node,
            ),
    {
        let ghost sg = self.slots@;
        let n = self.slots.len();
        let m = self.find_split_index();
        proof {
            assert(m < n);
        }
        let chosen = self.slots[m];
        proof {
            lemma_pick_from_char(sg, 0);
            lemma_max_slot_size(sg, self.capacity, m as int);
        }
        let mid = chosen.start + (chosen.end - chosen.start) / 2;
        let new_slot = Slot { start: mid + 1, end: chosen.end, inner: node };
        self.slots[m] = Slot { start: chosen.start, end: mid, inner: chosen.inner };
        self.slots.insert(m + 1, new_slot);
        proof {
            assert(mid == (chosen.start + chosen.end) / 2);
            assert(self.slots@ =~= spec_split(sg, m as int, node));
            lemma_split_wf(sg, self.capacity, m as int, node);
        }
    }

    /// Re-lay the slot boundaries so every slot covers `capacity / n` keys,
    /// the remainder going to the final slot; owners and order are kept.
    /// Fails only on an empty ring, which is left unchanged.
    pub fn rebalance(&mut self) -> (ok: bool)
        requires
            old(self).wf(),
        ensures
            final(self).wf(),
            final(self).capacity == old(self).capacity,
            ok == (old(self).slots@.len() > 0),
            !ok ==> *final(self) == *old(self),
            ok ==> final(self).slots@ == spec_rebalanced(old(self).slots@, old(self).capacity)
                && final(self).version == bump(old(self).version),
    {
        if self.slots.len() == 0 {
            return false;
        }

        self.version = self.version.wrapping_add(1);
        self.rebalance_layout()
    }

    /// Double the capacity and re-lay the boundaries as a rebalance does.
    /// Fails on an empty ring (unchanged) and when doubling would overflow
    /// (only the version moves).
    pub fn expand(&mut self) -> (ok: bool)
        requires
            old(self).wf(),
        ensures
            final(self).wf(),
            old(self).slots@.len() == 0 ==> !ok && *final(self) == *old(self),
            old(self).slots@.len() > 0 && old(self).capacity > u64::MAX / 2 ==> !ok
                && final(self).slots@ == old(self).slots@
                && final(self).capacity == old(self).capacity
                && final(self).version == bump(old(self).version),
            old(self).slots@.len() > 0 && old(self).capacity <= u64::MAX / 2 ==> ok
                && final(self).capacity == 2 * old(self).capacity
                && final(self).slots@ == spec_rebalanced(old(self).slots@, final(self).capacity)
                && final(self).version == bump(old(self).version),
    {
        if self.slots.len() == 0 {
            return false;
        }

        self.version = self.version.wrapping_add(1);

        if self.capacity <= u64::MAX / 2 {
            self.capacity = self.capacity * 2;
        } else {
            return false;
        }

        let relaid = self.rebalance_layout();
        relaid
    }

    /// The boundary re-lay shared by `rebalance` and `expand`: the version is
    /// not touched here.
    fn rebalance_layout(&mut self) -> (ok: bool)
        requires
            1 <= old(self).slots@.len() <= old(self).capacity,
        ensures
            ok,
            final(self).wf(),
            final(self).capacity == old(self).capacity,
            final(self).version == old(self).version,
            final(self).slots@ == spec_rebalanced(old(self).slots@, old(self).capacity),
    {
        let ghost s0 = self.slots@;
        let ghost v0 = self.version;
        let n = self.slots.len();
        let cap0 = self.capacity;
        let new_slot_size = self.capacity / (n as u64);
        let ghost target = spec_rebalanced(s0, self.capacity);
        proof {
            lemma_rebalanced_wf(s0, self.capacity);
        }

        let mut i: usize = 0;
        while i < n
            invariant
                self.capacity == cap0,
                self.version == v0,
                n == self.slots@.len(),
                n == s0.len(),
                1 <= n <= self.capacity,
                new_slot_size == self.capacity as int / n as int,
                target == spec_rebalanced(s0, self.capacity),
                target.len() == n,
                i <= n,
                forall|j: int| 0 <= j < i ==> self.slots@[j] == target[j],
                forall|j: int| i <= j < n ==> (#[trigger] self.slots@[j]).inner == s0[j].inner,
            decreases n - i,
        {
            let ghost cap = self.capacity as int;
            let ghost sz = new_slot_size as int;
            proof {
                assert(sz >= 1 && 0 <= i as int * sz && 1 + i as int * sz <= cap && (i as int
                    + 1) * sz == i as int * sz + sz && (i as int + 1) * sz <= n as int * sz
                    && n as int * sz <= cap) by (nonlinear_arith)
                    requires
                        0 <= i < n,
                        sz == cap / n as int,
                        1 <= n as int <= cap,
                ;
            }
            let start: u64 = 1 + (i as u64) * new_slot_size;
            let end: u64 = if i == n - 1 {
                self.capacity
            } else {
                (i as u64 + 1) * new_slot_size
            };
            let owner = self.slots[i].inner;
            self.slots[i] = Slot { start, end, inner: owner };
            i = i + 1;
        }
        proof {
            assert(self.slots@ =~= target);
        }
        true
    }
}

} // verus!
