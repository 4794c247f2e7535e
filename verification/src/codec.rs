use vstd::prelude::*;

use crate::hash_ring::{wf_slots, Ring, Slot};

verus! {

/// The eight little-endian bytes of a 64-bit word.
pub open spec fn u64_le_bytes(x: u64) -> Seq<u8> {
    seq![
        (x & 0xff) as u8,
        ((x >> 8) & 0xff) as u8,
        ((x >> 16) & 0xff) as u8,
        ((x >> 24) & 0xff) as u8,
        ((x >> 32) & 0xff) as u8,
        ((x >> 40) & 0xff) as u8,
        ((x >> 48) & 0xff) as u8,
        ((x >> 56) & 0xff) as u8,
    ]
}

/// The 64-bit word read from eight little-endian bytes.
pub open spec fn u64_from_le(b: Seq<u8>) -> u64
    recommends
        b.len() == 8,
{
    (b[0] as u64) | ((b[1] as u64) << 8) | ((b[2] as u64) << 16) | ((b[3] as u64) << 24) | ((
    b[4] as u64) << 32) | ((b[5] as u64) << 40) | ((b[6] as u64) << 48) | ((b[7] as u64) << 56)
}

/// Reading back the eight bytes of a word yields the word.
pub proof fn lemma_u64_le_round_trip(x: u64)
    ensures
        u64_from_le(u64_le_bytes(x)) == x,
{
    let b = u64_le_bytes(x);
    assert(((x & 0xff) as u8 as u64) | (((x >> 8) & 0xff) as u8 as u64) << 8 | (((x >> 16)
        & 0xff) as u8 as u64) << 16 | (((x >> 24) & 0xff) as u8 as u64) << 24 | (((x >> 32)
        & 0xff) as u8 as u64) << 32 | (((x >> 40) & 0xff) as u8 as u64) << 40 | (((x >> 48)
        & 0xff) as u8 as u64) << 48 | (((x >> 56) & 0xff) as u8 as u64) << 56 == x)
        by (bit_vector);
}

/// The 24 bytes of one slot: start, end and owner.
pub open spec fn slot_bytes(s: Slot) -> Seq<u8> {
    u64_le_bytes(s.start) + u64_le_bytes(s.end) + u64_le_bytes(s.inner)
}

/// The bytes of a slot sequence, in order.
pub open spec fn spec_encode_slots(s: Seq<Slot>) -> Seq<u8>
    decreases s.len(),
{
    if s.len() == 0 {
        Seq::<u8>::empty()
    } else {
        slot_bytes(s[0]) + spec_encode_slots(s.drop_first())
    }
}

/// The metadata byte format of a ring: capacity, version, slot count, then
/// each slot, every field a 64-bit little-endian word.
pub open spec fn spec_encode_ring(capacity: u64, version: u64, slots: Seq<Slot>) -> Seq<u8> {
    u64_le_bytes(capacity) + u64_le_bytes(version) + u64_le_bytes(slots.len() as u64)
        + spec_encode_slots(slots)
}

/// The slots read from `b`, exactly `n` of them; nothing may be left over.
pub open spec fn spec_decode_slots(b: Seq<u8>, n: nat) -> Option<Seq<Slot>>
    decreases n,
{
    if n == 0 {
        if b.len() == 0 {
            Some(Seq::<Slot>::empty())
        } else {
            None
        }
    } else if b.len() < 24 {
        None
    } else {
        let slot = Slot {
            start: u64_from_le(b.subrange(0, 8)),
            end: u64_from_le(b.subrange(8, 16)),
            inner: u64_from_le(b.subrange(16, 24)),
        };
        match spec_decode_slots(b.skip(24), (n - 1) as nat) {
            Some(rest) => Some(seq![slot] + rest),
            None => None,
        }
    }
}

/// The fields read from a ring encoding: capacity, version and slots.
pub open spec fn spec_decode_ring(b: Seq<u8>) -> Option<(u64, u64, Seq<Slot>)> {
    if b.len() < 24 {
        None
    } else {
        let capacity = u64_from_le(b.subrange(0, 8));
        let version = u64_from_le(b.subrange(8, 16));
        let count = u64_from_le(b.subrange(16, 24));
        match spec_decode_slots(b.skip(24), count as nat) {
            Some(slots) => Some((capacity, version, slots)),
            None => None,
        }
    }
}

/// Appending one slot to a sequence appends its bytes to the encoding.
proof fn lemma_encode_slots_push(s: Seq<Slot>, x: Slot)
    ensures
        spec_encode_slots(s.push(x)) == spec_encode_slots(s) + slot_bytes(x),
    decreases s.len(),
{
    if s.len() == 0 {
        assert(s =~= Seq::<Slot>::empty());
        assert(s.push(x).drop_first() =~= Seq::<Slot>::empty());
        assert(spec_encode_slots(Seq::<Slot>::empty()) == Seq::<u8>::empty());
        assert(spec_encode_slots(s.push(x)) =~= spec_encode_slots(s) + slot_bytes(x));
    } else {
        assert(s.push(x).drop_first() =~= s.drop_first().push(x));
        lemma_encode_slots_push(s.drop_first(), x);
        assert(spec_encode_slots(s.push(x)) =~= spec_encode_slots(s) + slot_bytes(x));
    }
}

/// Decoding an encoded slot sequence returns it unchanged.  (The byte count
/// of the encoding comes along for the induction.)
proof fn lemma_decode_encode_slots(s: Seq<Slot>)
    ensures
        spec_encode_slots(s).len() == 24 * s.len(),
        spec_decode_slots(spec_encode_slots(s), s.len()) == Some(s),
    decreases s.len(),
{
    let b = spec_encode_slots(s);
    if s.len() == 0 {
        assert(spec_decode_slots(b, 0) == Some(s));
    } else {
        lemma_decode_encode_slots(s.drop_first());
        lemma_u64_le_round_trip(s[0].start);
        lemma_u64_le_round_trip(s[0].end);
        lemma_u64_le_round_trip(s[0].inner);
        assert(b.subrange(0, 8) =~= u64_le_bytes(s[0].start));
        assert(b.subrange(8, 16) =~= u64_le_bytes(s[0].end));
        assert(b.subrange(16, 24) =~= u64_le_bytes(s[0].inner));
        assert(b.skip(24) =~= spec_encode_slots(s.drop_first()));
        let slot = Slot { start: s[0].start, end: s[0].end, inner: s[0].inner };
        assert(slot == s[0]);
        assert(seq![slot] + s.drop_first() =~= s);
    }
}

/// Decoding an encoded ring returns its capacity, version and slots
/// unchanged: the format round-trips every field losslessly.
pub proof fn lemma_codec_round_trip(capacity: u64, version: u64, slots: Seq<Slot>)
    requires
        slots.len() <= u64::MAX,
    ensures
        spec_decode_ring(spec_encode_ring(capacity, version, slots)) == Some(
            (capacity, version, slots),
        ),
{
    let b = spec_encode_ring(capacity, version, slots);
    lemma_decode_encode_slots(slots);
    lemma_u64_le_round_trip(capacity);
    lemma_u64_le_round_trip(version);
    lemma_u64_le_round_trip(slots.len() as u64);
    assert(b.subrange(0, 8) =~= u64_le_bytes(capacity));
    assert(b.subrange(8, 16) =~= u64_le_bytes(version));
    assert(b.subrange(16, 24) =~= u64_le_bytes(slots.len() as u64));
    assert(b.skip(24) =~= spec_encode_slots(slots));
}

/// Append the eight little-endian bytes of a word.
fn push_u64_le(out: &mut Vec<u8>, x: u64)
    ensures
        final(out)@ == old(out)@ + u64_le_bytes(x),
{
    out.push((x & 0xff) as u8);
    out.push(((x >> 8) & 0xff) as u8);
    out.push(((x >> 16) & 0xff) as u8);
    out.push(((x >> 24) & 0xff) as u8);
    out.push(((x >> 32) & 0xff) as u8);
    out.push(((x >> 40) & 0xff) as u8);
    out.push(((x >> 48) & 0xff) as u8);
    out.push(((x >> 56) & 0xff) as u8);
    proof {
        assert(out@ =~= old(out)@ + u64_le_bytes(x));
    }
}

/// Read the word at `off` from eight little-endian bytes.
fn read_u64_le(bytes: &Vec<u8>, off: usize) -> (r: u64)
    requires
        off + 8 <= bytes@.len(),
    ensures
        r == u64_from_le(bytes@.subrange(off as int, off as int + 8)),
{
    let n = bytes.len();
    proof {
        assert(off + 8 <= n);
    }
    let r = (bytes[off] as u64) | ((bytes[off + 1] as u64) << 8) | ((bytes[off + 2] as u64) << 16)
        | ((bytes[off + 3] as u64) << 24) | ((bytes[off + 4] as u64) << 32) | ((bytes[off
        + 5] as u64) << 40) | ((bytes[off + 6] as u64) << 48) | ((bytes[off + 7] as u64) << 56);
    proof {
        let b = bytes@.subrange(off as int, off as int + 8);
        assert(b[0] == bytes@[off as int] && b[1] == bytes@[off as int + 1] && b[2] == bytes@[off
            as int + 2] && b[3] == bytes@[off as int + 3] && b[4] == bytes@[off as int + 4] && b[5]
            == bytes@[off as int + 5] && b[6] == bytes@[off as int + 6] && b[7] == bytes@[off as int
            + 7]);
    }
    r
}

/// Whether a slot vector partitions `[1, capacity]`, checked field by
/// field.
fn check_wf(slots: &Vec<Slot>, capacity: u64) -> (b: bool)
    ensures
        b == wf_slots(slots@, capacity),
{
    let n = slots.len();
    if (n as u128) > (capacity as u128) {
        return false;
    }
    if n == 0 {
        return true;
    }
    if slots[0].start != 1 {
        return false;
    }
    if slots[n - 1].end != capacity {
        return false;
    }
    let mut i: usize = 0;
    while i < n
        invariant
            i <= n,
            n == slots@.len(),
            0 < n <= capacity,
            slots@[0].start == 1,
            slots@[n - 1].end == capacity,
            forall|j: int| 0 <= j < i ==> (#[trigger] slots@[j]).wf(),
            forall|j: int| 0 <= j < i && j < n - 1 ==> (#[trigger] slots@[j]).end + 1 == slots@[j
                + 1].start,
        decreases n - i,
    {
        let s = slots[i];
        if s.start > s.end {
            return false;
        }
        if i + 1 < n {
            if s.end == u64::MAX {
                return false;
            }
            if s.end + 1 != slots[i + 1].start {
                return false;
            }
        }
        i = i + 1;
    }
    true
}

impl Ring {
    /// Serialize the ring to the metadata byte format.
    pub fn to_bytes(&self) -> (out: Vec<u8>)
        ensures
            out@ == spec_encode_ring(self.capacity, self.version, self.slots@),
    {
        let ghost cap = self.capacity;
        let ghost ver = self.version;
        let ghost s = self.slots@;
        let n = self.slots.len();

        let mut out: Vec<u8> = Vec::new();
        push_u64_le(&mut out, self.capacity);
        push_u64_le(&mut out, self.version);
        push_u64_le(&mut out, n as u64);
        let ghost header = out@;
        proof {
            assert(spec_encode_slots(s.take(0)) =~= Seq::<u8>::empty());
            assert(out@ =~= header + spec_encode_slots(s.take(0)));
        }

        let mut i: usize = 0;
        while i < n
            invariant
                n == s.len(),
                self.slots@ == s,
                i <= n,
                out@ == header + spec_encode_slots(s.take(i as int)),
            decreases n - i,
        {
            let slot = self.slots[i];
            push_u64_le(&mut out, slot.start);
            push_u64_le(&mut out, slot.end);
            push_u64_le(&mut out, slot.inner);
            proof {
                assert(s.take(i + 1) =~= s.take(i as int).push(s[i as int]));
                lemma_encode_slots_push(s.take(i as int), s[i as int]);
                assert(out@ =~= header + spec_encode_slots(s.take(i + 1)));
            }
            i = i + 1;
        }
        proof {
            assert(s.take(n as int) =~= s);
        }
        out
    }

    /// Deserialize a ring from the metadata byte format.  Absent when the
    /// bytes are not a complete encoding, or when the encoded slots do not
    /// partition `[1, capacity]` for a positive capacity.
    pub fn from_bytes(bytes: &Vec<u8>) -> (res: Option<Ring>)
        ensures
            match spec_decode_ring(bytes@) {
                None => res is None,
                Some((capacity, version, slots)) => {
                    if capacity >= 1 && wf_slots(slots, capacity) {
                        res matches Some(r) && r.capacity == capacity && r.version == version
                            && r.slots@ == slots && r.wf()
                    } else {
                        res is None
                    }
                },
            },
    {
        if bytes.len() < 24 {
            return None;
        }
        let capacity = read_u64_le(bytes, 0);
        let version = read_u64_le(bytes, 8);
        let count = read_u64_le(bytes, 16);
        proof {
            assert(bytes@.subrange(0, 8) =~= bytes@.subrange(0, 8));
        }

        let mut slots: Vec<Slot> = Vec::new();
        let mut off: usize = 24;
        let mut i: u64 = 0;
        let ghost whole = spec_decode_slots(bytes@.skip(24), count as nat);
        proof {
            if whole is Some {
                assert(slots@ + whole->Some_0 =~= whole->Some_0);
            }
        }
        while i < count
            invariant
                i <= count,
                24 <= off <= bytes@.len(),
                whole == spec_decode_slots(bytes@.skip(24), count as nat),
                spec_decode_ring(bytes@) == match whole {
                    Some(all) => Some((capacity, version, all)),
                    None => None::<(u64, u64, Seq<Slot>)>,
                },
                whole == match spec_decode_slots(bytes@.skip(off as int), (count - i) as nat) {
                    Some(rest) => Some(slots@ + rest),
                    None => None::<Seq<Slot>>,
                },
            decreases count - i,
        {
            if bytes.len() - off < 24 {
                proof {
                    assert(bytes@.skip(off as int).len() < 24);
                    assert(spec_decode_slots(bytes@.skip(off as int), (count - i) as nat)
                        is None);
                    assert(whole is None);
                }
                return None;
            }
            let start = read_u64_le(bytes, off);
            let end = read_u64_le(bytes, off + 8);
            let inner = read_u64_le(bytes, off + 16);
            let slot = Slot { start, end, inner };
            proof {
                let rest = bytes@.skip(off as int);
                assert(rest.subrange(0, 8) =~= bytes@.subrange(off as int, off as int + 8));
                assert(rest.subrange(8, 16) =~= bytes@.subrange(off as int + 8, off as int + 16));
                assert(rest.subrange(16, 24) =~= bytes@.subrange(off as int + 16, off as int + 24));
                assert(rest.skip(24) =~= bytes@.skip(off as int + 24));
                assert(slots@.push(slot) + spec_decode_slots(
                    bytes@.skip(off as int + 24),
                    (count - i - 1) as nat,
                )->Some_0 =~= slots@ + (seq![slot] + spec_decode_slots(
                    bytes@.skip(off as int + 24),
                    (count - i - 1) as nat,
                )->Some_0));
            }
            slots.push(slot);
            off = off + 24;
            i = i + 1;
        }

        if off != bytes.len() {
            proof {
                assert(bytes@.skip(off as int).len() != 0);
                assert(spec_decode_slots(bytes@.skip(off as int), 0nat) is None);
                assert(whole is None);
            }
            return None;
        }
        proof {
            assert(bytes@.skip(off as int).len() == 0);
            assert(spec_decode_slots(bytes@.skip(off as int), 0nat) == Some(Seq::<Slot>::empty()));
            assert(slots@ + Seq::<Slot>::empty() =~= slots@);
            assert(whole == Some(slots@));
        }

        if capacity == 0 {
            return None;
        }
        if !check_wf(&slots, capacity) {
            return None;
        }
        Some(Ring { slots, capacity, version })
    }
}

} // verus!
