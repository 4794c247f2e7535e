use cache_proxy::hash_ring::{DefaultHashBuilder, Ring, Slot};

#[test]
fn test_slot() {
    let node: u64 = 1;
    let slot = Slot::new(1, 10, node);

    assert_eq!(slot.start(), 1);
    assert_eq!(slot.end(), 10);
    assert_eq!(slot.inner(), 1);
}

#[test]
fn test_expand() {
    let node1: u64 = 1;
    let node2: u64 = 2;
    let node3: u64 = 3;

    let mut ring = Ring::new(DefaultHashBuilder, 1024);

    ring.add(node1, false);
    ring.add(node2, false);
    ring.add(node3, false);

    assert_eq!(ring.len_slots(), 3);
    assert_eq!(ring.capacity(), 1024);
    assert_eq!(ring.version(), 3);

    ring.expand();

    assert_eq!(ring.len_slots(), 3);
    assert_eq!(ring.capacity(), 2048);
    assert_eq!(ring.version(), 4);
}

#[test]
fn test_ring() {
    let node1: u64 = 1;
    let node2: u64 = 2;
    let node3: u64 = 3;

    let mut ring = Ring::new(DefaultHashBuilder, 1024);

    ring.add(node1, false);
    ring.add(node2, false);
    ring.add(node3, false);

    assert_eq!(ring.len_slots(), 3);
    assert_eq!(ring.capacity(), 1024);
    assert_eq!(ring.version(), 3);

    ring.remove(node2, false);

    assert_eq!(ring.len_slots(), 2);
    assert_eq!(ring.capacity(), 1024);
    assert_eq!(ring.version(), 4);
}

#[test]
fn test_batch_add() {
    let node1: u64 = 1;
    let node2: u64 = 2;
    let node3: u64 = 3;

    let mut ring = Ring::new(DefaultHashBuilder, 1024);

    ring.batch_add(vec![node1, node2, node3], false);

    assert_eq!(ring.len_slots(), 3);
    assert_eq!(ring.capacity(), 1024);
    assert_eq!(ring.version(), 3);

    // node1
    assert_eq!(ring.get_slot(1).unwrap().start(), 1);
    assert_eq!(ring.get_slot(1).unwrap().end(), 512);
    // node3
    assert_eq!(ring.get_slot(999).unwrap().start(), 769);
    assert_eq!(ring.get_slot(999).unwrap().end(), 1024);
    // node2
    assert_eq!(ring.get_slot(10000).unwrap().start(), 513);
    assert_eq!(ring.get_slot(10000).unwrap().end(), 768);

    ring.slots_clear();
    assert_eq!(ring.version(), 3);

    ring.batch_add(vec![node1, node2, node3], true);

    assert_eq!(ring.len_slots(), 3);
    assert_eq!(ring.capacity(), 1024);
    assert_eq!(ring.version(), 7); // 3 + 3 + 1(rebalance)

    // node1
    assert_eq!(ring.get_slot(1).unwrap().start(), 1);
    assert_eq!(ring.get_slot(1).unwrap().end(), 341);
    // node3
    assert_eq!(ring.get_slot(999).unwrap().start(), 683);
    assert_eq!(ring.get_slot(999).unwrap().end(), 1024);
    // node2
    assert_eq!(ring.get_slot(10000).unwrap().start(), 342);
    assert_eq!(ring.get_slot(10000).unwrap().end(), 682);
}

#[test]
fn test_batch_remove() {
    let node1: u64 = 1;
    let node2: u64 = 2;
    let node3: u64 = 3;

    let mut ring = Ring::new(DefaultHashBuilder, 1024);

    ring.batch_add(vec![node1, node2, node3], true);

    assert_eq!(ring.len_slots(), 3);
    assert_eq!(ring.capacity(), 1024);
    assert_eq!(ring.version(), 4); // 3 + 1

    ring.batch_remove(vec![node2], true);

    assert_eq!(ring.len_slots(), 2);
    assert_eq!(ring.capacity(), 1024);
    assert_eq!(ring.version(), 6); // 4 + 1 + 1(rebalance)

    assert_eq!(ring.get_slot(1).unwrap().start(), 1);
    assert_eq!(ring.get_slot(1).unwrap().end(), 512);
    assert_eq!(ring.get_slot(10000).unwrap().start(), 513);
    assert_eq!(ring.get_slot(10000).unwrap().end(), 1024);

    ring.batch_remove(vec![node3], true);

    assert_eq!(ring.len_slots(), 1);
    assert_eq!(ring.capacity(), 1024);
    assert_eq!(ring.version(), 8); // 6 + 1 + 1(rebalance)

    assert_eq!(ring.get_slot(1).unwrap().start(), 1);
    assert_eq!(ring.get_slot(1).unwrap().end(), 1024);
}

#[test]
fn test_ring_get_slot() {
    let node1: u64 = 1;
    let node2: u64 = 2;
    let node3: u64 = 3;

    let mut ring = Ring::new(DefaultHashBuilder, 1024);

    ring.add(node1, false);
    ring.add(node2, false);
    ring.add(node3, false);

    let slot = ring.get_slot(1).unwrap();
    assert_eq!(slot.inner(), 1);

    let slot = ring.get_slot(999).unwrap();
    assert_eq!(slot.inner(), 3);

    let slot = ring.get_slot(10000).unwrap();
    assert_eq!(slot.inner(), 2);
}

#[test]
fn test_ring_get_replicas() {
    let node1: u64 = 1;
    let node2: u64 = 2;
    let node3: u64 = 3;

    let mut ring = Ring::new(DefaultHashBuilder, 1024);

    println!("{:?}", ring.get_replicas(1, 2));

    ring.add(node1, false);
    ring.add(node2, false);
    ring.add(node3, false);

    println!("{:?}", ring.get_replicas(1, 2));

    let slots = ring.get_replicas(1, 2).unwrap();
    assert_eq!(slots.len(), 2);
    assert_eq!(slots[0].inner(), 1);
    assert_eq!(slots[1].inner(), 2);

    let slots = ring.get_replicas(10000, 2).unwrap();
    assert_eq!(slots.len(), 2);
    assert_eq!(slots[0].inner(), 2);
    assert_eq!(slots[1].inner(), 3);
}

#[test]
fn test_empty_ring() {
    let mut ring = Ring::new(DefaultHashBuilder, 1024);

    assert!(ring.get_slot(1).is_none());
    assert!(ring.get_node(1).is_none());
    assert!(ring.get_replicas(1, 2).is_none());
    assert!(!ring.rebalance());
    assert!(!ring.expand());
    assert_eq!(ring.version(), 0);
    assert!(ring.is_empty());
}

#[test]
fn test_single_slot() {
    let mut ring = Ring::new(DefaultHashBuilder, 1024);
    ring.add(7, false);

    for key in [0u32, 1, 2, 999, 10000, u32::MAX] {
        let slot = ring.get_slot(key).unwrap();
        assert_eq!(slot.start(), 1);
        assert_eq!(slot.end(), 1024);
        assert_eq!(slot.inner(), 7);
        assert_eq!(ring.get_node(key).unwrap(), 7);
    }
}

#[test]
fn test_capacity_full() {
    let mut ring = Ring::new(DefaultHashBuilder, 2);

    assert_eq!(ring.add(1, false), Some(1));
    assert_eq!(ring.add(2, false), Some(2));
    assert_eq!(ring.len_slots(), 2);
    assert_eq!(ring.add(3, false), None);
    assert_eq!(ring.len_slots(), 2);
}

#[test]
fn test_expand_overflow() {
    // A ring whose capacity cannot double fails cleanly: the state is kept
    // and only the version moves.
    let mut ring = Ring::new(DefaultHashBuilder, u64::MAX / 2 + 1);
    ring.add(1, false);

    assert!(!ring.expand());
    assert_eq!(ring.capacity(), u64::MAX / 2 + 1);
    assert_eq!(ring.len_slots(), 1);
    assert_eq!(ring.version(), 2);

    // The largest capacity that can still double.
    let mut ring = Ring::new(DefaultHashBuilder, u64::MAX / 2);
    ring.add(1, false);
    assert!(ring.expand());
    assert_eq!(ring.capacity(), u64::MAX - 1);
}

#[test]
fn test_expand_layout() {
    let mut ring = Ring::new(DefaultHashBuilder, 1024);
    ring.batch_add(vec![1, 2, 3], true);
    let version = ring.version();

    assert!(ring.expand());

    assert_eq!(ring.capacity(), 2048);
    assert_eq!(ring.version(), version + 1);
    // All slots in ring order: equal thirds of the doubled range.
    let slots = ring.get_replicas(1, 9).unwrap();
    assert_eq!(slots.len(), 3);
    assert_eq!(slots[0].start(), 1);
    assert_eq!(slots[0].end(), 682);
    assert_eq!(slots[1].start(), 683);
    assert_eq!(slots[1].end(), 1364);
    assert_eq!(slots[2].start(), 1365);
    assert_eq!(slots[2].end(), 2048);
}

#[test]
fn test_replicas_wrap() {
    // A key owned by the last slot wraps to the first for its replica.
    let mut ring = Ring::new(DefaultHashBuilder, 1024);
    ring.add(1, false);
    ring.add(2, false);
    ring.add(3, false);

    let slots = ring.get_replicas(999, 2).unwrap();
    assert_eq!(slots.len(), 2);
    assert_eq!(slots[0].inner(), 3);
    assert_eq!(slots[1].inner(), 1);

    // More replicas than slots: every slot, in ring order.
    let slots = ring.get_replicas(999, 9).unwrap();
    assert_eq!(slots.len(), 3);
    assert_eq!(slots[0].inner(), 1);
    assert_eq!(slots[1].inner(), 2);
    assert_eq!(slots[2].inner(), 3);
}

#[test]
fn test_rebalance_remainder() {
    // The remainder of the division goes to the final slot, so the spread
    // can exceed one when the remainder does.
    let mut ring = Ring::new(DefaultHashBuilder, 10);
    ring.batch_add(vec![1, 2, 3, 4], false);
    assert!(ring.rebalance());

    let slots = ring.get_replicas(1, 9).unwrap();
    assert_eq!(slots.len(), 4);
    let mut sizes: Vec<u64> = Vec::new();
    for s in &slots {
        sizes.push(s.end() - s.start() + 1);
    }
    sizes.sort();
    assert_eq!(sizes, vec![2, 2, 2, 4]);
    assert_eq!(slots[0].start(), 1);
    assert_eq!(slots[3].end(), 10);
}

#[test]
fn test_add_remove_restores_layout() {
    // Adding a fresh node and removing it again, then rebalancing, puts a
    // balanced ring back exactly as it was.
    let mut ring = Ring::new(DefaultHashBuilder, 1024);
    ring.batch_add(vec![1, 2, 3], true);

    let before: Vec<(u64, u64, u64)> = ring
        .get_replicas(1, 3)
        .unwrap()
        .iter()
        .map(|s| (s.start(), s.end(), s.inner()))
        .collect();

    ring.add(9, false);
    ring.remove(9, false);
    assert!(ring.rebalance());

    let after: Vec<(u64, u64, u64)> = ring
        .get_replicas(1, 3)
        .unwrap()
        .iter()
        .map(|s| (s.start(), s.end(), s.inner()))
        .collect();
    assert_eq!(before, after);
}

#[test]
fn test_remove_head_and_last() {
    // Removing the head slot lets the new head absorb the low range, and
    // removing the final slot leaves an empty ring with the version moved.
    let mut ring = Ring::new(DefaultHashBuilder, 1024);
    ring.add(1, false);
    ring.add(2, false);

    assert_eq!(ring.remove(1, false), Some(1));
    assert_eq!(ring.len_slots(), 1);
    assert_eq!(ring.get_slot(1).unwrap().start(), 1);
    assert_eq!(ring.get_slot(1).unwrap().end(), 1024);
    assert_eq!(ring.get_slot(1).unwrap().inner(), 2);

    let version = ring.version();
    assert_eq!(ring.remove(2, false), Some(2));
    assert!(ring.is_empty());
    assert_eq!(ring.version(), version + 1);
}

#[test]
fn test_remove_by_index_out_of_bounds() {
    let mut ring = Ring::new(DefaultHashBuilder, 1024);
    ring.add(1, false);

    assert_eq!(ring.remove_by_index(5, false), None);
    assert_eq!(ring.len_slots(), 1);
    // The attempt still moved the version.
    assert_eq!(ring.version(), 2);

    assert_eq!(ring.remove(42, false), None);
    assert_eq!(ring.version(), 2);
}

#[test]
fn test_incremental_add_layout() {
    // Each add splits a largest slot: the whole range, then halves, then
    // the upper half split again, one version per add.
    let mut ring = Ring::new(DefaultHashBuilder, 1024);

    ring.add(1, false);
    let slots = ring.get_replicas(1, 9).unwrap();
    assert_eq!(slots.len(), 1);
    assert_eq!((slots[0].start(), slots[0].end(), slots[0].inner()), (1, 1024, 1));
    assert_eq!(ring.version(), 1);

    ring.add(2, false);
    let slots = ring.get_replicas(1, 9).unwrap();
    assert_eq!(slots.len(), 2);
    assert_eq!((slots[0].start(), slots[0].end(), slots[0].inner()), (1, 512, 1));
    assert_eq!((slots[1].start(), slots[1].end(), slots[1].inner()), (513, 1024, 2));
    assert_eq!(ring.version(), 2);

    ring.add(3, false);
    let slots = ring.get_replicas(1, 9).unwrap();
    assert_eq!(slots.len(), 3);
    assert_eq!((slots[0].start(), slots[0].end(), slots[0].inner()), (1, 512, 1));
    assert_eq!((slots[1].start(), slots[1].end(), slots[1].inner()), (513, 768, 2));
    assert_eq!((slots[2].start(), slots[2].end(), slots[2].inner()), (769, 1024, 3));
    assert_eq!(ring.version(), 3);
}
