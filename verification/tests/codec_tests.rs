use cache_proxy::hash_ring::{DefaultHashBuilder, Ring};

#[test]
fn test_codec_round_trip() {
    let mut ring = Ring::new(DefaultHashBuilder, 1024);
    ring.batch_add(vec![1, 2, 3], true);

    let bytes = ring.to_bytes();
    assert_eq!(bytes.len(), 24 + 3 * 24);

    let back = Ring::from_bytes(&bytes).unwrap();
    assert_eq!(back.capacity(), ring.capacity());
    assert_eq!(back.version(), ring.version());
    assert_eq!(back.len_slots(), ring.len_slots());
    for key in [1u32, 999, 10000] {
        let a = ring.get_slot(key).unwrap();
        let b = back.get_slot(key).unwrap();
        assert_eq!(a.start(), b.start());
        assert_eq!(a.end(), b.end());
        assert_eq!(a.inner(), b.inner());
    }
}

#[test]
fn test_codec_round_trip_empty() {
    let ring = Ring::new(DefaultHashBuilder, 7);
    let bytes = ring.to_bytes();
    assert_eq!(bytes.len(), 24);

    let back = Ring::from_bytes(&bytes).unwrap();
    assert_eq!(back.capacity(), 7);
    assert_eq!(back.version(), 0);
    assert_eq!(back.len_slots(), 0);
}

#[test]
fn test_codec_rejects_truncated() {
    let mut ring = Ring::new(DefaultHashBuilder, 1024);
    ring.batch_add(vec![1, 2], false);

    let mut bytes = ring.to_bytes();
    bytes.pop();
    assert!(Ring::from_bytes(&bytes).is_none());

    assert!(Ring::from_bytes(&Vec::new()).is_none());
    assert!(Ring::from_bytes(&vec![0u8; 23]).is_none());
}

#[test]
fn test_codec_rejects_bad_layout() {
    let mut ring = Ring::new(DefaultHashBuilder, 1024);
    ring.batch_add(vec![1, 2], false);

    // Corrupt the first slot's start so the slots no longer begin at one.
    let mut bytes = ring.to_bytes();
    bytes[24] = 2;
    assert!(Ring::from_bytes(&bytes).is_none());

    // A zero capacity is rejected even with no slots.
    let zero_cap = Ring::new(DefaultHashBuilder, 1).to_bytes();
    let mut bad = zero_cap.clone();
    bad[0] = 0;
    assert!(Ring::from_bytes(&bad).is_none());
}
