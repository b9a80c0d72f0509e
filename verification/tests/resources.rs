use launchpad::renderer::resources::{
    next_capacity, outcome_for, InstanceBuffer, SetOutcome, MIN_CAPACITY,
};

#[test]
fn empty_list_keeps_buffer_for_reuse() {
    // After an empty set, the length is 0 and the draw is skipped, but the
    // capacity is retained.
    let buf = InstanceBuffer::new();
    assert_eq!(buf.len(), 0);
    assert!(!buf.has_instances());
    assert_eq!(buf.capacity(), 0);
    // An empty list never allocates and never drops capacity.
    let o = outcome_for(32, 0);
    assert!(!o.allocated);
    assert_eq!(o.len, 0);
}

#[test]
fn growth_policy_doubles_capacity() {
    // First non-empty set past zero capacity allocates.
    assert!(outcome_for(0, 5).allocated);
    // Same capacity: no allocation.
    assert!(!outcome_for(16, 5).allocated);
    // One past capacity: allocate.
    assert!(outcome_for(16, 17).allocated);
    // Exactly at capacity: no allocation.
    assert!(!outcome_for(16, 16).allocated);
}

#[test]
fn min_capacity_floor_prevents_tiny_reallocations() {
    // The grow formula floors at MIN_CAPACITY (16).
    let new_cap = next_capacity(0, 1);
    assert_eq!(new_cap, MIN_CAPACITY);
    // Items 1..=16 all fit without another growth.
    for needed in 1..=MIN_CAPACITY {
        assert!(
            !outcome_for(MIN_CAPACITY, needed).allocated,
            "needed={needed} should fit in capacity={MIN_CAPACITY}"
        );
    }
    // 17 forces a second growth to 32.
    let new_cap = next_capacity(MIN_CAPACITY, 17);
    assert_eq!(new_cap, 32);
}

#[test]
fn set_grows_only_past_capacity_and_keeps_it_when_empty() {
    let mut buf = InstanceBuffer::new();
    let o = buf.set(5);
    assert_eq!(o, SetOutcome { allocated: true, len: 5, wrote: true });
    assert_eq!(buf.capacity(), 16);
    let o = buf.set(16);
    assert_eq!(o, SetOutcome { allocated: false, len: 16, wrote: true });
    let o = buf.set(0);
    assert_eq!(o, SetOutcome { allocated: false, len: 0, wrote: false });
    assert_eq!(buf.capacity(), 16);
    assert!(!buf.has_instances());
    let o = buf.set(40);
    assert!(o.allocated);
    assert_eq!(buf.capacity(), 40);
    assert_eq!(buf.len(), 40);
    buf.clear();
    assert_eq!(buf.capacity(), 0);
    assert_eq!(buf.len(), 0);
}

#[test]
fn next_capacity_saturates_when_doubling() {
    assert_eq!(next_capacity(u32::MAX - 1, u32::MAX), u32::MAX);
    assert_eq!(next_capacity(100, 150), 200);
    assert_eq!(next_capacity(100, 250), 250);
}
