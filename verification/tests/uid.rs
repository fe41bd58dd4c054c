use std::collections::HashSet;

use uid_alloc::{GlobalCounter, ThreadAllocator, BATCH_SIZE, UID};

#[test]
fn test_uid_uniqueness_and_type() {
    let mut counter = GlobalCounter::new();
    let mut alloc = ThreadAllocator::new();
    let uid1 = UID::new(&mut alloc, &mut counter);
    let uid2 = UID::new(&mut alloc, &mut counter);

    assert_ne!(uid1, uid2, "UIDs should be unique");
}

#[test]
fn test_first_two_ids_fall_in_first_batch() {
    let mut counter = GlobalCounter::new();
    let mut alloc = ThreadAllocator::new();
    let uid1 = UID::new(&mut alloc, &mut counter);
    let uid2 = UID::new(&mut alloc, &mut counter);
    assert_ne!(uid1, uid2);
    let v1: u64 = uid1.into_value();
    let v2: u64 = uid2.into_value();
    assert!(v1 < BATCH_SIZE);
    assert!(v2 < BATCH_SIZE);
    assert_eq!(v1, BATCH_SIZE - 1);
    assert_eq!(v2, BATCH_SIZE - 2);
}

#[test]
fn test_batch_boundary_counter_jump() {
    let mut counter = GlobalCounter::new();
    let mut alloc = ThreadAllocator::new();
    let mut first_batch: Vec<u64> = Vec::new();
    let mut k: u64 = 0;
    while k < BATCH_SIZE {
        first_batch.push(UID::new(&mut alloc, &mut counter).into_value());
        k += 1;
    }
    assert_eq!(counter.current(), BATCH_SIZE);
    for v in &first_batch {
        assert!(*v < BATCH_SIZE);
    }
    let next: u64 = UID::new(&mut alloc, &mut counter).into_value();
    assert_eq!(counter.current(), 2 * BATCH_SIZE);
    assert!(BATCH_SIZE <= next && next < 2 * BATCH_SIZE);
}

#[test]
fn test_single_thread_ids_distinct() {
    let mut counter = GlobalCounter::new();
    let mut alloc = ThreadAllocator::new();
    let mut seen: HashSet<u64> = HashSet::new();
    let mut k: u64 = 0;
    while k < 2000 {
        assert!(seen.insert(UID::new(&mut alloc, &mut counter).into_value()));
        k += 1;
    }
    assert_eq!(seen.len(), 2000);
}

#[test]
fn test_ten_workers_hundred_thousand_ids() {
    let workers: usize = 10;
    let ids_per_worker: usize = 10_000;
    let mut counter = GlobalCounter::new();
    let mut allocs: Vec<ThreadAllocator> = Vec::new();
    let mut w: usize = 0;
    while w < workers {
        allocs.push(ThreadAllocator::new());
        w += 1;
    }
    let mut all: HashSet<UID> = HashSet::new();
    let mut round: usize = 0;
    while round < ids_per_worker {
        for a in allocs.iter_mut() {
            let id = UID::new(a, &mut counter);
            assert!(all.insert(id), "Duplicate UID found");
        }
        round += 1;
    }
    assert_eq!(all.len(), workers * ids_per_worker);
}

#[test]
fn test_value_determines_identity() {
    let mut counter = GlobalCounter::new();
    let mut alloc = ThreadAllocator::new();
    let uid = UID::new(&mut alloc, &mut counter);
    let copy = uid.clone();
    assert_eq!(uid, copy);
    assert_eq!(uid.into_value(), copy.into_value());
}

#[test]
fn test_debug_rendering_contains_value() {
    let mut counter = GlobalCounter::new();
    let mut alloc = ThreadAllocator::new();
    let uid = UID::new(&mut alloc, &mut counter);
    let copy = uid.clone();
    let text = format!("{:?}", uid);
    assert_eq!(text, format!("{:?}", copy));
    assert!(text.contains(&uid.into_value().to_string()));
}

#[test]
fn test_claim_batch_ranges_disjoint() {
    let mut counter = GlobalCounter::new();
    let b0: u64 = counter.claim_batch(BATCH_SIZE);
    let b1: u64 = counter.claim_batch(BATCH_SIZE);
    assert_eq!(b0, 0);
    assert_eq!(b1, BATCH_SIZE);
    assert_eq!(counter.current(), 2 * BATCH_SIZE);
}
