use typst_memtables::accelerate::{evict, get, id, Accelerators, MAX_ACCELERATORS};

#[test]
fn ids_count_up_from_zero() {
    let mut acc = Accelerators::new();
    assert_eq!(id(&mut acc), 0);
    assert_eq!(id(&mut acc), 1);
    assert_eq!(id(&mut acc), 2);
}

#[test]
fn lookup_grows_the_registry_with_empty_accelerators() {
    let mut acc = Accelerators::new();
    let a = id(&mut acc);
    let b = id(&mut acc);
    assert_eq!(get(&mut acc, b), Some(1));
    assert_eq!(get(&mut acc, a), Some(0));
    assert!(acc.accelerator(0).is_empty());
    acc.accelerator_mut(1).insert(5, 6);
    assert_eq!(acc.accelerator(1).get(&5), Some(&6));
    // A second lookup finds the same slot with its contents.
    assert_eq!(get(&mut acc, b), Some(1));
    assert_eq!(acc.accelerator(1).len(), 1);
}

#[test]
fn eviction_forgets_earlier_ids() {
    let mut acc = Accelerators::new();
    let a = id(&mut acc);
    assert_eq!(get(&mut acc, a), Some(0));
    evict(&mut acc);
    assert_eq!(get(&mut acc, a), None);
    let b = id(&mut acc);
    assert_eq!(get(&mut acc, b), Some(0));
}

#[test]
fn lookup_past_the_cap_drops_everything() {
    let mut acc = Accelerators::new();
    for _ in 0..=MAX_ACCELERATORS {
        id(&mut acc);
    }
    assert_eq!(get(&mut acc, MAX_ACCELERATORS - 1), Some(MAX_ACCELERATORS - 1));
    assert_eq!(get(&mut acc, MAX_ACCELERATORS), None);
    assert_eq!(get(&mut acc, 0), None);
    let next = id(&mut acc);
    assert_eq!(next, MAX_ACCELERATORS + 1);
    assert_eq!(get(&mut acc, next), Some(0));
}
