use asset_core::pool::ResourcePool;
use asset_core::registry::add_local_resource;
use asset_core::registry::with_local_resource;
use asset_core::registry::with_local_resource_pool;
use asset_core::registry::RegistryError;
use asset_core::registry::ResourceRegistry;

#[test]
fn pool_round_trip() {
    let mut pool: ResourcePool<String> = ResourcePool::new();
    let handle = pool.add(String::from("tex"));
    assert_eq!(pool.get(&handle), "tex");
}

#[test]
fn pool_indices_are_stable_and_sequential() {
    let mut pool: ResourcePool<u32> = ResourcePool::new();
    let a = pool.add(10);
    let b = pool.add(20);
    let c = pool.add(30);
    assert_eq!(a.idx(), 0);
    assert_eq!(b.idx(), 1);
    assert_eq!(c.idx(), 2);
    assert_eq!(*pool.get(&a), 10);
    assert_eq!(*pool.get(&b), 20);
    assert_eq!(*pool.get(&c), 30);
}

#[test]
fn pool_get_mut_updates_in_place() {
    let mut pool: ResourcePool<u32> = ResourcePool::new();
    let handle = pool.add(1);
    *pool.get_mut(&handle) = 99;
    assert_eq!(*pool.get(&handle), 99);
}

#[test]
fn release_of_last_handle_hands_value_back() {
    let mut pool: ResourcePool<String> = ResourcePool::new();
    let handle = pool.add(String::from("gone"));
    let back = pool.release(handle);
    assert_eq!(back, Some(String::from("gone")));
}

#[test]
fn freed_slot_is_reused_lifo_before_growth() {
    let mut pool: ResourcePool<u32> = ResourcePool::new();
    let _keep = pool.add(1);
    let freed = pool.add(2);
    let freed_idx = freed.idx();
    assert!(pool.release(freed).is_some());
    let reused = pool.add(3);
    assert_eq!(reused.idx(), freed_idx);
    assert_eq!(*pool.get(&reused), 3);
}

#[test]
fn two_freed_slots_come_back_newest_first() {
    let mut pool: ResourcePool<u32> = ResourcePool::new();
    let a = pool.add(1);
    let b = pool.add(2);
    let a_idx = a.idx();
    let b_idx = b.idx();
    pool.release(a);
    pool.release(b);
    let first = pool.add(3);
    let second = pool.add(4);
    assert_eq!(first.idx(), b_idx);
    assert_eq!(second.idx(), a_idx);
}

#[test]
fn counter_tracks_live_copies_through_clone_and_release() {
    let mut pool: ResourcePool<u32> = ResourcePool::new();
    let first = pool.add(7);
    assert_eq!(pool.ref_count(&first), 1);
    let second = pool.clone_handle(&first);
    assert_eq!(pool.ref_count(&first), 2);
    let third = pool.clone_handle(&second);
    assert_eq!(pool.ref_count(&first), 3);
    assert!(pool.release(third).is_none());
    assert_eq!(pool.ref_count(&first), 2);
    assert!(pool.release(second).is_none());
    assert_eq!(pool.ref_count(&first), 1);
    assert_eq!(pool.release(first), Some(7));
}

#[test]
fn holds_reports_slot_state() {
    let mut pool: ResourcePool<u32> = ResourcePool::new();
    let handle = pool.add(5);
    let stale = pool.clone_handle(&handle);
    assert!(pool.holds(&handle));
    pool.release(handle);
    assert!(pool.holds(&stale));
    pool.release(stale);
    // Both copies discarded: the slot is vacant again.
    let probe = pool.add(6);
    assert_eq!(probe.idx(), 0);
}

#[test]
fn reused_slot_rejects_handles_from_before_the_free() {
    let mut pool: ResourcePool<u32> = ResourcePool::new();
    // A handle with the same coordinates a stored or serialized handle
    // would carry: slot zero, generation zero.
    let mut twin_pool: ResourcePool<u32> = ResourcePool::new();
    let old_handle = twin_pool.add(1);
    let h = pool.add(1);
    assert_eq!(pool.release(h), Some(1));
    let h2 = pool.add(2);
    assert_eq!(h2.idx(), old_handle.idx());
    assert_eq!(old_handle.generation(), 0);
    assert_eq!(h2.generation(), 1);
    // The reused slot answers only to the new generation.
    assert!(!pool.holds(&old_handle));
    assert!(pool.holds(&h2));
}

#[test]
fn update_with_replaces_the_value() {
    let mut pool: ResourcePool<u32> = ResourcePool::new();
    let handle = pool.add(10);
    pool.update_with(&handle, |v| v + 1);
    assert_eq!(*pool.get(&handle), 11);
}

#[test]
fn registry_add_then_modify() {
    let mut registry: ResourceRegistry<u32> = ResourceRegistry::new(1);
    let handle = add_local_resource(&mut registry, 41);
    let outcome = with_local_resource(&mut registry, &handle, |v| v + 1);
    assert_eq!(outcome, Ok(()));
    let mut seen = 0;
    let outcome = with_local_resource_pool(&mut registry, |pool| {
        seen = *pool.get(&handle);
        pool
    });
    assert_eq!(outcome, Ok(()));
    assert_eq!(seen, 42);
}

#[test]
fn registry_pools_are_created_lazily() {
    let mut registry: ResourceRegistry<u32> = ResourceRegistry::new(1);
    let outcome = with_local_resource_pool(&mut registry, |pool| pool);
    assert_eq!(outcome, Err(RegistryError::NotFound));
    add_local_resource(&mut registry, 1);
    let outcome = with_local_resource_pool(&mut registry, |pool| pool);
    assert_eq!(outcome, Ok(()));
}

#[test]
fn handle_from_one_scope_fails_in_another() {
    // Two scopes stand in for two threads: each would own its registry, and
    // a handle carried across must fail to resolve, never alias a resource.
    let mut first: ResourceRegistry<u32> = ResourceRegistry::new(1);
    let mut second: ResourceRegistry<u32> = ResourceRegistry::new(2);
    let foreign = add_local_resource(&mut first, 5);
    let local = add_local_resource(&mut second, 500);
    let outcome = with_local_resource(&mut second, &foreign, |v| v + 1);
    assert_eq!(outcome, Err(RegistryError::NotFound));
    // The resource in the second scope is untouched.
    let mut seen = 0;
    with_local_resource_pool(&mut second, |pool| {
        seen = *pool.get(&local);
        pool
    })
    .unwrap();
    assert_eq!(seen, 500);
}

#[test]
fn lookup_in_scope_without_pool_fails() {
    let mut first: ResourceRegistry<u32> = ResourceRegistry::new(1);
    let mut empty: ResourceRegistry<u32> = ResourceRegistry::new(3);
    let handle = add_local_resource(&mut first, 5);
    let outcome = with_local_resource(&mut empty, &handle, |v| v);
    assert_eq!(outcome, Err(RegistryError::NotFound));
}

#[test]
fn stale_handle_is_reported_invalid() {
    let mut registry: ResourceRegistry<u32> = ResourceRegistry::new(9);
    let handle = add_local_resource(&mut registry, 5);
    let mut stale = None;
    with_local_resource_pool(&mut registry, |mut pool| {
        stale = Some(pool.clone_handle(&handle));
        pool
    })
    .unwrap();
    let stale = stale.unwrap();
    with_local_resource_pool(&mut registry, |mut pool| {
        assert!(pool.release(handle).is_none());
        pool
    })
    .unwrap();
    let mut vacated = false;
    with_local_resource_pool(&mut registry, |mut pool| {
        vacated = pool.release(stale).is_some();
        pool
    })
    .unwrap();
    assert!(vacated);
    // Reach the now-vacant slot with a fresh handle minted before the free:
    // the registry reports it invalid instead of yielding stale data.
    let mut probe: ResourceRegistry<u32> = ResourceRegistry::new(9);
    let twin = add_local_resource(&mut probe, 1);
    let outcome = with_local_resource(&mut registry, &twin, |v| v);
    assert_eq!(outcome, Err(RegistryError::InvalidHandle));
}
