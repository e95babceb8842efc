use mempool::MemPool;
use mempool::PooledMem;

#[test]
fn assert_simple_functioning() {
    let mut mem_pool = MemPool::new(1, 1, || Vec::<u8>::with_capacity(4096));

    let option = mem_pool.try_pull();

    assert!(option.is_some());

    assert!(mem_pool.try_pull().is_none());

    {
        let mem = option.unwrap();

        mem.release(&mut mem_pool);
    }

    assert!(mem_pool.try_pull().is_some());
}

#[test]
fn detach_then_attach() {
    let mut pool = MemPool::new(1, 1, Vec::<u8>::new);
    let mut object = pool.try_pull().unwrap().detach();
    object.push(1);
    pool.re_attach(0, object);
    assert_eq!(pool.try_pull().unwrap().mem()[0], 1);
}

#[test]
fn pull() {
    let mut pool = MemPool::new(1, 1, Vec::<u8>::new);

    let object1 = pool.try_pull();
    let object2 = pool.try_pull();
    assert!(object1.is_some());
    assert!(object2.is_none());

    let object3 = pool.try_pull_with_fallback(Vec::new);

    object1.unwrap().release(&mut pool);
    // the shard is at capacity again, so the fallback object is shed
    object3.release(&mut pool);
    assert_eq!(pool.shard_len(0), 1);
}

#[test]
fn e2e() {
    let mut pool = MemPool::new(10, 1, Vec::<u8>::new);
    let mut objects = Vec::new();

    for i in 0..10u8 {
        let mut object = pool.try_pull_any_shard().unwrap();
        object.mem_mut().push(i);
        objects.push(object);
    }

    assert!(pool.try_pull_any_shard().is_none());

    let mut by_bucket = vec![0u8; 10];
    for object in objects {
        by_bucket[object.bucket()] = *object.mem().last().unwrap();
        object.release(&mut pool);
    }

    for _ in 0..10 {
        let mut object = pool.try_pull_any_shard().unwrap();
        let bucket = object.bucket();
        assert_eq!(object.mem_mut().pop(), Some(by_bucket[bucket]));
        object.release(&mut pool);
    }
}

#[test]
fn exhaustion_then_recovery() {
    let mut pool = MemPool::new(4, 2, || vec![0u8; 4]);

    let mut handles = Vec::new();
    for _ in 0..8 {
        handles.push(pool.try_pull_any_shard().expect("pool holds eight items"));
    }
    assert!(pool.try_pull_any_shard().is_none());

    for handle in handles {
        handle.release(&mut pool);
    }

    for _ in 0..8 {
        let handle = pool.try_pull_any_shard().expect("all eight items came back");
        handle.detach();
    }
    assert!(pool.try_pull_any_shard().is_none());
}

#[test]
fn freeze_clone_release_last_owner_returns() {
    let mut pool = MemPool::new(1, 1, || 42u64);

    let handle = pool.try_pull().unwrap();
    let mut shared = handle.freeze();
    shared.clone_ref();
    shared.clone_ref();
    shared.clone_ref();
    assert_eq!(shared.owner_count(), 4);

    let mut current = shared;
    for _ in 0..3 {
        current = current.release_owner(&mut pool).expect("owners remain");
        assert!(pool.try_pull().is_none());
    }

    assert!(current.release_owner(&mut pool).is_none());
    assert_eq!(*pool.try_pull().unwrap().mem(), 42);
}

#[test]
fn return_when_full_is_shed() {
    let mut pool = MemPool::new(2, 1, || 1u32);
    assert_eq!(pool.shard_len(0), 1);
    assert_eq!(pool.shard_len(1), 1);

    pool.re_attach(0, 9);
    assert_eq!(pool.shard_len(0), 1);
    assert_eq!(pool.shard_len(1), 1);

    pool.return_item(9);
    assert_eq!(pool.shard_len(0), 1);
    assert_eq!(pool.shard_len(1), 1);
}

#[test]
fn unfreeze_with_outstanding_clone_fails() {
    let mut pool = MemPool::new(1, 1, || 5i32);

    let handle = pool.try_pull().unwrap();
    let mut shared = handle.freeze();
    shared.clone_ref();

    let result = shared.unfreeze();
    assert!(result.is_err());

    // the lease survives the refused unfreeze, with both owners intact
    let shared = result.err().unwrap();
    assert_eq!(shared.owner_count(), 2);
}

#[test]
fn unfreeze_single_owner_restores_exclusive() {
    let mut pool = MemPool::new(3, 1, || 5i32);

    let handle = pool.try_pull().unwrap();
    let bucket = handle.bucket();
    let shared = handle.freeze();
    assert_eq!(shared.owner_count(), 1);

    let handle = shared.unfreeze().ok().unwrap();
    assert_eq!(*handle.mem(), 5);
    assert_eq!(handle.bucket(), bucket);
}

#[test]
fn try_pull_does_not_probe_other_shards() {
    let mut pool = MemPool::new(2, 1, || 3u16);

    let h0 = pool.try_pull().unwrap();
    let h1 = pool.try_pull().unwrap();
    h1.release(&mut pool);

    // shard 0 is empty and the cheap pull targets it without probing
    assert!(pool.try_pull().is_none());
    // the probing pull finds the item in the other shard
    assert!(pool.try_pull_any_shard().is_some());
    h0.release(&mut pool);
}

#[test]
fn return_probes_forward_from_full_shard() {
    let mut pool = MemPool::new(2, 2, || 0u8);

    let a = pool.try_pull().unwrap();
    let b = pool.try_pull().unwrap();
    let c = pool.try_pull().unwrap();
    a.detach();
    b.detach();
    c.detach();
    assert_eq!(pool.shard_len(0), 0);
    assert_eq!(pool.shard_len(1), 1);

    pool.re_attach(0, 1);
    pool.re_attach(0, 2);
    assert_eq!(pool.shard_len(0), 2);

    // shard 0 is full, so the return probes on to shard 1
    pool.re_attach(0, 3);
    assert_eq!(pool.shard_len(0), 2);
    assert_eq!(pool.shard_len(1), 2);
}

#[test]
fn fallback_manufactures_when_exhausted() {
    let mut pool = MemPool::new(2, 1, || 1u8);

    let a = pool.try_pull_any_shard().unwrap();
    let b = pool.try_pull_any_shard().unwrap();

    let c = pool.try_pull_with_fallback(|| 77u8);
    assert_eq!(*c.mem(), 77);
    assert!(c.bucket() < 2);

    a.release(&mut pool);
    b.release(&mut pool);
    // two shards of capacity one: one of the three returns is shed
    c.release(&mut pool);
    assert_eq!(pool.shard_len(0) + pool.shard_len(1), 2);
}

#[test]
fn pull_returns_most_recently_returned_item() {
    let mut pool = MemPool::new(1, 2, || 0u32);

    let mut handle = pool.try_pull().unwrap();
    *handle.mem_mut() = 10;
    handle.release(&mut pool);

    // within one shard the most recently returned item is pulled first
    assert_eq!(*pool.try_pull().unwrap().mem(), 10);
}

#[test]
fn detached_item_never_reappears() {
    let mut pool = MemPool::new(1, 1, || vec![9u8]);

    let handle = pool.try_pull().unwrap();
    let item = handle.detach();
    assert_eq!(item, vec![9u8]);

    assert!(pool.try_pull().is_none());
    assert!(pool.try_pull_any_shard().is_none());
}
