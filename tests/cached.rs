use sync_store::cached::CachedTxStore;
use sync_store::store::ConfigStore;

#[test]
fn cache_evicts_down_to_capacity() {
    let mut store = ConfigStore::new();
    let mut cached = CachedTxStore::new("foo", 2);
    assert!(cached.add(&mut store, None, 10));
    assert!(cached.add(&mut store, None, 20));
    assert_eq!(cached.count(&store), (2, 2));
    assert!(cached.add(&mut store, None, 30));
    assert_eq!(cached.count(&store), (3, 2));
}

#[test]
fn cache_off_passes_through() {
    let mut store = ConfigStore::new();
    let mut cached = CachedTxStore::new("foo", 0);
    assert_eq!(cached.random(&store), None);
    assert!(cached.add(&mut store, None, 10));
    assert!(!cached.add(&mut store, None, 10));
    assert_eq!(cached.count(&store), (1, 0));
    assert_eq!(cached.random(&store), Some(10));
    assert!(cached.has(&store, 10));
    assert!(cached.remove(&mut store, None, 10));
    assert_eq!(cached.count(&store), (0, 0));
}

#[test]
fn random_prefers_the_cache() {
    let mut store = ConfigStore::new();
    let mut cached = CachedTxStore::new("foo", 1);
    assert!(cached.add(&mut store, None, 1));
    assert!(cached.add(&mut store, None, 2));
    assert_eq!(cached.count(&store), (2, 1));
    let v = cached.random(&store).unwrap();
    assert!(v == 1 || v == 2);
    // remove the sampled element: the sample empties, and random falls back
    assert!(cached.remove(&mut store, None, v));
    assert_eq!(cached.count(&store), (1, 0));
    assert_eq!(cached.random(&store), Some(3 - v));
}

#[test]
fn remove_purges_the_cache() {
    let mut store = ConfigStore::new();
    let mut cached = CachedTxStore::new("foo", 4);
    assert!(cached.add(&mut store, None, 1));
    assert!(cached.add(&mut store, None, 2));
    assert!(cached.remove(&mut store, None, 1));
    assert!(!cached.remove(&mut store, None, 1));
    assert_eq!(cached.count(&store), (1, 1));
    assert_eq!(cached.random(&store), Some(2));
}
