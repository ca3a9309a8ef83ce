use sync_store::store::{ConfigStore, ConfigTx};
use sync_store::tx_store::TxStore;

#[test]
fn test_add() {
    let mut store = ConfigStore::new();
    let tx_store = TxStore::new("foo");

    // count is 0 by default
    assert_eq!(tx_store.count(&store), 0);

    // add 3 txs
    assert!(tx_store.add(&mut store, None, 1));
    assert!(tx_store.add(&mut store, None, 2));
    assert!(tx_store.add(&mut store, None, 3));

    // cannot add again
    assert!(!tx_store.add(&mut store, None, 1));
    assert!(!tx_store.add(&mut store, None, 2));
    assert!(!tx_store.add(&mut store, None, 3));

    // count is 3 after insertion
    assert_eq!(tx_store.count(&store), 3);

    // check index of tx
    assert_eq!(tx_store.index_of(&store, 1), Some(0));
    assert_eq!(tx_store.index_of(&store, 2), Some(1));
    assert_eq!(tx_store.index_of(&store, 3), Some(2));
    assert_eq!(tx_store.index_of(&store, 4), None);

    // check tx of index
    assert_eq!(tx_store.at(&store, 0), Some(1));
    assert_eq!(tx_store.at(&store, 1), Some(2));
    assert_eq!(tx_store.at(&store, 2), Some(3));
    assert_eq!(tx_store.at(&store, 3), None);
}

#[test]
fn test_random() {
    let mut store = ConfigStore::new();
    let tx_store = TxStore::new("foo");

    assert_eq!(tx_store.random(&store), None);

    assert!(tx_store.add(&mut store, None, 1));
    assert!(tx_store.add(&mut store, None, 2));
    assert!(tx_store.add(&mut store, None, 3));

    let tx_seq = tx_store.random(&store).expect("should randomly pick one");
    assert!((1..=3).contains(&tx_seq));
}

#[test]
fn test_remove_tail() {
    let mut store = ConfigStore::new();
    let tx_store = TxStore::new("foo");

    assert!(tx_store.add(&mut store, None, 1));
    assert!(tx_store.add(&mut store, None, 2));
    assert!(tx_store.add(&mut store, None, 3));

    assert!(tx_store.remove(&mut store, None, 3));

    assert_eq!(tx_store.count(&store), 2);
    assert_eq!(tx_store.index_of(&store, 1), Some(0));
    assert_eq!(tx_store.index_of(&store, 2), Some(1));
    assert_eq!(tx_store.index_of(&store, 3), None);

    assert_eq!(tx_store.at(&store, 0), Some(1));
    assert_eq!(tx_store.at(&store, 1), Some(2));
    assert_eq!(tx_store.at(&store, 2), None);
}

#[test]
fn test_remove_swap() {
    let mut store = ConfigStore::new();
    let tx_store = TxStore::new("foo");

    assert!(tx_store.add(&mut store, None, 1));
    assert!(tx_store.add(&mut store, None, 2));
    assert!(tx_store.add(&mut store, None, 3));
    assert!(tx_store.add(&mut store, None, 4));

    assert!(tx_store.remove(&mut store, None, 2));

    assert_eq!(tx_store.count(&store), 3);
    assert_eq!(tx_store.index_of(&store, 1), Some(0));
    assert_eq!(tx_store.index_of(&store, 2), None);
    assert_eq!(tx_store.index_of(&store, 3), Some(2));
    assert_eq!(tx_store.index_of(&store, 4), Some(1));

    assert_eq!(tx_store.at(&store, 0), Some(1));
    assert_eq!(tx_store.at(&store, 1), Some(4));
    assert_eq!(tx_store.at(&store, 2), Some(3));
    assert_eq!(tx_store.at(&store, 3), None);
}

#[test]
fn keys_follow_the_schema() {
    let tx_store = TxStore::new("foo");
    assert_eq!(tx_store.key_seq_to_index(123), "sync.manager.txs.foo.seq2index.123");
    assert_eq!(tx_store.key_index_to_seq(0), "sync.manager.txs.foo.index2seq.0");
    assert_eq!(
        tx_store.key_seq_to_index(u64::MAX),
        "sync.manager.txs.foo.seq2index.18446744073709551615"
    );
}

#[test]
fn records_are_stored_under_the_schema_keys() {
    let mut store = ConfigStore::new();
    let tx_store = TxStore::new("foo");
    assert!(tx_store.add(&mut store, None, 42));
    assert_eq!(store.get_config("sync.manager.txs.foo.count"), Some(1));
    assert_eq!(store.get_config("sync.manager.txs.foo.seq2index.42"), Some(0));
    assert_eq!(store.get_config("sync.manager.txs.foo.index2seq.0"), Some(42));
}

#[test]
fn re_add_keeps_count() {
    let mut store = ConfigStore::new();
    let tx_store = TxStore::new("foo");
    for s in 1..=3u64 {
        assert!(tx_store.add(&mut store, None, s));
    }
    assert!(!tx_store.add(&mut store, None, 1));
    assert_eq!(tx_store.count(&store), 3);
}

#[test]
fn remove_absent_keeps_count() {
    let mut store = ConfigStore::new();
    let tx_store = TxStore::new("foo");
    assert!(!tx_store.remove(&mut store, None, 7));
    assert!(tx_store.add(&mut store, None, 1));
    assert!(!tx_store.remove(&mut store, None, 7));
    assert_eq!(tx_store.count(&store), 1);
    assert!(tx_store.has(&store, 1));
    assert!(!tx_store.has(&store, 7));
}

#[test]
fn slots_and_elements_stay_a_bijection() {
    let mut store = ConfigStore::new();
    let tx_store = TxStore::new("foo");
    for s in [5u64, 9, 2, 7, 11, 3] {
        assert!(tx_store.add(&mut store, None, s));
    }
    for s in [9u64, 3, 5] {
        assert!(tx_store.remove(&mut store, None, s));
    }
    let count = tx_store.count(&store);
    assert_eq!(count, 3);
    let mut present = 0;
    for s in 0..20u64 {
        if tx_store.has(&store, s) {
            present += 1;
            let i = tx_store.index_of(&store, s).unwrap();
            assert!(i < count);
            assert_eq!(tx_store.at(&store, i), Some(s));
        }
    }
    assert_eq!(present, count);
    for i in 0..count {
        let s = tx_store.at(&store, i).unwrap();
        assert_eq!(tx_store.index_of(&store, s), Some(i));
    }
}

#[test]
fn batch_writes_wait_for_commit() {
    let mut store = ConfigStore::new();
    let tx_store = TxStore::new("foo");
    let mut batch = ConfigTx::new();
    assert!(tx_store.add(&mut store, Some(&mut batch), 1));
    assert_eq!(batch.len(), 3);
    assert_eq!(tx_store.count(&store), 0);
    assert!(!tx_store.has(&store, 1));
    store.exec_configs(batch);
    assert_eq!(tx_store.count(&store), 1);
    assert_eq!(tx_store.at(&store, 0), Some(1));

    let mut batch = ConfigTx::new();
    assert!(tx_store.remove(&mut store, Some(&mut batch), 1));
    assert!(tx_store.has(&store, 1));
    store.exec_configs(batch);
    assert_eq!(tx_store.count(&store), 0);
    assert!(!tx_store.has(&store, 1));
}

#[test]
fn separate_names_do_not_share_records() {
    let mut store = ConfigStore::new();
    let a = TxStore::new("a");
    let b = TxStore::new("b");
    assert!(a.add(&mut store, None, 1));
    assert!(!b.has(&store, 1));
    assert_eq!(b.count(&store), 0);
}
