use rand::seq::IteratorRandom;
use std::collections::HashSet;
use vstd::prelude::*;

use crate::store::{ConfigStore, ConfigTx};
use crate::tx_store::{add_ops, TxStore};

verus! {

broadcast use vstd::std_specs::hash::group_hash_axioms;

/// Relies on `rand::seq::IteratorRandom::choose` over the set's iterator, which
/// returns `None` exactly when the iterator is empty and else one of its items.
#[verifier::external_body]
fn choose_cached(set: &HashSet<u64>) -> (r: Option<u64>)
    ensures
        r is None <==> set@.len() == 0,
        r matches Some(v) ==> set@.contains(v),
{
    set.iter().choose(&mut rand::thread_rng()).cloned()
}

/// A `TxStore` with a bounded in-memory sample of recently added elements,
/// which `random` prefers. A capacity of zero turns the sample off.
pub struct CachedTxStore {
    tx_store: TxStore,
    cache_cap: usize,
    cache: HashSet<u64>,
}

impl CachedTxStore {
    /// The underlying index.
    pub closed spec fn inner(&self) -> TxStore {
        self.tx_store
    }

    /// The capacity of the sample.
    pub closed spec fn cap(&self) -> nat {
        self.cache_cap as nat
    }

    /// The elements currently sampled.
    pub closed spec fn cached(&self) -> Set<u64> {
        self.cache@
    }

    pub open spec fn wf(&self) -> bool {
        &&& self.inner().wf()
        &&& self.cached().finite()
        &&& self.cached().len() <= self.cap()
    }

    pub fn new(name: &'static str, cache_cap: usize) -> (r: CachedTxStore)
        ensures
            r.wf(),
            r.inner().name() == name@,
            r.cap() == cache_cap,
            r.cached() == Set::<u64>::empty(),
    {
        CachedTxStore { tx_store: TxStore::new(name), cache_cap, cache: HashSet::new() }
    }

    /// Whether `tx_seq` is an element of the underlying index.
    pub fn has(&self, store: &ConfigStore, tx_seq: u64) -> (r: bool)
        requires
            self.wf(),
            store.wf(),
            self.inner().consistent(store@),
        ensures
            r == self.inner().has_in(store@, tx_seq),
    {
        self.tx_store.has(store, tx_seq)
    }

    /// The number of elements of the index, and the size of the sample.
    pub fn count(&self, store: &ConfigStore) -> (r: (usize, usize))
        requires
            self.wf(),
            store.wf(),
            self.inner().consistent(store@),
        ensures
            r.0 == self.inner().count_in(store@),
            r.1 == self.cached().len(),
    {
        if self.cache_cap == 0 {
            return (self.tx_store.count(store), 0);
        }
        (self.tx_store.count(store), self.cache.len())
    }

    /// Adds `tx_seq` to the index as `TxStore::add` does. Where it was new and
    /// the sample is on, it joins the sample; where the sample then exceeds its
    /// capacity, one of its elements, picked at random, leaves it.
    pub fn add(&mut self, store: &mut ConfigStore, db_tx: Option<&mut ConfigTx>, tx_seq: u64) -> (r:
        bool)
        requires
            old(self).wf(),
            old(store).wf(),
            old(self).inner().consistent(old(store)@),
            old(self).inner().count_in(old(store)@) < usize::MAX,
        ensures
            final(self).wf(),
            final(store).wf(),
            final(self).inner() == old(self).inner(),
            final(self).cap() == old(self).cap(),
            r == !old(self).inner().has_in(old(store)@, tx_seq),
            db_tx is None ==> final(store)@ == old(self).inner().added(old(store)@, tx_seq),
            db_tx is None ==> final(self).inner().consistent(final(store)@),
            db_tx is Some ==> final(store)@ == old(store)@,
            db_tx matches Some(t) ==> final(t)@ == if r {
                (*t)@ + add_ops(
                    old(self).inner().name(),
                    old(self).inner().count_in(old(store)@),
                    tx_seq,
                )
            } else {
                (*t)@
            },
            !r || old(self).cap() == 0 ==> final(self).cached() == old(self).cached(),
            r && old(self).cap() > 0 && old(self).cached().insert(tx_seq).len() <= old(self).cap()
                ==> final(self).cached() == old(self).cached().insert(tx_seq),
            r && old(self).cap() > 0 && old(self).cached().insert(tx_seq).len() > old(self).cap()
                ==> exists|v: u64|
                old(self).cached().insert(tx_seq).contains(v) && final(self).cached() == old(
                    self,
                ).cached().insert(tx_seq).remove(v),
    {
        if self.cache_cap == 0 {
            return self.tx_store.add(store, db_tx, tx_seq);
        }
        let added = self.tx_store.add(store, db_tx, tx_seq);
        if added {
            self.cache.insert(tx_seq);
            if self.cache.len() > self.cache_cap {
                let ghost grown = self.cache@;
                match choose_cached(&self.cache) {
                    Some(popped) => {
                        self.cache.remove(&popped);
                        assert(grown.contains(popped) && self.cache@ == grown.remove(popped));
                    },
                    None => {},
                }
            }
        }
        added
    }

    /// An element of the sample, picked at random, where the sample is not
    /// empty; else an element of the index as `TxStore::random` picks it.
    pub fn random(&self, store: &ConfigStore) -> (r: Option<u64>)
        requires
            self.wf(),
            store.wf(),
            self.inner().consistent(store@),
        ensures
            self.cached().len() > 0 ==> (r matches Some(v) && self.cached().contains(v)),
            self.cached().len() == 0 ==> (r is None <==> self.inner().count_in(store@) == 0),
            self.cached().len() == 0 ==> (r matches Some(v) ==> self.inner().members(
                store@,
            ).contains(v)),
    {
        if self.cache_cap == 0 {
            return self.tx_store.random(store);
        }
        if let Some(v) = choose_cached(&self.cache) {
            return Some(v);
        }
        self.tx_store.random(store)
    }

    /// Removes `tx_seq` from the index as `TxStore::remove` does; where it was
    /// there, it leaves the sample too.
    pub fn remove(&mut self, store: &mut ConfigStore, db_tx: Option<&mut ConfigTx>, tx_seq: u64) -> (r:
        bool)
        requires
            old(self).wf(),
            old(store).wf(),
            old(self).inner().consistent(old(store)@),
        ensures
            final(self).wf(),
            final(store).wf(),
            final(self).inner() == old(self).inner(),
            final(self).cap() == old(self).cap(),
            r == old(self).inner().has_in(old(store)@, tx_seq),
            db_tx is None ==> final(store)@ == old(self).inner().removed(old(store)@, tx_seq),
            db_tx is None ==> final(self).inner().consistent(final(store)@),
            db_tx is Some ==> final(store)@ == old(store)@,
            db_tx matches Some(t) ==> final(t)@ == if r {
                (*t)@ + old(self).inner().removal(old(store)@, tx_seq)
            } else {
                (*t)@
            },
            final(self).cached() == if r {
                old(self).cached().remove(tx_seq)
            } else {
                old(self).cached()
            },
    {
        if self.cache_cap == 0 {
            let r = self.tx_store.remove(store, db_tx, tx_seq);
            assert(self.cache@.len() == 0);
            assert(self.cache@.remove(tx_seq) =~= self.cache@);
            return r;
        }
        let removed = self.tx_store.remove(store, db_tx, tx_seq);
        if removed {
            self.cache.remove(&tx_seq);
        }
        removed
    }
}

} // verus!
