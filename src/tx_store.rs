use rand::Rng;
use vstd::prelude::*;

use crate::keys::{count_key, decimal_string, lemma_keys_distinct, seq_key, slot_key};
use crate::store::{apply_op, apply_ops, lemma_apply_ops_push, ConfigStore, ConfigTx};

verus! {

/// Relies on `rand::Rng::gen_range` over `0..n`, which yields a value of that range.
#[verifier::external_body]
fn random_index(n: usize) -> (r: usize)
    requires
        n > 0,
    ensures
        r < n,
{
    rand::thread_rng().gen_range(0..n)
}

/// An enumerable set of `u64` sequence numbers kept in a `ConfigStore`: each
/// element has a slot in `[0, count)`, which makes sampling and removal O(1).
pub struct TxStore {
    name: &'static str,
    key_count: String,
}

/// The three writes that put `seq` into slot `c` of an index of `c` elements.
pub open spec fn add_ops(name: Seq<char>, c: nat, seq: u64) -> Seq<(Seq<char>, Option<u64>)> {
    seq![
        (slot_key(name, c), Some(seq)),
        (seq_key(name, seq), Some(c as u64)),
        (count_key(name), Some((c + 1) as u64)),
    ]
}

/// The writes that take `seq`, at slot `i`, out of an index of `c` elements
/// whose last element is `last`: the last element moves into the freed slot.
pub open spec fn remove_ops(name: Seq<char>, c: nat, seq: u64, i: nat, last: u64) -> Seq<
    (Seq<char>, Option<u64>),
> {
    if i + 1 == c {
        seq![
            (count_key(name), Some((c - 1) as u64)),
            (seq_key(name, seq), None::<u64>),
            (slot_key(name, i), None::<u64>),
        ]
    } else {
        seq![
            (count_key(name), Some((c - 1) as u64)),
            (seq_key(name, seq), None::<u64>),
            (slot_key(name, i), Some(last)),
            (slot_key(name, (c - 1) as nat), None::<u64>),
            (seq_key(name, last), Some(i as u64)),
        ]
    }
}

impl TxStore {
    /// The namespace of this index's keys.
    pub closed spec fn name(&self) -> Seq<char> {
        self.name@
    }

    pub closed spec fn wf(&self) -> bool {
        self.key_count@ == count_key(self.name@)
    }

    /// The number of elements recorded in `m` (no record means none).
    pub open spec fn count_in(&self, m: Map<Seq<char>, u64>) -> nat {
        if m.contains_key(count_key(self.name())) {
            m[count_key(self.name())] as nat
        } else {
            0
        }
    }

    /// Whether `seq` is an element, in `m`.
    pub open spec fn has_in(&self, m: Map<Seq<char>, u64>, seq: u64) -> bool {
        m.contains_key(seq_key(self.name(), seq))
    }

    /// The slot of `seq` in `m`, if it is an element.
    pub open spec fn index_in(&self, m: Map<Seq<char>, u64>, seq: u64) -> Option<nat> {
        if self.has_in(m, seq) {
            Some(m[seq_key(self.name(), seq)] as nat)
        } else {
            None
        }
    }

    /// The element at `slot` in `m`, if that slot is filled.
    pub open spec fn at_in(&self, m: Map<Seq<char>, u64>, slot: nat) -> Option<u64> {
        if m.contains_key(slot_key(self.name(), slot)) {
            Some(m[slot_key(self.name(), slot)])
        } else {
            None
        }
    }

    /// The elements in slot order.
    pub open spec fn slots(&self, m: Map<Seq<char>, u64>) -> Seq<u64> {
        Seq::new(self.count_in(m), |i: int| m[slot_key(self.name(), i as nat)])
    }

    /// The set of elements.
    pub open spec fn members(&self, m: Map<Seq<char>, u64>) -> Set<u64> {
        Set::new(|s: u64| self.has_in(m, s))
    }

    /// The records of this index in `m` form a bijection between the elements
    /// and the slots `[0, count)`, and every slot fits a `usize`.
    pub open spec fn consistent(&self, m: Map<Seq<char>, u64>) -> bool {
        let name = self.name();
        let c = self.count_in(m);
        &&& c <= usize::MAX
        &&& forall|i: nat| i < c <==> #[trigger] m.contains_key(slot_key(name, i))
        &&& forall|i: nat|
            i < c ==> #[trigger] m.contains_key(slot_key(name, i)) && m.contains_key(
                seq_key(name, m[slot_key(name, i)]),
            ) && m[seq_key(name, m[slot_key(name, i)])] == i
        &&& forall|s: u64| #[trigger]
            m.contains_key(seq_key(name, s)) ==> m[seq_key(name, s)] < c && m[slot_key(
                name,
                m[seq_key(name, s)] as nat,
            )] == s
    }

    /// The store after `add(seq)` committed its writes.
    pub open spec fn added(&self, m: Map<Seq<char>, u64>, seq: u64) -> Map<Seq<char>, u64> {
        if self.has_in(m, seq) {
            m
        } else {
            apply_ops(m, add_ops(self.name(), self.count_in(m), seq))
        }
    }

    /// The writes of `remove(seq)` on `m`, where `seq` is an element.
    pub open spec fn removal(&self, m: Map<Seq<char>, u64>, seq: u64) -> Seq<
        (Seq<char>, Option<u64>),
    > {
        let c = self.count_in(m);
        remove_ops(
            self.name(),
            c,
            seq,
            m[seq_key(self.name(), seq)] as nat,
            m[slot_key(self.name(), (c - 1) as nat)],
        )
    }

    /// The store after `remove(seq)` committed its writes.
    pub open spec fn removed(&self, m: Map<Seq<char>, u64>, seq: u64) -> Map<Seq<char>, u64> {
        if self.has_in(m, seq) {
            apply_ops(m, self.removal(m, seq))
        } else {
            m
        }
    }

    pub fn new(name: &'static str) -> (r: TxStore)
        ensures
            r.wf(),
            r.name() == name@,
    {
        let mut key_count = "sync.manager.txs.".to_owned();
        key_count.append(name);
        key_count.append(".count");
        TxStore { name, key_count }
    }

    /// The key under which the slot of `tx_seq` is stored.
    pub fn key_seq_to_index(&self, tx_seq: u64) -> (r: String)
        ensures
            r@ == seq_key(self.name(), tx_seq),
    {
        let mut k = "sync.manager.txs.".to_owned();
        k.append(self.name);
        k.append(".seq2index.");
        let d = decimal_string(tx_seq);
        k.append(d.as_str());
        k
    }

    /// The key under which the element at `index` is stored.
    pub fn key_index_to_seq(&self, index: usize) -> (r: String)
        ensures
            r@ == slot_key(self.name(), index as nat),
    {
        let mut k = "sync.manager.txs.".to_owned();
        k.append(self.name);
        k.append(".index2seq.");
        let d = decimal_string(index as u64);
        k.append(d.as_str());
        k
    }

    /// The slot of `tx_seq`, or `None` where it is not an element.
    pub fn index_of(&self, store: &ConfigStore, tx_seq: u64) -> (r: Option<usize>)
        requires
            self.wf(),
            store.wf(),
            self.consistent(store@),
        ensures
            r == (match self.index_in(store@, tx_seq) {
                Some(i) => Some(i as usize),
                None => None::<usize>,
            }),
            r matches Some(i) ==> i < self.count_in(store@),
    {
        let key = self.key_seq_to_index(tx_seq);
        match store.get_config(key.as_str()) {
            Some(v) => Some(v as usize),
            None => None,
        }
    }

    /// The element at slot `index`, or `None` where `index >= count`.
    pub fn at(&self, store: &ConfigStore, index: usize) -> (r: Option<u64>)
        requires
            self.wf(),
            store.wf(),
            self.consistent(store@),
        ensures
            r == self.at_in(store@, index as nat),
            r is Some <==> index < self.count_in(store@),
            r matches Some(s) ==> s == self.slots(store@)[index as int],
    {
        let key = self.key_index_to_seq(index);
        store.get_config(key.as_str())
    }

    /// Whether `tx_seq` is an element.
    pub fn has(&self, store: &ConfigStore, tx_seq: u64) -> (r: bool)
        requires
            self.wf(),
            store.wf(),
            self.consistent(store@),
        ensures
            r == self.has_in(store@, tx_seq),
            r == self.members(store@).contains(tx_seq),
    {
        self.index_of(store, tx_seq).is_some()
    }

    /// The number of elements.
    pub fn count(&self, store: &ConfigStore) -> (r: usize)
        requires
            self.wf(),
            store.wf(),
            self.consistent(store@),
        ensures
            r == self.count_in(store@),
            r == self.slots(store@).len(),
    {
        match store.get_config(self.key_count.as_str()) {
            Some(v) => v as usize,
            None => 0,
        }
    }

    /// An element drawn at random over the slots, or `None` where there is none.
    pub fn random(&self, store: &ConfigStore) -> (r: Option<u64>)
        requires
            self.wf(),
            store.wf(),
            self.consistent(store@),
        ensures
            r is None <==> self.count_in(store@) == 0,
            r matches Some(s) ==> self.members(store@).contains(s) && self.slots(store@).contains(s),
    {
        let count = self.count(store);
        if count == 0 {
            return None;
        }
        let index = random_index(count);
        let r = self.at(store, index);
        proof {
            let name = self.name();
            assert(store@.contains_key(slot_key(name, index as nat)));
            assert(self.slots(store@)[index as int] == r.unwrap());
        }
        r
    }

    /// Adding an absent element puts it in the next slot and keeps the records
    /// consistent.
    pub proof fn lemma_add_preserves(&self, m: Map<Seq<char>, u64>, seq: u64)
        requires
            self.consistent(m),
            !self.has_in(m, seq),
            self.count_in(m) < usize::MAX,
        ensures
            self.consistent(self.added(m, seq)),
            self.slots(self.added(m, seq)) == self.slots(m).push(seq),
            self.members(self.added(m, seq)) == self.members(m).insert(seq),
    {
        let name = self.name();
        let c = self.count_in(m);
        let ops = add_ops(name, c, seq);
        lemma_apply_ops_push(m, Seq::empty(), ops[0]);
        lemma_apply_ops_push(m, seq![ops[0]], ops[1]);
        lemma_apply_ops_push(m, seq![ops[0], ops[1]], ops[2]);
        let m2 = m.insert(slot_key(name, c), seq).insert(seq_key(name, seq), c as u64).insert(
            count_key(name),
            (c + 1) as u64,
        );
        assert(apply_ops(m, Seq::<(Seq<char>, Option<u64>)>::empty()) == m);
        assert(Seq::<(Seq<char>, Option<u64>)>::empty().push(ops[0]) =~= seq![ops[0]]);
        assert(seq![ops[0]].push(ops[1]) =~= seq![ops[0], ops[1]]);
        assert(seq![ops[0], ops[1]].push(ops[2]) =~= ops);
        assert(ops[0] == (slot_key(name, c), Some(seq)));
        assert(ops[1] == (seq_key(name, seq), Some(c as u64)));
        assert(ops[2] == (count_key(name), Some((c + 1) as u64)));
        assert(self.added(m, seq) == m2);
        lemma_keys_distinct(name);
        assert(self.count_in(m2) == c + 1);
        assert forall|i: nat| i < c + 1 <==> #[trigger] m2.contains_key(slot_key(name, i)) by {
            if i != c {
                assert(m2.contains_key(slot_key(name, i)) == m.contains_key(slot_key(name, i)));
            }
        }
        assert forall|i: nat|
            i < c + 1 implies #[trigger] m2.contains_key(slot_key(name, i)) && m2.contains_key(
                seq_key(name, m2[slot_key(name, i)]),
            ) && m2[seq_key(name, m2[slot_key(name, i)])] == i by {
            if i < c {
                assert(m.contains_key(slot_key(name, i)));
                let t = m[slot_key(name, i)];
                assert(m.contains_key(seq_key(name, t)));
                assert(t != seq);
            }
        }
        assert forall|s: u64| #[trigger]
            m2.contains_key(seq_key(name, s)) implies m2[seq_key(name, s)] < c + 1 && m2[slot_key(
                name,
                m2[seq_key(name, s)] as nat,
            )] == s by {
            if s != seq {
                assert(m.contains_key(seq_key(name, s)));
            }
        }
        assert(self.slots(m2) =~= self.slots(m).push(seq));
        assert(self.members(m2) =~= self.members(m).insert(seq));
    }

    /// Adds `tx_seq`; returns whether it was absent. Where `db_tx` is given the
    /// writes are appended to it and the store is left alone, else they are
    /// committed at once.
    pub fn add(&self, store: &mut ConfigStore, db_tx: Option<&mut ConfigTx>, tx_seq: u64) -> (r:
        bool)
        requires
            self.wf(),
            old(store).wf(),
            self.consistent(old(store)@),
            self.count_in(old(store)@) < usize::MAX,
        ensures
            final(store).wf(),
            r == !self.has_in(old(store)@, tx_seq),
            r == !self.members(old(store)@).contains(tx_seq),
            db_tx is None ==> final(store)@ == self.added(old(store)@, tx_seq),
            db_tx is None ==> self.consistent(final(store)@),
            db_tx is None ==> self.slots(final(store)@) == if r {
                self.slots(old(store)@).push(tx_seq)
            } else {
                self.slots(old(store)@)
            },
            db_tx is None ==> self.members(final(store)@) == self.members(old(store)@).insert(
                tx_seq,
            ),
            db_tx is Some ==> final(store)@ == old(store)@,
            db_tx matches Some(t) ==> final(t)@ == if r {
                (*t)@ + add_ops(self.name(), self.count_in(old(store)@), tx_seq)
            } else {
                (*t)@
            },
    {
        if self.has(store, tx_seq) {
            proof {
                assert(self.members(old(store)@).insert(tx_seq) =~= self.members(old(store)@));
            }
            return false;
        }
        let count = self.count(store);
        let mut tx = ConfigTx::new();
        let k1 = self.key_index_to_seq(count);
        tx.set_config(k1.as_str(), tx_seq);
        let k2 = self.key_seq_to_index(tx_seq);
        tx.set_config(k2.as_str(), count as u64);
        tx.set_config(self.key_count.as_str(), (count + 1) as u64);
        assert(tx@ =~= add_ops(self.name(), count as nat, tx_seq));
        proof {
            self.lemma_add_preserves(store@, tx_seq);
        }
        match db_tx {
            Some(t) => {
                t.append(&mut tx);
            },
            None => {
                store.exec_configs(tx);
            },
        }
        true
    }

    /// Removing an element moves the last element into its slot and keeps the
    /// records consistent.
    pub proof fn lemma_remove_preserves(&self, m: Map<Seq<char>, u64>, seq: u64)
        requires
            self.consistent(m),
            self.has_in(m, seq),
        ensures
            self.consistent(self.removed(m, seq)),
            self.slots(self.removed(m, seq)) == self.slots(m).update(
                m[seq_key(self.name(), seq)] as int,
                self.slots(m).last(),
            ).drop_last(),
            self.members(self.removed(m, seq)) == self.members(m).remove(seq),
    {
        let name = self.name();
        let c = self.count_in(m);
        let i = m[seq_key(name, seq)] as nat;
        let last = m[slot_key(name, (c - 1) as nat)];
        let ops = self.removal(m, seq);
        lemma_keys_distinct(name);
        assert(c > 0);
        assert(m.contains_key(slot_key(name, (c - 1) as nat)));
        assert(m.contains_key(count_key(name)));
        lemma_apply_ops_push(m, Seq::empty(), ops[0]);
        lemma_apply_ops_push(m, seq![ops[0]], ops[1]);
        lemma_apply_ops_push(m, seq![ops[0], ops[1]], ops[2]);
        assert(apply_ops(m, Seq::<(Seq<char>, Option<u64>)>::empty()) == m);
        assert(Seq::<(Seq<char>, Option<u64>)>::empty().push(ops[0]) =~= seq![ops[0]]);
        assert(seq![ops[0]].push(ops[1]) =~= seq![ops[0], ops[1]]);
        let m1 = m.insert(count_key(name), (c - 1) as u64).remove(seq_key(name, seq));
        let s0 = self.slots(m);
        let s2 = s0.update(i as int, last).drop_last();
        if i + 1 == c {
            assert(seq![ops[0], ops[1]].push(ops[2]) =~= ops);
            let m2 = m1.remove(slot_key(name, i));
            assert(self.removed(m, seq) == m2);
            assert(self.count_in(m2) == c - 1);
            assert forall|j: nat| j < c - 1 <==> #[trigger] m2.contains_key(slot_key(name, j)) by {
                if j != i {
                    assert(m2.contains_key(slot_key(name, j)) == m.contains_key(slot_key(name, j)));
                }
            }
            assert forall|j: nat|
                j < c - 1 implies #[trigger] m2.contains_key(slot_key(name, j)) && m2.contains_key(
                    seq_key(name, m2[slot_key(name, j)]),
                ) && m2[seq_key(name, m2[slot_key(name, j)])] == j by {
                assert(m.contains_key(slot_key(name, j)));
                let t = m[slot_key(name, j)];
                assert(m.contains_key(seq_key(name, t)));
            }
            assert forall|s: u64| #[trigger]
                m2.contains_key(seq_key(name, s)) implies m2[seq_key(name, s)] < c - 1
                && m2[slot_key(name, m2[seq_key(name, s)] as nat)] == s by {
                assert(m.contains_key(seq_key(name, s)));
                let j = m[seq_key(name, s)];
                assert(m.contains_key(slot_key(name, j as nat)));
            }
            assert(self.slots(m2) =~= s2);
            assert(self.members(m2) =~= self.members(m).remove(seq));
        } else {
            lemma_apply_ops_push(m, seq![ops[0], ops[1], ops[2]], ops[3]);
            lemma_apply_ops_push(m, seq![ops[0], ops[1], ops[2], ops[3]], ops[4]);
            assert(seq![ops[0], ops[1]].push(ops[2]) =~= seq![ops[0], ops[1], ops[2]]);
            assert(seq![ops[0], ops[1], ops[2]].push(ops[3]) =~= seq![ops[0], ops[1], ops[2], ops[3]]);
            assert(seq![ops[0], ops[1], ops[2], ops[3]].push(ops[4]) =~= ops);
            assert(m.contains_key(seq_key(name, last)));
            assert(last != seq);
            let m2 = m1.insert(slot_key(name, i), last).remove(slot_key(name, (c - 1) as nat)).insert(
                seq_key(name, last),
                i as u64,
            );
            assert(self.removed(m, seq) == m2);
            assert(self.count_in(m2) == c - 1);
            assert forall|j: nat| j < c - 1 <==> #[trigger] m2.contains_key(slot_key(name, j)) by {
                if j != i && j != c - 1 {
                    assert(m2.contains_key(slot_key(name, j)) == m.contains_key(slot_key(name, j)));
                }
            }
            assert forall|j: nat|
                j < c - 1 implies #[trigger] m2.contains_key(slot_key(name, j)) && m2.contains_key(
                    seq_key(name, m2[slot_key(name, j)]),
                ) && m2[seq_key(name, m2[slot_key(name, j)])] == j by {
                if j != i {
                    assert(m.contains_key(slot_key(name, j)));
                    let t = m[slot_key(name, j)];
                    assert(m.contains_key(seq_key(name, t)));
                    assert(t != seq);
                    assert(t != last);
                }
            }
            assert forall|s: u64| #[trigger]
                m2.contains_key(seq_key(name, s)) implies m2[seq_key(name, s)] < c - 1
                && m2[slot_key(name, m2[seq_key(name, s)] as nat)] == s by {
                if s != last {
                    assert(m.contains_key(seq_key(name, s)));
                    let j = m[seq_key(name, s)];
                    assert(m.contains_key(slot_key(name, j as nat)));
                    assert(j != c - 1);
                    assert(j != i);
                }
            }
            assert(self.slots(m2) =~= s2);
            assert(self.members(m2) =~= self.members(m).remove(seq));
        }
    }

    /// Removes `tx_seq`; returns whether it was present. The last element moves
    /// into the freed slot. Where `db_tx` is given the writes are appended to it
    /// and the store is left alone, else they are committed at once.
    pub fn remove(&self, store: &mut ConfigStore, db_tx: Option<&mut ConfigTx>, tx_seq: u64) -> (r:
        bool)
        requires
            self.wf(),
            old(store).wf(),
            self.consistent(old(store)@),
        ensures
            final(store).wf(),
            r == self.has_in(old(store)@, tx_seq),
            r == self.members(old(store)@).contains(tx_seq),
            r ==> old(store)@[seq_key(self.name(), tx_seq)] < self.count_in(old(store)@)
                && self.slots(old(store)@)[old(store)@[seq_key(self.name(), tx_seq)] as int]
                == tx_seq,
            db_tx is None ==> final(store)@ == self.removed(old(store)@, tx_seq),
            db_tx is None ==> self.consistent(final(store)@),
            db_tx is None ==> self.slots(final(store)@) == if r {
                self.slots(old(store)@).update(
                    old(store)@[seq_key(self.name(), tx_seq)] as int,
                    self.slots(old(store)@).last(),
                ).drop_last()
            } else {
                self.slots(old(store)@)
            },
            db_tx is None ==> self.members(final(store)@) == self.members(old(store)@).remove(
                tx_seq,
            ),
            db_tx is Some ==> final(store)@ == old(store)@,
            db_tx matches Some(t) ==> final(t)@ == if r {
                (*t)@ + self.removal(old(store)@, tx_seq)
            } else {
                (*t)@
            },
    {
        let index = match self.index_of(store, tx_seq) {
            Some(val) => val,
            None => {
                proof {
                    assert(self.members(old(store)@).remove(tx_seq) =~= self.members(old(store)@));
                }
                return false;
            },
        };
        let count = self.count(store);
        let ghost name = self.name();
        proof {
            lemma_keys_distinct(name);
            assert(store@.contains_key(slot_key(name, (count - 1) as nat)));
        }
        let mut tx = ConfigTx::new();
        tx.set_config(self.key_count.as_str(), (count - 1) as u64);
        let k = self.key_seq_to_index(tx_seq);
        tx.remove_config(k.as_str());
        if index == count - 1 {
            let k = self.key_index_to_seq(index);
            tx.remove_config(k.as_str());
        } else {
            let last_tx = self.at(store, count - 1).unwrap();
            let k = self.key_index_to_seq(index);
            tx.set_config(k.as_str(), last_tx);
            let k = self.key_index_to_seq(count - 1);
            tx.remove_config(k.as_str());
            let k = self.key_seq_to_index(last_tx);
            tx.set_config(k.as_str(), index as u64);
        }
        assert(tx@ =~= self.removal(old(store)@, tx_seq));
        proof {
            self.lemma_remove_preserves(store@, tx_seq);
        }
        match db_tx {
            Some(t) => {
                t.append(&mut tx);
            },
            None => {
                store.exec_configs(tx);
            },
        }
        true
    }

    /// A store without any record of the index holds it empty and consistent.
    pub proof fn lemma_empty_consistent(&self)
        ensures
            self.consistent(Map::empty()),
            self.count_in(Map::empty()) == 0,
            self.members(Map::empty()) == Set::<u64>::empty(),
    {
        assert(self.members(Map::empty()) =~= Set::<u64>::empty());
    }

    /// The count equals the number of elements for which `has` holds.
    pub proof fn law_count_is_number_of_members(&self, m: Map<Seq<char>, u64>)
        requires
            self.consistent(m),
        ensures
            self.members(m).finite(),
            self.count_in(m) == self.members(m).len(),
    {
        let name = self.name();
        let sl = self.slots(m);
        assert forall|a: int, b: int| 0 <= a < sl.len() && 0 <= b < sl.len() && a != b implies sl[a]
            != sl[b] by {
            assert(m.contains_key(slot_key(name, a as nat)));
            assert(m.contains_key(slot_key(name, b as nat)));
        }
        assert(sl.no_duplicates());
        assert forall|s: u64| self.members(m).contains(s) <==> sl.to_set().contains(s) by {
            if self.members(m).contains(s) {
                let j = m[seq_key(name, s)] as int;
                assert(sl[j] == s);
            }
            if sl.to_set().contains(s) {
                let j = choose|j: int| 0 <= j < sl.len() && sl[j] == s;
                assert(m.contains_key(slot_key(name, j as nat)));
            }
        }
        assert(self.members(m) =~= sl.to_set());
        sl.unique_seq_to_set();
    }

    /// Every element has a slot below the count, and that slot holds it.
    pub proof fn law_index_then_at(&self, m: Map<Seq<char>, u64>, seq: u64)
        requires
            self.consistent(m),
            self.has_in(m, seq),
        ensures
            self.index_in(m, seq) matches Some(i) && i < self.count_in(m) && self.at_in(m, i)
                == Some(seq),
    {
        let i = m[seq_key(self.name(), seq)] as nat;
        assert(m.contains_key(slot_key(self.name(), i)));
    }

    /// Every slot below the count holds an element whose slot is that one.
    pub proof fn law_at_then_index(&self, m: Map<Seq<char>, u64>, i: nat)
        requires
            self.consistent(m),
            i < self.count_in(m),
        ensures
            self.at_in(m, i) matches Some(s) && self.index_in(m, s) == Some(i),
    {
        assert(m.contains_key(slot_key(self.name(), i)));
    }

    /// Adding an element twice changes the store once: the second `add` finds
    /// it present (and so returns `false`) and leaves store and count alone.
    pub proof fn law_add_idempotent(&self, m: Map<Seq<char>, u64>, seq: u64)
        requires
            self.consistent(m),
            self.count_in(m) < usize::MAX,
        ensures
            self.has_in(self.added(m, seq), seq),
            self.added(self.added(m, seq), seq) == self.added(m, seq),
            self.count_in(self.added(self.added(m, seq), seq)) == self.count_in(self.added(m, seq)),
    {
        if !self.has_in(m, seq) {
            self.lemma_add_preserves(m, seq);
            assert(self.members(self.added(m, seq)).contains(seq));
        }
    }

    /// Removing an absent element leaves the store, and so the count, alone.
    pub proof fn law_remove_absent(&self, m: Map<Seq<char>, u64>, seq: u64)
        requires
            self.consistent(m),
            !self.has_in(m, seq),
        ensures
            self.removed(m, seq) == m,
            self.count_in(self.removed(m, seq)) == self.count_in(m),
    {
    }
}

} // verus!
