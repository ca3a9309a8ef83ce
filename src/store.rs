use vstd::prelude::*;

verus! {

/// What one write of a batch does to a map of configuration values:
/// `Some(v)` sets the key to `v`, `None` deletes it.
pub open spec fn apply_op(m: Map<Seq<char>, u64>, op: (Seq<char>, Option<u64>)) -> Map<
    Seq<char>,
    u64,
> {
    match op.1 {
        Some(v) => m.insert(op.0, v),
        None => m.remove(op.0),
    }
}

/// The map after applying every write of `ops`, in order.
pub open spec fn apply_ops(m: Map<Seq<char>, u64>, ops: Seq<(Seq<char>, Option<u64>)>) -> Map<
    Seq<char>,
    u64,
>
    decreases ops.len(),
{
    if ops.len() == 0 {
        m
    } else {
        apply_op(apply_ops(m, ops.drop_last()), ops.last())
    }
}

/// Applying a batch with one more write applies that write last.
pub proof fn lemma_apply_ops_push(
    m: Map<Seq<char>, u64>,
    ops: Seq<(Seq<char>, Option<u64>)>,
    op: (Seq<char>, Option<u64>),
)
    ensures
        apply_ops(m, ops.push(op)) == apply_op(apply_ops(m, ops), op),
{
    assert(ops.push(op).drop_last() =~= ops);
}

/// An ordered batch of configuration writes, committed as one unit.
pub struct ConfigTx {
    ops: Vec<(String, Option<u64>)>,
}

impl View for ConfigTx {
    type V = Seq<(Seq<char>, Option<u64>)>;

    closed spec fn view(&self) -> Seq<(Seq<char>, Option<u64>)> {
        self.ops@.map_values(|op: (String, Option<u64>)| (op.0@, op.1))
    }
}

impl ConfigTx {
    pub fn new() -> (r: ConfigTx)
        ensures
            r@ == Seq::<(Seq<char>, Option<u64>)>::empty(),
    {
        let r = ConfigTx { ops: Vec::new() };
        assert(r@ =~= Seq::<(Seq<char>, Option<u64>)>::empty());
        r
    }

    /// Records that `key` is to be set to `value`.
    pub fn set_config(&mut self, key: &str, value: u64)
        ensures
            final(self)@ == old(self)@.push((key@, Some(value))),
    {
        self.ops.push((key.to_owned(), Some(value)));
        assert(self@ =~= old(self)@.push((key@, Some(value))));
    }

    /// Records that `key` is to be deleted.
    pub fn remove_config(&mut self, key: &str)
        ensures
            final(self)@ == old(self)@.push((key@, None)),
    {
        self.ops.push((key.to_owned(), None));
        assert(self@ =~= old(self)@.push((key@, None)));
    }

    /// Moves every write of `other` to the end of this batch.
    pub fn append(&mut self, other: &mut ConfigTx)
        ensures
            final(self)@ == old(self)@ + old(other)@,
            final(other)@ == Seq::<(Seq<char>, Option<u64>)>::empty(),
    {
        self.ops.append(&mut other.ops);
        assert(self@ =~= old(self)@ + old(other)@);
        assert(other@ =~= Seq::<(Seq<char>, Option<u64>)>::empty());
    }

    pub fn len(&self) -> (r: usize)
        ensures
            r == self@.len(),
    {
        self.ops.len()
    }
}

/// An in-memory key/value store of configuration values, with atomic batches.
pub struct ConfigStore {
    entries: Vec<(String, u64)>,
    contents: Ghost<Map<Seq<char>, u64>>,
}

impl View for ConfigStore {
    type V = Map<Seq<char>, u64>;

    closed spec fn view(&self) -> Map<Seq<char>, u64> {
        self.contents@
    }
}

impl ConfigStore {
    /// The entries hold each key once, and hold exactly the modelled map.
    pub closed spec fn wf(&self) -> bool {
        &&& forall|i: int, j: int|
            0 <= i < j < self.entries@.len() ==> self.entries@[i].0@ != self.entries@[j].0@
        &&& forall|i: int|
            0 <= i < self.entries@.len() ==> #[trigger] self.contents@.contains_key(
                self.entries@[i].0@,
            ) && self.contents@[self.entries@[i].0@] == self.entries@[i].1
        &&& forall|k: Seq<char>| #[trigger]
            self.contents@.contains_key(k) ==> exists|i: int|
                0 <= i < self.entries@.len() && self.entries@[i].0@ == k
    }

    pub fn new() -> (r: ConfigStore)
        ensures
            r.wf(),
            r@ == Map::<Seq<char>, u64>::empty(),
    {
        ConfigStore { entries: Vec::new(), contents: Ghost(Map::empty()) }
    }

    fn find(&self, key: &str) -> (r: Option<usize>)
        requires
            self.wf(),
        ensures
            match r {
                Some(i) => i < self.entries@.len() && self.entries@[i as int].0@ == key@,
                None => !self@.contains_key(key@),
            },
    {
        let wanted = key.to_owned();
        let mut i: usize = 0;
        while i < self.entries.len()
            invariant
                self.wf(),
                wanted@ == key@,
                i <= self.entries@.len(),
                forall|j: int| 0 <= j < i ==> self.entries@[j].0@ != key@,
            decreases self.entries@.len() - i,
        {
            if self.entries[i].0 == wanted {
                return Some(i);
            }
            i = i + 1;
        }
        None
    }

    /// The value stored under `key`, if any.
    pub fn get_config(&self, key: &str) -> (r: Option<u64>)
        requires
            self.wf(),
        ensures
            r == (if self@.contains_key(key@) {
                Some(self@[key@])
            } else {
                None::<u64>
            }),
    {
        match self.find(key) {
            Some(i) => Some(self.entries[i].1),
            None => None,
        }
    }

    /// Sets `key` to `value`.
    pub fn set_config(&mut self, key: &str, value: u64)
        requires
            old(self).wf(),
        ensures
            final(self).wf(),
            final(self)@ == old(self)@.insert(key@, value),
    {
        let ghost m = self.contents@.insert(key@, value);
        let ghost old_entries = self.entries@;
        let ghost at: int;
        match self.find(key) {
            Some(i) => {
                self.entries.set(i, (key.to_owned(), value));
                proof { at = i as int; }
            },
            None => {
                self.entries.push((key.to_owned(), value));
                proof { at = old_entries.len() as int; }
            },
        }
        self.contents = Ghost(m);
        assert(self.entries@[at].0@ == key@);
        assert forall|k: Seq<char>| #[trigger] self.contents@.contains_key(k) implies exists|i: int|
            0 <= i < self.entries@.len() && self.entries@[i].0@ == k by {
            if k != key@ {
                assert(old(self).contents@.contains_key(k));
                let j = choose|j: int| 0 <= j < old_entries.len() && old_entries[j].0@ == k;
                assert(self.entries@[j].0@ == k);
            } else {
                assert(self.entries@[at].0@ == k);
            }
        }
    }

    /// Deletes `key`, if it is there.
    pub fn remove_config(&mut self, key: &str)
        requires
            old(self).wf(),
        ensures
            final(self).wf(),
            final(self)@ == old(self)@.remove(key@),
    {
        let ghost m = self.contents@.remove(key@);
        match self.find(key) {
            Some(i) => {
                let ghost old_entries = self.entries@;
                self.entries.swap_remove(i);
                self.contents = Ghost(m);
                assert forall|k: Seq<char>| #[trigger] self.contents@.contains_key(k) implies exists|j: int|
                    0 <= j < self.entries@.len() && self.entries@[j].0@ == k by {
                    assert(old(self).contents@.contains_key(k));
                    let j = choose|j: int| 0 <= j < old_entries.len() && old_entries[j].0@ == k;
                    if j == old_entries.len() - 1 {
                        assert(self.entries@[i as int].0@ == k);
                    } else {
                        assert(self.entries@[j].0@ == k);
                    }
                }
            },
            None => {
                assert(m =~= self.contents@);
            },
        }
    }

    /// Applies every write of `tx`, in order.
    pub fn exec_configs(&mut self, tx: ConfigTx)
        requires
            old(self).wf(),
        ensures
            final(self).wf(),
            final(self)@ == apply_ops(old(self)@, tx@),
    {
        let mut i: usize = 0;
        while i < tx.ops.len()
            invariant
                self.wf(),
                i <= tx@.len(),
                tx@.len() == tx.ops@.len(),
                self@ == apply_ops(old(self)@, tx@.take(i as int)),
            decreases tx@.len() - i,
        {
            assert(tx@.take(i as int + 1).drop_last() =~= tx@.take(i as int));
            match tx.ops[i].1 {
                Some(v) => self.set_config(tx.ops[i].0.as_str(), v),
                None => self.remove_config(tx.ops[i].0.as_str()),
            }
            i = i + 1;
        }
        assert(tx@.take(i as int) =~= tx@);
    }
}

} // verus!
