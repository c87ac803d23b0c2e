//! A string-keyed association table.
//!
//! Accounts, token balances and pool shares are all maps keyed by a
//! principal or token identifier. The table stores its pairs in a vector
//! with pairwise-distinct keys and is viewed as a mathematical map from the
//! key's characters to the stored value, which is what every contract in
//! this crate speaks about.
use vstd::prelude::*;

verus! {

broadcast use vstd::set::axiom_set_insert_len, vstd::set::axiom_set_remove_len, vstd::set::axiom_set_empty_len;

/// One key/value pair of a table.
pub struct TableEntry<V> {
    pub key: String,
    pub value: V,
}

/// An association table with pairwise-distinct string keys.
pub struct Table<V> {
    pub entries: Vec<TableEntry<V>>,
}

/// The map a sequence of pairs denotes; a later pair would win, though a
/// well-formed table never repeats a key.
pub open spec fn entries_map<V>(s: Seq<TableEntry<V>>) -> Map<Seq<char>, V>
    decreases s.len(),
{
    if s.len() == 0 {
        Map::empty()
    } else {
        entries_map(s.drop_last()).insert(s.last().key@, s.last().value)
    }
}

/// Pairwise-distinct keys.
pub open spec fn entries_distinct<V>(s: Seq<TableEntry<V>>) -> bool {
    forall|i: int, j: int| 0 <= i < j < s.len() ==> s[i].key@ != s[j].key@
}

impl<V> View for Table<V> {
    type V = Map<Seq<char>, V>;

    open spec fn view(&self) -> Map<Seq<char>, V> {
        entries_map(self.entries@)
    }
}

/// A key is in the denoted map exactly when some pair carries it.
proof fn lemma_entries_contains<V>(s: Seq<TableEntry<V>>, k: Seq<char>)
    ensures
        entries_map(s).contains_key(k) <==> (exists|i: int|
            0 <= i < s.len() && s[i].key@ == k),
    decreases s.len(),
{
    if s.len() > 0 {
        let pre = s.drop_last();
        lemma_entries_contains(pre, k);
        if s.last().key@ == k {
            assert(s[s.len() - 1].key@ == k);
        } else {
            if entries_map(s).contains_key(k) {
                let i = choose|i: int| 0 <= i < pre.len() && pre[i].key@ == k;
                assert(s[i].key@ == k);
            }
            if exists|i: int| 0 <= i < s.len() && s[i].key@ == k {
                let i = choose|i: int| 0 <= i < s.len() && s[i].key@ == k;
                assert(i < s.len() - 1);
                assert(pre[i].key@ == k);
            }
        }
    }
}

/// With distinct keys, the pair that carries a key decides its value.
proof fn lemma_entries_index<V>(s: Seq<TableEntry<V>>, i: int)
    requires
        entries_distinct(s),
        0 <= i < s.len(),
    ensures
        entries_map(s).contains_key(s[i].key@),
        entries_map(s)[s[i].key@] == s[i].value,
    decreases s.len(),
{
    let pre = s.drop_last();
    if i == s.len() - 1 {
    } else {
        assert(pre[i] == s[i]);
        lemma_entries_index(pre, i);
        assert(s.last().key@ != s[i].key@);
    }
}

/// With distinct keys, the map is exactly as large as the vector.
proof fn lemma_entries_len<V>(s: Seq<TableEntry<V>>)
    requires
        entries_distinct(s),
    ensures
        entries_map(s).len() == s.len(),
        entries_map(s).dom().finite(),
    decreases s.len(),
{
    if s.len() > 0 {
        let pre = s.drop_last();
        lemma_entries_len(pre);
        lemma_entries_contains(pre, s.last().key@);
        assert(forall|i: int| 0 <= i < pre.len() ==> pre[i].key@ != s.last().key@);
        assert(!entries_map(pre).contains_key(s.last().key@));
    }
}

/// Overwriting the pair at `i` in place updates its key's value.
proof fn lemma_entries_update<V>(s: Seq<TableEntry<V>>, i: int, e: TableEntry<V>)
    requires
        entries_distinct(s),
        0 <= i < s.len(),
        e.key@ == s[i].key@,
    ensures
        entries_map(s.update(i, e)) == entries_map(s).insert(e.key@, e.value),
    decreases s.len(),
{
    let t = s.update(i, e);
    let pre = s.drop_last();
    if i == s.len() - 1 {
        assert(t.drop_last() =~= pre);
        assert(entries_map(t) == entries_map(pre).insert(e.key@, e.value));
        assert(entries_map(pre).insert(s.last().key@, s.last().value).insert(e.key@, e.value)
            =~= entries_map(pre).insert(e.key@, e.value));
    } else {
        assert(t.drop_last() =~= pre.update(i, e));
        lemma_entries_update(pre, i, e);
        assert(s.last().key@ != e.key@);
        assert(entries_map(t) == entries_map(pre).insert(e.key@, e.value).insert(
            s.last().key@,
            s.last().value,
        ));
        assert(entries_map(pre).insert(e.key@, e.value).insert(s.last().key@, s.last().value)
            =~= entries_map(pre).insert(s.last().key@, s.last().value).insert(e.key@, e.value));
    }
}

/// Removing the pair at `i` removes exactly its key.
proof fn lemma_entries_remove<V>(s: Seq<TableEntry<V>>, i: int)
    requires
        entries_distinct(s),
        0 <= i < s.len(),
    ensures
        entries_map(s.remove(i)) == entries_map(s).remove(s[i].key@),
    decreases s.len(),
{
    let t = s.remove(i);
    let pre = s.drop_last();
    let k = s[i].key@;
    if i == s.len() - 1 {
        assert(t =~= pre);
        lemma_entries_contains(pre, k);
        assert(forall|j: int| 0 <= j < pre.len() ==> pre[j].key@ != k);
        assert(!entries_map(pre).contains_key(k));
        assert(entries_map(pre).insert(k, s.last().value).remove(k) =~= entries_map(pre));
    } else {
        assert(t.drop_last() =~= pre.remove(i));
        lemma_entries_remove(pre, i);
        assert(pre[i] == s[i]);
        assert(s.last().key@ != k);
        assert(entries_map(t) == entries_map(pre).remove(k).insert(
            s.last().key@,
            s.last().value,
        ));
        assert(entries_map(pre).remove(k).insert(s.last().key@, s.last().value)
            =~= entries_map(pre).insert(s.last().key@, s.last().value).remove(k));
    }
}

/// Appending a pair with a fresh key inserts it.
proof fn lemma_entries_push<V>(s: Seq<TableEntry<V>>, e: TableEntry<V>)
    ensures
        entries_map(s.push(e)) == entries_map(s).insert(e.key@, e.value),
{
    assert(s.push(e).drop_last() =~= s);
}

impl<V> Table<V> {
    /// Keys are pairwise distinct.
    pub open spec fn wf(&self) -> bool {
        entries_distinct(self.entries@)
    }

    /// An empty table.
    pub fn new() -> (r: Table<V>)
        ensures
            r.wf(),
            r@ == Map::<Seq<char>, V>::empty(),
            r.entries@.len() == 0,
    {
        Table { entries: Vec::new() }
    }

    /// Exposes that a well-formed table's map is exactly as large as its
    /// vector of pairs.
    pub proof fn lemma_view_len(&self)
        requires
            self.wf(),
        ensures
            self@.len() == self.entries@.len(),
            self@.dom().finite(),
    {
        lemma_entries_len(self.entries@);
    }

    /// Number of stored pairs, which is also the size of the map.
    pub fn len(&self) -> (r: usize)
        requires
            self.wf(),
        ensures
            r == self.entries@.len(),
            r == self@.len(),
    {
        proof {
            lemma_entries_len(self.entries@);
        }
        self.entries.len()
    }

    /// Index of the pair carrying `key`, if any.
    fn index_of(&self, key: &String) -> (r: Option<usize>)
        ensures
            match r {
                Some(i) => i < self.entries@.len() && self.entries@[i as int].key@ == key@,
                None => forall|i: int|
                    0 <= i < self.entries@.len() ==> self.entries@[i].key@ != key@,
            },
    {
        let n = self.entries.len();
        let mut i: usize = 0;
        while i < n
            invariant
                n == self.entries@.len(),
                i <= n,
                forall|j: int| 0 <= j < i ==> self.entries@[j].key@ != key@,
            decreases n - i,
        {
            if self.entries[i].key == *key {
                return Some(i);
            }
            i = i + 1;
        }
        None
    }

    /// Whether `key` has a pair.
    pub fn contains_key(&self, key: &String) -> (r: bool)
        requires
            self.wf(),
        ensures
            r == self@.contains_key(key@),
    {
        proof {
            lemma_entries_contains(self.entries@, key@);
        }
        match self.index_of(key) {
            Some(i) => {
                proof {
                    lemma_entries_index(self.entries@, i as int);
                }
                true
            },
            None => false,
        }
    }

    /// The value stored under `key`.
    pub fn get(&self, key: &String) -> (r: Option<&V>)
        requires
            self.wf(),
        ensures
            match r {
                Some(v) => self@.contains_key(key@) && *v == self@[key@],
                None => !self@.contains_key(key@),
            },
    {
        proof {
            lemma_entries_contains(self.entries@, key@);
        }
        match self.index_of(key) {
            Some(i) => {
                proof {
                    lemma_entries_index(self.entries@, i as int);
                }
                Some(&self.entries[i].value)
            },
            None => None,
        }
    }

    /// Binds `key` to `value`, replacing any earlier binding.
    pub fn insert(&mut self, key: String, value: V)
        requires
            old(self).wf(),
        ensures
            final(self).wf(),
            final(self)@ == old(self)@.insert(key@, value),
            final(self).entries@.len() == if old(self)@.contains_key(key@) {
                old(self).entries@.len() as int
            } else {
                old(self).entries@.len() + 1int
            },
    {
        proof {
            lemma_entries_contains(self.entries@, key@);
        }
        match self.index_of(&key) {
            Some(i) => {
                let ghost s = self.entries@;
                let ghost e = TableEntry { key: key, value: value };
                proof {
                    lemma_entries_index(s, i as int);
                    lemma_entries_update(s, i as int, e);
                }
                self.entries[i] = TableEntry { key, value };
                assert(self.entries@ =~= s.update(i as int, e));
            },
            None => {
                let ghost s = self.entries@;
                let ghost e = TableEntry { key: key, value: value };
                proof {
                    lemma_entries_push(s, e);
                }
                self.entries.push(TableEntry { key, value });
            },
        }
    }

    /// Drops the binding of `key` and hands its value back.
    pub fn remove(&mut self, key: &String) -> (r: Option<V>)
        requires
            old(self).wf(),
        ensures
            final(self).wf(),
            match r {
                Some(v) => old(self)@.contains_key(key@) && v == old(self)@[key@]
                    && final(self)@ == old(self)@.remove(key@)
                    && final(self).entries@.len() == old(self).entries@.len() - 1,
                None => !old(self)@.contains_key(key@) && *final(self) == *old(self),
            },
    {
        proof {
            lemma_entries_contains(self.entries@, key@);
        }
        match self.index_of(key) {
            Some(i) => {
                let ghost s = self.entries@;
                proof {
                    lemma_entries_index(s, i as int);
                    lemma_entries_remove(s, i as int);
                }
                let e = self.entries.remove(i);
                Some(e.value)
            },
            None => None,
        }
    }

    /// The key of the pair at position `i`, for enumeration.
    pub fn key_at(&self, i: usize) -> (r: &String)
        requires
            self.wf(),
            i < self.entries@.len(),
        ensures
            r@ == self.entries@[i as int].key@,
            self@.contains_key(r@),
            self@[r@] == self.entries@[i as int].value,
    {
        proof {
            lemma_entries_index(self.entries@, i as int);
        }
        &self.entries[i].key
    }

    /// The value of the pair at position `i`, for enumeration.
    pub fn value_at(&self, i: usize) -> (r: &V)
        requires
            self.wf(),
            i < self.entries@.len(),
        ensures
            *r == self.entries@[i as int].value,
            self@.contains_key(self.entries@[i as int].key@),
            self@[self.entries@[i as int].key@] == *r,
    {
        proof {
            lemma_entries_index(self.entries@, i as int);
        }
        &self.entries[i].value
    }
}

/// The balance a map holds under a key, zero when the key is absent.
pub open spec fn balance_of(m: Map<Seq<char>, u128>, k: Seq<char>) -> u128 {
    if m.contains_key(k) {
        m[k]
    } else {
        0
    }
}

/// Total of all stored balances.
pub open spec fn entries_sum(s: Seq<TableEntry<u128>>) -> int
    decreases s.len(),
{
    if s.len() == 0 {
        0
    } else {
        entries_sum(s.drop_last()) + s.last().value
    }
}

proof fn lemma_entries_sum_nonneg(s: Seq<TableEntry<u128>>)
    ensures
        entries_sum(s) >= 0,
    decreases s.len(),
{
    if s.len() > 0 {
        lemma_entries_sum_nonneg(s.drop_last());
    }
}

/// Each single balance is bounded by the total.
proof fn lemma_entries_sum_index(s: Seq<TableEntry<u128>>, i: int)
    requires
        0 <= i < s.len(),
    ensures
        s[i].value <= entries_sum(s),
    decreases s.len(),
{
    let pre = s.drop_last();
    lemma_entries_sum_nonneg(pre);
    if i == s.len() - 1 {
    } else {
        assert(pre[i] == s[i]);
        lemma_entries_sum_index(pre, i);
    }
}

proof fn lemma_entries_sum_update(s: Seq<TableEntry<u128>>, i: int, e: TableEntry<u128>)
    requires
        0 <= i < s.len(),
    ensures
        entries_sum(s.update(i, e)) == entries_sum(s) - s[i].value + e.value,
    decreases s.len(),
{
    let t = s.update(i, e);
    let pre = s.drop_last();
    if i == s.len() - 1 {
        assert(t.drop_last() =~= pre);
    } else {
        assert(t.drop_last() =~= pre.update(i, e));
        assert(pre[i] == s[i]);
        lemma_entries_sum_update(pre, i, e);
        assert(t.last() == s.last());
    }
}

proof fn lemma_entries_sum_push(s: Seq<TableEntry<u128>>, e: TableEntry<u128>)
    ensures
        entries_sum(s.push(e)) == entries_sum(s) + e.value,
{
    assert(s.push(e).drop_last() =~= s);
}

proof fn lemma_entries_sum_remove(s: Seq<TableEntry<u128>>, i: int)
    requires
        0 <= i < s.len(),
    ensures
        entries_sum(s.remove(i)) == entries_sum(s) - s[i].value,
    decreases s.len(),
{
    let t = s.remove(i);
    let pre = s.drop_last();
    if i == s.len() - 1 {
        assert(t =~= pre);
    } else {
        assert(t.drop_last() =~= pre.remove(i));
        assert(pre[i] == s[i]);
        lemma_entries_sum_remove(pre, i);
        assert(t.last() == s.last());
    }
}

impl Table<u128> {
    /// Total of all balances in the table.
    pub open spec fn sum(&self) -> int {
        entries_sum(self.entries@)
    }

    /// Exposes that a held balance never exceeds the table's total.
    pub proof fn lemma_balance_le_sum(&self, k: Seq<char>)
        requires
            self.wf(),
            self@.contains_key(k),
        ensures
            self@[k] <= self.sum(),
            self.sum() >= 0,
    {
        lemma_entries_contains(self.entries@, k);
        let i = choose|i: int| 0 <= i < self.entries@.len() && self.entries@[i].key@ == k;
        lemma_entries_index(self.entries@, i);
        lemma_entries_sum_index(self.entries@, i);
        lemma_entries_sum_nonneg(self.entries@);
    }

    /// Exposes that the total is never negative.
    pub proof fn lemma_sum_nonneg(&self)
        ensures
            self.sum() >= 0,
    {
        lemma_entries_sum_nonneg(self.entries@);
    }

    /// Adds `amount` to the balance under `key`, creating the entry at
    /// `amount` when absent.
    pub fn credit(&mut self, key: &String, amount: u128)
        requires
            old(self).wf(),
            balance_of(old(self)@, key@) + amount <= u128::MAX,
        ensures
            final(self).wf(),
            final(self)@ == old(self)@.insert(
                key@,
                (balance_of(old(self)@, key@) + amount) as u128,
            ),
            final(self).sum() == old(self).sum() + amount,
            final(self).entries@.len() == if old(self)@.contains_key(key@) {
                old(self).entries@.len() as int
            } else {
                old(self).entries@.len() + 1int
            },
    {
        proof {
            lemma_entries_contains(self.entries@, key@);
        }
        match self.index_of(key) {
            Some(i) => {
                let ghost s = self.entries@;
                proof {
                    lemma_entries_index(s, i as int);
                }
                let v = self.entries[i].value;
                let e = TableEntry { key: key.clone(), value: v + amount };
                proof {
                    lemma_entries_update(s, i as int, e);
                    lemma_entries_sum_update(s, i as int, e);
                }
                self.entries[i] = e;
                assert(self.entries@ =~= s.update(i as int, e));
            },
            None => {
                let ghost s = self.entries@;
                let e = TableEntry { key: key.clone(), value: amount };
                proof {
                    lemma_entries_push(s, e);
                    lemma_entries_sum_push(s, e);
                }
                self.entries.push(e);
            },
        }
    }

    /// Subtracts `amount` from the balance under `key`, which must cover it.
    pub fn debit(&mut self, key: &String, amount: u128)
        requires
            old(self).wf(),
            old(self)@.contains_key(key@),
            amount <= old(self)@[key@],
        ensures
            final(self).wf(),
            final(self)@ == old(self)@.insert(key@, (old(self)@[key@] - amount) as u128),
            final(self).sum() == old(self).sum() - amount,
            final(self).entries@.len() == old(self).entries@.len(),
    {
        proof {
            lemma_entries_contains(self.entries@, key@);
        }
        let idx = self.index_of(key);
        let i = match idx {
            Some(i) => i,
            None => {
                proof {
                    assert(false);
                }
                0
            },
        };
        let ghost s = self.entries@;
        proof {
            lemma_entries_index(s, i as int);
        }
        let v = self.entries[i].value;
        let e = TableEntry { key: key.clone(), value: v - amount };
        proof {
            lemma_entries_update(s, i as int, e);
            lemma_entries_sum_update(s, i as int, e);
        }
        self.entries[i] = e;
        assert(self.entries@ =~= s.update(i as int, e));
    }
}

impl<V: Copy> Table<V> {
    /// An equal, independently owned table.
    pub fn duplicate(&self) -> (r: Table<V>)
        ensures
            r.entries@ == self.entries@,
            r@ == self@,
            r.wf() == self.wf(),
    {
        let n = self.entries.len();
        let mut entries: Vec<TableEntry<V>> = Vec::new();
        let mut i: usize = 0;
        while i < n
            invariant
                n == self.entries@.len(),
                i <= n,
                entries@.len() == i,
                forall|j: int| 0 <= j < i ==> entries@[j] == self.entries@[j],
            decreases n - i,
        {
            let key = self.entries[i].key.clone();
            let value = self.entries[i].value;
            entries.push(TableEntry { key, value });
            i = i + 1;
        }
        let r = Table { entries };
        proof {
            assert(r.entries@ =~= self.entries@);
        }
        r
    }
}

} // verus!
