//! Verified association tables that back the market's stores.
//!
//! Each table keeps its entries in a vector with pairwise-distinct keys; its
//! abstract value is the finite map holding exactly those entries.

use vstd::prelude::*;
use vstd::pervasive::VecAdditionalExecFns;

verus! {

/// The entries of a table hold pairwise-distinct keys.
pub(crate) open spec fn keys_distinct<V>(s: Seq<(u64, V)>) -> bool {
    forall|i: int, j: int| 0 <= i < j < s.len() ==> (#[trigger] s[i]).0 != (#[trigger] s[j]).0
}

/// The finite map described by a sequence of key/value entries; among entries
/// with the same key the later one wins.
pub(crate) open spec fn entry_map<V>(s: Seq<(u64, V)>) -> Map<u64, V>
    decreases s.len(),
{
    if s.len() == 0 {
        Map::empty()
    } else {
        entry_map(s.drop_last()).insert(s.last().0, s.last().1)
    }
}

/// With distinct keys, `entry_map` holds exactly the entries of the sequence:
/// every entry is in the map, every map element comes from an entry, and the
/// domain has one element per entry.
pub(crate) proof fn lemma_entry_map_char<V>(s: Seq<(u64, V)>)
    requires
        keys_distinct(s),
    ensures
        forall|i: int|
            0 <= i < s.len() ==> entry_map(s).dom().contains((#[trigger] s[i]).0)
                && entry_map(s)[s[i].0] == s[i].1,
        forall|k: u64|
            #[trigger] entry_map(s).dom().contains(k) ==> exists|i: int|
                0 <= i < s.len() && (#[trigger] s[i]).0 == k,
        entry_map(s).dom().finite(),
        entry_map(s).dom().len() == s.len(),
    decreases s.len(),
{
    if s.len() > 0 {
        let t = s.drop_last();
        assert(forall|i: int| 0 <= i < t.len() ==> t[i] == s[i]);
        lemma_entry_map_char(t);
        assert(!entry_map(t).dom().contains(s.last().0)) by {
            if entry_map(t).dom().contains(s.last().0) {
                let i = choose|i: int| 0 <= i < t.len() && (#[trigger] t[i]).0 == s.last().0;
                assert(s[i].0 == s[s.len() - 1].0);
            }
        }
        assert forall|i: int|
            0 <= i < s.len() implies entry_map(s).dom().contains((#[trigger] s[i]).0)
                && entry_map(s)[s[i].0] == s[i].1 by {
            if i < s.len() - 1 {
                assert(t[i] == s[i]);
                assert(s[i].0 != s[s.len() - 1].0);
            } else {
                assert(s[i] == s.last());
            }
        }
        assert forall|k: u64| #[trigger] entry_map(s).dom().contains(k) implies exists|i: int|
            0 <= i < s.len() && (#[trigger] s[i]).0 == k by {
            if k == s.last().0 {
                assert(0 <= s.len() - 1 < s.len() && s[s.len() - 1].0 == k);
            } else {
                let i = choose|i: int| 0 <= i < t.len() && (#[trigger] t[i]).0 == k;
                assert(s[i].0 == k);
            }
        }
    }
}

/// A table from `u64` keys to copyable values; its abstract value is a
/// finite `Map<u64, V>`.
pub(crate) struct Table<V> {
    entries: Vec<(u64, V)>,
}

impl<V> View for Table<V> {
    type V = Map<u64, V>;

    closed spec fn view(&self) -> Map<u64, V> {
        entry_map(self.entries@)
    }
}

impl<V> Table<V> {
    /// The table's entries hold pairwise-distinct keys; constructors
    /// establish this and mutations preserve it.
    pub(crate) closed spec fn wf(self) -> bool {
        keys_distinct(self.entries@)
    }
}

impl<V: Copy> Table<V> {
    /// Creates an empty table.
    pub(crate) fn new() -> (t: Self)
        ensures
            t.wf(),
            t@ == Map::<u64, V>::empty(),
            t@.dom().finite(),
    {
        let t = Table { entries: Vec::new() };
        proof {
            assert(t@ =~= Map::<u64, V>::empty());
        }
        t
    }

    /// The index of the entry holding `key`, if the table holds one.
    fn position(&self, key: u64) -> (r: Option<usize>)
        ensures
            match r {
                Some(i) => i < self.entries@.len() && self.entries@[i as int].0 == key,
                None => forall|j: int|
                    0 <= j < self.entries@.len() ==> (#[trigger] self.entries@[j]).0 != key,
            },
    {
        let n: usize = self.entries.len();
        let mut i: usize = 0;
        while i < n
            invariant
                n == self.entries@.len(),
                i <= n,
                forall|j: int| 0 <= j < i ==> (#[trigger] self.entries@[j]).0 != key,
            decreases n - i,
        {
            if self.entries[i].0 == key {
                return Some(i);
            }
            i = i + 1;
        }
        None
    }

    /// Looks the value for `key` up.
    pub(crate) fn get(&self, key: u64) -> (r: Option<V>)
        requires
            self.wf(),
        ensures
            r == (if self@.dom().contains(key) {
                Some(self@[key])
            } else {
                None::<V>
            }),
    {
        proof {
            lemma_entry_map_char(self.entries@);
        }
        match self.position(key) {
            Some(i) => Some(self.entries[i].1),
            None => {
                proof {
                    if self@.dom().contains(key) {
                        let j = choose|j: int|
                            0 <= j < self.entries@.len() && (#[trigger] self.entries@[j]).0 == key;
                    }
                }
                None
            }
        }
    }

    /// Binds `key` to `value`, replacing any earlier binding.
    pub(crate) fn insert(&mut self, key: u64, value: V)
        requires
            old(self).wf(),
        ensures
            final(self).wf(),
            final(self)@ == old(self)@.insert(key, value),
            final(self)@.dom().finite(),
    {
        proof {
            lemma_entry_map_char(self.entries@);
        }
        let ghost s0 = self.entries@;
        match self.position(key) {
            Some(i) => {
                proof {
                    let s1 = s0.update(i as int, (key, value));
                    assert forall|a: int, b: int| 0 <= a < b < s1.len() implies (#[trigger] s1[a]).0
                        != (#[trigger] s1[b]).0 by {
                        assert(s1[a].0 == s0[a].0 && s1[b].0 == s0[b].0);
                    }
                }
                self.entries.set(i, (key, value));
                proof {
                    self.lemma_insert_at(s0, i as int, key, value);
                }
            }
            None => {
                self.entries.push((key, value));
                proof {
                    let s1 = self.entries@;
                    assert(s1.drop_last() =~= s0);
                    assert(keys_distinct(s1)) by {
                        assert forall|a: int, b: int|
                            0 <= a < b < s1.len() implies (#[trigger] s1[a]).0
                            != (#[trigger] s1[b]).0 by {
                            if b < s1.len() - 1 {
                                assert(s1[a] == s0[a] && s1[b] == s0[b]);
                            } else {
                                assert(s1[a] == s0[a] && s1[b].0 == key);
                            }
                        }
                    }
                    lemma_entry_map_char(s1);
                    assert(self@ =~= old(self)@.insert(key, value));
                }
            }
        }
    }

    /// Proof that replacing the entry at `i` updates the table's map.
    proof fn lemma_insert_at(&self, s0: Seq<(u64, V)>, i: int, key: u64, value: V)
        requires
            keys_distinct(s0),
            0 <= i < s0.len(),
            s0[i].0 == key,
            self.entries@ == s0.update(i, (key, value)),
        ensures
            self.wf(),
            self@ == entry_map(s0).insert(key, value),
            self@.dom().finite(),
    {
        let s1 = self.entries@;
        assert(keys_distinct(s1)) by {
            assert forall|a: int, b: int| 0 <= a < b < s1.len() implies (#[trigger] s1[a]).0
                != (#[trigger] s1[b]).0 by {
                assert(s1[a].0 == s0[a].0 && s1[b].0 == s0[b].0);
            }
        }
        lemma_entry_map_char(s0);
        lemma_entry_map_char(s1);
        assert forall|k: u64| entry_map(s1).dom().contains(k) implies entry_map(s0).insert(
            key,
            value,
        ).dom().contains(k) && entry_map(s1)[k] == entry_map(s0).insert(key, value)[k] by {
            let j = choose|j: int| 0 <= j < s1.len() && (#[trigger] s1[j]).0 == k;
            if j == i {
                assert(s1[j] == (key, value));
            } else {
                assert(s1[j] == s0[j]);
                assert(k != key) by {
                    if k == key {
                        assert(s0[j].0 == s0[i].0);
                    }
                }
            }
        }
        assert forall|k: u64| entry_map(s0).insert(key, value).dom().contains(k) implies entry_map(
            s1,
        ).dom().contains(k) by {
            if k == key {
                assert(s1[i].0 == key);
            } else {
                let j = choose|j: int| 0 <= j < s0.len() && (#[trigger] s0[j]).0 == k;
                assert(s1[j].0 == k);
            }
        }
        assert(entry_map(s1) =~= entry_map(s0).insert(key, value));
    }

    /// Drops the binding for `key`, if the table holds one.
    pub(crate) fn remove(&mut self, key: u64)
        requires
            old(self).wf(),
        ensures
            final(self).wf(),
            final(self)@ == old(self)@.remove(key),
            final(self)@.dom().finite(),
    {
        proof {
            lemma_entry_map_char(self.entries@);
        }
        let ghost s0 = self.entries@;
        match self.position(key) {
            Some(i) => {
                proof {
                    let s1 = s0.update(i as int, s0.last()).drop_last();
                    assert forall|a: int, b: int| 0 <= a < b < s1.len() implies (#[trigger] s1[a]).0
                        != (#[trigger] s1[b]).0 by {
                        if a == i {
                            assert(s1[a] == s0[s0.len() - 1] && s1[b] == s0[b]);
                        } else if b == i {
                            assert(s1[a] == s0[a] && s1[b] == s0[s0.len() - 1]);
                        } else {
                            assert(s1[a] == s0[a] && s1[b] == s0[b]);
                        }
                    }
                }
                self.entries.swap_remove(i);
                proof {
                    self.lemma_remove_at(s0, i as int, key);
                }
            }
            None => {
                proof {
                    assert(!old(self)@.dom().contains(key)) by {
                        if old(self)@.dom().contains(key) {
                            let j = choose|j: int|
                                0 <= j < s0.len() && (#[trigger] s0[j]).0 == key;
                        }
                    }
                    assert(self@ =~= old(self)@.remove(key));
                }
            }
        }
    }

    /// Proof that swap-removing the entry at `i` removes its key from the
    /// table's map.
    proof fn lemma_remove_at(&self, s0: Seq<(u64, V)>, i: int, key: u64)
        requires
            keys_distinct(s0),
            0 <= i < s0.len(),
            s0[i].0 == key,
            self.entries@ == s0.update(i, s0.last()).drop_last(),
        ensures
            self.wf(),
            self@ == entry_map(s0).remove(key),
            self@.dom().finite(),
    {
        let s1 = self.entries@;
        assert(keys_distinct(s1)) by {
            assert forall|a: int, b: int| 0 <= a < b < s1.len() implies (#[trigger] s1[a]).0
                != (#[trigger] s1[b]).0 by {
                if a == i {
                    assert(s1[a] == s0[s0.len() - 1] && s1[b] == s0[b]);
                } else if b == i {
                    assert(s1[a] == s0[a] && s1[b] == s0[s0.len() - 1]);
                } else {
                    assert(s1[a] == s0[a] && s1[b] == s0[b]);
                }
            }
        }
        lemma_entry_map_char(s0);
        lemma_entry_map_char(s1);
        assert forall|k: u64| entry_map(s1).dom().contains(k) implies entry_map(s0).remove(
            key,
        ).dom().contains(k) && entry_map(s1)[k] == entry_map(s0).remove(key)[k] by {
            let j = choose|j: int| 0 <= j < s1.len() && (#[trigger] s1[j]).0 == k;
            if j == i {
                assert(s1[j] == s0[s0.len() - 1]);
                assert(k != key) by {
                    if k == key && i < s0.len() - 1 {
                        assert(s0[i].0 == s0[s0.len() - 1].0);
                    }
                }
            } else {
                assert(s1[j] == s0[j]);
                assert(k != key) by {
                    if k == key {
                        assert(s0[j].0 == s0[i].0);
                    }
                }
            }
        }
        assert forall|k: u64| entry_map(s0).remove(key).dom().contains(k) implies entry_map(
            s1,
        ).dom().contains(k) by {
            let j = choose|j: int| 0 <= j < s0.len() && (#[trigger] s0[j]).0 == k;
            assert(j != i) by {
                if j == i {
                    assert(s0[i].0 == key);
                }
            }
            if j == s0.len() - 1 {
                if i < s0.len() - 1 {
                    assert(s1[i].0 == k);
                }
            } else {
                assert(s1[j].0 == k);
            }
        }
        assert(entry_map(s1) =~= entry_map(s0).remove(key));
    }
}

/// The entries of a pair-keyed table hold pairwise-distinct key pairs.
pub(crate) open spec fn pair_keys_distinct<V>(s: Seq<(u64, u64, V)>) -> bool {
    forall|i: int, j: int|
        0 <= i < j < s.len() ==> ((#[trigger] s[i]).0, s[i].1) != ((#[trigger] s[j]).0, s[j].1)
}

/// The finite map described by a sequence of pair-keyed entries; among
/// entries with the same key pair the later one wins.
pub(crate) open spec fn pair_entry_map<V>(s: Seq<(u64, u64, V)>) -> Map<(u64, u64), V>
    decreases s.len(),
{
    if s.len() == 0 {
        Map::empty()
    } else {
        pair_entry_map(s.drop_last()).insert((s.last().0, s.last().1), s.last().2)
    }
}

/// With distinct key pairs, `pair_entry_map` holds exactly the entries of
/// the sequence.
pub(crate) proof fn lemma_pair_entry_map_char<V>(s: Seq<(u64, u64, V)>)
    requires
        pair_keys_distinct(s),
    ensures
        forall|i: int|
            0 <= i < s.len() ==> pair_entry_map(s).dom().contains(
                ((#[trigger] s[i]).0, s[i].1),
            ) && pair_entry_map(s)[(s[i].0, s[i].1)] == s[i].2,
        forall|k: (u64, u64)|
            #[trigger] pair_entry_map(s).dom().contains(k) ==> exists|i: int|
                0 <= i < s.len() && ((#[trigger] s[i]).0, s[i].1) == k,
    decreases s.len(),
{
    if s.len() > 0 {
        let t = s.drop_last();
        assert(forall|i: int| 0 <= i < t.len() ==> t[i] == s[i]);
        lemma_pair_entry_map_char(t);
        assert forall|i: int|
            0 <= i < s.len() implies pair_entry_map(s).dom().contains(
                ((#[trigger] s[i]).0, s[i].1),
            ) && pair_entry_map(s)[(s[i].0, s[i].1)] == s[i].2 by {
            if i < s.len() - 1 {
                assert(t[i] == s[i]);
                assert((s[i].0, s[i].1) != (s[s.len() - 1].0, s[s.len() - 1].1));
            } else {
                assert(s[i] == s.last());
            }
        }
        assert forall|k: (u64, u64)| #[trigger] pair_entry_map(s).dom().contains(k)
            implies exists|i: int| 0 <= i < s.len() && ((#[trigger] s[i]).0, s[i].1) == k by {
            if k == (s.last().0, s.last().1) {
                assert(0 <= s.len() - 1 < s.len() && (s[s.len() - 1].0, s[s.len() - 1].1) == k);
            } else {
                assert(pair_entry_map(t).dom().contains(k));
                let i = choose|i: int| 0 <= i < t.len() && ((#[trigger] t[i]).0, t[i].1) == k;
                assert((s[i].0, s[i].1) == k);
            }
        }
    }
}

/// A table from pairs of `u64` keys to copyable values; its abstract value
/// is a finite `Map<(u64, u64), V>`.
pub(crate) struct PairTable<V> {
    entries: Vec<(u64, u64, V)>,
}

impl<V> View for PairTable<V> {
    type V = Map<(u64, u64), V>;

    closed spec fn view(&self) -> Map<(u64, u64), V> {
        pair_entry_map(self.entries@)
    }
}

impl<V> PairTable<V> {
    /// The table's entries hold pairwise-distinct key pairs; constructors
    /// establish this and mutations preserve it.
    pub(crate) closed spec fn wf(self) -> bool {
        pair_keys_distinct(self.entries@)
    }
}

impl<V: Copy> PairTable<V> {
    /// Creates an empty table.
    pub(crate) fn new() -> (t: Self)
        ensures
            t.wf(),
            t@ == Map::<(u64, u64), V>::empty(),
    {
        let t = PairTable { entries: Vec::new() };
        proof {
            assert(t@ =~= Map::<(u64, u64), V>::empty());
        }
        t
    }

    /// The index of the entry holding the key pair `(ka, kb)`, if the table
    /// holds one.
    fn position(&self, ka: u64, kb: u64) -> (r: Option<usize>)
        ensures
            match r {
                Some(i) => i < self.entries@.len() && self.entries@[i as int].0 == ka
                    && self.entries@[i as int].1 == kb,
                None => forall|j: int|
                    0 <= j < self.entries@.len() ==> ((#[trigger] self.entries@[j]).0,
                    self.entries@[j].1) != (ka, kb),
            },
    {
        let n: usize = self.entries.len();
        let mut i: usize = 0;
        while i < n
            invariant
                n == self.entries@.len(),
                i <= n,
                forall|j: int|
                    0 <= j < i ==> ((#[trigger] self.entries@[j]).0, self.entries@[j].1) != (
                    ka,
                    kb,
                ),
            decreases n - i,
        {
            if self.entries[i].0 == ka && self.entries[i].1 == kb {
                return Some(i);
            }
            i = i + 1;
        }
        None
    }

    /// Looks the value for the key pair `(ka, kb)` up.
    pub(crate) fn get(&self, ka: u64, kb: u64) -> (r: Option<V>)
        requires
            self.wf(),
        ensures
            r == (if self@.dom().contains((ka, kb)) {
                Some(self@[(ka, kb)])
            } else {
                None::<V>
            }),
    {
        proof {
            lemma_pair_entry_map_char(self.entries@);
        }
        match self.position(ka, kb) {
            Some(i) => Some(self.entries[i].2),
            None => {
                proof {
                    if self@.dom().contains((ka, kb)) {
                        let j = choose|j: int|
                            0 <= j < self.entries@.len() && ((#[trigger] self.entries@[j]).0,
                            self.entries@[j].1) == (ka, kb);
                    }
                }
                None
            }
        }
    }

    /// Binds the key pair `(ka, kb)` to `value`, replacing any earlier
    /// binding.
    pub(crate) fn insert(&mut self, ka: u64, kb: u64, value: V)
        requires
            old(self).wf(),
        ensures
            final(self).wf(),
            final(self)@ == old(self)@.insert((ka, kb), value),
    {
        proof {
            lemma_pair_entry_map_char(self.entries@);
        }
        let ghost s0 = self.entries@;
        match self.position(ka, kb) {
            Some(i) => {
                proof {
                    let s1 = s0.update(i as int, (ka, kb, value));
                    assert forall|a: int, b: int| 0 <= a < b < s1.len() implies ((
                    #[trigger] s1[a]).0, s1[a].1) != ((#[trigger] s1[b]).0, s1[b].1) by {
                        assert(s1[a].0 == s0[a].0 && s1[a].1 == s0[a].1 && s1[b].0 == s0[b].0
                            && s1[b].1 == s0[b].1);
                    }
                }
                self.entries.set(i, (ka, kb, value));
                proof {
                    self.lemma_insert_at(s0, i as int, ka, kb, value);
                }
            }
            None => {
                self.entries.push((ka, kb, value));
                proof {
                    let s1 = self.entries@;
                    assert(s1.drop_last() =~= s0);
                    assert(pair_keys_distinct(s1)) by {
                        assert forall|a: int, b: int| 0 <= a < b < s1.len() implies ((
                        #[trigger] s1[a]).0, s1[a].1) != ((#[trigger] s1[b]).0, s1[b].1) by {
                            if b < s1.len() - 1 {
                                assert(s1[a] == s0[a] && s1[b] == s0[b]);
                            } else {
                                assert(s1[a] == s0[a] && s1[b].0 == ka && s1[b].1 == kb);
                            }
                        }
                    }
                    lemma_pair_entry_map_char(s1);
                    assert(self@ =~= old(self)@.insert((ka, kb), value));
                }
            }
        }
    }

    /// Proof that replacing the entry at `i` updates the table's map.
    proof fn lemma_insert_at(&self, s0: Seq<(u64, u64, V)>, i: int, ka: u64, kb: u64, value: V)
        requires
            pair_keys_distinct(s0),
            0 <= i < s0.len(),
            s0[i].0 == ka,
            s0[i].1 == kb,
            self.entries@ == s0.update(i, (ka, kb, value)),
        ensures
            self.wf(),
            self@ == pair_entry_map(s0).insert((ka, kb), value),
    {
        let s1 = self.entries@;
        assert(pair_keys_distinct(s1)) by {
            assert forall|a: int, b: int| 0 <= a < b < s1.len() implies ((#[trigger] s1[a]).0,
            s1[a].1) != ((#[trigger] s1[b]).0, s1[b].1) by {
                assert(s1[a].0 == s0[a].0 && s1[a].1 == s0[a].1 && s1[b].0 == s0[b].0 && s1[b].1
                    == s0[b].1);
            }
        }
        lemma_pair_entry_map_char(s0);
        lemma_pair_entry_map_char(s1);
        assert forall|k: (u64, u64)| pair_entry_map(s1).dom().contains(k) implies pair_entry_map(
            s0,
        ).insert((ka, kb), value).dom().contains(k) && pair_entry_map(s1)[k] == pair_entry_map(
            s0,
        ).insert((ka, kb), value)[k] by {
            let j = choose|j: int| 0 <= j < s1.len() && ((#[trigger] s1[j]).0, s1[j].1) == k;
            if j == i {
                assert(s1[j] == (ka, kb, value));
            } else {
                assert(s1[j] == s0[j]);
                assert(k != (ka, kb)) by {
                    if k == (ka, kb) {
                        assert((s0[j].0, s0[j].1) == (s0[i].0, s0[i].1));
                    }
                }
            }
        }
        assert forall|k: (u64, u64)| pair_entry_map(s0).insert((ka, kb), value).dom().contains(k)
            implies pair_entry_map(s1).dom().contains(k) by {
            if k == (ka, kb) {
                assert((s1[i].0, s1[i].1) == k);
            } else {
                let j = choose|j: int| 0 <= j < s0.len() && ((#[trigger] s0[j]).0, s0[j].1) == k;
                assert((s1[j].0, s1[j].1) == k);
            }
        }
        assert(pair_entry_map(s1) =~= pair_entry_map(s0).insert((ka, kb), value));
    }

    /// Drops the binding for the key pair `(ka, kb)`, if the table holds
    /// one.
    pub(crate) fn remove(&mut self, ka: u64, kb: u64)
        requires
            old(self).wf(),
        ensures
            final(self).wf(),
            final(self)@ == old(self)@.remove((ka, kb)),
    {
        proof {
            lemma_pair_entry_map_char(self.entries@);
        }
        let ghost s0 = self.entries@;
        match self.position(ka, kb) {
            Some(i) => {
                proof {
                    let s1 = s0.update(i as int, s0.last()).drop_last();
                    assert forall|a: int, b: int| 0 <= a < b < s1.len() implies ((
                    #[trigger] s1[a]).0, s1[a].1) != ((#[trigger] s1[b]).0, s1[b].1) by {
                        if a == i {
                            assert(s1[a] == s0[s0.len() - 1] && s1[b] == s0[b]);
                        } else if b == i {
                            assert(s1[a] == s0[a] && s1[b] == s0[s0.len() - 1]);
                        } else {
                            assert(s1[a] == s0[a] && s1[b] == s0[b]);
                        }
                    }
                }
                self.entries.swap_remove(i);
                proof {
                    self.lemma_remove_at(s0, i as int, ka, kb);
                }
            }
            None => {
                proof {
                    assert(!old(self)@.dom().contains((ka, kb))) by {
                        if old(self)@.dom().contains((ka, kb)) {
                            let j = choose|j: int|
                                0 <= j < s0.len() && ((#[trigger] s0[j]).0, s0[j].1) == (ka, kb);
                        }
                    }
                    assert(self@ =~= old(self)@.remove((ka, kb)));
                }
            }
        }
    }

    /// Proof that swap-removing the entry at `i` removes its key pair from
    /// the table's map.
    proof fn lemma_remove_at(&self, s0: Seq<(u64, u64, V)>, i: int, ka: u64, kb: u64)
        requires
            pair_keys_distinct(s0),
            0 <= i < s0.len(),
            s0[i].0 == ka,
            s0[i].1 == kb,
            self.entries@ == s0.update(i, s0.last()).drop_last(),
        ensures
            self.wf(),
            self@ == pair_entry_map(s0).remove((ka, kb)),
    {
        let s1 = self.entries@;
        assert(pair_keys_distinct(s1)) by {
            assert forall|a: int, b: int| 0 <= a < b < s1.len() implies ((#[trigger] s1[a]).0,
            s1[a].1) != ((#[trigger] s1[b]).0, s1[b].1) by {
                if a == i {
                    assert(s1[a] == s0[s0.len() - 1] && s1[b] == s0[b]);
                } else if b == i {
                    assert(s1[a] == s0[a] && s1[b] == s0[s0.len() - 1]);
                } else {
                    assert(s1[a] == s0[a] && s1[b] == s0[b]);
                }
            }
        }
        lemma_pair_entry_map_char(s0);
        lemma_pair_entry_map_char(s1);
        assert forall|k: (u64, u64)| pair_entry_map(s1).dom().contains(k) implies pair_entry_map(
            s0,
        ).remove((ka, kb)).dom().contains(k) && pair_entry_map(s1)[k] == pair_entry_map(s0).remove(
            (ka, kb),
        )[k] by {
            let j = choose|j: int| 0 <= j < s1.len() && ((#[trigger] s1[j]).0, s1[j].1) == k;
            if j == i {
                assert(s1[j] == s0[s0.len() - 1]);
                assert(k != (ka, kb)) by {
                    if k == (ka, kb) && i < s0.len() - 1 {
                        assert((s0[i].0, s0[i].1) == (s0[s0.len() - 1].0, s0[s0.len() - 1].1));
                    }
                }
            } else {
                assert(s1[j] == s0[j]);
                assert(k != (ka, kb)) by {
                    if k == (ka, kb) {
                        assert((s0[j].0, s0[j].1) == (s0[i].0, s0[i].1));
                    }
                }
            }
        }
        assert forall|k: (u64, u64)| pair_entry_map(s0).remove((ka, kb)).dom().contains(k)
            implies pair_entry_map(s1).dom().contains(k) by {
            let j = choose|j: int| 0 <= j < s0.len() && ((#[trigger] s0[j]).0, s0[j].1) == k;
            assert(j != i) by {
                if j == i {
                    assert((s0[i].0, s0[i].1) == (ka, kb));
                }
            }
            if j == s0.len() - 1 {
                if i < s0.len() - 1 {
                    assert((s1[i].0, s1[i].1) == k);
                }
            } else {
                assert((s1[j].0, s1[j].1) == k);
            }
        }
        assert(pair_entry_map(s1) =~= pair_entry_map(s0).remove((ka, kb)));
    }
}

} // verus!
