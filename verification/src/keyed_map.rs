use vstd::prelude::*;

use crate::address::MapKey;

verus! {

/// The map that a sequence of key/value entries denotes: later entries win.
pub open spec fn map_of<K, V>(s: Seq<(K, V)>) -> Map<K, V>
    decreases s.len(),
{
    if s.len() == 0 {
        Map::empty()
    } else {
        map_of(s.drop_last()).insert(s.last().0, s.last().1)
    }
}

/// No key occurs twice among the entries.
pub open spec fn distinct_keys<K, V>(s: Seq<(K, V)>) -> bool {
    forall|i: int, j: int| 0 <= i < j < s.len() ==> s[i].0 != s[j].0
}

/// The sum of the values of a sequence of entries.
pub open spec fn value_sum<K>(s: Seq<(K, i128)>) -> int
    decreases s.len(),
{
    if s.len() == 0 {
        0
    } else {
        value_sum(s.drop_last()) + s.last().1
    }
}

pub proof fn lemma_map_of_contains<K, V>(s: Seq<(K, V)>, k: K)
    ensures
        map_of(s).contains_key(k) <==> exists|i: int| 0 <= i < s.len() && s[i].0 == k,
    decreases s.len(),
{
    if s.len() > 0 {
        lemma_map_of_contains(s.drop_last(), k);
        if map_of(s.drop_last()).contains_key(k) {
            let i = choose|i: int| 0 <= i < s.drop_last().len() && s.drop_last()[i].0 == k;
            assert(s[i].0 == k);
        }
        if exists|i: int| 0 <= i < s.len() && s[i].0 == k {
            let i = choose|i: int| 0 <= i < s.len() && s[i].0 == k;
            if i < s.len() - 1 {
                assert(s.drop_last()[i].0 == k);
            }
        }
    }
}

pub proof fn lemma_map_of_index<K, V>(s: Seq<(K, V)>, i: int)
    requires
        distinct_keys(s),
        0 <= i < s.len(),
    ensures
        map_of(s).contains_key(s[i].0),
        map_of(s)[s[i].0] == s[i].1,
    decreases s.len(),
{
    if i < s.len() - 1 {
        assert(s.drop_last()[i] == s[i]);
        lemma_map_of_index(s.drop_last(), i);
        assert(s[i].0 != s.last().0);
    }
}

pub proof fn lemma_map_of_update<K, V>(s: Seq<(K, V)>, i: int, v: V)
    requires
        distinct_keys(s),
        0 <= i < s.len(),
    ensures
        distinct_keys(s.update(i, (s[i].0, v))),
        map_of(s.update(i, (s[i].0, v))) == map_of(s).insert(s[i].0, v),
    decreases s.len(),
{
    let k = s[i].0;
    let t = s.update(i, (k, v));
    assert(distinct_keys(t)) by {
        assert forall|a: int, b: int| 0 <= a < b < t.len() implies t[a].0 != t[b].0 by {
            assert(s[a].0 != s[b].0);
        }
    }
    if i == s.len() - 1 {
        assert(t.drop_last() =~= s.drop_last());
        assert(map_of(t) =~= map_of(s).insert(k, v));
    } else {
        assert(t.drop_last() =~= s.drop_last().update(i, (k, v)));
        assert(s.drop_last()[i] == s[i]);
        lemma_map_of_update(s.drop_last(), i, v);
        assert(s.last().0 != k);
        assert(map_of(t) =~= map_of(s).insert(k, v));
    }
}

pub proof fn lemma_map_of_remove<K, V>(s: Seq<(K, V)>, i: int)
    requires
        distinct_keys(s),
        0 <= i < s.len(),
    ensures
        distinct_keys(s.remove(i)),
        map_of(s.remove(i)) == map_of(s).remove(s[i].0),
    decreases s.len(),
{
    let k = s[i].0;
    let t = s.remove(i);
    assert(distinct_keys(t)) by {
        assert forall|a: int, b: int| 0 <= a < b < t.len() implies t[a].0 != t[b].0 by {
            if a < i {
                if b < i {
                    assert(s[a].0 != s[b].0);
                } else {
                    assert(s[a].0 != s[b + 1].0);
                }
            } else {
                assert(s[a + 1].0 != s[b + 1].0);
            }
        }
    }
    if i == s.len() - 1 {
        assert(t =~= s.drop_last());
        lemma_map_of_contains(s.drop_last(), k);
        assert forall|j: int| 0 <= j < s.drop_last().len() implies s.drop_last()[j].0 != k by {
            assert(s[j].0 != s[i].0);
        }
        assert(map_of(t) =~= map_of(s).remove(k));
    } else {
        assert(t.drop_last() =~= s.drop_last().remove(i));
        assert(t.last() == s.last());
        assert(s.drop_last()[i] == s[i]);
        lemma_map_of_remove(s.drop_last(), i);
        assert(s.last().0 != k);
        assert(map_of(t) =~= map_of(s).remove(k));
    }
}

pub proof fn lemma_value_sum_update<K>(s: Seq<(K, i128)>, i: int, e: (K, i128))
    requires
        0 <= i < s.len(),
    ensures
        value_sum(s.update(i, e)) == value_sum(s) - s[i].1 + e.1,
    decreases s.len(),
{
    let t = s.update(i, e);
    if i == s.len() - 1 {
        assert(t.drop_last() =~= s.drop_last());
    } else {
        assert(t.drop_last() =~= s.drop_last().update(i, e));
        lemma_value_sum_update(s.drop_last(), i, e);
    }
}

pub proof fn lemma_value_sum_push<K>(s: Seq<(K, i128)>, e: (K, i128))
    ensures
        value_sum(s.push(e)) == value_sum(s) + e.1,
{
    assert(s.push(e).drop_last() =~= s);
}

/// With no negative value, each value is at most the sum.
pub proof fn lemma_value_le_sum<K>(s: Seq<(K, i128)>, i: int)
    requires
        0 <= i < s.len(),
        forall|j: int| 0 <= j < s.len() ==> s[j].1 >= 0,
    ensures
        0 <= s[i].1 <= value_sum(s),
    decreases s.len(),
{
    lemma_value_sum_nonneg(s.drop_last());
    if i < s.len() - 1 {
        assert(s.drop_last()[i] == s[i]);
        lemma_value_le_sum(s.drop_last(), i);
    }
}

pub proof fn lemma_value_sum_nonneg<K>(s: Seq<(K, i128)>)
    requires
        forall|j: int| 0 <= j < s.len() ==> s[j].1 >= 0,
    ensures
        value_sum(s) >= 0,
    decreases s.len(),
{
    if s.len() > 0 {
        lemma_value_sum_nonneg(s.drop_last());
    }
}

/// With no negative value, two different entries together are at most the sum.
pub proof fn lemma_two_values_le_sum<K>(s: Seq<(K, i128)>, i: int, j: int)
    requires
        0 <= i < s.len(),
        0 <= j < s.len(),
        i != j,
        forall|k: int| 0 <= k < s.len() ==> s[k].1 >= 0,
    ensures
        s[i].1 + s[j].1 <= value_sum(s),
    decreases s.len(),
{
    let n = s.len() - 1;
    lemma_value_sum_nonneg(s.drop_last());
    if i == n {
        assert(s.drop_last()[j] == s[j]);
        lemma_value_le_sum(s.drop_last(), j);
    } else if j == n {
        assert(s.drop_last()[i] == s[i]);
        lemma_value_le_sum(s.drop_last(), i);
    } else {
        assert(s.drop_last()[i] == s[i]);
        assert(s.drop_last()[j] == s[j]);
        lemma_two_values_le_sum(s.drop_last(), i, j);
    }
}

/// With no negative value, a prefix sums to at most the whole.
pub proof fn lemma_value_sum_prefix<K>(s: Seq<(K, i128)>, k: int)
    requires
        0 <= k <= s.len(),
        forall|j: int| 0 <= j < s.len() ==> s[j].1 >= 0,
    ensures
        value_sum(s.take(k)) <= value_sum(s),
    decreases s.len(),
{
    if k == s.len() {
        assert(s.take(k) =~= s);
    } else {
        assert(s.drop_last().take(k) =~= s.take(k));
        lemma_value_sum_prefix(s.drop_last(), k);
    }
}

/// A finite map from keys to copyable values, kept as a list of entries with
/// distinct keys.
pub struct KeyedMap<K, V> {
    pub entries: Vec<(K, V)>,
}

impl<K: MapKey, V: Copy> View for KeyedMap<K, V> {
    type V = Map<K, V>;

    open spec fn view(&self) -> Map<K, V> {
        map_of(self.entries@)
    }
}

impl<K: MapKey, V: Copy> KeyedMap<K, V> {
    /// No key occurs twice.
    pub open spec fn wf(&self) -> bool {
        distinct_keys(self.entries@)
    }

    pub fn new() -> (m: Self)
        ensures
            m.wf(),
            m.entries@.len() == 0,
            m@ == Map::<K, V>::empty(),
    {
        KeyedMap { entries: Vec::new() }
    }

    /// Position of the entry for `k`, if there is one.
    pub fn index_of(&self, k: &K) -> (r: Option<usize>)
        requires
            self.wf(),
        ensures
            match r {
                Some(i) => i < self.entries@.len() && self.entries@[i as int].0 == *k,
                None => !self@.contains_key(*k),
            },
    {
        let n = self.entries.len();
        let mut i: usize = 0;
        while i < n
            invariant
                n == self.entries@.len(),
                0 <= i <= n,
                forall|j: int| 0 <= j < i ==> self.entries@[j].0 != *k,
            decreases n - i,
        {
            if self.entries[i].0.same(k) {
                return Some(i);
            }
            i = i + 1;
        }
        proof {
            lemma_map_of_contains(self.entries@, *k);
        }
        None
    }

    /// Whether no key occurs twice.
    pub fn is_well_formed(&self) -> (r: bool)
        ensures
            r == self.wf(),
    {
        let n = self.entries.len();
        let mut j: usize = 0;
        while j < n
            invariant
                n == self.entries@.len(),
                0 <= j <= n,
                forall|a: int, b: int| 0 <= a < b < j ==> self.entries@[a].0 != self.entries@[b].0,
            decreases n - j,
        {
            let mut i: usize = 0;
            while i < j
                invariant
                    n == self.entries@.len(),
                    0 <= i <= j < n,
                    forall|a: int| 0 <= a < i ==> self.entries@[a].0 != self.entries@[j as int].0,
                decreases j - i,
            {
                if self.entries[i].0.same(&self.entries[j].0) {
                    return false;
                }
                i = i + 1;
            }
            j = j + 1;
        }
        true
    }

    /// Whether the map is empty.
    pub fn is_empty(&self) -> (r: bool)
        requires
            self.wf(),
        ensures
            r == self@.is_empty(),
            r == (self.entries@.len() == 0),
    {
        if self.entries.len() == 0 {
            proof {
                assert(self@ =~= Map::<K, V>::empty());
            }
            true
        } else {
            proof {
                let last = (self.entries@.len() - 1) as int;
                lemma_map_of_index(self.entries@, last);
                assert(self@.dom().contains(self.entries@[last].0));
            }
            false
        }
    }

    /// The value stored under `k`, if any.
    pub fn get(&self, k: &K) -> (r: Option<V>)
        requires
            self.wf(),
        ensures
            r == (if self@.contains_key(*k) {
                Some(self@[*k])
            } else {
                None
            }),
    {
        match self.index_of(k) {
            Some(i) => {
                proof {
                    lemma_map_of_index(self.entries@, i as int);
                }
                Some(self.entries[i].1)
            },
            None => None,
        }
    }

    /// Whether `k` has an entry.
    pub fn contains(&self, k: &K) -> (r: bool)
        requires
            self.wf(),
        ensures
            r == self@.contains_key(*k),
    {
        match self.index_of(k) {
            Some(i) => {
                proof {
                    lemma_map_of_index(self.entries@, i as int);
                }
                true
            },
            None => false,
        }
    }

    /// Store `v` under `k`, replacing any earlier value.
    pub fn insert(&mut self, k: K, v: V)
        requires
            old(self).wf(),
        ensures
            final(self).wf(),
            final(self)@ == old(self)@.insert(k, v),
    {
        match self.index_of(&k) {
            Some(i) => {
                proof {
                    lemma_map_of_update(self.entries@, i as int, v);
                }
                self.entries.set(i, (k, v));
            },
            None => {
                proof {
                    lemma_map_of_contains(self.entries@, k);
                    assert(self.entries@.push((k, v)).drop_last() =~= self.entries@);
                }
                self.entries.push((k, v));
            },
        }
    }

    /// Drop the entry for `k`, if there is one.
    pub fn remove(&mut self, k: &K)
        requires
            old(self).wf(),
        ensures
            final(self).wf(),
            final(self)@ == old(self)@.remove(*k),
    {
        match self.index_of(k) {
            Some(i) => {
                proof {
                    lemma_map_of_remove(self.entries@, i as int);
                }
                self.entries.remove(i);
            },
            None => {
                proof {
                    assert(self@.remove(*k) =~= self@);
                }
            },
        }
    }
}

impl<K: MapKey, V: Copy> KeyedMap<K, V> {
    /// An entry-for-entry copy.
    pub fn copy(&self) -> (r: Self)
        ensures
            r.entries@ == self.entries@,
    {
        let n = self.entries.len();
        let mut out: Vec<(K, V)> = Vec::new();
        let mut i: usize = 0;
        while i < n
            invariant
                n == self.entries@.len(),
                0 <= i <= n,
                out@ == self.entries@.take(i as int),
            decreases n - i,
        {
            out.push(self.entries[i]);
            i = i + 1;
            proof {
                assert(out@ =~= self.entries@.take(i as int));
            }
        }
        proof {
            assert(self.entries@.take(n as int) =~= self.entries@);
        }
        KeyedMap { entries: out }
    }
}

impl<K: MapKey> KeyedMap<K, i128> {
    /// The sum of all stored amounts.
    pub open spec fn total(&self) -> int {
        value_sum(self.entries@)
    }

    /// No stored amount is negative.
    pub open spec fn nonnegative(&self) -> bool {
        forall|i: int| 0 <= i < self.entries@.len() ==> #[trigger] self.entries@[i].1 >= 0
    }

    /// The amount stored under `k`, or zero.
    pub open spec fn amount_of(&self, k: K) -> int {
        if self@.contains_key(k) {
            self@[k] as int
        } else {
            0
        }
    }

    /// The amount stored under `k`, or zero.
    pub fn get_amount(&self, k: &K) -> (r: i128)
        requires
            self.wf(),
        ensures
            r == self.amount_of(*k),
    {
        match self.get(k) {
            Some(v) => v,
            None => 0,
        }
    }

    /// Store amount `v` under `k`; the total moves by the difference.
    pub fn set_amount(&mut self, k: K, v: i128)
        requires
            old(self).wf(),
        ensures
            final(self).wf(),
            final(self)@ == old(self)@.insert(k, v),
            final(self).total() == old(self).total() - old(self).amount_of(k) + v,
            old(self).nonnegative() && v >= 0 ==> final(self).nonnegative(),
    {
        match self.index_of(&k) {
            Some(i) => {
                proof {
                    lemma_map_of_update(self.entries@, i as int, v);
                    lemma_map_of_index(self.entries@, i as int);
                    lemma_value_sum_update(self.entries@, i as int, (k, v));
                }
                self.entries.set(i, (k, v));
            },
            None => {
                proof {
                    lemma_map_of_contains(self.entries@, k);
                    assert(self.entries@.push((k, v)).drop_last() =~= self.entries@);
                    lemma_value_sum_push(self.entries@, (k, v));
                }
                self.entries.push((k, v));
            },
        }
    }

    /// With no negative amount, every amount lies between zero and the total.
    pub proof fn lemma_amount_bounded(&self, k: K)
        requires
            self.wf(),
            self.nonnegative(),
        ensures
            0 <= self.amount_of(k) <= self.total(),
    {
        lemma_value_sum_nonneg(self.entries@);
        lemma_map_of_contains(self.entries@, k);
        if self@.contains_key(k) {
            let i = choose|i: int| 0 <= i < self.entries@.len() && self.entries@[i].0 == k;
            lemma_map_of_index(self.entries@, i);
            lemma_value_le_sum(self.entries@, i);
        }
    }

    /// With no negative amount, the amounts of two different keys together
    /// are at most the total.
    pub proof fn lemma_two_amounts_bounded(&self, k1: K, k2: K)
        requires
            self.wf(),
            self.nonnegative(),
            k1 != k2,
        ensures
            self.amount_of(k1) + self.amount_of(k2) <= self.total(),
    {
        self.lemma_amount_bounded(k1);
        self.lemma_amount_bounded(k2);
        lemma_map_of_contains(self.entries@, k1);
        lemma_map_of_contains(self.entries@, k2);
        if self@.contains_key(k1) && self@.contains_key(k2) {
            let i = choose|i: int| 0 <= i < self.entries@.len() && self.entries@[i].0 == k1;
            let j = choose|j: int| 0 <= j < self.entries@.len() && self.entries@[j].0 == k2;
            lemma_map_of_index(self.entries@, i);
            lemma_map_of_index(self.entries@, j);
            lemma_two_values_le_sum(self.entries@, i, j);
        }
    }

    /// Whether no amount is negative.
    pub fn all_nonnegative(&self) -> (r: bool)
        ensures
            r == self.nonnegative(),
    {
        let n = self.entries.len();
        let mut i: usize = 0;
        while i < n
            invariant
                n == self.entries@.len(),
                0 <= i <= n,
                forall|j: int| 0 <= j < i ==> #[trigger] self.entries@[j].1 >= 0,
            decreases n - i,
        {
            if self.entries[i].1 < 0 {
                return false;
            }
            i = i + 1;
        }
        true
    }

    /// The total of the amounts, or `None` when it exceeds `i128::MAX`.
    pub fn checked_total(&self) -> (r: Option<i128>)
        requires
            self.nonnegative(),
        ensures
            match r {
                Some(t) => t == self.total(),
                None => self.total() > i128::MAX,
            },
    {
        let n = self.entries.len();
        let mut acc: i128 = 0;
        let mut i: usize = 0;
        proof {
            assert(self.entries@.take(0) =~= Seq::<(K, i128)>::empty());
        }
        while i < n
            invariant
                self.nonnegative(),
                n == self.entries@.len(),
                0 <= i <= n,
                acc == value_sum(self.entries@.take(i as int)),
            decreases n - i,
        {
            proof {
                assert(self.entries@.take(i + 1).drop_last() =~= self.entries@.take(i as int));
                assert(self.entries@.take(i + 1).last() == self.entries@[i as int]);
            }
            let v = self.entries[i].1;
            if acc > i128::MAX - v {
                proof {
                    lemma_value_sum_prefix(self.entries@, i + 1);
                }
                return None;
            }
            acc = acc + v;
            i = i + 1;
        }
        proof {
            assert(self.entries@.take(n as int) =~= self.entries@);
        }
        Some(acc)
    }
}

} // verus!
