use vstd::prelude::*;

verus! {

/// Keys whose equality can be decided at run time, in agreement with their view.
pub trait KeyEq: View + Sized {
    fn key_eq(&self, other: &Self) -> (r: bool)
        ensures
            r == (self@ == other@),
    ;
}

impl KeyEq for String {
    fn key_eq(&self, other: &Self) -> (r: bool) {
        *self == *other
    }
}

impl KeyEq for u64 {
    fn key_eq(&self, other: &Self) -> (r: bool) {
        *self == *other
    }
}

impl KeyEq for (String, String) {
    fn key_eq(&self, other: &Self) -> (r: bool) {
        self.0 == other.0 && self.1 == other.1
    }
}

/// Sum of the values of a sequence of entries.
pub open spec fn sum_values<K>(s: Seq<(K, u64)>) -> int
    decreases s.len(),
{
    if s.len() == 0 {
        0
    } else {
        sum_values(s.drop_last()) + s.last().1
    }
}

proof fn lemma_sum_update<K>(s: Seq<(K, u64)>, i: int, e: (K, u64))
    requires
        0 <= i < s.len(),
    ensures
        sum_values(s.update(i, e)) == sum_values(s) - s[i].1 + e.1,
    decreases s.len(),
{
    if i < s.len() - 1 {
        lemma_sum_update(s.drop_last(), i, e);
        assert(s.update(i, e).drop_last() =~= s.drop_last().update(i, e));
    } else {
        assert(s.update(i, e).drop_last() =~= s.drop_last());
    }
}

proof fn lemma_sum_nonneg<K>(s: Seq<(K, u64)>)
    ensures
        sum_values(s) >= 0,
    decreases s.len(),
{
    if s.len() > 0 {
        lemma_sum_nonneg(s.drop_last());
    }
}

proof fn lemma_sum_bounds<K>(s: Seq<(K, u64)>, i: int)
    requires
        0 <= i < s.len(),
    ensures
        s[i].1 <= sum_values(s),
    decreases s.len(),
{
    lemma_sum_nonneg(s.drop_last());
    if i < s.len() - 1 {
        lemma_sum_bounds(s.drop_last(), i);
    }
}

/// A finite map kept as a list of entries with pairwise distinct keys.
pub struct Table<K: View, V> {
    entries: Vec<(K, V)>,
    contents: Ghost<Map<K::V, V>>,
}

impl<K: KeyEq, V> View for Table<K, V> {
    type V = Map<K::V, V>;

    closed spec fn view(&self) -> Map<K::V, V> {
        self.contents@
    }
}

impl<K: KeyEq, V> Table<K, V> {
    pub closed spec fn wf(&self) -> bool {
        &&& forall|i: int, j: int|
            0 <= i < j < self.entries@.len() ==> self.entries@[i].0@ != self.entries@[j].0@
        &&& forall|i: int|
            0 <= i < self.entries@.len() ==> {
                &&& self.contents@.contains_key(#[trigger] self.entries@[i].0@)
                &&& self.contents@[self.entries@[i].0@] == self.entries@[i].1
            }
        &&& forall|k: K::V|
            self.contents@.contains_key(k) ==> exists|i: int|
                0 <= i < self.entries@.len() && #[trigger] self.entries@[i].0@ == k
    }

    pub fn new() -> (r: Self)
        ensures
            r.wf(),
            r@ == Map::<K::V, V>::empty(),
    {
        Table { entries: Vec::new(), contents: Ghost(Map::empty()) }
    }

    fn find(&self, k: &K) -> (r: Option<usize>)
        requires
            self.wf(),
        ensures
            match r {
                Some(i) => i < self.entries@.len() && self.entries@[i as int].0@ == k@,
                None => !self@.contains_key(k@),
            },
    {
        let mut i: usize = 0;
        while i < self.entries.len()
            invariant
                self.wf(),
                i <= self.entries@.len(),
                forall|j: int| 0 <= j < i ==> self.entries@[j].0@ != k@,
            decreases self.entries@.len() - i,
        {
            if self.entries[i].0.key_eq(k) {
                return Some(i);
            }
            i = i + 1;
        }
        None
    }

    /// The value stored under `k`, if any.
    pub fn get(&self, k: &K) -> (r: Option<&V>)
        requires
            self.wf(),
        ensures
            match r {
                Some(v) => self@.contains_key(k@) && *v == self@[k@],
                None => !self@.contains_key(k@),
            },
    {
        match self.find(k) {
            Some(i) => Some(&self.entries[i].1),
            None => None,
        }
    }

    fn store_at(&mut self, found: Option<usize>, k: K, v: V)
        requires
            old(self).wf(),
            match found {
                Some(i) => i < old(self).entries@.len() && old(self).entries@[i as int].0@ == k@,
                None => !old(self)@.contains_key(k@),
            },
        ensures
            final(self).wf(),
            final(self)@ == old(self)@.insert(k@, v),
            final(self).entries@ == match found {
                Some(i) => old(self).entries@.update(i as int, (k, v)),
                None => old(self).entries@.push((k, v)),
            },
    {
        let ghost kv = k@;
        match found {
            Some(i) => {
                self.entries.set(i, (k, v));
            },
            None => {
                self.entries.push((k, v));
                assert(self.entries@[self.entries@.len() - 1].0@ == kv);
            },
        }
        self.contents = Ghost(self.contents@.insert(kv, v));
        assert forall|q: K::V| self.contents@.contains_key(q) implies exists|i: int|
            0 <= i < self.entries@.len() && #[trigger] self.entries@[i].0@ == q by {
            if q == kv {
                match found {
                    Some(i) => assert(self.entries@[i as int].0@ == q),
                    None => assert(self.entries@[self.entries@.len() - 1].0@ == q),
                }
            } else {
                let w = choose|i: int|
                    0 <= i < old(self).entries@.len() && #[trigger] old(self).entries@[i].0@ == q;
                assert(self.entries@[w].0@ == q);
            }
        }
    }

    /// Stores `v` under `k`, replacing what was there.
    pub fn set(&mut self, k: K, v: V)
        requires
            old(self).wf(),
        ensures
            final(self).wf(),
            final(self)@ == old(self)@.insert(k@, v),
    {
        let found = self.find(&k);
        self.store_at(found, k, v);
    }

    /// Removes the entry under `k` and hands its value back.
    pub fn take(&mut self, k: &K) -> (r: Option<V>)
        requires
            old(self).wf(),
        ensures
            final(self).wf(),
            final(self)@ == old(self)@.remove(k@),
            match r {
                Some(v) => old(self)@.contains_key(k@) && v == old(self)@[k@],
                None => !old(self)@.contains_key(k@),
            },
    {
        match self.find(k) {
            Some(i) => {
                let e = self.entries.remove(i);
                self.contents = Ghost(self.contents@.remove(k@));
                assert forall|q: K::V| self.contents@.contains_key(q) implies exists|j: int|
                    0 <= j < self.entries@.len() && #[trigger] self.entries@[j].0@ == q by {
                    let w = choose|j: int| 0 <= j < old(self).entries@.len() && #[trigger] old(self).entries@[j].0@ == q;
                    if w < i {
                        assert(self.entries@[w].0@ == q);
                    } else {
                        assert(self.entries@[w - 1].0@ == q);
                    }
                }
                Some(e.1)
            },
            None => None,
        }
    }
}

impl<K: KeyEq> Table<K, u64> {
    /// Sum of all stored values.
    pub closed spec fn total(&self) -> int {
        sum_values(self.entries@)
    }

    /// No single value exceeds the sum of all values.
    pub proof fn lemma_value_le_total(&self, k: K::V)
        requires
            self.wf(),
            self@.contains_key(k),
        ensures
            self@[k] <= self.total(),
    {
        let i = choose|i: int| 0 <= i < self.entries@.len() && #[trigger] self.entries@[i].0@ == k;
        lemma_sum_bounds(self.entries@, i);
    }

    /// An empty table sums to zero.
    pub proof fn lemma_empty_total(&self)
        requires
            self.wf(),
            self@ == Map::<K::V, u64>::empty(),
        ensures
            self.total() == 0,
    {
        if self.entries@.len() > 0 {
            assert(self@.contains_key(self.entries@[0].0@));
        }
    }

    /// Like `set`, also telling how the sum of the values moves.
    pub fn set_amount(&mut self, k: K, v: u64)
        requires
            old(self).wf(),
        ensures
            final(self).wf(),
            final(self)@ == old(self)@.insert(k@, v),
            final(self).total() == old(self).total() + v - (if old(self)@.contains_key(k@) {
                old(self)@[k@] as int
            } else {
                0
            }),
    {
        let found = self.find(&k);
        proof {
            match found {
                Some(i) => {
                    lemma_sum_update(self.entries@, i as int, (k, v));
                    assert(self@.contains_key(k@));
                },
                None => {
                    assert(self.entries@.push((k, v)).drop_last() =~= self.entries@);
                },
            }
        }
        self.store_at(found, k, v);
    }
}

} // verus!
