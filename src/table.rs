//! A keyed table over a `Vec`: string keys, each at most once, viewed as a map.

use vstd::prelude::*;

verus! {

/// Whether some string of `v` is `k`.
pub open spec fn names(v: Seq<String>, k: Seq<char>) -> bool {
    exists|a: int| 0 <= a < v.len() && v[a]@ == k
}

/// Values under string keys, each key at most once, in no meaningful order.
pub struct Table<V> {
    pub entries: Vec<(String, V)>,
}

impl<V: View> Table<V> {
    pub open spec fn key_at(&self, i: int) -> Seq<char> {
        self.entries@[i].0@
    }

    /// Whether `k` is the key of some stored entry.
    pub open spec fn has_key(&self, k: Seq<char>) -> bool {
        exists|i: int| 0 <= i < self.entries@.len() && #[trigger] self.key_at(i) == k
    }

    /// No key is stored twice.
    pub open spec fn wf(&self) -> bool {
        forall|i: int, j: int|
            0 <= i < j < self.entries@.len() ==> #[trigger] self.key_at(i) != #[trigger] self.key_at(j)
    }

    /// The table as a map from key to the view of its value.
    pub open spec fn view(&self) -> Map<Seq<char>, V::V> {
        Map::new(
            |k: Seq<char>| self.has_key(k),
            |k: Seq<char>|
                {
                    let i = choose|i: int| 0 <= i < self.entries@.len() && #[trigger] self.key_at(i) == k;
                    self.entries@[i].1@
                },
        )
    }

    pub proof fn lemma_view_at(&self, i: int)
        requires
            self.wf(),
            0 <= i < self.entries@.len(),
        ensures
            self@.contains_key(self.key_at(i)),
            self@[self.key_at(i)] == self.entries@[i].1@,
    {
        let k = self.key_at(i);
        assert(self.has_key(k));
        let j = choose|j: int| 0 <= j < self.entries@.len() && #[trigger] self.key_at(j) == k;
        assert(i == j) by {
            if i < j {
                assert(self.key_at(i) != self.key_at(j));
            } else if j < i {
                assert(self.key_at(j) != self.key_at(i));
            }
        }
    }

    /// Two tables with the same keys at the same places have the same domain,
    /// and each maps the key at a place to the value there.
    pub proof fn lemma_same_keys(a: &Self, b: &Self)
        requires
            a.wf(),
            a.entries@.len() == b.entries@.len(),
            forall|j: int| 0 <= j < a.entries@.len() ==> #[trigger] b.key_at(j) == a.key_at(j),
        ensures
            b.wf(),
            b@.dom() == a@.dom(),
            forall|j: int|
                0 <= j < a.entries@.len() ==> a@[#[trigger] a.key_at(j)] == a.entries@[j].1@ && b@[a.key_at(j)]
                    == b.entries@[j].1@,
            forall|k: Seq<char>| #[trigger] a@.contains_key(k) ==> exists|j: int| 0 <= j < a.entries@.len() && a.key_at(j) == k,
    {
        assert forall|i: int, j: int| 0 <= i < j < b.entries@.len() implies #[trigger] b.key_at(i) != #[trigger] b.key_at(j) by {
            assert(a.key_at(i) != a.key_at(j));
        }
        assert forall|k: Seq<char>| #[trigger] b@.dom().contains(k) == a@.dom().contains(k) by {
            if b.has_key(k) {
                let j = choose|j: int| 0 <= j < b.entries@.len() && #[trigger] b.key_at(j) == k;
                assert(a.key_at(j) == k);
            }
            if a.has_key(k) {
                let j = choose|j: int| 0 <= j < a.entries@.len() && #[trigger] a.key_at(j) == k;
                assert(b.key_at(j) == k);
            }
        }
        assert(b@.dom() =~= a@.dom());
        assert forall|j: int| 0 <= j < a.entries@.len() implies a@[#[trigger] a.key_at(j)] == a.entries@[j].1@ && b@[a.key_at(j)]
            == b.entries@[j].1@ by {
            a.lemma_view_at(j);
            b.lemma_view_at(j);
        }
    }

    /// An empty table.
    pub fn new() -> (r: Self)
        ensures
            r.wf(),
            r@ == Map::<Seq<char>, V::V>::empty(),
            r.entries@.len() == 0,
    {
        let r = Table { entries: Vec::new() };
        assert(r@ =~= Map::<Seq<char>, V::V>::empty());
        r
    }

    /// The index of `key`, if it is stored.
    pub fn find(&self, key: &String) -> (r: Option<usize>)
        requires
            self.wf(),
        ensures
            match r {
                Some(i) => i < self.entries@.len() && self.key_at(i as int) == key@,
                None => !self@.contains_key(key@),
            },
    {
        let mut i: usize = 0;
        while i < self.entries.len()
            invariant
                i <= self.entries@.len(),
                forall|j: int| 0 <= j < i ==> #[trigger] self.key_at(j) != key@,
            decreases self.entries@.len() - i,
        {
            if self.entries[i].0 == *key {
                return Some(i);
            }
            i = i + 1;
        }
        None
    }

    /// Removes the entry at index `i`.
    pub fn remove_at(&mut self, i: usize)
        requires
            old(self).wf(),
            i < old(self).entries@.len(),
        ensures
            final(self).wf(),
            final(self)@ == old(self)@.remove(old(self).key_at(i as int)),
            final(self).entries@ == old(self).entries@.remove(i as int),
    {
        let ghost pre = *self;
        let ghost k = pre.key_at(i as int);
        self.entries.remove(i);
        assert(self.entries@ == pre.entries@.remove(i as int));
        assert forall|a: int, b: int| 0 <= a < b < self.entries@.len() implies
            #[trigger] self.key_at(a) != #[trigger] self.key_at(b) by {
            let pa = if a < i { a } else { a + 1 };
            let pb = if b < i { b } else { b + 1 };
            assert(self.key_at(a) == pre.key_at(pa));
            assert(self.key_at(b) == pre.key_at(pb));
        }
        assert forall|kk: Seq<char>| #[trigger] self@.contains_key(kk) == pre@.remove(k).contains_key(kk) by {
            if self.has_key(kk) {
                let a = choose|a: int| 0 <= a < self.entries@.len() && #[trigger] self.key_at(a) == kk;
                let pa = if a < i { a } else { a + 1 };
                assert(pre.key_at(pa) == kk);
                assert(pre.has_key(kk));
                assert(kk != k);
            }
            if pre.has_key(kk) && kk != k {
                let a = choose|a: int| 0 <= a < pre.entries@.len() && #[trigger] pre.key_at(a) == kk;
                assert(a != i);
                let na = if a < i { a } else { a - 1 };
                assert(self.key_at(na) == kk);
            }
        }
        assert forall|kk: Seq<char>| #[trigger] self@.contains_key(kk) implies self@[kk] == pre@.remove(k)[kk] by {
            let a = choose|a: int| 0 <= a < self.entries@.len() && #[trigger] self.key_at(a) == kk;
            let pa = if a < i { a } else { a + 1 };
            self.lemma_view_at(a);
            pre.lemma_view_at(pa);
        }
        assert(self@ =~= pre@.remove(k));
    }

    /// Removes `key`; the result tells whether it was stored.
    pub fn delete(&mut self, key: &String) -> (r: bool)
        requires
            old(self).wf(),
        ensures
            final(self).wf(),
            r == old(self)@.contains_key(key@),
            final(self)@ == old(self)@.remove(key@),
    {
        match self.find(key) {
            None => {
                assert(self@ =~= self@.remove(key@));
                false
            },
            Some(i) => {
                proof {
                    self.lemma_view_at(i as int);
                }
                self.remove_at(i);
                true
            },
        }
    }

    /// The stored keys, expired ones not yet removed included, each once.
    pub fn list_keys(&self) -> (r: Vec<String>)
        requires
            self.wf(),
        ensures
            forall|i: int, j: int| 0 <= i < j < r@.len() ==> r@[i]@ != r@[j]@,
            forall|k: Seq<char>| self@.contains_key(k) <==> exists|i: int| 0 <= i < r@.len() && r@[i]@ == k,
    {
        let mut r: Vec<String> = Vec::new();
        let mut i: usize = 0;
        while i < self.entries.len()
            invariant
                i <= self.entries@.len(),
                r@.len() == i,
                forall|j: int| 0 <= j < i ==> #[trigger] r@[j]@ == self.key_at(j),
            decreases self.entries@.len() - i,
        {
            r.push(self.entries[i].0.clone());
            i = i + 1;
        }
        assert forall|k: Seq<char>| self@.contains_key(k) implies exists|i: int| 0 <= i < r@.len() && r@[i]@ == k by {
            let a = choose|a: int| 0 <= a < self.entries@.len() && #[trigger] self.key_at(a) == k;
            assert(r@[a]@ == k);
        }
        assert forall|k: Seq<char>| (exists|i: int| 0 <= i < r@.len() && r@[i]@ == k) implies self@.contains_key(k) by {
            let a = choose|a: int| 0 <= a < r@.len() && r@[a]@ == k;
            assert(self.key_at(a) == k);
        }
        r
    }

    /// The number of stored entries, expired ones not yet removed included.
    pub fn count(&self) -> (r: usize)
        requires
            self.wf(),
        ensures
            r == self@.len(),
    {
        proof {
            let keys = self.entries@.map_values(|e: (String, V)| e.0@);
            assert forall|i: int, j: int| 0 <= i < keys.len() && 0 <= j < keys.len() && i != j implies
                keys[i] != keys[j] by {
                assert(keys[i] == self.key_at(i));
                assert(keys[j] == self.key_at(j));
            }
            assert(keys.no_duplicates());
            keys.unique_seq_to_set();
            assert forall|k: Seq<char>| #[trigger] self@.dom().contains(k) == keys.to_set().contains(k) by {
                if self.has_key(k) {
                    let a = choose|a: int| 0 <= a < self.entries@.len() && #[trigger] self.key_at(a) == k;
                    assert(keys[a] == k);
                }
                if keys.to_set().contains(k) {
                    let a = choose|a: int| 0 <= a < keys.len() && keys[a] == k;
                    assert(self.key_at(a) == k);
                }
            }
            assert(self@.dom() =~= keys.to_set());
        }
        self.entries.len()
    }

    /// Adds an entry under a key that is not stored yet.
    pub fn push_new(&mut self, key: String, entry: V)
        requires
            old(self).wf(),
            !old(self)@.contains_key(key@),
        ensures
            final(self).wf(),
            final(self)@ == old(self)@.insert(key@, entry@),
            final(self).entries@ == old(self).entries@.push((key, entry)),
    {
        let ghost pre = *self;
        let ghost k = key@;
        let ghost e = entry@;
        self.entries.push((key, entry));
        let ghost n = pre.entries@.len() as int;
        assert(self.key_at(n) == k);
        assert forall|a: int| 0 <= a < n implies #[trigger] self.key_at(a) == pre.key_at(a) by {}
        assert forall|a: int, b: int| 0 <= a < b < self.entries@.len() implies
            #[trigger] self.key_at(a) != #[trigger] self.key_at(b) by {
            if b == n {
                assert(pre.key_at(a) != k);
            } else {
                assert(pre.key_at(a) != pre.key_at(b));
            }
        }
        assert forall|kk: Seq<char>| #[trigger] self@.contains_key(kk) == pre@.insert(k, e).contains_key(kk) by {
            if self.has_key(kk) && kk != k {
                let a = choose|a: int| 0 <= a < self.entries@.len() && #[trigger] self.key_at(a) == kk;
                assert(a != n);
                assert(pre.key_at(a) == kk);
            }
            if pre.has_key(kk) {
                let a = choose|a: int| 0 <= a < pre.entries@.len() && #[trigger] pre.key_at(a) == kk;
                assert(self.key_at(a) == kk);
            }
            if kk == k {
                assert(self.key_at(n) == kk);
            }
        }
        assert forall|kk: Seq<char>| #[trigger] self@.contains_key(kk) implies self@[kk] == pre@.insert(k, e)[kk] by {
            let a = choose|a: int| 0 <= a < self.entries@.len() && #[trigger] self.key_at(a) == kk;
            self.lemma_view_at(a);
            if a < n {
                pre.lemma_view_at(a);
            }
        }
        assert(self@ =~= pre@.insert(k, e));
    }
}

} // verus!
