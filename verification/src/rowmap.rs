use vstd::prelude::*;

verus! {

/// The association map described by a sequence of key-value pairs; a later
/// pair overrides an earlier one with the same key.
pub open spec fn pairs_map<K, T>(s: Seq<(K, T)>) -> Map<K, T>
    decreases s.len(),
{
    if s.len() == 0 {
        Map::empty()
    } else {
        pairs_map(s.drop_last()).insert(s.last().0, s.last().1)
    }
}

/// No two pairs of the sequence share a key.
pub open spec fn unique_keys<K, T>(s: Seq<(K, T)>) -> bool {
    forall|i: int, j: int| 0 <= i < j < s.len() ==> (#[trigger] s[i]).0 != (#[trigger] s[j]).0
}

proof fn lemma_pairs_map_contains<K, T>(s: Seq<(K, T)>, k: K)
    ensures
        pairs_map(s).contains_key(k) <==> exists|j: int|
            0 <= j < s.len() && (#[trigger] s[j]).0 == k,
    decreases s.len(),
{
    if s.len() > 0 {
        lemma_pairs_map_contains(s.drop_last(), k);
        if s.last().0 == k {
            assert((s[s.len() - 1]).0 == k);
        } else if pairs_map(s).contains_key(k) {
            let j = choose|j: int| 0 <= j < s.drop_last().len() && (#[trigger] s.drop_last()[j]).0 == k;
            assert((s[j]).0 == k);
        } else {
            assert(forall|j: int|
                0 <= j < s.len() - 1 ==> (#[trigger] s[j]).0 == s.drop_last()[j].0);
        }
    }
}

proof fn lemma_pairs_map_at<K, T>(s: Seq<(K, T)>, i: int)
    requires
        unique_keys(s),
        0 <= i < s.len(),
    ensures
        pairs_map(s).contains_key(s[i].0),
        pairs_map(s)[s[i].0] == s[i].1,
    decreases s.len(),
{
    if i == s.len() - 1 {
    } else {
        let d = s.drop_last();
        assert(forall|x: int, y: int|
            0 <= x < y < d.len() ==> (#[trigger] d[x]).0 != (#[trigger] d[y]).0);
        lemma_pairs_map_at(d, i);
        assert(s.last().0 != s[i].0);
    }
}

proof fn lemma_pairs_map_remove<K, T>(s: Seq<(K, T)>, i: int)
    requires
        unique_keys(s),
        0 <= i < s.len(),
    ensures
        pairs_map(s.remove(i)) == pairs_map(s).remove(s[i].0),
    decreases s.len(),
{
    let d = s.drop_last();
    assert(forall|x: int, y: int|
        0 <= x < y < d.len() ==> (#[trigger] d[x]).0 != (#[trigger] d[y]).0);
    if i == s.len() - 1 {
        assert(s.remove(i) =~= d);
        lemma_pairs_map_contains(d, s[i].0);
        assert(forall|j: int| 0 <= j < d.len() ==> (#[trigger] d[j]).0 != s[i].0);
        assert(!pairs_map(d).contains_key(s[i].0));
        assert(pairs_map(d) =~= pairs_map(d).insert(s.last().0, s.last().1).remove(s[i].0));
    } else {
        lemma_pairs_map_remove(d, i);
        assert(s.remove(i).drop_last() =~= d.remove(i));
        assert(s.remove(i).last() == s.last());
        assert(pairs_map(s.remove(i)) == pairs_map(d.remove(i)).insert(s.last().0, s.last().1));
        assert(s.last().0 != s[i].0);
        assert(pairs_map(d).remove(s[i].0).insert(s.last().0, s.last().1) =~= pairs_map(d).insert(
            s.last().0,
            s.last().1,
        ).remove(s[i].0));
    }
}

proof fn lemma_pairs_map_finite<K, T>(s: Seq<(K, T)>)
    ensures
        pairs_map(s).dom().finite(),
    decreases s.len(),
{
    if s.len() > 0 {
        lemma_pairs_map_finite(s.drop_last());
    }
}

proof fn lemma_pairs_map_card<K, T>(s: Seq<(K, T)>)
    requires
        unique_keys(s),
    ensures
        pairs_map(s).dom().finite(),
        pairs_map(s).dom().len() == s.len(),
    decreases s.len(),
{
    lemma_pairs_map_finite(s);
    if s.len() > 0 {
        let d = s.drop_last();
        assert(forall|x: int, y: int|
            0 <= x < y < d.len() ==> (#[trigger] d[x]).0 != (#[trigger] d[y]).0);
        lemma_pairs_map_card(d);
        lemma_pairs_map_contains(d, s.last().0);
        assert(forall|j: int| 0 <= j < d.len() ==> (#[trigger] d[j]).0 != s.last().0);
        assert(!pairs_map(d).dom().contains(s.last().0));
        assert(pairs_map(s).dom() =~= pairs_map(d).dom().insert(s.last().0));
    }
}

/// A map from row id to a column value, stored as a vector of pairs with
/// pairwise-distinct keys.
#[derive(Debug)]
pub struct RowMap<V> {
    entries: Vec<(i64, V)>,
}

impl<V> View for RowMap<V> {
    type V = Map<i64, V>;

    closed spec fn view(&self) -> Map<i64, V> {
        pairs_map(self.entries@)
    }
}

impl<V> RowMap<V> {
    /// The keys of the backing vector are pairwise distinct.
    pub closed spec fn wf(&self) -> bool {
        unique_keys(self.entries@)
    }

    /// An empty row map.
    pub fn new() -> (r: Self)
        ensures
            r.wf(),
            r@ == Map::<i64, V>::empty(),
    {
        RowMap { entries: Vec::new() }
    }

    /// Binds `k` to `v`, replacing any earlier binding of `k`.
    pub fn insert(&mut self, k: i64, v: V)
        requires
            old(self).wf(),
        ensures
            final(self).wf(),
            final(self)@ == old(self)@.insert(k, v),
    {
        let ghost s0 = self.entries@;
        let n = self.entries.len();
        let mut i: usize = 0;
        while i < n
            invariant
                n == self.entries@.len(),
                i <= n,
                self.entries@ == s0,
                old(self).entries@ == s0,
                unique_keys(s0),
                forall|j: int| 0 <= j < i ==> (#[trigger] s0[j]).0 != k,
            decreases n - i,
        {
            if self.entries[i].0 == k {
                self.entries.remove(i);
                self.entries.push((k, v));
                proof {
                    lemma_pairs_map_remove(s0, i as int);
                    assert(unique_keys(s0.remove(i as int))) by {
                        assert(forall|x: int, y: int|
                            0 <= x < y < s0.remove(i as int).len() ==> (#[trigger] s0.remove(
                                i as int,
                            )[x]).0 != (#[trigger] s0.remove(i as int)[y]).0);
                    }
                    assert(forall|j: int|
                        0 <= j < s0.remove(i as int).len() ==> (#[trigger] s0.remove(
                            i as int,
                        )[j]).0 != k);
                    assert(self.entries@.drop_last() =~= s0.remove(i as int));
                    assert(self@ == pairs_map(s0.remove(i as int)).insert(k, v));
                    assert(self@ =~= pairs_map(s0).insert(k, v));
                    assert(forall|x: int, y: int|
                        0 <= x < y < self.entries@.len() ==> (#[trigger] self.entries@[x]).0
                            != (#[trigger] self.entries@[y]).0);
                }
                return;
            }
            i += 1;
        }
        self.entries.push((k, v));
        proof {
            assert(self.entries@.drop_last() =~= s0);
            assert(forall|x: int, y: int|
                0 <= x < y < self.entries@.len() ==> (#[trigger] self.entries@[x]).0
                    != (#[trigger] self.entries@[y]).0);
        }
    }

    /// Looks the value of `k` up.
    pub fn get(&self, k: i64) -> (r: Option<&V>)
        requires
            self.wf(),
        ensures
            match r {
                Some(v) => self@.contains_key(k) && *v == self@[k],
                None => !self@.contains_key(k),
            },
    {
        let n = self.entries.len();
        let mut i: usize = 0;
        while i < n
            invariant
                n == self.entries@.len(),
                i <= n,
                self.wf(),
                forall|j: int| 0 <= j < i ==> (#[trigger] self.entries@[j]).0 != k,
            decreases n - i,
        {
            if self.entries[i].0 == k {
                proof {
                    lemma_pairs_map_at(self.entries@, i as int);
                }
                return Some(&self.entries[i].1);
            }
            i += 1;
        }
        proof {
            lemma_pairs_map_contains(self.entries@, k);
        }
        None
    }

    /// Whether `k` is bound.
    pub fn contains_key(&self, k: i64) -> (r: bool)
        ensures
            r == self@.contains_key(k),
    {
        let n = self.entries.len();
        let mut i: usize = 0;
        while i < n
            invariant
                n == self.entries@.len(),
                i <= n,
                forall|j: int| 0 <= j < i ==> (#[trigger] self.entries@[j]).0 != k,
            decreases n - i,
        {
            if self.entries[i].0 == k {
                proof {
                    lemma_pairs_map_contains(self.entries@, k);
                }
                return true;
            }
            i += 1;
        }
        proof {
            lemma_pairs_map_contains(self.entries@, k);
        }
        false
    }

    /// The number of bound keys.
    pub fn len(&self) -> (r: usize)
        requires
            self.wf(),
        ensures
            r == self@.dom().len(),
    {
        proof {
            lemma_pairs_map_card(self.entries@);
        }
        self.entries.len()
    }

    /// The bound keys, in storage order.
    pub fn keys(&self) -> (r: Vec<i64>)
        requires
            self.wf(),
        ensures
            r@.no_duplicates(),
            forall|k: i64| #[trigger] r@.contains(k) <==> self@.contains_key(k),
    {
        let n = self.entries.len();
        let mut out: Vec<i64> = Vec::new();
        let mut i: usize = 0;
        while i < n
            invariant
                n == self.entries@.len(),
                i <= n,
                self.wf(),
                out@.len() == i,
                forall|j: int| 0 <= j < i ==> out@[j] == (#[trigger] self.entries@[j]).0,
            decreases n - i,
        {
            out.push(self.entries[i].0);
            i += 1;
        }
        proof {
            assert forall|x: int, y: int|
                0 <= x < out@.len() && 0 <= y < out@.len() && x != y implies out@[x] != out@[y] by {
                if x < y {
                    assert((self.entries@[x]).0 != (self.entries@[y]).0);
                } else {
                    assert((self.entries@[y]).0 != (self.entries@[x]).0);
                }
            }
            assert(out@.no_duplicates());
            assert forall|k: i64| #[trigger] out@.contains(k) <==> self@.contains_key(k) by {
                lemma_pairs_map_contains(self.entries@, k);
                if self@.contains_key(k) {
                    let j = choose|j: int|
                        0 <= j < self.entries@.len() && (#[trigger] self.entries@[j]).0 == k;
                    assert(out@[j] == k);
                }
                if out@.contains(k) {
                    let j = choose|j: int| 0 <= j < out@.len() && out@[j] == k;
                    assert((self.entries@[j]).0 == k);
                }
            }
        }
        out
    }
}

/// The same pair sequence with each key replaced by its character view.
pub open spec fn key_views(s: Seq<(String, i64)>) -> Seq<(Seq<char>, i64)> {
    Seq::new(s.len(), |i: int| (s[i].0@, s[i].1))
}

/// A secondary index from a text value to the row id that holds it, stored
/// as a vector of pairs whose keys are pairwise distinct as character
/// sequences.
#[derive(Debug)]
pub struct TextIndex {
    entries: Vec<(String, i64)>,
}

impl View for TextIndex {
    type V = Map<Seq<char>, i64>;

    closed spec fn view(&self) -> Map<Seq<char>, i64> {
        pairs_map(key_views(self.entries@))
    }
}

impl TextIndex {
    /// The key views of the backing vector are pairwise distinct.
    pub closed spec fn wf(&self) -> bool {
        unique_keys(key_views(self.entries@))
    }

    /// An empty index.
    pub fn new() -> (r: Self)
        ensures
            r.wf(),
            r@ == Map::<Seq<char>, i64>::empty(),
    {
        let r = TextIndex { entries: Vec::new() };
        proof {
            assert(key_views(r.entries@) =~= Seq::<(Seq<char>, i64)>::empty());
        }
        r
    }

    /// Binds the text `k` to row id `v`, replacing any earlier binding.
    pub fn insert(&mut self, k: String, v: i64)
        requires
            old(self).wf(),
        ensures
            final(self).wf(),
            final(self)@ == old(self)@.insert(k@, v),
    {
        let ghost kk = k@;
        let ghost s0 = key_views(self.entries@);
        let n = self.entries.len();
        let mut i: usize = 0;
        while i < n
            invariant
                n == self.entries@.len(),
                i <= n,
                kk == k@,
                s0 == key_views(self.entries@),
                key_views(old(self).entries@) == s0,
                unique_keys(s0),
                forall|j: int| 0 <= j < i ==> (#[trigger] s0[j]).0 != kk,
            decreases n - i,
        {
            if crate::text::str_eq(self.entries[i].0.as_str(), k.as_str()) {
                proof {
                    assert(s0[i as int].0 == kk);
                }
                self.entries.remove(i);
                self.entries.push((k, v));
                proof {
                    lemma_pairs_map_remove(s0, i as int);
                    assert(unique_keys(s0.remove(i as int))) by {
                        assert(forall|x: int, y: int|
                            0 <= x < y < s0.remove(i as int).len() ==> (#[trigger] s0.remove(
                                i as int,
                            )[x]).0 != (#[trigger] s0.remove(i as int)[y]).0);
                    }
                    assert(forall|j: int|
                        0 <= j < s0.remove(i as int).len() ==> (#[trigger] s0.remove(
                            i as int,
                        )[j]).0 != kk);
                    let kv = key_views(self.entries@);
                    assert(kv.drop_last() =~= s0.remove(i as int));
                    assert(kv.last() == (kk, v));
                    assert(self@ == pairs_map(s0.remove(i as int)).insert(kk, v));
                    assert(self@ =~= pairs_map(s0).insert(kk, v));
                    assert forall|x: int, y: int| 0 <= x < y < kv.len() implies (#[trigger] kv[x]).0
                        != (#[trigger] kv[y]).0 by {
                        if y == kv.len() - 1 {
                            assert(kv[x] == s0.remove(i as int)[x]);
                            assert(kv[y].0 == kk);
                        } else {
                            assert(kv[x] == s0.remove(i as int)[x]);
                            assert(kv[y] == s0.remove(i as int)[y]);
                        }
                    }
                }
                return;
            }
            i += 1;
        }
        self.entries.push((k, v));
        proof {
            let kv = key_views(self.entries@);
            assert(kv.drop_last() =~= s0);
            assert(kv.last() == (kk, v));
            assert forall|x: int, y: int| 0 <= x < y < kv.len() implies (#[trigger] kv[x]).0
                != (#[trigger] kv[y]).0 by {
                if y == kv.len() - 1 {
                    assert(kv[x] == s0[x]);
                    assert(kv[y].0 == kk);
                } else {
                    assert(kv[x] == s0[x]);
                    assert(kv[y] == s0[y]);
                }
            }
        }
    }

    /// Whether some row holds the text `k`.
    pub fn contains_key(&self, k: &str) -> (r: bool)
        ensures
            r == self@.contains_key(k@),
    {
        let n = self.entries.len();
        let mut i: usize = 0;
        while i < n
            invariant
                n == self.entries@.len(),
                i <= n,
                forall|j: int| 0 <= j < i ==> (#[trigger] key_views(self.entries@)[j]).0 != k@,
            decreases n - i,
        {
            if crate::text::str_eq(self.entries[i].0.as_str(), k) {
                proof {
                    lemma_pairs_map_contains(key_views(self.entries@), k@);
                    assert((key_views(self.entries@)[i as int]).0 == k@);
                }
                return true;
            }
            i += 1;
        }
        proof {
            lemma_pairs_map_contains(key_views(self.entries@), k@);
        }
        false
    }
}

} // verus!
