use vstd::prelude::*;

verus! {

/// A table keyed by strings that keeps its entries in insertion order; a key
/// that is inserted again keeps its place and takes the new value.
pub struct StrMap<V> {
    entries: Vec<(String, V)>,
}

/// Index of the entry with key `k` in a sequence of distinct keys.
pub open spec fn key_index(keys: Seq<Seq<char>>, k: Seq<char>) -> int {
    keys.index_of(k)
}

proof fn lemma_key_index(keys: Seq<Seq<char>>, i: int)
    requires
        keys.no_duplicates(),
        0 <= i < keys.len(),
    ensures
        key_index(keys, keys[i]) == i,
{
    let j = keys.index_of(keys[i]);
    assert(keys.contains(keys[i]));
    assert(0 <= j < keys.len() && keys[j] == keys[i]);
}

/// The value at position `i` is the value its key maps to.
pub proof fn lemma_value_of_key<V>(t: StrMap<V>, i: int)
    requires
        t.wf(),
        0 <= i < t.keys().len(),
    ensures
        t@.contains_key(t.keys()[i]),
        t@[t.keys()[i]] == t.values()[i],
{
    lemma_key_index(t.keys(), i);
}

impl<V> StrMap<V> {
    /// The keys, in insertion order.
    pub closed spec fn keys(&self) -> Seq<Seq<char>> {
        self.entries@.map_values(|e: (String, V)| e.0@)
    }

    /// The values, in the order of their keys.
    pub closed spec fn values(&self) -> Seq<V> {
        self.entries@.map_values(|e: (String, V)| e.1)
    }

    pub open spec fn wf(&self) -> bool {
        &&& self.keys().no_duplicates()
        &&& self.keys().len() == self.values().len()
    }

    /// The table as a map from key to value.
    pub open spec fn view(&self) -> Map<Seq<char>, V> {
        Map::new(
            |k: Seq<char>| self.keys().contains(k),
            |k: Seq<char>| self.values()[key_index(self.keys(), k)],
        )
    }

    pub fn new() -> (r: Self)
        ensures
            r.wf(),
            r.keys() == Seq::<Seq<char>>::empty(),
            r.values() == Seq::<V>::empty(),
            r@ == Map::<Seq<char>, V>::empty(),
    {
        let r = StrMap { entries: Vec::new() };
        assert(r.keys() =~= Seq::<Seq<char>>::empty());
        assert(r.values() =~= Seq::<V>::empty());
        assert(r@ =~= Map::<Seq<char>, V>::empty());
        r
    }

    pub fn len(&self) -> (r: usize)
        ensures
            r == self.keys().len(),
            r == self.values().len(),
    {
        self.entries.len()
    }

    pub fn key_at(&self, i: usize) -> (r: &String)
        requires
            i < self.keys().len(),
        ensures
            r@ == self.keys()[i as int],
    {
        &self.entries[i].0
    }

    pub fn value_at(&self, i: usize) -> (r: &V)
        requires
            i < self.keys().len(),
        ensures
            *r == self.values()[i as int],
    {
        &self.entries[i].1
    }

    /// Position of key `k`, if present.
    pub fn find(&self, k: &String) -> (r: Option<usize>)
        requires
            self.wf(),
        ensures
            r is None <==> !self.keys().contains(k@),
            r matches Some(i) ==> i < self.keys().len() && self.keys()[i as int] == k@ && key_index(
                self.keys(),
                k@,
            ) == i,
    {
        let mut i: usize = 0;
        while i < self.entries.len()
            invariant
                self.wf(),
                i <= self.entries.len(),
                forall|j: int| 0 <= j < i ==> self.keys()[j] != k@,
            decreases self.entries.len() - i,
        {
            if self.entries[i].0 == *k {
                proof {
                    lemma_key_index(self.keys(), i as int);
                }
                return Some(i);
            }
            i += 1;
        }
        None
    }

    pub fn contains_key(&self, k: &String) -> (r: bool)
        requires
            self.wf(),
        ensures
            r == self@.contains_key(k@),
    {
        self.find(k).is_some()
    }

    pub fn get(&self, k: &String) -> (r: Option<&V>)
        requires
            self.wf(),
        ensures
            r is None <==> !self@.contains_key(k@),
            r matches Some(v) ==> *v == self@[k@],
    {
        match self.find(k) {
            Some(i) => Some(&self.entries[i].1),
            None => None,
        }
    }

    /// Sets the value of `k`; a new key goes last.
    pub fn insert(&mut self, k: String, v: V)
        requires
            old(self).wf(),
        ensures
            final(self).wf(),
            final(self)@ == old(self)@.insert(k@, v),
            old(self).keys().contains(k@) ==> final(self).keys() == old(self).keys()
                && final(self).values() == old(self).values().update(
                key_index(old(self).keys(), k@),
                v,
            ),
            !old(self).keys().contains(k@) ==> final(self).keys() == old(self).keys().push(k@)
                && final(self).values() == old(self).values().push(v),
    {
        let ghost k_view = k@;
        match self.find(&k) {
            Some(i) => {
                self.entries[i] = (k, v);
                assert(self.keys() =~= old(self).keys());
                assert(self.values() =~= old(self).values().update(i as int, v));
                assert forall|x: Seq<char>| #[trigger] self@.contains_key(x) implies self@[x]
                    == old(self)@.insert(k_view, v)[x] by {
                    let j = key_index(self.keys(), x);
                    if x != k_view {
                        assert(self.keys().contains(x));
                        assert(0 <= j < self.keys().len() && self.keys()[j] == x);
                        assert(j != i);
                    }
                };
                assert(self@ =~= old(self)@.insert(k_view, v));
            },
            None => {
                self.entries.push((k, v));
                assert(self.keys() =~= old(self).keys().push(k_view));
                assert(self.values() =~= old(self).values().push(v));
                let ghost n = old(self).keys().len() as int;
                assert(self.keys().no_duplicates()) by {
                    assert forall|a: int, b: int|
                        0 <= a < self.keys().len() && 0 <= b < self.keys().len() && a != b implies
                        self.keys()[a] != self.keys()[b] by {
                        if a == n {
                            assert(old(self).keys()[b] == self.keys()[b]);
                        } else if b == n {
                            assert(old(self).keys()[a] == self.keys()[a]);
                        }
                    };
                };
                assert forall|x: Seq<char>| #[trigger] self@.contains_key(x) implies self@[x]
                    == old(self)@.insert(k_view, v)[x] by {
                    if x == k_view {
                        lemma_key_index(self.keys(), n);
                    } else {
                        let j = key_index(old(self).keys(), x);
                        assert(old(self).keys().contains(x)) by {
                            let jj = key_index(self.keys(), x);
                            assert(self.keys().contains(x));
                            assert(0 <= jj < self.keys().len() && self.keys()[jj] == x);
                            assert(jj != n);
                            assert(old(self).keys()[jj] == x);
                        };
                        assert(0 <= j < old(self).keys().len() && old(self).keys()[j] == x);
                        lemma_key_index(self.keys(), j);
                    }
                };
                assert forall|x: Seq<char>| #[trigger] old(self)@.insert(k_view, v).contains_key(x)
                    implies self@.contains_key(x) by {
                    if x == k_view {
                        assert(self.keys()[n] == x);
                    } else {
                        let j = key_index(old(self).keys(), x);
                        assert(old(self).keys().contains(x));
                        assert(0 <= j < old(self).keys().len() && old(self).keys()[j] == x);
                        assert(self.keys()[j] == x);
                    }
                };
                assert(self@ =~= old(self)@.insert(k_view, v));
            },
        }
    }

    /// Puts `v` in place of the value at position `i` and hands back the old
    /// one; keys and order stay.
    pub fn replace_at(&mut self, i: usize, v: V) -> (r: V)
        requires
            old(self).wf(),
            i < old(self).keys().len(),
        ensures
            final(self).wf(),
            r == old(self).values()[i as int],
            final(self).keys() == old(self).keys(),
            final(self).values() == old(self).values().update(i as int, v),
            final(self)@ == old(self)@.insert(old(self).keys()[i as int], v),
    {
        let (k, old_v) = self.entries.remove(i);
        let ghost kv = k@;
        self.entries.insert(i, (k, v));
        assert(self.keys() =~= old(self).keys());
        assert(self.values() =~= old(self).values().update(i as int, v));
        assert(old(self).keys()[i as int] == kv);
        assert(old(self).keys().contains(kv));
        assert(self@.dom() =~= old(self)@.insert(kv, v).dom());
        assert forall|x: Seq<char>| #[trigger] self@.contains_key(x) implies self@[x]
            == old(self)@.insert(kv, v)[x] by {
            let j = key_index(self.keys(), x);
            if x != kv {
                assert(self.keys().contains(x));
                assert(0 <= j < self.keys().len() && self.keys()[j] == x);
                assert(j != i);
            } else {
                lemma_key_index(self.keys(), i as int);
            }
        };
        assert(self@ =~= old(self)@.insert(kv, v));
        old_v
    }

    /// Takes the entry of `k` out; the others keep their order.
    pub fn remove(&mut self, k: &String) -> (r: Option<V>)
        requires
            old(self).wf(),
        ensures
            final(self).wf(),
            final(self)@ == old(self)@.remove(k@),
            r is None <==> !old(self)@.contains_key(k@),
            r matches Some(v) ==> v == old(self)@[k@],
            old(self).keys().contains(k@) ==> final(self).keys() == old(self).keys().remove(
                key_index(old(self).keys(), k@),
            ) && final(self).values() == old(self).values().remove(
                key_index(old(self).keys(), k@),
            ),
            !old(self).keys().contains(k@) ==> final(self).keys() == old(self).keys()
                && final(self).values() == old(self).values(),
    {
        match self.find(k) {
            Some(i) => {
                let e = self.entries.remove(i);
                let ghost ok = old(self).keys();
                assert(self.keys() =~= ok.remove(i as int));
                assert(self.values() =~= old(self).values().remove(i as int));
                assert(self.keys().no_duplicates()) by {
                    assert forall|a: int, b: int|
                        0 <= a < self.keys().len() && 0 <= b < self.keys().len() && a != b implies
                        self.keys()[a] != self.keys()[b] by {
                        let oa = if a < i { a } else { a + 1 };
                        let ob = if b < i { b } else { b + 1 };
                        assert(self.keys()[a] == ok[oa]);
                        assert(self.keys()[b] == ok[ob]);
                    };
                };
                assert forall|x: Seq<char>| #[trigger] self@.contains_key(x) implies self@[x]
                    == old(self)@.remove(k@)[x] by {
                    let j = key_index(self.keys(), x);
                    assert(self.keys().contains(x));
                    assert(0 <= j < self.keys().len() && self.keys()[j] == x);
                    let oj = if j < i { j } else { j + 1 };
                    assert(ok[oj] == x);
                    lemma_key_index(ok, oj);
                };
                assert forall|x: Seq<char>| #[trigger] old(self)@.remove(k@).contains_key(x)
                    implies self@.contains_key(x) by {
                    let oj = key_index(ok, x);
                    assert(ok.contains(x));
                    assert(0 <= oj < ok.len() && ok[oj] == x);
                    assert(oj != i);
                    let j = if oj < i { oj } else { oj - 1 };
                    assert(self.keys()[j] == x);
                };
                assert(self@ =~= old(self)@.remove(k@));
                Some(e.1)
            },
            None => {
                assert(self@ =~= old(self)@.remove(k@));
                None
            },
        }
    }
}

} // verus!
