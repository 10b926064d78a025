use vstd::prelude::*;

verus! {

/// One key of a `StrMap` with the value stored under it.
pub struct Entry<V> {
    pub key: String,
    pub value: V,
}

/// A finite map from strings to values, kept as a list of entries whose keys
/// are pairwise distinct. The order of the entries is the order in which the
/// map hands its keys out; nothing but that order is observable beyond the
/// abstract `Map` that `view` gives.
pub struct StrMap<V> {
    entries: Vec<Entry<V>>,
}

/// In a sequence without duplicates, the index of an element is where it stands.
pub proof fn lemma_index_of_distinct<A>(s: Seq<A>, i: int)
    requires
        s.no_duplicates(),
        0 <= i < s.len(),
    ensures
        s.index_of(s[i]) == i,
{
    assert(s.contains(s[i]));
    let j = s.index_of(s[i]);
    assert(0 <= j < s.len() && s[j] == s[i]);
}

impl<V> View for StrMap<V> {
    type V = Map<Seq<char>, V>;

    closed spec fn view(&self) -> Map<Seq<char>, V> {
        Map::new(
            |k: Seq<char>| self.key_seq().contains(k),
            |k: Seq<char>| self.value_seq()[self.key_seq().index_of(k)],
        )
    }
}

impl<V> StrMap<V> {
    /// The keys, in the order in which the map hands them out.
    pub closed spec fn key_seq(&self) -> Seq<Seq<char>> {
        self.entries@.map_values(|e: Entry<V>| e.key@)
    }

    /// The values, aligned with `key_seq`.
    pub closed spec fn value_seq(&self) -> Seq<V> {
        self.entries@.map_values(|e: Entry<V>| e.value)
    }

    /// Well-formedness: no key occurs twice.
    pub closed spec fn wf(&self) -> bool {
        self.key_seq().no_duplicates()
    }

    /// How the abstract map relates to the two aligned sequences.
    pub proof fn lemma_view(&self)
        requires
            self.wf(),
        ensures
            self.key_seq().no_duplicates(),
            self.key_seq().len() == self.value_seq().len(),
            forall|k: Seq<char>| #[trigger]
                self@.contains_key(k) <==> self.key_seq().contains(k),
            forall|i: int|
                0 <= i < self.key_seq().len() ==> #[trigger] self@[self.key_seq()[i]]
                    == self.value_seq()[i],
            self@.dom().finite(),
            self@.len() == self.key_seq().len(),
    {
        assert forall|i: int| 0 <= i < self.key_seq().len() implies #[trigger] self@[self.key_seq()[i]]
            == self.value_seq()[i] by {
            lemma_index_of_distinct(self.key_seq(), i);
        }
        assert(self@.dom() =~= self.key_seq().to_set());
        self.key_seq().unique_seq_to_set();
    }

    /// An empty map.
    pub fn new() -> (r: Self)
        ensures
            r.wf(),
            r@ == Map::<Seq<char>, V>::empty(),
            r.key_seq() == Seq::<Seq<char>>::empty(),
    {
        let r = StrMap { entries: Vec::new() };
        assert(r@ =~= Map::<Seq<char>, V>::empty());
        assert(r.key_seq() =~= Seq::<Seq<char>>::empty());
        r
    }

    /// The number of keys.
    pub fn len(&self) -> (r: usize)
        ensures
            r == self.key_seq().len(),
            r == self.value_seq().len(),
    {
        self.entries.len()
    }

    /// The key at position `i` of `key_seq`.
    pub fn key_at(&self, i: usize) -> (r: &String)
        requires
            i < self.key_seq().len(),
        ensures
            r@ == self.key_seq()[i as int],
    {
        &self.entries[i].key
    }

    /// The value at position `i` of `value_seq`.
    pub fn value_at(&self, i: usize) -> (r: &V)
        requires
            i < self.value_seq().len(),
        ensures
            *r == self.value_seq()[i as int],
    {
        &self.entries[i].value
    }

    /// Where `k` stands in `key_seq`, if it is a key.
    pub fn find(&self, k: &str) -> (r: Option<usize>)
        requires
            self.wf(),
        ensures
            match r {
                Some(i) => i < self.key_seq().len() && self.key_seq()[i as int] == k@
                    && self@.contains_key(k@) && self@[k@] == self.value_seq()[i as int],
                None => !self@.contains_key(k@),
            },
    {
        proof {
            self.lemma_view();
        }
        let key = k.to_owned();
        let n = self.entries.len();
        let mut i: usize = 0;
        while i < n
            invariant
                n == self.key_seq().len(),
                i <= n,
                key@ == k@,
                self.wf(),
                forall|j: int| 0 <= j < i ==> self.key_seq()[j] != k@,
            decreases n - i,
        {
            if self.entries[i].key == key {
                proof {
                    assert(self.key_seq()[i as int] == self.entries@[i as int].key@);
                    self.lemma_view();
                    assert(self.key_seq().contains(k@));
                }
                return Some(i);
            }
            assert(self.key_seq()[i as int] == self.entries@[i as int].key@);
            i = i + 1;
        }
        None
    }

    /// Whether `k` is a key.
    pub fn contains_key(&self, k: &str) -> (r: bool)
        requires
            self.wf(),
        ensures
            r == self@.contains_key(k@),
    {
        self.find(k).is_some()
    }

    /// Puts `v` at position `i` and hands back the value that stood there.
    pub fn replace_at(&mut self, i: usize, v: V) -> (r: V)
        requires
            old(self).wf(),
            i < old(self).key_seq().len(),
        ensures
            final(self).wf(),
            r == old(self).value_seq()[i as int],
            r == old(self)@[old(self).key_seq()[i as int]],
            final(self).key_seq() == old(self).key_seq(),
            final(self).value_seq() == old(self).value_seq().update(i as int, v),
            final(self)@ == old(self)@.insert(old(self).key_seq()[i as int], v),
    {
        proof {
            self.lemma_view();
        }
        let ghost old_map = *self;
        let mut v = v;
        std::mem::swap(&mut self.entries[i].value, &mut v);
        proof {
            assert(self.key_seq() =~= old_map.key_seq());
            assert(self.value_seq() =~= old_map.value_seq().update(i as int, self.value_seq()[i as int]));
            self.lemma_view();
            assert(self@ =~= old_map@.insert(old_map.key_seq()[i as int], self.value_seq()[i as int]));
        }
        v
    }

    /// Stores `v` under `k`. Hands back the value that `k` had, if any.
    /// A new key goes to the end of `key_seq`; a known key keeps its place.
    pub fn insert(&mut self, k: String, v: V) -> (r: Option<V>)
        requires
            old(self).wf(),
        ensures
            final(self).wf(),
            final(self)@ == old(self)@.insert(k@, v),
            r is Some <==> old(self)@.contains_key(k@),
            r is Some ==> r->0 == old(self)@[k@],
            old(self)@.contains_key(k@) ==> final(self).key_seq() == old(self).key_seq(),
            !old(self)@.contains_key(k@) ==> final(self).key_seq() == old(self).key_seq().push(k@),
    {
        match self.find(k.as_str()) {
            Some(i) => {
                let old_v = self.replace_at(i, v);
                Some(old_v)
            },
            None => {
                let ghost old_map = *self;
                proof {
                    old_map.lemma_view();
                }
                self.entries.push(Entry { key: k, value: v });
                proof {
                    assert(self.key_seq() =~= old_map.key_seq().push(k@));
                    assert(self.value_seq() =~= old_map.value_seq().push(v));
                    assert(self.key_seq().no_duplicates()) by {
                        assert forall|a: int, b: int|
                            0 <= a < self.key_seq().len() && 0 <= b < self.key_seq().len() && a
                                != b implies self.key_seq()[a] != self.key_seq()[b] by {
                            if a == old_map.key_seq().len() {
                                assert(old_map.key_seq().contains(self.key_seq()[b]));
                            } else if b == old_map.key_seq().len() {
                                assert(old_map.key_seq().contains(self.key_seq()[a]));
                            }
                        }
                    }
                    self.lemma_view();
                    assert forall|x: Seq<char>| #[trigger] old_map@.insert(k@, v).contains_key(x) implies self@.contains_key(x) by {
                        if x == k@ {
                            assert(self.key_seq()[old_map.key_seq().len() as int] == x);
                        } else {
                            assert(old_map.key_seq().contains(x));
                            let j = old_map.key_seq().index_of(x);
                            assert(self.key_seq()[j] == x);
                        }
                    }
                    assert forall|x: Seq<char>| #[trigger] self@.contains_key(x) implies self@[x]
                        == old_map@.insert(k@, v)[x] && old_map@.insert(k@, v).contains_key(x) by {
                        let j = self.key_seq().index_of(x);
                        assert(self.key_seq().contains(x));
                        lemma_index_of_distinct(self.key_seq(), j);
                        if j < old_map.key_seq().len() {
                            assert(old_map.key_seq()[j] == x);
                        }
                    }
                    assert(self@ =~= old_map@.insert(k@, v));
                }
                None
            },
        }
    }

    /// Removes `k` and hands back its value, if it was a key. The other keys
    /// keep their order.
    pub fn remove(&mut self, k: &str) -> (r: Option<V>)
        requires
            old(self).wf(),
        ensures
            final(self).wf(),
            final(self)@ == old(self)@.remove(k@),
            r is Some <==> old(self)@.contains_key(k@),
            r is Some ==> r->0 == old(self)@[k@],
    {
        match self.find(k) {
            Some(i) => {
                let ghost old_map = *self;
                proof {
                    old_map.lemma_view();
                }
                let e = self.entries.remove(i);
                proof {
                    assert(self.key_seq() =~= old_map.key_seq().remove(i as int));
                    assert(self.value_seq() =~= old_map.value_seq().remove(i as int));
                    assert(self.key_seq().no_duplicates()) by {
                        assert forall|a: int, b: int|
                            0 <= a < self.key_seq().len() && 0 <= b < self.key_seq().len() && a
                                != b implies self.key_seq()[a] != self.key_seq()[b] by {
                            let oa = if a < i { a } else { a + 1 };
                            let ob = if b < i { b } else { b + 1 };
                            assert(self.key_seq()[a] == old_map.key_seq()[oa]);
                            assert(self.key_seq()[b] == old_map.key_seq()[ob]);
                        }
                    }
                    self.lemma_view();
                    assert forall|x: Seq<char>| #[trigger] self@.contains_key(x) implies self@[x]
                        == old_map@.remove(k@)[x] && x != k@ by {
                        let j = self.key_seq().index_of(x);
                        assert(self.key_seq().contains(x));
                        lemma_index_of_distinct(self.key_seq(), j);
                        let oj = if j < i { j } else { j + 1 };
                        assert(old_map.key_seq()[oj] == x);
                    }
                    assert forall|x: Seq<char>| #[trigger] old_map@.remove(k@).contains_key(x) implies self@.contains_key(x) by {
                        assert(old_map.key_seq().contains(x));
                        let oj = old_map.key_seq().index_of(x);
                        let j = if oj < i { oj } else { oj - 1 };
                        assert(self.key_seq()[j] == x);
                    }
                    assert(self@ =~= old_map@.remove(k@));
                }
                Some(e.value)
            },
            None => {
                proof {
                    assert(self@ =~= self@.remove(k@));
                }
                None
            },
        }
    }
}

} // verus!
