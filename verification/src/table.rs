use vstd::prelude::*;

verus! {

/// An association table with `String` keys, viewed as a total map from
/// key views to value views. Keys are pairwise distinct, so the map view
/// determines the contents up to entry order.
pub struct Table<V> {
    entries: Vec<(String, V)>,
}

/// Pairwise-distinct key views.
pub open spec fn keys_distinct(s: Seq<Seq<char>>) -> bool {
    forall|i: int, j: int| 0 <= i < j < s.len() ==> s[i] != s[j]
}

spec fn witness_index<V>(s: Seq<(String, V)>, k: Seq<char>) -> int {
    choose|i: int| 0 <= i < s.len() && s[i].0@ == k
}

impl<V> Table<V> {
    #[verifier::type_invariant]
    pub closed spec fn inv(self) -> bool {
        keys_distinct(self.keys_seq())
    }

    /// The keys, in entry order.
    pub closed spec fn keys_seq(self) -> Seq<Seq<char>> {
        self.entries@.map(|i: int, e: (String, V)| e.0@)
    }
}

impl<V: View> Table<V> {
    /// The values, in entry order.
    pub closed spec fn vals_seq(self) -> Seq<V::V> {
        self.entries@.map(|i: int, e: (String, V)| e.1@)
    }

    proof fn lemma_view_index(self, i: int)
        requires
            self.inv(),
            0 <= i < self.entries@.len(),
        ensures
            self@.contains_key(self.entries@[i].0@),
            self@[self.entries@[i].0@] == self.entries@[i].1@,
    {
        let k = self.entries@[i].0@;
        assert(exists|j: int|
            0 <= j < self.entries@.len() && self.entries@[j].0@ == k);
        let j = witness_index(self.entries@, k);
        assert(0 <= j < self.entries@.len() && self.entries@[j].0@ == k);
        assert(self@.contains_key(k));
        assert(self@[k] == self.entries@[j].1@);
        assert(self.keys_seq()[i] == k && self.keys_seq()[j] == k);
        if j != i {
            if j < i {
                assert(self.keys_seq()[j] != self.keys_seq()[i]);
            } else {
                assert(self.keys_seq()[i] != self.keys_seq()[j]);
            }
        }
        assert(j == i);
    }

    pub fn new() -> (r: Self)
        ensures
            r@ == Map::<Seq<char>, V::V>::empty(),
            r.keys_seq() == Seq::<Seq<char>>::empty(),
    {
        let r = Table { entries: Vec::new() };
        proof {
            assert(r.keys_seq() =~= Seq::<Seq<char>>::empty());
            assert(r@ =~= Map::<Seq<char>, V::V>::empty());
        }
        r
    }

    fn find_index(&self, k: &String) -> (r: Option<usize>)
        ensures
            match r {
                Some(j) => j < self.entries@.len() && self.entries@[j as int].0@ == k@,
                None => forall|j: int|
                    0 <= j < self.entries@.len() ==> self.entries@[j].0@ != k@,
            },
    {
        let n: usize = self.entries.len();
        let mut i: usize = 0;
        while i < n
            invariant
                n == self.entries@.len(),
                i <= n,
                forall|j: int| 0 <= j < i ==> self.entries@[j].0@ != k@,
            decreases n - i,
        {
            if self.entries[i].0 == *k {
                return Some(i);
            }
            i = i + 1;
        }
        None
    }

    /// Whether the table holds the key.
    pub fn contains_key(&self, k: &String) -> (r: bool)
        ensures
            r == self@.contains_key(k@),
    {
        proof {
            use_type_invariant(self);
        }
        match self.find_index(k) {
            Some(j) => {
                proof {
                    self.lemma_view_index(j as int);
                }
                true
            },
            None => {
                proof {
                    if self@.contains_key(k@) {
                        let i = choose|i: int|
                            0 <= i < self.entries@.len() && self.entries@[i].0@ == k@;
                        assert(false);
                    }
                }
                false
            },
        }
    }

    /// Looks a key up.
    pub fn get<'a>(&'a self, k: &String) -> (r: Option<&'a V>)
        ensures
            match r {
                Some(v) => self@.contains_key(k@) && v@ == self@[k@],
                None => !self@.contains_key(k@),
            },
    {
        proof {
            use_type_invariant(self);
        }
        match self.find_index(k) {
            Some(j) => {
                proof {
                    self.lemma_view_index(j as int);
                }
                Some(&self.entries[j].1)
            },
            None => {
                proof {
                    if self@.contains_key(k@) {
                        let i = choose|i: int|
                            0 <= i < self.entries@.len() && self.entries@[i].0@ == k@;
                        assert(false);
                    }
                }
                None
            },
        }
    }

    /// Inserts or replaces the value under a key.
    pub fn set(&mut self, k: &String, v: V)
        ensures
            final(self)@ == old(self)@.insert(k@, v@),
            final(self).keys_seq() == (if old(self)@.contains_key(k@) {
                old(self).keys_seq()
            } else {
                old(self).keys_seq().push(k@)
            }),
    {
        proof {
            use_type_invariant(&*self);
        }
        let ghost pre = *self;
        let found = self.find_index(k);
        let mut moved: Vec<(String, V)> = Vec::new();
        proof {
            assert(Seq::<(String, V)>::empty().map(|i: int, e: (String, V)| e.0@)
                =~= Seq::<Seq<char>>::empty());
        }
        core::mem::swap(&mut self.entries, &mut moved);
        match found {
            Some(j) => {
                proof {
                    pre.lemma_view_index(j as int);
                }
                moved[j] = (k.clone(), v);
                proof {
                    assert(moved@.map(|i: int, e: (String, V)| e.0@) =~= pre.keys_seq());
                }
            },
            None => {
                proof {
                    if pre@.contains_key(k@) {
                        let i = choose|i: int|
                            0 <= i < pre.entries@.len() && pre.entries@[i].0@ == k@;
                        assert(false);
                    }
                }
                moved.push((k.clone(), v));
                proof {
                    let ks = moved@.map(|i: int, e: (String, V)| e.0@);
                    assert(ks =~= pre.keys_seq().push(k@));
                    assert forall|a: int| 0 <= a < pre.keys_seq().len() implies #[trigger] pre.keys_seq()[a] != k@ by {
                        assert(pre.entries@[a].0@ != k@);
                    }
                    assert(keys_distinct(ks));
                }
            },
        }
        core::mem::swap(&mut self.entries, &mut moved);
        match found {
            Some(j) => {
                proof {
                    assert(self.keys_seq() =~= pre.keys_seq());
                    assert forall|q: Seq<char>| #[trigger] self@.contains_key(q) implies pre@.insert(k@, v@).contains_key(q) by {
                        let i = choose|i: int|
                            0 <= i < self.entries@.len() && self.entries@[i].0@ == q;
                        assert(pre.entries@[i].0@ == q || q == k@);
                    }
                    assert forall|q: Seq<char>| #[trigger] pre@.insert(k@, v@).contains_key(q) implies self@.contains_key(q) && self@[q] == pre@.insert(k@, v@)[q] by {
                        if q == k@ {
                            self.lemma_view_index(j as int);
                        } else {
                            let i = choose|i: int|
                                0 <= i < pre.entries@.len() && pre.entries@[i].0@ == q;
                            assert(self.entries@[i].0@ == q && self.entries@[i].1@ == pre.entries@[i].1@);
                            self.lemma_view_index(i);
                            pre.lemma_view_index(i);
                        }
                    }
                    assert(self@ =~= pre@.insert(k@, v@));
                }
            },
            None => {
                proof {
                    let n = pre.entries@.len() as int;
                    assert(self.keys_seq() =~= pre.keys_seq().push(k@));
                    assert forall|q: Seq<char>| #[trigger] self@.contains_key(q) implies pre@.insert(k@, v@).contains_key(q) by {
                        let i = choose|i: int|
                            0 <= i < self.entries@.len() && self.entries@[i].0@ == q;
                        if i < n {
                            assert(pre.entries@[i].0@ == q);
                        } else {
                            assert(q == k@);
                        }
                    }
                    assert forall|q: Seq<char>| #[trigger] pre@.insert(k@, v@).contains_key(q) implies self@.contains_key(q) && self@[q] == pre@.insert(k@, v@)[q] by {
                        if q == k@ {
                            self.lemma_view_index(n);
                        } else {
                            let i = choose|i: int|
                                0 <= i < pre.entries@.len() && pre.entries@[i].0@ == q;
                            assert(self.entries@[i].0@ == q && self.entries@[i].1@ == pre.entries@[i].1@);
                            self.lemma_view_index(i);
                            pre.lemma_view_index(i);
                        }
                    }
                    assert(self@ =~= pre@.insert(k@, v@));
                }
            },
        }
    }

    /// The number of entries, with the facts that connect the entry
    /// order to the map view.
    pub fn len(&self) -> (r: usize)
        ensures
            r == self.keys_seq().len(),
            self.vals_seq().len() == self.keys_seq().len(),
            keys_distinct(self.keys_seq()),
            forall|k: Seq<char>| #[trigger] self@.contains_key(k) <==> self.keys_seq().contains(k),
            forall|i: int|
                0 <= i < self.keys_seq().len() ==> self@.contains_key(#[trigger] self.keys_seq()[i])
                    && self@[self.keys_seq()[i]] == self.vals_seq()[i],
    {
        proof {
            use_type_invariant(self);
            assert forall|i: int|
                0 <= i < self.keys_seq().len() implies self@.contains_key(
                #[trigger] self.keys_seq()[i]) && self@[self.keys_seq()[i]]
                == self.vals_seq()[i] by {
                self.lemma_view_index(i);
            }
            assert forall|k: Seq<char>| #[trigger] self@.contains_key(k) implies self.keys_seq().contains(k) by {
                let i = choose|i: int|
                    0 <= i < self.entries@.len() && self.entries@[i].0@ == k;
                assert(self.keys_seq()[i] == k);
            }
            assert forall|k: Seq<char>| self.keys_seq().contains(k) implies #[trigger] self@.contains_key(k) by {
                let i = choose|i: int| 0 <= i < self.keys_seq().len() && self.keys_seq()[i] == k;
                self.lemma_view_index(i);
            }
        }
        self.entries.len()
    }

    /// Whether the table holds nothing.
    pub fn is_empty(&self) -> (r: bool)
        ensures
            r == (self@ == Map::<Seq<char>, V::V>::empty()),
    {
        let n = self.len();
        if n == 0 {
            proof {
                assert forall|k: Seq<char>| !(#[trigger] self@.contains_key(k)) by {
                    if self@.contains_key(k) {
                        let i = choose|i: int|
                            0 <= i < self.keys_seq().len() && self.keys_seq()[i] == k;
                        assert(self.keys_seq().contains(k));
                    }
                }
                assert(self@ =~= Map::<Seq<char>, V::V>::empty());
            }
            true
        } else {
            proof {
                assert(self@.contains_key(self.keys_seq()[0]));
            }
            false
        }
    }

    /// The key of the entry at an index.
    pub fn key_at(&self, i: usize) -> (r: &String)
        requires
            i < self.keys_seq().len(),
        ensures
            r@ == self.keys_seq()[i as int],
            self@.contains_key(r@),
            self@[r@] == self.vals_seq()[i as int],
    {
        proof {
            use_type_invariant(self);
            self.lemma_view_index(i as int);
        }
        &self.entries[i].0
    }

    /// The value of the entry at an index.
    pub fn val_at(&self, i: usize) -> (r: &V)
        requires
            i < self.keys_seq().len(),
        ensures
            r@ == self.vals_seq()[i as int],
            self@.contains_key(self.keys_seq()[i as int]),
            self@[self.keys_seq()[i as int]] == r@,
    {
        proof {
            use_type_invariant(self);
            self.lemma_view_index(i as int);
        }
        &self.entries[i].1
    }
}

impl<V: View> View for Table<V> {
    type V = Map<Seq<char>, V::V>;

    closed spec fn view(&self) -> Map<Seq<char>, V::V> {
        Map::new(
            |k: Seq<char>|
                exists|i: int| 0 <= i < self.entries@.len() && self.entries@[i].0@ == k,
            |k: Seq<char>| self.entries@[witness_index(self.entries@, k)].1@,
        )
    }
}

} // verus!
