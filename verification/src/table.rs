//! An association list from string keys to values with unique keys: the
//! crate's mapping container, viewed as a `Map<Seq<char>, V::V>`.

use vstd::prelude::*;

verus! {

/// A mapping from string keys to values, stored as a vector of pairs
/// whose keys are pairwise distinct (see [`Table::wf`]).
#[derive(Clone, Debug, PartialEq)]
pub struct Table<V> {
    pub entries: Vec<(String, V)>,
}

impl<V: View> Table<V> {
    /// The mapping a sequence of key-value pairs represents; a later pair
    /// overrides an earlier one with the same key.
    pub open spec fn view_of(entries: Seq<(String, V)>) -> Map<Seq<char>, V::V>
        decreases entries.len(),
    {
        if entries.len() == 0 {
            Map::empty()
        } else {
            Self::view_of(entries.drop_last()).insert(
                entries.last().0@,
                entries.last().1@,
            )
        }
    }

    /// A raw pair sequence in storage order, by view.
    pub open spec fn pairs_of(entries: Seq<(String, V)>) -> Seq<(Seq<char>, V::V)> {
        entries.map_values(|p: (String, V)| (p.0@, p.1@))
    }

    /// The table's pairs in storage order, by view.
    pub open spec fn pairs(self) -> Seq<(Seq<char>, V::V)> {
        Self::pairs_of(self.entries@)
    }

    /// Key uniqueness over a raw pair sequence.
    pub open spec fn distinct_keys(entries: Seq<(String, V)>) -> bool {
        forall|i: int, j: int|
            0 <= i < j < entries.len() ==> entries[i].0@ != entries[j].0@
    }

    /// Well-formedness: no key occurs twice.
    pub open spec fn wf(self) -> bool {
        Self::distinct_keys(self.entries@)
    }

    /// A key is in the mapping exactly when some pair carries it.
    pub proof fn lemma_view_contains(entries: Seq<(String, V)>, k: Seq<char>)
        ensures
            Self::view_of(entries).contains_key(k) <==> exists|i: int|
                0 <= i < entries.len() && #[trigger] entries[i].0@ == k,
        decreases entries.len(),
    {
        if entries.len() > 0 {
            Self::lemma_view_contains(entries.drop_last(), k);
            if entries.last().0@ == k {
                assert(entries[entries.len() - 1].0@ == k);
            } else if Self::view_of(entries).contains_key(k) {
                let i = choose|i: int|
                    0 <= i < entries.drop_last().len() && #[trigger] entries.drop_last()[i].0@ == k;
                assert(entries[i].0@ == k);
            } else {
                assert forall|i: int|
                    0 <= i < entries.len() && #[trigger] entries[i].0@ == k implies false by {
                    if i < entries.len() - 1 {
                        assert(entries.drop_last()[i].0@ == k);
                    }
                }
            }
        }
    }

    /// With distinct keys, the mapping sends each stored key to its
    /// stored value.
    pub proof fn lemma_view_at(entries: Seq<(String, V)>, i: int)
        requires
            Self::distinct_keys(entries),
            0 <= i < entries.len(),
        ensures
            Self::view_of(entries).contains_key(entries[i].0@),
            Self::view_of(entries)[entries[i].0@] == entries[i].1@,
        decreases entries.len(),
    {
        Self::lemma_view_contains(entries, entries[i].0@);
        if i < entries.len() - 1 {
            assert(entries.drop_last()[i] == entries[i]);
            Self::lemma_view_at(entries.drop_last(), i);
            assert(entries.last().0@ != entries[i].0@);
        }
    }

    /// Appending a pair inserts its binding.
    pub proof fn lemma_view_push(entries: Seq<(String, V)>, p: (String, V))
        ensures
            Self::view_of(entries.push(p)) == Self::view_of(entries).insert(p.0@, p.1@),
    {
        assert(entries.push(p).drop_last() =~= entries);
        assert(entries.push(p).last() == p);
    }

    /// Removing the one pair that carries a key removes its binding.
    pub proof fn lemma_view_remove(entries: Seq<(String, V)>, i: int)
        requires
            Self::distinct_keys(entries),
            0 <= i < entries.len(),
        ensures
            Self::view_of(entries.remove(i)) == Self::view_of(entries).remove(entries[i].0@),
        decreases entries.len(),
    {
        let k = entries[i].0@;
        if i == entries.len() - 1 {
            assert(entries.remove(i) =~= entries.drop_last());
            Self::lemma_view_contains(entries.drop_last(), k);
            assert forall|j: int|
                0 <= j < entries.drop_last().len() implies #[trigger] entries.drop_last()[j].0@ != k by {
                assert(entries[j].0@ == entries.drop_last()[j].0@);
            }
            assert(!Self::view_of(entries.drop_last()).contains_key(k));
            assert(Self::view_of(entries.drop_last())
                =~= Self::view_of(entries.drop_last()).insert(k, entries[i].1@).remove(k));
        } else {
            assert(entries.remove(i).drop_last() =~= entries.drop_last().remove(i));
            assert(entries.remove(i).last() == entries.last());
            assert forall|a: int, b: int|
                0 <= a < b < entries.drop_last().len() implies
                #[trigger] entries.drop_last()[a].0@ != #[trigger] entries.drop_last()[b].0@ by {
                assert(entries.drop_last()[a] == entries[a]);
                assert(entries.drop_last()[b] == entries[b]);
            }
            Self::lemma_view_remove(entries.drop_last(), i);
            assert(entries.drop_last()[i] == entries[i]);
            let lk = entries.last().0@;
            let lv = entries.last().1@;
            assert(entries[entries.len() - 1].0@ == lk);
            assert(lk != k);
            assert(Self::view_of(entries.drop_last()).remove(k).insert(lk, lv)
                =~= Self::view_of(entries.drop_last()).insert(lk, lv).remove(k));
        }
    }

    /// Removing a pair keeps the remaining keys distinct.
    pub proof fn lemma_distinct_remove(entries: Seq<(String, V)>, i: int)
        requires
            Self::distinct_keys(entries),
            0 <= i < entries.len(),
        ensures
            Self::distinct_keys(entries.remove(i)),
    {
        assert forall|a: int, b: int|
            0 <= a < b < entries.remove(i).len() implies
            #[trigger] entries.remove(i)[a].0@ != #[trigger] entries.remove(i)[b].0@ by {
            let a0: int = if a < i { a } else { a + 1 };
            let b0: int = if b < i { b } else { b + 1 };
            assert(entries.remove(i)[a] == entries[a0]);
            assert(entries.remove(i)[b] == entries[b0]);
        }
    }

    /// An empty table.
    pub fn new() -> (r: Self)
        ensures
            r@ == Map::<Seq<char>, V::V>::empty(),
            r.wf(),
            r.entries@.len() == 0,
    {
        let r = Table { entries: Vec::new() };
        proof {
            assert(r@ =~= Map::<Seq<char>, V::V>::empty());
        }
        r
    }

    /// How many keys the table holds.
    pub fn len(&self) -> (n: usize)
        ensures
            n == self.entries@.len(),
    {
        self.entries.len()
    }

    /// The position of the pair carrying a key, if any.
    fn index_of(&self, k: &String) -> (r: Option<usize>)
        ensures
            match r {
                Some(i) => i < self.entries@.len() && self.entries@[i as int].0@ == k@,
                None => forall|i: int|
                    0 <= i < self.entries@.len() ==> #[trigger] self.entries@[i].0@ != k@,
            },
    {
        let n = self.entries.len();
        let mut i: usize = 0;
        while i < n
            invariant
                n == self.entries@.len(),
                i <= n,
                forall|j: int| 0 <= j < i ==> #[trigger] self.entries@[j].0@ != k@,
            decreases n - i,
        {
            if self.entries[i].0 == *k {
                return Some(i);
            }
            i = i + 1;
        }
        None
    }

    /// Whether a key is bound.
    pub fn contains_key(&self, k: &String) -> (r: bool)
        ensures
            r == self@.contains_key(k@),
    {
        proof {
            Self::lemma_view_contains(self.entries@, k@);
        }
        self.index_of(k).is_some()
    }

    /// The value bound to a key, if any.
    pub fn get(&self, k: &String) -> (r: Option<&V>)
        requires
            self.wf(),
        ensures
            match r {
                Some(v) => self@.contains_key(k@) && v@ == self@[k@],
                None => !self@.contains_key(k@),
            },
    {
        proof {
            Self::lemma_view_contains(self.entries@, k@);
        }
        match self.index_of(k) {
            Some(i) => {
                proof {
                    Self::lemma_view_at(self.entries@, i as int);
                }
                Some(&self.entries[i].1)
            }
            None => None,
        }
    }

    /// Binds a key to a value, replacing any earlier binding. Every pair
    /// stored afterwards is either the new pair or one stored before.
    pub fn insert(&mut self, k: String, v: V)
        requires
            old(self).wf(),
        ensures
            final(self).wf(),
            final(self)@ == old(self)@.insert(k@, v@),
            final(self)@.contains_key(k@),
            forall|j: int|
                0 <= j < final(self).entries@.len() ==> #[trigger] final(self).entries@[j]
                    == (k, v) || exists|i: int|
                    0 <= i < old(self).entries@.len() && old(self).entries@[i]
                        == final(self).entries@[j],
    {
        let found = self.index_of(&k);
        match found {
            Some(i) => {
                proof {
                    Self::lemma_view_remove(self.entries@, i as int);
                    Self::lemma_distinct_remove(self.entries@, i as int);
                }
                let ghost mid = self.entries@.remove(i as int);
                self.entries.remove(i);
                proof {
                    Self::lemma_view_push(mid, (k, v));
                    assert forall|j: int|
                        0 <= j < mid.len() implies #[trigger] mid[j].0@ != k@ by {
                        let j0: int = if j < i { j } else { j + 1 };
                        assert(mid[j] == old(self).entries@[j0]);
                    }
                    assert(Self::view_of(old(self).entries@).remove(k@).insert(k@, v@)
                        =~= Self::view_of(old(self).entries@).insert(k@, v@));
                }
                self.entries.push((k, v));
                proof {
                    assert forall|a: int, b: int|
                        0 <= a < b < final(self).entries@.len() implies
                        #[trigger] final(self).entries@[a].0@
                            != #[trigger] final(self).entries@[b].0@ by {
                        if b < final(self).entries@.len() - 1 {
                            assert(final(self).entries@[a] == mid[a]);
                            assert(final(self).entries@[b] == mid[b]);
                        } else {
                            assert(final(self).entries@[a] == mid[a]);
                        }
                    }
                    assert forall|j: int|
                        0 <= j < final(self).entries@.len() - 1 implies exists|i0: int|
                        0 <= i0 < old(self).entries@.len() && old(self).entries@[i0]
                            == #[trigger] final(self).entries@[j] by {
                        let i0: int = if j < i as int {
                            j
                        } else {
                            j + 1
                        };
                        assert(final(self).entries@[j] == mid[j]);
                        assert(old(self).entries@[i0] == mid[j]);
                    }
                }
            }
            None => {
                proof {
                    Self::lemma_view_push(self.entries@, (k, v));
                }
                let ghost pre = self.entries@;
                self.entries.push((k, v));
                proof {
                    assert forall|a: int, b: int|
                        0 <= a < b < final(self).entries@.len() implies
                        #[trigger] final(self).entries@[a].0@
                            != #[trigger] final(self).entries@[b].0@ by {
                        if b < final(self).entries@.len() - 1 {
                            assert(final(self).entries@[a] == pre[a]);
                            assert(final(self).entries@[b] == pre[b]);
                        } else {
                            assert(final(self).entries@[a] == pre[a]);
                        }
                    }
                    assert forall|j: int|
                        0 <= j < final(self).entries@.len() - 1 implies exists|i0: int|
                        0 <= i0 < old(self).entries@.len() && old(self).entries@[i0]
                            == #[trigger] final(self).entries@[j] by {
                        assert(old(self).entries@[j] == final(self).entries@[j]);
                    }
                }
            }
        }
    }

    /// Unbinds a key; a no-op when the key is absent. Every pair stored
    /// afterwards was stored before.
    pub fn remove(&mut self, k: &String)
        requires
            old(self).wf(),
        ensures
            final(self).wf(),
            final(self)@ == old(self)@.remove(k@),
            forall|j: int|
                0 <= j < final(self).entries@.len() ==> exists|i: int|
                    0 <= i < old(self).entries@.len() && old(self).entries@[i]
                        == #[trigger] final(self).entries@[j],
    {
        let _ = self.take(k);
    }

    /// Unbinds a key and hands its value back, if it was bound. Every
    /// pair stored afterwards was stored before.
    pub fn take(&mut self, k: &String) -> (r: Option<V>)
        requires
            old(self).wf(),
        ensures
            final(self).wf(),
            final(self)@ == old(self)@.remove(k@),
            match r {
                Some(v) => old(self)@.contains_key(k@) && exists|i: int|
                    0 <= i < old(self).entries@.len() && old(self).entries@[i].0@ == k@
                        && old(self).entries@[i].1 == v && v@ == old(self)@[k@],
                None => !old(self)@.contains_key(k@),
            },
            forall|j: int|
                0 <= j < final(self).entries@.len() ==> exists|i: int|
                    0 <= i < old(self).entries@.len() && old(self).entries@[i]
                        == #[trigger] final(self).entries@[j],
    {
        proof {
            Self::lemma_view_contains(self.entries@, k@);
        }
        let found = self.index_of(k);
        match found {
            Some(i) => {
                proof {
                    Self::lemma_view_remove(self.entries@, i as int);
                    Self::lemma_distinct_remove(self.entries@, i as int);
                    Self::lemma_view_at(self.entries@, i as int);
                }
                let pair = self.entries.remove(i);
                proof {
                    assert forall|j: int|
                        0 <= j < final(self).entries@.len() implies exists|i0: int|
                        0 <= i0 < old(self).entries@.len() && old(self).entries@[i0]
                            == #[trigger] final(self).entries@[j] by {
                        let i0: int = if j < i as int {
                            j
                        } else {
                            j + 1
                        };
                        assert(old(self).entries@[i0] == final(self).entries@[j]);
                    }
                }
                Some(pair.1)
            }
            None => {
                proof {
                    assert(self@ =~= self@.remove(k@));
                }
                None
            }
        }
    }

    /// Decides whether any key occurs twice.
    pub fn keys_distinct(&self) -> (r: bool)
        ensures
            r == self.wf(),
    {
        let n = self.entries.len();
        let mut i: usize = 0;
        while i < n
            invariant
                n == self.entries@.len(),
                i <= n,
                forall|a: int, b: int|
                    0 <= a < b < n && a < i ==> self.entries@[a].0@ != self.entries@[b].0@,
            decreases n - i,
        {
            let mut j: usize = i + 1;
            while j < n
                invariant
                    n == self.entries@.len(),
                    i < j <= n,
                    i < n,
                    forall|b: int|
                        i < b < j ==> self.entries@[i as int].0@ != #[trigger] self.entries@[b].0@,
                decreases n - j,
            {
                if self.entries[i].0 == self.entries[j].0 {
                    return false;
                }
                j = j + 1;
            }
            i = i + 1;
        }
        true
    }

    /// Builds a table from raw pairs after checking that no key occurs
    /// twice; hands back nothing when one does.
    pub fn from_entries(entries: Vec<(String, V)>) -> (r: Option<Table<V>>)
        ensures
            match r {
                Some(t) => t.entries@ == entries@ && t.wf(),
                None => !Self::distinct_keys(entries@),
            },
    {
        let n = entries.len();
        let mut i: usize = 0;
        while i < n
            invariant
                n == entries@.len(),
                i <= n,
                forall|a: int, b: int|
                    0 <= a < b < n && a < i ==> entries@[a].0@ != entries@[b].0@,
            decreases n - i,
        {
            let mut j: usize = i + 1;
            while j < n
                invariant
                    n == entries@.len(),
                    i < j <= n,
                    i < n,
                    forall|b: int| i < b < j ==> entries@[i as int].0@ != #[trigger] entries@[b].0@,
                decreases n - j,
            {
                if entries[i].0 == entries[j].0 {
                    return None;
                }
                j = j + 1;
            }
            i = i + 1;
        }
        Some(Table { entries })
    }

    /// The key stored at a position.
    pub fn key_at(&self, i: usize) -> (k: &String)
        requires
            i < self.entries@.len(),
        ensures
            k@ == self.entries@[i as int].0@,
            self.wf() ==> self@.contains_key(k@)
                && self@[k@] == self.entries@[i as int].1@,
    {
        proof {
            if self.wf() {
                Self::lemma_view_at(self.entries@, i as int);
            }
        }
        &self.entries[i].0
    }

    /// The value stored at a position.
    pub fn val_at(&self, i: usize) -> (v: &V)
        requires
            i < self.entries@.len(),
        ensures
            v == self.entries@[i as int].1,
            self.wf() ==> self@.contains_key(self.entries@[i as int].0@)
                && self@[self.entries@[i as int].0@] == v@,
    {
        proof {
            if self.wf() {
                Self::lemma_view_at(self.entries@, i as int);
            }
        }
        &self.entries[i].1
    }
}

impl<V: View> View for Table<V> {
    type V = Map<Seq<char>, V::V>;

    open spec fn view(&self) -> Map<Seq<char>, V::V> {
        Table::view_of(self.entries@)
    }
}

} // verus!
