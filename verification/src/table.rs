//! A table with text keys: rows in insertion order, no key twice.
use vstd::prelude::*;
use crate::text::same;

verus! {

pub struct Table<V> {
    rows: Vec<(String, V)>,
}

impl<V: View> Table<V> {
    /// The keys in the order of their rows.
    pub closed spec fn keys(&self) -> Seq<Seq<char>> {
        Seq::new(self.rows@.len(), |i: int| self.rows@[i].0@)
    }

    /// The contents of the row at `i`.
    pub closed spec fn value_at(&self, i: int) -> V::V {
        self.rows@[i].1@
    }

    /// No key stands in two rows.
    pub open spec fn wf(&self) -> bool {
        self.keys().no_duplicates()
    }

    /// The table as a map from key to contents.
    pub open spec fn map(&self) -> Map<Seq<char>, V::V> {
        Map::new(
            |k: Seq<char>| self.keys().contains(k),
            |k: Seq<char>| self.value_at(self.keys().index_of(k)),
        )
    }

    pub fn new() -> (t: Self)
        ensures
            t.wf(),
            t.keys() == Seq::<Seq<char>>::empty(),
            t.map() == Map::<Seq<char>, V::V>::empty(),
    {
        let t = Table { rows: Vec::new() };
        assert(t.map() =~= Map::<Seq<char>, V::V>::empty());
        t
    }

    pub fn len(&self) -> (n: usize)
        ensures
            n == self.keys().len(),
    {
        self.rows.len()
    }

    pub fn key(&self, i: usize) -> (k: &String)
        requires
            i < self.keys().len(),
        ensures
            k@ == self.keys()[i as int],
    {
        &self.rows[i].0
    }

    pub fn value(&self, i: usize) -> (v: &V)
        requires
            self.wf(),
            i < self.keys().len(),
        ensures
            v@ == self.value_at(i as int),
            self.map().contains_key(self.keys()[i as int]),
            v@ == self.map()[self.keys()[i as int]],
    {
        proof {
            self.key_is_mapped(i as int);
        }
        &self.rows[i].1
    }

    /// Each row's key is mapped to that row's contents.
    pub proof fn key_is_mapped(&self, i: int)
        requires
            self.wf(),
            0 <= i < self.keys().len(),
        ensures
            self.map().contains_key(self.keys()[i]),
            self.map()[self.keys()[i]] == self.value_at(i),
    {
        assert(self.keys().contains(self.keys()[i]));
        let j = self.keys().index_of(self.keys()[i]);
        assert(self.keys()[j] == self.keys()[i]);
    }

    /// Two tables with the same keys and contents, row by row, are the same map.
    proof fn map_by_rows(&self, m: Map<Seq<char>, V::V>)
        requires
            self.wf(),
            forall|k: Seq<char>| #[trigger] m.contains_key(k) <==> self.keys().contains(k),
            forall|i: int|
                #![trigger self.keys()[i]]
                0 <= i < self.keys().len() ==> m[self.keys()[i]] == self.value_at(i),
        ensures
            self.map() == m,
    {
        assert forall|k: Seq<char>| self.map().contains_key(k) implies self.map()[k] == m[k] by {
            let i = self.keys().index_of(k);
            assert(self.keys()[i] == k);
        }
        assert(self.map() =~= m);
    }

    /// The row with key `k`, by its position.
    pub fn find(&self, k: &str) -> (r: Option<usize>)
        requires
            self.wf(),
        ensures
            r is Some <==> self.map().contains_key(k@),
            r matches Some(i) ==> i < self.keys().len() && self.keys()[i as int] == k@,
    {
        let mut i: usize = 0;
        while i < self.rows.len()
            invariant
                i <= self.rows.len(),
                forall|j: int| 0 <= j < i ==> #[trigger] self.keys()[j] != k@,
            decreases self.rows.len() - i,
        {
            if same(&self.rows[i].0, k) {
                proof {
                    assert(self.keys()[i as int] == k@);
                }
                return Some(i);
            }
            assert(self.keys()[i as int] != k@);
            i += 1;
        }
        None
    }

    pub fn contains(&self, k: &str) -> (r: bool)
        requires
            self.wf(),
        ensures
            r == self.map().contains_key(k@),
    {
        self.find(k).is_some()
    }

    pub fn get(&self, k: &str) -> (r: Option<&V>)
        requires
            self.wf(),
        ensures
            r is Some <==> self.map().contains_key(k@),
            r matches Some(v) ==> v@ == self.map()[k@],
    {
        match self.find(k) {
            Some(i) => Some(self.value(i)),
            None => None,
        }
    }

    /// Writes the row with key `k`, in its place where there is one, else at the end.
    pub fn insert(&mut self, k: &str, v: V)
        requires
            old(self).wf(),
        ensures
            final(self).wf(),
            final(self).map() == old(self).map().insert(k@, v@),
            final(self).keys() == if old(self).map().contains_key(k@) {
                old(self).keys()
            } else {
                old(self).keys().push(k@)
            },
    {
        let ghost before = *self;
        match self.find(k) {
            Some(i) => {
                self.rows.set(i, (k.to_owned(), v));
                proof {
                    assert(self.keys() =~= before.keys());
                    assert forall|j: int|
                        #![trigger self.keys()[j]]
                        0 <= j < self.keys().len() implies before.map().insert(
                        k@,
                        v@,
                    )[self.keys()[j]] == self.value_at(j) by {
                        before.key_is_mapped(j);
                    }
                    self.map_by_rows(before.map().insert(k@, v@));
                }
            },
            None => {
                self.rows.push((k.to_owned(), v));
                proof {
                    assert(self.keys() =~= before.keys().push(k@));
                    assert forall|x: Seq<char>| #[trigger]
                        before.map().insert(k@, v@).contains_key(x) implies self.keys().contains(
                        x,
                    ) by {
                        if x == k@ {
                            assert(self.keys()[before.keys().len() as int] == x);
                        } else {
                            let j = before.keys().index_of(x);
                            assert(self.keys()[j] == x);
                        }
                    }
                    assert forall|j: int|
                        #![trigger self.keys()[j]]
                        0 <= j < self.keys().len() implies before.map().insert(
                        k@,
                        v@,
                    )[self.keys()[j]] == self.value_at(j) by {
                        if j < before.keys().len() {
                            before.key_is_mapped(j);
                        }
                    }
                    assert forall|x: Seq<char>| self.keys().contains(x) implies #[trigger]
                        before.map().insert(k@, v@).contains_key(x) by {
                        let j = self.keys().index_of(x);
                        if j < before.keys().len() {
                            before.key_is_mapped(j);
                        }
                    }
                    self.map_by_rows(before.map().insert(k@, v@));
                }
            },
        }
    }

    /// Deletes the row with key `k`, where there is one.
    pub fn remove(&mut self, k: &str)
        requires
            old(self).wf(),
        ensures
            final(self).wf(),
            final(self).map() == old(self).map().remove(k@),
    {
        self.take(k);
    }

    /// Takes the contents of the row with key `k` out of the table, where there is one.
    pub fn take(&mut self, k: &str) -> (r: Option<V>)
        requires
            old(self).wf(),
        ensures
            final(self).wf(),
            final(self).map() == old(self).map().remove(k@),
            r is Some <==> old(self).map().contains_key(k@),
            r matches Some(v) ==> v@ == old(self).map()[k@],
    {
        let ghost before = *self;
        match self.find(k) {
            Some(i) => {
                let row = self.rows.remove(i);
                proof {
                    before.key_is_mapped(i as int);
                    assert(self.keys() =~= before.keys().remove(i as int));
                    assert forall|a: int, b: int|
                        0 <= a < self.keys().len() && 0 <= b < self.keys().len() && a
                            != b implies self.keys()[a] != self.keys()[b] by {
                        let a0 = if a < i { a } else { a + 1 };
                        let b0 = if b < i { b } else { b + 1 };
                        assert(before.keys()[a0] != before.keys()[b0]);
                    }
                    assert forall|x: Seq<char>| #[trigger]
                        before.map().remove(k@).contains_key(x) implies self.keys().contains(x) by {
                        let j = before.keys().index_of(x);
                        assert(self.keys()[if j < i { j } else { j - 1 }] == x);
                    }
                    assert forall|j: int|
                        #![trigger self.keys()[j]]
                        0 <= j < self.keys().len() implies before.map().remove(k@).contains_key(
                        self.keys()[j],
                    ) && before.map().remove(k@)[self.keys()[j]] == self.value_at(j) by {
                        let j0 = if j < i { j } else { j + 1 };
                        before.key_is_mapped(j0);
                        assert(before.keys()[j0] != before.keys()[i as int]);
                    }
                    assert forall|x: Seq<char>| self.keys().contains(x) implies #[trigger]
                        before.map().remove(k@).contains_key(x) by {
                        let j = self.keys().index_of(x);
                        assert(self.keys()[j] == x);
                    }
                    self.map_by_rows(before.map().remove(k@));
                }
                Some(row.1)
            },
            None => {
                assert(self.map().remove(k@) =~= self.map());
                None
            },
        }
    }
}

} // verus!
