//! A small keyed store: records under text keys, kept in insertion order
//! in a vector, with the map that it stands for as its view.
use vstd::prelude::*;

verus! {

/// Records of type `T` under distinct text keys.
pub struct Table<T> {
    entries: Vec<(String, T)>,
    contents: Ghost<Map<Seq<char>, T>>,
}

impl<T> View for Table<T> {
    type V = Map<Seq<char>, T>;

    closed spec fn view(&self) -> Map<Seq<char>, T> {
        self.contents@
    }
}

impl<T> Table<T> {
    /// The entries hold the keys of the view exactly once each, each with
    /// its record.
    pub closed spec fn wf(&self) -> bool {
        &&& self.contents@.dom().finite()
        &&& forall|i: int|
            0 <= i < self.entries.len() ==> {
                &&& self.contents@.contains_key(#[trigger] self.entries@[i].0@)
                &&& self.contents@[self.entries@[i].0@] == self.entries@[i].1
            }
        &&& forall|k: Seq<char>|
            #[trigger] self.contents@.contains_key(k) ==> exists|i: int|
                0 <= i < self.entries.len() && #[trigger] self.entries@[i].0@ == k
        &&& forall|i: int, j: int|
            0 <= i < j < self.entries.len() ==> #[trigger] self.entries@[i].0@
                != #[trigger] self.entries@[j].0@
    }

    /// An empty table.
    pub fn new() -> (r: Self)
        ensures
            r.wf(),
            r@ == Map::<Seq<char>, T>::empty(),
    {
        Table { entries: Vec::new(), contents: Ghost(Map::empty()) }
    }

    /// The position of the entry under `k`, if any.
    fn find(&self, k: &String) -> (r: Option<usize>)
        requires
            self.wf(),
        ensures
            match r {
                Some(i) => i < self.entries.len() && self.entries@[i as int].0@ == k@,
                None => !self@.contains_key(k@),
            },
    {
        let mut i: usize = 0;
        while i < self.entries.len()
            invariant
                i <= self.entries.len(),
                forall|j: int| 0 <= j < i ==> #[trigger] self.entries@[j].0@ != k@,
            decreases self.entries.len() - i,
        {
            if self.entries[i].0.eq(k) {
                return Some(i);
            }
            i = i + 1;
        }
        None
    }

    /// Whether a record stands under `k`.
    pub fn contains_key(&self, k: &String) -> (r: bool)
        requires
            self.wf(),
        ensures
            r == self@.contains_key(k@),
    {
        self.find(k).is_some()
    }

    /// The record under `k`, if any.
    pub fn get(&self, k: &String) -> (r: Option<&T>)
        requires
            self.wf(),
        ensures
            match r {
                Some(v) => self@.contains_key(k@) && *v == self@[k@],
                None => !self@.contains_key(k@),
            },
    {
        match self.find(k) {
            Some(i) => Some(&self.entries[i].1),
            None => None,
        }
    }

    /// Puts `v` under `k`, replacing any record there.
    pub fn insert(&mut self, k: String, v: T)
        requires
            old(self).wf(),
        ensures
            final(self).wf(),
            final(self)@ == old(self)@.insert(k@, v),
    {
        let ghost key = k@;
        let ghost m = self.contents@.insert(key, v);
        match self.find(&k) {
            Some(i) => {
                self.entries.set(i, (k, v));
                self.contents = Ghost(m);
                assert forall|j: int| 0 <= j < self.entries.len() implies {
                    &&& self.contents@.contains_key(#[trigger] self.entries@[j].0@)
                    &&& self.contents@[self.entries@[j].0@] == self.entries@[j].1
                } by {
                    if j != i {
                        assert(old(self).entries@[j].0@ != old(self).entries@[i as int].0@);
                    }
                }
                assert forall|q: Seq<char>| #[trigger] self.contents@.contains_key(q) implies exists|
                    j: int,
                | 0 <= j < self.entries.len() && #[trigger] self.entries@[j].0@ == q by {
                    if q != key {
                        let j = choose|j: int|
                            0 <= j < old(self).entries.len() && #[trigger] old(
                                self,
                            ).entries@[j].0@ == q;
                        assert(self.entries@[j].0@ == q);
                    } else {
                        assert(self.entries@[i as int].0@ == q);
                    }
                }
            },
            None => {
                self.entries.push((k, v));
                self.contents = Ghost(m);
                let n = self.entries.len() - 1;
                assert forall|j: int| 0 <= j < self.entries.len() implies {
                    &&& self.contents@.contains_key(#[trigger] self.entries@[j].0@)
                    &&& self.contents@[self.entries@[j].0@] == self.entries@[j].1
                } by {
                    if j < n {
                        assert(old(self).contents@.contains_key(old(self).entries@[j].0@));
                    }
                }
                assert forall|q: Seq<char>| #[trigger] self.contents@.contains_key(q) implies exists|
                    j: int,
                | 0 <= j < self.entries.len() && #[trigger] self.entries@[j].0@ == q by {
                    if q != key {
                        let j = choose|j: int|
                            0 <= j < old(self).entries.len() && #[trigger] old(
                                self,
                            ).entries@[j].0@ == q;
                        assert(self.entries@[j].0@ == q);
                    } else {
                        assert(self.entries@[n as int].0@ == q);
                    }
                }
                assert forall|a: int, b: int|
                    0 <= a < b < self.entries.len() implies #[trigger] self.entries@[a].0@
                    != #[trigger] self.entries@[b].0@ by {
                    if b == n {
                        assert(old(self).contents@.contains_key(old(self).entries@[a].0@));
                    }
                }
            },
        }
    }

    /// Takes the record under `k` out of the table.
    pub fn remove(&mut self, k: &String) -> (r: Option<T>)
        requires
            old(self).wf(),
        ensures
            final(self).wf(),
            final(self)@ == old(self)@.remove(k@),
            match r {
                Some(v) => old(self)@.contains_key(k@) && v == old(self)@[k@],
                None => !old(self)@.contains_key(k@),
            },
    {
        match self.find(k) {
            Some(i) => {
                let ghost m = self.contents@.remove(k@);
                let e = self.entries.remove(i);
                self.contents = Ghost(m);
                assert forall|j: int| 0 <= j < self.entries.len() implies {
                    &&& self.contents@.contains_key(#[trigger] self.entries@[j].0@)
                    &&& self.contents@[self.entries@[j].0@] == self.entries@[j].1
                } by {
                    if j < i {
                        assert(old(self).entries@[j].0@ != old(self).entries@[i as int].0@);
                    } else {
                        assert(self.entries@[j] == old(self).entries@[j + 1]);
                        assert(old(self).entries@[j + 1].0@ != old(self).entries@[i as int].0@);
                    }
                }
                assert forall|q: Seq<char>| #[trigger] self.contents@.contains_key(q) implies exists|
                    j: int,
                | 0 <= j < self.entries.len() && #[trigger] self.entries@[j].0@ == q by {
                    let j = choose|j: int|
                        0 <= j < old(self).entries.len() && #[trigger] old(self).entries@[j].0@
                            == q;
                    if j < i {
                        assert(self.entries@[j].0@ == q);
                    } else {
                        assert(j != i);
                        assert(self.entries@[j - 1].0@ == q);
                    }
                }
                assert forall|a: int, b: int|
                    0 <= a < b < self.entries.len() implies #[trigger] self.entries@[a].0@
                    != #[trigger] self.entries@[b].0@ by {
                    let a0 = if a < i { a } else { a + 1 };
                    let b0 = if b < i { b } else { b + 1 };
                    assert(self.entries@[a] == old(self).entries@[a0]);
                    assert(self.entries@[b] == old(self).entries@[b0]);
                }
                Some(e.1)
            },
            None => {
                assert(old(self)@.remove(k@) =~= old(self)@);
                None
            },
        }
    }
}

} // verus!
