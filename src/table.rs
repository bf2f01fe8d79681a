//! A small map keyed by session name, kept as a list of distinct keys.

use vstd::prelude::*;

verus! {

/// `entries` lists exactly the pairs of `m`, each key once.
pub open spec fn lists<V>(entries: Seq<(String, V)>, m: Map<Seq<char>, V>) -> bool {
    &&& forall|i: int, j: int|
        0 <= i < entries.len() && 0 <= j < entries.len() && i != j ==> entries[i].0@
            != entries[j].0@
    &&& forall|i: int|
        0 <= i < entries.len() ==> #[trigger] m.contains_key(entries[i].0@) && m[entries[i].0@]
            == entries[i].1
    &&& forall|k: Seq<char>|
        #[trigger] m.contains_key(k) ==> exists|i: int| 0 <= i < entries.len() && entries[i].0@ == k
}

/// The map that inserting `pairs` one after another gives: a later pair wins.
pub open spec fn map_of_pairs<V>(pairs: Seq<(String, V)>) -> Map<Seq<char>, V>
    decreases pairs.len(),
{
    if pairs.len() == 0 {
        Map::empty()
    } else {
        map_of_pairs(pairs.drop_last()).insert(pairs.last().0@, pairs.last().1)
    }
}

pub struct NameTable<V> {
    entries: Vec<(String, V)>,
    contents: Ghost<Map<Seq<char>, V>>,
}

impl<V: Copy> NameTable<V> {
    /// The name-to-value map that the table holds.
    pub closed spec fn map(&self) -> Map<Seq<char>, V> {
        self.contents@
    }

    pub closed spec fn wf(&self) -> bool {
        lists(self.entries@, self.contents@)
    }

    pub fn new() -> (r: Self)
        ensures
            r.wf(),
            r.map() == Map::<Seq<char>, V>::empty(),
    {
        NameTable { entries: Vec::new(), contents: Ghost(Map::empty()) }
    }

    /// The table's pairs, each key once.
    pub fn pairs(&self) -> (r: &[(String, V)])
        requires
            self.wf(),
        ensures
            lists(r@, self.map()),
    {
        self.entries.as_slice()
    }

    fn index_of(&self, k: &String) -> (r: Option<usize>)
        requires
            self.wf(),
        ensures
            match r {
                Some(i) => i < self.entries@.len() && self.entries@[i as int].0@ == k@,
                None => !self.map().contains_key(k@),
            },
    {
        let mut i: usize = 0;
        while i < self.entries.len()
            invariant
                i <= self.entries@.len(),
                forall|j: int| 0 <= j < i ==> self.entries@[j].0@ != k@,
            decreases self.entries@.len() - i,
        {
            if self.entries[i].0 == *k {
                return Some(i);
            }
            i = i + 1;
        }
        None
    }

    pub fn get(&self, k: &String) -> (r: Option<V>)
        requires
            self.wf(),
        ensures
            r == (if self.map().contains_key(k@) {
                Some(self.map()[k@])
            } else {
                None::<V>
            }),
    {
        match self.index_of(k) {
            Some(i) => Some(self.entries[i].1),
            None => None,
        }
    }

    pub fn insert(&mut self, k: String, v: V)
        requires
            old(self).wf(),
        ensures
            final(self).wf(),
            final(self).map() == old(self).map().insert(k@, v),
    {
        let ghost m = self.contents@.insert(k@, v);
        match self.index_of(&k) {
            Some(i) => {
                let ghost kv = k@;
                self.entries.set(i, (k, v));
                self.contents = Ghost(m);
                assert forall|key: Seq<char>| #[trigger] m.contains_key(key) implies exists|j: int|
                    0 <= j < self.entries@.len() && self.entries@[j].0@ == key by {
                    if key != kv {
                        let j = choose|j: int|
                            0 <= j < old(self).entries@.len() && old(self).entries@[j].0@ == key;
                        assert(self.entries@[j].0@ == key);
                    } else {
                        assert(self.entries@[i as int].0@ == key);
                    }
                }
            },
            None => {
                let ghost kv = k@;
                self.entries.push((k, v));
                self.contents = Ghost(m);
                assert forall|key: Seq<char>| #[trigger] m.contains_key(key) implies exists|j: int|
                    0 <= j < self.entries@.len() && self.entries@[j].0@ == key by {
                    if key != kv {
                        let j = choose|j: int|
                            0 <= j < old(self).entries@.len() && old(self).entries@[j].0@ == key;
                        assert(self.entries@[j].0@ == key);
                    } else {
                        assert(self.entries@[self.entries@.len() - 1].0@ == key);
                    }
                }
            },
        }
    }

    pub fn remove(&mut self, k: &String) -> (r: Option<V>)
        requires
            old(self).wf(),
        ensures
            final(self).wf(),
            final(self).map() == old(self).map().remove(k@),
            r == (if old(self).map().contains_key(k@) {
                Some(old(self).map()[k@])
            } else {
                None::<V>
            }),
    {
        match self.index_of(k) {
            Some(i) => {
                let ghost m = self.contents@.remove(k@);
                let ghost olde = self.entries@;
                let ghost om = self.contents@;
                let (_, v) = self.entries.remove(i);
                self.contents = Ghost(m);
                assert forall|j: int| 0 <= j < self.entries@.len() implies #[trigger] m.contains_key(
                    self.entries@[j].0@,
                ) && m[self.entries@[j].0@] == self.entries@[j].1 by {
                    let oj = if j < i {
                        j
                    } else {
                        j + 1
                    };
                    assert(self.entries@[j] == olde[oj]);
                    assert(olde[oj].0@ != olde[i as int].0@);
                    assert(om.contains_key(olde[oj].0@));
                }
                assert forall|key: Seq<char>| #[trigger] m.contains_key(key) implies exists|j: int|
                    0 <= j < self.entries@.len() && self.entries@[j].0@ == key by {
                    let j = choose|j: int| 0 <= j < olde.len() && olde[j].0@ == key;
                    if j < i {
                        assert(self.entries@[j].0@ == key);
                    } else {
                        assert(self.entries@[j - 1].0@ == key);
                    }
                }
                Some(v)
            },
            None => {
                assert(self.contents@.remove(k@) =~= self.contents@);
                None
            },
        }
    }

    /// Builds the table that inserting `pairs` in order gives.
    pub fn from_pairs(pairs: Vec<(String, V)>) -> (r: Self)
        ensures
            r.wf(),
            r.map() == map_of_pairs(pairs@),
    {
        let mut t = NameTable::new();
        let mut n: usize = 0;
        while n < pairs.len()
            invariant
                t.wf(),
                n <= pairs@.len(),
                t.map() == map_of_pairs(pairs@.subrange(0, n as int)),
            decreases pairs@.len() - n,
        {
            assert(pairs@.subrange(0, n + 1).drop_last() =~= pairs@.subrange(0, n as int));
            t.insert(pairs[n].0.clone(), pairs[n].1);
            n = n + 1;
        }
        assert(pairs@.subrange(0, n as int) =~= pairs@);
        t
    }
}

} // verus!
