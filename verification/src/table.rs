//! A small table of values under texts.

use vstd::prelude::*;
use crate::text::equal;

verus! {

/// Values under texts, each text once.
pub struct Table<V> {
    rows: Vec<(String, V)>,
}

/// The first place of a key from `n` on.
pub open spec fn row_from<V>(rows: Seq<(String, V)>, key: Seq<char>, n: int) -> Option<int>
    decreases rows.len() - n,
{
    if n < 0 || n >= rows.len() {
        None
    } else if rows[n].0@ == key {
        Some(n)
    } else {
        row_from(rows, key, n + 1)
    }
}

pub open spec fn row_of<V>(rows: Seq<(String, V)>, key: Seq<char>) -> Option<int> {
    row_from(rows, key, 0)
}

proof fn lemma_row_from<V>(rows: Seq<(String, V)>, key: Seq<char>, n: int)
    requires
        0 <= n,
    ensures
        match row_from(rows, key, n) {
            Some(i) => n <= i < rows.len() && rows[i].0@ == key && (forall|k: int|
                n <= k < i ==> (#[trigger] rows[k]).0@ != key),
            None => forall|k: int| n <= k < rows.len() ==> (#[trigger] rows[k]).0@ != key,
        },
    decreases rows.len() - n,
{
    if n < rows.len() && rows[n].0@ != key {
        lemma_row_from(rows, key, n + 1);
    }
}

impl<V> View for Table<V> {
    type V = Map<Seq<char>, V>;

    closed spec fn view(&self) -> Map<Seq<char>, V> {
        Map::new(
            |k: Seq<char>| row_of(self.rows@, k) is Some,
            |k: Seq<char>| self.rows@[row_of(self.rows@, k)->0].1,
        )
    }
}

impl<V> Table<V> {
    /// Whether no text stands in the table twice.
    pub closed spec fn well_formed(self) -> bool {
        forall|i: int, j: int|
            0 <= i < j < self.rows@.len() ==> (#[trigger] self.rows@[i]).0@ != (
            #[trigger] self.rows@[j]).0@
    }

    pub fn new() -> (r: Self)
        ensures
            r.well_formed(),
            r@ == Map::<Seq<char>, V>::empty(),
    {
        let r = Table { rows: Vec::new() };
        assert(r@ =~= Map::<Seq<char>, V>::empty());
        r
    }

    fn place(&self, key: &str) -> (r: Option<usize>)
        ensures
            match r {
                Some(i) => row_of(self.rows@, key@) == Some(i as int) && i < self.rows.len(),
                None => row_of(self.rows@, key@) is None,
            },
    {
        let mut i: usize = 0;
        while i < self.rows.len()
            invariant
                i <= self.rows.len(),
                row_of(self.rows@, key@) == row_from(self.rows@, key@, i as int),
            decreases self.rows.len() - i,
        {
            if equal(self.rows[i].0.as_str(), key) {
                return Some(i);
            }
            i += 1;
        }
        None
    }

    pub fn get(&self, key: &str) -> (r: Option<&V>)
        ensures
            match r {
                Some(v) => self@.dom().contains(key@) && *v == self@[key@],
                None => !self@.dom().contains(key@),
            },
    {
        match self.place(key) {
            Some(i) => Some(&self.rows[i].1),
            None => None,
        }
    }

    pub fn contains(&self, key: &str) -> (r: bool)
        ensures
            r == self@.dom().contains(key@),
    {
        self.place(key).is_some()
    }

    pub fn is_empty(&self) -> (r: bool)
        ensures
            r == (self@ == Map::<Seq<char>, V>::empty()),
    {
        proof {
            if self.rows@.len() == 0 {
                assert(self@ =~= Map::<Seq<char>, V>::empty());
            } else {
                lemma_row_from(self.rows@, self.rows@[0].0@, 0);
                assert(self@.dom().contains(self.rows@[0].0@));
            }
        }
        self.rows.len() == 0
    }

    /// Puts a value under a text, in place of what was there.
    pub fn insert(&mut self, key: &str, value: V)
        requires
            old(self).well_formed(),
        ensures
            final(self).well_formed(),
            final(self)@ == old(self)@.insert(key@, value),
    {
        let ghost before = self.rows@;
        proof {
            lemma_row_from(before, key@, 0);
        }
        let row = (key.to_owned(), value);
        match self.place(key) {
            Some(i) => {
                self.rows.set(i, row);
            },
            None => {
                self.rows.push(row);
            },
        }
        proof {
            let after = self.rows@;
            let a = self@;
            let b = old(self)@.insert(key@, value);
            assert forall|k: Seq<char>|
                #![trigger a.dom().contains(k)]
                #![trigger b.dom().contains(k)]
                (a.dom().contains(k) <==> b.dom().contains(k)) && (a.dom().contains(k) ==> a[k]
                    == b[k]) by {
                lemma_row_from(before, k, 0);
                lemma_row_from(after, k, 0);
                match row_of(before, k) {
                    Some(x) => {
                        assert(after[x].0@ == k);
                    },
                    None => {},
                }
                match row_of(after, k) {
                    Some(y) => {
                        if y < before.len() {
                            assert(before[y].0@ == k);
                        }
                    },
                    None => {},
                }
                if k == key@ {
                    match row_of(before, k) {
                        Some(x) => {},
                        None => {
                            assert(after[before.len() as int].0@ == k);
                        },
                    }
                }
            }
            assert(a =~= b);
        }
    }

    /// Takes a text and what is under it out of the table.
    pub fn remove(&mut self, key: &str)
        requires
            old(self).well_formed(),
        ensures
            final(self).well_formed(),
            final(self)@ == old(self)@.remove(key@),
    {
        let ghost before = self.rows@;
        proof {
            lemma_row_from(before, key@, 0);
        }
        match self.place(key) {
            Some(i) => {
                self.rows.remove(i);
                proof {
                    let after = self.rows@;
                    let a = self@;
                    let b = old(self)@.remove(key@);
                    assert forall|k: Seq<char>|
                        #![trigger a.dom().contains(k)]
                        #![trigger b.dom().contains(k)]
                        (a.dom().contains(k) <==> b.dom().contains(k)) && (a.dom().contains(k)
                            ==> a[k] == b[k]) by {
                        lemma_row_from(before, k, 0);
                        lemma_row_from(after, k, 0);
                        match row_of(before, k) {
                            Some(x) => {
                                if x < i {
                                    assert(after[x] == before[x]);
                                } else if x > i {
                                    assert(after[x - 1] == before[x]);
                                }
                            },
                            None => {},
                        }
                        match row_of(after, k) {
                            Some(y) => {
                                if y < i {
                                    assert(before[y] == after[y]);
                                } else {
                                    assert(before[y + 1] == after[y]);
                                }
                            },
                            None => {},
                        }
                    }
                    assert(a =~= b);
                }
            },
            None => {
                assert(self@.remove(key@) =~= self@);
            },
        }
    }
}

} // verus!
