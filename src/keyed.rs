use vstd::prelude::*;

use crate::text::str_eq;

verus! {

/// The value of the first entry whose key is `k`.
pub open spec fn first_value<V>(entries: Seq<(String, V)>, k: Seq<char>) -> Option<V>
    decreases entries.len(),
{
    if entries.len() == 0 {
        None
    } else if entries[0].0@ == k {
        Some(entries[0].1)
    } else {
        first_value(entries.drop_first(), k)
    }
}

/// A map from string keys to values, kept as a list of entries; a key's value
/// is that of its first entry, and `insert` keeps one entry per key.
#[derive(Debug, Clone)]
pub struct KeyedList<V> {
    pub entries: Vec<(String, V)>,
}

impl<V> View for KeyedList<V> {
    type V = Map<Seq<char>, V>;

    open spec fn view(&self) -> Map<Seq<char>, V> {
        Map::new(
            |k: Seq<char>| first_value(self.entries@, k) is Some,
            |k: Seq<char>| first_value(self.entries@, k)->Some_0,
        )
    }
}

proof fn lemma_first_at<V>(e: Seq<(String, V)>, k: Seq<char>, j: int)
    requires
        0 <= j < e.len(),
        e[j].0@ == k,
        forall|i: int| 0 <= i < j ==> (#[trigger] e[i]).0@ != k,
    ensures
        first_value(e, k) == Some(e[j].1),
    decreases j,
{
    if j > 0 {
        let t = e.drop_first();
        assert forall|i: int| 0 <= i < j - 1 implies (#[trigger] t[i]).0@ != k by {
            assert(t[i] == e[i + 1]);
        }
        assert(e[0].0@ != k);
        lemma_first_at(t, k, j - 1);
    }
}

proof fn lemma_first_none<V>(e: Seq<(String, V)>, k: Seq<char>)
    requires
        forall|i: int| 0 <= i < e.len() ==> (#[trigger] e[i]).0@ != k,
    ensures
        first_value(e, k) is None,
    decreases e.len(),
{
    if e.len() > 0 {
        let t = e.drop_first();
        assert forall|i: int| 0 <= i < t.len() implies (#[trigger] t[i]).0@ != k by {
            assert(t[i] == e[i + 1]);
        }
        assert(e[0].0@ != k);
        lemma_first_none(t, k);
    }
}

proof fn lemma_first_update<V>(e: Seq<(String, V)>, j: int, p: (String, V), k: Seq<char>)
    requires
        0 <= j < e.len(),
        e[j].0@ == p.0@,
        p.0@ != k,
    ensures
        first_value(e.update(j, p), k) == first_value(e, k),
    decreases e.len(),
{
    if j > 0 {
        assert(e.update(j, p).drop_first() =~= e.drop_first().update(j - 1, p));
        lemma_first_update(e.drop_first(), j - 1, p, k);
    } else {
        assert(e.update(j, p).drop_first() =~= e.drop_first());
    }
}

proof fn lemma_first_push<V>(e: Seq<(String, V)>, p: (String, V), k: Seq<char>)
    requires
        p.0@ != k,
    ensures
        first_value(e.push(p), k) == first_value(e, k),
    decreases e.len(),
{
    if e.len() == 0 {
        assert(e.push(p).drop_first() =~= e);
    } else {
        assert(e.push(p).drop_first() =~= e.drop_first().push(p));
        lemma_first_push(e.drop_first(), p, k);
    }
}

impl<V> KeyedList<V> {
    pub fn new() -> (r: Self)
        ensures
            r@ == Map::<Seq<char>, V>::empty(),
    {
        let r = KeyedList { entries: Vec::new() };
        assert(r@ =~= Map::<Seq<char>, V>::empty());
        r
    }

    /// Index of the first entry whose key is `k`.
    fn position(&self, k: &str) -> (r: Option<usize>)
        ensures
            match r {
                Some(j) => j < self.entries@.len() && self.entries@[j as int].0@ == k@ && forall|
                    i: int,
                | 0 <= i < j ==> (#[trigger] self.entries@[i]).0@ != k@,
                None => forall|i: int|
                    0 <= i < self.entries@.len() ==> (#[trigger] self.entries@[i]).0@ != k@,
            },
    {
        let mut i: usize = 0;
        while i < self.entries.len()
            invariant
                i <= self.entries@.len(),
                forall|j: int| 0 <= j < i ==> (#[trigger] self.entries@[j]).0@ != k@,
            decreases self.entries@.len() - i,
        {
            if str_eq(self.entries[i].0.as_str(), k) {
                return Some(i);
            }
            i = i + 1;
        }
        None
    }

    pub fn get(&self, k: &str) -> (r: Option<&V>)
        ensures
            match r {
                Some(v) => self@.contains_key(k@) && *v == self@[k@],
                None => !self@.contains_key(k@),
            },
    {
        match self.position(k) {
            Some(j) => {
                proof {
                    lemma_first_at(self.entries@, k@, j as int);
                }
                Some(&self.entries[j].1)
            },
            None => {
                proof {
                    lemma_first_none(self.entries@, k@);
                }
                None
            },
        }
    }

    pub fn contains_key(&self, k: &str) -> (r: bool)
        ensures
            r == self@.contains_key(k@),
    {
        self.get(k).is_some()
    }

    /// Insert or overwrite the value for `k`.
    pub fn insert(&mut self, k: String, v: V)
        ensures
            final(self)@ == old(self)@.insert(k@, v),
    {
        let ghost kv = k@;
        let ghost e0 = self.entries@;
        match self.position(k.as_str()) {
            Some(j) => {
                self.entries.set(j, (k, v));
                proof {
                    let e1 = self.entries@;
                    assert forall|i: int| 0 <= i < j implies (#[trigger] e1[i]).0@ != kv by {
                        assert(e1[i] == e0[i]);
                    }
                    lemma_first_at(e1, kv, j as int);
                    assert forall|q: Seq<char>| q != kv implies first_value(e1, q) == first_value(
                        e0,
                        q,
                    ) by {
                        lemma_first_update(e0, j as int, e1[j as int], q);
                    }
                }
            },
            None => {
                self.entries.push((k, v));
                proof {
                    let e1 = self.entries@;
                    assert forall|i: int| 0 <= i < e0.len() implies (#[trigger] e1[i]).0@
                        != kv by {
                        assert(e1[i] == e0[i]);
                    }
                    lemma_first_at(e1, kv, e0.len() as int);
                    assert forall|q: Seq<char>| q != kv implies first_value(e1, q) == first_value(
                        e0,
                        q,
                    ) by {
                        lemma_first_push(e0, e1[e0.len() as int], q);
                    }
                }
            },
        }
        assert(self@ =~= old(self)@.insert(kv, v));
    }

    pub fn len(&self) -> (r: usize)
        ensures
            r == self.entries@.len(),
    {
        self.entries.len()
    }
}

} // verus!
