//! A map keyed by text, kept as a list of entries with distinct keys.
//!
//! Its view is a `Map<Seq<char>, V>`; the order of the entries is the order of
//! first insertion and is what iteration over the map follows.
use vstd::prelude::*;
use crate::text::{chars_eq};

verus! {

pub struct TextMap<V> {
    pub entries: Vec<(Vec<char>, V)>,
}

pub open spec fn keys_of<V>(s: Seq<(Vec<char>, V)>) -> Seq<Seq<char>> {
    s.map_values(|e: (Vec<char>, V)| e.0@)
}

pub open spec fn distinct_keys<V>(s: Seq<(Vec<char>, V)>) -> bool {
    forall|i: int, j: int| 0 <= i < s.len() && 0 <= j < s.len() && i != j ==> s[i].0@ != s[j].0@
}

pub open spec fn map_of<V>(s: Seq<(Vec<char>, V)>) -> Map<Seq<char>, V>
    decreases s.len(),
{
    if s.len() == 0 {
        Map::empty()
    } else {
        map_of(s.drop_last()).insert(s.last().0@, s.last().1)
    }
}

pub proof fn lemma_map_of_dom<V>(s: Seq<(Vec<char>, V)>)
    ensures
        forall|k: Seq<char>| #[trigger]
            map_of(s).dom().contains(k) <==> exists|i: int| 0 <= i < s.len() && s[i].0@ == k,
        map_of(s).dom().finite(),
    decreases s.len(),
{
    if s.len() > 0 {
        lemma_map_of_dom(s.drop_last());
        assert forall|k: Seq<char>| #[trigger]
            map_of(s).dom().contains(k) <==> exists|i: int| 0 <= i < s.len() && s[i].0@ == k by {
            if map_of(s).dom().contains(k) {
                if k == s.last().0@ {
                    assert(s[s.len() - 1].0@ == k);
                } else {
                    let i = choose|i: int| 0 <= i < s.drop_last().len() && s.drop_last()[i].0@ == k;
                    assert(s[i].0@ == k);
                }
            }
            if exists|i: int| 0 <= i < s.len() && s[i].0@ == k {
                let i = choose|i: int| 0 <= i < s.len() && s[i].0@ == k;
                if i < s.len() - 1 {
                    assert(s.drop_last()[i].0@ == k);
                }
            }
        }
    }
}

pub proof fn lemma_map_of_value<V>(s: Seq<(Vec<char>, V)>, i: int)
    requires
        distinct_keys(s),
        0 <= i < s.len(),
    ensures
        map_of(s).dom().contains(s[i].0@),
        map_of(s)[s[i].0@] == s[i].1,
    decreases s.len(),
{
    if i < s.len() - 1 {
        assert(distinct_keys(s.drop_last()));
        lemma_map_of_value(s.drop_last(), i);
        assert(s.drop_last()[i] == s[i]);
        assert(s[i].0@ != s.last().0@);
    }
}

pub proof fn lemma_map_of_len<V>(s: Seq<(Vec<char>, V)>)
    requires
        distinct_keys(s),
    ensures
        map_of(s).len() == s.len(),
    decreases s.len(),
{
    lemma_map_of_dom(s);
    if s.len() > 0 {
        assert(distinct_keys(s.drop_last()));
        lemma_map_of_len(s.drop_last());
        lemma_map_of_dom(s.drop_last());
        assert(!map_of(s.drop_last()).dom().contains(s.last().0@)) by {
            if map_of(s.drop_last()).dom().contains(s.last().0@) {
                let i = choose|i: int|
                    0 <= i < s.drop_last().len() && s.drop_last()[i].0@ == s.last().0@;
                assert(s[i].0@ == s[s.len() - 1].0@);
            }
        }
    }
}

pub proof fn lemma_map_of_update<V>(s: Seq<(Vec<char>, V)>, i: int, e: (Vec<char>, V))
    requires
        distinct_keys(s),
        0 <= i < s.len(),
        e.0@ == s[i].0@,
    ensures
        map_of(s.update(i, e)) == map_of(s).insert(e.0@, e.1),
        distinct_keys(s.update(i, e)),
    decreases s.len(),
{
    let t = s.update(i, e);
    if i == s.len() - 1 {
        assert(t.drop_last() =~= s.drop_last());
        assert(map_of(s).insert(e.0@, e.1) =~= map_of(s.drop_last()).insert(e.0@, e.1));
    } else {
        assert(distinct_keys(s.drop_last()));
        lemma_map_of_update(s.drop_last(), i, e);
        assert(t.drop_last() =~= s.drop_last().update(i, e));
        assert(s.last().0@ != e.0@);
        assert(map_of(t) =~= map_of(s).insert(e.0@, e.1));
    }
}

pub proof fn lemma_map_of_remove<V>(s: Seq<(Vec<char>, V)>, i: int)
    requires
        distinct_keys(s),
        0 <= i < s.len(),
    ensures
        map_of(s.remove(i)) == map_of(s).remove(s[i].0@),
        distinct_keys(s.remove(i)),
    decreases s.len(),
{
    let t = s.remove(i);
    let k = s[i].0@;
    if i == s.len() - 1 {
        assert(t =~= s.drop_last());
        lemma_map_of_dom(s.drop_last());
        assert(!map_of(s.drop_last()).dom().contains(k)) by {
            if map_of(s.drop_last()).dom().contains(k) {
                let j = choose|j: int| 0 <= j < s.drop_last().len() && s.drop_last()[j].0@ == k;
                assert(s[j].0@ == s[i].0@);
            }
        }
        assert(map_of(t) =~= map_of(s).remove(k));
    } else {
        assert(distinct_keys(s.drop_last()));
        lemma_map_of_remove(s.drop_last(), i);
        assert(t.drop_last() =~= s.drop_last().remove(i));
        assert(t.last() == s.last());
        assert(s.last().0@ != k);
        assert(map_of(t) =~= map_of(s).remove(k));
    }
    assert forall|a: int, b: int| 0 <= a < t.len() && 0 <= b < t.len() && a != b implies t[a].0@
        != t[b].0@ by {
        let ia = if a < i { a } else { a + 1 };
        let ib = if b < i { b } else { b + 1 };
        assert(t[a] == s[ia]);
        assert(t[b] == s[ib]);
    }
}

impl<V> TextMap<V> {
    pub open spec fn wf(&self) -> bool {
        distinct_keys(self.entries@)
    }

    pub open spec fn view(&self) -> Map<Seq<char>, V> {
        map_of(self.entries@)
    }

    /// The keys in iteration order.
    pub open spec fn key_seq(&self) -> Seq<Seq<char>> {
        keys_of(self.entries@)
    }

    pub fn new() -> (r: Self)
        ensures
            r.wf(),
            r@ == Map::<Seq<char>, V>::empty(),
            r.entries@.len() == 0,
    {
        TextMap { entries: Vec::new() }
    }

    pub fn len(&self) -> (r: usize)
        requires
            self.wf(),
        ensures
            r == self@.len(),
            r == self.entries@.len(),
    {
        proof {
            lemma_map_of_len(self.entries@);
        }
        self.entries.len()
    }

    /// Index of the entry whose key is `key`.
    pub fn find(&self, key: &Vec<char>) -> (r: Option<usize>)
        requires
            self.wf(),
        ensures
            match r {
                Some(i) => i < self.entries@.len() && self.entries@[i as int].0@ == key@,
                None => !self@.dom().contains(key@),
            },
            r is Some <==> self@.dom().contains(key@),
    {
        proof {
            lemma_map_of_dom(self.entries@);
        }
        let mut i: usize = 0;
        while i < self.entries.len()
            invariant
                0 <= i <= self.entries@.len(),
                forall|j: int| 0 <= j < i ==> self.entries@[j].0@ != key@,
            decreases self.entries.len() - i,
        {
            if chars_eq(&self.entries[i].0, key) {
                proof {
                    lemma_map_of_dom(self.entries@);
                }
                return Some(i);
            }
            i = i + 1;
        }
        None
    }

    pub fn contains_key(&self, key: &Vec<char>) -> (r: bool)
        requires
            self.wf(),
        ensures
            r == self@.dom().contains(key@),
    {
        self.find(key).is_some()
    }

    pub fn get(&self, key: &Vec<char>) -> (r: Option<&V>)
        requires
            self.wf(),
        ensures
            match r {
                Some(v) => self@.dom().contains(key@) && *v == self@[key@],
                None => !self@.dom().contains(key@),
            },
    {
        match self.find(key) {
            Some(i) => {
                proof {
                    lemma_map_of_value(self.entries@, i as int);
                }
                Some(&self.entries[i].1)
            },
            None => None,
        }
    }

    pub fn insert(&mut self, key: Vec<char>, value: V)
        requires
            old(self).wf(),
        ensures
            final(self).wf(),
            final(self)@ == old(self)@.insert(key@, value),
            old(self)@.dom().contains(key@) ==> final(self).key_seq() == old(self).key_seq(),
            !old(self)@.dom().contains(key@) ==> final(self).key_seq() == old(self).key_seq().push(
                key@,
            ),
    {
        match self.find(&key) {
            Some(i) => {
                let ghost s = self.entries@;
                let ghost k = key@;
                proof {
                    lemma_map_of_update(s, i as int, (key, value));
                }
                self.entries.set(i, (key, value));
                assert(self.entries@ == s.update(i as int, (key, value)));
                assert(self.key_seq() =~= keys_of(s));
            },
            None => {
                let ghost s = self.entries@;
                proof {
                    lemma_map_of_dom(s);
                }
                self.entries.push((key, value));
                assert(self.entries@.drop_last() =~= s);
                assert(distinct_keys(self.entries@)) by {
                    assert forall|a: int, b: int|
                        0 <= a < self.entries@.len() && 0 <= b < self.entries@.len() && a != b
                        implies self.entries@[a].0@ != self.entries@[b].0@ by {
                        if a == s.len() as int {
                            assert(self.entries@[b] == s[b]);
                        } else if b == s.len() as int {
                            assert(self.entries@[a] == s[a]);
                        } else {
                            assert(self.entries@[a] == s[a]);
                            assert(self.entries@[b] == s[b]);
                        }
                    }
                }
                assert(self.key_seq() =~= keys_of(s).push(self.entries@.last().0@));
            },
        }
    }

    pub fn remove(&mut self, key: &Vec<char>) -> (r: Option<V>)
        requires
            old(self).wf(),
        ensures
            final(self).wf(),
            final(self)@ == old(self)@.remove(key@),
            match r {
                Some(v) => old(self)@.dom().contains(key@) && v == old(self)@[key@],
                None => !old(self)@.dom().contains(key@),
            },
    {
        match self.find(key) {
            Some(i) => {
                let ghost s = self.entries@;
                proof {
                    lemma_map_of_remove(s, i as int);
                    lemma_map_of_value(s, i as int);
                }
                let (_k, v) = self.entries.remove(i);
                Some(v)
            },
            None => {
                assert(self@.remove(key@) =~= self@);
                None
            },
        }
    }


    /// Takes out the entry at position `i`; the others keep their order.
    pub fn take_at(&mut self, i: usize) -> (r: (Vec<char>, V))
        requires
            old(self).wf(),
            i < old(self).entries@.len(),
        ensures
            final(self).wf(),
            final(self).entries@ == old(self).entries@.remove(i as int),
            r == old(self).entries@[i as int],
            old(self)@.dom().contains(r.0@),
            old(self)@[r.0@] == r.1,
            final(self)@ == old(self)@.remove(r.0@),
    {
        proof {
            lemma_map_of_remove(self.entries@, i as int);
            lemma_map_of_value(self.entries@, i as int);
        }
        self.entries.remove(i)
    }

    /// Puts an entry with a new key at position `i`.
    pub fn insert_at(&mut self, i: usize, key: Vec<char>, value: V)
        requires
            old(self).wf(),
            i <= old(self).entries@.len(),
            !old(self)@.dom().contains(key@),
        ensures
            final(self).wf(),
            final(self).entries@ == old(self).entries@.insert(i as int, (key, value)),
            final(self)@ == old(self)@.insert(key@, value),
    {
        let ghost s = self.entries@;
        let ghost k = key@;
        let ghost v = value;
        proof {
            lemma_map_of_dom(s);
        }
        self.entries.insert(i, (key, value));
        let ghost t = self.entries@;
        assert(distinct_keys(t)) by {
            assert forall|a: int, b: int| 0 <= a < t.len() && 0 <= b < t.len() && a != b
                implies t[a].0@ != t[b].0@ by {
                if a != i && b != i {
                    let ia = if a < i { a } else { a - 1 };
                    let ib = if b < i { b } else { b - 1 };
                    assert(t[a] == s[ia]);
                    assert(t[b] == s[ib]);
                } else if a == i {
                    let ib = if b < i { b } else { b - 1 };
                    assert(t[b] == s[ib]);
                } else {
                    let ia = if a < i { a } else { a - 1 };
                    assert(t[a] == s[ia]);
                }
            }
        }
        proof {
            lemma_map_of_dom(t);
            assert forall|kk: Seq<char>| #[trigger] map_of(t).dom().contains(kk) <==> map_of(s).insert(k, v).dom().contains(kk) by {
                if map_of(t).dom().contains(kk) {
                    let j = choose|j: int| 0 <= j < t.len() && t[j].0@ == kk;
                    if j < i {
                        assert(t[j] == s[j]);
                    } else if j > i {
                        assert(t[j] == s[j - 1]);
                    }
                }
                if map_of(s).dom().contains(kk) {
                    let j = choose|j: int| 0 <= j < s.len() && s[j].0@ == kk;
                    if j < i {
                        assert(t[j] == s[j]);
                    } else {
                        assert(t[j + 1] == s[j]);
                    }
                }
                if kk == k {
                    assert(t[i as int].0@ == k);
                }
            }
            assert forall|kk: Seq<char>| #[trigger] map_of(t).dom().contains(kk) implies map_of(t)[kk] == map_of(s).insert(k, v)[kk] by {
                let j = choose|j: int| 0 <= j < t.len() && t[j].0@ == kk;
                lemma_map_of_value(t, j);
                if j < i {
                    assert(t[j] == s[j]);
                    lemma_map_of_value(s, j);
                } else if j > i {
                    assert(t[j] == s[j - 1]);
                    lemma_map_of_value(s, j - 1);
                }
            }
            assert(map_of(t) =~= map_of(s).insert(k, v));
        }
    }

    /// The entry at position `i` of the iteration order.
    pub fn entry_at(&self, i: usize) -> (r: (&Vec<char>, &V))
        requires
            self.wf(),
            i < self.entries@.len(),
        ensures
            r.0@ == self.entries@[i as int].0@,
            *r.1 == self.entries@[i as int].1,
            self@.dom().contains(r.0@),
            self@[r.0@] == *r.1,
    {
        proof {
            lemma_map_of_value(self.entries@, i as int);
        }
        (&self.entries[i].0, &self.entries[i].1)
    }
}

pub proof fn lemma_wf_index<V>(m: TextMap<V>, i: int)
    requires
        m.wf(),
        0 <= i < m.entries@.len(),
    ensures
        m@.dom().contains(m.entries@[i].0@),
        m@[m.entries@[i].0@] == m.entries@[i].1,
{
    lemma_map_of_value(m.entries@, i);
}

pub proof fn lemma_wf_dom<V>(m: TextMap<V>)
    ensures
        forall|k: Seq<char>| #[trigger]
            m@.dom().contains(k) <==> exists|i: int|
                0 <= i < m.entries@.len() && m.entries@[i].0@ == k,
        m@.dom().finite(),
{
    lemma_map_of_dom(m.entries@);
}

} // verus!
