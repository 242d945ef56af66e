//! A map keyed by strings that keeps its entries in key order (the order of a
//! `BTreeMap<String, _>`).

use crate::logic::text::{chars_lt, lemma_seq_lt_irreflexive, lemma_seq_lt_total, lemma_seq_lt_transitive, seq_lt, str_chars};
use vstd::prelude::*;

verus! {

/// Every key sorts strictly before every later key.
pub open spec fn keys_sorted<V>(s: Seq<(String, V)>) -> bool {
    forall|i: int, j: int| 0 <= i < j < s.len() ==> seq_lt((#[trigger] s[i]).0@, (#[trigger] s[j]).0@)
}

/// Position of key `k` in `s`, if present.
pub open spec fn key_index<V>(s: Seq<(String, V)>, k: Seq<char>) -> Option<int> {
    if exists|i: int| 0 <= i < s.len() && (#[trigger] s[i]).0@ == k {
        Some(choose|i: int| 0 <= i < s.len() && (#[trigger] s[i]).0@ == k)
    } else {
        None
    }
}

/// The value stored under `k` in `s`.
pub open spec fn value_of<V>(s: Seq<(String, V)>, k: Seq<char>) -> Option<V> {
    match key_index(s, k) {
        Some(i) => Some(s[i].1),
        None => None,
    }
}

/// In a key-sorted sequence a key sits at one position only.
pub proof fn lemma_key_index_unique<V>(s: Seq<(String, V)>, k: Seq<char>, i: int)
    requires
        keys_sorted(s),
        0 <= i < s.len(),
        s[i].0@ == k,
    ensures
        key_index(s, k) == Some(i),
        value_of(s, k) == Some(s[i].1),
{
    assert(exists|j: int| 0 <= j < s.len() && (#[trigger] s[j]).0@ == k) by {
        assert(s[i].0@ == k);
    }
    let c = key_index(s, k).unwrap();
    assert(0 <= c < s.len() && s[c].0@ == k);
    if c < i {
        assert(seq_lt(s[c].0@, s[i].0@));
        lemma_seq_lt_irreflexive(k);
    } else if c > i {
        assert(seq_lt(s[i].0@, s[c].0@));
        lemma_seq_lt_irreflexive(k);
    }
}

/// In a key-sorted sequence every entry is what its key looks up, and every key that
/// looks something up is an entry's key.
pub proof fn lemma_entries_map<V>(s: Seq<(String, V)>)
    requires
        keys_sorted(s),
    ensures
        forall|i: int| 0 <= i < s.len() ==> #[trigger] value_of(s, s[i].0@) == Some(s[i].1),
        forall|k: Seq<char>| #[trigger] value_of(s, k) is Some ==> exists|i: int| 0 <= i < s.len() && (#[trigger] s[i]).0@ == k,
{
    assert forall|i: int| 0 <= i < s.len() implies #[trigger] value_of(s, s[i].0@) == Some(s[i].1) by {
        lemma_key_index_unique(s, s[i].0@, i);
    }
}

/// Entries `(key, value)` with distinct keys, kept in ascending key order.
#[derive(Debug)]
pub struct StrMap<V> {
    entries: Vec<(String, V)>,
}

impl<V> StrMap<V> {
    #[verifier::type_invariant]
    spec fn sorted(self) -> bool {
        keys_sorted(self.entries@)
    }

    /// The entries, in ascending key order.
    pub closed spec fn entries_view(&self) -> Seq<(String, V)> {
        self.entries@
    }

    /// The value stored under key `k`.
    pub open spec fn spec_get(&self, k: Seq<char>) -> Option<V> {
        value_of(self.entries_view(), k)
    }

    pub fn new() -> (m: Self)
        ensures
            m.entries_view().len() == 0,
    {
        StrMap { entries: Vec::new() }
    }

    /// The map holding `entries`, which are already in ascending key order.
    pub fn from_sorted_entries(entries: Vec<(String, V)>) -> (m: Self)
        requires
            keys_sorted(entries@),
        ensures
            m.entries_view() == entries@,
    {
        StrMap { entries }
    }

    /// The entries, in ascending key order.
    pub fn entries(&self) -> (s: &[(String, V)])
        ensures
            s@ == self.entries_view(),
            keys_sorted(self.entries_view()),
    {
        proof {
            use_type_invariant(self);
        }
        self.entries.as_slice()
    }

    pub fn len(&self) -> (n: usize)
        ensures
            n == self.entries_view().len(),
    {
        self.entries.len()
    }

    pub fn is_empty(&self) -> (b: bool)
        ensures
            b == (self.entries_view().len() == 0),
    {
        self.entries.len() == 0
    }

    /// Where `key` is, or where it would go: `Ok(i)` when entry `i` has the key,
    /// `Err(p)` when every entry before `p` sorts before it and every later one after it.
    fn locate(&self, key: &str) -> (r: Result<usize, usize>)
        ensures
            match r {
                Ok(i) => i < self.entries_view().len() && self.entries_view()[i as int].0@ == key@,
                Err(p) => p <= self.entries_view().len() && (forall|i: int|
                    0 <= i < p ==> seq_lt((#[trigger] self.entries_view()[i]).0@, key@)) && (forall|i: int|
                    p <= i < self.entries_view().len() ==> seq_lt(key@, (#[trigger] self.entries_view()[i]).0@)),
            },
    {
        proof {
            use_type_invariant(self);
        }
        let kc = str_chars(key);
        let mut p: usize = 0;
        while p < self.entries.len()
            invariant
                p <= self.entries@.len(),
                kc@ == key@,
                keys_sorted(self.entries@),
                forall|i: int| 0 <= i < p ==> seq_lt((#[trigger] self.entries@[i]).0@, key@),
            decreases self.entries.len() - p,
        {
            let here = str_chars(self.entries[p].0.as_str());
            if !chars_lt(&here, &kc) {
                if !chars_lt(&kc, &here) {
                    proof {
                        lemma_seq_lt_total(here@, kc@);
                    }
                    return Ok(p);
                }
                proof {
                    assert forall|i: int| p <= i < self.entries@.len() implies seq_lt(key@, (#[trigger] self.entries@[i]).0@) by {
                        if i > p {
                            lemma_seq_lt_transitive(key@, self.entries@[p as int].0@, self.entries@[i].0@);
                        }
                    }
                }
                return Err(p);
            }
            p = p + 1;
        }
        Err(p)
    }

    /// The value stored under `key`.
    pub fn get(&self, key: &str) -> (r: Option<&V>)
        ensures
            match r {
                Some(v) => self.spec_get(key@) == Some(*v),
                None => self.spec_get(key@) is None,
            },
    {
        proof {
            use_type_invariant(self);
        }
        match self.locate(key) {
            Ok(i) => {
                proof {
                    lemma_key_index_unique(self.entries@, key@, i as int);
                }
                Some(&self.entries[i].1)
            },
            Err(p) => {
                proof {
                    if exists|i: int| 0 <= i < self.entries@.len() && (#[trigger] self.entries@[i]).0@ == key@ {
                        let i = choose|i: int| 0 <= i < self.entries@.len() && (#[trigger] self.entries@[i]).0@ == key@;
                        lemma_seq_lt_irreflexive(key@);
                    }
                }
                None
            },
        }
    }

    pub fn contains_key(&self, key: &str) -> (b: bool)
        ensures
            b == self.spec_get(key@) is Some,
    {
        self.get(key).is_some()
    }

    /// Stores `v` under `key`, replacing the value already there (the key keeps its place).
    pub fn insert(&mut self, key: String, v: V)
        ensures
            final(self).spec_get(key@) == Some(v),
            forall|k: Seq<char>| k != key@ ==> #[trigger] final(self).spec_get(k) == old(self).spec_get(k),
            match key_index(old(self).entries_view(), key@) {
                Some(i) => final(self).entries_view() == old(self).entries_view().update(i, (key, v)),
                None => exists|p: int|
                    0 <= p <= old(self).entries_view().len() && final(self).entries_view() == old(
                        self,
                    ).entries_view().take(p).push((key, v)) + old(self).entries_view().skip(p),
            },
    {
        proof {
            use_type_invariant(&*self);
        }
        let ghost old_e = self.entries@;
        let ghost kv = key@;
        match self.locate(key.as_str()) {
            Ok(i) => {
                proof {
                    lemma_key_index_unique(old_e, kv, i as int);
                }
                let mut entries: Vec<(String, V)> = Vec::new();
                std::mem::swap(&mut entries, &mut self.entries);
                entries.set(i, (key, v));
                proof {
                    let ne = entries@;
                    assert forall|a: int, b: int| 0 <= a < b < ne.len() implies seq_lt((#[trigger] ne[a]).0@, (#[trigger] ne[b]).0@) by {
                        assert(ne[a].0@ == old_e[a].0@ && ne[b].0@ == old_e[b].0@);
                    }
                    lemma_key_index_unique(ne, kv, i as int);
                    assert forall|k: Seq<char>| k != kv implies #[trigger] value_of(ne, k) == value_of(old_e, k) by {
                        if exists|j: int| 0 <= j < old_e.len() && (#[trigger] old_e[j]).0@ == k {
                            let j = choose|j: int| 0 <= j < old_e.len() && (#[trigger] old_e[j]).0@ == k;
                            lemma_key_index_unique(old_e, k, j);
                            assert(ne[j] == old_e[j]);
                            lemma_key_index_unique(ne, k, j);
                        } else {
                            if exists|j: int| 0 <= j < ne.len() && (#[trigger] ne[j]).0@ == k {
                                let j = choose|j: int| 0 <= j < ne.len() && (#[trigger] ne[j]).0@ == k;
                                assert(ne[j] == old_e[j]);
                            }
                        }
                    }
                }
                self.entries = entries;
            },
            Err(p) => {
                proof {
                    if exists|i: int| 0 <= i < old_e.len() && (#[trigger] old_e[i]).0@ == kv {
                        let i = choose|i: int| 0 <= i < old_e.len() && (#[trigger] old_e[i]).0@ == kv;
                        lemma_seq_lt_irreflexive(kv);
                    }
                }
                let mut entries: Vec<(String, V)> = Vec::new();
                std::mem::swap(&mut entries, &mut self.entries);
                entries.insert(p, (key, v));
                proof {
                    let ne = entries@;
                    assert(ne =~= old_e.take(p as int).push((ne[p as int].0, v)) + old_e.skip(p as int));
                    assert forall|a: int, b: int| 0 <= a < b < ne.len() implies seq_lt((#[trigger] ne[a]).0@, (#[trigger] ne[b]).0@) by {
                        if b < p {
                            assert(ne[a] == old_e[a] && ne[b] == old_e[b]);
                        } else if b == p {
                            assert(ne[a] == old_e[a]);
                        } else if a == p {
                            assert(ne[b] == old_e[b - 1]);
                        } else if a < p {
                            assert(ne[a] == old_e[a] && ne[b] == old_e[b - 1]);
                            lemma_seq_lt_transitive(old_e[a].0@, kv, old_e[b - 1].0@);
                        } else {
                            assert(ne[a] == old_e[a - 1] && ne[b] == old_e[b - 1]);
                        }
                    }
                    lemma_key_index_unique(ne, kv, p as int);
                    assert forall|k: Seq<char>| k != kv implies #[trigger] value_of(ne, k) == value_of(old_e, k) by {
                        if exists|j: int| 0 <= j < old_e.len() && (#[trigger] old_e[j]).0@ == k {
                            let j = choose|j: int| 0 <= j < old_e.len() && (#[trigger] old_e[j]).0@ == k;
                            lemma_key_index_unique(old_e, k, j);
                            if j < p {
                                assert(ne[j] == old_e[j]);
                                lemma_key_index_unique(ne, k, j);
                            } else {
                                assert(ne[j + 1] == old_e[j]);
                                lemma_key_index_unique(ne, k, j + 1);
                            }
                        } else {
                            if exists|j: int| 0 <= j < ne.len() && (#[trigger] ne[j]).0@ == k {
                                let j = choose|j: int| 0 <= j < ne.len() && (#[trigger] ne[j]).0@ == k;
                                if j < p {
                                    assert(ne[j] == old_e[j]);
                                } else if j > p {
                                    assert(ne[j] == old_e[j - 1]);
                                }
                            }
                        }
                    }
                }
                self.entries = entries;
            },
        }
    }

    /// Removes the entry with `key`, returning its value.
    pub fn remove(&mut self, key: &str) -> (r: Option<V>)
        ensures
            r == old(self).spec_get(key@),
            final(self).spec_get(key@) is None,
            forall|k: Seq<char>| k != key@ ==> #[trigger] final(self).spec_get(k) == old(self).spec_get(k),
            match key_index(old(self).entries_view(), key@) {
                Some(i) => final(self).entries_view() == old(self).entries_view().remove(i),
                None => final(self).entries_view() == old(self).entries_view(),
            },
    {
        proof {
            use_type_invariant(&*self);
        }
        let ghost old_e = self.entries@;
        let ghost kv = key@;
        match self.locate(key) {
            Ok(i) => {
                proof {
                    lemma_key_index_unique(old_e, kv, i as int);
                }
                let mut entries: Vec<(String, V)> = Vec::new();
                std::mem::swap(&mut entries, &mut self.entries);
                let (_, v) = entries.remove(i);
                proof {
                    let ne = entries@;
                    assert forall|a: int, b: int| 0 <= a < b < ne.len() implies seq_lt((#[trigger] ne[a]).0@, (#[trigger] ne[b]).0@) by {
                        let oa = if a < i { a } else { a + 1 };
                        let ob = if b < i { b } else { b + 1 };
                        assert(ne[a] == old_e[oa] && ne[b] == old_e[ob]);
                    }
                    if exists|j: int| 0 <= j < ne.len() && (#[trigger] ne[j]).0@ == kv {
                        let j = choose|j: int| 0 <= j < ne.len() && (#[trigger] ne[j]).0@ == kv;
                        let oj = if j < i { j } else { j + 1 };
                        assert(ne[j] == old_e[oj]);
                        assert(seq_lt(old_e[oj].0@, old_e[i as int].0@) || seq_lt(old_e[i as int].0@, old_e[oj].0@));
                        lemma_seq_lt_irreflexive(kv);
                    }
                    assert forall|k: Seq<char>| k != kv implies #[trigger] value_of(ne, k) == value_of(old_e, k) by {
                        if exists|j: int| 0 <= j < old_e.len() && (#[trigger] old_e[j]).0@ == k {
                            let j = choose|j: int| 0 <= j < old_e.len() && (#[trigger] old_e[j]).0@ == k;
                            lemma_key_index_unique(old_e, k, j);
                            assert(j != i);
                            let nj = if j < i { j } else { j - 1 };
                            assert(ne[nj] == old_e[j]);
                            lemma_key_index_unique(ne, k, nj);
                        } else {
                            if exists|j: int| 0 <= j < ne.len() && (#[trigger] ne[j]).0@ == k {
                                let j = choose|j: int| 0 <= j < ne.len() && (#[trigger] ne[j]).0@ == k;
                                let oj = if j < i { j } else { j + 1 };
                                assert(ne[j] == old_e[oj]);
                            }
                        }
                    }
                }
                self.entries = entries;
                Some(v)
            },
            Err(p) => {
                proof {
                    if exists|i: int| 0 <= i < old_e.len() && (#[trigger] old_e[i]).0@ == kv {
                        let i = choose|i: int| 0 <= i < old_e.len() && (#[trigger] old_e[i]).0@ == kv;
                        lemma_seq_lt_irreflexive(kv);
                    }
                }
                None
            },
        }
    }
    /// The map this holds.
    pub open spec fn as_map(&self) -> Map<Seq<char>, V> {
        Map::new(|k: Seq<char>| self.spec_get(k) is Some, |k: Seq<char>| self.spec_get(k).unwrap())
    }
}

impl<V: Copy> StrMap<V> {
    /// A copy with equal keys and values.
    pub fn duplicate(&self) -> (m: Self)
        ensures
            m.entries_view().len() == self.entries_view().len(),
            forall|i: int|
                0 <= i < self.entries_view().len() ==> (#[trigger] m.entries_view()[i]).0@ == self.entries_view()[i].0@
                    && m.entries_view()[i].1 == self.entries_view()[i].1,
            forall|k: Seq<char>| #[trigger] m.spec_get(k) == self.spec_get(k),
    {
        proof {
            use_type_invariant(self);
        }
        let mut entries: Vec<(String, V)> = Vec::new();
        let mut i: usize = 0;
        while i < self.entries.len()
            invariant
                i <= self.entries@.len(),
                keys_sorted(self.entries@),
                entries@.len() == i,
                forall|j: int|
                    0 <= j < i ==> (#[trigger] entries@[j]).0@ == self.entries@[j].0@ && entries@[j].1 == self.entries@[j].1,
            decreases self.entries.len() - i,
        {
            let k = self.entries[i].0.clone();
            let v = self.entries[i].1;
            entries.push((k, v));
            i = i + 1;
        }
        proof {
            let ne = entries@;
            let oe = self.entries@;
            assert forall|a: int, b: int| 0 <= a < b < ne.len() implies seq_lt((#[trigger] ne[a]).0@, (#[trigger] ne[b]).0@) by {
                assert(ne[a].0@ == oe[a].0@ && ne[b].0@ == oe[b].0@);
            }
            assert forall|k: Seq<char>| #[trigger] value_of(ne, k) == value_of(oe, k) by {
                if exists|j: int| 0 <= j < oe.len() && (#[trigger] oe[j]).0@ == k {
                    let j = choose|j: int| 0 <= j < oe.len() && (#[trigger] oe[j]).0@ == k;
                    lemma_key_index_unique(oe, k, j);
                    lemma_key_index_unique(ne, k, j);
                } else if exists|j: int| 0 <= j < ne.len() && (#[trigger] ne[j]).0@ == k {
                    let j = choose|j: int| 0 <= j < ne.len() && (#[trigger] ne[j]).0@ == k;
                    assert(oe[j].0@ == k);
                }
            }
        }
        StrMap { entries }
    }
}

impl<V: Clone> StrMap<V> {
    /// A copy with equal keys, each value cloned.
    pub fn cloned_map(&self) -> (m: Self)
        ensures
            forall|k: Seq<char>| #[trigger] m.spec_get(k) is Some <==> self.spec_get(k) is Some,
            forall|k: Seq<char>|
                #[trigger] self.spec_get(k) is Some ==> cloned::<V>(self.spec_get(k).unwrap(), m.spec_get(k).unwrap()),
    {
        proof {
            use_type_invariant(self);
        }
        let mut entries: Vec<(String, V)> = Vec::new();
        let mut i: usize = 0;
        while i < self.entries.len()
            invariant
                i <= self.entries@.len(),
                keys_sorted(self.entries@),
                entries@.len() == i,
                forall|j: int|
                    0 <= j < i ==> (#[trigger] entries@[j]).0@ == self.entries@[j].0@ && cloned::<V>(
                        self.entries@[j].1,
                        entries@[j].1,
                    ),
            decreases self.entries.len() - i,
        {
            let k = self.entries[i].0.clone();
            let v = self.entries[i].1.clone();
            entries.push((k, v));
            i = i + 1;
        }
        proof {
            let ne = entries@;
            let oe = self.entries@;
            assert forall|a: int, b: int| 0 <= a < b < ne.len() implies seq_lt((#[trigger] ne[a]).0@, (#[trigger] ne[b]).0@) by {
                assert(ne[a].0@ == oe[a].0@ && ne[b].0@ == oe[b].0@);
            }
            assert forall|k: Seq<char>|
                (#[trigger] value_of(ne, k) is Some <==> value_of(oe, k) is Some) && (value_of(oe, k) is Some
                    ==> cloned::<V>(value_of(oe, k).unwrap(), value_of(ne, k).unwrap())) by {
                if exists|j: int| 0 <= j < oe.len() && (#[trigger] oe[j]).0@ == k {
                    let j = choose|j: int| 0 <= j < oe.len() && (#[trigger] oe[j]).0@ == k;
                    lemma_key_index_unique(oe, k, j);
                    lemma_key_index_unique(ne, k, j);
                } else if exists|j: int| 0 <= j < ne.len() && (#[trigger] ne[j]).0@ == k {
                    let j = choose|j: int| 0 <= j < ne.len() && (#[trigger] ne[j]).0@ == k;
                    assert(oe[j].0@ == k);
                }
            }
        }
        StrMap { entries }
    }
}

} // verus!
