//! String-keyed tables: entries are `(key, value)` pairs and a lookup takes the
//! first entry whose key matches. Tables built from keyed maps hold each key once.

use vstd::prelude::*;

verus! {

/// `i` is the first position of `entries` whose key is `key`.
pub open spec fn is_first_key<T>(entries: Seq<(String, T)>, key: Seq<char>, i: int) -> bool {
    &&& 0 <= i < entries.len()
    &&& entries[i].0@ == key
    &&& forall|j: int| 0 <= j < i ==> (#[trigger] entries[j]).0@ != key
}

/// Some entry of `entries` has key `key`.
pub open spec fn has_key<T>(entries: Seq<(String, T)>, key: Seq<char>) -> bool {
    exists|i: int| 0 <= i < entries.len() && (#[trigger] entries[i]).0@ == key
}

/// The value stored under `key` (first match), if any.
pub open spec fn lookup<T>(entries: Seq<(String, T)>, key: Seq<char>) -> Option<T> {
    if has_key(entries, key) {
        Some(entries[choose|i: int| is_first_key(entries, key, i)].1)
    } else {
        None
    }
}

/// The values of `entries`, in order.
pub open spec fn values<T>(entries: Seq<(String, T)>) -> Seq<T> {
    entries.map_values(|e: (String, T)| e.1)
}

pub proof fn lemma_lookup_first<T>(entries: Seq<(String, T)>, key: Seq<char>, i: int)
    requires
        is_first_key(entries, key, i),
    ensures
        has_key(entries, key),
        lookup(entries, key) == Some(entries[i].1),
{
    assert(entries[i].0@ == key);
    let c = choose|k: int| is_first_key(entries, key, k);
    assert(is_first_key(entries, key, c));
    if c < i {
        assert(entries[c].0@ != key);
    } else if c > i {
        assert(entries[i].0@ != key);
    }
}

/// Position of the first entry of `entries` whose key is `key`.
pub fn find_key<T>(entries: &[(String, T)], key: &str) -> (r: Option<usize>)
    ensures
        match r {
            Some(i) => is_first_key(entries@, key@, i as int) && lookup(entries@, key@) == Some(
                entries@[i as int].1,
            ),
            None => !has_key(entries@, key@) && lookup(entries@, key@) is None,
        },
{
    let k: String = key.to_owned();
    let mut i: usize = 0;
    while i < entries.len()
        invariant
            i <= entries@.len(),
            k@ == key@,
            forall|j: int| 0 <= j < i ==> (#[trigger] entries@[j]).0@ != key@,
        decreases entries.len() - i,
    {
        if entries[i].0 == k {
            proof {
                lemma_lookup_first(entries@, key@, i as int);
            }
            return Some(i);
        }
        i = i + 1;
    }
    None
}

/// The value stored under `key`, if any.
pub fn get<'a, T>(entries: &'a [(String, T)], key: &str) -> (r: Option<&'a T>)
    ensures
        match r {
            Some(v) => lookup(entries@, key@) == Some(*v),
            None => lookup(entries@, key@) is None,
        },
{
    match find_key(entries, key) {
        Some(i) => Some(&entries[i].1),
        None => None,
    }
}

/// References to the values of `entries` that satisfy `f`, in order.
pub fn select<'a, T, F: Fn(&T) -> bool>(entries: &'a [(String, T)], f: F, Ghost(p): Ghost<spec_fn(T) -> bool>) -> (out: Vec<&'a T>)
    requires
        forall|v: &T| #[trigger] f.requires((v,)),
        forall|v: &T, b: bool| f.ensures((v,), b) ==> b == p(*v),
    ensures
        out@.len() == values(entries@).filter(p).len(),
        forall|k: int| 0 <= k < out@.len() ==> *out@[k] == values(entries@).filter(p)[k],
{
    let ghost vals = values(entries@);
    let mut out: Vec<&'a T> = Vec::new();
    let mut i: usize = 0;
    while i < entries.len()
        invariant
            i <= entries@.len(),
            vals == values(entries@),
            forall|v: &T| #[trigger] f.requires((v,)),
            forall|v: &T, b: bool| f.ensures((v,), b) ==> b == p(*v),
            out@.len() == vals.take(i as int).filter(p).len(),
            forall|k: int| 0 <= k < out@.len() ==> *out@[k] == vals.take(i as int).filter(p)[k],
        decreases entries.len() - i,
    {
        let v = &entries[i].1;
        proof {
            assert(vals.take(i + 1) == vals.take(i as int).push(vals[i as int]));
            vals.take(i as int).lemma_filter_push(vals[i as int], p);
            assert(vals[i as int] == *v);
        }
        if f(v) {
            out.push(v);
        }
        i = i + 1;
    }
    proof {
        assert(vals.take(entries@.len() as int) == vals);
    }
    out
}

} // verus!
