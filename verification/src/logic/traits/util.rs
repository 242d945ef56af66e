//! Standalone generic helpers.

use crate::logic::traits::item::Templated;
use vstd::prelude::*;

verus! {

/// Template ids of `items`, in order.
pub open spec fn template_ids<T: Templated>(items: Seq<T>) -> Seq<Seq<char>> {
    items.map_values(|x: T| x.spec_template_id())
}

/// The predicate "equals `t`".
pub open spec fn equals(t: Seq<char>) -> spec_fn(Seq<char>) -> bool {
    |x: Seq<char>| x == t
}

/// How many entries of `ids` equal `t`.
pub open spec fn occurrences(ids: Seq<Seq<char>>, t: Seq<char>) -> nat {
    ids.filter(equals(t)).len()
}

/// `counts` tallies `ids`: one entry per distinct id, paired with how often it occurs.
pub open spec fn is_tally(counts: Seq<(String, u32)>, ids: Seq<Seq<char>>) -> bool {
    &&& forall|k: int| 0 <= k < counts.len() ==> counts[k].1 == occurrences(ids, (#[trigger] counts[k]).0@)
    &&& forall|k: int| 0 <= k < counts.len() ==> ids.contains((#[trigger] counts[k]).0@)
    &&& forall|k1: int, k2: int|
        0 <= k1 < k2 < counts.len() ==> (#[trigger] counts[k1]).0@ != (#[trigger] counts[k2]).0@
    &&& forall|j: int|
        0 <= j < ids.len() ==> exists|k: int| 0 <= k < counts.len() && (#[trigger] counts[k]).0@ == #[trigger] ids[j]
}

proof fn lemma_occurrences_push(ids: Seq<Seq<char>>, x: Seq<char>, t: Seq<char>)
    ensures
        occurrences(ids.push(x), t) == occurrences(ids, t) + (if x == t { 1nat } else { 0nat }),
{
    ids.lemma_filter_push(x, equals(t));
}

proof fn lemma_occurrences_absent(ids: Seq<Seq<char>>, t: Seq<char>)
    requires
        !ids.contains(t),
    ensures
        occurrences(ids, t) == 0,
    decreases ids.len(),
{
    if ids.len() > 0 {
        let init = ids.drop_last();
        assert(ids == init.push(ids.last()));
        assert forall|j: int| 0 <= j < init.len() implies init[j] != t by {
            assert(ids[j] == init[j]);
        }
        lemma_occurrences_absent(init, t);
        lemma_occurrences_push(init, ids.last(), t);
    } else {
        assert(ids.filter(equals(t)) =~= Seq::<Seq<char>>::empty()) by {
            reveal(Seq::filter);
        }
    }
}

/// Counts how many items of each distinct template id appear in `items`:
/// one `(template_id, count)` entry per distinct id, in order of first appearance.
pub fn count_by_template<T: Templated>(items: &[T]) -> (counts: Vec<(String, u32)>)
    requires
        items@.len() <= u32::MAX,
    ensures
        is_tally(counts@, template_ids(items@)),
{
    let ghost ids = template_ids(items@);
    let mut counts: Vec<(String, u32)> = Vec::new();
    let mut i: usize = 0;
    while i < items.len()
        invariant
            i <= items@.len() <= u32::MAX,
            ids == template_ids(items@),
            is_tally(counts@, ids.take(i as int)),
            forall|k: int| 0 <= k < counts@.len() ==> (#[trigger] counts@[k]).1 <= i,
        decreases items.len() - i,
    {
        let t: String = items[i].template_id().to_owned();
        let ghost pre = ids.take(i as int);
        proof {
            assert(ids.take(i + 1) == pre.push(t@));
            assert forall|u: Seq<char>| occurrences(ids.take(i + 1), u) == occurrences(pre, u) + (if t@
                == u { 1nat } else { 0nat }) by {
                lemma_occurrences_push(pre, t@, u);
            }
        }
        let mut k: usize = 0;
        let mut found = false;
        while k < counts.len()
            invariant_except_break
                k <= counts@.len(),
                !found,
                forall|m: int| 0 <= m < k ==> (#[trigger] counts@[m]).0@ != t@,
            ensures
                k <= counts@.len(),
                found ==> k < counts@.len() && counts@[k as int].0@ == t@,
                !found ==> forall|m: int| 0 <= m < counts@.len() ==> (#[trigger] counts@[m]).0@ != t@,
            decreases counts.len() - k,
        {
            if counts[k].0 == t {
                found = true;
                break;
            }
            k = k + 1;
        }
        let ghost old_counts = counts@;
        if found {
            let c = counts[k].1;
            counts.set(k, (t, c + 1));
            proof {
                let post = ids.take(i + 1);
                assert forall|m: int| 0 <= m < counts@.len() implies post.contains((#[trigger] counts@[m]).0@) by {
                    let w = choose|j: int| 0 <= j < pre.len() && pre[j] == old_counts[m].0@;
                    assert(post[w] == pre[w]);
                }
                assert forall|j: int| 0 <= j < post.len() implies exists|m: int|
                    0 <= m < counts@.len() && (#[trigger] counts@[m]).0@ == #[trigger] post[j] by {
                    if j < pre.len() {
                        assert(post[j] == pre[j]);
                        let m = choose|m: int| 0 <= m < old_counts.len() && (#[trigger] old_counts[m]).0@ == pre[j];
                        assert(counts@[m].0@ == post[j]);
                    } else {
                        assert(counts@[k as int].0@ == post[j]);
                    }
                }
            }
        } else {
            let ghost tv = t@;
            counts.push((t, 1));
            proof {
                let post = ids.take(i + 1);
                assert(post[i as int] == tv);
                assert(occurrences(pre, tv) == 0) by {
                    if pre.contains(tv) {
                        let j = choose|j: int| 0 <= j < pre.len() && pre[j] == tv;
                        let m = choose|m: int| 0 <= m < old_counts.len() && (#[trigger] old_counts[m]).0@ == pre[j];
                        assert(old_counts[m].0@ != tv);
                    }
                    lemma_occurrences_absent(pre, tv);
                }
                assert forall|m: int| 0 <= m < counts@.len() implies post.contains((#[trigger] counts@[m]).0@) by {
                    if m < old_counts.len() {
                        assert(counts@[m] == old_counts[m]);
                        let w = choose|j: int| 0 <= j < pre.len() && pre[j] == old_counts[m].0@;
                        assert(post[w] == pre[w]);
                    } else {
                        assert(post[i as int] == counts@[m].0@);
                    }
                }
                assert forall|j: int| 0 <= j < post.len() implies exists|m: int|
                    0 <= m < counts@.len() && (#[trigger] counts@[m]).0@ == #[trigger] post[j] by {
                    if j < pre.len() {
                        assert(post[j] == pre[j]);
                        let m = choose|m: int| 0 <= m < old_counts.len() && (#[trigger] old_counts[m]).0@ == pre[j];
                        assert(counts@[m] == old_counts[m]);
                    } else {
                        assert(counts@[old_counts.len() as int].0@ == post[j]);
                    }
                }
            }
        }
        i = i + 1;
    }
    proof {
        assert(ids.take(items@.len() as int) == ids);
    }
    counts
}

} // verus!
