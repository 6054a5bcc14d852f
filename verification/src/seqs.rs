//! Sequences with some elements left out.

use vstd::prelude::*;

verus! {

/// The elements of a sequence that satisfy `keep`, in their order.
pub open spec fn kept<T>(s: Seq<T>, keep: spec_fn(T) -> bool) -> Seq<T>
    decreases s.len(),
{
    if s.len() == 0 {
        s
    } else if keep(s.last()) {
        kept(s.drop_last(), keep).push(s.last())
    } else {
        kept(s.drop_last(), keep)
    }
}

/// Where each kept element came from: the positions are in range, rising,
/// hold the kept elements, and cover every element that satisfies `keep`.
pub open spec fn is_origin<T>(s: Seq<T>, keep: spec_fn(T) -> bool, origin: Seq<int>) -> bool {
    &&& origin.len() == kept(s, keep).len()
    &&& forall|k: int|
        0 <= k < origin.len() ==> 0 <= (#[trigger] origin[k]) < s.len() && kept(s, keep)[k]
            == s[origin[k]] && keep(s[origin[k]])
    &&& forall|a: int, b: int|
        0 <= a < b < origin.len() ==> (#[trigger] origin[a]) < (#[trigger] origin[b])
    &&& forall|i: int|
        0 <= i < s.len() && keep(#[trigger] s[i]) ==> exists|k: int|
            0 <= k < origin.len() && #[trigger] origin[k] == i
}

/// Leaving elements out keeps the others, in order and once each.
pub proof fn lemma_kept_origin<T>(s: Seq<T>, keep: spec_fn(T) -> bool) -> (origin: Seq<int>)
    ensures
        is_origin(s, keep, origin),
    decreases s.len(),
{
    if s.len() == 0 {
        Seq::<int>::empty()
    } else {
        let init = s.drop_last();
        let before = lemma_kept_origin(init, keep);
        if keep(s.last()) {
            let origin = before.push(s.len() - 1);
            assert forall|k: int| 0 <= k < origin.len() implies 0 <= (#[trigger] origin[k])
                < s.len() && kept(s, keep)[k] == s[origin[k]] && keep(s[origin[k]]) by {
                if k < before.len() {
                    assert(origin[k] == before[k]);
                    assert(kept(init, keep)[k] == init[before[k]]);
                }
            }
            assert forall|a: int, b: int| 0 <= a < b < origin.len() implies (#[trigger] origin[a])
                < (#[trigger] origin[b]) by {
                if b < before.len() {
                    assert(before[a] < before[b]);
                } else {
                    assert(origin[a] == before[a]);
                }
            }
            assert forall|i: int| 0 <= i < s.len() && keep(#[trigger] s[i]) implies exists|k: int|
                0 <= k < origin.len() && #[trigger] origin[k] == i by {
                if i < init.len() {
                    assert(keep(init[i]));
                    let k = choose|k: int| 0 <= k < before.len() && #[trigger] before[k] == i;
                    assert(origin[k] == i);
                } else {
                    assert(origin[before.len() as int] == i);
                }
            }
            origin
        } else {
            assert forall|k: int| 0 <= k < before.len() implies 0 <= (#[trigger] before[k])
                < s.len() && kept(s, keep)[k] == s[before[k]] && keep(s[before[k]]) by {
                assert(kept(init, keep)[k] == init[before[k]]);
            }
            assert forall|i: int| 0 <= i < s.len() && keep(#[trigger] s[i]) implies exists|k: int|
                0 <= k < before.len() && #[trigger] before[k] == i by {
                assert(i < init.len());
                assert(keep(init[i]));
            }
            before
        }
    }
}

/// Keeping the elements of a sequence that grew by one.
pub proof fn lemma_kept_push<T>(s: Seq<T>, x: T, keep: spec_fn(T) -> bool)
    ensures
        kept(s.push(x), keep) == if keep(x) {
            kept(s, keep).push(x)
        } else {
            kept(s, keep)
        },
{
    assert(s.push(x).drop_last() =~= s);
}

} // verus!
