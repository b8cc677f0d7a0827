//! Keeping some elements of a sequence, each turned into another value.

use vstd::prelude::*;

verus! {

/// The values that `f` gives for the elements of `s`, in the order of `s`,
/// without the elements for which it gives none.
pub open spec fn filter_map<A, B>(s: Seq<A>, f: spec_fn(A) -> Option<B>) -> Seq<B>
    decreases s.len(),
{
    if s.len() == 0 {
        Seq::empty()
    } else {
        let before = filter_map(s.drop_last(), f);
        match f(s.last()) {
            Some(b) => before.push(b),
            None => before,
        }
    }
}

/// What one more element adds to the result for the elements before it.
pub proof fn lemma_filter_map_step<A, B>(s: Seq<A>, f: spec_fn(A) -> Option<B>, k: int)
    requires
        0 <= k < s.len(),
    ensures
        filter_map(s.take(k + 1), f) == match f(s[k]) {
            Some(b) => filter_map(s.take(k), f).push(b),
            None => filter_map(s.take(k), f),
        },
{
    assert(s.take(k + 1).drop_last() =~= s.take(k));
}

/// A value is in the result exactly if `f` gives it for some element of `s`.
pub proof fn lemma_filter_map_contains<A, B>(s: Seq<A>, f: spec_fn(A) -> Option<B>, b: B)
    ensures
        filter_map(s, f).contains(b) <==> exists|i: int| 0 <= i < s.len() && f(#[trigger] s[i]) == Some(b),
    decreases s.len(),
{
    let out = filter_map(s, f);
    if s.len() > 0 {
        let before = s.drop_last();
        let earlier = filter_map(before, f);
        lemma_filter_map_contains(before, f, b);
        if out.contains(b) {
            let k = choose|k: int| 0 <= k < out.len() && out[k] == b;
            if k < earlier.len() {
                assert(earlier[k] == b);
                assert(earlier.contains(b));
                let i = choose|i: int| 0 <= i < before.len() && f(#[trigger] before[i]) == Some(b);
                assert(s[i] == before[i]);
            } else {
                assert(f(s[s.len() - 1]) == Some(b));
            }
        }
        if exists|i: int| 0 <= i < s.len() && f(#[trigger] s[i]) == Some(b) {
            let i = choose|i: int| 0 <= i < s.len() && f(#[trigger] s[i]) == Some(b);
            if i < before.len() {
                assert(before[i] == s[i]);
                assert(earlier.contains(b));
                let k = choose|k: int| 0 <= k < earlier.len() && earlier[k] == b;
                assert(out[k] == b);
            } else {
                assert(out.last() == b);
            }
        }
    }
}

/// The values of the result come in the order of the elements that gave
/// them: of two values, the earlier one is given by an earlier element.
pub proof fn lemma_filter_map_order<A, B>(s: Seq<A>, f: spec_fn(A) -> Option<B>, a: int, b: int)
    requires
        0 <= a < b < filter_map(s, f).len(),
    ensures
        exists|i: int, j: int|
            0 <= i < j < s.len() && f(#[trigger] s[i]) == Some(filter_map(s, f)[a]) && f(
                #[trigger] s[j],
            ) == Some(filter_map(s, f)[b]),
    decreases s.len(),
{
    let out = filter_map(s, f);
    if s.len() > 0 {
        let before = s.drop_last();
        let earlier = filter_map(before, f);
        if b < earlier.len() {
            lemma_filter_map_order(before, f, a, b);
            let (i, j) = choose|i: int, j: int|
                0 <= i < j < before.len() && f(#[trigger] before[i]) == Some(earlier[a]) && f(
                    #[trigger] before[j],
                ) == Some(earlier[b]);
            assert(s[i] == before[i] && s[j] == before[j]);
        } else {
            let last = s.len() - 1;
            assert(f(s[last]) == Some(out[b]));
            assert(earlier.contains(earlier[a]));
            lemma_filter_map_contains(before, f, earlier[a]);
            let i = choose|i: int| 0 <= i < before.len() && f(#[trigger] before[i]) == Some(earlier[a]);
            assert(s[i] == before[i]);
        }
    }
}

} // verus!
