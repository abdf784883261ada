//! Facts about filtered sequences that the tables' proofs share.

use vstd::prelude::*;

verus! {

/// Filtering one more element: the element is appended where the
/// predicate holds of it.
pub proof fn lemma_filter_step<T>(s: Seq<T>, pred: spec_fn(T) -> bool, i: int)
    requires
        0 <= i < s.len(),
    ensures
        s.take(i + 1).filter(pred) == if pred(s[i]) {
            s.take(i).filter(pred).push(s[i])
        } else {
            s.take(i).filter(pred)
        },
{
    reveal(Seq::filter);
    assert(s.take(i + 1).drop_last() =~= s.take(i));
}

/// Filtering nothing leaves nothing.
pub proof fn lemma_filter_empty<T>(s: Seq<T>, pred: spec_fn(T) -> bool)
    requires
        s.len() == 0,
    ensures
        s.filter(pred) == Seq::<T>::empty(),
{
    reveal(Seq::filter);
    assert(s.filter(pred) =~= Seq::<T>::empty());
}

/// What a filter keeps: exactly the elements of `s` of which the
/// predicate holds.
pub proof fn lemma_filter_members<T>(s: Seq<T>, pred: spec_fn(T) -> bool)
    ensures
        forall|i: int| 0 <= i < s.filter(pred).len() ==> pred(#[trigger] s.filter(pred)[i]),
        forall|i: int| 0 <= i < s.filter(pred).len() ==> s.contains(#[trigger] s.filter(pred)[i]),
        forall|i: int| 0 <= i < s.len() && pred(s[i]) ==> s.filter(pred).contains(#[trigger] s[i]),
        forall|x: T| #[trigger] s.filter(pred).contains(x) <==> s.contains(x) && pred(x),
    decreases s.len(),
{
    reveal(Seq::filter);
    let out = s.filter(pred);
    if s.len() > 0 {
        let rest = s.drop_last();
        let front = rest.filter(pred);
        lemma_filter_members(rest, pred);
        assert forall|i: int| 0 <= i < out.len() implies pred(#[trigger] out[i]) && s.contains(
            out[i],
        ) by {
            if i < front.len() {
                assert(out[i] == front[i]);
                assert(rest.contains(front[i]));
                let j = choose|j: int| 0 <= j < rest.len() && rest[j] == front[i];
                assert(s[j] == out[i]);
            } else {
                assert(out[i] == s[s.len() - 1]);
            }
        }
        assert forall|i: int| 0 <= i < s.len() && pred(s[i]) implies out.contains(
            #[trigger] s[i],
        ) by {
            if i < rest.len() {
                assert(rest[i] == s[i]);
                assert(front.contains(rest[i]));
                let j = choose|j: int| 0 <= j < front.len() && front[j] == rest[i];
                assert(out[j] == s[i]);
            } else {
                assert(out[out.len() - 1] == s[i]);
            }
        }
        assert forall|x: T| #[trigger] out.contains(x) <==> s.contains(x) && pred(x) by {
            if out.contains(x) {
                let i = choose|i: int| 0 <= i < out.len() && out[i] == x;
                assert(pred(out[i]) && s.contains(out[i]));
            }
            if s.contains(x) && pred(x) {
                let i = choose|i: int| 0 <= i < s.len() && s[i] == x;
                assert(out.contains(s[i]));
            }
        }
    }
}

/// A filter that rejects every element leaves nothing; one that accepts
/// every element leaves the sequence as it is.
pub proof fn lemma_filter_all_or_nothing<T>(s: Seq<T>, pred: spec_fn(T) -> bool)
    ensures
        (forall|i: int| 0 <= i < s.len() ==> !pred(#[trigger] s[i])) ==> s.filter(pred)
            == Seq::<T>::empty(),
        (forall|i: int| 0 <= i < s.len() ==> pred(#[trigger] s[i])) ==> s.filter(pred) == s,
    decreases s.len(),
{
    reveal(Seq::filter);
    if s.len() > 0 {
        let rest = s.drop_last();
        lemma_filter_all_or_nothing(rest, pred);
        if forall|i: int| 0 <= i < s.len() ==> !pred(#[trigger] s[i]) {
            assert forall|i: int| 0 <= i < rest.len() implies !pred(#[trigger] rest[i]) by {
                assert(rest[i] == s[i]);
            }
            assert(!pred(s[s.len() - 1]));
        }
        if forall|i: int| 0 <= i < s.len() ==> pred(#[trigger] s[i]) {
            assert forall|i: int| 0 <= i < rest.len() implies pred(#[trigger] rest[i]) by {
                assert(rest[i] == s[i]);
            }
            assert(pred(s[s.len() - 1]));
            assert(rest.push(s.last()) =~= s);
        }
    } else {
        assert(s.filter(pred) =~= Seq::<T>::empty());
    }
}

} // verus!
