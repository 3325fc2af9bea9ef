//! Facts about filtered sequences that the store model rests on.

use vstd::prelude::*;

verus! {

/// A filter keeps a sequence whose elements all pass.
pub proof fn lemma_filter_keeps_all<A>(s: Seq<A>, pred: spec_fn(A) -> bool)
    requires
        forall|i: int| 0 <= i < s.len() ==> pred(#[trigger] s[i]),
    ensures
        s.filter(pred) == s,
    decreases s.len(),
{
    reveal(Seq::filter);
    if s.len() > 0 {
        lemma_filter_keeps_all(s.drop_last(), pred);
        assert(s.drop_last().push(s.last()) =~= s);
    }
}

/// A filter empties a sequence none of whose elements pass.
pub proof fn lemma_filter_drops_all<A>(s: Seq<A>, pred: spec_fn(A) -> bool)
    requires
        forall|i: int| 0 <= i < s.len() ==> !pred(#[trigger] s[i]),
    ensures
        s.filter(pred) == Seq::<A>::empty(),
    decreases s.len(),
{
    reveal(Seq::filter);
    if s.len() > 0 {
        lemma_filter_drops_all(s.drop_last(), pred);
    }
}

/// Whatever holds of every element of a sequence holds of every element
/// that passes a filter, and so does the filter's own condition.
pub proof fn lemma_filter_inherits<A>(s: Seq<A>, pred: spec_fn(A) -> bool, holds: spec_fn(A) -> bool)
    requires
        forall|i: int| 0 <= i < s.len() ==> holds(#[trigger] s[i]),
    ensures
        forall|i: int|
            0 <= i < s.filter(pred).len() ==> holds(#[trigger] s.filter(pred)[i]) && pred(
                s.filter(pred)[i],
            ),
    decreases s.len(),
{
    reveal(Seq::filter);
    if s.len() > 0 {
        let shorter = s.drop_last();
        assert forall|i: int| 0 <= i < shorter.len() implies holds(#[trigger] shorter[i]) by {
            assert(shorter[i] == s[i]);
        }
        lemma_filter_inherits(shorter, pred, holds);
        let sub = shorter.filter(pred);
        assert(holds(s[s.len() - 1]));
        assert forall|i: int| 0 <= i < s.filter(pred).len() implies holds(
            #[trigger] s.filter(pred)[i],
        ) && pred(s.filter(pred)[i]) by {
            if i < sub.len() {
                assert(s.filter(pred)[i] == sub[i]);
            } else {
                assert(s.filter(pred)[i] == s.last());
            }
        }
    }
}

/// A filter takes the front part whole and nothing of the back part, if all
/// of the front passes and none of the back.
pub proof fn lemma_filter_front<A>(front: Seq<A>, back: Seq<A>, pred: spec_fn(A) -> bool)
    requires
        forall|i: int| 0 <= i < front.len() ==> pred(#[trigger] front[i]),
        forall|i: int| 0 <= i < back.len() ==> !pred(#[trigger] back[i]),
    ensures
        (front + back).filter(pred) == front,
{
    lemma_filter_keeps_all(front, pred);
    lemma_filter_drops_all(back, pred);
    Seq::filter_distributes_over_add(front, back, pred);
    assert(front + Seq::<A>::empty() =~= front);
}

/// A filter takes the back part whole and nothing of the front part, if all
/// of the back passes and none of the front.
pub proof fn lemma_filter_back<A>(front: Seq<A>, back: Seq<A>, pred: spec_fn(A) -> bool)
    requires
        forall|i: int| 0 <= i < front.len() ==> !pred(#[trigger] front[i]),
        forall|i: int| 0 <= i < back.len() ==> pred(#[trigger] back[i]),
    ensures
        (front + back).filter(pred) == back,
{
    lemma_filter_drops_all(front, pred);
    lemma_filter_keeps_all(back, pred);
    Seq::filter_distributes_over_add(front, back, pred);
    assert(Seq::<A>::empty() + back =~= back);
}

/// A filter that all elements pass but the one at index `at` removes that
/// element.
pub proof fn lemma_filter_removes_one<A>(s: Seq<A>, pred: spec_fn(A) -> bool, at: int)
    requires
        0 <= at < s.len(),
        !pred(s[at]),
        forall|i: int| 0 <= i < s.len() && i != at ==> pred(#[trigger] s[i]),
    ensures
        s.filter(pred) == s.remove(at),
{
    let front = s.take(at);
    let single = seq![s[at]];
    let back = s.skip(at + 1);
    assert(s =~= front + single + back);
    assert forall|i: int| 0 <= i < front.len() implies pred(#[trigger] front[i]) by {
        assert(front[i] == s[i]);
    }
    assert forall|i: int| 0 <= i < back.len() implies pred(#[trigger] back[i]) by {
        assert(back[i] == s[i + at + 1]);
    }
    assert forall|i: int| 0 <= i < single.len() implies !pred(#[trigger] single[i]) by {}
    lemma_filter_front(front, single, pred);
    lemma_filter_keeps_all(back, pred);
    Seq::filter_distributes_over_add(front + single, back, pred);
    assert(front + back =~= s.remove(at));
}

/// One more element at the end adds one to the number that pass if it
/// passes, and nothing if not.
pub proof fn lemma_filter_len_push<A>(s: Seq<A>, pred: spec_fn(A) -> bool, last: A)
    ensures
        s.push(last).filter(pred).len() == s.filter(pred).len() + if pred(last) {
            1int
        } else {
            0int
        },
{
    reveal(Seq::filter);
    assert(s.push(last).drop_last() =~= s);
}

} // verus!
