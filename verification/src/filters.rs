//! Facts about filtering a sequence.

use vstd::prelude::*;

verus! {

/// The place in `s` from which the item at `i` of `s.filter(keep)` comes.
pub open spec fn filter_origin<A>(s: Seq<A>, keep: spec_fn(A) -> bool, i: int) -> int
    decreases s.len(),
{
    if s.len() == 0 {
        0
    } else if i == s.drop_last().filter(keep).len() {
        s.len() - 1
    } else {
        filter_origin(s.drop_last(), keep, i)
    }
}

/// What a filter keeps, it keeps in order: each kept item comes from a
/// place of its own in the sequence, and a later item from a later place.
pub proof fn lemma_filter_keeps_order<A>(s: Seq<A>, keep: spec_fn(A) -> bool)
    ensures
        forall|i: int|
            0 <= i < s.filter(keep).len() ==> {
                &&& 0 <= #[trigger] filter_origin(s, keep, i) < s.len()
                &&& s[filter_origin(s, keep, i)] == s.filter(keep)[i]
            },
        forall|i: int, j: int|
            0 <= i < j < s.filter(keep).len() ==> #[trigger] filter_origin(s, keep, i)
                < #[trigger] filter_origin(s, keep, j),
    decreases s.len(),
{
    reveal(Seq::filter);
    if s.len() > 0 {
        let front = s.drop_last();
        lemma_filter_keeps_order(front, keep);
        let kept = s.filter(keep);
        assert forall|i: int| 0 <= i < kept.len() implies {
            &&& 0 <= #[trigger] filter_origin(s, keep, i) < s.len()
            &&& s[filter_origin(s, keep, i)] == kept[i]
        } by {
            if i < front.filter(keep).len() {
                assert(filter_origin(s, keep, i) == filter_origin(front, keep, i));
                assert(front[filter_origin(front, keep, i)] == front.filter(keep)[i]);
            }
        }
        assert forall|i: int, j: int| 0 <= i < j < kept.len() implies #[trigger] filter_origin(
            s,
            keep,
            i,
        ) < #[trigger] filter_origin(s, keep, j) by {
            assert(filter_origin(s, keep, i) == filter_origin(front, keep, i));
            assert(0 <= filter_origin(front, keep, i) < front.len());
            if j < front.filter(keep).len() {
                assert(filter_origin(s, keep, j) == filter_origin(front, keep, j));
            }
        }
    }
}

/// An item that passes a filter stands in what the filter keeps, at the
/// place that counts the kept items before it.
pub proof fn lemma_filter_place<A>(s: Seq<A>, keep: spec_fn(A) -> bool, i: int)
    requires
        0 <= i < s.len(),
        keep(s[i]),
    ensures
        s.take(i).filter(keep).len() < s.filter(keep).len(),
        s.filter(keep)[s.take(i).filter(keep).len() as int] == s[i],
        forall|j: int|
            i < j <= s.len() ==> s.take(i).filter(keep).len() < (#[trigger] s.take(j)).filter(
                keep,
            ).len(),
{
    let front = s.take(i);
    assert(front.push(s[i]) == s.take(i + 1));
    front.lemma_filter_push(s[i], keep);
    assert forall|j: int| i < j <= s.len() implies front.filter(keep).len() < (#[trigger] s.take(
        j,
    )).filter(keep).len() && s.take(j).filter(keep)[front.filter(keep).len() as int] == s[i] by {
        let rest = s.subrange(i + 1, j);
        assert(s.take(j) == s.take(i + 1) + rest);
        Seq::filter_distributes_over_add(s.take(i + 1), rest, keep);
    }
    assert(s.take(s.len() as int) == s);
}

/// Filtering twice, where the second filter asks for more than the first,
/// is filtering by the second alone.
pub proof fn lemma_filter_narrowed<A>(s: Seq<A>, p: spec_fn(A) -> bool, q: spec_fn(A) -> bool)
    requires
        forall|x: A| #[trigger] q(x) ==> p(x),
    ensures
        s.filter(p).filter(q) == s.filter(q),
    decreases s.len(),
{
    reveal(Seq::filter);
    if s.len() > 0 {
        lemma_filter_narrowed(s.drop_last(), p, q);
        if p(s.last()) {
            s.drop_last().filter(p).lemma_filter_push(s.last(), q);
        }
    }
}

/// Filtering twice by filters that nothing passes together leaves nothing.
pub proof fn lemma_filter_apart<A>(s: Seq<A>, p: spec_fn(A) -> bool, q: spec_fn(A) -> bool)
    requires
        forall|x: A| !(#[trigger] p(x) && q(x)),
    ensures
        s.filter(p).filter(q) == Seq::<A>::empty(),
    decreases s.len(),
{
    reveal(Seq::filter);
    if s.len() > 0 {
        lemma_filter_apart(s.drop_last(), p, q);
        if p(s.last()) {
            s.drop_last().filter(p).lemma_filter_push(s.last(), q);
        }
    }
}

/// A filter that everything passes changes nothing.
pub proof fn lemma_filter_all<A>(s: Seq<A>, p: spec_fn(A) -> bool)
    requires
        forall|x: A| #[trigger] p(x),
    ensures
        s.filter(p) == s,
    decreases s.len(),
{
    reveal(Seq::filter);
    if s.len() > 0 {
        lemma_filter_all(s.drop_last(), p);
        assert(s.drop_last().push(s.last()) =~= s);
    }
}

/// Two filters that nothing passes together split what passes either of
/// them: as multisets, the two parts add up to the whole.
pub proof fn lemma_filter_split<A>(
    s: Seq<A>,
    p: spec_fn(A) -> bool,
    q: spec_fn(A) -> bool,
    either: spec_fn(A) -> bool,
)
    requires
        forall|x: A| !(#[trigger] p(x) && q(x)),
        forall|x: A| #[trigger] either(x) <==> (p(x) || q(x)),
    ensures
        s.filter(either).to_multiset() == s.filter(p).to_multiset().add(s.filter(q).to_multiset()),
    decreases s.len(),
{
    broadcast use vstd::seq_lib::group_to_multiset_ensures;
    broadcast use vstd::multiset::group_multiset_axioms;

    reveal(Seq::filter);
    if s.len() == 0 {
        assert(s.filter(either).to_multiset() =~= s.filter(p).to_multiset().add(
            s.filter(q).to_multiset(),
        ));
    } else {
        lemma_filter_split(s.drop_last(), p, q, either);
        assert(s.filter(either).to_multiset() =~= s.filter(p).to_multiset().add(
            s.filter(q).to_multiset(),
        ));
    }
}

} // verus!
