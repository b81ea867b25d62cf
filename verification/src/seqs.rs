//! Facts about filtered sequences that the store's proofs share.

use vstd::prelude::*;

verus! {

/// The part of `s` from rank `lo` up to rank `hi`, as far as `s` reaches.
pub open spec fn slice_of<A>(s: Seq<A>, lo: int, hi: int) -> Seq<A> {
    s.subrange(
        if lo <= s.len() {
            lo
        } else {
            s.len() as int
        },
        if hi <= s.len() {
            hi
        } else {
            s.len() as int
        },
    )
}

/// Filtering a sequence with one more element at its end.
pub proof fn lemma_filter_push<A>(s: Seq<A>, pred: spec_fn(A) -> bool, x: A)
    ensures
        s.push(x).filter(pred) == if pred(x) {
            s.filter(pred).push(x)
        } else {
            s.filter(pred)
        },
{
    reveal(Seq::filter);
    assert(s.push(x).drop_last() =~= s);
}

/// Filtering the first `i + 1` elements, by the first `i`.
pub proof fn lemma_filter_take<A>(s: Seq<A>, pred: spec_fn(A) -> bool, i: int)
    requires
        0 <= i < s.len(),
    ensures
        s.take(i + 1).filter(pred) == if pred(s[i]) {
            s.take(i).filter(pred).push(s[i])
        } else {
            s.take(i).filter(pred)
        },
{
    assert(s.take(i + 1) =~= s.take(i).push(s[i]));
    lemma_filter_push(s.take(i), pred, s[i]);
}

/// A filter that every element passes changes nothing.
pub proof fn lemma_filter_all<A>(s: Seq<A>, pred: spec_fn(A) -> bool)
    requires
        forall|i: int| 0 <= i < s.len() ==> pred(#[trigger] s[i]),
    ensures
        s.filter(pred) == s,
    decreases s.len(),
{
    reveal(Seq::filter);
    if s.len() > 0 {
        lemma_filter_all(s.drop_last(), pred);
        assert(s.drop_last().push(s.last()) =~= s);
    }
}

/// A filter that no element passes leaves nothing.
pub proof fn lemma_filter_none<A>(s: Seq<A>, pred: spec_fn(A) -> bool)
    requires
        forall|i: int| 0 <= i < s.len() ==> !pred(#[trigger] s[i]),
    ensures
        s.filter(pred) == Seq::<A>::empty(),
    decreases s.len(),
{
    reveal(Seq::filter);
    if s.len() > 0 {
        lemma_filter_none(s.drop_last(), pred);
    }
}

/// A filter that only the element at `i` fails removes that element.
pub proof fn lemma_filter_one<A>(s: Seq<A>, pred: spec_fn(A) -> bool, i: int)
    requires
        0 <= i < s.len(),
        !pred(s[i]),
        forall|j: int| 0 <= j < s.len() && j != i ==> pred(#[trigger] s[j]),
    ensures
        s.filter(pred) == s.remove(i),
{
    let a = s.subrange(0, i);
    let b = s.subrange(i, i + 1);
    let c = s.subrange(i + 1, s.len() as int);
    assert(s =~= a + b + c);
    Seq::filter_distributes_over_add(a + b, c, pred);
    Seq::filter_distributes_over_add(a, b, pred);
    lemma_filter_all(a, pred);
    lemma_filter_all(c, pred);
    lemma_filter_none(b, pred);
    assert(a + Seq::<A>::empty() =~= a);
}

/// Filtering twice is filtering by both conditions.
pub proof fn lemma_filter_twice<A>(s: Seq<A>, p: spec_fn(A) -> bool, q: spec_fn(A) -> bool)
    ensures
        s.filter(p).filter(q) == s.filter(|x: A| p(x) && q(x)),
    decreases s.len(),
{
    reveal(Seq::filter);
    let pq = |x: A| p(x) && q(x);
    if s.len() > 0 {
        lemma_filter_twice(s.drop_last(), p, q);
        if p(s.last()) {
            lemma_filter_push(s.drop_last().filter(p), q, s.last());
        }
    }
}

/// Every element of a filtered sequence is an element of the sequence that
/// passes the filter.
pub proof fn lemma_filter_member<A>(s: Seq<A>, pred: spec_fn(A) -> bool, i: int)
    requires
        0 <= i < s.filter(pred).len(),
    ensures
        pred(s.filter(pred)[i]),
        exists|k: int| 0 <= k < s.len() && #[trigger] s[k] == s.filter(pred)[i],
{
    let f = s.filter(pred);
    assert(f.contains(f[i]));
    s.lemma_filter_contains_rev(pred, f[i]);
    let k = s.index_of(f[i]);
    assert(s[k] == f[i]);
}

/// A relation that holds from each element to every later one still does
/// after filtering.
pub proof fn lemma_filter_pairwise<A>(
    s: Seq<A>,
    pred: spec_fn(A) -> bool,
    rel: spec_fn(A, A) -> bool,
)
    requires
        forall|i: int, j: int| #![trigger s[i], s[j]] 0 <= i < j < s.len() ==> rel(s[i], s[j]),
    ensures
        forall|i: int, j: int|
            #![trigger s.filter(pred)[i], s.filter(pred)[j]]
            0 <= i < j < s.filter(pred).len() ==> rel(s.filter(pred)[i], s.filter(pred)[j]),
    decreases s.len(),
{
    reveal(Seq::filter);
    if s.len() > 0 {
        let rest = s.drop_last();
        assert forall|i: int, j: int| #![trigger rest[i], rest[j]] 0 <= i < j < rest.len() implies rel(
            rest[i],
            rest[j],
        ) by {
            assert(rest[i] == s[i] && rest[j] == s[j]);
        }
        lemma_filter_pairwise(rest, pred, rel);
        let f = s.filter(pred);
        let g = rest.filter(pred);
        assert forall|i: int, j: int| #![trigger f[i], f[j]] 0 <= i < j < f.len() implies rel(
            f[i],
            f[j],
        ) by {
            if j < g.len() {
                assert(f[i] == g[i] && f[j] == g[j]);
            } else {
                lemma_filter_member(rest, pred, i);
                let k = choose|k: int| 0 <= k < rest.len() && #[trigger] rest[k] == g[i];
                assert(s[k] == g[i]);
                assert(f[j] == s[s.len() - 1]);
            }
        }
    }
}

/// A filter that exactly the first `p` elements pass keeps those.
pub proof fn lemma_filter_prefix<A>(s: Seq<A>, pred: spec_fn(A) -> bool, p: int)
    requires
        0 <= p <= s.len(),
        forall|i: int| 0 <= i < p ==> pred(#[trigger] s[i]),
        forall|i: int| p <= i < s.len() ==> !pred(#[trigger] s[i]),
    ensures
        s.filter(pred) == s.take(p),
{
    let a = s.take(p);
    let b = s.skip(p);
    assert(s =~= a + b);
    Seq::filter_distributes_over_add(a, b, pred);
    lemma_filter_all(a, pred);
    lemma_filter_none(b, pred);
    assert(a + Seq::<A>::empty() =~= a);
}

/// A filter that exactly the elements from `p` on pass keeps those.
pub proof fn lemma_filter_suffix<A>(s: Seq<A>, pred: spec_fn(A) -> bool, p: int)
    requires
        0 <= p <= s.len(),
        forall|i: int| 0 <= i < p ==> !pred(#[trigger] s[i]),
        forall|i: int| p <= i < s.len() ==> pred(#[trigger] s[i]),
    ensures
        s.filter(pred) == s.skip(p),
{
    let a = s.take(p);
    let b = s.skip(p);
    assert(s =~= a + b);
    Seq::filter_distributes_over_add(a, b, pred);
    lemma_filter_none(a, pred);
    lemma_filter_all(b, pred);
    assert(Seq::<A>::empty() + b =~= b);
}

/// Filters that agree on every element give the same result.
pub proof fn lemma_filter_same<A>(s: Seq<A>, p: spec_fn(A) -> bool, q: spec_fn(A) -> bool)
    requires
        forall|x: A| #[trigger] p(x) == q(x),
    ensures
        s.filter(p) == s.filter(q),
    decreases s.len(),
{
    reveal(Seq::filter);
    if s.len() > 0 {
        lemma_filter_same(s.drop_last(), p, q);
    }
}

/// A filter that, once an element passes, every later element passes, keeps
/// the end of the sequence.
pub proof fn lemma_filter_rising<A>(s: Seq<A>, pred: spec_fn(A) -> bool)
    requires
        forall|i: int, j: int|
            #![trigger s[i], s[j]]
            0 <= i < j < s.len() && pred(s[i]) ==> pred(s[j]),
    ensures
        s.filter(pred).len() <= s.len(),
        s.filter(pred) == s.skip(s.len() - s.filter(pred).len()),
    decreases s.len(),
{
    reveal(Seq::filter);
    if s.len() > 0 {
        let rest = s.drop_last();
        let last = s.last();
        assert forall|i: int, j: int|
            #![trigger rest[i], rest[j]]
            0 <= i < j < rest.len() && pred(rest[i]) implies pred(rest[j]) by {
            assert(rest[i] == s[i] && rest[j] == s[j]);
        }
        lemma_filter_rising(rest, pred);
        if pred(last) {
            let m = rest.filter(pred).len();
            assert(rest.skip(rest.len() - m).push(last) =~= s.skip(s.len() - (m + 1)));
        } else {
            assert forall|i: int| 0 <= i < rest.len() implies !pred(#[trigger] rest[i]) by {
                assert(rest[i] == s[i]);
                assert(last == s[s.len() - 1]);
            }
            lemma_filter_none(rest, pred);
            assert(s.skip(s.len() as int) =~= Seq::<A>::empty());
        }
    } else {
        assert(s.skip(0) =~= s);
    }
}

/// A filter that, once an element fails, every later element fails, keeps
/// the start of the sequence.
pub proof fn lemma_filter_falling<A>(s: Seq<A>, pred: spec_fn(A) -> bool)
    requires
        forall|i: int, j: int|
            #![trigger s[i], s[j]]
            0 <= i < j < s.len() && pred(s[j]) ==> pred(s[i]),
    ensures
        s.filter(pred).len() <= s.len(),
        s.filter(pred) == s.take(s.filter(pred).len() as int),
    decreases s.len(),
{
    reveal(Seq::filter);
    if s.len() > 0 {
        let rest = s.drop_last();
        let last = s.last();
        assert forall|i: int, j: int|
            #![trigger rest[i], rest[j]]
            0 <= i < j < rest.len() && pred(rest[j]) implies pred(rest[i]) by {
            assert(rest[i] == s[i] && rest[j] == s[j]);
        }
        lemma_filter_falling(rest, pred);
        if pred(last) {
            assert forall|i: int| 0 <= i < rest.len() implies pred(#[trigger] rest[i]) by {
                assert(rest[i] == s[i]);
                assert(last == s[s.len() - 1]);
            }
            lemma_filter_all(rest, pred);
            assert(rest.push(last) =~= s);
            assert(s.take(s.len() as int) =~= s);
        } else {
            let m = rest.filter(pred).len();
            assert(rest.take(m as int) =~= s.take(m as int));
        }
    } else {
        assert(s.take(0) =~= s);
    }
}

} // verus!
