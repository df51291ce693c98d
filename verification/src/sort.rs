//! Stable ordering of weighted items, heaviest first: items of equal weight
//! keep their relative order.
use vstd::prelude::*;

verus! {

/// Number of leading items of `s` whose weight is at least `w`.
pub open spec fn leading_at_least<T>(s: Seq<(T, u32)>, w: u32) -> nat
    decreases s.len(),
{
    if s.len() == 0 || s[0].1 < w {
        0
    } else {
        1 + leading_at_least(s.drop_first(), w)
    }
}

/// `x` placed after every item of `s` (in order) before the first item
/// lighter than it.
pub open spec fn insert_by_weight<T>(s: Seq<(T, u32)>, x: (T, u32)) -> Seq<(T, u32)> {
    let p = leading_at_least(s, x.1) as int;
    s.take(p) + seq![x] + s.skip(p)
}

/// `s` ordered by weight, heaviest first; equal weights keep their order.
pub open spec fn sort_by_weight_desc<T>(s: Seq<(T, u32)>) -> Seq<(T, u32)>
    decreases s.len(),
{
    if s.len() == 0 {
        s
    } else {
        insert_by_weight(sort_by_weight_desc(s.drop_last()), s.last())
    }
}

/// Weights never increase along `s`.
pub open spec fn weights_descending<T>(s: Seq<(T, u32)>) -> bool {
    forall|i: int, j: int| 0 <= i < j < s.len() ==> #[trigger] s[i].1 >= #[trigger] s[j].1
}

/// The items of `s` of weight `w`, in their order in `s`.
pub open spec fn of_weight<T>(s: Seq<(T, u32)>, w: u32) -> Seq<(T, u32)> {
    s.filter(weight_is(w))
}

/// Holds of the items of weight `w`.
pub open spec fn weight_is<T>(w: u32) -> spec_fn((T, u32)) -> bool {
    |e: (T, u32)| e.1 == w
}

proof fn lemma_leading<T>(s: Seq<(T, u32)>, w: u32)
    ensures
        leading_at_least(s, w) <= s.len(),
        forall|j: int| 0 <= j < leading_at_least(s, w) ==> #[trigger] s[j].1 >= w,
        leading_at_least(s, w) < s.len() ==> s[leading_at_least(s, w) as int].1 < w,
    decreases s.len(),
{
    if s.len() > 0 && s[0].1 >= w {
        lemma_leading(s.drop_first(), w);
        assert forall|j: int| 0 <= j < leading_at_least(s, w) implies #[trigger] s[j].1 >= w by {
            if j > 0 {
                assert(s[j] == s.drop_first()[j - 1]);
            }
        }
        if leading_at_least(s, w) < s.len() {
            assert(s[leading_at_least(s, w) as int] == s.drop_first()[leading_at_least(
                s.drop_first(),
                w,
            ) as int]);
        }
    }
}

proof fn lemma_insert_descending<T>(s: Seq<(T, u32)>, x: (T, u32))
    requires
        weights_descending(s),
    ensures
        weights_descending(insert_by_weight(s, x)),
        insert_by_weight(s, x).len() == s.len() + 1,
{
    lemma_leading(s, x.1);
    let p = leading_at_least(s, x.1) as int;
    let r = insert_by_weight(s, x);
    assert(r.len() == s.len() + 1);
    assert forall|i: int| 0 <= i < r.len() implies #[trigger] r[i] == (if i < p {
        s[i]
    } else if i == p {
        x
    } else {
        s[i - 1]
    }) by {}
    assert forall|i: int, j: int| 0 <= i < j < r.len() implies #[trigger] r[i].1 >= #[trigger] r[j].1 by {
        if j < p {
        } else if j == p {
        } else if i < p {
            assert(s[j - 1].1 <= s[p].1);
        } else if i == p {
            assert(s[j - 1].1 <= s[p].1);
        } else {
        }
    }
}

proof fn lemma_filter_single<T>(x: (T, u32), pred: spec_fn((T, u32)) -> bool)
    ensures
        seq![x].filter(pred) == (if pred(x) { seq![x] } else { Seq::<(T, u32)>::empty() }),
{
    Seq::<(T, u32)>::empty().lemma_filter_push(x, pred);
    assert(Seq::<(T, u32)>::empty().push(x) =~= seq![x]);
    reveal(Seq::filter);
    assert(Seq::<(T, u32)>::empty().filter(pred) =~= Seq::<(T, u32)>::empty());
}

proof fn lemma_filter_none<T>(s: Seq<(T, u32)>, pred: spec_fn((T, u32)) -> bool)
    requires
        forall|j: int| 0 <= j < s.len() ==> !pred(#[trigger] s[j]),
    ensures
        s.filter(pred) == Seq::<(T, u32)>::empty(),
    decreases s.len(),
{
    reveal(Seq::filter);
    if s.len() > 0 {
        lemma_filter_none(s.drop_last(), pred);
    }
}

proof fn lemma_insert_of_weight<T>(s: Seq<(T, u32)>, x: (T, u32), w: u32)
    requires
        weights_descending(s),
    ensures
        of_weight(insert_by_weight(s, x), w) == (if x.1 == w {
            of_weight(s, w).push(x)
        } else {
            of_weight(s, w)
        }),
{
    lemma_leading(s, x.1);
    let p = leading_at_least(s, x.1) as int;
    let pred = weight_is::<T>(w);
    let a = s.take(p);
    let b = s.skip(p);
    assert(s =~= a + b);
    Seq::filter_distributes_over_add(a, b, pred);
    Seq::filter_distributes_over_add(a + seq![x], b, pred);
    Seq::filter_distributes_over_add(a, seq![x], pred);
    lemma_filter_single(x, pred);
    assert(insert_by_weight(s, x) == a + seq![x] + b);
    assert(of_weight(insert_by_weight(s, x), w) == (a + seq![x] + b).filter(pred));
    assert(of_weight(s, w) == (a + b).filter(pred));
    assert((a + seq![x] + b).filter(pred) == a.filter(pred) + seq![x].filter(pred) + b.filter(pred));
    if x.1 == w {
        assert forall|j: int| 0 <= j < b.len() implies !pred(#[trigger] b[j]) by {
            assert(b[j] == s[p + j]);
            assert(s[p + j].1 <= s[p].1);
        }
        lemma_filter_none(b, pred);
        assert(of_weight(insert_by_weight(s, x), w) =~= of_weight(s, w).push(x));
    } else {
        assert(of_weight(insert_by_weight(s, x), w) =~= of_weight(s, w));
    }
}

/// Ordering by weight puts the heaviest first, and keeps, for every weight,
/// exactly the items of that weight in their original order.
pub proof fn lemma_sort_by_weight_desc<T>(s: Seq<(T, u32)>)
    ensures
        weights_descending(sort_by_weight_desc(s)),
        sort_by_weight_desc(s).len() == s.len(),
        forall|w: u32| #[trigger] of_weight(sort_by_weight_desc(s), w) == of_weight(s, w),
    decreases s.len(),
{
    if s.len() == 0 {
    } else {
        let t = s.drop_last();
        lemma_sort_by_weight_desc(t);
        lemma_insert_descending(sort_by_weight_desc(t), s.last());
        assert(s =~= t.push(s.last()));
        assert forall|w: u32| #[trigger] of_weight(sort_by_weight_desc(s), w) == of_weight(s, w) by {
            lemma_insert_of_weight(sort_by_weight_desc(t), s.last(), w);
            t.lemma_filter_push(s.last(), weight_is::<T>(w));
        }
    }
}

/// Orders `v` by weight, heaviest first, keeping the order of equal weights.
pub fn stable_sort_by_weight_desc<T>(v: Vec<(T, u32)>) -> (r: Vec<(T, u32)>)
    ensures
        r@ == sort_by_weight_desc(v@),
        weights_descending(r@),
        r@.len() == v@.len(),
        forall|w: u32| #[trigger] of_weight(r@, w) == of_weight(v@, w),
{
    let ghost orig = v@;
    let mut rest = v;
    let mut out: Vec<(T, u32)> = Vec::new();
    let n = rest.len();
    let mut i: usize = 0;
    while i < n
        invariant
            0 <= i <= n,
            n == orig.len(),
            rest@ == orig.skip(i as int),
            out@ == sort_by_weight_desc(orig.take(i as int)),
        decreases n - i,
    {
        proof {
            lemma_sort_by_weight_desc(orig.take(i as int));
        }
        let x = rest.remove(0);
        let w = x.1;
        let mut p: usize = 0;
        assert(out@.skip(0) =~= out@);
        while p < out.len() && out[p].1 >= w
            invariant
                0 <= p <= out@.len(),
                leading_at_least(out@, w) == p + leading_at_least(out@.skip(p as int), w),
            decreases out@.len() - p,
        {
            proof {
                let sk = out@.skip(p as int);
                assert(sk.drop_first() =~= out@.skip(p + 1));
            }
            p = p + 1;
        }
        proof {
            assert(leading_at_least(out@.skip(p as int), w) == 0);
            assert(orig.take(i + 1).drop_last() =~= orig.take(i as int));
            assert(orig.take(i + 1).last() == x);
        }
        out.insert(p, x);
        proof {
            assert(rest@ =~= orig.skip(i + 1));
        }
        i = i + 1;
    }
    proof {
        assert(orig.take(n as int) =~= orig);
        lemma_sort_by_weight_desc(orig);
    }
    out
}

} // verus!

verus! {

/// Ordering by weight commutes with renaming the items (the weights kept).
pub proof fn lemma_sort_map_first<A, B>(s: Seq<(A, u32)>, f: spec_fn((A, u32)) -> (B, u32))
    requires
        forall|p: (A, u32)| #[trigger] f(p).1 == p.1,
    ensures
        sort_by_weight_desc(s).map_values(f) == sort_by_weight_desc(s.map_values(f)),
    decreases s.len(),
{
    if s.len() == 0 {
        assert(s.map_values(f) =~= Seq::<(B, u32)>::empty());
    } else {
        let t = s.drop_last();
        lemma_sort_map_first(t, f);
        assert(s.map_values(f).drop_last() =~= t.map_values(f));
        let st = sort_by_weight_desc(t);
        lemma_leading_map(st, f, s.last().1);
        let p = leading_at_least(st, s.last().1) as int;
        lemma_leading(st, s.last().1);
        assert(insert_by_weight(st, s.last()).map_values(f) =~= insert_by_weight(st.map_values(f), f(s.last())));
    }
}

proof fn lemma_leading_map<A, B>(s: Seq<(A, u32)>, f: spec_fn((A, u32)) -> (B, u32), w: u32)
    requires
        forall|p: (A, u32)| #[trigger] f(p).1 == p.1,
    ensures
        leading_at_least(s.map_values(f), w) == leading_at_least(s, w),
    decreases s.len(),
{
    if s.len() > 0 {
        assert(s.map_values(f).drop_first() =~= s.drop_first().map_values(f));
        lemma_leading_map(s.drop_first(), f, w);
    }
}

} // verus!

verus! {

/// Every item of the ordered sequence is an item of the original.
pub proof fn lemma_sorted_element<T>(s: Seq<(T, u32)>, j: int)
    requires
        0 <= j < sort_by_weight_desc(s).len(),
    ensures
        exists|k: int| 0 <= k < s.len() && s[k] == sort_by_weight_desc(s)[j],
{
    lemma_sort_by_weight_desc(s);
    let x = sort_by_weight_desc(s)[j];
    let pred = weight_is::<T>(x.1);
    sort_by_weight_desc(s).lemma_filter_contains(pred, j);
    assert(of_weight(sort_by_weight_desc(s), x.1) == of_weight(s, x.1));
    assert(s.filter(pred).contains(x));
    s.lemma_filter_contains_rev(pred, x);
}

} // verus!
