//! Stable ordering of a frame's elements by their z-order key.  The
//! compositor draws elements in ascending `order`; elements with equal keys
//! keep their insertion order, so the sort is stable.

use crate::elements::Elements;
use vstd::prelude::*;

verus! {

/// `e` inserted into `s` after every element whose order key is at most
/// `e`'s: the insertion step of a stable ascending insertion sort.
pub open spec fn insert_ordered(s: Seq<Elements>, e: Elements) -> Seq<Elements>
    decreases s.len(),
{
    if s.len() == 0 {
        seq![e]
    } else if s.last().spec_order() <= e.spec_order() {
        s.push(e)
    } else {
        insert_ordered(s.drop_last(), e).push(s.last())
    }
}

/// The stable ascending sort of `s` by order key.
pub open spec fn sort_by_order_spec(s: Seq<Elements>) -> Seq<Elements>
    decreases s.len(),
{
    if s.len() == 0 {
        s
    } else {
        insert_ordered(sort_by_order_spec(s.drop_last()), s.last())
    }
}

/// Order keys never decrease from left to right.
pub open spec fn sorted_by_order(s: Seq<Elements>) -> bool {
    forall|i: int, j: int|
        0 <= i < j < s.len() ==> #[trigger] s[i].spec_order() <= #[trigger] s[j].spec_order()
}

/// The subsequence of `s` whose elements carry order key `k`, in their
/// original relative order.
pub open spec fn with_order(s: Seq<Elements>, k: i64) -> Seq<Elements> {
    s.filter(|e: Elements| e.spec_order() == k)
}

proof fn lemma_insert_ordered_len(s: Seq<Elements>, e: Elements)
    ensures
        insert_ordered(s, e).len() == s.len() + 1,
    decreases s.len(),
{
    if s.len() != 0 && !(s.last().spec_order() <= e.spec_order()) {
        lemma_insert_ordered_len(s.drop_last(), e);
    }
}

proof fn lemma_insert_ordered_sorted(s: Seq<Elements>, e: Elements)
    requires
        sorted_by_order(s),
    ensures
        sorted_by_order(insert_ordered(s, e)),
    decreases s.len(),
{
    if s.len() == 0 {
    } else if s.last().spec_order() <= e.spec_order() {
        let r = s.push(e);
        assert forall|i: int, j: int| 0 <= i < j < r.len() implies #[trigger] r[i].spec_order()
            <= #[trigger] r[j].spec_order() by {
            if j == r.len() - 1 && i < s.len() - 1 {
                assert(s[i].spec_order() <= s[s.len() - 1].spec_order());
            }
        }
    } else {
        assert(sorted_by_order(s.drop_last())) by {
            assert forall|i: int, j: int| 0 <= i < j < s.drop_last().len() implies #[trigger] s
                .drop_last()[i].spec_order() <= #[trigger] s.drop_last()[j].spec_order() by {
                assert(s[i].spec_order() <= s[j].spec_order());
            }
        }
        lemma_insert_ordered_sorted(s.drop_last(), e);
        lemma_insert_ordered_len(s.drop_last(), e);
        let t = insert_ordered(s.drop_last(), e);
        let r = t.push(s.last());
        assert forall|i: int, j: int| 0 <= i < j < r.len() implies #[trigger] r[i].spec_order()
            <= #[trigger] r[j].spec_order() by {
            if j == r.len() - 1 {
                // Every entry of `t` is either an entry of `s.drop_last()`,
                // all below `s.last()`, or `e` itself, below `s.last()` too.
                lemma_insert_ordered_members(s.drop_last(), e, i);
            }
        }
    }
}

/// Every entry of `insert_ordered(s, e)` is an entry of `s` or is `e`.
proof fn lemma_insert_ordered_members(s: Seq<Elements>, e: Elements, i: int)
    requires
        0 <= i < insert_ordered(s, e).len(),
    ensures
        insert_ordered(s, e)[i] == e || exists|j: int|
            0 <= j < s.len() && s[j] == #[trigger] insert_ordered(s, e)[i],
    decreases s.len(),
{
    lemma_insert_ordered_len(s, e);
    if s.len() == 0 {
    } else if s.last().spec_order() <= e.spec_order() {
        if i < s.len() {
            assert(insert_ordered(s, e)[i] == s[i]);
        }
    } else {
        lemma_insert_ordered_len(s.drop_last(), e);
        if i < insert_ordered(s.drop_last(), e).len() {
            lemma_insert_ordered_members(s.drop_last(), e, i);
            if insert_ordered(s.drop_last(), e)[i] != e {
                let j = choose|j: int|
                    0 <= j < s.drop_last().len() && s.drop_last()[j] == insert_ordered(
                        s.drop_last(),
                        e,
                    )[i];
                assert(s[j] == insert_ordered(s, e)[i]);
            }
        } else {
            assert(insert_ordered(s, e)[i] == s.last());
            assert(s[s.len() - 1] == insert_ordered(s, e)[i]);
        }
    }
}

/// The result of the stable sort is sorted.
pub proof fn lemma_sort_by_order_sorted(s: Seq<Elements>)
    ensures
        sorted_by_order(sort_by_order_spec(s)),
    decreases s.len(),
{
    if s.len() != 0 {
        lemma_sort_by_order_sorted(s.drop_last());
        lemma_insert_ordered_sorted(sort_by_order_spec(s.drop_last()), s.last());
    }
}

/// `with_order` over a nonempty sequence unfolds over its last element.
proof fn lemma_with_order_unfold(s: Seq<Elements>, k: i64)
    requires
        s.len() != 0,
    ensures
        with_order(s, k) == if s.last().spec_order() == k {
            with_order(s.drop_last(), k).push(s.last())
        } else {
            with_order(s.drop_last(), k)
        },
{
    reveal_with_fuel(Seq::<_>::filter, 2);
}

/// `with_order` over a push unfolds over the pushed element.
proof fn lemma_with_order_push(s: Seq<Elements>, e: Elements, k: i64)
    ensures
        with_order(s.push(e), k) == if e.spec_order() == k {
            with_order(s, k).push(e)
        } else {
            with_order(s, k)
        },
{
    lemma_with_order_unfold(s.push(e), k);
    assert(s.push(e).drop_last() =~= s);
}

proof fn lemma_insert_ordered_filter(s: Seq<Elements>, e: Elements, k: i64)
    ensures
        with_order(insert_ordered(s, e), k) == if e.spec_order() == k {
            with_order(s, k).push(e)
        } else {
            with_order(s, k)
        },
    decreases s.len(),
{
    if s.len() == 0 {
        assert(insert_ordered(s, e) =~= s.push(e));
        lemma_with_order_push(s, e, k);
    } else if s.last().spec_order() <= e.spec_order() {
        lemma_with_order_push(s, e, k);
    } else {
        lemma_insert_ordered_filter(s.drop_last(), e, k);
        let t = insert_ordered(s.drop_last(), e);
        lemma_with_order_push(t, s.last(), k);
        lemma_with_order_unfold(s, k);
        // s.last()'s key exceeds e's, so at most one of the two matches k.
    }
}

/// The stable sort keeps, for every order key, exactly the original
/// subsequence of elements carrying that key: ties preserve insertion order.
pub proof fn lemma_sort_by_order_stable(s: Seq<Elements>, k: i64)
    ensures
        with_order(sort_by_order_spec(s), k) == with_order(s, k),
    decreases s.len(),
{
    if s.len() != 0 {
        lemma_sort_by_order_stable(s.drop_last(), k);
        lemma_insert_ordered_filter(sort_by_order_spec(s.drop_last()), s.last(), k);
        lemma_with_order_unfold(s, k);
    }
}

/// Sorting a sequence that is already sorted gives it back unchanged.
pub proof fn lemma_sort_of_sorted(s: Seq<Elements>)
    requires
        sorted_by_order(s),
    ensures
        sort_by_order_spec(s) == s,
    decreases s.len(),
{
    if s.len() != 0 {
        assert(sorted_by_order(s.drop_last())) by {
            assert forall|i: int, j: int| 0 <= i < j < s.drop_last().len() implies #[trigger] s
                .drop_last()[i].spec_order() <= #[trigger] s.drop_last()[j].spec_order() by {
                assert(s[i].spec_order() <= s[j].spec_order());
            }
        }
        lemma_sort_of_sorted(s.drop_last());
        if s.len() == 1 {
            assert(sort_by_order_spec(s) =~= s);
        } else {
            assert(s.drop_last().last().spec_order() <= s.last().spec_order()) by {
                assert(s[s.len() - 2].spec_order() <= s[s.len() - 1].spec_order());
            }
            assert(sort_by_order_spec(s) =~= s.drop_last().push(s.last()));
            assert(s.drop_last().push(s.last()) =~= s);
        }
    }
}

/// Sorting twice by order yields the same sequence as sorting once.
pub proof fn lemma_sort_idempotent(s: Seq<Elements>)
    ensures
        sort_by_order_spec(sort_by_order_spec(s)) == sort_by_order_spec(s),
{
    lemma_sort_by_order_sorted(s);
    lemma_sort_of_sorted(sort_by_order_spec(s));
}

/// Splitting off a suffix whose order keys all exceed `e`'s leaves the
/// insertion point inside the prefix.
proof fn lemma_insert_ordered_split(s: Seq<Elements>, e: Elements, j: int)
    requires
        0 <= j <= s.len(),
        forall|i: int| j <= i < s.len() ==> e.spec_order() < #[trigger] s[i].spec_order(),
    ensures
        insert_ordered(s, e) == insert_ordered(s.subrange(0, j), e) + s.subrange(j, s.len() as int),
    decreases s.len() - j,
{
    if j == s.len() {
        assert(s.subrange(0, j) =~= s);
        assert(insert_ordered(s, e) =~= insert_ordered(s.subrange(0, j), e) + s.subrange(
            j,
            s.len() as int,
        ));
    } else {
        assert(e.spec_order() < s[s.len() - 1].spec_order());
        let t = s.drop_last();
        assert(insert_ordered(s, e) == insert_ordered(t, e).push(s.last()));
        lemma_insert_ordered_split(t, e, j);
        assert(t.subrange(0, j) =~= s.subrange(0, j));
        assert(insert_ordered(t, e).push(s.last()) =~= insert_ordered(s.subrange(0, j), e)
            + s.subrange(j, s.len() as int)) by {
            assert(t.subrange(j, t.len() as int) =~= s.subrange(j, s.len() as int).drop_last());
        }
    }
}

/// Sorts the elements ascending by order key with a stable insertion sort.
pub fn sort_by_order(v: Vec<Elements>) -> (r: Vec<Elements>)
    ensures
        r@ == sort_by_order_spec(v@),
{
    let mut r: Vec<Elements> = Vec::new();
    let mut i: usize = 0;
    while i < v.len()
        invariant
            i <= v.len(),
            r@ == sort_by_order_spec(v@.subrange(0, i as int)),
        decreases v.len() - i,
    {
        let e = v[i].clone();
        let key = e.get_order();
        let mut j: usize = r.len();
        while j > 0 && r[j - 1].get_order() > key
            invariant
                j <= r.len(),
                key == e.spec_order(),
                forall|m: int|
                    j <= m < r@.len() ==> e.spec_order() < #[trigger] r@[m].spec_order(),
            decreases j,
        {
            j = j - 1;
            proof {
                assert(e.spec_order() < r@[j as int].spec_order());
            }
        }
        proof {
            lemma_insert_ordered_split(r@, e, j as int);
            if j > 0 {
                assert(r@.subrange(0, j as int).last().spec_order() <= e.spec_order());
                assert(insert_ordered(r@.subrange(0, j as int), e) == r@.subrange(
                    0,
                    j as int,
                ).push(e));
            } else {
                assert(r@.subrange(0, 0) =~= Seq::<Elements>::empty());
            }
        }
        let ghost old_r = r@;
        r.insert(j, e);
        proof {
            assert(r@ =~= insert_ordered(old_r, e));
            assert(v@.subrange(0, i + 1).drop_last() =~= v@.subrange(0, i as int));
            assert(v@.subrange(0, i + 1).last() == e);
        }
        i = i + 1;
    }
    proof {
        assert(v@.subrange(0, v@.len() as int) =~= v@);
    }
    r
}

} // verus!
