use vstd::prelude::*;
use crate::stylesheet::{Selector, SelectorView, Specificity};

verus! {

/// Whether `a` is the more specific: it has more ids; or as many ids and
/// more classes; or as many of both and more tag names.
pub open spec fn outranks(a: (nat, nat, nat), b: (nat, nat, nat)) -> bool {
    a.0 > b.0 || (a.0 == b.0 && (a.1 > b.1 || (a.1 == b.1 && a.2 > b.2)))
}

/// Where `x` goes into a list that is already in order: before the first
/// selector that it outranks, looked for from `from` on, and behind all
/// others.
pub open spec fn insertion_point(l: Seq<SelectorView>, x: SelectorView, from: int) -> int
    decreases l.len() - from,
{
    if 0 <= from < l.len() && !outranks(x.specificity(), l[from].specificity()) {
        insertion_point(l, x, from + 1)
    } else {
        from
    }
}

/// The selectors of `l` with the most specific first. Selectors of equal
/// specificity stay in the order in which they stand in `l`.
pub open spec fn most_specific_first(l: Seq<SelectorView>) -> Seq<SelectorView>
    decreases l.len(),
{
    if l.len() == 0 {
        l
    } else {
        let sorted = most_specific_first(l.drop_last());
        sorted.insert(insertion_point(sorted, l.last(), 0), l.last())
    }
}

/// No selector of `l` is outranked by one that stands behind it.
pub open spec fn descending(l: Seq<SelectorView>) -> bool {
    forall|j: int, k: int|
        0 <= j < k < l.len() ==> !outranks(
            (#[trigger] l[k]).specificity(),
            (#[trigger] l[j]).specificity(),
        )
}

/// `order` names every position of a list of `n` items exactly once.
pub open spec fn is_arrangement(order: Seq<int>, n: nat) -> bool {
    &&& order.len() == n
    &&& forall|k: int| 0 <= k < n ==> 0 <= #[trigger] order[k] < n
    &&& forall|j: int, k: int| 0 <= j < k < n ==> #[trigger] order[j] != #[trigger] order[k]
}

/// `out` holds the selectors of `l`, the one at `k` taken from `order[k]`,
/// so that specificity never rises and selectors of equal specificity come
/// in the order they had in `l`.
pub open spec fn is_stable_sort(l: Seq<SelectorView>, out: Seq<SelectorView>, order: Seq<int>) -> bool {
    &&& is_arrangement(order, l.len())
    &&& out.len() == l.len()
    &&& forall|k: int| 0 <= k < out.len() ==> #[trigger] out[k] == l[order[k]]
    &&& descending(out)
    &&& forall|j: int, k: int|
        0 <= j < k < out.len() && (#[trigger] out[j]).specificity() == (
        #[trigger] out[k]).specificity() ==> order[j] < order[k]
}

/// The insertion point lies in the list or at its end; `x` outranks none of
/// the selectors before it, and outranks the selector at it.
pub proof fn lemma_insertion_point(l: Seq<SelectorView>, x: SelectorView, from: int)
    requires
        0 <= from <= l.len(),
    ensures
        from <= insertion_point(l, x, from) <= l.len(),
        forall|k: int|
            from <= k < insertion_point(l, x, from) ==> !outranks(
                x.specificity(),
                (#[trigger] l[k]).specificity(),
            ),
        insertion_point(l, x, from) < l.len() ==> outranks(
            x.specificity(),
            l[insertion_point(l, x, from)].specificity(),
        ),
    decreases l.len() - from,
{
    if from < l.len() && !outranks(x.specificity(), l[from].specificity()) {
        lemma_insertion_point(l, x, from + 1);
    }
}

/// `most_specific_first` is a stable sort by descending specificity: it
/// rearranges the selectors, nothing in the result is outranked by anything
/// behind it, and selectors of equal specificity keep their order. The
/// arrangement is returned.
pub proof fn lemma_most_specific_first_is_stable_sort(l: Seq<SelectorView>) -> (order: Seq<int>)
    ensures
        is_stable_sort(l, most_specific_first(l), order),
    decreases l.len(),
{
    if l.len() == 0 {
        Seq::empty()
    } else {
        let front = l.drop_last();
        let x = l.last();
        let n = front.len() as int;
        let sorted = most_specific_first(front);
        let inner = lemma_most_specific_first_is_stable_sort(front);
        lemma_insertion_point(sorted, x, 0);
        let at = insertion_point(sorted, x, 0);
        let out = sorted.insert(at, x);
        let order = inner.insert(at, n);
        assert(out == most_specific_first(l));
        assert forall|k: int| 0 <= k < out.len() implies #[trigger] out[k] == l[order[k]] by {
            if k < at {
                assert(out[k] == sorted[k]);
                assert(sorted[k] == front[inner[k]]);
            } else if k > at {
                assert(out[k] == sorted[k - 1]);
                assert(sorted[k - 1] == front[inner[k - 1]]);
            }
        }
        assert forall|j: int, k: int| 0 <= j < k < out.len() implies !outranks(
            (#[trigger] out[k]).specificity(),
            (#[trigger] out[j]).specificity(),
        ) by {
            let a = if j < at { j } else { j - 1 };
            let b = if k < at { k } else { k - 1 };
            if j != at && k != at {
                assert(out[j] == sorted[a] && out[k] == sorted[b]);
            } else if j == at {
                assert(out[k] == sorted[b]);
                if b > at {
                    assert(!outranks(sorted[b].specificity(), sorted[at].specificity()));
                }
            } else {
                assert(out[j] == sorted[a]);
            }
        }
        assert forall|j: int, k: int|
            0 <= j < k < out.len() && (#[trigger] out[j]).specificity() == (
            #[trigger] out[k]).specificity() implies order[j] < order[k] by {
            let a = if j < at { j } else { j - 1 };
            let b = if k < at { k } else { k - 1 };
            if j != at && k != at {
                assert(out[j] == sorted[a] && out[k] == sorted[b]);
                assert(order[j] == inner[a] && order[k] == inner[b]);
            } else if j == at {
                assert(out[k] == sorted[b]);
                if b > at {
                    assert(!outranks(sorted[b].specificity(), sorted[at].specificity()));
                }
            } else {
                assert(order[j] == inner[a]);
            }
        }
        assert forall|j: int, k: int| 0 <= j < k < order.len() implies #[trigger] order[j]
            != #[trigger] order[k] by {
            let a = if j < at { j } else { j - 1 };
            let b = if k < at { k } else { k - 1 };
            if j != at && k != at {
                assert(order[j] == inner[a] && order[k] == inner[b]);
            } else if j == at {
                assert(order[k] == inner[b]);
            } else {
                assert(order[j] == inner[a]);
            }
        }
        assert forall|k: int| 0 <= k < order.len() implies 0 <= #[trigger] order[k] < l.len() by {
            let a = if k < at { k } else { k - 1 };
            if k != at {
                assert(order[k] == inner[a]);
            }
        }
        order
    }
}

/// Whether `a` is the more specific of the two.
pub fn more_specific(a: Specificity, b: Specificity) -> (r: bool)
    ensures
        r == outranks((a.0 as nat, a.1 as nat, a.2 as nat), (b.0 as nat, b.1 as nat, b.2 as nat)),
{
    a.0 > b.0 || (a.0 == b.0 && (a.1 > b.1 || (a.1 == b.1 && a.2 > b.2)))
}

/// Puts the most specific selectors first, and leaves selectors of equal
/// specificity in the order in which they came.
pub fn sort_by_specificity(selectors: Vec<Selector>) -> (r: Vec<Selector>)
    ensures
        r.deep_view() == most_specific_first(selectors.deep_view()),
{
    let ghost all = selectors.deep_view();
    let mut rest = selectors;
    let mut out: Vec<Selector> = Vec::new();
    let ghost mut done: int = 0;
    assert(all.take(0) =~= Seq::empty());
    assert(out.deep_view() =~= Seq::empty());
    assert(rest.deep_view() =~= all.skip(0));
    while rest.len() > 0
        invariant
            0 <= done <= all.len(),
            rest.deep_view() == all.skip(done),
            out.deep_view() == most_specific_first(all.take(done)),
        decreases rest.len(),
    {
        let ghost before = rest.deep_view();
        let ghost sorted = out.deep_view();
        let x = rest.remove(0);
        assert(rest.deep_view() =~= before.remove(0));
        assert(x.deep_view() == before[0]);
        let rank = x.specificity();
        let mut at: usize = 0;
        while at < out.len() && !more_specific(rank, out[at].specificity())
            invariant
                at <= out.len(),
                out.deep_view() == sorted,
                (rank.0 as nat, rank.1 as nat, rank.2 as nat) == x.deep_view().specificity(),
                insertion_point(sorted, x.deep_view(), 0) == insertion_point(
                    sorted,
                    x.deep_view(),
                    at as int,
                ),
            decreases out.len() - at,
        {
            assert(sorted[at as int] == out@[at as int].deep_view());
            at = at + 1;
        }
        proof {
            if at < out.len() {
                assert(sorted[at as int] == out@[at as int].deep_view());
            }
        }
        let ghost xv = x.deep_view();
        out.insert(at, x);
        proof {
            assert(out.deep_view() =~= sorted.insert(at as int, xv));
            assert(all.take(done + 1).drop_last() =~= all.take(done));
            assert(all.take(done + 1).last() == all[done]);
            assert(before[0] == all[done]);
            assert(before.remove(0) =~= all.skip(done + 1));
            done = done + 1;
        }
    }
    assert(all.take(done) =~= all);
    out
}

} // verus!
