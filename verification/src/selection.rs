//! Selections from lists.
use vstd::prelude::*;

verus! {

/// Positions in a list, from the first to the last: those of all items to keep, and no others.
pub open spec fn positions<A>(list: Seq<A>, keep: spec_fn(A) -> bool, at: Seq<int>) -> bool {
    &&& forall|k: int, l: int| 0 <= k < l < at.len() ==> #[trigger] at[k] < #[trigger] at[l]
    &&& forall|k: int|
        0 <= k < at.len() ==> 0 <= #[trigger] at[k] < list.len() && keep(list[at[k]])
    &&& forall|i: int| 0 <= i < list.len() && keep(#[trigger] list[i]) ==> at.contains(i)
}

/// What the items of a list that are to be kept give, one for each of them and in their order.
pub open spec fn selection<A, B>(
    list: Seq<A>,
    keep: spec_fn(A) -> bool,
    give: spec_fn(A) -> B,
    out: Seq<B>,
) -> bool {
    exists|at: Seq<int>|
        {
            &&& #[trigger] positions(list, keep, at)
            &&& out.len() == at.len()
            &&& forall|k: int| 0 <= k < out.len() ==> #[trigger] out[k] == give(list[at[k]])
        }
}

/// A selection from a list that grew by one item.
pub proof fn lemma_selection_push<A, B>(
    list: Seq<A>,
    x: A,
    keep: spec_fn(A) -> bool,
    give: spec_fn(A) -> B,
    out: Seq<B>,
)
    requires
        selection(list, keep, give, out),
    ensures
        selection(
            list.push(x),
            keep,
            give,
            if keep(x) {
                out.push(give(x))
            } else {
                out
            },
        ),
{
    let at = choose|at: Seq<int>|
        {
            &&& #[trigger] positions(list, keep, at)
            &&& out.len() == at.len()
            &&& forall|k: int| 0 <= k < out.len() ==> #[trigger] out[k] == give(list[at[k]])
        };
    let longer = list.push(x);
    let more = if keep(x) {
        at.push(list.len() as int)
    } else {
        at
    };
    assert forall|k: int| 0 <= k < more.len() implies 0 <= #[trigger] more[k] < longer.len()
        && keep(longer[more[k]]) by {
        if k < at.len() {
            assert(more[k] == at[k]);
        }
    }
    assert forall|k: int, l: int| 0 <= k < l < more.len() implies #[trigger] more[k]
        < #[trigger] more[l] by {
        assert(more[k] == at[k]);
        if l < at.len() {
            assert(more[l] == at[l]);
        }
    }
    assert forall|i: int| 0 <= i < longer.len() && keep(#[trigger] longer[i]) implies more.contains(
        i,
    ) by {
        if i < list.len() {
            assert(keep(list[i]));
            let k = choose|k: int| 0 <= k < at.len() && at[k] == i;
            assert(more[k] == i);
        } else {
            assert(more[at.len() as int] == i);
        }
    }
    assert(positions(longer, keep, more));
    let all = if keep(x) {
        out.push(give(x))
    } else {
        out
    };
    assert forall|k: int| 0 <= k < all.len() implies #[trigger] all[k] == give(
        longer[more[k]],
    ) by {
        if k < at.len() {
            assert(more[k] == at[k]);
            assert(all[k] == out[k]);
        }
    }
}

/// A selection from an empty list.
pub proof fn lemma_selection_empty<A, B>(
    list: Seq<A>,
    keep: spec_fn(A) -> bool,
    give: spec_fn(A) -> B,
)
    requires
        list.len() == 0,
    ensures
        selection(list, keep, give, Seq::<B>::empty()),
{
    assert(positions(list, keep, Seq::<int>::empty()));
}

/// Filtering a list is selecting from it.
pub proof fn lemma_filter_is_selection<A>(
    list: Seq<A>,
    pass: spec_fn(A) -> bool,
    keep: spec_fn(A) -> bool,
)
    requires
        forall|x: A| #[trigger] pass(x) == keep(x),
    ensures
        selection(list, keep, |x: A| x, list.filter(pass)),
    decreases list.len(),
{
    reveal(Seq::filter);
    if list.len() == 0 {
        lemma_selection_empty(list, keep, |x: A| x);
        assert(list.filter(pass) =~= Seq::<A>::empty());
    } else {
        lemma_filter_is_selection(list.drop_last(), pass, keep);
        lemma_selection_push(
            list.drop_last(),
            list.last(),
            keep,
            |x: A| x,
            list.drop_last().filter(pass),
        );
        assert(list.drop_last().push(list.last()) =~= list);
        assert(pass(list.last()) == keep(list.last()));
    }
}

/// What is selected comes from an item to keep, every item to keep is selected, and nothing is
/// selected exactly if there is nothing to keep.
pub proof fn lemma_selection_holds<A, B>(
    list: Seq<A>,
    keep: spec_fn(A) -> bool,
    give: spec_fn(A) -> B,
    out: Seq<B>,
)
    requires
        selection(list, keep, give, out),
    ensures
        forall|k: int|
            0 <= k < out.len() ==> exists|i: int|
                0 <= i < list.len() && keep(#[trigger] list[i]) && #[trigger] out[k] == give(
                    list[i],
                ),
        forall|i: int|
            0 <= i < list.len() && keep(#[trigger] list[i]) ==> out.contains(give(list[i])),
        out.len() <= list.len(),
        out.len() > 0 <==> exists|i: int| 0 <= i < list.len() && keep(#[trigger] list[i]),
{
    let at = choose|at: Seq<int>|
        {
            &&& #[trigger] positions(list, keep, at)
            &&& out.len() == at.len()
            &&& forall|k: int| 0 <= k < out.len() ==> #[trigger] out[k] == give(list[at[k]])
        };
    assert forall|k: int| 0 <= k < out.len() implies exists|i: int|
        0 <= i < list.len() && keep(#[trigger] list[i]) && #[trigger] out[k] == give(list[i]) by {
        assert(0 <= at[k] < list.len() && keep(list[at[k]]));
    }
    assert forall|i: int| 0 <= i < list.len() && keep(#[trigger] list[i]) implies out.contains(
        give(list[i]),
    ) by {
        assert(at.contains(i));
        let k = choose|k: int| 0 <= k < at.len() && at[k] == i;
        assert(out[k] == give(list[i]));
    }
    if out.len() > 0 {
        assert(keep(list[at[0]]));
    }
    if exists|i: int| 0 <= i < list.len() && keep(#[trigger] list[i]) {
        let i = choose|i: int| 0 <= i < list.len() && keep(#[trigger] list[i]);
        assert(at.contains(i));
    }
    lemma_positions_fit(at, list.len() as int);
}

/// Increasing positions below a bound are no more than the bound.
proof fn lemma_positions_fit(at: Seq<int>, bound: int)
    requires
        bound >= 0,
        forall|k: int, l: int| 0 <= k < l < at.len() ==> #[trigger] at[k] < #[trigger] at[l],
        forall|k: int| 0 <= k < at.len() ==> 0 <= #[trigger] at[k] < bound,
    ensures
        at.len() <= bound,
    decreases at.len(),
{
    if at.len() > 0 {
        let last = at[at.len() - 1];
        let fewer = at.drop_last();
        assert forall|k: int| 0 <= k < fewer.len() implies 0 <= #[trigger] fewer[k] < last by {
            assert(at[k] < at[at.len() - 1]);
        }
        lemma_positions_fit(fewer, last);
    }
}

/// A list and what to keep of it leave no choice in what is selected.
pub proof fn law_selections_are_unique<A, B>(
    list: Seq<A>,
    keep: spec_fn(A) -> bool,
    give: spec_fn(A) -> B,
    a: Seq<B>,
    b: Seq<B>,
)
    requires
        selection(list, keep, give, a),
        selection(list, keep, give, b),
    ensures
        a == b,
{
    let x = choose|at: Seq<int>|
        {
            &&& #[trigger] positions(list, keep, at)
            &&& a.len() == at.len()
            &&& forall|k: int| 0 <= k < a.len() ==> #[trigger] a[k] == give(list[at[k]])
        };
    let y = choose|at: Seq<int>|
        {
            &&& #[trigger] positions(list, keep, at)
            &&& b.len() == at.len()
            &&& forall|k: int| 0 <= k < b.len() ==> #[trigger] b[k] == give(list[at[k]])
        };
    lemma_positions_are_unique(list, keep, x, y);
    assert(a =~= b);
}

proof fn lemma_positions_are_unique<A>(
    list: Seq<A>,
    keep: spec_fn(A) -> bool,
    x: Seq<int>,
    y: Seq<int>,
)
    requires
        positions(list, keep, x),
        positions(list, keep, y),
    ensures
        x == y,
{
    lemma_positions_agree(list, keep, x, y, x.len() as int);
    lemma_positions_agree(list, keep, y, x, y.len() as int);
    assert(x =~= y);
}

/// The first positions are the same in both.
proof fn lemma_positions_agree<A>(
    list: Seq<A>,
    keep: spec_fn(A) -> bool,
    x: Seq<int>,
    y: Seq<int>,
    n: int,
)
    requires
        positions(list, keep, x),
        positions(list, keep, y),
        0 <= n <= x.len(),
    ensures
        n <= y.len(),
        forall|k: int| 0 <= k < n ==> #[trigger] x[k] == y[k],
    decreases n,
{
    if n > 0 {
        lemma_positions_agree(list, keep, x, y, n - 1);
        let p = x[n - 1];
        assert(keep(list[p]));
        assert(y.contains(p));
        let j = choose|j: int| 0 <= j < y.len() && y[j] == p;
        if j < n - 1 {
            assert(x[j] == y[j]);
            assert(x[j] < x[n - 1]);
        }
        if j > n - 1 {
            let q = y[n - 1];
            assert(q < y[j]);
            assert(keep(list[q]));
            assert(x.contains(q));
            let i = choose|i: int| 0 <= i < x.len() && x[i] == q;
            if i < n - 1 {
                assert(x[i] == y[i]);
                assert(y[i] < y[n - 1]);
            } else if i > n - 1 {
                assert(x[n - 1] < x[i]);
            }
        }
    }
}

} // verus!
