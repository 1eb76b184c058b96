//! A stable sort.
use vstd::prelude::*;

verus! {

/// A sequence with one item put in its place: before the items that come after it, and
/// behind those that do not.
pub open spec fn put_in<T>(items: Seq<T>, item: T, before: spec_fn(T, T) -> bool) -> Seq<T>
    decreases items.len(),
{
    if items.len() > 0 && before(item, items.last()) {
        put_in(items.drop_last(), item, before).push(items.last())
    } else {
        items.push(item)
    }
}

/// The items in order. Items of which neither comes before the other stay in the order
/// in which they were.
pub open spec fn sorted<T>(items: Seq<T>, before: spec_fn(T, T) -> bool) -> Seq<T>
    decreases items.len(),
{
    if items.len() == 0 {
        Seq::empty()
    } else {
        put_in(sorted(items.drop_last(), before), items.last(), before)
    }
}

/// Sorts items by an order that is given as code and as what it means.
pub fn stable_sort<T, F: Fn(&T, &T) -> bool>(
    items: Vec<T>,
    comes_before: F,
    Ghost(before): Ghost<spec_fn(T, T) -> bool>,
) -> (r: Vec<T>)
    requires
        forall|a: &T, b: &T| #[trigger] comes_before.requires((a, b)),
        forall|a: &T, b: &T, r: bool| #[trigger]
            comes_before.ensures((a, b), r) ==> r == before(*a, *b),
    ensures
        r@ == sorted(items@, before),
{
    let mut out: Vec<T> = Vec::with_capacity(items.len());
    for item in rest: items
        invariant
            rest.seq() == items@,
            forall|a: &T, b: &T| #[trigger] comes_before.requires((a, b)),
            forall|a: &T, b: &T, r: bool| #[trigger]
                comes_before.ensures((a, b), r) ==> r == before(*a, *b),
            out@ == sorted(items@.take(rest.index() as int), before),
    {
        let ghost seen = items@.take(rest.index() + 1);
        assert(seen.drop_last() =~= items@.take(rest.index() as int));
        assert(seen.last() == item);
        let mut place: usize = out.len();
        let ghost whole = put_in(out@, item, before);
        assert(out@.take(out@.len() as int) =~= out@);
        assert(put_in(out@, item, before) + out@.skip(place as int) =~= whole);
        while place > 0 && comes_before(&item, &out[place - 1])
            invariant
                place <= out@.len(),
                forall|a: &T, b: &T| #[trigger] comes_before.requires((a, b)),
                forall|a: &T, b: &T, r: bool| #[trigger]
                    comes_before.ensures((a, b), r) ==> r == before(*a, *b),
                whole == put_in(out@.take(place as int), item, before) + out@.skip(place as int),
            ensures
                place <= out@.len(),
                whole == put_in(out@.take(place as int), item, before) + out@.skip(place as int),
                place > 0 ==> !before(item, out@[place - 1]),
            decreases place,
        {
            let ghost left = out@.take(place as int);
            assert(left.last() == out@[place - 1]);
            assert(left.drop_last() =~= out@.take(place - 1));
            assert(put_in(left, item, before) + out@.skip(place as int) =~= put_in(
                left.drop_last(),
                item,
                before,
            ) + out@.skip(place - 1));
            place -= 1;
        }
        proof {
            let left = out@.take(place as int);
            if place > 0 {
                assert(left.last() == out@[place - 1]);
            }
            assert(whole =~= out@.insert(place as int, item));
        }
        out.insert(place, item);
    }
    assert(items@.take(items@.len() as int) =~= items@);
    out
}

proof fn lemma_put_in_keeps<T>(items: Seq<T>, item: T, before: spec_fn(T, T) -> bool)
    ensures
        put_in(items, item, before).to_multiset() == items.to_multiset().insert(item),
        put_in(items, item, before).len() == items.len() + 1,
    decreases items.len(),
{
    broadcast use vstd::seq_lib::group_to_multiset_ensures;

    if items.len() > 0 && before(item, items.last()) {
        lemma_put_in_keeps(items.drop_last(), item, before);
        assert(items =~= items.drop_last().push(items.last()));
        assert(put_in(items, item, before).to_multiset() =~= items.to_multiset().insert(item));
    }
}

/// Sorting neither loses nor adds an item.
pub proof fn sorting_keeps_items<T>(items: Seq<T>, before: spec_fn(T, T) -> bool)
    ensures
        sorted(items, before).to_multiset() == items.to_multiset(),
        sorted(items, before).len() == items.len(),
    decreases items.len(),
{
    broadcast use vstd::seq_lib::group_to_multiset_ensures;

    if items.len() > 0 {
        sorting_keeps_items(items.drop_last(), before);
        lemma_put_in_keeps(sorted(items.drop_last(), before), items.last(), before);
        assert(items =~= items.drop_last().push(items.last()));
    } else {
        assert(items =~= Seq::empty());
    }
}

/// No item comes before one in front of it.
pub open spec fn in_order<T>(items: Seq<T>, before: spec_fn(T, T) -> bool) -> bool {
    forall|i: int, j: int| 0 <= i < j < items.len() ==> !before(#[trigger] items[j], #[trigger] items[i])
}

/// An order that a sort can follow: whatever comes before an item also comes before
/// anything that does not come before that item.
pub open spec fn is_order<T>(before: spec_fn(T, T) -> bool) -> bool {
    &&& forall|a: T, b: T| #[trigger] before(a, b) ==> !before(b, a)
    &&& forall|a: T, b: T, c: T|
        #![trigger before(a, b), before(c, b)]
        before(a, b) && !before(c, b) ==> before(a, c)
}

proof fn lemma_put_in_members<T>(items: Seq<T>, item: T, before: spec_fn(T, T) -> bool, i: int)
    requires
        0 <= i < put_in(items, item, before).len(),
    ensures
        put_in(items, item, before)[i] == item || items.contains(put_in(items, item, before)[i]),
    decreases items.len(),
{
    let all = put_in(items, item, before);
    if items.len() > 0 && before(item, items.last()) {
        let less = put_in(items.drop_last(), item, before);
        if i < less.len() {
            lemma_put_in_members(items.drop_last(), item, before, i);
            if less[i] != item {
                let k = choose|k: int| 0 <= k < items.len() - 1 && items.drop_last()[k] == less[i];
                assert(items[k] == all[i]);
            }
        } else {
            assert(items[items.len() - 1] == all[i]);
        }
    } else if i < items.len() {
        assert(items[i] == all[i]);
    }
}

proof fn lemma_put_in_order<T>(items: Seq<T>, item: T, before: spec_fn(T, T) -> bool)
    requires
        is_order(before),
        in_order(items, before),
    ensures
        in_order(put_in(items, item, before), before),
    decreases items.len(),
{
    let all = put_in(items, item, before);
    if items.len() > 0 && before(item, items.last()) {
        let rest = items.drop_last();
        let less = put_in(rest, item, before);
        assert(in_order(rest, before));
        lemma_put_in_order(rest, item, before);
        assert forall|i: int, j: int| 0 <= i < j < all.len() implies !before(
            #[trigger] all[j],
            #[trigger] all[i],
        ) by {
            assert(all[i] == less[i]);
            if j < less.len() {
                assert(all[j] == less[j]);
            } else {
                assert(all[j] == items.last());
                lemma_put_in_members(rest, item, before, i);
                if less[i] != item {
                    let k = choose|k: int| 0 <= k < rest.len() && rest[k] == less[i];
                    assert(!before(items[items.len() - 1], items[k]));
                }
            }
        }
    } else {
        assert forall|i: int, j: int| 0 <= i < j < all.len() implies !before(
            #[trigger] all[j],
            #[trigger] all[i],
        ) by {
            assert(all[i] == items[i]);
            if j == items.len() {
                let last = items[items.len() - 1];
                assert(!before(item, last));
                if i < items.len() - 1 {
                    assert(!before(last, items[i]));
                    if before(item, items[i]) {
                        assert(before(item, last));
                    }
                }
            } else {
                assert(all[j] == items[j]);
            }
        }
    }
}

/// Sorting puts the items in order.
pub proof fn sorting_puts_in_order<T>(items: Seq<T>, before: spec_fn(T, T) -> bool)
    requires
        is_order(before),
    ensures
        in_order(sorted(items, before), before),
    decreases items.len(),
{
    if items.len() > 0 {
        sorting_puts_in_order(items.drop_last(), before);
        lemma_put_in_order(sorted(items.drop_last(), before), items.last(), before);
    }
}

proof fn lemma_put_in_keeps_ties<T>(
    items: Seq<T>,
    item: T,
    before: spec_fn(T, T) -> bool,
    tied: spec_fn(T) -> bool,
)
    requires
        forall|a: T, b: T| tied(a) && tied(b) ==> !#[trigger] before(a, b),
    ensures
        put_in(items, item, before).filter(tied) == items.push(item).filter(tied),
    decreases items.len(),
{
    reveal(Seq::filter);
    let all = put_in(items, item, before);
    assert(items.push(item).drop_last() =~= items);
    if items.len() > 0 && before(item, items.last()) {
        let rest = items.drop_last();
        lemma_put_in_keeps_ties(rest, item, before, tied);
        assert(all.drop_last() =~= put_in(rest, item, before));
        assert(rest.push(item).drop_last() =~= rest);
        if tied(item) {
            assert(!tied(items.last()));
        }
        let last = items.last();
        assert(all.filter(tied) == if tied(last) {
            all.drop_last().filter(tied).push(last)
        } else {
            all.drop_last().filter(tied)
        });
        assert(rest.push(item).filter(tied) == if tied(item) {
            rest.filter(tied).push(item)
        } else {
            rest.filter(tied)
        });
        assert(items.filter(tied) == if tied(last) {
            rest.filter(tied).push(last)
        } else {
            rest.filter(tied)
        });
    }
}

/// Items of which none comes before another stay in the order in which they were.
pub proof fn sorting_keeps_ties<T>(
    items: Seq<T>,
    before: spec_fn(T, T) -> bool,
    tied: spec_fn(T) -> bool,
)
    requires
        forall|a: T, b: T| tied(a) && tied(b) ==> !#[trigger] before(a, b),
    ensures
        sorted(items, before).filter(tied) == items.filter(tied),
    decreases items.len(),
{
    reveal(Seq::filter);
    if items.len() > 0 {
        let rest = items.drop_last();
        let less = sorted(rest, before);
        sorting_keeps_ties(rest, before, tied);
        lemma_put_in_keeps_ties(less, items.last(), before, tied);
        assert(less.push(items.last()).drop_last() =~= less);
    }
}

proof fn lemma_put_in_of_views<T, U>(
    items: Seq<T>,
    item: T,
    before: spec_fn(T, T) -> bool,
    view: spec_fn(T) -> U,
    other: spec_fn(U, U) -> bool,
)
    requires
        forall|a: T, b: T| #[trigger] before(a, b) == other(view(a), view(b)),
    ensures
        put_in(items, item, before).map_values(view) == put_in(
            items.map_values(view),
            view(item),
            other,
        ),
    decreases items.len(),
{
    let views = items.map_values(view);
    if items.len() > 0 {
        assert(views.last() == view(items.last()));
        assert(before(item, items.last()) == other(view(item), views.last()));
        if before(item, items.last()) {
            lemma_put_in_of_views(items.drop_last(), item, before, view, other);
            assert(views.drop_last() =~= items.drop_last().map_values(view));
        }
    }
    assert(put_in(items, item, before).map_values(view) =~= put_in(views, view(item), other));
}

/// Where an order depends on what items hold, so does sorting by it.
pub proof fn sorting_of_views<T, U>(
    items: Seq<T>,
    before: spec_fn(T, T) -> bool,
    view: spec_fn(T) -> U,
    other: spec_fn(U, U) -> bool,
)
    requires
        forall|a: T, b: T| #[trigger] before(a, b) == other(view(a), view(b)),
    ensures
        sorted(items, before).map_values(view) == sorted(items.map_values(view), other),
    decreases items.len(),
{
    let views = items.map_values(view);
    if items.len() > 0 {
        sorting_of_views(items.drop_last(), before, view, other);
        assert(views.drop_last() =~= items.drop_last().map_values(view));
        lemma_put_in_of_views(sorted(items.drop_last(), before), items.last(), before, view, other);
    } else {
        assert(sorted(items, before).map_values(view) =~= sorted(views, other));
    }
}

} // verus!
