//! What holds of the names of safety points.
use vstd::prelude::*;

use crate::operation::SafetyFacts;
use crate::ops::{
    is_point_for, later_first, lists_points, point_facts, points_under, points_view, safety_reference, Point,
    RawReference, SafetyPoint, UNDO_NAMESPACE,
};
use crate::sorting::{sorted, sorting_keeps_items, sorting_keeps_ties, sorting_puts_in_order};
use crate::text::{
    after_last, all_digits, decimal_digits, digits_value, first_index, first_index_is_first,
    is_digit, unsigned_part,
};

verus! {

proof fn lemma_decimal_digits(n: nat)
    ensures
        decimal_digits(n).len() > 0,
        all_digits(decimal_digits(n)),
        digits_value(decimal_digits(n)) == n,
    decreases n,
{
    let digits = decimal_digits(n);
    if n < 10 {
        assert(digits.drop_last() =~= Seq::empty());
        assert(digits_value(digits.drop_last()) == 0);
    } else {
        lemma_decimal_digits(n / 10);
        assert(digits.drop_last() =~= decimal_digits(n / 10));
    }
}

proof fn lemma_after_last(before: Seq<char>, c: char, after: Seq<char>)
    requires
        forall|i: int| 0 <= i < after.len() ==> #[trigger] after[i] != c,
    ensures
        after_last(before.push(c) + after, c) == after,
    decreases after.len(),
{
    let all = before.push(c) + after;
    if after.len() == 0 {
        assert(all.last() == c);
        assert(after_last(all, c) =~= after);
    } else {
        lemma_after_last(before, c, after.drop_last());
        assert(all.drop_last() =~= before.push(c) + after.drop_last());
        assert(all.last() == after.last());
        assert(after_last(all, c) =~= after);
    }
}

/// The name of a safety point tells when it was made and for which operation: listing the
/// safety points gives back what was kept.
pub proof fn point_name_tells_what_was_kept(now: u64, operation: Seq<char>)
    requires
        forall|i: int| 0 <= i < operation.len() ==> #[trigger] operation[i] != '/',
    ensures
        point_facts(safety_reference(now, operation)) == (now, operation),
{
    reveal_strlit("/");
    reveal_strlit("-");
    let digits = decimal_digits(now as nat);
    let tail = digits + "-"@ + operation;
    let name = safety_reference(now, operation);
    lemma_decimal_digits(now as nat);
    assert forall|i: int| 0 <= i < tail.len() implies #[trigger] tail[i] != '/' by {
        if i < digits.len() {
            assert(is_digit(digits[i]));
        } else if i > digits.len() {
            assert(tail[i] == operation[i - digits.len() - 1]);
        }
    }
    lemma_after_last(UNDO_NAMESPACE@, '/', tail);
    assert(name =~= UNDO_NAMESPACE@.push('/') + tail);
    first_index_is_first(tail, '-', 0);
    let dash = first_index(tail, '-', 0);
    assert(dash == digits.len()) by {
        assert(tail[digits.len() as int] == '-');
        if dash < digits.len() {
            assert(is_digit(digits[dash]));
        }
    }
    assert(tail.take(dash) =~= digits);
    assert(tail.skip(dash + 1) =~= operation);
    assert(is_digit(digits[0]));
    assert(unsigned_part(digits) == digits);
}

/// No safety point is a branch: its name is outside the names of branches.
pub proof fn safety_points_are_no_branches(now: u64, operation: Seq<char>)
    ensures
        !"refs/heads/"@.is_prefix_of(safety_reference(now, operation)),
        UNDO_NAMESPACE@.is_prefix_of(safety_reference(now, operation)),
{
    reveal_strlit("refs/heads/");
    reveal_strlit("refs/gitview/undo");
    let name = safety_reference(now, operation);
    assert(name[5] == 'g');
    assert("refs/heads/"@[5] == 'h');
    if "refs/heads/"@.is_prefix_of(name) {
        assert(name.subrange(0, "refs/heads/"@.len() as int)[5] == name[5]);
    }
    assert(UNDO_NAMESPACE@ =~= name.subrange(0, UNDO_NAMESPACE@.len() as int));
}

/// Clearing out removes the oldest safety points: none that is removed was made after one
/// that is kept.
pub proof fn oldest_points_are_removed(points: Seq<Point>, keep: nat, kept: int, removed: int)
    requires
        0 <= kept < keep <= removed < points.len(),
    ensures
        sorted(points, later_first())[removed].created_unix <= sorted(
            points,
            later_first(),
        )[kept].created_unix,
{
    sorting_puts_in_order(points, later_first());
    sorting_keeps_items(points, later_first());
    let listed = sorted(points, later_first());
    assert(!later_first()(listed[removed], listed[kept]));
}

/// A safety point holds the commit that HEAD was at, when that was and what for, and its name
/// tells so.
pub proof fn points_hold_where_head_was(
    point: SafetyPoint,
    facts: SafetyFacts,
    operation: Seq<char>,
)
    requires
        is_point_for(point, facts, operation),
    ensures
        point.oid == facts.head,
        point.created_unix == facts.now,
        point.operation@ == operation,
        point.reference@ == "refs/gitview/undo"@ + "/"@ + decimal_digits(facts.now as nat) + "-"@
            + operation,
{
}

/// Whether a reference can be a safety point: it has a name and leads to a commit.
pub open spec fn is_listed(reference: RawReference) -> bool {
    reference.name is Some && reference.target is Some
}

/// What is listed of a reference: its name and the commit it leads to, and what the name says
/// of when it was made and what for.
pub open spec fn listed_as(reference: RawReference) -> Point {
    Point {
        reference: reference.name->0@,
        oid: reference.target->0@,
        operation: point_facts(reference.name->0@).1,
        created_unix: point_facts(reference.name->0@).0,
    }
}

proof fn lemma_points_under(references: Seq<RawReference>)
    ensures
        points_under(references) == references.filter(
            |reference: RawReference| is_listed(reference),
        ).map_values(|reference: RawReference| listed_as(reference)),
    decreases references.len(),
{
    reveal(Seq::filter);
    if references.len() > 0 {
        lemma_points_under(references.drop_last());
    }
    assert(points_under(references) =~= references.filter(
        |reference: RawReference| is_listed(reference),
    ).map_values(|reference: RawReference| listed_as(reference)));
}

/// Every reference that can be a safety point is listed as what it is, the latest first, and
/// those of one time in the order in which they were read.
pub proof fn every_point_is_listed(
    r: Seq<SafetyPoint>,
    references: Seq<RawReference>,
    time: u64,
    i: int,
    j: int,
)
    requires
        lists_points(r, references),
    ensures
        r.len() == references.filter(|reference: RawReference| is_listed(reference)).len(),
        0 <= i < j < r.len() ==> r[i].created_unix >= r[j].created_unix,
        points_view(r).filter(|point: Point| point.created_unix == time) == references.filter(
            |reference: RawReference| is_listed(reference),
        ).map_values(|reference: RawReference| listed_as(reference)).filter(
            |point: Point| point.created_unix == time,
        ),
{
    let read = points_under(references);
    let shown = points_view(r);
    lemma_points_under(references);
    sorting_keeps_items(read, later_first());
    sorting_keeps_ties(read, later_first(), |point: Point| point.created_unix == time);
    sorting_puts_in_order(read, later_first());
    assert(shown.len() == r.len());
    if 0 <= i < j < r.len() {
        assert(!later_first()(shown[j], shown[i]));
    }
}

} // verus!
