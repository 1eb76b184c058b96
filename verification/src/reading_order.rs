//! A layout depends on the commits alone, not on the order in which they were read.
use vstd::prelude::*;

use crate::dag::{
    known_positions, oids_of_entries, resolve, valid_nodes, Entry, Node, NodeIndex,
};
use crate::layout::{
    claimed, edges_among, edges_from, first_slot, lane_for, lane_is_leftmost, progress, reserved,
    trimmed, Layout, Slots,
};
use crate::layout_laws::places_all;
use crate::order_laws::{
    nodes_are_placed_once, oids_of, occurs_in, order_ignores_reading_order, parent_oids,
    same_commit, same_graph,
};

verus! {

/// Whether two nodes, each in its own graph, have the same oid.
spec fn twins(a: Seq<Node>, x: int, b: Seq<Node>, y: int) -> bool {
    &&& 0 <= x < a.len()
    &&& 0 <= y < b.len()
    &&& a[x].oid == b[y].oid
}

/// Whether two slots are both free, or reserved for the same commit.
spec fn same_slot(a: Seq<Node>, s: Option<NodeIndex>, b: Seq<Node>, t: Option<NodeIndex>) -> bool {
    match (s, t) {
        (None, None) => true,
        (Some(x), Some(y)) => twins(a, x as int, b, y as int),
        _ => false,
    }
}

spec fn same_slots(a: Seq<Node>, s: Slots, b: Seq<Node>, t: Slots) -> bool {
    &&& s.len() == t.len()
    &&& forall|i: int| 0 <= i < s.len() ==> same_slot(a, #[trigger] s[i], b, t[i])
}

/// Whether two sequences over the nodes agree on each commit.
spec fn same_values(a: Seq<Node>, s: Seq<usize>, b: Seq<Node>, t: Seq<usize>) -> bool {
    &&& s.len() == a.len()
    &&& t.len() == b.len()
    &&& forall|x: int, y: int| #[trigger] twins(a, x, b, y) ==> s[x] == t[y]
}

spec fn twin_seqs(a: Seq<Node>, s: Seq<NodeIndex>, b: Seq<Node>, t: Seq<NodeIndex>) -> bool {
    &&& s.len() == t.len()
    &&& forall|k: int| 0 <= k < s.len() ==> twins(a, #[trigger] s[k] as int, b, t[k] as int)
}

proof fn lemma_same_first_slot(
    a: Seq<Node>,
    s: Slots,
    v: Option<NodeIndex>,
    b: Seq<Node>,
    t: Slots,
    w: Option<NodeIndex>,
    from: int,
)
    requires
        valid_nodes(a),
        valid_nodes(b),
        same_slots(a, s, b, t),
        same_slot(a, v, b, w),
        0 <= from <= s.len(),
    ensures
        first_slot(s, v, from) == first_slot(t, w, from),
    decreases s.len() - from,
{
    if from < s.len() {
        assert(same_slot(a, s[from], b, t[from]));
        lemma_same_first_slot(a, s, v, b, t, w, from + 1);
    }
}

proof fn lemma_same_contains(
    a: Seq<Node>,
    s: Slots,
    v: NodeIndex,
    b: Seq<Node>,
    t: Slots,
    w: NodeIndex,
)
    requires
        valid_nodes(a),
        valid_nodes(b),
        same_slots(a, s, b, t),
        twins(a, v as int, b, w as int),
    ensures
        s.contains(Some(v)) == t.contains(Some(w)),
{
    if s.contains(Some(v)) {
        let i = choose|i: int| 0 <= i < s.len() && s[i] == Some(v);
        assert(same_slot(a, s[i], b, t[i]));
        assert(t[i] == Some(w));
    }
    if t.contains(Some(w)) {
        let i = choose|i: int| 0 <= i < t.len() && t[i] == Some(w);
        assert(same_slot(a, s[i], b, t[i]));
        assert(s[i] == Some(v));
    }
}

proof fn lemma_same_claimed(
    a: Seq<Node>,
    s: Slots,
    v: NodeIndex,
    b: Seq<Node>,
    t: Slots,
    w: NodeIndex,
)
    requires
        valid_nodes(a),
        valid_nodes(b),
        same_slots(a, s, b, t),
        twins(a, v as int, b, w as int),
    ensures
        lane_for(s, v) == lane_for(t, w),
        0 <= lane_for(s, v) < claimed(s, v).len(),
        s.len() <= claimed(s, v).len(),
        same_slots(a, claimed(s, v), b, claimed(t, w)),
{
    lemma_same_contains(a, s, v, b, t, w);
    lemma_same_first_slot(a, s, Some(v), b, t, Some(w), 0);
    lemma_same_first_slot(a, s, None, b, t, None, 0);
    lane_is_leftmost(s, v);
    let left = claimed(s, v);
    let right = claimed(t, w);
    assert forall|i: int| 0 <= i < left.len() implies same_slot(a, #[trigger] left[i], b, right[i]) by {
        if i < s.len() {
            assert(same_slot(a, s[i], b, t[i]));
        }
    }
}

proof fn lemma_same_update(
    a: Seq<Node>,
    s: Slots,
    v: Option<NodeIndex>,
    b: Seq<Node>,
    t: Slots,
    w: Option<NodeIndex>,
    lane: int,
)
    requires
        same_slots(a, s, b, t),
        same_slot(a, v, b, w),
        0 <= lane < s.len(),
    ensures
        same_slots(a, s.update(lane, v), b, t.update(lane, w)),
{
    let left = s.update(lane, v);
    let right = t.update(lane, w);
    assert forall|i: int| 0 <= i < left.len() implies same_slot(a, #[trigger] left[i], b, right[i]) by {
        if i != lane {
            assert(same_slot(a, s[i], b, t[i]));
        }
    }
}

proof fn lemma_same_reserved(
    a: Seq<Node>,
    s: Slots,
    rows: Seq<usize>,
    parents: Seq<NodeIndex>,
    b: Seq<Node>,
    t: Slots,
    other_rows: Seq<usize>,
    other_parents: Seq<NodeIndex>,
    lane: int,
    count: nat,
)
    requires
        valid_nodes(a),
        valid_nodes(b),
        same_slots(a, s, b, t),
        same_values(a, rows, b, other_rows),
        twin_seqs(a, parents, b, other_parents),
        0 <= lane < s.len(),
        count <= parents.len(),
    ensures
        s.len() <= reserved(s, rows, lane, parents, count).len(),
        same_slots(
            a,
            reserved(s, rows, lane, parents, count),
            b,
            reserved(t, other_rows, lane, other_parents, count),
        ),
    decreases count,
{
    if count > 0 {
        let less = (count - 1) as nat;
        lemma_same_reserved(
            a,
            s,
            rows,
            parents,
            b,
            t,
            other_rows,
            other_parents,
            lane,
            less,
        );
        let left = reserved(s, rows, lane, parents, less);
        let right = reserved(t, other_rows, lane, other_parents, less);
        let p = parents[less as int];
        let q = other_parents[less as int];
        assert(twins(a, p as int, b, q as int));
        lemma_same_contains(a, left, p, b, right, q);
        if rows[p as int] == Layout::UNPLACED {
            if count == 1 {
                lemma_same_update(a, left, Some(p), b, right, Some(q), lane);
            } else if !left.contains(Some(p)) {
                lemma_same_claimed(a, left, p, b, right, q);
                lemma_same_update(
                    a,
                    claimed(left, p),
                    Some(p),
                    b,
                    claimed(right, q),
                    Some(q),
                    lane_for(left, p),
                );
            }
        }
    }
}

proof fn lemma_same_trimmed(a: Seq<Node>, s: Slots, b: Seq<Node>, t: Slots)
    requires
        same_slots(a, s, b, t),
    ensures
        same_slots(a, trimmed(s), b, trimmed(t)),
    decreases s.len(),
{
    if s.len() > 0 {
        assert(same_slot(a, s[s.len() - 1], b, t[s.len() - 1]));
        if s.last() is None {
            lemma_same_trimmed(a, s.drop_last(), b, t.drop_last());
        }
    }
}

proof fn lemma_same_value_update(
    a: Seq<Node>,
    s: Seq<usize>,
    v: int,
    b: Seq<Node>,
    t: Seq<usize>,
    w: int,
    value: usize,
)
    requires
        valid_nodes(a),
        valid_nodes(b),
        same_values(a, s, b, t),
        twins(a, v, b, w),
    ensures
        same_values(a, s.update(v, value), b, t.update(w, value)),
{
    assert forall|x: int, y: int| #[trigger] twins(a, x, b, y) implies s.update(v, value)[x]
        == t.update(w, value)[y] by {
        assert(x == v <==> y == w);
    }
}

/// The parents of the same commit are the same commits.
proof fn lemma_same_parents(a: Seq<Node>, v: int, b: Seq<Node>, w: int)
    requires
        valid_nodes(a),
        valid_nodes(b),
        same_graph(a, b),
        twins(a, v, b, w),
    ensures
        twin_seqs(a, a[v].parents, b, b[w].parents),
{
    assert(occurs_in(a, v, b));
    let u = choose|u: int| 0 <= u < b.len() && #[trigger] same_commit(a, v, b, u);
    assert(b[u].oid == b[w].oid);
    assert(u == w);
    assert(parent_oids(a, v).len() == a[v].parents.len());
    assert(parent_oids(b, w).len() == b[w].parents.len());
    assert forall|k: int| 0 <= k < a[v].parents.len() implies twins(
        a,
        #[trigger] a[v].parents[k] as int,
        b,
        b[w].parents[k] as int,
    ) by {
        assert(parent_oids(a, v)[k] == parent_oids(b, w)[k]);
        assert(a[v].parents[k] < a.len());
        assert(b[w].parents[k] < b.len());
    }
}

proof fn lemma_same_progress(
    a: Seq<Node>,
    order: Seq<NodeIndex>,
    b: Seq<Node>,
    other_order: Seq<NodeIndex>,
    count: nat,
)
    requires
        valid_nodes(a),
        valid_nodes(b),
        same_graph(a, b),
        twin_seqs(a, order, b, other_order),
        count <= order.len(),
    ensures
        same_slots(a, progress(a, order, count).slots, b, progress(b, other_order, count).slots),
        same_values(a, progress(a, order, count).rows, b, progress(b, other_order, count).rows),
        same_values(a, progress(a, order, count).lanes, b, progress(b, other_order, count).lanes),
        progress(a, order, count).width == progress(b, other_order, count).width,
    decreases count,
{
    if count > 0 {
        let less = (count - 1) as nat;
        lemma_same_progress(a, order, b, other_order, less);
        let left = progress(a, order, less);
        let right = progress(b, other_order, less);
        let v = order[less as int];
        let w = other_order[less as int];
        let row = less as usize;
        assert(twins(a, v as int, b, w as int));
        lemma_same_claimed(a, left.slots, v, b, right.slots, w);
        let lane = lane_for(left.slots, v);
        lemma_same_update(
            a,
            claimed(left.slots, v),
            None,
            b,
            claimed(right.slots, w),
            None,
            lane,
        );
        lemma_same_value_update(a, left.rows, v as int, b, right.rows, w as int, row);
        lemma_same_value_update(
            a,
            left.lanes,
            v as int,
            b,
            right.lanes,
            w as int,
            lane as usize,
        );
        lemma_same_parents(a, v as int, b, w as int);
        let parents = a[v as int].parents;
        let other_parents = b[w as int].parents;
        let s = claimed(left.slots, v).update(lane, None);
        let t = claimed(right.slots, w).update(lane, None);
        let rows = left.rows.update(v as int, row);
        let other_rows = right.rows.update(w as int, row);
        lemma_same_reserved(
            a,
            s,
            rows,
            parents,
            b,
            t,
            other_rows,
            other_parents,
            lane,
            parents.len(),
        );
        lemma_same_trimmed(
            a,
            reserved(s, rows, lane, parents, parents.len()),
            b,
            reserved(t, other_rows, lane, other_parents, other_parents.len()),
        );
    }
}

proof fn lemma_same_edges_from(
    a: Seq<Node>,
    v: int,
    parents: Seq<NodeIndex>,
    rows: Seq<usize>,
    lanes: Seq<usize>,
    b: Seq<Node>,
    w: int,
    other_parents: Seq<NodeIndex>,
    other_rows: Seq<usize>,
    other_lanes: Seq<usize>,
    count: nat,
)
    requires
        twins(a, v, b, w),
        twin_seqs(a, parents, b, other_parents),
        same_values(a, rows, b, other_rows),
        same_values(a, lanes, b, other_lanes),
        count <= parents.len(),
    ensures
        edges_from(v, parents, rows, lanes, count) == edges_from(
            w,
            other_parents,
            other_rows,
            other_lanes,
            count,
        ),
    decreases count,
{
    if count > 0 {
        let less = (count - 1) as nat;
        lemma_same_edges_from(
            a,
            v,
            parents,
            rows,
            lanes,
            b,
            w,
            other_parents,
            other_rows,
            other_lanes,
            less,
        );
        assert(twins(a, parents[less as int] as int, b, other_parents[less as int] as int));
    }
}

proof fn lemma_same_edges(
    a: Seq<Node>,
    order: Seq<NodeIndex>,
    rows: Seq<usize>,
    lanes: Seq<usize>,
    b: Seq<Node>,
    other_order: Seq<NodeIndex>,
    other_rows: Seq<usize>,
    other_lanes: Seq<usize>,
    count: nat,
)
    requires
        valid_nodes(a),
        valid_nodes(b),
        same_graph(a, b),
        twin_seqs(a, order, b, other_order),
        same_values(a, rows, b, other_rows),
        same_values(a, lanes, b, other_lanes),
        count <= order.len(),
    ensures
        edges_among(a, order, rows, lanes, count) == edges_among(
            b,
            other_order,
            other_rows,
            other_lanes,
            count,
        ),
    decreases count,
{
    if count > 0 {
        let less = (count - 1) as nat;
        lemma_same_edges(a, order, rows, lanes, b, other_order, other_rows, other_lanes, less);
        let v = order[less as int] as int;
        let w = other_order[less as int] as int;
        assert(twins(a, v, b, w));
        lemma_same_parents(a, v, b, w);
        lemma_same_edges_from(
            a,
            v,
            a[v].parents,
            rows,
            lanes,
            b,
            w,
            b[w].parents,
            other_rows,
            other_lanes,
            a[v].parents.len(),
        );
    }
}

/// Two graphs over the same commits are drawn alike, in whatever order their commits
/// were read: the same commit in each row, on the same lane, with the same lines and
/// the same width.
pub proof fn layout_ignores_reading_order(
    layout: Layout,
    a: Seq<Node>,
    other: Layout,
    b: Seq<Node>,
)
    requires
        places_all(layout, a),
        places_all(other, b),
        same_graph(a, b),
    ensures
        oids_of(a, layout.order@) == oids_of(b, other.order@),
        forall|row: int|
            #![trigger layout.order@[row]]
            0 <= row < layout.order@.len() ==> layout.lane_of@[layout.order@[row] as int]
                == other.lane_of@[other.order@[row] as int],
        layout.edges@ == other.edges@,
        layout.lane_count == other.lane_count,
{
    let order = layout.order@;
    let other_order = other.order@;
    order_ignores_reading_order(a, order, b, other_order);
    nodes_are_placed_once(a, order);
    nodes_are_placed_once(b, other_order);
    let left = oids_of(a, order);
    let right = oids_of(b, other_order);
    assert(left.len() == order.len());
    assert(right.len() == other_order.len());
    assert forall|k: int| 0 <= k < order.len() implies twins(
        a,
        #[trigger] order[k] as int,
        b,
        other_order[k] as int,
    ) by {
        assert(left[k] == right[k]);
        assert(order[k] < a.len());
        assert(other_order[k] < b.len());
    }
    lemma_same_progress(a, order, b, other_order, order.len());
    lemma_same_edges(
        a,
        order,
        layout.row_of@,
        layout.lane_of@,
        b,
        other_order,
        other.row_of@,
        other.lane_of@,
        order.len(),
    );
    assert forall|row: int|
        #![trigger layout.order@[row]]
        0 <= row < layout.order@.len() implies layout.lane_of@[layout.order@[row] as int]
        == other.lane_of@[other.order@[row] as int] by {
        assert(twins(a, order[row] as int, b, other_order[row] as int));
    }
}

/// The oids among `named` that occur in `oids`.
spec fn known_names(oids: Seq<Seq<char>>, named: Seq<Seq<char>>) -> Seq<Seq<char>>
    decreases named.len(),
{
    if named.len() == 0 {
        Seq::empty()
    } else {
        let before = known_names(oids, named.drop_last());
        if oids.contains(named.last()) {
            before.push(named.last())
        } else {
            before
        }
    }
}

proof fn lemma_known_names(oids: Seq<Seq<char>>, named: Seq<Seq<char>>)
    requires
        oids.len() <= usize::MAX,
    ensures
        known_names(oids, named).len() == known_positions(oids, named).len(),
        forall|k: int|
            0 <= k < known_names(oids, named).len() ==> {
                let position = #[trigger] known_positions(oids, named)[k];
                position < oids.len() && known_names(oids, named)[k] == oids[position as int]
            },
    decreases named.len(),
{
    if named.len() > 0 {
        lemma_known_names(oids, named.drop_last());
        if oids.contains(named.last()) {
            let found = oids.index_of(named.last());
            assert(oids[found] == named.last());
        }
    }
}

proof fn lemma_known_names_by_membership(
    oids: Seq<Seq<char>>,
    other: Seq<Seq<char>>,
    named: Seq<Seq<char>>,
)
    requires
        forall|oid: Seq<char>| #[trigger] oids.contains(oid) <==> other.contains(oid),
    ensures
        known_names(oids, named) == known_names(other, named),
    decreases named.len(),
{
    if named.len() > 0 {
        lemma_known_names_by_membership(oids, other, named.drop_last());
    }
}

proof fn lemma_resolved_parent_oids(entries: Seq<Entry>, v: int)
    requires
        entries.len() <= usize::MAX,
        0 <= v < entries.len(),
    ensures
        parent_oids(resolve(entries), v) == known_names(
            oids_of_entries(entries),
            entries[v].parent_oids,
        ),
{
    let oids = oids_of_entries(entries);
    let named = entries[v].parent_oids;
    let nodes = resolve(entries);
    lemma_known_names(oids, named);
    assert forall|k: int| 0 <= k < nodes[v].parents.len() implies parent_oids(nodes, v)[k]
        == known_names(oids, named)[k] by {
        let position = known_positions(oids, named)[k];
        assert(nodes[v].parents[k] == position);
    }
    assert(parent_oids(nodes, v) =~= known_names(oids, named));
}

proof fn lemma_same_entries_occur(a: Seq<Entry>, b: Seq<Entry>)
    requires
        a.len() <= usize::MAX,
        b.len() <= usize::MAX,
        forall|entry: Entry| #[trigger] a.contains(entry) <==> b.contains(entry),
    ensures
        forall|v: int| 0 <= v < a.len() ==> #[trigger] occurs_in(resolve(a), v, resolve(b)),
{
    let oids = oids_of_entries(a);
    let other = oids_of_entries(b);
    assert forall|oid: Seq<char>| #[trigger] oids.contains(oid) <==> other.contains(oid) by {
        if oids.contains(oid) {
            let i = choose|i: int| 0 <= i < oids.len() && oids[i] == oid;
            assert(a.contains(a[i]));
            assert(b.contains(a[i]));
            let j = choose|j: int| 0 <= j < b.len() && b[j] == a[i];
            assert(other[j] == oid);
        }
        if other.contains(oid) {
            let i = choose|i: int| 0 <= i < other.len() && other[i] == oid;
            assert(b.contains(b[i]));
            assert(a.contains(b[i]));
            let j = choose|j: int| 0 <= j < a.len() && a[j] == b[i];
            assert(oids[j] == oid);
        }
    }
    assert forall|v: int| 0 <= v < a.len() implies #[trigger] occurs_in(
        resolve(a),
        v,
        resolve(b),
    ) by {
        assert(a.contains(a[v]));
        assert(b.contains(a[v]));
        let w = choose|w: int| 0 <= w < b.len() && b[w] == a[v];
        lemma_resolved_parent_oids(a, v);
        lemma_resolved_parent_oids(b, w);
        lemma_known_names_by_membership(oids, other, a[v].parent_oids);
        assert(same_commit(resolve(a), v, resolve(b), w));
    }
}

/// Pushing the same commits in another order builds the same graph, but for its indices.
pub proof fn graph_ignores_reading_order(a: Seq<Entry>, b: Seq<Entry>)
    requires
        a.len() <= usize::MAX,
        b.len() <= usize::MAX,
        forall|entry: Entry| #[trigger] a.contains(entry) <==> b.contains(entry),
    ensures
        same_graph(resolve(a), resolve(b)),
{
    lemma_same_entries_occur(a, b);
    lemma_same_entries_occur(b, a);
}

} // verus!
