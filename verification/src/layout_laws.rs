//! What holds of every layout.
use vstd::prelude::*;

use crate::dag::{valid_nodes, Node, NodeIndex};
use crate::layout::{
    claimed, edges_among, edges_from, is_layout_of, lane_for, lane_is_leftmost, place, progress,
    reserved, trimmed, Edge, Layout, Progress, Slots,
};
use crate::order::{distinct_nodes, names_parent, newest_first};
use crate::order_laws::{
    full_order_holds_every_node, nodes_are_placed_once, parents_follow_children,
};

verus! {

/// Whether a layout places every node of a graph, as laying out the graph does.
pub open spec fn places_all(layout: Layout, nodes: Seq<Node>) -> bool {
    &&& valid_nodes(nodes)
    &&& nodes.len() <= usize::MAX
    &&& newest_first(nodes, layout.order@)
    &&& layout.order@.len() == nodes.len()
    &&& is_layout_of(layout, nodes, layout.order@)
}

/// The lane given to the node in row `row`.
spec fn lane_at(nodes: Seq<Node>, order: Seq<NodeIndex>, row: int) -> int {
    lane_for(progress(nodes, order, row as nat).slots, order[row])
}

proof fn lemma_progress(nodes: Seq<Node>, order: Seq<NodeIndex>, count: nat)
    requires
        distinct_nodes(order, nodes.len()),
        count <= order.len() <= usize::MAX,
    ensures
        progress(nodes, order, count).rows.len() == nodes.len(),
        progress(nodes, order, count).lanes.len() == nodes.len(),
        forall|k: int|
            #![trigger order[k]]
            0 <= k < count ==> {
                &&& progress(nodes, order, count).rows[order[k] as int] == k
                &&& progress(nodes, order, count).lanes[order[k] as int] == lane_at(
                    nodes,
                    order,
                    k,
                ) as usize
                &&& lane_at(nodes, order, k) < progress(nodes, order, count).width
            },
        forall|v: int|
            #![trigger progress(nodes, order, count).rows[v]]
            0 <= v < nodes.len() && progress(nodes, order, count).rows[v] != Layout::UNPLACED ==> {
                let row = progress(nodes, order, count).rows[v];
                row < count && order[row as int] == v
            },
        forall|v: int|
            #![trigger progress(nodes, order, count).lanes[v]]
            0 <= v < nodes.len() && progress(nodes, order, count).rows[v] == Layout::UNPLACED
                ==> progress(nodes, order, count).lanes[v] == Layout::UNPLACED,
    decreases count,
{
    if count > 0 {
        let less = (count - 1) as nat;
        let before = progress(nodes, order, less);
        let now = progress(nodes, order, count);
        let node = order[less as int];
        lemma_progress(nodes, order, less);
        lane_is_leftmost(before.slots, node);
        assert(node < nodes.len());
        assert forall|k: int| #![trigger order[k]] 0 <= k < count implies {
            &&& now.rows[order[k] as int] == k
            &&& now.lanes[order[k] as int] == lane_at(nodes, order, k) as usize
            &&& lane_at(nodes, order, k) < now.width
        } by {
            if k < less {
                assert(order[k] != node);
            }
        }
        assert forall|v: int|
            #![trigger now.rows[v]]
            0 <= v < nodes.len() && now.rows[v] != Layout::UNPLACED implies now.rows[v] < count
            && order[now.rows[v] as int] == v by {
            if v != node {
                assert(before.rows[v] == now.rows[v]);
            }
        }
        assert forall|v: int|
            #![trigger now.lanes[v]]
            0 <= v < nodes.len() && now.rows[v] == Layout::UNPLACED implies now.lanes[v]
            == Layout::UNPLACED by {
            if v != node {
                assert(before.rows[v] == now.rows[v]);
                assert(before.lanes[v] == now.lanes[v]);
            }
        }
    }
}

/// Every node has a row of its own: the rows and the order undo each other.
pub proof fn rows_are_the_inverse_of_the_order(layout: Layout, nodes: Seq<Node>)
    requires
        places_all(layout, nodes),
    ensures
        layout.row_of@.len() == nodes.len(),
        forall|row: int|
            0 <= row < nodes.len() ==> layout.row_of@[#[trigger] layout.order@[row] as int] == row,
        forall|v: int|
            0 <= v < nodes.len() ==> #[trigger] layout.row_of@[v] < nodes.len()
                && layout.order@[layout.row_of@[v] as int] == v,
{
    let order = layout.order@;
    nodes_are_placed_once(nodes, order);
    lemma_progress(nodes, order, order.len());
    full_order_holds_every_node(nodes, order);
    assert forall|v: int| 0 <= v < nodes.len() implies #[trigger] layout.row_of@[v] < nodes.len()
        && layout.order@[layout.row_of@[v] as int] == v by {
        assert(order.contains(v as usize));
        let row = choose|row: int| 0 <= row < order.len() && order[row] == v as usize;
        assert(layout.row_of@[order[row] as int] == row);
    }
}

/// The width is enough for every node.
pub proof fn lanes_fit_the_width(layout: Layout, nodes: Seq<Node>, v: int)
    requires
        places_all(layout, nodes),
        0 <= v < nodes.len(),
    ensures
        layout.lane_of@.len() == nodes.len(),
        layout.lane_of@[v] < layout.lane_count,
{
    let order = layout.order@;
    nodes_are_placed_once(nodes, order);
    lemma_progress(nodes, order, order.len());
    rows_are_the_inverse_of_the_order(layout, nodes);
    let row = layout.row_of@[v] as int;
    assert(order[row] == v);
    lane_is_leftmost(progress(nodes, order, row as nat).slots, order[row]);
}

proof fn lemma_edges_from(
    node: int,
    parents: Seq<NodeIndex>,
    rows: Seq<usize>,
    lanes: Seq<usize>,
    count: nat,
    i: int,
)
    requires
        count <= parents.len(),
        0 <= i < edges_from(node, parents, rows, lanes, count).len(),
    ensures
        exists|k: int|
            0 <= k < count && edges_from(node, parents, rows, lanes, count)[i] == (Edge {
                child_row: rows[node],
                child_lane: lanes[node],
                parent_row: rows[#[trigger] parents[k] as int],
                parent_lane: lanes[parents[k] as int],
            }),
    decreases count,
{
    if count > 0 {
        let less = (count - 1) as nat;
        let before = edges_from(node, parents, rows, lanes, less);
        if i < before.len() {
            lemma_edges_from(node, parents, rows, lanes, less, i);
        } else {
            let parent = parents[less as int];
        }
    }
}

/// What an edge connects: a node and one of its parents.
pub open spec fn connects(edge: Edge, layout: Layout, child: int, parent: int) -> bool {
    &&& edge.child_row == layout.row_of@[child]
    &&& edge.child_lane == layout.lane_of@[child]
    &&& edge.parent_row == layout.row_of@[parent]
    &&& edge.parent_lane == layout.lane_of@[parent]
}

proof fn lemma_edges_among(
    layout: Layout,
    nodes: Seq<Node>,
    count: nat,
    i: int,
)
    requires
        places_all(layout, nodes),
        count <= nodes.len(),
        0 <= i < edges_among(nodes, layout.order@, layout.row_of@, layout.lane_of@, count).len(),
    ensures
        exists|child: int, parent: int|
            0 <= child < nodes.len() && 0 <= parent < nodes.len() && names_parent(
                nodes,
                child,
                parent,
            ) && #[trigger] connects(
                edges_among(nodes, layout.order@, layout.row_of@, layout.lane_of@, count)[i],
                layout,
                child,
                parent,
            ),
    decreases count,
{
    let order = layout.order@;
    let rows = layout.row_of@;
    let lanes = layout.lane_of@;
    nodes_are_placed_once(nodes, order);
    if count > 0 {
        let less = (count - 1) as nat;
        let before = edges_among(nodes, order, rows, lanes, less);
        let all = edges_among(nodes, order, rows, lanes, count);
        let child = order[less as int] as int;
        let parents = nodes[child].parents;
        if i < before.len() {
            lemma_edges_among(layout, nodes, less, i);
            assert(all[i] == before[i]);
        } else {
            let own = edges_from(child, parents, rows, lanes, parents.len());
            lemma_edges_from(child, parents, rows, lanes, parents.len(), i - before.len());
            assert(all[i] == own[i - before.len()]);
            let k = choose|k: int|
                0 <= k < parents.len() && own[i - before.len()] == (Edge {
                    child_row: rows[child],
                    child_lane: lanes[child],
                    parent_row: rows[#[trigger] parents[k] as int],
                    parent_lane: lanes[parents[k] as int],
                });
            assert(nodes[child].parents[k] < nodes.len());
            assert(names_parent(nodes, child, parents[k] as int));
            assert(connects(all[i], layout, child, parents[k] as int));
        }
    }
}

/// Every line runs down, from a child to a parent, and stays within the drawing.
pub proof fn edges_run_down(layout: Layout, nodes: Seq<Node>, i: int)
    requires
        places_all(layout, nodes),
        0 <= i < layout.edges@.len(),
    ensures
        layout.edges@[i].child_row < layout.edges@[i].parent_row < nodes.len(),
        layout.edges@[i].child_lane < layout.lane_count,
        layout.edges@[i].parent_lane < layout.lane_count,
        exists|child: int, parent: int|
            0 <= child < nodes.len() && 0 <= parent < nodes.len() && names_parent(
                nodes,
                child,
                parent,
            ) && #[trigger] connects(layout.edges@[i], layout, child, parent),
{
    lemma_edges_among(layout, nodes, nodes.len(), i);
    let (child, parent) = choose|child: int, parent: int|
        0 <= child < nodes.len() && 0 <= parent < nodes.len() && names_parent(nodes, child, parent)
            && #[trigger] connects(layout.edges@[i], layout, child, parent);
    rows_are_the_inverse_of_the_order(layout, nodes);
    lanes_fit_the_width(layout, nodes, child);
    lanes_fit_the_width(layout, nodes, parent);
    parents_follow_children(
        nodes,
        layout.order@,
        layout.row_of@[child] as int,
        layout.row_of@[parent] as int,
    );
}

proof fn lemma_edge_from_kept(
    node: int,
    parents: Seq<NodeIndex>,
    rows: Seq<usize>,
    lanes: Seq<usize>,
    count: nat,
    k: int,
) -> (i: int)
    requires
        0 <= k < count <= parents.len(),
        rows[parents[k] as int] != Layout::UNPLACED,
    ensures
        0 <= i < edges_from(node, parents, rows, lanes, count).len(),
        edges_from(node, parents, rows, lanes, count)[i] == (Edge {
            child_row: rows[node],
            child_lane: lanes[node],
            parent_row: rows[parents[k] as int],
            parent_lane: lanes[parents[k] as int],
        }),
    decreases count,
{
    let less = (count - 1) as nat;
    let before = edges_from(node, parents, rows, lanes, less);
    if k < less {
        lemma_edge_from_kept(node, parents, rows, lanes, less, k)
    } else {
        before.len() as int
    }
}

proof fn lemma_edge_among_kept(
    layout: Layout,
    nodes: Seq<Node>,
    count: nat,
    row: int,
    k: int,
) -> (i: int)
    requires
        places_all(layout, nodes),
        0 <= row < count <= nodes.len(),
        0 <= k < nodes[layout.order@[row] as int].parents.len(),
    ensures
        0 <= i < edges_among(nodes, layout.order@, layout.row_of@, layout.lane_of@, count).len(),
        connects(
            edges_among(nodes, layout.order@, layout.row_of@, layout.lane_of@, count)[i],
            layout,
            layout.order@[row] as int,
            nodes[layout.order@[row] as int].parents[k] as int,
        ),
    decreases count,
{
    let order = layout.order@;
    let rows = layout.row_of@;
    let lanes = layout.lane_of@;
    nodes_are_placed_once(nodes, order);
    rows_are_the_inverse_of_the_order(layout, nodes);
    let less = (count - 1) as nat;
    let before = edges_among(nodes, order, rows, lanes, less);
    if row < less {
        lemma_edge_among_kept(layout, nodes, less, row, k)
    } else {
        let child = order[row] as int;
        let parents = nodes[child].parents;
        assert(nodes[child].parents[k] < nodes.len());
        assert(rows[parents[k] as int] < nodes.len());
        let i = lemma_edge_from_kept(child, parents, rows, lanes, parents.len(), k);
        let all = edges_among(nodes, order, rows, lanes, count);
        assert(all[before.len() + i] == edges_from(child, parents, rows, lanes, parents.len())[i]);
        before.len() + i
    }
}

/// Every parent of every node is connected by a line.
pub proof fn every_parent_is_connected(layout: Layout, nodes: Seq<Node>, child: int, parent: int)
    requires
        places_all(layout, nodes),
        0 <= child < nodes.len(),
        0 <= parent < nodes.len(),
        names_parent(nodes, child, parent),
    ensures
        exists|i: int|
            0 <= i < layout.edges@.len() && connects(
                #[trigger] layout.edges@[i],
                layout,
                child,
                parent,
            ),
{
    rows_are_the_inverse_of_the_order(layout, nodes);
    let k = choose|k: int|
        0 <= k < nodes[child].parents.len() && #[trigger] nodes[child].parents[k] == parent;
    let row = layout.row_of@[child] as int;
    assert(layout.order@[row] == child);
    let i = lemma_edge_among_kept(layout, nodes, nodes.len(), row, k);
    assert(connects(layout.edges@[i], layout, child, parent));
}

proof fn lemma_trimmed(slots: Slots, lane: int, held: NodeIndex)
    requires
        0 <= lane < slots.len(),
        slots[lane] == Some(held),
    ensures
        lane < trimmed(slots).len(),
        trimmed(slots)[lane] == Some(held),
    decreases slots.len(),
{
    if slots.last() is None {
        lemma_trimmed(slots.drop_last(), lane, held);
    }
}

proof fn lemma_reserved_keeps(
    slots: Slots,
    rows: Seq<usize>,
    own: int,
    parents: Seq<NodeIndex>,
    count: nat,
    lane: int,
    held: NodeIndex,
)
    requires
        0 <= own < slots.len(),
        0 <= lane < slots.len(),
        lane != own,
        slots[lane] == Some(held),
    ensures
        reserved(slots, rows, own, parents, count).len() >= slots.len(),
        reserved(slots, rows, own, parents, count)[lane] == Some(held),
    decreases count,
{
    if count > 0 {
        let before = reserved(slots, rows, own, parents, (count - 1) as nat);
        lemma_reserved_keeps(slots, rows, own, parents, (count - 1) as nat, lane, held);
        lane_is_leftmost(before, parents[count - 1]);
    }
}

/// Placing another node leaves a reservation alone.
proof fn lemma_place_keeps(
    nodes: Seq<Node>,
    before: Progress,
    node: NodeIndex,
    row: usize,
    lane: int,
    held: NodeIndex,
)
    requires
        0 <= lane < before.slots.len(),
        before.slots[lane] == Some(held),
        node != held,
    ensures
        lane_for(before.slots, node) != lane,
        lane < place(nodes, before, node, row).slots.len(),
        place(nodes, before, node, row).slots[lane] == Some(held),
{
    lane_is_leftmost(before.slots, node);
    let own = lane_for(before.slots, node);
    let slots = claimed(before.slots, node).update(own, None);
    let rows = before.rows.update(node as int, row);
    let parents = nodes[node as int].parents;
    assert(slots[lane] == Some(held));
    lemma_reserved_keeps(slots, rows, own, parents, parents.len(), lane, held);
    lemma_trimmed(reserved(slots, rows, own, parents, parents.len()), lane, held);
}

/// The lane of a node is reserved for its first parent.
proof fn lemma_first_parent_reserved(
    slots: Slots,
    rows: Seq<usize>,
    own: int,
    parents: Seq<NodeIndex>,
    count: nat,
)
    requires
        0 <= own < slots.len(),
        count >= 1,
        rows[parents[0] as int] == Layout::UNPLACED,
    ensures
        reserved(slots, rows, own, parents, count).len() >= slots.len(),
        reserved(slots, rows, own, parents, count)[own] == Some(parents[0]),
    decreases count,
{
    let before = reserved(slots, rows, own, parents, (count - 1) as nat);
    if count > 1 {
        lemma_first_parent_reserved(slots, rows, own, parents, (count - 1) as nat);
        lane_is_leftmost(before, parents[count - 1]);
    } else {
        assert(before == slots) by {
            reveal_with_fuel(reserved, 2);
        }
    }
}

/// From the row below a node to the row of its first parent the lane of the node is
/// reserved for that parent.
proof fn lemma_lane_is_held(nodes: Seq<Node>, order: Seq<NodeIndex>, i: int, j: int, count: int)
    requires
        distinct_nodes(order, nodes.len()),
        order.len() <= usize::MAX,
        0 <= i < count <= j < order.len(),
        nodes[order[i] as int].parents.len() > 0,
        nodes[order[i] as int].parents[0] == order[j],
    ensures
        0 <= lane_at(nodes, order, i) < progress(nodes, order, count as nat).slots.len(),
        progress(nodes, order, count as nat).slots[lane_at(nodes, order, i)] == Some(order[j]),
    decreases count,
{
    let less = count - 1;
    let before = progress(nodes, order, less as nat);
    let node = order[less];
    let lane = lane_at(nodes, order, i);
    if less == i {
        lane_is_leftmost(before.slots, node);
        let slots = claimed(before.slots, node).update(lane, None);
        let rows = before.rows.update(node as int, less as usize);
        let parents = nodes[node as int].parents;
        lemma_progress(nodes, order, less as nat);
        assert(order[i] != order[j]);
        assert(order[j] < nodes.len());
        assert(before.rows[order[j] as int] == Layout::UNPLACED);
        lemma_first_parent_reserved(slots, rows, lane, parents, parents.len());
        lemma_trimmed(reserved(slots, rows, lane, parents, parents.len()), lane, order[j]);
    } else {
        lemma_lane_is_held(nodes, order, i, j, less);
        assert(order[less] != order[j]);
        lemma_place_keeps(nodes, before, node, less as usize, lane, order[j]);
    }
}

/// A first parent stands on the lane of its child or further left, and no commit stands
/// on that lane in the rows between the two.
pub proof fn first_parent_takes_over_the_lane(layout: Layout, nodes: Seq<Node>, child: int)
    requires
        places_all(layout, nodes),
        0 <= child < nodes.len(),
        nodes[child].parents.len() > 0,
    ensures
        layout.lane_of@[nodes[child].parents[0] as int] <= layout.lane_of@[child],
        forall|v: int|
            0 <= v < nodes.len() && layout.row_of@[child] < #[trigger] layout.row_of@[v]
                < layout.row_of@[nodes[child].parents[0] as int] ==> layout.lane_of@[v]
                != layout.lane_of@[child],
{
    let order = layout.order@;
    let parent = nodes[child].parents[0] as int;
    assert(parent < nodes.len());
    assert(names_parent(nodes, child, parent));
    nodes_are_placed_once(nodes, order);
    rows_are_the_inverse_of_the_order(layout, nodes);
    lemma_progress(nodes, order, order.len());
    let i = layout.row_of@[child] as int;
    let j = layout.row_of@[parent] as int;
    assert(order[i] == child && order[j] == parent);
    parents_follow_children(nodes, order, i, j);
    lemma_lane_is_held(nodes, order, i, j, j);
    let slots = progress(nodes, order, j as nat).slots;
    lane_is_leftmost(slots, order[j]);
    assert(slots.contains(Some(order[j])));
    assert(lane_at(nodes, order, j) <= lane_at(nodes, order, i));
    lanes_fit_the_width(layout, nodes, child);
    lane_is_leftmost(progress(nodes, order, i as nat).slots, order[i]);
    assert forall|v: int|
        0 <= v < nodes.len() && layout.row_of@[child] < #[trigger] layout.row_of@[v]
            < layout.row_of@[parent] implies layout.lane_of@[v] != layout.lane_of@[child] by {
        let k = layout.row_of@[v] as int;
        assert(order[k] == v);
        lemma_lane_is_held(nodes, order, i, j, k);
        lane_is_leftmost(progress(nodes, order, k as nat).slots, order[k]);
        lanes_fit_the_width(layout, nodes, v);
    }
}

/// Whether some node names `parent` in another place than the first.
pub open spec fn is_side_parent(nodes: Seq<Node>, parent: int) -> bool {
    exists|v: int, k: int|
        0 <= v < nodes.len() && 1 <= k < nodes[v].parents.len() && #[trigger] nodes[v].parents[k]
            == parent
}

proof fn lemma_trimmed_prefix(slots: Slots, lane: int)
    requires
        0 <= lane < trimmed(slots).len(),
    ensures
        lane < slots.len(),
        trimmed(slots)[lane] == slots[lane],
    decreases slots.len(),
{
    if slots.len() > 0 && slots.last() is None {
        lemma_trimmed_prefix(slots.drop_last(), lane);
    }
}

proof fn lemma_reserved_origin(
    slots: Slots,
    rows: Seq<usize>,
    own: int,
    parents: Seq<NodeIndex>,
    count: nat,
    lane: int,
    held: NodeIndex,
)
    requires
        0 <= own < slots.len(),
        count <= parents.len(),
        forall|k: int| 1 <= k < parents.len() ==> #[trigger] parents[k] != held,
        0 <= lane < reserved(slots, rows, own, parents, count).len(),
        reserved(slots, rows, own, parents, count)[lane] == Some(held),
    ensures
        lane < slots.len() && slots[lane] == Some(held) || lane == own && parents.len() > 0
            && parents[0] == held,
    decreases count,
{
    if count > 0 {
        let less = (count - 1) as nat;
        let before = reserved(slots, rows, own, parents, less);
        let parent = parents[less as int];
        if count > 1 {
            assert(parent != held);
        } else {
            assert(before == slots) by {
                reveal_with_fuel(reserved, 2);
            }
        }
        lane_is_leftmost(before, parent);
        if lane < before.len() && before[lane] == Some(held) {
            lemma_reserved_origin(slots, rows, own, parents, less, lane, held);
        }
    }
}

/// Where a node is nobody's side parent, the lanes reserved for it are those of the
/// children that have it as their first parent.
proof fn lemma_lanes_come_from_children(
    nodes: Seq<Node>,
    order: Seq<NodeIndex>,
    held: NodeIndex,
    count: nat,
    lane: int,
) -> (row: int)
    requires
        distinct_nodes(order, nodes.len()),
        count <= order.len() <= usize::MAX,
        !is_side_parent(nodes, held as int),
        0 <= lane < progress(nodes, order, count).slots.len(),
        progress(nodes, order, count).slots[lane] == Some(held),
    ensures
        0 <= row < count,
        nodes[order[row] as int].parents.len() > 0,
        nodes[order[row] as int].parents[0] == held,
        lane_at(nodes, order, row) == lane,
    decreases count,
{
    let less = (count - 1) as nat;
    let before = progress(nodes, order, less);
    let node = order[less as int];
    let own = lane_for(before.slots, node);
    lane_is_leftmost(before.slots, node);
    let cleared = claimed(before.slots, node);
    let slots = cleared.update(own, None);
    let rows = before.rows.update(node as int, less as usize);
    let parents = nodes[node as int].parents;
    assert(node < nodes.len());
    lemma_trimmed_prefix(reserved(slots, rows, own, parents, parents.len()), lane);
    assert forall|k: int| 1 <= k < parents.len() implies #[trigger] parents[k] != held by {
        if parents[k] == held {
            assert(nodes[node as int].parents[k] == held);
        }
    }
    lemma_reserved_origin(slots, rows, own, parents, parents.len(), lane, held);
    if lane < slots.len() && slots[lane] == Some(held) {
        assert(before.slots[lane] == Some(held));
        lemma_lanes_come_from_children(nodes, order, held, less, lane)
    } else {
        less as int
    }
}

/// A branch is a straight line: a commit that is nobody's side parent stands on the lane
/// of one of the children that have it as their first parent.
pub proof fn first_parent_keeps_the_lane(layout: Layout, nodes: Seq<Node>, parent: int)
    requires
        places_all(layout, nodes),
        0 <= parent < nodes.len(),
        !is_side_parent(nodes, parent),
        exists|v: int| 0 <= v < nodes.len() && #[trigger] names_parent(nodes, v, parent),
    ensures
        exists|v: int|
            0 <= v < nodes.len() && (#[trigger] nodes[v]).parents.len() > 0 && nodes[v].parents[0]
                == parent && layout.lane_of@[parent] == layout.lane_of@[v],
{
    let order = layout.order@;
    let child = choose|v: int| 0 <= v < nodes.len() && #[trigger] names_parent(nodes, v, parent);
    let k = choose|k: int|
        0 <= k < nodes[child].parents.len() && #[trigger] nodes[child].parents[k] == parent;
    assert(k == 0);
    nodes_are_placed_once(nodes, order);
    rows_are_the_inverse_of_the_order(layout, nodes);
    lemma_progress(nodes, order, order.len());
    let i = layout.row_of@[child] as int;
    let j = layout.row_of@[parent] as int;
    assert(order[i] == child && order[j] == parent);
    parents_follow_children(nodes, order, i, j);
    lemma_lane_is_held(nodes, order, i, j, j);
    let slots = progress(nodes, order, j as nat).slots;
    lane_is_leftmost(slots, order[j]);
    assert(slots[lane_at(nodes, order, i)] == Some(order[j]));
    assert(slots.contains(Some(order[j])));
    let lane = lane_at(nodes, order, j);
    let row = lemma_lanes_come_from_children(nodes, order, order[j], j as nat, lane);
    let v = order[row] as int;
    assert(nodes[v].parents[0] == parent);
    assert(layout.lane_of@[v] == layout.lane_of@[parent]);
}

/// A history without branches: each commit has the next one as its only parent.
pub open spec fn is_chain(nodes: Seq<Node>, order: Seq<NodeIndex>) -> bool {
    forall|k: int|
        #![trigger order[k]]
        0 <= k < order.len() ==> nodes[order[k] as int].parents == if k + 1 < order.len() {
            seq![order[k + 1]]
        } else {
            Seq::<NodeIndex>::empty()
        }
}

proof fn lemma_chain(nodes: Seq<Node>, order: Seq<NodeIndex>, count: nat)
    requires
        distinct_nodes(order, nodes.len()),
        is_chain(nodes, order),
        count <= order.len() <= usize::MAX,
    ensures
        progress(nodes, order, count).slots == if 0 < count < order.len() {
            seq![Some(order[count as int])]
        } else {
            Seq::<Option<NodeIndex>>::empty()
        },
        progress(nodes, order, count).width == if count == 0 {
            0nat
        } else {
            1nat
        },
        forall|k: int| 0 <= k < count ==> #[trigger] lane_at(nodes, order, k) == 0,
    decreases count,
{
    if count > 0 {
        let less = (count - 1) as nat;
        let before = progress(nodes, order, less);
        let node = order[less as int];
        lemma_chain(nodes, order, less);
        lemma_progress(nodes, order, less);
        lane_is_leftmost(before.slots, node);
        if less > 0 {
            assert(before.slots[0] == Some(node));
            assert(before.slots.contains(Some(node)));
        }
        assert(lane_for(before.slots, node) == 0);
        let slots = claimed(before.slots, node).update(0, None);
        assert(slots =~= seq![None::<NodeIndex>]);
        let rows = before.rows.update(node as int, less as usize);
        let parents = nodes[node as int].parents;
        let after = reserved(slots, rows, 0, parents, parents.len());
        reveal_with_fuel(reserved, 2);
        reveal_with_fuel(trimmed, 2);
        if count < order.len() {
            let next = order[count as int];
            assert(next < nodes.len());
            assert(next != node);
            assert(before.rows[next as int] == Layout::UNPLACED);
            assert(after =~= seq![Some(next)]);
        } else {
            assert(after =~= seq![None::<NodeIndex>]);
            assert(trimmed(after) =~= Seq::<Option<NodeIndex>>::empty()) by {
                assert(after.drop_last() =~= Seq::<Option<NodeIndex>>::empty());
            }
        }
    }
}

/// A history without branches is drawn on one lane.
pub proof fn chain_uses_one_lane(layout: Layout, nodes: Seq<Node>)
    requires
        places_all(layout, nodes),
        is_chain(nodes, layout.order@),
        nodes.len() > 0,
    ensures
        layout.lane_count == 1,
        forall|v: int| 0 <= v < nodes.len() ==> #[trigger] layout.lane_of@[v] == 0,
        forall|i: int|
            0 <= i < layout.edges@.len() ==> (#[trigger] layout.edges@[i]).child_lane
                == layout.edges@[i].parent_lane,
{
    let order = layout.order@;
    nodes_are_placed_once(nodes, order);
    lemma_chain(nodes, order, order.len());
    assert forall|v: int| 0 <= v < nodes.len() implies #[trigger] layout.lane_of@[v] == 0 by {
        lanes_fit_the_width(layout, nodes, v);
    }
    assert forall|i: int| 0 <= i < layout.edges@.len() implies (
    #[trigger] layout.edges@[i]).child_lane == layout.edges@[i].parent_lane by {
        edges_run_down(layout, nodes, i);
    }
}

/// The line from a node to one of its parents.
pub open spec fn line_between(layout: Layout, child: NodeIndex, parent: NodeIndex) -> Edge {
    Edge {
        child_row: layout.row_of@[child as int],
        child_lane: layout.lane_of@[child as int],
        parent_row: layout.row_of@[parent as int],
        parent_lane: layout.lane_of@[parent as int],
    }
}

/// The lines from a node to its parents, in their order.
pub open spec fn lines_from(layout: Layout, nodes: Seq<Node>, child: NodeIndex) -> Seq<Edge> {
    nodes[child as int].parents.map_values(
        |parent: NodeIndex| line_between(layout, child, parent),
    )
}

proof fn lemma_lines_from(layout: Layout, nodes: Seq<Node>, child: NodeIndex, count: nat)
    requires
        places_all(layout, nodes),
        child < nodes.len(),
        count <= nodes[child as int].parents.len(),
    ensures
        edges_from(
            child as int,
            nodes[child as int].parents,
            layout.row_of@,
            layout.lane_of@,
            count,
        ) == lines_from(layout, nodes, child).take(count as int),
    decreases count,
{
    let parents = nodes[child as int].parents;
    let drawn = edges_from(child as int, parents, layout.row_of@, layout.lane_of@, count);
    if count > 0 {
        let less = (count - 1) as nat;
        lemma_lines_from(layout, nodes, child, less);
        rows_are_the_inverse_of_the_order(layout, nodes);
        let parent = parents[less as int];
        assert(parent < nodes.len());
        assert(layout.row_of@[parent as int] < nodes.len());
    }
    assert(drawn =~= lines_from(layout, nodes, child).take(count as int));
}

proof fn lemma_lines_among(layout: Layout, nodes: Seq<Node>, count: nat)
    requires
        places_all(layout, nodes),
        count <= nodes.len(),
    ensures
        edges_among(nodes, layout.order@, layout.row_of@, layout.lane_of@, count)
            == layout.order@.take(count as int).map_values(
            |child: NodeIndex| lines_from(layout, nodes, child),
        ).flatten(),
    decreases count,
{
    let view = |child: NodeIndex| lines_from(layout, nodes, child);
    let parts = layout.order@.take(count as int).map_values(view);
    parts.lemma_flatten_and_flatten_alt_are_equivalent();
    if count > 0 {
        let less = (count - 1) as nat;
        let child = layout.order@[less as int];
        lemma_lines_among(layout, nodes, less);
        nodes_are_placed_once(nodes, layout.order@);
        let fewer = layout.order@.take(less as int).map_values(view);
        fewer.lemma_flatten_and_flatten_alt_are_equivalent();
        let own = nodes[child as int].parents;
        lemma_lines_from(layout, nodes, child, own.len());
        assert(lines_from(layout, nodes, child).take(own.len() as int) =~= lines_from(
            layout,
            nodes,
            child,
        ));
        assert(parts.drop_last() =~= fewer);
        assert(parts.last() == lines_from(layout, nodes, child));
    } else {
        assert(parts =~= Seq::empty());
    }
}

/// Each parent that a node names is drawn as one line, no more and no fewer: row by row, and
/// for each row in the order of its parents.
pub proof fn each_parent_is_one_line(layout: Layout, nodes: Seq<Node>)
    requires
        places_all(layout, nodes),
    ensures
        layout.edges@ == layout.order@.map_values(
            |child: NodeIndex| lines_from(layout, nodes, child),
        ).flatten(),
{
    lemma_lines_among(layout, nodes, nodes.len());
    assert(layout.order@.take(nodes.len() as int) =~= layout.order@);
}

/// Whether a slot was not there, or not reserved for this node.
spec fn is_new_for(slots: Slots, i: int, node: NodeIndex) -> bool {
    !(0 <= i < slots.len() && slots[i] == Some(node))
}

/// Whether a node is one of the side parents among the first `count`, and had no lane.
spec fn needs_lane(slots: Slots, parents: Seq<NodeIndex>, count: nat, node: NodeIndex) -> bool {
    &&& !slots.contains(Some(node))
    &&& exists|k: int| 1 <= k < count && #[trigger] parents[k] == node
}

proof fn lemma_new_lanes(
    slots: Slots,
    rows: Seq<usize>,
    lane: int,
    parents: Seq<NodeIndex>,
    count: nat,
)
    requires
        0 <= lane < slots.len(),
        slots[lane] is None,
        count <= parents.len(),
        forall|k: int| 0 <= k < parents.len() ==> rows[(#[trigger] parents[k]) as int]
            == Layout::UNPLACED,
    ensures
        ({
            let after = reserved(slots, rows, lane, parents, count);
            &&& after.len() >= slots.len()
            &&& forall|i: int|
                0 <= i < slots.len() && (#[trigger] slots[i]) is Some ==> after[i] == slots[i]
            &&& count > 0 ==> after[lane] == Some(parents[0])
            &&& count == 0 ==> after[lane] is None
            &&& forall|i: int|
                0 <= i < after.len() && i != lane && (#[trigger] after[i]) is Some && is_new_for(
                    slots,
                    i,
                    after[i]->0,
                ) ==> needs_lane(slots, parents, count, after[i]->0) && parents[0] != after[i]->0
            &&& forall|i: int, j: int|
                0 <= i < after.len() && 0 <= j < after.len() && i != lane && j != lane
                    && #[trigger] after[i] is Some && #[trigger] after[j] == after[i] && is_new_for(
                    slots,
                    i,
                    after[i]->0,
                ) ==> i == j
        }),
    decreases count,
{
    let after = reserved(slots, rows, lane, parents, count);
    if count > 0 {
        let less = (count - 1) as nat;
        let before = reserved(slots, rows, lane, parents, less);
        lemma_new_lanes(slots, rows, lane, parents, less);
        let parent = parents[less as int];
        assert(rows[parent as int] == Layout::UNPLACED);
        lane_is_leftmost(before, parent);
        let place = lane_for(before, parent);
        if count == 1 {
            assert(before == slots);
        } else if before.contains(Some(parent)) {
            assert(after == before);
            assert forall|i: int|
                0 <= i < after.len() && i != lane && (#[trigger] after[i]) is Some && is_new_for(
                    slots,
                    i,
                    after[i]->0,
                ) implies needs_lane(slots, parents, count, after[i]->0) && parents[0]
                != after[i]->0 by {
                assert(needs_lane(slots, parents, less, after[i]->0));
                let k = choose|k: int| 1 <= k < less && #[trigger] parents[k] == after[i]->0;
                assert(1 <= k < count && parents[k] == after[i]->0);
            }
        } else {
            assert(before[lane] == Some(parents[0]));
            assert(place != lane);
            assert forall|i: int| 0 <= i < before.len() implies #[trigger] before[i] != Some(
                parent,
            ) by {
                if before[i] == Some(parent) {
                    assert(before.contains(Some(parent)));
                }
            }
            assert(!slots.contains(Some(parent))) by {
                if slots.contains(Some(parent)) {
                    let i = choose|i: int| 0 <= i < slots.len() && slots[i] == Some(parent);
                    assert(before[i] == slots[i]);
                }
            }
            assert(after[place] == Some(parent));
            assert forall|i: int| 0 <= i < before.len() && i != place implies after[i]
                == before[i] by {}
            assert(parents[less as int] == parent && 1 <= less < count);
            assert(needs_lane(slots, parents, count, parent));
            assert forall|i: int|
                0 <= i < after.len() && i != lane && (#[trigger] after[i]) is Some && is_new_for(
                    slots,
                    i,
                    after[i]->0,
                ) implies needs_lane(slots, parents, count, after[i]->0) && parents[0]
                != after[i]->0 by {
                if i != place {
                    assert(after[i] == before[i]);
                    assert(needs_lane(slots, parents, less, after[i]->0));
                    let k = choose|k: int| 1 <= k < less && #[trigger] parents[k] == after[i]->0;
                    assert(1 <= k < count && parents[k] == after[i]->0);
                }
            }
        }
    }
}

/// Below a node its first parent takes over its lane, lanes that were taken stay so, and a
/// lane is taken for another parent only if that parent has none yet, and only one.
pub proof fn lanes_are_taken_where_needed(
    slots: Slots,
    rows: Seq<usize>,
    lane: int,
    parents: Seq<NodeIndex>,
    i: int,
    j: int,
)
    requires
        0 <= lane < slots.len(),
        slots[lane] is None,
        parents.len() > 0,
        forall|k: int| 0 <= k < parents.len() ==> rows[(#[trigger] parents[k]) as int]
            == Layout::UNPLACED,
    ensures
        ({
            let after = reserved(slots, rows, lane, parents, parents.len());
            &&& after[lane] == Some(parents[0])
            &&& 0 <= i < slots.len() && slots[i] is Some ==> after[i] == slots[i]
            &&& 0 <= i < after.len() && i != lane && after[i] is Some && !(i < slots.len()
                && slots[i] == after[i]) ==> parents.contains(after[i]->0) && parents[0]
                != after[i]->0 && !slots.contains(after[i])
            &&& 0 <= i < after.len() && 0 <= j < after.len() && i != j && i != lane && j != lane
                && after[i] is Some && after[j] == after[i] ==> i < slots.len() && slots[i]
                == after[i]
        }),
{
    let after = reserved(slots, rows, lane, parents, parents.len());
    lemma_new_lanes(slots, rows, lane, parents, parents.len());
    if 0 <= i < after.len() && i != lane && after[i] is Some && !(i < slots.len() && slots[i]
        == after[i]) {
        assert(is_new_for(slots, i, after[i]->0));
        let k = choose|k: int| 1 <= k < parents.len() && #[trigger] parents[k] == after[i]->0;
        assert(parents[k] == after[i]->0);
        if 0 <= j < after.len() && i != j && j != lane && after[j] == after[i] {
            assert(after[i] is Some && after[j] == after[i]);
            assert(false);
        }
    }
}

} // verus!
