//! What holds of every order of a graph.
use vstd::prelude::*;

use crate::dag::{valid_nodes, Node, NodeIndex};
use crate::order::{
    distinct_nodes, each_was_next, goes_first, goes_first_is_total, is_next, names_parent,
    newest_first, ready,
};

verus! {

/// Each node is placed once.
pub proof fn nodes_are_placed_once(nodes: Seq<Node>, order: Seq<NodeIndex>)
    requires
        each_was_next(nodes, order),
    ensures
        distinct_nodes(order, nodes.len()),
{
    assert forall|k: int| 0 <= k < order.len() implies #[trigger] order[k] < nodes.len() by {
        assert(is_next(nodes, order.take(k), order[k] as int));
    }
    assert forall|i: int, j: int|
        0 <= i < order.len() && 0 <= j < order.len() && i != j implies order[i] != order[j] by {
        if i < j {
            assert(is_next(nodes, order.take(j), order[j] as int));
            assert(order.take(j)[i] == order[i]);
        } else {
            assert(is_next(nodes, order.take(i), order[i] as int));
            assert(order.take(i)[j] == order[j]);
        }
    }
}

/// A parent comes after each of its children.
pub proof fn parents_follow_children(nodes: Seq<Node>, order: Seq<NodeIndex>, i: int, j: int)
    requires
        each_was_next(nodes, order),
        0 <= i < order.len(),
        0 <= j < order.len(),
        names_parent(nodes, order[i] as int, order[j] as int),
    ensures
        i < j,
{
    nodes_are_placed_once(nodes, order);
    assert(is_next(nodes, order.take(j), order[j] as int));
    assert(order[i] < nodes.len());
    assert(order.take(j).contains(order[i]));
    let k = choose|k: int| 0 <= k < order.take(j).len() && order.take(j)[k] == order[i];
    assert(order[k] == order[i]);
}

/// A placed node has all of its children before it.
pub proof fn children_are_placed(nodes: Seq<Node>, order: Seq<NodeIndex>, child: int, k: int)
    requires
        each_was_next(nodes, order),
        0 <= k < order.len(),
        0 <= child < nodes.len() <= usize::MAX,
        names_parent(nodes, child, order[k] as int),
    ensures
        order.take(k).contains(child as usize),
{
    assert(is_next(nodes, order.take(k), order[k] as int));
}

proof fn lemma_full_order(order: Seq<NodeIndex>, count: nat)
    requires
        distinct_nodes(order, count),
        count <= usize::MAX,
    ensures
        order.len() <= count,
        order.len() == count <==> forall|v: NodeIndex| v < count ==> #[trigger] order.contains(v),
{
    let as_ints = order.map_values(|v: usize| v as int);
    assert(as_ints.no_duplicates());
    as_ints.unique_seq_to_set();
    vstd::set_lib::lemma_int_range(0, count as int);
    let range = vstd::set_lib::set_int_range(0, count as int);
    let set = as_ints.to_set();
    assert(set.subset_of(range));
    vstd::set_lib::lemma_len_subset(set, range);
    if order.len() == count {
        vstd::set_lib::lemma_subset_equality(set, range);
        assert forall|v: NodeIndex| v < count implies #[trigger] order.contains(v) by {
            assert(range.contains(v as int));
            let i = choose|i: int| 0 <= i < as_ints.len() && as_ints[i] == v as int;
            assert(order[i] == v);
        }
    }
    if forall|v: NodeIndex| v < count ==> #[trigger] order.contains(v) {
        assert forall|v: int| range.contains(v) implies #[trigger] set.contains(v) by {
            assert(order.contains(v as usize));
            let i = choose|i: int| 0 <= i < order.len() && order[i] == v as usize;
            assert(as_ints[i] == v);
        }
        assert(set =~= range);
    }
}

/// An order of full length holds every node.
pub proof fn full_order_holds_every_node(nodes: Seq<Node>, order: Seq<NodeIndex>)
    requires
        each_was_next(nodes, order),
        nodes.len() <= usize::MAX,
    ensures
        order.len() <= nodes.len(),
        order.len() == nodes.len() <==> forall|v: NodeIndex|
            v < nodes.len() ==> #[trigger] order.contains(v),
{
    nodes_are_placed_once(nodes, order);
    lemma_full_order(order, nodes.len());
}

/// The nodes can be numbered so that each child has a smaller number than its parents.
pub open spec fn can_be_numbered(nodes: Seq<Node>) -> bool {
    exists|number: spec_fn(int) -> int| #[trigger] numbers_children_first(nodes, number)
}

pub open spec fn numbers_children_first(nodes: Seq<Node>, number: spec_fn(int) -> int) -> bool {
    forall|child: int, parent: int|
        0 <= child < nodes.len() && 0 <= parent < nodes.len() && #[trigger] names_parent(
            nodes,
            child,
            parent,
        ) ==> number(child) < number(parent)
}

/// The unplaced node with the smallest number.
proof fn lemma_smallest_unplaced(
    nodes: Seq<Node>,
    order: Seq<NodeIndex>,
    number: spec_fn(int) -> int,
    count: nat,
) -> (least: int)
    requires
        count <= nodes.len() <= usize::MAX,
        exists|v: int| 0 <= v < count && !#[trigger] order.contains(v as usize),
    ensures
        0 <= least < count,
        !order.contains(least as usize),
        forall|v: int|
            0 <= v < count && !#[trigger] order.contains(v as usize) ==> number(least) <= number(v),
    decreases count,
{
    let last = count - 1;
    if exists|v: int| 0 <= v < last && !#[trigger] order.contains(v as usize) {
        let least = lemma_smallest_unplaced(nodes, order, number, last as nat);
        if !order.contains(last as usize) && number(last) < number(least) {
            last
        } else {
            least
        }
    } else {
        let v = choose|v: int| 0 <= v < count && !#[trigger] order.contains(v as usize);
        assert(v == last);
        last
    }
}

/// Every node is placed exactly if the graph has no cycle: if its nodes can be numbered
/// so that each child comes before its parents.
pub proof fn all_placed_iff_acyclic(nodes: Seq<Node>, order: Seq<NodeIndex>)
    requires
        newest_first(nodes, order),
        nodes.len() <= usize::MAX,
    ensures
        order.len() == nodes.len() <==> can_be_numbered(nodes),
{
    full_order_holds_every_node(nodes, order);
    nodes_are_placed_once(nodes, order);
    if order.len() == nodes.len() {
        let number = |v: int| order.index_of(v as usize);
        assert(numbers_children_first(nodes, number)) by {
            assert forall|child: int, parent: int|
                0 <= child < nodes.len() && 0 <= parent < nodes.len() && #[trigger] names_parent(
                    nodes,
                    child,
                    parent,
                ) implies number(child) < number(parent) by {
                assert(order.contains(child as usize));
                assert(order.contains(parent as usize));
                parents_follow_children(
                    nodes,
                    order,
                    order.index_of(child as usize),
                    order.index_of(parent as usize),
                );
            }
        }
    }
    if can_be_numbered(nodes) && order.len() != nodes.len() {
        let number = choose|number: spec_fn(int) -> int| #[trigger]
            numbers_children_first(nodes, number);
        let missing = choose|v: NodeIndex| v < nodes.len() && !#[trigger] order.contains(v);
        assert(!order.contains((missing as int) as usize));
        let least = lemma_smallest_unplaced(nodes, order, number, nodes.len());
        assert(ready(nodes, order, least)) by {
            assert forall|child: int|
                0 <= child < nodes.len() && #[trigger] names_parent(
                    nodes,
                    child,
                    least,
                ) implies order.contains(child as usize) by {
                assert(number(child) < number(least));
            }
        }
    }
}

/// Nodes that lead back to the first of them, each a parent of the one before.
pub open spec fn is_cycle(nodes: Seq<Node>, walk: Seq<int>) -> bool {
    &&& walk.len() >= 2
    &&& walk[0] == walk.last()
    &&& forall|i: int| #![trigger walk[i]] 0 <= i < walk.len() ==> 0 <= walk[i] < nodes.len()
    &&& forall|i: int|
        #![trigger walk[i]]
        0 <= i < walk.len() - 1 ==> names_parent(nodes, walk[i], walk[i + 1])
}

proof fn lemma_number_grows(
    nodes: Seq<Node>,
    number: spec_fn(int) -> int,
    walk: Seq<int>,
    i: int,
)
    requires
        numbers_children_first(nodes, number),
        is_cycle(nodes, walk),
        0 < i < walk.len(),
    ensures
        number(walk[0]) < number(walk[i]),
    decreases i,
{
    assert(names_parent(nodes, walk[i - 1], walk[i]));
    assert(0 <= walk[i] < nodes.len());
    if i > 1 {
        lemma_number_grows(nodes, number, walk, i - 1);
    }
}

/// A graph with a cycle cannot be ordered whole.
pub proof fn cycles_are_not_placed(nodes: Seq<Node>, order: Seq<NodeIndex>, walk: Seq<int>)
    requires
        newest_first(nodes, order),
        nodes.len() <= usize::MAX,
        is_cycle(nodes, walk),
    ensures
        order.len() < nodes.len(),
{
    full_order_holds_every_node(nodes, order);
    all_placed_iff_acyclic(nodes, order);
    if order.len() == nodes.len() {
        let number = choose|number: spec_fn(int) -> int| #[trigger]
            numbers_children_first(nodes, number);
        lemma_number_grows(nodes, number, walk, walk.len() - 1);
    }
}

/// The oids of a node's parents.
pub open spec fn parent_oids(nodes: Seq<Node>, node: int) -> Seq<Seq<char>> {
    Seq::new(nodes[node].parents.len(), |k: int| nodes[nodes[node].parents[k] as int].oid)
}

/// Whether two nodes, each in its own graph, are the same commit.
pub open spec fn same_commit(a: Seq<Node>, v: int, b: Seq<Node>, w: int) -> bool {
    &&& a[v].oid == b[w].oid
    &&& a[v].timestamp == b[w].timestamp
    &&& parent_oids(a, v) == parent_oids(b, w)
}

/// Whether a commit of `a` is also in `b`.
pub open spec fn occurs_in(a: Seq<Node>, v: int, b: Seq<Node>) -> bool {
    exists|w: int| 0 <= w < b.len() && #[trigger] same_commit(a, v, b, w)
}

/// Two graphs over the same commits, whose indices may differ.
pub open spec fn same_graph(a: Seq<Node>, b: Seq<Node>) -> bool {
    &&& forall|v: int| 0 <= v < a.len() ==> #[trigger] occurs_in(a, v, b)
    &&& forall|w: int| 0 <= w < b.len() ==> #[trigger] occurs_in(b, w, a)
}

/// The oids of the nodes in an order.
pub open spec fn oids_of(nodes: Seq<Node>, order: Seq<NodeIndex>) -> Seq<Seq<char>> {
    Seq::new(order.len(), |k: int| nodes[order[k] as int].oid)
}

/// The same commit names the same parents.
proof fn lemma_same_parent(
    a: Seq<Node>,
    child: int,
    parent: int,
    b: Seq<Node>,
    other_child: int,
    other_parent: int,
)
    requires
        valid_nodes(a),
        valid_nodes(b),
        0 <= child < a.len(),
        0 <= parent < a.len(),
        0 <= other_child < b.len(),
        0 <= other_parent < b.len(),
        same_commit(a, child, b, other_child),
        a[parent].oid == b[other_parent].oid,
        names_parent(a, child, parent),
    ensures
        names_parent(b, other_child, other_parent),
{
    let k = choose|k: int| 0 <= k < a[child].parents.len() && #[trigger] a[child].parents[k] == parent;
    assert(parent_oids(a, child)[k] == a[parent].oid);
    assert(b[other_child].parents.len() == parent_oids(b, other_child).len());
    assert(a[child].parents.len() == parent_oids(a, child).len());
    assert(parent_oids(b, other_child)[k] == b[other_parent].oid);
    let named = b[other_child].parents[k];
    assert(named < b.len());
    assert(b[named as int].oid == b[other_parent].oid);
    assert(named == other_parent);
}

/// The same commit is ready in both graphs where the same commits are placed.
proof fn lemma_same_ready(
    a: Seq<Node>,
    placed: Seq<NodeIndex>,
    v: int,
    b: Seq<Node>,
    other_placed: Seq<NodeIndex>,
    w: int,
)
    requires
        valid_nodes(a),
        valid_nodes(b),
        a.len() <= usize::MAX,
        b.len() <= usize::MAX,
        same_graph(a, b),
        distinct_nodes(placed, a.len()),
        distinct_nodes(other_placed, b.len()),
        oids_of(a, placed) == oids_of(b, other_placed),
        0 <= w < b.len(),
        same_commit(a, v, b, w),
        ready(a, placed, v),
    ensures
        ready(b, other_placed, w),
{
    assert(placed.len() == oids_of(a, placed).len());
    assert(other_placed.len() == oids_of(b, other_placed).len());
    if other_placed.contains(w as usize) {
        let k = choose|k: int| 0 <= k < other_placed.len() && other_placed[k] == w as usize;
        assert(oids_of(b, other_placed)[k] == b[w].oid);
        assert(oids_of(a, placed)[k] == a[placed[k] as int].oid);
        assert(placed[k] < a.len());
        assert(a[placed[k] as int].oid == a[v].oid);
        assert(placed[k] == v);
        assert(placed.contains(v as usize));
    }
    assert forall|child: int|
        0 <= child < b.len() && #[trigger] names_parent(b, child, w) implies other_placed.contains(
        child as usize,
    ) by {
        assert(occurs_in(b, child, a));
        let twin = choose|u: int| 0 <= u < a.len() && #[trigger] same_commit(b, child, a, u);
        lemma_same_parent(b, child, w, a, twin, v);
        assert(placed.contains(twin as usize));
        let k = choose|k: int| 0 <= k < placed.len() && placed[k] == twin as usize;
        assert(oids_of(a, placed)[k] == a[twin].oid);
        assert(oids_of(b, other_placed)[k] == b[other_placed[k] as int].oid);
        assert(other_placed[k] < b.len());
        assert(b[other_placed[k] as int].oid == b[child].oid);
        assert(other_placed[k] == child);
    }
}

proof fn lemma_same_next(
    a: Seq<Node>,
    placed: Seq<NodeIndex>,
    v: int,
    b: Seq<Node>,
    other_placed: Seq<NodeIndex>,
    w: int,
)
    requires
        valid_nodes(a),
        valid_nodes(b),
        a.len() <= usize::MAX,
        b.len() <= usize::MAX,
        same_graph(a, b),
        distinct_nodes(placed, a.len()),
        distinct_nodes(other_placed, b.len()),
        oids_of(a, placed) == oids_of(b, other_placed),
        is_next(a, placed, v),
        is_next(b, other_placed, w),
    ensures
        a[v].oid == b[w].oid,
{
    assert(occurs_in(a, v, b));
    let v_twin = choose|u: int| 0 <= u < b.len() && #[trigger] same_commit(a, v, b, u);
    lemma_same_ready(a, placed, v, b, other_placed, v_twin);
    assert(occurs_in(b, w, a));
    let w_twin = choose|u: int| 0 <= u < a.len() && #[trigger] same_commit(b, w, a, u);
    lemma_same_ready(b, other_placed, w, a, placed, w_twin);
    if v_twin != w {
        assert(goes_first(b, w, v_twin));
        assert(w_twin != v) by {
            if w_twin == v {
                assert(b[v_twin].oid == b[w].oid);
            }
        }
        assert(goes_first(a, v, w_twin));
        goes_first_is_total(a, v, w_twin);
        assert(goes_first(a, w_twin, v));
    }
}

proof fn lemma_same_prefix(
    a: Seq<Node>,
    order: Seq<NodeIndex>,
    b: Seq<Node>,
    other_order: Seq<NodeIndex>,
    count: nat,
)
    requires
        valid_nodes(a),
        valid_nodes(b),
        a.len() <= usize::MAX,
        b.len() <= usize::MAX,
        same_graph(a, b),
        newest_first(a, order),
        newest_first(b, other_order),
        count <= order.len(),
    ensures
        count <= other_order.len(),
        oids_of(a, order.take(count as int)) == oids_of(b, other_order.take(count as int)),
    decreases count,
{
    if count == 0 {
        assert(oids_of(a, order.take(0)) =~= oids_of(b, other_order.take(0)));
    } else {
        let less = (count - 1) as nat;
        lemma_same_prefix(a, order, b, other_order, less);
        nodes_are_placed_once(a, order);
        nodes_are_placed_once(b, other_order);
        let placed = order.take(less as int);
        let other_placed = other_order.take(less as int);
        let v = order[less as int] as int;
        assert(is_next(a, placed, v));
        assert(occurs_in(a, v, b));
        let twin = choose|u: int| 0 <= u < b.len() && #[trigger] same_commit(a, v, b, u);
        lemma_same_ready(a, placed, v, b, other_placed, twin);
        if less == other_order.len() {
            assert(other_placed =~= other_order);
            assert(!ready(b, other_order, twin));
        }
        let w = other_order[less as int] as int;
        assert(is_next(b, other_placed, w));
        lemma_same_next(a, placed, v, b, other_placed, w);
        let left = oids_of(a, order.take(count as int));
        let right = oids_of(b, other_order.take(count as int));
        assert forall|k: int| 0 <= k < count implies left[k] == right[k] by {
            if k < less {
                assert(oids_of(a, placed)[k] == left[k]);
                assert(oids_of(b, other_placed)[k] == right[k]);
            }
        }
        assert(left =~= right);
    }
}

/// The order depends on the commits alone: two graphs over the same commits, read in
/// whatever order, place the same commits in the same rows.
pub proof fn order_ignores_reading_order(
    a: Seq<Node>,
    order: Seq<NodeIndex>,
    b: Seq<Node>,
    other_order: Seq<NodeIndex>,
)
    requires
        valid_nodes(a),
        valid_nodes(b),
        a.len() <= usize::MAX,
        b.len() <= usize::MAX,
        same_graph(a, b),
        newest_first(a, order),
        newest_first(b, other_order),
    ensures
        oids_of(a, order) == oids_of(b, other_order),
{
    lemma_same_prefix(a, order, b, other_order, order.len());
    lemma_same_prefix(b, other_order, a, order, other_order.len());
    assert(order.take(order.len() as int) =~= order);
    assert(other_order.take(order.len() as int) =~= other_order);
}

/// A graph has one order.
pub proof fn order_is_unique(nodes: Seq<Node>, order: Seq<NodeIndex>, other_order: Seq<NodeIndex>)
    requires
        valid_nodes(nodes),
        nodes.len() <= usize::MAX,
        newest_first(nodes, order),
        newest_first(nodes, other_order),
    ensures
        order == other_order,
{
    assert forall|v: int| 0 <= v < nodes.len() implies #[trigger] occurs_in(nodes, v, nodes) by {
        assert(same_commit(nodes, v, nodes, v));
    }
    order_ignores_reading_order(nodes, order, nodes, other_order);
    nodes_are_placed_once(nodes, order);
    nodes_are_placed_once(nodes, other_order);
    let left = oids_of(nodes, order);
    let right = oids_of(nodes, other_order);
    assert(order.len() == left.len());
    assert(other_order.len() == right.len());
    assert forall|k: int| 0 <= k < order.len() implies order[k] == other_order[k] by {
        assert(left[k] == right[k]);
        assert(order[k] < nodes.len());
        assert(other_order[k] < nodes.len());
    }
    assert(order =~= other_order);
}

} // verus!
