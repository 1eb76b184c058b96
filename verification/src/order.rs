//! The order in which commits are drawn, newest first, parents below their children.
use vstd::prelude::*;

use crate::dag::{valid_nodes, CommitGraph, Node, NodeIndex};
use crate::layout::{reports_cycle, LayoutError};
use crate::text;
use crate::text::{precedes, precedes_is_total, precedes_is_transitive};

verus! {

/// Whether `child` names `parent` among its parents.
pub open spec fn names_parent(nodes: Seq<Node>, child: int, parent: int) -> bool {
    exists|k: int| 0 <= k < nodes[child].parents.len() && #[trigger] nodes[child].parents[k] == parent
}

/// Whether `node` is still to be placed and all of its children are placed.
pub open spec fn ready(nodes: Seq<Node>, placed: Seq<NodeIndex>, node: int) -> bool {
    &&& 0 <= node < nodes.len()
    &&& !placed.contains(node as usize)
    &&& forall|child: int|
        0 <= child < nodes.len() && #[trigger] names_parent(nodes, child, node) ==> placed.contains(
            child as usize,
        )
}

/// Whether `a` is drawn before `b` where both could be next: the later commit first,
/// and of two with the same time the one with the smaller oid.
pub open spec fn goes_first(nodes: Seq<Node>, a: int, b: int) -> bool {
    ||| nodes[a].timestamp > nodes[b].timestamp
    ||| nodes[a].timestamp == nodes[b].timestamp && precedes(nodes[a].oid, nodes[b].oid)
}

/// Whether `node` is the one to place after `placed`.
pub open spec fn is_next(nodes: Seq<Node>, placed: Seq<NodeIndex>, node: int) -> bool {
    &&& ready(nodes, placed, node)
    &&& forall|other: int| #[trigger]
        ready(nodes, placed, other) && other != node ==> goes_first(nodes, node, other)
}

/// Each node was the one to place after those before it.
pub open spec fn each_was_next(nodes: Seq<Node>, order: Seq<NodeIndex>) -> bool {
    forall|k: int| #![trigger order[k]] 0 <= k < order.len() ==> is_next(nodes, order.take(k), order[k] as int)
}

/// The order of a graph: each node was the next to place, and none is left to place.
///
/// A graph with a cycle has such an order too: one that stops before the nodes on the
/// cycle and those below it.
pub open spec fn newest_first(nodes: Seq<Node>, order: Seq<NodeIndex>) -> bool {
    &&& each_was_next(nodes, order)
    &&& forall|node: int| !#[trigger] ready(nodes, order, node)
}

/// The number of times `parent` occurs among the first `count` parents.
spec fn occurrences(parents: Seq<NodeIndex>, parent: int, count: nat) -> nat
    decreases count,
{
    if count == 0 {
        0
    } else {
        occurrences(parents, parent, (count - 1) as nat) + if parents[count - 1] == parent {
            1nat
        } else {
            0nat
        }
    }
}

/// The number of parent entries that name `parent`, in those of the first `count`
/// nodes that are not placed.
spec fn pending(nodes: Seq<Node>, placed: Seq<NodeIndex>, parent: int, count: nat) -> nat
    decreases count,
{
    if count == 0 {
        0
    } else {
        let last = count - 1;
        pending(nodes, placed, parent, last as nat) + if placed.contains(last as usize) {
            0
        } else {
            occurrences(nodes[last].parents, parent, nodes[last].parents.len())
        }
    }
}

proof fn lemma_occurrences_bound(parents: Seq<NodeIndex>, parent: int, count: nat)
    requires
        count <= parents.len(),
    ensures
        occurrences(parents, parent, count) <= count,
    decreases count,
{
    if count > 0 {
        lemma_occurrences_bound(parents, parent, (count - 1) as nat);
    }
}

proof fn lemma_occurrences_zero(parents: Seq<NodeIndex>, parent: int, count: nat)
    requires
        count <= parents.len(),
    ensures
        occurrences(parents, parent, count) == 0 <==> forall|k: int|
            0 <= k < count ==> #[trigger] parents[k] != parent,
    decreases count,
{
    if count > 0 {
        let less = (count - 1) as nat;
        lemma_occurrences_zero(parents, parent, less);
        if occurrences(parents, parent, less) == 0 && parents[less as int] != parent {
            assert forall|k: int| 0 <= k < count implies #[trigger] parents[k] != parent by {
                if k < less {
                }
            }
        }
    }
}

proof fn lemma_occurrences_grow(parents: Seq<NodeIndex>, parent: int, a: nat, b: nat)
    requires
        a <= b <= parents.len(),
    ensures
        occurrences(parents, parent, a) <= occurrences(parents, parent, b),
    decreases b,
{
    if a < b {
        lemma_occurrences_grow(parents, parent, a, (b - 1) as nat);
    }
}

proof fn lemma_pending_zero(nodes: Seq<Node>, placed: Seq<NodeIndex>, parent: int, count: nat)
    requires
        count <= nodes.len(),
    ensures
        pending(nodes, placed, parent, count) == 0 <==> forall|child: int|
            0 <= child < count && #[trigger] names_parent(nodes, child, parent) ==> placed.contains(
                child as usize,
            ),
    decreases count,
{
    if count > 0 {
        let less = (count - 1) as nat;
        let own = nodes[less as int].parents;
        lemma_pending_zero(nodes, placed, parent, less);
        lemma_occurrences_zero(own, parent, own.len());
        let all = forall|child: int|
            0 <= child < count && #[trigger] names_parent(nodes, child, parent) ==> placed.contains(
                child as usize,
            );
        if pending(nodes, placed, parent, count) == 0 {
            assert forall|child: int|
                0 <= child < count && #[trigger] names_parent(nodes, child, parent) implies placed.contains(
                child as usize,
            ) by {
                if child < less {
                } else {
                    let k = choose|k: int| 0 <= k < own.len() && #[trigger] own[k] == parent;
                    assert(own[k] == parent);
                }
            }
        } else if all {
            if !placed.contains(less as usize) {
                assert(!names_parent(nodes, less as int, parent));
                assert forall|k: int| 0 <= k < own.len() implies #[trigger] own[k] != parent by {
                    if own[k] == parent {
                        assert(nodes[less as int].parents[k] == parent);
                    }
                }
            }
            assert(false);
        }
    }
}

proof fn lemma_pending_bound(nodes: Seq<Node>, placed: Seq<NodeIndex>, parent: int, count: nat)
    requires
        count <= nodes.len(),
        forall|v: int| 0 <= v < count ==> (#[trigger] nodes[v]).parents.len() <= usize::MAX,
    ensures
        pending(nodes, placed, parent, count) <= count * usize::MAX,
    decreases count,
{
    if count > 0 {
        let less = (count - 1) as nat;
        let own = nodes[less as int].parents;
        lemma_pending_bound(nodes, placed, parent, less);
        lemma_occurrences_bound(own, parent, own.len());
        assert(count * usize::MAX == less * usize::MAX + usize::MAX) by (nonlinear_arith)
            requires
                count == less + 1,
        ;
    }
}

proof fn lemma_pending_place(
    nodes: Seq<Node>,
    placed: Seq<NodeIndex>,
    node: NodeIndex,
    parent: int,
    count: nat,
)
    requires
        count <= nodes.len() <= usize::MAX,
        node < nodes.len(),
        !placed.contains(node),
    ensures
        pending(nodes, placed, parent, count) == pending(nodes, placed.push(node), parent, count)
            + if node < count {
            occurrences(nodes[node as int].parents, parent, nodes[node as int].parents.len())
        } else {
            0
        },
    decreases count,
{
    if count > 0 {
        let less = (count - 1) as nat;
        lemma_pending_place(nodes, placed, node, parent, less);
        lemma_push_contains(placed, node, less as usize);
    }
}

proof fn lemma_push_contains(placed: Seq<NodeIndex>, node: NodeIndex, other: NodeIndex)
    ensures
        placed.push(node).contains(other) <==> placed.contains(other) || other == node,
{
    if placed.contains(other) {
        let i = choose|i: int| 0 <= i < placed.len() && placed[i] == other;
        assert(placed.push(node)[i] == other);
    }
    assert(placed.push(node)[placed.len() as int] == node);
}

/// No node occurs twice, and all are nodes of the graph.
pub open spec fn distinct_nodes(order: Seq<NodeIndex>, count: nat) -> bool {
    &&& order.no_duplicates()
    &&& forall|k: int| 0 <= k < order.len() ==> #[trigger] order[k] < count
}

proof fn lemma_distinct_nodes_bound(order: Seq<NodeIndex>, count: nat)
    requires
        distinct_nodes(order, count),
        count <= usize::MAX,
    ensures
        order.len() <= count,
{
    let as_ints = order.map_values(|v: usize| v as int);
    assert(as_ints.no_duplicates());
    as_ints.unique_seq_to_set();
    vstd::set_lib::lemma_int_range(0, count as int);
    let range = vstd::set_lib::set_int_range(0, count as int);
    assert(as_ints.to_set().subset_of(range));
    vstd::set_lib::lemma_len_subset(as_ints.to_set(), range);
}

/// What is known of an order while it is being made.
spec fn partial_order(
    nodes: Seq<Node>,
    placed: Seq<NodeIndex>,
    candidates: Seq<NodeIndex>,
) -> bool {
    &&& each_was_next(nodes, placed)
    &&& distinct_nodes(placed, nodes.len())
    &&& distinct_nodes(candidates, nodes.len())
    &&& forall|v: NodeIndex| #[trigger] candidates.contains(v) <==> ready(nodes, placed, v as int)
    &&& parents_follow(nodes, placed)
}

/// A parent of a placed node is not placed before that node.
spec fn parents_follow(nodes: Seq<Node>, placed: Seq<NodeIndex>) -> bool {
    forall|j: int, child: int|
        #![trigger names_parent(nodes, child, placed[j] as int)]
        0 <= j < placed.len() && 0 <= child < nodes.len() && names_parent(
            nodes,
            child,
            placed[j] as int,
        ) ==> placed.take(j).contains(child as usize)
}

/// Orders the nodes from new to old, each parent below all of its children.
///
/// A node becomes a candidate once all of its children are placed; of the candidates
/// the one with the latest committer date is next, and of those with the same date the
/// one with the smallest oid. So the order depends on the graph alone, not on the order
/// in which its commits were read.
pub fn topo_time_order(graph: &CommitGraph) -> (r: Result<Vec<NodeIndex>, LayoutError>)
    ensures
        match r {
            Ok(order) => order@.len() == graph@.len() && newest_first(graph@, order@),
            Err(error) => reports_cycle(error, graph@),
        },
{
    let ghost nodes = graph@;
    proof {
        use_type_invariant(graph);
        graph.lemma_wf();
    }
    let total = graph.len();
    let mut waiting = count_child_entries(graph);
    let mut candidates: Vec<NodeIndex> = Vec::new();
    let mut node: usize = 0;
    while node < total
        invariant
            node <= total,
            total == nodes.len(),
            waiting@.len() == total,
            forall|v: int|
                0 <= v < total ==> #[trigger] waiting@[v] == pending(nodes, Seq::empty(), v, nodes.len()),
            distinct_nodes(candidates@, nodes.len()),
            forall|v: NodeIndex| #[trigger]
                candidates@.contains(v) <==> v < node && ready(nodes, Seq::empty(), v as int),
        decreases total - node,
    {
        let ghost before = candidates@;
        proof {
            lemma_pending_zero(nodes, Seq::empty(), node as int, nodes.len());
        }
        if waiting[node] == 0 {
            candidates.push(node);
            proof {
                assert forall|v: NodeIndex| #[trigger] candidates@.contains(v) <==> before.contains(v)
                    || v == node by {
                    lemma_push_contains(before, node, v);
                }
                assert(distinct_nodes(candidates@, nodes.len())) by {
                    assert(!before.contains(node));
                    assert forall|i: int, j: int|
                        0 <= i < candidates@.len() && 0 <= j < candidates@.len() && i
                            != j implies candidates@[i] != candidates@[j] by {
                        if i < before.len() {
                            assert(before.contains(before[i]));
                        }
                        if j < before.len() {
                            assert(before.contains(before[j]));
                        }
                    }
                }
            }
        }
        node += 1;
    }
    let mut order: Vec<NodeIndex> = Vec::with_capacity(total);
    while candidates.len() > 0
        invariant
            graph@ == nodes,
            graph.wf(),
            valid_nodes(nodes),
            total == nodes.len(),
            waiting@.len() == total,
            partial_order(nodes, order@, candidates@),
            forall|v: int|
                0 <= v < total ==> #[trigger] waiting@[v] == pending(nodes, order@, v, nodes.len()),
        decreases total - order@.len(),
    {
        let best = best_candidate(graph, &candidates);
        let ghost before = candidates@;
        let ghost placed = order@;
        let next = candidates.swap_remove(best);
        proof {
            lemma_swap_remove(before, best as int, candidates@);
            assert(before[best as int] == next);
            assert(before.contains(next));
            assert(is_next(nodes, placed, next as int)) by {
                assert forall|other: int| #[trigger]
                    ready(nodes, placed, other) && other != next implies goes_first(
                    nodes,
                    next as int,
                    other,
                ) by {
                    assert(before.contains(other as usize));
                    let i = choose|i: int| 0 <= i < before.len() && before[i] == other as usize;
                    assert(goes_first(nodes, next as int, before[i] as int));
                }
            }
            lemma_place_next(nodes, placed, before, next);
            lemma_distinct_nodes_bound(placed.push(next), nodes.len());
        }
        order.push(next);
        release_parents(graph, next, &mut waiting, &mut candidates, Ghost(placed), Ghost(before));
    }
    proof {
        assert forall|v: int| !#[trigger] ready(nodes, order@, v) by {
            if ready(nodes, order@, v) {
                assert(candidates@.contains(v as usize));
            }
        }
        lemma_distinct_nodes_bound(order@, nodes.len());
        assert(newest_first(nodes, order@));
    }
    if order.len() != total {
        return Err(LayoutError::Cyclic { ordered: order.len(), total });
    }
    Ok(order)
}

/// The number of parent entries that name each node.
fn count_child_entries(graph: &CommitGraph) -> (r: Vec<u128>)
    requires
        graph.wf(),
    ensures
        r@.len() == graph@.len(),
        forall|v: int|
            0 <= v < graph@.len() ==> #[trigger] r@[v] == pending(
                graph@,
                Seq::empty(),
                v,
                graph@.len(),
            ),
{
    let ghost nodes = graph@;
    proof {
        graph.lemma_wf();
    }
    let total = graph.len();
    let mut counts: Vec<u128> = vec![0u128; total];
    let mut child: usize = 0;
    while child < total
        invariant
            graph@ == nodes,
            valid_nodes(nodes),
            child <= total,
            total == nodes.len(),
            counts@.len() == total,
            forall|v: int|
                0 <= v < total ==> #[trigger] counts@[v] == pending(
                    nodes,
                    Seq::empty(),
                    v,
                    child as nat,
                ),
            forall|v: int|
                0 <= v < child ==> (#[trigger] nodes[v]).parents.len() <= usize::MAX,
        decreases total - child,
    {
        let parents = graph.parents(child);
        let ghost before = counts@;
        let mut k: usize = 0;
        while k < parents.len()
            invariant
                valid_nodes(nodes),
                child < total,
                total == nodes.len(),
                k <= parents@.len(),
                parents@ == nodes[child as int].parents,
                counts@.len() == total,
                before.len() == total,
                forall|v: int|
                    0 <= v < total ==> #[trigger] before[v] == pending(
                        nodes,
                        Seq::empty(),
                        v,
                        child as nat,
                    ),
                forall|v: int|
                    0 <= v < total ==> #[trigger] counts@[v] == before[v] + occurrences(
                        parents@,
                        v,
                        k as nat,
                    ),
                forall|v: int|
                    0 <= v < child ==> (#[trigger] nodes[v]).parents.len() <= usize::MAX,
            decreases parents@.len() - k,
        {
            let parent = parents[k];
            assert(nodes[child as int].parents[k as int] < nodes.len());
            proof {
                lemma_pending_bound(nodes, Seq::empty(), parent as int, child as nat);
                lemma_occurrences_bound(parents@, parent as int, k as nat);
                assert(before[parent as int] == pending(
                    nodes,
                    Seq::empty(),
                    parent as int,
                    child as nat,
                ));
                assert(child * usize::MAX + usize::MAX <= u128::MAX) by (nonlinear_arith)
                    requires
                        child < usize::MAX <= u64::MAX,
                ;
            }
            counts.set(parent, counts[parent] + 1);
            k += 1;
        }
        proof {
            assert(parents.len() <= usize::MAX);
            assert(!Seq::<NodeIndex>::empty().contains(child));
        }
        child += 1;
    }
    counts
}

proof fn lemma_swap_remove(before: Seq<NodeIndex>, index: int, after: Seq<NodeIndex>)
    requires
        0 <= index < before.len(),
        before.no_duplicates(),
        after == before.update(index, before.last()).drop_last(),
    ensures
        after.no_duplicates(),
        forall|v: NodeIndex| #[trigger]
            after.contains(v) <==> before.contains(v) && v != before[index],
{
    assert forall|v: NodeIndex| #[trigger] after.contains(v) <==> before.contains(v) && v
        != before[index] by {
        if after.contains(v) {
            let i = choose|i: int| 0 <= i < after.len() && after[i] == v;
            let source = if i == index {
                before.len() - 1
            } else {
                i
            };
            assert(before[source] == v);
        }
        if before.contains(v) && v != before[index] {
            let i = choose|i: int| 0 <= i < before.len() && before[i] == v;
            let target = if i == before.len() - 1 {
                index
            } else {
                i
            };
            assert(after[target] == v);
        }
    }
}

/// Of two distinct nodes one goes first, and only one.
pub proof fn goes_first_is_total(nodes: Seq<Node>, a: int, b: int)
    requires
        valid_nodes(nodes),
        0 <= a < nodes.len(),
        0 <= b < nodes.len(),
        a != b,
    ensures
        goes_first(nodes, a, b) != goes_first(nodes, b, a),
{
    precedes_is_total(nodes[a].oid, nodes[b].oid);
}

proof fn lemma_goes_first_transitive(nodes: Seq<Node>, a: int, b: int, c: int)
    requires
        goes_first(nodes, a, b),
        goes_first(nodes, b, c),
    ensures
        goes_first(nodes, a, c),
{
    if precedes(nodes[a].oid, nodes[b].oid) && precedes(nodes[b].oid, nodes[c].oid) {
        precedes_is_transitive(nodes[a].oid, nodes[b].oid, nodes[c].oid);
    }
}

/// The position of the candidate to place next.
fn best_candidate(graph: &CommitGraph, candidates: &Vec<NodeIndex>) -> (r: usize)
    requires
        graph.wf(),
        candidates@.len() > 0,
        distinct_nodes(candidates@, graph@.len()),
    ensures
        r < candidates@.len(),
        forall|i: int|
            0 <= i < candidates@.len() && i != r ==> goes_first(
                graph@,
                candidates@[r as int] as int,
                #[trigger] candidates@[i] as int,
            ),
{
    let ghost nodes = graph@;
    proof {
        graph.lemma_wf();
    }
    let mut best: usize = 0;
    let mut index: usize = 1;
    while index < candidates.len()
        invariant
            graph@ == nodes,
            valid_nodes(nodes),
            distinct_nodes(candidates@, nodes.len()),
            best < index <= candidates@.len(),
            forall|i: int|
                0 <= i < index && i != best ==> goes_first(
                    nodes,
                    candidates@[best as int] as int,
                    #[trigger] candidates@[i] as int,
                ),
        decreases candidates@.len() - index,
    {
        let ghost leader = candidates@[best as int] as int;
        let ghost other = candidates@[index as int] as int;
        let held = graph.commit(candidates[best]);
        let seen = graph.commit(candidates[index]);
        let better = seen.timestamp > held.timestamp || (seen.timestamp == held.timestamp
            && text::less(seen.oid.as_str(), held.oid.as_str()));
        proof {
            assert(better == goes_first(nodes, other, leader));
            assert(candidates@[best as int] != candidates@[index as int]);
            goes_first_is_total(nodes, leader, other);
            if better {
                assert forall|i: int| 0 <= i < index implies goes_first(
                    nodes,
                    other,
                    #[trigger] candidates@[i] as int,
                ) by {
                    if i != best {
                        lemma_goes_first_transitive(nodes, other, leader, candidates@[i] as int);
                    }
                }
            }
        }
        if better {
            best = index;
        }
        index += 1;
    }
    best
}

/// Placing the next node keeps what is known of the placed nodes.
proof fn lemma_place_next(
    nodes: Seq<Node>,
    placed: Seq<NodeIndex>,
    candidates: Seq<NodeIndex>,
    next: NodeIndex,
)
    requires
        partial_order(nodes, placed, candidates),
        is_next(nodes, placed, next as int),
    ensures
        each_was_next(nodes, placed.push(next)),
        distinct_nodes(placed.push(next), nodes.len()),
        parents_follow(nodes, placed.push(next)),
{
    let now = placed.push(next);
    assert forall|k: int| #![trigger now[k]] 0 <= k < now.len() implies is_next(
        nodes,
        now.take(k),
        now[k] as int,
    ) by {
        assert(now.take(k) =~= placed.take(k));
        if k < placed.len() {
            assert(now[k] == placed[k]);
        } else {
            assert(placed.take(k) =~= placed);
        }
    }
    assert forall|j: int, child: int|
        #![trigger names_parent(nodes, child, now[j] as int)]
        0 <= j < now.len() && 0 <= child < nodes.len() && names_parent(
            nodes,
            child,
            now[j] as int,
        ) implies now.take(j).contains(child as usize) by {
        assert(now.take(j) =~= placed.take(j));
        if j < placed.len() {
            assert(now[j] == placed[j]);
            assert(names_parent(nodes, child, placed[j] as int));
        } else {
            assert(placed.take(j) =~= placed);
        }
    }
    assert forall|i: int, j: int| 0 <= i < now.len() && 0 <= j < now.len() && i != j implies now[i]
        != now[j] by {
        if i < placed.len() && j == placed.len() {
            assert(placed.contains(placed[i]));
        }
        if j < placed.len() && i == placed.len() {
            assert(placed.contains(placed[j]));
        }
    }
}

/// Counts a newly placed node off its parents and adds those that become ready.
fn release_parents(
    graph: &CommitGraph,
    next: NodeIndex,
    waiting: &mut Vec<u128>,
    candidates: &mut Vec<NodeIndex>,
    Ghost(placed): Ghost<Seq<NodeIndex>>,
    Ghost(before): Ghost<Seq<NodeIndex>>,
)
    requires
        graph.wf(),
        partial_order(graph@, placed, before),
        is_next(graph@, placed, next as int),
        distinct_nodes(old(candidates)@, graph@.len()),
        forall|v: NodeIndex| #[trigger]
            old(candidates)@.contains(v) <==> before.contains(v) && v != next,
        old(waiting)@.len() == graph@.len(),
        forall|v: int|
            0 <= v < graph@.len() ==> #[trigger] old(waiting)@[v] == pending(
                graph@,
                placed,
                v,
                graph@.len(),
            ),
    ensures
        partial_order(graph@, placed.push(next), final(candidates)@),
        final(waiting)@.len() == graph@.len(),
        forall|v: int|
            0 <= v < graph@.len() ==> #[trigger] final(waiting)@[v] == pending(
                graph@,
                placed.push(next),
                v,
                graph@.len(),
            ),
{
    let ghost nodes = graph@;
    let ghost total = nodes.len();
    let ghost now = placed.push(next);
    proof {
        graph.lemma_wf();
        lemma_place_next(nodes, placed, before, next);
    }
    let parents = graph.parents(next);
    let mut k: usize = 0;
    while k < parents.len()
        invariant
            graph@ == nodes,
            valid_nodes(nodes),
            total == nodes.len(),
            total <= usize::MAX,
            next < total,
            now == placed.push(next),
            partial_order(nodes, placed, before),
            !placed.contains(next),
            k <= parents@.len(),
            parents@ == nodes[next as int].parents,
            waiting@.len() == total,
            forall|v: int|
                0 <= v < total ==> #[trigger] waiting@[v] + occurrences(parents@, v, k as nat)
                    == pending(nodes, placed, v, total),
            distinct_nodes(candidates@, total),
            forall|v: NodeIndex| #[trigger]
                candidates@.contains(v) <==> (before.contains(v) && v != next) || (v < total
                    && occurrences(parents@, v as int, k as nat) > 0 && waiting@[v as int] == 0),
        decreases parents@.len() - k,
    {
        let parent = parents[k];
        assert(nodes[next as int].parents[k as int] < nodes.len());
        let ghost listed = candidates@;
        let ghost counts = waiting@;
        proof {
            lemma_pending_place(nodes, placed, next, parent as int, total);
            lemma_occurrences_grow(parents@, parent as int, (k + 1) as nat, parents@.len());
            assert(counts[parent as int] > 0);
            assert(!listed.contains(parent)) by {
                if before.contains(parent) {
                    lemma_pending_zero(nodes, placed, parent as int, total);
                }
            }
        }
        let left = waiting[parent] - 1;
        waiting.set(parent, left);
        if left == 0 {
            candidates.push(parent);
        }
        proof {
            assert forall|v: NodeIndex| #[trigger] candidates@.contains(v) <==> (before.contains(v)
                && v != next) || (v < total && occurrences(parents@, v as int, (k + 1) as nat) > 0
                && waiting@[v as int] == 0) by {
                if left == 0 {
                    lemma_push_contains(listed, parent, v);
                }
            }
            if left == 0 {
                assert forall|i: int, j: int|
                    0 <= i < candidates@.len() && 0 <= j < candidates@.len() && i
                        != j implies candidates@[i] != candidates@[j] by {
                    if i < listed.len() && j == listed.len() {
                        assert(listed.contains(listed[i]));
                    }
                    if j < listed.len() && i == listed.len() {
                        assert(listed.contains(listed[j]));
                    }
                }
            }
        }
        k += 1;
    }
    proof {
        assert forall|v: int| 0 <= v < total implies #[trigger] waiting@[v] == pending(
            nodes,
            now,
            v,
            total,
        ) by {
            lemma_pending_place(nodes, placed, next, v, total);
        }
        assert forall|v: NodeIndex| #[trigger] candidates@.contains(v) <==> ready(
            nodes,
            now,
            v as int,
        ) by {
            lemma_release(nodes, placed, before, next, v);
        }
    }
}

/// Which nodes are ready once `next` is placed: those that were, but for `next`, and
/// the parents of `next` that wait for no other child.
proof fn lemma_release(
    nodes: Seq<Node>,
    placed: Seq<NodeIndex>,
    before: Seq<NodeIndex>,
    next: NodeIndex,
    v: NodeIndex,
)
    requires
        nodes.len() <= usize::MAX,
        partial_order(nodes, placed, before),
        is_next(nodes, placed, next as int),
    ensures
        ready(nodes, placed.push(next), v as int) <==> (before.contains(v) && v != next) || (v
            < nodes.len() && occurrences(
            nodes[next as int].parents,
            v as int,
            nodes[next as int].parents.len(),
        ) > 0 && pending(nodes, placed.push(next), v as int, nodes.len()) == 0),
{
    let now = placed.push(next);
    let own = nodes[next as int].parents;
    assert forall|u: NodeIndex| #[trigger] now.contains(u) <==> placed.contains(u) || u == next by {
        lemma_push_contains(placed, next, u);
    }
    if v < nodes.len() {
        lemma_pending_zero(nodes, now, v as int, nodes.len());
        lemma_occurrences_zero(own, v as int, own.len());
        let named = occurrences(own, v as int, own.len()) > 0;
        assert(named == names_parent(nodes, next as int, v as int));
        if named {
            assert(v != next);
            if placed.contains(v) {
                let j = choose|j: int| 0 <= j < placed.len() && placed[j] == v;
                assert(names_parent(nodes, next as int, placed[j] as int));
                assert(placed.take(j).contains(next));
                let i = choose|i: int| 0 <= i < placed.take(j).len() && placed.take(j)[i] == next;
                assert(placed[i] == next);
            }
            assert(!before.contains(v)) by {
                if before.contains(v) {
                    assert(ready(nodes, placed, v as int));
                    assert(placed.contains(next));
                }
            }
        } else if ready(nodes, now, v as int) {
            assert(ready(nodes, placed, v as int));
        } else if before.contains(v) && v != next {
            assert(ready(nodes, placed, v as int));
        }
    } else {
        assert(before.contains(v) ==> ready(nodes, placed, v as int));
    }
}

} // verus!
