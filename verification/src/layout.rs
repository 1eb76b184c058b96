//! Places a commit graph on a grid that can be drawn: each commit gets a row and a lane.
use vstd::prelude::*;

use crate::dag::{valid_nodes, CommitGraph, Node, NodeIndex};
use crate::order::newest_first;
use crate::order_laws::nodes_are_placed_once;
use crate::text;
use crate::text::decimal_digits;

pub use crate::order::topo_time_order;

verus! {

/// Why a layout could not be made.
#[derive(Debug, Clone, Copy, PartialEq, Eq, Structural)]
pub enum LayoutError {
    /// The graph has a cycle: only `ordered` of its `total` nodes can be ordered.
    Cyclic { ordered: usize, total: usize },
}

impl LayoutError {
    /// What is wrong, in one sentence.
    pub fn describe(&self) -> (r: String)
        ensures
            r@ == layout_failure(*self),
    {
        match self {
            LayoutError::Cyclic { ordered, total } => {
                let start = "commit 圖含有環或資料不一致：排入 ".to_owned();
                let placed = text::plus(start, text::decimal(*ordered as u64).as_str());
                let middle = text::plus(placed, " 個節點，實際有 ");
                let counted = text::plus(middle, text::decimal(*total as u64).as_str());
                text::plus(counted, " 個")
            }
        }
    }
}

/// Whether an error says how many of the nodes can be ordered, which is not all of them.
pub open spec fn reports_cycle(error: LayoutError, nodes: Seq<Node>) -> bool {
    match error {
        LayoutError::Cyclic { ordered, total } => {
            &&& total == nodes.len()
            &&& ordered < total
            &&& exists|order: Seq<NodeIndex>|
                order.len() == ordered && #[trigger] newest_first(nodes, order)
        },
    }
}

pub open spec fn layout_failure(error: LayoutError) -> Seq<char> {
    match error {
        LayoutError::Cyclic { ordered, total } => "commit 圖含有環或資料不一致：排入 "@
            + decimal_digits(ordered as nat) + " 個節點，實際有 "@ + decimal_digits(total as nat)
            + " 個"@,
    }
}

/// A line from a child, above, to a parent, below.
#[derive(Debug, Clone, Copy, PartialEq, Eq, Structural)]
pub struct Edge {
    pub child_row: usize,
    pub child_lane: usize,
    pub parent_row: usize,
    pub parent_lane: usize,
}

impl Edge {
    /// Whether the line leaves its lane. One that does not is vertical.
    pub fn spans_lanes(&self) -> (r: bool)
        ensures
            r == (self.child_lane != self.parent_lane),
    {
        self.child_lane != self.parent_lane
    }
}

/// Where each commit is drawn.
#[derive(Debug)]
pub struct Layout {
    /// The nodes from top to bottom; the position is the row.
    pub order: Vec<NodeIndex>,
    /// The row of each node, [`Layout::UNPLACED`] for a node that is not in `order`.
    pub row_of: Vec<usize>,
    /// The lane of each node, [`Layout::UNPLACED`] for a node that is not in `order`.
    pub lane_of: Vec<usize>,
    pub edges: Vec<Edge>,
    /// The largest number of lanes in use at once: the width of the drawing.
    pub lane_count: usize,
}

impl Default for Layout {
    fn default() -> (r: Self)
        ensures
            r.order@.len() == 0,
            r.row_of@.len() == 0,
            r.lane_of@.len() == 0,
            r.edges@.len() == 0,
            r.lane_count == 0,
    {
        Layout {
            order: Vec::new(),
            row_of: Vec::new(),
            lane_of: Vec::new(),
            edges: Vec::new(),
            lane_count: 0,
        }
    }
}

impl Layout {
    /// The row and the lane of a node that is not placed.
    pub const UNPLACED: usize = usize::MAX;

    pub fn rows(&self) -> (r: usize)
        ensures
            r == self.order@.len(),
    {
        self.order.len()
    }

    pub fn is_placed(&self, node: NodeIndex) -> (r: bool)
        requires
            node < self.row_of@.len(),
        ensures
            r == (self.row_of@[node as int] != Layout::UNPLACED),
    {
        self.row_of[node] != Layout::UNPLACED
    }

    /// The number of lines that leave their lane. The more, the harder to read.
    pub fn crossing_edges(&self) -> (r: usize)
        ensures
            r == self.edges@.filter(|edge: Edge| edge.child_lane != edge.parent_lane).len(),
    {
        let ghost crosses = |edge: Edge| edge.child_lane != edge.parent_lane;
        let mut count: usize = 0;
        let mut index: usize = 0;
        proof {
            reveal(Seq::filter);
        }
        while index < self.edges.len()
            invariant
                index <= self.edges@.len(),
                count <= index,
                crosses == (|edge: Edge| edge.child_lane != edge.parent_lane),
                count == self.edges@.take(index as int).filter(crosses).len(),
            decreases self.edges@.len() - index,
        {
            proof {
                reveal(Seq::filter);
                assert(self.edges@.take(index + 1).drop_last() =~= self.edges@.take(index as int));
            }
            if self.edges[index].spans_lanes() {
                count += 1;
            }
            index += 1;
        }
        assert(self.edges@.take(index as int) =~= self.edges@);
        count
    }
}

/// What each lane is reserved for while a graph is laid out row by row.
pub type Slots = Seq<Option<NodeIndex>>;

/// The leftmost slot from `from` on that holds `wanted`, or the number of slots.
pub open spec fn first_slot(slots: Slots, wanted: Option<NodeIndex>, from: int) -> int
    decreases slots.len() - from,
{
    if from >= slots.len() {
        slots.len() as int
    } else if slots[from] == wanted {
        from
    } else {
        first_slot(slots, wanted, from + 1)
    }
}

/// The lane a node gets: the leftmost one reserved for it, or else the leftmost free
/// one, which is a new one where none is free.
pub open spec fn lane_for(slots: Slots, node: NodeIndex) -> int {
    if slots.contains(Some(node)) {
        first_slot(slots, Some(node), 0)
    } else {
        first_slot(slots, None, 0)
    }
}

/// The slots once a node has been given a lane: there is such a lane, and no other is
/// reserved for the node.
pub open spec fn claimed(slots: Slots, node: NodeIndex) -> Slots {
    let lane = lane_for(slots, node);
    if lane == slots.len() {
        slots.push(None)
    } else {
        Seq::new(
            slots.len(),
            |i: int|
                if i != lane && slots[i] == Some(node) {
                    None
                } else {
                    slots[i]
                },
        )
    }
}

/// The slots once the first `count` parents of a node on `lane` have their lanes: the
/// first parent takes over the lane of the node, each other one that has none yet is
/// given one. A parent that is already placed takes none.
pub open spec fn reserved(
    slots: Slots,
    rows: Seq<usize>,
    lane: int,
    parents: Seq<NodeIndex>,
    count: nat,
) -> Slots
    decreases count,
{
    if count == 0 {
        slots
    } else {
        let before = reserved(slots, rows, lane, parents, (count - 1) as nat);
        let parent = parents[count - 1];
        if rows[parent as int] != Layout::UNPLACED {
            before
        } else if count == 1 {
            before.update(lane, Some(parent))
        } else if before.contains(Some(parent)) {
            before
        } else {
            claimed(before, parent).update(lane_for(before, parent), Some(parent))
        }
    }
}

/// The slots without the free ones at the right end.
pub open spec fn trimmed(slots: Slots) -> Slots
    decreases slots.len(),
{
    if slots.len() > 0 && slots.last() is None {
        trimmed(slots.drop_last())
    } else {
        slots
    }
}

/// What is known after some rows.
pub struct Progress {
    pub slots: Slots,
    pub rows: Seq<usize>,
    pub lanes: Seq<usize>,
    pub width: nat,
}

pub open spec fn larger(a: nat, b: nat) -> nat {
    if a < b {
        b
    } else {
        a
    }
}

/// One row more: `node` is placed in row `row`.
pub open spec fn place(nodes: Seq<Node>, before: Progress, node: NodeIndex, row: usize) -> Progress {
    let lane = lane_for(before.slots, node);
    let rows = before.rows.update(node as int, row);
    let parents = nodes[node as int].parents;
    let slots = trimmed(
        reserved(
            claimed(before.slots, node).update(lane, None),
            rows,
            lane,
            parents,
            parents.len(),
        ),
    );
    Progress {
        slots,
        rows,
        lanes: before.lanes.update(node as int, lane as usize),
        width: larger(larger(before.width, (lane + 1) as nat), slots.len()),
    }
}

/// What is known after the first `count` rows of an order.
pub open spec fn progress(nodes: Seq<Node>, order: Seq<NodeIndex>, count: nat) -> Progress
    decreases count,
{
    if count == 0 {
        Progress {
            slots: Seq::empty(),
            rows: Seq::new(nodes.len(), |v: int| Layout::UNPLACED),
            lanes: Seq::new(nodes.len(), |v: int| Layout::UNPLACED),
            width: 0,
        }
    } else {
        place(
            nodes,
            progress(nodes, order, (count - 1) as nat),
            order[count - 1],
            (count - 1) as usize,
        )
    }
}

/// The lines from a node to those of its first `count` parents that are placed.
pub open spec fn edges_from(
    node: int,
    parents: Seq<NodeIndex>,
    rows: Seq<usize>,
    lanes: Seq<usize>,
    count: nat,
) -> Seq<Edge>
    decreases count,
{
    if count == 0 {
        Seq::empty()
    } else {
        let before = edges_from(node, parents, rows, lanes, (count - 1) as nat);
        let parent = parents[count - 1] as int;
        if rows[parent] == Layout::UNPLACED {
            before
        } else {
            before.push(
                Edge {
                    child_row: rows[node],
                    child_lane: lanes[node],
                    parent_row: rows[parent],
                    parent_lane: lanes[parent],
                },
            )
        }
    }
}

/// The lines from the first `count` nodes of an order.
pub open spec fn edges_among(
    nodes: Seq<Node>,
    order: Seq<NodeIndex>,
    rows: Seq<usize>,
    lanes: Seq<usize>,
    count: nat,
) -> Seq<Edge>
    decreases count,
{
    if count == 0 {
        Seq::empty()
    } else {
        let node = order[count - 1] as int;
        edges_among(nodes, order, rows, lanes, (count - 1) as nat) + edges_from(
            node,
            nodes[node].parents,
            rows,
            lanes,
            nodes[node].parents.len(),
        )
    }
}

/// Whether a layout is the one of the nodes in the given order.
pub open spec fn is_layout_of(layout: Layout, nodes: Seq<Node>, order: Seq<NodeIndex>) -> bool {
    let end = progress(nodes, order, order.len());
    &&& layout.order@ == order
    &&& layout.row_of@ == end.rows
    &&& layout.lane_of@ == end.lanes
    &&& layout.lane_count == end.width
    &&& layout.edges@ == edges_among(nodes, order, end.rows, end.lanes, order.len())
}

proof fn lemma_first_slot(slots: Slots, wanted: Option<NodeIndex>, from: int)
    requires
        0 <= from <= slots.len(),
    ensures
        from <= first_slot(slots, wanted, from) <= slots.len(),
        forall|i: int| from <= i < first_slot(slots, wanted, from) ==> #[trigger] slots[i] != wanted,
        first_slot(slots, wanted, from) < slots.len() ==> slots[first_slot(slots, wanted, from)]
            == wanted,
    decreases slots.len() - from,
{
    if from < slots.len() && slots[from] != wanted {
        lemma_first_slot(slots, wanted, from + 1);
    }
}

/// The lane a node gets, said of its slots: it is reserved for the node, or free, or new.
pub proof fn lane_is_leftmost(slots: Slots, node: NodeIndex)
    ensures
        0 <= lane_for(slots, node) <= slots.len(),
        slots.contains(Some(node)) ==> lane_for(slots, node) < slots.len()
            && slots[lane_for(slots, node)] == Some(node),
        !slots.contains(Some(node)) && lane_for(slots, node) < slots.len()
            ==> slots[lane_for(slots, node)] is None,
        forall|i: int|
            0 <= i < lane_for(slots, node) ==> #[trigger] slots[i] != if slots.contains(Some(node)) {
                Some(node)
            } else {
                None
            },
{
    lemma_first_slot(slots, Some(node), 0);
    lemma_first_slot(slots, None, 0);
    if slots.contains(Some(node)) {
        let i = choose|i: int| 0 <= i < slots.len() && slots[i] == Some(node);
        assert(first_slot(slots, Some(node), 0) <= i);
    }
}

fn is_reserved_for(slot: &Option<NodeIndex>, node: NodeIndex) -> (r: bool)
    ensures
        r == (*slot == Some(node)),
{
    match slot {
        Some(other) => *other == node,
        None => false,
    }
}

/// Gives `node` its lane: the leftmost one that is reserved for it, giving up all others
/// that are; where none is, the leftmost free one.
fn claim_lane(active: &mut Vec<Option<NodeIndex>>, node: NodeIndex) -> (r: usize)
    ensures
        r == lane_for(old(active)@, node),
        final(active)@ == claimed(old(active)@, node),
{
    let ghost slots = active@;
    proof {
        lane_is_leftmost(slots, node);
    }
    let mut found: Option<usize> = None;
    let mut lane: usize = 0;
    while lane < active.len()
        invariant
            lane <= active@.len(),
            active@.len() == slots.len(),
            match found {
                Some(first) => first < lane && slots[first as int] == Some(node) && forall|i: int|
                    0 <= i < first ==> #[trigger] slots[i] != Some(node),
                None => forall|i: int| 0 <= i < lane ==> #[trigger] slots[i] != Some(node),
            },
            forall|i: int|
                0 <= i < slots.len() ==> #[trigger] active@[i] == if i < lane && slots[i] == Some(
                    node,
                ) && found != Some(i as usize) {
                    None
                } else {
                    slots[i]
                },
        decreases active@.len() - lane,
    {
        if is_reserved_for(&active[lane], node) {
            match found {
                None => {
                    found = Some(lane);
                }
                Some(_) => {
                    active.set(lane, None);
                }
            }
        }
        lane += 1;
    }
    if let Some(first) = found {
        proof {
            assert(slots.contains(Some(node)));
            assert(lane_for(slots, node) == first);
            assert(active@ =~= claimed(slots, node));
        }
        return first;
    }
    assert(!slots.contains(Some(node)));
    assert(active@ =~= slots);
    let mut free: usize = 0;
    while free < active.len()
        invariant
            free <= active@.len(),
            active@ == slots,
            slots == old(active)@,
            !slots.contains(Some(node)),
            0 <= lane_for(slots, node) <= slots.len(),
            lane_for(slots, node) < slots.len() ==> slots[lane_for(slots, node)] is None,
            forall|i: int| 0 <= i < lane_for(slots, node) ==> #[trigger] slots[i] is Some,
            forall|i: int| 0 <= i < free ==> #[trigger] slots[i] is Some,
        decreases active@.len() - free,
    {
        if active[free].is_none() {
            proof {
                assert(lane_for(slots, node) == free);
                assert(claimed(slots, node) =~= slots) by {
                    assert forall|i: int| 0 <= i < slots.len() implies slots[i] != Some(node) by {
                        if slots[i] == Some(node) {
                            assert(slots.contains(Some(node)));
                        }
                    }
                }
            }
            return free;
        }
        free += 1;
    }
    assert(lane_for(slots, node) == slots.len());
    active.push(None);
    active.len() - 1
}

/// Whether some lane is reserved for the node.
fn has_lane(active: &Vec<Option<NodeIndex>>, node: NodeIndex) -> (r: bool)
    ensures
        r == active@.contains(Some(node)),
{
    let mut lane: usize = 0;
    while lane < active.len()
        invariant
            lane <= active@.len(),
            forall|i: int| 0 <= i < lane ==> #[trigger] active@[i] != Some(node),
        decreases active@.len() - lane,
    {
        if is_reserved_for(&active[lane], node) {
            assert(active@[lane as int] == Some(node));
            return true;
        }
        lane += 1;
    }
    false
}

/// Reserves lanes for the parents of a node that has just been placed.
fn reserve_parents(
    active: &mut Vec<Option<NodeIndex>>,
    row_of: &Vec<usize>,
    lane: usize,
    parents: &[NodeIndex],
)
    requires
        lane < old(active)@.len(),
        forall|k: int| 0 <= k < parents@.len() ==> #[trigger] parents@[k] < row_of@.len(),
    ensures
        final(active)@ == reserved(
            old(active)@,
            row_of@,
            lane as int,
            parents@,
            parents@.len(),
        ),
{
    let ghost slots = active@;
    let mut position: usize = 0;
    while position < parents.len()
        invariant
            position <= parents@.len(),
            lane < slots.len() <= active@.len(),
            forall|k: int| 0 <= k < parents@.len() ==> #[trigger] parents@[k] < row_of@.len(),
            active@ == reserved(slots, row_of@, lane as int, parents@, position as nat),
        decreases parents@.len() - position,
    {
        let parent = parents[position];
        if row_of[parent] == Layout::UNPLACED {
            if position == 0 {
                active.set(lane, Some(parent));
            } else if !has_lane(active, parent) {
                proof {
                    lane_is_leftmost(active@, parent);
                }
                let extra = claim_lane(active, parent);
                active.set(extra, Some(parent));
            }
        }
        position += 1;
    }
}

/// Gives up the free lanes at the right end.
fn trim(active: &mut Vec<Option<NodeIndex>>)
    ensures
        final(active)@ == trimmed(old(active)@),
{
    while active.len() > 0 && active[active.len() - 1].is_none()
        invariant
            trimmed(active@) == trimmed(old(active)@),
        decreases active@.len(),
    {
        active.pop();
    }
}

/// The lines of a placed graph.
fn connect(
    graph: &CommitGraph,
    order: &[NodeIndex],
    row_of: &Vec<usize>,
    lane_of: &Vec<usize>,
) -> (r: Vec<Edge>)
    requires
        graph.wf(),
        row_of@.len() == graph@.len(),
        lane_of@.len() == graph@.len(),
        forall|k: int| 0 <= k < order@.len() ==> #[trigger] order@[k] < graph@.len(),
    ensures
        r@ == edges_among(graph@, order@, row_of@, lane_of@, order@.len()),
{
    let ghost nodes = graph@;
    proof {
        graph.lemma_wf();
    }
    let mut edges: Vec<Edge> = Vec::new();
    let mut row: usize = 0;
    while row < order.len()
        invariant
            graph@ == nodes,
            valid_nodes(nodes),
            row_of@.len() == nodes.len(),
            lane_of@.len() == nodes.len(),
            row <= order@.len(),
            forall|k: int| 0 <= k < order@.len() ==> #[trigger] order@[k] < nodes.len(),
            edges@ == edges_among(nodes, order@, row_of@, lane_of@, row as nat),
        decreases order@.len() - row,
    {
        let node = order[row];
        let parents = graph.parents(node);
        let ghost before = edges@;
        let mut k: usize = 0;
        assert(edges@ =~= before + edges_from(node as int, parents@, row_of@, lane_of@, 0));
        while k < parents.len()
            invariant
                valid_nodes(nodes),
                node < nodes.len(),
                row_of@.len() == nodes.len(),
                lane_of@.len() == nodes.len(),
                parents@ == nodes[node as int].parents,
                k <= parents@.len(),
                edges@ == before + edges_from(node as int, parents@, row_of@, lane_of@, k as nat),
            decreases parents@.len() - k,
        {
            let parent = parents[k];
            assert(nodes[node as int].parents[k as int] < nodes.len());
            if row_of[parent] != Layout::UNPLACED {
                edges.push(
                    Edge {
                        child_row: row_of[node],
                        child_lane: lane_of[node],
                        parent_row: row_of[parent],
                        parent_lane: lane_of[parent],
                    },
                );
            }
            k += 1;
            assert(edges@ =~= before + edges_from(
                node as int,
                parents@,
                row_of@,
                lane_of@,
                k as nat,
            ));
        }
        row += 1;
    }
    edges
}

/// Gives each node of an order its lane, row by row from the top.
///
/// A lane in use remembers which parent it leads to. The first parent takes over the
/// lane of its child, so that a branch is drawn as a straight line; each other parent
/// gets a lane of its own. A lane that is given up is used again.
pub fn assign_lanes(graph: &CommitGraph, order: &[NodeIndex]) -> (r: Layout)
    requires
        forall|k: int| 0 <= k < order@.len() ==> #[trigger] order@[k] < graph@.len(),
    ensures
        is_layout_of(r, graph@, order@),
{
    let ghost nodes = graph@;
    proof {
        use_type_invariant(graph);
        graph.lemma_wf();
    }
    let total = graph.len();
    let mut active: Vec<Option<NodeIndex>> = Vec::new();
    let mut row_of: Vec<usize> = vec![Layout::UNPLACED; total];
    let mut lane_of: Vec<usize> = vec![Layout::UNPLACED; total];
    let mut lane_count: usize = 0;
    let mut placed: Vec<NodeIndex> = Vec::with_capacity(order.len());
    let mut row: usize = 0;
    proof {
        let start = progress(nodes, order@, 0);
        assert(row_of@ =~= start.rows);
        assert(lane_of@ =~= start.lanes);
        assert(active@ =~= start.slots);
    }
    while row < order.len()
        invariant
            graph@ == nodes,
            valid_nodes(nodes),
            row_of@.len() == nodes.len(),
            lane_of@.len() == nodes.len(),
            row <= order@.len(),
            forall|k: int| 0 <= k < order@.len() ==> #[trigger] order@[k] < nodes.len(),
            placed@ == order@.take(row as int),
            (Progress {
                slots: active@,
                rows: row_of@,
                lanes: lane_of@,
                width: lane_count as nat,
            }) == progress(nodes, order@, row as nat),
        decreases order@.len() - row,
    {
        let node = order[row];
        proof {
            lane_is_leftmost(active@, node);
        }
        let lane = claim_lane(&mut active, node);
        active.set(lane, None);
        row_of.set(node, row);
        lane_of.set(node, lane);
        assert(lane < active.len());
        if lane_count < lane + 1 {
            lane_count = lane + 1;
        }
        let parents = graph.parents(node);
        assert forall|k: int| 0 <= k < parents@.len() implies #[trigger] parents@[k]
            < row_of@.len() by {
            assert(nodes[node as int].parents[k] < nodes.len());
        }
        reserve_parents(&mut active, &row_of, lane, parents);
        trim(&mut active);
        if lane_count < active.len() {
            lane_count = active.len();
        }
        placed.push(node);
        row += 1;
        assert(placed@ =~= order@.take(row as int));
    }
    assert(placed@ =~= order@);
    let edges = connect(graph, order, &row_of, &lane_of);
    Layout { order: placed, row_of, lane_of, edges, lane_count }
}

/// Orders the nodes of a graph and gives each its lane.
pub fn lay_out(graph: &CommitGraph) -> (r: Result<Layout, LayoutError>)
    ensures
        match r {
            Ok(layout) => {
                &&& layout.order@.len() == graph@.len()
                &&& newest_first(graph@, layout.order@)
                &&& is_layout_of(layout, graph@, layout.order@)
            },
            Err(error) => reports_cycle(error, graph@),
        },
{
    match topo_time_order(graph) {
        Ok(order) => {
            proof {
                use_type_invariant(graph);
                graph.lemma_wf();
                nodes_are_placed_once(graph@, order@);
            }
            Ok(assign_lanes(graph, order.as_slice()))
        }
        Err(error) => Err(error),
    }
}

} // verus!
