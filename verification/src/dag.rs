//! The commit graph in memory.
//!
//! All commits live in one arena and refer to each other by index. An index is
//! meaningful only in the graph that produced it.
use vstd::hash_map::StringHashMap;
use vstd::prelude::*;

verus! {

/// Position of a commit in its [`CommitGraph`].
pub type NodeIndex = usize;

/// Metadata of one commit.
///
/// `parents` holds only the parents that are in the same graph: in a shallow or
/// filtered clone some are missing, and those are left out.
#[derive(Debug)]
pub struct Commit {
    pub oid: String,
    pub parents: Vec<NodeIndex>,
    /// Committer date in Unix seconds. Used for ordering, not for display.
    pub timestamp: i64,
    pub author: String,
    pub summary: String,
}

/// What a [`Commit`] holds.
pub struct Node {
    pub oid: Seq<char>,
    pub parents: Seq<NodeIndex>,
    pub timestamp: i64,
    pub author: Seq<char>,
    pub summary: Seq<char>,
}

impl View for Commit {
    type V = Node;

    open spec fn view(&self) -> Node {
        Node {
            oid: self.oid@,
            parents: self.parents@,
            timestamp: self.timestamp,
            author: self.author@,
            summary: self.summary@,
        }
    }
}

impl Commit {
    /// Whether this is a merge: two parents or more.
    pub fn is_merge(&self) -> (r: bool)
        ensures
            r == (self.parents@.len() >= 2),
    {
        self.parents.len() >= 2
    }

    /// Whether this commit has no parent in the graph.
    pub fn is_root(&self) -> (r: bool)
        ensures
            r == (self.parents@.len() == 0),
    {
        self.parents.len() == 0
    }
}

/// Every parent is a node of the graph, and no two nodes share an oid.
pub open spec fn valid_nodes(nodes: Seq<Node>) -> bool {
    &&& forall|v: int, k: int|
        #![trigger nodes[v].parents[k]]
        0 <= v < nodes.len() && 0 <= k < nodes[v].parents.len() ==> nodes[v].parents[k] < nodes.len()
    &&& forall|v: int, w: int|
        #![trigger nodes[v].oid, nodes[w].oid]
        0 <= v < nodes.len() && 0 <= w < nodes.len() && nodes[v].oid == nodes[w].oid ==> v == w
}

/// `child`, once for each of its first `count` parents that is `parent`.
pub open spec fn child_entries(
    parents: Seq<NodeIndex>,
    parent: int,
    child: NodeIndex,
    count: nat,
) -> Seq<NodeIndex>
    decreases count,
{
    if count == 0 {
        Seq::empty()
    } else {
        let before = child_entries(parents, parent, child, (count - 1) as nat);
        if parents[count - 1] == parent {
            before.push(child)
        } else {
            before
        }
    }
}

/// The children of `parent` among the first `count` nodes, in index order. A child
/// that names the parent more than once appears as often.
pub open spec fn children_among(nodes: Seq<Node>, parent: int, count: nat) -> Seq<NodeIndex>
    decreases count,
{
    if count == 0 {
        Seq::empty()
    } else {
        let last = nodes[count - 1].parents;
        children_among(nodes, parent, (count - 1) as nat) + child_entries(
            last,
            parent,
            (count - 1) as usize,
            last.len(),
        )
    }
}

/// A set of commits with their parent and child relations.
///
/// Immutable once built; see [`CommitGraphBuilder`].
pub struct CommitGraph {
    commits: Vec<Commit>,
    children: Vec<Vec<NodeIndex>>,
    by_oid: StringHashMap<NodeIndex>,
}

impl View for CommitGraph {
    type V = Seq<Node>;

    closed spec fn view(&self) -> Seq<Node> {
        Seq::new(self.commits@.len(), |v: int| self.commits@[v]@)
    }
}

impl Default for CommitGraph {
    fn default() -> (r: Self)
        ensures
            r@ == Seq::<Node>::empty(),
    {
        CommitGraphBuilder::new().build()
    }
}

impl CommitGraph {
    /// The relations agree with each other.
    #[verifier::type_invariant]
    pub closed spec fn wf(&self) -> bool {
        &&& valid_nodes(self@)
        &&& self.children@.len() == self.commits@.len()
        &&& forall|v: int|
            0 <= v < self.children@.len() ==> #[trigger] self.children@[v]@ == children_among(
                self@,
                v,
                self@.len(),
            )
        &&& maps_oids(self.by_oid@, oids_of_nodes(self@))
    }

    /// A graph has valid nodes, no more than an index can count.
    pub proof fn lemma_wf(&self)
        requires
            self.wf(),
        ensures
            valid_nodes(self@),
            self@.len() <= usize::MAX,
    {
        assert(self.commits.len() == self@.len());
    }

    pub fn len(&self) -> (r: usize)
        ensures
            r == self@.len(),
    {
        self.commits.len()
    }

    pub fn is_empty(&self) -> (r: bool)
        ensures
            r == (self@.len() == 0),
    {
        self.commits.len() == 0
    }

    pub fn commit(&self, index: NodeIndex) -> (r: &Commit)
        requires
            index < self@.len(),
        ensures
            r@ == self@[index as int],
    {
        &self.commits[index]
    }

    pub fn parents(&self, index: NodeIndex) -> (r: &[NodeIndex])
        requires
            index < self@.len(),
        ensures
            r@ == self@[index as int].parents,
    {
        self.commits[index].parents.as_slice()
    }

    pub fn children(&self, index: NodeIndex) -> (r: &[NodeIndex])
        requires
            index < self@.len(),
        ensures
            r@ == children_among(self@, index as int, self@.len()),
    {
        proof {
            use_type_invariant(self);
        }
        self.children[index].as_slice()
    }

    /// The node with the given oid, if the graph has one.
    pub fn index_of(&self, oid: &str) -> (r: Option<NodeIndex>)
        ensures
            match r {
                Some(index) => index < self@.len() && self@[index as int].oid == oid@,
                None => forall|v: int| 0 <= v < self@.len() ==> (#[trigger] self@[v]).oid != oid@,
            },
    {
        proof {
            use_type_invariant(self);
        }
        match self.by_oid.get(oid) {
            Some(index) => {
                Some(*index)
            }
            None => {
                assert forall|v: int| 0 <= v < self@.len() implies (#[trigger] self@[v]).oid != oid@ by {
                    assert(oids_of_nodes(self@)[v] == self@[v].oid);
                }
                None
            }
        }
    }

    /// All nodes in index order.
    pub fn indices(&self) -> (r: std::ops::Range<NodeIndex>)
        ensures
            r.start == 0,
            r.end == self@.len(),
    {
        0..self.commits.len()
    }

    /// The number of merges.
    pub fn merge_count(&self) -> (r: usize)
        ensures
            r == self@.filter(|node: Node| node.parents.len() >= 2).len(),
    {
        let ghost merge = |node: Node| node.parents.len() >= 2;
        let mut count: usize = 0;
        let mut index: usize = 0;
        proof {
            reveal(Seq::filter);
        }
        while index < self.commits.len()
            invariant
                index <= self.commits@.len(),
                self@.len() == self.commits@.len(),
                count <= index,
                merge == (|node: Node| node.parents.len() >= 2),
                count == self@.take(index as int).filter(merge).len(),
            decreases self.commits@.len() - index,
        {
            proof {
                reveal(Seq::filter);
                assert(self@.take(index + 1).drop_last() =~= self@.take(index as int));
                assert(self@.take(index + 1).last() == self.commits@[index as int]@);
            }
            if self.commits[index].is_merge() {
                count += 1;
            }
            index += 1;
        }
        assert(self@.take(index as int) =~= self@);
        count
    }
}

pub open spec fn oids_of_nodes(nodes: Seq<Node>) -> Seq<Seq<char>> {
    Seq::new(nodes.len(), |v: int| nodes[v].oid)
}

/// The map sends exactly the given oids, each to its position.
pub open spec fn maps_oids(map: Map<Seq<char>, NodeIndex>, oids: Seq<Seq<char>>) -> bool {
    &&& forall|v: int| 0 <= v < oids.len() ==> map.dom().contains(#[trigger] oids[v]) && map[oids[v]] == v
    &&& forall|oid: Seq<char>| #[trigger]
        map.dom().contains(oid) ==> map[oid] < oids.len() && oids[map[oid] as int] == oid
}

/// A commit whose parents are still named by oid.
struct RawCommit {
    oid: String,
    parent_oids: Vec<String>,
    timestamp: i64,
    author: String,
    summary: String,
}

/// What was pushed to a [`CommitGraphBuilder`] for one commit.
pub struct Entry {
    pub oid: Seq<char>,
    pub parent_oids: Seq<Seq<char>>,
    pub timestamp: i64,
    pub author: Seq<char>,
    pub summary: Seq<char>,
}

impl View for RawCommit {
    type V = Entry;

    closed spec fn view(&self) -> Entry {
        Entry {
            oid: self.oid@,
            parent_oids: Seq::new(self.parent_oids@.len(), |k: int| self.parent_oids@[k]@),
            timestamp: self.timestamp,
            author: self.author@,
            summary: self.summary@,
        }
    }
}

pub open spec fn oids_of_entries(entries: Seq<Entry>) -> Seq<Seq<char>> {
    Seq::new(entries.len(), |v: int| entries[v].oid)
}

/// The positions, in `oids`, of those of the given oids that occur there.
pub open spec fn known_positions(oids: Seq<Seq<char>>, named: Seq<Seq<char>>) -> Seq<NodeIndex>
    decreases named.len(),
{
    if named.len() == 0 {
        Seq::empty()
    } else {
        let before = known_positions(oids, named.drop_last());
        if oids.contains(named.last()) {
            before.push(oids.index_of(named.last()) as usize)
        } else {
            before
        }
    }
}

/// The node of an entry: its parents are those of its named parents that are among
/// the entries.
pub open spec fn resolve(entries: Seq<Entry>) -> Seq<Node> {
    Seq::new(
        entries.len(),
        |v: int|
            Node {
                oid: entries[v].oid,
                parents: known_positions(oids_of_entries(entries), entries[v].parent_oids),
                timestamp: entries[v].timestamp,
                author: entries[v].author,
                summary: entries[v].summary,
            },
    )
}

/// Builds a [`CommitGraph`] in two phases: a commit may be pushed before its parents,
/// whose indices are known only once everything has been pushed.
pub struct CommitGraphBuilder {
    entries: Vec<RawCommit>,
    by_oid: StringHashMap<NodeIndex>,
}

impl View for CommitGraphBuilder {
    type V = Seq<Entry>;

    closed spec fn view(&self) -> Seq<Entry> {
        Seq::new(self.entries@.len(), |v: int| self.entries@[v]@)
    }
}

impl Default for CommitGraphBuilder {
    fn default() -> (r: Self)
        ensures
            r.wf(),
            r@ == Seq::<Entry>::empty(),
    {
        CommitGraphBuilder::new()
    }
}

impl CommitGraphBuilder {
    /// Each entry is found under its oid.
    pub closed spec fn wf(&self) -> bool {
        maps_oids(self.by_oid@, oids_of_entries(self@))
    }

    pub fn new() -> (r: Self)
        ensures
            r.wf(),
            r@ == Seq::<Entry>::empty(),
    {
        CommitGraphBuilder { entries: Vec::new(), by_oid: StringHashMap::new() }
    }

    pub fn with_capacity(capacity: usize) -> (r: Self)
        ensures
            r.wf(),
            r@ == Seq::<Entry>::empty(),
    {
        CommitGraphBuilder {
            entries: Vec::with_capacity(capacity),
            by_oid: StringHashMap::with_capacity(capacity),
        }
    }

    /// Adds a commit. A second commit with the same oid is ignored.
    pub fn push(
        &mut self,
        oid: &str,
        parent_oids: Vec<String>,
        timestamp: i64,
        author: &str,
        summary: &str,
    )
        requires
            old(self).wf(),
        ensures
            final(self).wf(),
            final(self)@ == if oids_of_entries(old(self)@).contains(oid@) {
                old(self)@
            } else {
                old(self)@.push(
                    (Entry {
                        oid: oid@,
                        parent_oids: Seq::new(parent_oids@.len(), |k: int| parent_oids@[k]@),
                        timestamp: timestamp,
                        author: author@,
                        summary: summary@,
                    }),
                )
            },
    {
        let ghost oids = oids_of_entries(self@);
        if self.by_oid.contains_key(oid) {
            assert(oids[self.by_oid@[oid@] as int] == oid@);
            return;
        }
        proof {
            if oids.contains(oid@) {
                let v = choose|v: int| 0 <= v < oids.len() && oids[v] == oid@;
                assert(self.by_oid@.dom().contains(oids[v]));
            }
        }
        let ghost before = self@;
        let ghost map = self.by_oid@;
        self.by_oid.insert(oid.to_owned(), self.entries.len());
        self.entries.push(
            RawCommit {
                oid: oid.to_owned(),
                parent_oids,
                timestamp,
                author: author.to_owned(),
                summary: summary.to_owned(),
            },
        );
        proof {
            assert(self@.drop_last() =~= before);
            assert(self@ =~= before.push(self@.last()));
            let now = oids_of_entries(self@);
            assert(now =~= oids.push(oid@));
            assert forall|other: Seq<char>| #[trigger]
                self.by_oid@.dom().contains(other) implies self.by_oid@[other] < now.len()
                && now[self.by_oid@[other] as int] == other by {
                if other != oid@ {
                    assert(map.dom().contains(other));
                }
            }
        }
    }

    pub fn len(&self) -> (r: usize)
        ensures
            r == self@.len(),
    {
        self.entries.len()
    }

    pub fn is_empty(&self) -> (r: bool)
        ensures
            r == (self@.len() == 0),
    {
        self.entries.len() == 0
    }

    /// Resolves the parents and hands out the graph.
    pub fn build(self) -> (r: CommitGraph)
        requires
            self.wf(),
        ensures
            r.wf(),
            r@ == resolve(self@),
    {
        let ghost entries = self@;
        let ghost oids = oids_of_entries(entries);
        let CommitGraphBuilder { entries: raw, by_oid } = self;
        let count = raw.len();
        let mut commits: Vec<Commit> = Vec::with_capacity(count);
        let mut children: Vec<Vec<NodeIndex>> = Vec::with_capacity(count);
        for entry in it: raw
            invariant
                it.seq() == raw@,
                count == raw@.len(),
                entries == Seq::new(raw@.len(), |v: int| raw@[v]@),
                oids == oids_of_entries(entries),
                maps_oids(by_oid@, oids),
                commits@.len() == it.index(),
                children@.len() == it.index(),
                forall|v: int| 0 <= v < commits@.len() ==> (#[trigger] commits@[v])@ == resolve(entries)[v],
                forall|v: int| 0 <= v < children@.len() ==> (#[trigger] children@[v])@ == Seq::<NodeIndex>::empty(),
        {
            let parents = known_parents(&entry.parent_oids, &by_oid, Ghost(oids));
            assert(entries[it.index() as int].parent_oids == Seq::new(
                entry.parent_oids@.len(),
                |k: int| entry.parent_oids@[k]@,
            ));
            commits.push(
                Commit {
                    oid: entry.oid,
                    parents,
                    timestamp: entry.timestamp,
                    author: entry.author,
                    summary: entry.summary,
                },
            );
            children.push(Vec::new());
        }
        let ghost nodes = resolve(entries);
        assert(Seq::new(commits@.len(), |v: int| commits@[v]@) =~= nodes);
        proof {
            lemma_resolve_is_valid(entries, by_oid@);
        }
        link_children(&commits, &mut children, Ghost(nodes));
        assert(oids_of_nodes(nodes) =~= oids);
        CommitGraph { commits, children, by_oid }
    }
}

/// The positions of the parents that are known.
fn known_parents(
    named: &Vec<String>,
    by_oid: &StringHashMap<NodeIndex>,
    Ghost(oids): Ghost<Seq<Seq<char>>>,
) -> (r: Vec<NodeIndex>)
    requires
        maps_oids(by_oid@, oids),
    ensures
        r@ == known_positions(oids, Seq::new(named@.len(), |k: int| named@[k]@)),
{
    let ghost texts = Seq::new(named@.len(), |k: int| named@[k]@);
    let mut out: Vec<NodeIndex> = Vec::new();
    let mut index: usize = 0;
    assert(texts.take(0) =~= Seq::empty());
    while index < named.len()
        invariant
            index <= named@.len(),
            maps_oids(by_oid@, oids),
            texts == Seq::new(named@.len(), |k: int| named@[k]@),
            out@ == known_positions(oids, texts.take(index as int)),
        decreases named@.len() - index,
    {
        let ghost last = named@[index as int]@;
        assert(texts.take(index + 1).drop_last() =~= texts.take(index as int));
        assert(texts.take(index + 1).last() == last);
        match by_oid.get(named[index].as_str()) {
            Some(position) => {
                assert(oids[*position as int] == last);
                assert(oids.contains(last));
                assert(oids.index_of(last) == *position) by {
                    let found = oids.index_of(last);
                    assert(oids[found] == last);
                    assert(by_oid@[oids[found]] == found);
                }
                out.push(*position);
            }
            None => {
                assert(!oids.contains(last)) by {
                    if oids.contains(last) {
                        let v = choose|v: int| 0 <= v < oids.len() && oids[v] == last;
                        assert(by_oid@.dom().contains(oids[v]));
                    }
                }
            }
        }
        index += 1;
    }
    assert(texts.take(index as int) =~= texts);
    out
}

proof fn lemma_known_positions_in_range(oids: Seq<Seq<char>>, named: Seq<Seq<char>>, k: int)
    requires
        oids.len() <= usize::MAX,
        0 <= k < known_positions(oids, named).len(),
    ensures
        known_positions(oids, named)[k] < oids.len(),
    decreases named.len(),
{
    if named.len() > 0 {
        let before = known_positions(oids, named.drop_last());
        if k < before.len() {
            lemma_known_positions_in_range(oids, named.drop_last(), k);
        } else {
            assert(oids.contains(named.last()));
            let found = oids.index_of(named.last());
            assert(0 <= found < oids.len());
        }
    }
}

proof fn lemma_resolve_is_valid(entries: Seq<Entry>, map: Map<Seq<char>, NodeIndex>)
    requires
        maps_oids(map, oids_of_entries(entries)),
        entries.len() <= usize::MAX,
    ensures
        valid_nodes(resolve(entries)),
{
    let nodes = resolve(entries);
    let oids = oids_of_entries(entries);
    assert forall|v: int, k: int|
        #![trigger nodes[v].parents[k]]
        0 <= v < nodes.len() && 0 <= k < nodes[v].parents.len() implies nodes[v].parents[k]
        < nodes.len() by {
        lemma_known_positions_in_range(oids, entries[v].parent_oids, k);
    }
    assert forall|v: int, w: int|
        #![trigger nodes[v].oid, nodes[w].oid]
        0 <= v < nodes.len() && 0 <= w < nodes.len() && nodes[v].oid == nodes[w].oid implies v
        == w by {
        assert(oids[v] == oids[w]);
        assert(map[oids[v]] == v);
        assert(map[oids[w]] == w);
    }
}

/// Fills in the children from the parents.
fn link_children(
    commits: &Vec<Commit>,
    children: &mut Vec<Vec<NodeIndex>>,
    Ghost(nodes): Ghost<Seq<Node>>,
)
    requires
        nodes == Seq::new(commits@.len(), |v: int| commits@[v]@),
        valid_nodes(nodes),
        old(children)@.len() == nodes.len(),
        forall|v: int|
            0 <= v < nodes.len() ==> (#[trigger] old(children)@[v])@ == Seq::<NodeIndex>::empty(),
    ensures
        final(children)@.len() == nodes.len(),
        forall|v: int|
            0 <= v < nodes.len() ==> (#[trigger] final(children)@[v])@ == children_among(
                nodes,
                v,
                nodes.len(),
            ),
{
    let mut index: usize = 0;
    while index < commits.len()
        invariant
            index <= commits@.len(),
            nodes == Seq::new(commits@.len(), |v: int| commits@[v]@),
            valid_nodes(nodes),
            children@.len() == nodes.len(),
            forall|v: int|
                0 <= v < nodes.len() ==> (#[trigger] children@[v])@ == children_among(
                    nodes,
                    v,
                    index as nat,
                ),
        decreases commits@.len() - index,
    {
        let parents = &commits[index].parents;
        let ghost before = children@;
        assert(nodes[index as int].parents == parents@);
        assert forall|v: int| 0 <= v < nodes.len() implies (#[trigger] children@[v])@ == before[v]@
            + child_entries(parents@, v, index, 0) by {
            assert(before[v]@ + child_entries(parents@, v, index, 0) =~= before[v]@);
        }
        let mut k: usize = 0;
        while k < parents.len()
            invariant
                index < commits@.len(),
                k <= parents@.len(),
                nodes == Seq::new(commits@.len(), |v: int| commits@[v]@),
                nodes[index as int].parents == parents@,
                valid_nodes(nodes),
                children@.len() == nodes.len(),
                forall|v: int|
                    0 <= v < nodes.len() ==> (#[trigger] children@[v])@ == before[v]@
                        + child_entries(parents@, v, index, k as nat),
            decreases parents@.len() - k,
        {
            let parent = parents[k];
            assert(nodes[index as int].parents[k as int] < nodes.len());
            let ghost inner = children@;
            children[parent].push(index);
            assert forall|v: int| 0 <= v < nodes.len() implies (#[trigger] children@[v])@
                == before[v]@ + child_entries(parents@, v, index, (k + 1) as nat) by {
                assert(inner[v]@ == before[v]@ + child_entries(parents@, v, index, k as nat));
                if v == parent {
                    assert(children@[v]@ =~= before[v]@ + child_entries(
                        parents@,
                        v,
                        index,
                        (k + 1) as nat,
                    ));
                }
            }
            k += 1;
        }
        index += 1;
    }
}

proof fn lemma_child_entries(
    parents: Seq<NodeIndex>,
    parent: int,
    child: NodeIndex,
    count: nat,
)
    requires
        count <= parents.len(),
    ensures
        forall|w: NodeIndex| #[trigger]
            child_entries(parents, parent, child, count).contains(w) <==> w == child && exists|k: int|
                0 <= k < count && #[trigger] parents[k] == parent,
    decreases count,
{
    let all = child_entries(parents, parent, child, count);
    if count > 0 {
        let less = (count - 1) as nat;
        let before = child_entries(parents, parent, child, less);
        lemma_child_entries(parents, parent, child, less);
        assert forall|w: NodeIndex| #[trigger] all.contains(w) <==> w == child && exists|k: int|
            0 <= k < count && #[trigger] parents[k] == parent by {
            if parents[less as int] == parent {
                assert(all == before.push(child));
                assert(all[before.len() as int] == child);
                if all.contains(w) {
                    let i = choose|i: int| 0 <= i < all.len() && all[i] == w;
                    if i < before.len() {
                        assert(before[i] == w);
                        assert(before.contains(w));
                    }
                }
            } else {
                assert(all == before);
                if w == child && exists|k: int| 0 <= k < count && #[trigger] parents[k] == parent {
                    let k = choose|k: int| 0 <= k < count && #[trigger] parents[k] == parent;
                    assert(0 <= k < less && parents[k] == parent);
                    assert(before.contains(w));
                }
                if before.contains(w) {
                    let k = choose|k: int| 0 <= k < less && #[trigger] parents[k] == parent;
                    assert(0 <= k < count && parents[k] == parent);
                }
            }
        }
    }
}

/// The two directions of the relation agree: a node is among the children of another
/// exactly if it names that node as a parent.
pub proof fn children_mirror_parents(nodes: Seq<Node>, parent: int, count: nat)
    requires
        count <= nodes.len() <= usize::MAX,
    ensures
        forall|child: NodeIndex| #[trigger]
            children_among(nodes, parent, count).contains(child) <==> child < count && exists|k: int|
                0 <= k < nodes[child as int].parents.len() && #[trigger] nodes[child as int].parents[k]
                    == parent,
    decreases count,
{
    let all = children_among(nodes, parent, count);
    if count > 0 {
        let less = (count - 1) as nat;
        let before = children_among(nodes, parent, less);
        let own = nodes[less as int].parents;
        let added = child_entries(own, parent, less as usize, own.len());
        children_mirror_parents(nodes, parent, less);
        lemma_child_entries(own, parent, less as usize, own.len());
        assert forall|child: NodeIndex| #[trigger] all.contains(child) <==> child < count
            && exists|k: int|
            0 <= k < nodes[child as int].parents.len() && #[trigger] nodes[child as int].parents[k]
                == parent by {
            assert(all == before + added);
            if all.contains(child) {
                let i = choose|i: int| 0 <= i < all.len() && all[i] == child;
                if i < before.len() {
                    assert(before[i] == child);
                    assert(before.contains(child));
                } else {
                    assert(added[i - before.len()] == child);
                    assert(added.contains(child));
                }
            }
            if before.contains(child) {
                let i = choose|i: int| 0 <= i < before.len() && before[i] == child;
                assert(all[i] == child);
            }
            if added.contains(child) {
                let i = choose|i: int| 0 <= i < added.len() && added[i] == child;
                assert(all[before.len() + i] == child);
            }
        }
    }
}

} // verus!
