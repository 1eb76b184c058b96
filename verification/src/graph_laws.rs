//! What holds of every commit graph that is read.
use vstd::prelude::*;

use crate::dag::{
    child_entries, children_among, known_positions, oids_of_entries, resolve, Entry, Node,
    NodeIndex,
};
use crate::order::{newest_first, ready};
use crate::repo::{entries_of, labels_of, names_at, RawHistory, RawLabel};
use crate::text::{lossy_text, precedes};

verus! {

/// Whether some entry has the given oid.
pub open spec fn has_entry(entries: Seq<Entry>, oid: Seq<char>) -> bool {
    exists|w: int| 0 <= w < entries.len() && (#[trigger] entries[w]).oid == oid
}

proof fn lemma_known(entries: Seq<Entry>, named: Seq<Seq<char>>)
    requires
        entries.len() <= usize::MAX,
    ensures
        ({
            let found = known_positions(oids_of_entries(entries), named);
            &&& forall|k: int| 0 <= k < found.len() ==> (#[trigger] found[k]) < entries.len()
            &&& found.map_values(|w: NodeIndex| entries[w as int].oid) == named.filter(
                |oid: Seq<char>| has_entry(entries, oid),
            )
        }),
    decreases named.len(),
{
    reveal(Seq::filter);
    let oids = oids_of_entries(entries);
    let found = known_positions(oids, named);
    let view = |w: NodeIndex| entries[w as int].oid;
    let known = |oid: Seq<char>| has_entry(entries, oid);
    if named.len() > 0 {
        lemma_known(entries, named.drop_last());
        let last = named.last();
        if oids.contains(last) {
            let w = oids.index_of(last);
            assert(0 <= w < oids.len() && oids[w] == last);
            assert(entries[w].oid == last);
        }
        if has_entry(entries, last) {
            let w = choose|w: int| 0 <= w < entries.len() && (#[trigger] entries[w]).oid == last;
            assert(oids[w] == last);
            assert(oids.contains(last));
        }
    }
    assert(found.map_values(view) =~= named.filter(known));
}

/// A commit of the graph is what was pushed for it. Its parents are the commits that it
/// names, in the order in which it names them, without those that are not there.
pub proof fn commits_keep_what_was_pushed(entries: Seq<Entry>, v: int)
    requires
        entries.len() <= usize::MAX,
        0 <= v < entries.len(),
    ensures
        resolve(entries).len() == entries.len(),
        resolve(entries)[v].oid == entries[v].oid,
        resolve(entries)[v].timestamp == entries[v].timestamp,
        resolve(entries)[v].author == entries[v].author,
        resolve(entries)[v].summary == entries[v].summary,
        forall|k: int|
            0 <= k < resolve(entries)[v].parents.len() ==> (#[trigger] resolve(
                entries,
            )[v].parents[k]) < entries.len(),
        resolve(entries)[v].parents.map_values(|w: NodeIndex| entries[w as int].oid)
            == entries[v].parent_oids.filter(|oid: Seq<char>| has_entry(entries, oid)),
{
    lemma_known(entries, entries[v].parent_oids);
}

proof fn lemma_child_entries_are(
    parents: Seq<NodeIndex>,
    parent: int,
    child: NodeIndex,
    count: nat,
    i: int,
)
    requires
        0 <= i < child_entries(parents, parent, child, count).len(),
    ensures
        child_entries(parents, parent, child, count)[i] == child,
    decreases count,
{
    if count > 0 {
        let less = (count - 1) as nat;
        if i < child_entries(parents, parent, child, less).len() {
            lemma_child_entries_are(parents, parent, child, less, i);
        }
    }
}

proof fn lemma_children_below(nodes: Seq<Node>, parent: int, count: nat, i: int)
    requires
        count <= nodes.len() <= usize::MAX,
        0 <= i < children_among(nodes, parent, count).len(),
    ensures
        children_among(nodes, parent, count)[i] < count,
    decreases count,
{
    if count > 0 {
        let less = (count - 1) as nat;
        let before = children_among(nodes, parent, less);
        let own = nodes[less as int].parents;
        if i < before.len() {
            lemma_children_below(nodes, parent, less, i);
        } else {
            lemma_child_entries_are(own, parent, less as usize, own.len(), i - before.len());
        }
    }
}

/// The children of a commit are listed in the order in which they were pushed.
pub proof fn children_are_in_order(nodes: Seq<Node>, parent: int, count: nat, i: int, j: int)
    requires
        count <= nodes.len() <= usize::MAX,
        0 <= i < j < children_among(nodes, parent, count).len(),
    ensures
        children_among(nodes, parent, count)[i] <= children_among(nodes, parent, count)[j],
    decreases count,
{
    if count > 0 {
        let less = (count - 1) as nat;
        let before = children_among(nodes, parent, less);
        let own = nodes[less as int].parents;
        if j < before.len() {
            children_are_in_order(nodes, parent, less, i, j);
        } else {
            lemma_child_entries_are(own, parent, less as usize, own.len(), j - before.len());
            if i < before.len() {
                lemma_children_below(nodes, parent, less, i);
            } else {
                lemma_child_entries_are(own, parent, less as usize, own.len(), i - before.len());
            }
        }
    }
}

/// A child is listed as often as it names the commit among its parents.
pub proof fn children_are_listed_as_often_as_they_name(
    nodes: Seq<Node>,
    parent: int,
    count: nat,
    child: NodeIndex,
)
    requires
        count <= nodes.len() <= usize::MAX,
    ensures
        children_among(nodes, parent, count).filter(|w: NodeIndex| w == child).len() == if child
            < count {
            nodes[child as int].parents.filter(|p: NodeIndex| p == parent).len()
        } else {
            0
        },
    decreases count,
{
    reveal(Seq::filter);
    let wanted = |w: NodeIndex| w == child;
    if count > 0 {
        let less = (count - 1) as nat;
        let own = nodes[less as int].parents;
        let before = children_among(nodes, parent, less);
        let added = child_entries(own, parent, less as usize, own.len());
        children_are_listed_as_often_as_they_name(nodes, parent, less, child);
        lemma_entries_counted(own, parent, less as usize, own.len(), child);
        Seq::filter_distributes_over_add(before, added, wanted);
        assert(own.take(own.len() as int) =~= own);
    }
}

proof fn lemma_entries_counted(
    parents: Seq<NodeIndex>,
    parent: int,
    child: NodeIndex,
    count: nat,
    wanted: NodeIndex,
)
    requires
        count <= parents.len(),
    ensures
        child_entries(parents, parent, child, count).filter(|w: NodeIndex| w == wanted).len()
            == if wanted == child {
            parents.take(count as int).filter(|p: NodeIndex| p == parent).len()
        } else {
            0
        },
    decreases count,
{
    reveal(Seq::filter);
    if count > 0 {
        let less = (count - 1) as nat;
        lemma_entries_counted(parents, parent, child, less, wanted);
        assert(parents.take(count as int).drop_last() =~= parents.take(less as int));
        assert(parents.take(count as int).last() == parents[less as int]);
        let before = child_entries(parents, parent, child, less);
        assert(before.push(child).drop_last() =~= before);
    }
}

/// Whether an entry is what was read of a commit.
pub open spec fn is_entry_of(entry: Entry, commit: RawHistory) -> bool {
    &&& entry.oid == commit.oid@
    &&& entry.timestamp == commit.timestamp
    &&& entry.author == lossy_text(commit.author@)
    &&& commit.summary is Some ==> entry.summary == lossy_text(commit.summary->0@)
    &&& commit.summary is None ==> entry.summary.len() == 0
    &&& entry.parent_oids.len() == commit.parents@.len()
    &&& forall|k: int|
        0 <= k < commit.parents@.len() ==> #[trigger] entry.parent_oids[k] == commit.parents@[k]@
}

/// Every commit that could be read gets into the graph, once, and nothing else does.
pub proof fn every_commit_that_was_read_is_there(commits: Seq<Option<RawHistory>>)
    ensures
        forall|a: int, b: int|
            #![trigger entries_of(commits)[a], entries_of(commits)[b]]
            0 <= a < b < entries_of(commits).len() ==> entries_of(commits)[a].oid != entries_of(
                commits,
            )[b].oid,
        forall|i: int|
            #![trigger commits[i]]
            0 <= i < commits.len() && commits[i] is Some ==> has_entry(
                entries_of(commits),
                commits[i]->0.oid@,
            ),
        forall|a: int|
            0 <= a < entries_of(commits).len() ==> exists|i: int|
                #![trigger commits[i]]
                0 <= i < commits.len() && commits[i] is Some && is_entry_of(
                    #[trigger] entries_of(commits)[a],
                    commits[i]->0,
                ) && forall|j: int|
                    #![trigger commits[j]]
                    0 <= j < i && commits[j] is Some ==> commits[j]->0.oid@ != commits[i]->0.oid@,
    decreases commits.len(),
{
    let all = entries_of(commits);
    if commits.len() > 0 {
        let rest = commits.drop_last();
        let before = entries_of(rest);
        let oids = oids_of_entries(before);
        every_commit_that_was_read_is_there(rest);
        assert forall|i: int| 0 <= i < rest.len() implies rest[i] == commits[i] by {}
        let last = commits.last();
        if last is Some {
            let oid = last->0.oid@;
            if oids.contains(oid) {
                let w = choose|w: int| 0 <= w < oids.len() && oids[w] == oid;
                assert(before[w].oid == oid);
                assert(has_entry(all, oid));
            } else {
                assert forall|w: int| 0 <= w < before.len() implies (#[trigger] before[w]).oid
                    != oid by {
                    assert(oids[w] == before[w].oid);
                    if before[w].oid == oid {
                        assert(oids.contains(oid));
                    }
                }
                assert(all == before.push(crate::repo::entry_of(last->0)));
                assert(all[before.len() as int].oid == oid);
                assert(has_entry(all, oid));
                assert forall|j: int|
                    #![trigger commits[j]]
                    0 <= j < commits.len() - 1 && commits[j] is Some implies commits[j]->0.oid@
                    != oid by {
                    assert(rest[j] == commits[j]);
                    let w = choose|w: int|
                        0 <= w < before.len() && (#[trigger] before[w]).oid == commits[j]->0.oid@;
                    assert(before[w].oid != oid);
                }
            }
        }
        assert forall|i: int|
            #![trigger commits[i]]
            0 <= i < commits.len() && commits[i] is Some implies has_entry(
            all,
            commits[i]->0.oid@,
        ) by {
            if i < rest.len() {
                assert(rest[i] == commits[i]);
                let w = choose|w: int|
                    0 <= w < before.len() && (#[trigger] before[w]).oid == commits[i]->0.oid@;
                assert(all[w] == before[w]);
            }
        }
        assert forall|a: int| 0 <= a < all.len() implies exists|i: int|
            #![trigger commits[i]]
            0 <= i < commits.len() && commits[i] is Some && is_entry_of(
                #[trigger] all[a],
                commits[i]->0,
            ) && forall|j: int|
                #![trigger commits[j]]
                0 <= j < i && commits[j] is Some ==> commits[j]->0.oid@ != commits[i]->0.oid@ by {
            if a < before.len() {
                assert(all[a] == before[a]);
                let i = choose|i: int|
                    #![trigger rest[i]]
                    0 <= i < rest.len() && rest[i] is Some && is_entry_of(before[a], rest[i]->0)
                        && forall|j: int|
                        #![trigger rest[j]]
                        0 <= j < i && rest[j] is Some ==> rest[j]->0.oid@ != rest[i]->0.oid@;
                assert(commits[i] == rest[i]);
                assert forall|j: int|
                    #![trigger commits[j]]
                    0 <= j < i && commits[j] is Some implies commits[j]->0.oid@
                    != commits[i]->0.oid@ by {
                    assert(rest[j] == commits[j]);
                }
            } else {
                assert(commits[commits.len() - 1] == last);
                assert(is_entry_of(all[a], last->0));
            }
        }
    }
}

/// The names at a commit are those of all references that lead to it, in the order in which
/// they come.
pub proof fn every_reference_is_named(references: Seq<RawLabel>, oid: Seq<char>)
    ensures
        names_at(labels_of(references), oid) == references.filter(
            |reference: RawLabel| reference.oid is Some && reference.oid->0@ == oid,
        ).map_values(|reference: RawLabel| lossy_text(reference.name@)),
    decreases references.len(),
{
    reveal(Seq::filter);
    let leads = |reference: RawLabel| reference.oid is Some && reference.oid->0@ == oid;
    let name = |reference: RawLabel| lossy_text(reference.name@);
    if references.len() > 0 {
        every_reference_is_named(references.drop_last(), oid);
    }
    assert(names_at(labels_of(references), oid) =~= references.filter(leads).map_values(name));
}

/// Of two commits that could both come next, the later one does, and of two of the same time
/// the one with the smaller name. So a commit is only ever held back by a child of it that is
/// still to come.
pub proof fn later_commits_come_first(nodes: Seq<Node>, order: Seq<NodeIndex>, i: int, j: int)
    requires
        newest_first(nodes, order),
        0 <= i < j < order.len(),
        forall|child: int, k: int|
            #![trigger nodes[child].parents[k]]
            0 <= child < nodes.len() && 0 <= k < nodes[child].parents.len()
                && nodes[child].parents[k] == order[j] ==> exists|p: int|
                0 <= p < i && #[trigger] order[p] == child,
    ensures
        nodes[order[i] as int].timestamp >= nodes[order[j] as int].timestamp,
        nodes[order[i] as int].timestamp == nodes[order[j] as int].timestamp ==> precedes(
            nodes[order[i] as int].oid,
            nodes[order[j] as int].oid,
        ),
{
    let placed = order.take(i);
    let held = order[j] as int;
    crate::order_laws::nodes_are_placed_once(nodes, order);
    assert(order[i] != order[j]);
    assert(ready(nodes, placed, held)) by {
        assert forall|p: int| 0 <= p < placed.len() implies #[trigger] placed[p] != order[j] by {
            assert(placed[p] == order[p]);
        }
    }
}

} // verus!
