//! The history of a repository, as it is read.
//!
//! What git hands over is plain data here; nothing in this module writes to a repository.
use vstd::hash_map::StringHashMap;
use vstd::prelude::*;

use crate::dag::{oids_of_entries, resolve, CommitGraph, CommitGraphBuilder, Entry, Node};
use crate::divergence::{optional_text, read_optional};
use crate::git::RepoState;
use crate::text;
use crate::text::lossy_text;

verus! {

/// A commit of the history, as it was read.
#[derive(Debug)]
pub struct RawHistory {
    pub oid: String,
    pub parents: Vec<String>,
    pub timestamp: i64,
    pub author: Vec<u8>,
    pub summary: Option<Vec<u8>>,
}

/// What is kept of a commit. Names and messages that are not UTF-8 are kept as well as
/// can be.
pub open spec fn entry_of(commit: RawHistory) -> Entry {
    Entry {
        oid: commit.oid@,
        parent_oids: text::views_of(commit.parents@),
        timestamp: commit.timestamp,
        author: lossy_text(commit.author@),
        summary: optional_text(commit.summary),
    }
}

/// The entries of the commits that could be read, each oid once.
pub open spec fn entries_of(commits: Seq<Option<RawHistory>>) -> Seq<Entry>
    decreases commits.len(),
{
    if commits.len() == 0 {
        Seq::empty()
    } else {
        let before = entries_of(commits.drop_last());
        match commits.last() {
            None => before,
            Some(commit) => if oids_of_entries(before).contains(commit.oid@) {
                before
            } else {
                before.push(entry_of(commit))
            },
        }
    }
}

/// Puts the commits of a repository into a graph, in whatever order they come. A commit
/// that a filtered clone lacks is passed over.
pub fn load_graph(commits: Vec<Option<RawHistory>>) -> (r: CommitGraph)
    ensures
        r.wf(),
        r@ == resolve(entries_of(commits@)),
{
    let mut builder = CommitGraphBuilder::with_capacity(commits.len());
    let ghost all = commits@;
    for commit in rest: commits
        invariant
            rest.seq() == all,
            builder.wf(),
            builder@ == entries_of(all.take(rest.index() as int)),
    {
        proof {
            let seen = all.take(rest.index() + 1);
            assert(seen.drop_last() =~= all.take(rest.index() as int));
            assert(seen.last() == commit);
        }
        if let Some(commit) = commit {
            let author = text::decode_lossy(commit.author.as_slice());
            let summary = read_optional(&commit.summary);
            assert(Seq::new(commit.parents@.len(), |k: int| commit.parents@[k]@) =~= text::views_of(
                commit.parents@,
            ));
            builder.push(
                commit.oid.as_str(),
                commit.parents,
                commit.timestamp,
                author.as_str(),
                summary.as_str(),
            );
        }
    }
    assert(all.take(all.len() as int) =~= all);
    builder.build()
}

/// A repository at a glance.
#[derive(Debug)]
pub struct RepoSummary {
    pub path: String,
    /// The current branch, `None` where HEAD is detached or there is no commit yet.
    pub branch: Option<String>,
    pub commit_count: usize,
    pub merge_count: usize,
    /// The number of files with changes, untracked ones included.
    pub dirty_files: usize,
    /// Whether an operation (a merge, a rebase) is under way.
    pub operation_in_progress: bool,
}

/// What was read of a repository for a [`RepoSummary`].
#[derive(Debug)]
pub struct RawSummary {
    /// The working tree, if there is one.
    pub workdir: Option<Vec<u8>>,
    pub git_dir: Vec<u8>,
    /// The name of the branch that HEAD is on, if it is on one.
    pub branch: Option<String>,
    pub is_bare: bool,
    /// The number of files with changes.
    pub changed_files: usize,
    pub state: RepoState,
}

/// Whether this is a repository at a glance.
pub open spec fn is_summary_of(r: RepoSummary, raw: RawSummary, nodes: Seq<Node>) -> bool {
    &&& r.path@ == match raw.workdir {
        Some(path) => lossy_text(path@),
        None => lossy_text(raw.git_dir@),
    }
    &&& r.branch == raw.branch
    &&& r.commit_count == nodes.len()
    &&& r.merge_count == nodes.filter(|node: Node| node.parents.len() >= 2).len()
    &&& r.dirty_files == if raw.is_bare {
        0
    } else {
        raw.changed_files
    }
    &&& r.operation_in_progress == !(raw.state is Clean)
}

/// A repository at a glance. A bare one has no files with changes.
pub fn summarize(raw: RawSummary, graph: &CommitGraph) -> (r: RepoSummary)
    ensures
        is_summary_of(r, raw, graph@),
{
    let path = match &raw.workdir {
        Some(path) => text::decode_lossy(path.as_slice()),
        None => text::decode_lossy(raw.git_dir.as_slice()),
    };
    RepoSummary {
        path,
        branch: raw.branch,
        commit_count: graph.len(),
        merge_count: graph.merge_count(),
        dirty_files: if raw.is_bare {
            0
        } else {
            raw.changed_files
        },
        operation_in_progress: raw.state != RepoState::Clean,
    }
}

/// The names of the references that point at each commit.
pub struct RefLabels {
    entries: StringHashMap<Vec<String>>,
}

impl View for RefLabels {
    type V = Map<Seq<char>, Seq<Seq<char>>>;

    closed spec fn view(&self) -> Map<Seq<char>, Seq<Seq<char>>> {
        self.entries@.map_values(|names: Vec<String>| text::views_of(names@))
    }
}

/// The names at a commit.
pub open spec fn names_at(
    labels: Map<Seq<char>, Seq<Seq<char>>>,
    oid: Seq<char>,
) -> Seq<Seq<char>> {
    if labels.dom().contains(oid) {
        labels[oid]
    } else {
        Seq::empty()
    }
}

impl RefLabels {
    pub fn new() -> (r: Self)
        ensures
            r@ == Map::<Seq<char>, Seq<Seq<char>>>::empty(),
    {
        let r = RefLabels { entries: StringHashMap::new() };
        assert(r@ =~= Map::empty());
        r
    }

    /// Puts names at a commit in place of those it had.
    pub fn insert(&mut self, oid: &str, names: Vec<String>)
        ensures
            final(self)@ == old(self)@.insert(oid@, text::views_of(names@)),
    {
        self.entries.insert(oid.to_owned(), names);
        assert(self@ =~= old(self)@.insert(oid@, text::views_of(names@)));
    }

    /// The names at a commit, none where it has none.
    pub fn names(&self, oid: &str) -> (r: Vec<String>)
        ensures
            text::views_of(r@) == names_at(self@, oid@),
    {
        match self.entries.get(oid) {
            Some(names) => text::copies(names),
            None => {
                let none: Vec<String> = Vec::new();
                assert(text::views_of(none@) =~= Seq::empty());
                none
            },
        }
    }
}

/// A reference, as it was read.
#[derive(Debug)]
pub struct RawLabel {
    /// The short name.
    pub name: Vec<u8>,
    /// The commit it leads to, if it leads to one.
    pub oid: Option<String>,
}

/// The names at each commit.
pub open spec fn labels_of(references: Seq<RawLabel>) -> Map<Seq<char>, Seq<Seq<char>>>
    decreases references.len(),
{
    if references.len() == 0 {
        Map::empty()
    } else {
        let before = labels_of(references.drop_last());
        match references.last().oid {
            None => before,
            Some(oid) => before.insert(
                oid@,
                names_at(before, oid@).push(lossy_text(references.last().name@)),
            ),
        }
    }
}

/// The names of the references that point at each commit, in the order in which they
/// come.
pub fn ref_labels(references: &Vec<RawLabel>) -> (r: RefLabels)
    ensures
        r@ == labels_of(references@),
{
    let mut labels = RefLabels::new();
    let mut index: usize = 0;
    assert(references@.take(0) =~= Seq::empty());
    while index < references.len()
        invariant
            index <= references@.len(),
            labels@ == labels_of(references@.take(index as int)),
        decreases references@.len() - index,
    {
        let reference = &references[index];
        proof {
            let seen = references@.take(index + 1);
            assert(seen.drop_last() =~= references@.take(index as int));
            assert(seen.last() == *reference);
        }
        if let Some(oid) = &reference.oid {
            let mut names = labels.names(oid.as_str());
            let ghost held = names@;
            let name = text::decode_lossy(reference.name.as_slice());
            names.push(name);
            assert(text::views_of(names@) =~= text::views_of(held).push(name@));
            labels.insert(oid.as_str(), names);
        }
        index += 1;
    }
    assert(references@.take(index as int) =~= references@);
    labels
}

} // verus!
