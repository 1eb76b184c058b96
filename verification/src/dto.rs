//! What the interface is given to show.
//!
//! The interface needs other shapes than the rest of the library, and what it needs does
//! not bear on the library's own types.
use vstd::prelude::*;

use crate::conflict::{ConflictFile, ConflictSide, SideLabels};
use crate::dag::{CommitGraph, Node};
use crate::diff::{line_kind_name, only_white_space, DiffLine, FileDiff, Hunk};
use crate::divergence::{
    recommendation_headline, recommendation_name, CommitInfo, ConflictRisk, Divergence,
};
use crate::git;
use crate::git::short_oid;
use crate::intraline::Span;
use crate::layout::{Edge, Layout};
use crate::ops::{OpOutcome, SafetyPoint};
use crate::repo::{names_at, RefLabels};
use crate::search::{words_view, BlameLine, SearchHit};
use crate::status::{attention_name, name_of_path, repo_name, RepoStatus};
use crate::text;
use crate::workspace::{BranchInfo, FileChange, StashEntry};

verus! {

/// The number of lane colours. The colours themselves are the interface's.
pub const LANE_COLOURS: usize = 8;

/// Converts every item of a list.
pub(crate) fn each<'a, T, D, F: Fn(&'a T) -> D>(items: &'a Vec<T>, convert: F) -> (r: Vec<D>)
    requires
        forall|item: &'a T| #[trigger] convert.requires((item,)),
    ensures
        r@.len() == items@.len(),
        forall|i: int|
            0 <= i < r@.len() ==> convert.ensures((&items@[i],), #[trigger] r@[i]),
{
    let mut out: Vec<D> = Vec::with_capacity(items.len());
    let mut index: usize = 0;
    while index < items.len()
        invariant
            index <= items@.len(),
            forall|item: &'a T| #[trigger] convert.requires((item,)),
            out@.len() == index,
            forall|i: int|
                0 <= i < out@.len() ==> convert.ensures((&items@[i],), #[trigger] out@[i]),
        decreases items@.len() - index,
    {
        out.push(convert(&items[index]));
        index += 1;
    }
    out
}

#[derive(Debug, Clone, Copy, PartialEq, Eq, Structural)]
pub struct WorkingTreeDto {
    pub staged: usize,
    pub unstaged: usize,
    pub untracked: usize,
    pub conflicted: usize,
    pub total: usize,
}

/// What came of the last fetch.
#[derive(Debug)]
pub struct FetchStateDto {
    pub ok: bool,
    /// One sentence for the user.
    pub message: String,
    /// A stable name of the kind of failure, `None` where it worked.
    pub kind: Option<String>,
    pub at_millis: Option<u64>,
}

impl Clone for FetchStateDto {
    fn clone(&self) -> (r: Self)
        ensures
            r == *self,
    {
        FetchStateDto {
            ok: self.ok,
            message: self.message.clone(),
            kind: self.kind.clone(),
            at_millis: self.at_millis,
        }
    }
}

#[derive(Debug)]
pub struct RepoStatusDto {
    pub path: String,
    pub name: String,
    pub branch: Option<String>,
    pub upstream: Option<String>,
    pub ahead: usize,
    pub behind: usize,
    pub working_tree: WorkingTreeDto,
    pub operation: Option<String>,
    pub attention: String,
    pub last_fetch_millis: Option<u64>,
    /// Why the state could not be read, `None` where it could.
    pub error: Option<String>,
    pub fetch_state: Option<FetchStateDto>,
}

/// Whether this is what is shown of a repository that could be read.
pub open spec fn shows_status(
    dto: RepoStatusDto,
    status: RepoStatus,
    last_fetch_millis: Option<u64>,
    fetch_state: Option<FetchStateDto>,
) -> bool {
    &&& dto.path == status.path
    &&& dto.name == status.name
    &&& dto.branch == status.branch
    &&& dto.upstream == status.upstream
    &&& dto.ahead == status.ahead
    &&& dto.behind == status.behind
    &&& dto.working_tree == (WorkingTreeDto {
        staged: status.working_tree.staged,
        unstaged: status.working_tree.unstaged,
        untracked: status.working_tree.untracked,
        conflicted: status.working_tree.conflicted,
        total: status.working_tree.sum() as usize,
    })
    &&& dto.operation == status.operation
    &&& dto.attention@ == attention_name(status.attention)
    &&& dto.last_fetch_millis == last_fetch_millis
    &&& dto.error is None
    &&& dto.fetch_state == fetch_state
}

/// Whether this is what is shown of a repository that could not be read.
pub open spec fn shows_unreadable(dto: RepoStatusDto, path: Seq<char>, error: String) -> bool {
    &&& dto.path@ == path
    &&& dto.name@ == name_of_path(path)
    &&& dto.branch is None
    &&& dto.upstream is None
    &&& dto.ahead == 0
    &&& dto.behind == 0
    &&& dto.working_tree == (WorkingTreeDto {
        staged: 0,
        unstaged: 0,
        untracked: 0,
        conflicted: 0,
        total: 0,
    })
    &&& dto.operation is None
    &&& dto.attention@ == "attention"@
    &&& dto.last_fetch_millis is None
    &&& dto.error == Some(error)
    &&& dto.fetch_state is None
}

impl RepoStatusDto {
    /// `last_fetch_millis` is the time of the last fetch in Unix milliseconds, if it has
    /// one.
    pub fn from_status(
        status: &RepoStatus,
        last_fetch_millis: Option<u64>,
        fetch_state: Option<FetchStateDto>,
    ) -> (r: Self)
        requires
            status.working_tree.sum() <= usize::MAX,
        ensures
            shows_status(r, *status, last_fetch_millis, fetch_state),
    {
        RepoStatusDto {
            path: status.path.clone(),
            name: status.name.clone(),
            branch: status.branch.clone(),
            upstream: status.upstream.clone(),
            ahead: status.ahead,
            behind: status.behind,
            working_tree: WorkingTreeDto {
                staged: status.working_tree.staged,
                unstaged: status.working_tree.unstaged,
                untracked: status.working_tree.untracked,
                conflicted: status.working_tree.conflicted,
                total: status.working_tree.total(),
            },
            operation: status.operation.clone(),
            attention: status.attention.as_str().to_owned(),
            last_fetch_millis,
            error: None,
            fetch_state,
        }
    }

    /// The entry of a repository that could not be read, so that it is still listed, with
    /// the reason.
    pub fn unreadable(path: &str, error: String) -> (r: Self)
        ensures
            shows_unreadable(r, path@, error),
    {
        RepoStatusDto {
            path: path.to_owned(),
            name: repo_name(path),
            branch: None,
            upstream: None,
            ahead: 0,
            behind: 0,
            working_tree: WorkingTreeDto {
                staged: 0,
                unstaged: 0,
                untracked: 0,
                conflicted: 0,
                total: 0,
            },
            operation: None,
            attention: "attention".to_owned(),
            last_fetch_millis: None,
            error: Some(error),
            fetch_state: None,
        }
    }
}

#[derive(Debug)]
pub struct CommitDto {
    pub oid: String,
    pub short_oid: String,
    pub summary: String,
    pub author: String,
    pub timestamp: i64,
    pub is_merge: bool,
    pub row: usize,
    pub lane: usize,
    /// Which of the [`LANE_COLOURS`] colours the lane has.
    pub colour: usize,
    /// The names of the references at this commit.
    pub refs: Vec<String>,
}

#[derive(Debug, Clone, Copy, PartialEq, Eq, Structural)]
pub struct EdgeDto {
    pub child_row: usize,
    pub child_lane: usize,
    pub parent_row: usize,
    pub parent_lane: usize,
    pub colour: usize,
}

#[derive(Debug)]
pub struct GraphDto {
    pub commits: Vec<CommitDto>,
    pub edges: Vec<EdgeDto>,
    pub lane_count: usize,
    /// The number of commits there are, shown or not.
    pub total_commits: usize,
    pub truncated: bool,
}

/// Whether a layout places nodes of a graph.
pub open spec fn can_draw(nodes: Seq<Node>, layout: Layout) -> bool {
    forall|row: int|
        0 <= row < layout.order@.len() ==> (#[trigger] layout.order@[row]) < nodes.len()
            && layout.order@[row] < layout.lane_of@.len()
}

/// Whether this is what is shown of a commit.
pub open spec fn shows_commit(
    dto: CommitDto,
    node: Node,
    row: int,
    lane: usize,
    names: Seq<Seq<char>>,
) -> bool {
    &&& dto.oid@ == node.oid
    &&& dto.short_oid@ == short_oid(node.oid)
    &&& dto.summary@ == node.summary
    &&& dto.author@ == node.author
    &&& dto.timestamp == node.timestamp
    &&& dto.is_merge == (node.parents.len() >= 2)
    &&& dto.row == row
    &&& dto.lane == lane
    &&& dto.colour == lane as int % LANE_COLOURS as int
    &&& text::views_of(dto.refs@) == names
}

/// What is shown of a line. It has the colour of the lane it runs in, so that a branch is
/// of one colour.
pub open spec fn shown_edge(edge: Edge) -> EdgeDto {
    EdgeDto {
        child_row: edge.child_row,
        child_lane: edge.child_lane,
        parent_row: edge.parent_row,
        parent_lane: edge.parent_lane,
        colour: (edge.parent_lane as int % LANE_COLOURS as int) as usize,
    }
}

/// The lines both ends of which are among the first `shown` rows.
pub open spec fn shown_edges(edges: Seq<Edge>, shown: nat) -> Seq<EdgeDto> {
    edges.filter(|edge: Edge| edge.child_row < shown && edge.parent_row < shown).map_values(
        |edge: Edge| shown_edge(edge),
    )
}

/// The number of rows that are shown.
pub open spec fn shown_rows(layout: Layout, limit: usize) -> nat {
    if limit < layout.order@.len() {
        limit as nat
    } else {
        layout.order@.len()
    }
}

/// Whether this is what is shown of the first `limit` rows of a graph.
pub open spec fn shows_graph(
    dto: GraphDto,
    nodes: Seq<Node>,
    layout: Layout,
    labels: Map<Seq<char>, Seq<Seq<char>>>,
    limit: usize,
) -> bool {
    let shown = shown_rows(layout, limit);
    &&& dto.commits@.len() == shown
    &&& forall|row: int|
        0 <= row < shown ==> shows_commit(
            #[trigger] dto.commits@[row],
            nodes[layout.order@[row] as int],
            row,
            layout.lane_of@[layout.order@[row] as int],
            names_at(labels, nodes[layout.order@[row] as int].oid),
        )
    &&& dto.edges@ == shown_edges(layout.edges@, shown)
    &&& dto.lane_count == layout.lane_count
    &&& dto.total_commits == layout.order@.len()
    &&& dto.truncated == (layout.order@.len() > shown)
}

fn draw_edges(edges: &Vec<Edge>, shown: usize) -> (r: Vec<EdgeDto>)
    ensures
        r@ == shown_edges(edges@, shown as nat),
{
    let ghost inside = |edge: Edge| edge.child_row < shown && edge.parent_row < shown;
    let ghost view = |edge: Edge| shown_edge(edge);
    let mut out: Vec<EdgeDto> = Vec::new();
    let mut index: usize = 0;
    proof {
        reveal(Seq::filter);
        assert(out@ =~= edges@.take(0).filter(inside).map_values(view));
    }
    while index < edges.len()
        invariant
            index <= edges@.len(),
            inside == (|edge: Edge| edge.child_row < shown && edge.parent_row < shown),
            view == (|edge: Edge| shown_edge(edge)),
            out@ == edges@.take(index as int).filter(inside).map_values(view),
        decreases edges@.len() - index,
    {
        let edge = edges[index];
        let ghost held = out@;
        if edge.child_row < shown && edge.parent_row < shown {
            out.push(
                EdgeDto {
                    child_row: edge.child_row,
                    child_lane: edge.child_lane,
                    parent_row: edge.parent_row,
                    parent_lane: edge.parent_lane,
                    colour: edge.parent_lane % LANE_COLOURS,
                },
            );
        }
        proof {
            reveal(Seq::filter);
            let seen = edges@.take(index + 1);
            assert(seen.drop_last() =~= edges@.take(index as int));
            assert(seen.last() == edge);
            assert(out@ =~= seen.filter(inside).map_values(view));
        }
        index += 1;
    }
    proof {
        assert(edges@.take(index as int) =~= edges@);
        let nat_inside = |edge: Edge| edge.child_row < shown as nat && edge.parent_row < shown as nat;
        assert(inside =~= nat_inside);
    }
    out
}

impl GraphDto {
    /// What is shown of the first `limit` rows. A line that leaves them is not drawn.
    pub fn from_layout(
        graph: &CommitGraph,
        layout: &Layout,
        labels: &RefLabels,
        limit: usize,
    ) -> (r: Self)
        requires
            can_draw(graph@, *layout),
        ensures
            shows_graph(r, graph@, *layout, labels@, limit),
    {
        let rows = layout.rows();
        let shown = if limit < rows {
            limit
        } else {
            rows
        };
        let mut commits: Vec<CommitDto> = Vec::with_capacity(shown);
        let mut row: usize = 0;
        while row < shown
            invariant
                row <= shown,
                shown <= layout.order@.len(),
                can_draw(graph@, *layout),
                commits@.len() == row,
                forall|i: int|
                    0 <= i < row ==> shows_commit(
                        #[trigger] commits@[i],
                        graph@[layout.order@[i] as int],
                        i,
                        layout.lane_of@[layout.order@[i] as int],
                        names_at(labels@, graph@[layout.order@[i] as int].oid),
                    ),
            decreases shown - row,
        {
            let node = layout.order[row];
            let commit = graph.commit(node);
            let lane = layout.lane_of[node];
            commits.push(
                CommitDto {
                    short_oid: git::short(commit.oid.as_str()),
                    oid: commit.oid.clone(),
                    summary: commit.summary.clone(),
                    author: commit.author.clone(),
                    timestamp: commit.timestamp,
                    is_merge: commit.is_merge(),
                    row,
                    lane,
                    colour: lane % LANE_COLOURS,
                    refs: labels.names(commit.oid.as_str()),
                },
            );
            row += 1;
        }
        GraphDto {
            commits,
            edges: draw_edges(&layout.edges, shown),
            lane_count: layout.lane_count,
            total_commits: rows,
            truncated: rows > shown,
        }
    }
}

#[derive(Debug)]
pub struct CommitSummaryDto {
    pub oid: String,
    pub short_oid: String,
    pub summary: String,
    pub author: String,
    pub timestamp: i64,
}

/// Whether this is what is shown of the given commit.
pub open spec fn shows_summary(dto: CommitSummaryDto, info: CommitInfo) -> bool {
    &&& dto.oid == info.oid
    &&& dto.short_oid == info.short_oid
    &&& dto.summary == info.summary
    &&& dto.author == info.author
    &&& dto.timestamp == info.timestamp
}

impl From<&CommitInfo> for CommitSummaryDto {
    fn from(info: &CommitInfo) -> (r: Self)
        ensures
            shows_summary(r, *info),
    {
        CommitSummaryDto {
            oid: info.oid.clone(),
            short_oid: info.short_oid.clone(),
            summary: info.summary.clone(),
            author: info.author.clone(),
            timestamp: info.timestamp,
        }
    }
}

impl vstd::std_specs::convert::FromSpecImpl<&CommitInfo> for CommitSummaryDto {
    open spec fn obeys_from_spec() -> bool {
        false
    }

    open spec fn from_spec(info: &CommitInfo) -> Self {
        arbitrary()
    }
}

/// Whether these are what is shown of the given commits.
pub open spec fn shows_summaries(dtos: Seq<CommitSummaryDto>, infos: Seq<CommitInfo>) -> bool {
    &&& dtos.len() == infos.len()
    &&& forall|i: int| 0 <= i < dtos.len() ==> shows_summary(#[trigger] dtos[i], infos[i])
}

#[derive(Debug)]
pub struct DivergenceDto {
    pub branch: Option<String>,
    pub upstream: Option<String>,
    pub ahead: Vec<CommitSummaryDto>,
    pub behind: Vec<CommitSummaryDto>,
    pub local_files: Vec<String>,
    pub incoming_files: Vec<String>,
    pub overlapping_files: Vec<String>,
    pub uncommitted_overlap: Vec<String>,
    pub is_diverged: bool,
    /// The risk of a conflict: `none` or `possible`.
    pub risk: String,
    /// A short name of what is advised.
    pub recommendation: String,
    pub recommendation_headline: String,
    /// The number of commits after a rebase.
    pub commits_after_rebase: usize,
    /// The number of commits after a merge, the merge itself among them.
    pub commits_after_merge: usize,
}

/// Whether this is what is shown of the given divergence.
pub open spec fn shows_divergence(dto: DivergenceDto, divergence: Divergence) -> bool {
    let commits = divergence.behind@.len() + divergence.ahead@.len();
    &&& dto.branch == divergence.branch
    &&& dto.upstream == divergence.upstream
    &&& shows_summaries(dto.ahead@, divergence.ahead@)
    &&& shows_summaries(dto.behind@, divergence.behind@)
    &&& dto.local_files@ == divergence.local_files@
    &&& dto.incoming_files@ == divergence.incoming_files@
    &&& dto.overlapping_files@ == divergence.overlapping_files@
    &&& dto.uncommitted_overlap@ == divergence.uncommitted_overlap@
    &&& dto.is_diverged == (divergence.ahead@.len() > 0 && divergence.behind@.len() > 0)
    &&& dto.risk@ == if divergence.overlapping_files@.len() == 0 {
        "none"@
    } else {
        "possible"@
    }
    &&& dto.recommendation@ == recommendation_name(divergence.recommendation)
    &&& dto.recommendation_headline@ == recommendation_headline(divergence.recommendation)
    &&& dto.commits_after_rebase == commits
    &&& dto.commits_after_merge == commits + 1
}

impl DivergenceDto {
    pub fn from(divergence: &Divergence) -> (r: Self)
        requires
            divergence.behind@.len() + divergence.ahead@.len() + 1 <= usize::MAX,
        ensures
            shows_divergence(r, *divergence),
    {
        DivergenceDto {
            branch: divergence.branch.clone(),
            upstream: divergence.upstream.clone(),
            ahead: each(&divergence.ahead, CommitSummaryDto::from),
            behind: each(&divergence.behind, CommitSummaryDto::from),
            local_files: text::copies(&divergence.local_files),
            incoming_files: text::copies(&divergence.incoming_files),
            overlapping_files: text::copies(&divergence.overlapping_files),
            uncommitted_overlap: text::copies(&divergence.uncommitted_overlap),
            is_diverged: divergence.is_diverged(),
            risk: match divergence.risk() {
                ConflictRisk::Absent => "none".to_owned(),
                ConflictRisk::Possible => "possible".to_owned(),
            },
            recommendation: divergence.recommendation.as_str().to_owned(),
            recommendation_headline: divergence.recommendation.headline().to_owned(),
            commits_after_rebase: divergence.commits_after_rebase(),
            commits_after_merge: divergence.commits_after_merge(),
        }
    }
}

/// What came of an operation.
#[derive(Debug)]
pub struct OpOutcomeDto {
    pub message: String,
    /// The reference of the safety point, if there is one.
    pub undo_ref: Option<String>,
}

/// Whether this is what is shown of the given outcome.
pub open spec fn shows_outcome(dto: OpOutcomeDto, outcome: OpOutcome) -> bool {
    &&& dto.message == outcome.message
    &&& dto.undo_ref == match outcome.undo {
        Some(point) => Some(point.reference),
        None => None,
    }
}

impl From<OpOutcome> for OpOutcomeDto {
    fn from(outcome: OpOutcome) -> (r: Self)
        ensures
            shows_outcome(r, outcome),
    {
        OpOutcomeDto {
            message: outcome.message,
            undo_ref: match outcome.undo {
                Some(point) => Some(point.reference),
                None => None,
            },
        }
    }
}

impl vstd::std_specs::convert::FromSpecImpl<OpOutcome> for OpOutcomeDto {
    open spec fn obeys_from_spec() -> bool {
        false
    }

    open spec fn from_spec(outcome: OpOutcome) -> Self {
        arbitrary()
    }
}

#[derive(Debug)]
pub struct SafetyPointDto {
    pub reference: String,
    pub oid: String,
    pub operation: String,
    pub created_unix: u64,
}

/// Whether this is what is shown of the given safety point.
pub open spec fn shows_point(dto: SafetyPointDto, point: SafetyPoint) -> bool {
    &&& dto.reference == point.reference
    &&& dto.oid == point.oid
    &&& dto.operation == point.operation
    &&& dto.created_unix == point.created_unix
}

impl From<&SafetyPoint> for SafetyPointDto {
    fn from(point: &SafetyPoint) -> (r: Self)
        ensures
            shows_point(r, *point),
    {
        SafetyPointDto {
            reference: point.reference.clone(),
            oid: point.oid.clone(),
            operation: point.operation.clone(),
            created_unix: point.created_unix,
        }
    }
}

impl vstd::std_specs::convert::FromSpecImpl<&SafetyPoint> for SafetyPointDto {
    open spec fn obeys_from_spec() -> bool {
        false
    }

    open spec fn from_spec(point: &SafetyPoint) -> Self {
        arbitrary()
    }
}

#[derive(Debug)]
pub struct FileChangeDto {
    pub path: String,
    pub staged: String,
    pub unstaged: String,
    pub is_untracked: bool,
    pub is_conflicted: bool,
}

/// Whether this is what is shown of the given change.
pub open spec fn shows_change(dto: FileChangeDto, change: FileChange) -> bool {
    &&& dto.path == change.path
    &&& dto.staged@ == change.staged@
    &&& dto.unstaged@ == change.unstaged@
    &&& dto.is_untracked == change.is_untracked
    &&& dto.is_conflicted == change.is_conflicted
}

impl From<&FileChange> for FileChangeDto {
    fn from(change: &FileChange) -> (r: Self)
        ensures
            shows_change(r, *change),
    {
        FileChangeDto {
            path: change.path.clone(),
            staged: change.staged.to_owned(),
            unstaged: change.unstaged.to_owned(),
            is_untracked: change.is_untracked,
            is_conflicted: change.is_conflicted,
        }
    }
}

impl vstd::std_specs::convert::FromSpecImpl<&FileChange> for FileChangeDto {
    open spec fn obeys_from_spec() -> bool {
        false
    }

    open spec fn from_spec(change: &FileChange) -> Self {
        arbitrary()
    }
}

#[derive(Debug)]
pub struct BranchDto {
    pub name: String,
    pub is_head: bool,
    pub is_remote: bool,
    pub upstream: Option<String>,
}

/// Whether this is what is shown of the given branch.
pub open spec fn shows_branch(dto: BranchDto, branch: BranchInfo) -> bool {
    &&& dto.name == branch.name
    &&& dto.is_head == branch.is_head
    &&& dto.is_remote == branch.is_remote
    &&& dto.upstream == branch.upstream
}

impl From<&BranchInfo> for BranchDto {
    fn from(branch: &BranchInfo) -> (r: Self)
        ensures
            shows_branch(r, *branch),
    {
        BranchDto {
            name: branch.name.clone(),
            is_head: branch.is_head,
            is_remote: branch.is_remote,
            upstream: branch.upstream.clone(),
        }
    }
}

impl vstd::std_specs::convert::FromSpecImpl<&BranchInfo> for BranchDto {
    open spec fn obeys_from_spec() -> bool {
        false
    }

    open spec fn from_spec(branch: &BranchInfo) -> Self {
        arbitrary()
    }
}

#[derive(Debug)]
pub struct StashDto {
    pub index: usize,
    pub message: String,
}

/// Whether this is what is shown of the given entry of the stash.
pub open spec fn shows_stash(dto: StashDto, entry: StashEntry) -> bool {
    &&& dto.index == entry.index
    &&& dto.message == entry.message
}

impl From<&StashEntry> for StashDto {
    fn from(entry: &StashEntry) -> (r: Self)
        ensures
            shows_stash(r, *entry),
    {
        StashDto {
            index: entry.index,
            message: entry.message.clone(),
        }
    }
}

impl vstd::std_specs::convert::FromSpecImpl<&StashEntry> for StashDto {
    open spec fn obeys_from_spec() -> bool {
        false
    }

    open spec fn from_spec(entry: &StashEntry) -> Self {
        arbitrary()
    }
}

#[derive(Debug)]
pub struct ConflictSideDto {
    pub text: Option<String>,
    pub exists: bool,
}

/// Whether this is what is shown of the given version.
pub open spec fn shows_side(dto: ConflictSideDto, side: ConflictSide) -> bool {
    &&& dto.text == side.text
    &&& dto.exists == side.exists
}

impl From<&ConflictSide> for ConflictSideDto {
    fn from(side: &ConflictSide) -> (r: Self)
        ensures
            shows_side(r, *side),
    {
        ConflictSideDto {
            text: side.text.clone(),
            exists: side.exists,
        }
    }
}

impl vstd::std_specs::convert::FromSpecImpl<&ConflictSide> for ConflictSideDto {
    open spec fn obeys_from_spec() -> bool {
        false
    }

    open spec fn from_spec(side: &ConflictSide) -> Self {
        arbitrary()
    }
}

#[derive(Debug)]
pub struct ConflictFileDto {
    pub path: String,
    pub base: ConflictSideDto,
    pub ours: ConflictSideDto,
    pub theirs: ConflictSideDto,
    pub merged: Option<String>,
    pub is_binary: bool,
}

/// Whether this is what is shown of the given file in conflict.
pub open spec fn shows_conflict(dto: ConflictFileDto, file: ConflictFile) -> bool {
    &&& dto.path == file.path
    &&& shows_side(dto.base, file.base)
    &&& shows_side(dto.ours, file.ours)
    &&& shows_side(dto.theirs, file.theirs)
    &&& dto.merged == file.merged
    &&& dto.is_binary == file.is_binary
}

impl From<&ConflictFile> for ConflictFileDto {
    fn from(file: &ConflictFile) -> (r: Self)
        ensures
            shows_conflict(r, *file),
    {
        ConflictFileDto {
            path: file.path.clone(),
            base: ConflictSideDto::from(&file.base),
            ours: ConflictSideDto::from(&file.ours),
            theirs: ConflictSideDto::from(&file.theirs),
            merged: file.merged.clone(),
            is_binary: file.is_binary,
        }
    }
}

impl vstd::std_specs::convert::FromSpecImpl<&ConflictFile> for ConflictFileDto {
    open spec fn obeys_from_spec() -> bool {
        false
    }

    open spec fn from_spec(file: &ConflictFile) -> Self {
        arbitrary()
    }
}

#[derive(Debug)]
pub struct SideLabelsDto {
    pub ours: String,
    pub theirs: String,
    pub note: String,
}

/// Whether this is what is shown of the given labels.
pub open spec fn shows_labels(dto: SideLabelsDto, labels: SideLabels) -> bool {
    &&& dto.ours == labels.ours
    &&& dto.theirs == labels.theirs
    &&& dto.note == labels.note
}

impl From<SideLabels> for SideLabelsDto {
    fn from(labels: SideLabels) -> (r: Self)
        ensures
            shows_labels(r, labels),
    {
        SideLabelsDto { ours: labels.ours, theirs: labels.theirs, note: labels.note }
    }
}

impl vstd::std_specs::convert::FromSpecImpl<SideLabels> for SideLabelsDto {
    open spec fn obeys_from_spec() -> bool {
        false
    }

    open spec fn from_spec(labels: SideLabels) -> Self {
        arbitrary()
    }
}

/// The state of a working tree, with all that the interface shows of it.
#[derive(Debug)]
pub struct WorkspaceDto {
    pub changes: Vec<FileChangeDto>,
    pub branches: Vec<BranchDto>,
    pub stashes: Vec<StashDto>,
    pub conflicts: Vec<ConflictFileDto>,
    /// The operation in progress, if any.
    pub operation: Option<String>,
    pub undo_points: Vec<SafetyPointDto>,
    /// What the two sides of a conflict are at the moment.
    pub side_labels: SideLabelsDto,
}

#[derive(Debug)]
pub struct SpanDto {
    pub start: usize,
    pub end: usize,
}

/// Whether this is what is shown of the given range.
pub open spec fn shows_span(dto: SpanDto, span: Span) -> bool {
    &&& dto.start == span.start
    &&& dto.end == span.end
}

impl From<&Span> for SpanDto {
    fn from(span: &Span) -> (r: Self)
        ensures
            shows_span(r, *span),
    {
        SpanDto {
            start: span.start,
            end: span.end,
        }
    }
}

impl vstd::std_specs::convert::FromSpecImpl<&Span> for SpanDto {
    open spec fn obeys_from_spec() -> bool {
        false
    }

    open spec fn from_spec(span: &Span) -> Self {
        arbitrary()
    }
}

#[derive(Debug)]
pub struct DiffLineDto {
    pub kind: String,
    pub content: String,
    pub old_lineno: Option<u32>,
    pub new_lineno: Option<u32>,
    pub spans: Vec<SpanDto>,
    pub whitespace_only: bool,
    /// The other version of the line in the same section, to be selected along with it.
    pub pair: Option<usize>,
}

/// Whether this is what is shown of the given line.
pub open spec fn shows_line(dto: DiffLineDto, line: DiffLine) -> bool {
    &&& dto.kind@ == line_kind_name(line.kind)
    &&& dto.content == line.content
    &&& dto.old_lineno == line.old_lineno
    &&& dto.new_lineno == line.new_lineno
    &&& dto.spans@.len() == line.spans@.len()
    &&& forall|i: int|
        0 <= i < dto.spans@.len() ==> shows_span(#[trigger] dto.spans@[i], line.spans@[i])
    &&& dto.whitespace_only == line.whitespace_only
    &&& dto.pair == line.pair
}

impl From<&DiffLine> for DiffLineDto {
    fn from(line: &DiffLine) -> (r: Self)
        ensures
            shows_line(r, *line),
    {
        DiffLineDto {
            kind: line.kind.as_str().to_owned(),
            content: line.content.clone(),
            old_lineno: line.old_lineno,
            new_lineno: line.new_lineno,
            spans: each(&line.spans, SpanDto::from),
            whitespace_only: line.whitespace_only,
            pair: line.pair,
        }
    }
}

impl vstd::std_specs::convert::FromSpecImpl<&DiffLine> for DiffLineDto {
    open spec fn obeys_from_spec() -> bool {
        false
    }

    open spec fn from_spec(line: &DiffLine) -> Self {
        arbitrary()
    }
}

#[derive(Debug)]
pub struct HunkDto {
    pub header: String,
    pub old_start: u32,
    pub new_start: u32,
    pub lines: Vec<DiffLineDto>,
    pub whitespace_only: bool,
    /// Whether incoming changes touch the same lines.
    pub collides_with_incoming: bool,
}

/// Whether this is what is shown of the given section.
pub open spec fn shows_hunk(dto: HunkDto, hunk: Hunk) -> bool {
    &&& dto.header == hunk.header
    &&& dto.old_start == hunk.old_start
    &&& dto.new_start == hunk.new_start
    &&& dto.lines@.len() == hunk.lines@.len()
    &&& forall|i: int|
        0 <= i < dto.lines@.len() ==> shows_line(#[trigger] dto.lines@[i], hunk.lines@[i])
    &&& dto.whitespace_only == only_white_space(hunk.lines@)
    &&& dto.collides_with_incoming == hunk.collides_with_incoming
}

impl From<&Hunk> for HunkDto {
    fn from(hunk: &Hunk) -> (r: Self)
        ensures
            shows_hunk(r, *hunk),
    {
        HunkDto {
            header: hunk.header.clone(),
            old_start: hunk.old_start,
            new_start: hunk.new_start,
            lines: each(&hunk.lines, DiffLineDto::from),
            whitespace_only: hunk.whitespace_only(),
            collides_with_incoming: hunk.collides_with_incoming,
        }
    }
}

impl vstd::std_specs::convert::FromSpecImpl<&Hunk> for HunkDto {
    open spec fn obeys_from_spec() -> bool {
        false
    }

    open spec fn from_spec(hunk: &Hunk) -> Self {
        arbitrary()
    }
}

#[derive(Debug)]
pub struct FileDiffDto {
    pub path: String,
    pub old_path: Option<String>,
    pub hunks: Vec<HunkDto>,
    pub is_binary: bool,
    pub added: usize,
    pub removed: usize,
}

/// Whether this is what is shown of the given difference.
pub open spec fn shows_file(dto: FileDiffDto, file: FileDiff) -> bool {
    &&& dto.path == file.path
    &&& dto.old_path == file.old_path
    &&& dto.hunks@.len() == file.hunks@.len()
    &&& forall|i: int|
        0 <= i < dto.hunks@.len() ==> shows_hunk(#[trigger] dto.hunks@[i], file.hunks@[i])
    &&& dto.is_binary == file.is_binary
    &&& dto.added == file.added
    &&& dto.removed == file.removed
}

/// Whether these are what is shown of the given differences.
pub open spec fn shows_files(dtos: Seq<FileDiffDto>, files: Seq<FileDiff>) -> bool {
    &&& dtos.len() == files.len()
    &&& forall|i: int| 0 <= i < dtos.len() ==> shows_file(#[trigger] dtos[i], files[i])
}

impl From<&FileDiff> for FileDiffDto {
    fn from(file: &FileDiff) -> (r: Self)
        ensures
            shows_file(r, *file),
    {
        FileDiffDto {
            path: file.path.clone(),
            old_path: file.old_path.clone(),
            hunks: each(&file.hunks, HunkDto::from),
            is_binary: file.is_binary,
            added: file.added,
            removed: file.removed,
        }
    }
}

impl vstd::std_specs::convert::FromSpecImpl<&FileDiff> for FileDiffDto {
    open spec fn obeys_from_spec() -> bool {
        false
    }

    open spec fn from_spec(file: &FileDiff) -> Self {
        arbitrary()
    }
}

/// A commit with all that the interface shows of it.
#[derive(Debug)]
pub struct CommitDetailDto {
    pub oid: String,
    pub short_oid: String,
    pub summary: String,
    pub body: String,
    pub author: String,
    pub email: String,
    pub timestamp: i64,
    pub parents: Vec<String>,
    pub files: Vec<FileDiffDto>,
}

fn owned_words(words: &Vec<&'static str>) -> (r: Vec<String>)
    ensures
        text::views_of(r@) == words_view(words@),
{
    let mut out: Vec<String> = Vec::new();
    let mut index: usize = 0;
    while index < words.len()
        invariant
            index <= words@.len(),
            out@.len() == index,
            forall|i: int| 0 <= i < index ==> (#[trigger] out@[i])@ == words@[i]@,
        decreases words@.len() - index,
    {
        out.push(words[index].to_owned());
        index += 1;
    }
    assert(text::views_of(out@) =~= words_view(words@));
    out
}

#[derive(Debug)]
pub struct SearchHitDto {
    pub oid: String,
    pub short_oid: String,
    pub summary: String,
    pub author: String,
    pub timestamp: i64,
    pub matched: Vec<String>,
    pub paths: Vec<String>,
}

/// Whether this is what is shown of the given hit.
pub open spec fn shows_hit(dto: SearchHitDto, hit: SearchHit) -> bool {
    &&& dto.oid == hit.oid
    &&& dto.short_oid == hit.short_oid
    &&& dto.summary == hit.summary
    &&& dto.author == hit.author
    &&& dto.timestamp == hit.timestamp
    &&& text::views_of(dto.matched@) == words_view(hit.matched@)
    &&& dto.paths@ == hit.paths@
}

impl From<&SearchHit> for SearchHitDto {
    fn from(hit: &SearchHit) -> (r: Self)
        ensures
            shows_hit(r, *hit),
    {
        SearchHitDto {
            oid: hit.oid.clone(),
            short_oid: hit.short_oid.clone(),
            summary: hit.summary.clone(),
            author: hit.author.clone(),
            timestamp: hit.timestamp,
            matched: owned_words(&hit.matched),
            paths: text::copies(&hit.paths),
        }
    }
}

impl vstd::std_specs::convert::FromSpecImpl<&SearchHit> for SearchHitDto {
    open spec fn obeys_from_spec() -> bool {
        false
    }

    open spec fn from_spec(hit: &SearchHit) -> Self {
        arbitrary()
    }
}

#[derive(Debug)]
pub struct BlameLineDto {
    pub line_number: usize,
    pub content: String,
    pub oid: String,
    pub short_oid: String,
    pub author: String,
    pub summary: String,
    pub timestamp: i64,
    pub same_as_previous: bool,
}

/// Whether this is what is shown of the given line.
pub open spec fn shows_blame(dto: BlameLineDto, line: BlameLine) -> bool {
    &&& dto.line_number == line.line_number
    &&& dto.content == line.content
    &&& dto.oid == line.oid
    &&& dto.short_oid == line.short_oid
    &&& dto.author == line.author
    &&& dto.summary == line.summary
    &&& dto.timestamp == line.timestamp
    &&& dto.same_as_previous == line.same_as_previous
}

impl From<&BlameLine> for BlameLineDto {
    fn from(line: &BlameLine) -> (r: Self)
        ensures
            shows_blame(r, *line),
    {
        BlameLineDto {
            line_number: line.line_number,
            content: line.content.clone(),
            oid: line.oid.clone(),
            short_oid: line.short_oid.clone(),
            author: line.author.clone(),
            summary: line.summary.clone(),
            timestamp: line.timestamp,
            same_as_previous: line.same_as_previous,
        }
    }
}

impl vstd::std_specs::convert::FromSpecImpl<&BlameLine> for BlameLineDto {
    open spec fn obeys_from_spec() -> bool {
        false
    }

    open spec fn from_spec(line: &BlameLine) -> Self {
        arbitrary()
    }
}

} // verus!
