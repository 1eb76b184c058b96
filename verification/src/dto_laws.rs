//! What holds of everything that the interface is given to show.
use vstd::prelude::*;

use crate::conflict::{ConflictFile, SideLabels};
use crate::dag::Node;
use crate::diff::{only_white_space, DiffLine, FileDiff, Hunk, LineKind};
use crate::divergence::{CommitInfo, Divergence};
use crate::dto::{
    shown_edges, shows_blame, shows_branch, shows_change, shows_conflict, shows_divergence,
    shows_file, shows_graph, shows_hit, shows_hunk, shows_labels, shows_line, shows_outcome,
    shows_point, shows_stash, shows_status, shows_summary, shows_unreadable, BlameLineDto,
    BranchDto, CommitSummaryDto, ConflictFileDto, DiffLineDto, DivergenceDto, FetchStateDto,
    FileChangeDto, FileDiffDto, GraphDto, HunkDto, OpOutcomeDto, RepoStatusDto, SafetyPointDto,
    SearchHitDto, SideLabelsDto, StashDto,
};
use crate::layout::{Edge, Layout};
use crate::ops::{OpOutcome, SafetyPoint};
use crate::search::{BlameLine, SearchHit};
use crate::status::{Attention, RepoStatus};
use crate::text;
use crate::workspace::{BranchInfo, FileChange, StashEntry};

verus! {

/// A repository is shown as it was read, with the sum of its files with changes.
pub proof fn repositories_are_shown_as_they_are(
    dto: RepoStatusDto,
    status: RepoStatus,
    last_fetch_millis: Option<u64>,
    fetch_state: Option<FetchStateDto>,
)
    requires
        shows_status(dto, status, last_fetch_millis, fetch_state),
        status.working_tree.staged + status.working_tree.unstaged + status.working_tree.untracked
            + status.working_tree.conflicted <= usize::MAX,
    ensures
        dto.path == status.path,
        dto.name == status.name,
        dto.branch == status.branch,
        dto.upstream == status.upstream,
        dto.ahead == status.ahead,
        dto.behind == status.behind,
        dto.working_tree.staged == status.working_tree.staged,
        dto.working_tree.unstaged == status.working_tree.unstaged,
        dto.working_tree.untracked == status.working_tree.untracked,
        dto.working_tree.conflicted == status.working_tree.conflicted,
        dto.working_tree.total == status.working_tree.staged + status.working_tree.unstaged
            + status.working_tree.untracked + status.working_tree.conflicted,
        dto.operation == status.operation,
        dto.last_fetch_millis == last_fetch_millis,
        dto.fetch_state == fetch_state,
        dto.error is None,
        status.attention == Attention::NeedsAttention ==> dto.attention@ == "attention"@,
        status.attention == Attention::Diverged ==> dto.attention@ == "diverged"@,
        status.attention == Attention::Incoming ==> dto.attention@ == "incoming"@,
        status.attention == Attention::Unpushed ==> dto.attention@ == "unpushed"@,
        status.attention == Attention::Uncommitted ==> dto.attention@ == "uncommitted"@,
        status.attention == Attention::Clean ==> dto.attention@ == "clean"@,
{
}

/// A repository that could not be read is shown under its path, needs attention, and says
/// why. Nothing else is claimed of it.
pub proof fn unreadable_repositories_need_attention(
    dto: RepoStatusDto,
    path: Seq<char>,
    error: String,
)
    requires
        shows_unreadable(dto, path, error),
    ensures
        dto.path@ == path,
        dto.error == Some(error),
        dto.attention@ == "attention"@,
        dto.branch is None,
        dto.upstream is None,
        dto.operation is None,
        dto.ahead == 0,
        dto.behind == 0,
        dto.working_tree.total == 0,
        dto.working_tree.staged == 0,
        dto.working_tree.unstaged == 0,
        dto.working_tree.untracked == 0,
        dto.working_tree.conflicted == 0,
        dto.last_fetch_millis is None,
        dto.fetch_state is None,
{
}

/// Each row of a graph shows the commit that is placed there, in the lane it is placed in,
/// with one of eight colours by its lane. As many rows are shown as there are, or as are
/// wanted.
pub proof fn rows_show_the_commits_placed_there(
    dto: GraphDto,
    nodes: Seq<Node>,
    layout: Layout,
    labels: Map<Seq<char>, Seq<Seq<char>>>,
    limit: usize,
    row: int,
)
    requires
        shows_graph(dto, nodes, layout, labels, limit),
    ensures
        dto.commits@.len() <= limit,
        dto.commits@.len() <= layout.order@.len(),
        dto.commits@.len() == limit || dto.commits@.len() == layout.order@.len(),
        dto.total_commits == layout.order@.len(),
        dto.truncated <==> layout.order@.len() > limit,
        dto.lane_count == layout.lane_count,
        0 <= row < dto.commits@.len() ==> ({
            let commit = dto.commits@[row];
            let node = nodes[layout.order@[row] as int];
            &&& commit.oid@ == node.oid
            &&& commit.summary@ == node.summary
            &&& commit.author@ == node.author
            &&& commit.timestamp == node.timestamp
            &&& commit.is_merge <==> node.parents.len() > 1
            &&& commit.row == row
            &&& commit.lane == layout.lane_of@[layout.order@[row] as int]
            &&& commit.colour < 8
            &&& (commit.lane - commit.colour) % 8 == 0
            &&& labels.dom().contains(node.oid) ==> text::views_of(commit.refs@) == labels[node.oid]
            &&& !labels.dom().contains(node.oid) ==> commit.refs@.len() == 0
        }),
{
    if 0 <= row < dto.commits@.len() {
        let commit = dto.commits@[row];
        assert(text::views_of(commit.refs@).len() == commit.refs@.len());
    }
}

/// The short form of a commit's name is its start.
pub proof fn short_names_are_starts(
    dto: GraphDto,
    nodes: Seq<Node>,
    layout: Layout,
    labels: Map<Seq<char>, Seq<Seq<char>>>,
    limit: usize,
    row: int,
)
    requires
        shows_graph(dto, nodes, layout, labels, limit),
        0 <= row < dto.commits@.len(),
        dto.commits@[row].oid@.len() >= 8,
    ensures
        dto.commits@[row].short_oid@ == dto.commits@[row].oid@.take(8),
{
    crate::text_laws::head_is_the_start(dto.commits@[row].oid@, 8);
}

/// The lines of a graph that are shown are those that begin and end within the rows shown,
/// where they do, in the colour of the lane they lead to.
pub proof fn lines_within_the_rows_are_shown(edges: Seq<Edge>, shown: nat, edge: Edge)
    requires
        edges.contains(edge),
    ensures
        (edge.child_row < shown && edge.parent_row < shown) ==> exists|k: int|
            0 <= k < shown_edges(edges, shown).len() && (#[trigger] shown_edges(
                edges,
                shown,
            )[k]).child_row == edge.child_row && shown_edges(edges, shown)[k].child_lane
                == edge.child_lane && shown_edges(edges, shown)[k].parent_row == edge.parent_row
                && shown_edges(edges, shown)[k].parent_lane == edge.parent_lane,
{
    let inside = |edge: Edge| edge.child_row < shown && edge.parent_row < shown;
    if edge.child_row < shown && edge.parent_row < shown {
        let i = choose|i: int| 0 <= i < edges.len() && edges[i] == edge;
        edges.lemma_filter_contains(inside, i);
        let kept = edges.filter(inside);
        let k = choose|k: int| 0 <= k < kept.len() && kept[k] == edge;
        assert(shown_edges(edges, shown)[k].child_row == edge.child_row);
    }
}

/// No other line is shown.
pub proof fn lines_that_leave_the_rows_are_not_shown(edges: Seq<Edge>, shown: nat, k: int)
    requires
        0 <= k < shown_edges(edges, shown).len(),
    ensures
        ({
            let line = shown_edges(edges, shown)[k];
            &&& line.child_row < shown
            &&& line.parent_row < shown
            &&& line.colour < 8
            &&& (line.parent_lane - line.colour) % 8 == 0
            &&& exists|i: int|
                0 <= i < edges.len() && (#[trigger] edges[i]).child_row == line.child_row
                    && edges[i].child_lane == line.child_lane && edges[i].parent_row
                    == line.parent_row && edges[i].parent_lane == line.parent_lane
        }),
{
    let inside = |edge: Edge| edge.child_row < shown && edge.parent_row < shown;
    let kept = edges.filter(inside);
    edges.lemma_filter_pred(inside, k);
    edges.lemma_filter_contains_rev(inside, kept[k]);
    let i = choose|i: int| 0 <= i < edges.len() && edges[i] == kept[k];
    assert(edges[i].child_row == shown_edges(edges, shown)[k].child_row);
}

/// A commit is shown as it is.
pub proof fn commits_are_shown_as_they_are(dto: CommitSummaryDto, info: CommitInfo)
    requires
        shows_summary(dto, info),
    ensures
        dto.oid == info.oid,
        dto.short_oid == info.short_oid,
        dto.summary == info.summary,
        dto.author == info.author,
        dto.timestamp == info.timestamp,
{
}

/// What is shown of branches that went apart: each list as it is, whether they did, whether
/// they touch the same files, and how many commits there would be. A merge makes one more.
pub proof fn divergences_are_shown_as_they_are(dto: DivergenceDto, divergence: Divergence, i: int)
    requires
        shows_divergence(dto, divergence),
    ensures
        dto.branch == divergence.branch,
        dto.upstream == divergence.upstream,
        dto.ahead@.len() == divergence.ahead@.len(),
        dto.behind@.len() == divergence.behind@.len(),
        0 <= i < dto.ahead@.len() ==> dto.ahead@[i].oid == divergence.ahead@[i].oid
            && dto.ahead@[i].summary == divergence.ahead@[i].summary && dto.ahead@[i].author
            == divergence.ahead@[i].author && dto.ahead@[i].timestamp
            == divergence.ahead@[i].timestamp,
        0 <= i < dto.behind@.len() ==> dto.behind@[i].oid == divergence.behind@[i].oid
            && dto.behind@[i].summary == divergence.behind@[i].summary && dto.behind@[i].author
            == divergence.behind@[i].author && dto.behind@[i].timestamp
            == divergence.behind@[i].timestamp,
        dto.local_files@ == divergence.local_files@,
        dto.incoming_files@ == divergence.incoming_files@,
        dto.overlapping_files@ == divergence.overlapping_files@,
        dto.uncommitted_overlap@ == divergence.uncommitted_overlap@,
        dto.is_diverged <==> divergence.ahead@.len() > 0 && divergence.behind@.len() > 0,
        dto.risk@ == "none"@ <==> divergence.overlapping_files@.len() == 0,
        dto.risk@ == "possible"@ <==> divergence.overlapping_files@.len() > 0,
        dto.commits_after_rebase == divergence.ahead@.len() + divergence.behind@.len(),
        dto.commits_after_merge == dto.commits_after_rebase + 1,
{
    reveal_strlit("none");
    reveal_strlit("possible");
    assert("none"@.len() == 4 && "possible"@.len() == 8);
    if 0 <= i < dto.ahead@.len() {
        assert(shows_summary(dto.ahead@[i], divergence.ahead@[i]));
    }
    if 0 <= i < dto.behind@.len() {
        assert(shows_summary(dto.behind@[i], divergence.behind@[i]));
    }
}

/// What came of an operation is shown as it is, with the name of its safety point.
pub proof fn outcomes_are_shown_as_they_are(dto: OpOutcomeDto, outcome: OpOutcome)
    requires
        shows_outcome(dto, outcome),
    ensures
        dto.message == outcome.message,
        dto.undo_ref is Some <==> outcome.undo is Some,
        outcome.undo is Some ==> dto.undo_ref->0 == outcome.undo->0.reference,
{
}

/// A safety point is shown as it is.
pub proof fn points_are_shown_as_they_are(dto: SafetyPointDto, point: SafetyPoint)
    requires
        shows_point(dto, point),
    ensures
        dto.reference == point.reference,
        dto.oid == point.oid,
        dto.operation == point.operation,
        dto.created_unix == point.created_unix,
{
}

/// A file with changes is shown as it is.
pub proof fn changes_are_shown_as_they_are(dto: FileChangeDto, change: FileChange)
    requires
        shows_change(dto, change),
    ensures
        dto.path == change.path,
        dto.staged@ == change.staged@,
        dto.unstaged@ == change.unstaged@,
        dto.is_untracked == change.is_untracked,
        dto.is_conflicted == change.is_conflicted,
{
}

/// A branch is shown as it is.
pub proof fn branches_are_shown_as_they_are(dto: BranchDto, branch: BranchInfo)
    requires
        shows_branch(dto, branch),
    ensures
        dto.name == branch.name,
        dto.is_head == branch.is_head,
        dto.is_remote == branch.is_remote,
        dto.upstream == branch.upstream,
{
}

/// An entry of the stash is shown as it is.
pub proof fn stashes_are_shown_as_they_are(dto: StashDto, entry: StashEntry)
    requires
        shows_stash(dto, entry),
    ensures
        dto.index == entry.index,
        dto.message == entry.message,
{
}

/// A file in conflict is shown as it is, each version in its place.
pub proof fn conflicts_are_shown_as_they_are(dto: ConflictFileDto, file: ConflictFile)
    requires
        shows_conflict(dto, file),
    ensures
        dto.path == file.path,
        dto.base.text == file.base.text,
        dto.base.exists == file.base.exists,
        dto.ours.text == file.ours.text,
        dto.ours.exists == file.ours.exists,
        dto.theirs.text == file.theirs.text,
        dto.theirs.exists == file.theirs.exists,
        dto.merged == file.merged,
        dto.is_binary == file.is_binary,
{
}

/// What the sides are called is shown as it is.
pub proof fn labels_are_shown_as_they_are(dto: SideLabelsDto, labels: SideLabels)
    requires
        shows_labels(dto, labels),
    ensures
        dto.ours == labels.ours,
        dto.theirs == labels.theirs,
        dto.note == labels.note,
{
}

/// A line of a difference is shown as it is, with its kind in words.
pub proof fn lines_are_shown_as_they_are(dto: DiffLineDto, line: DiffLine, i: int)
    requires
        shows_line(dto, line),
    ensures
        dto.content == line.content,
        dto.old_lineno == line.old_lineno,
        dto.new_lineno == line.new_lineno,
        dto.whitespace_only == line.whitespace_only,
        dto.pair == line.pair,
        dto.spans@.len() == line.spans@.len(),
        0 <= i < dto.spans@.len() ==> dto.spans@[i].start == line.spans@[i].start && dto.spans@[i].end
            == line.spans@[i].end,
        line.kind == LineKind::Context ==> dto.kind@ == "context"@,
        line.kind == LineKind::Added ==> dto.kind@ == "added"@,
        line.kind == LineKind::Removed ==> dto.kind@ == "removed"@,
{
}

/// A section of a difference is shown as it is. It is a matter of white space exactly if it
/// has changed lines and each of them is.
pub proof fn sections_are_shown_as_they_are(dto: HunkDto, hunk: Hunk, i: int)
    requires
        shows_hunk(dto, hunk),
    ensures
        dto.header == hunk.header,
        dto.old_start == hunk.old_start,
        dto.new_start == hunk.new_start,
        dto.collides_with_incoming == hunk.collides_with_incoming,
        dto.lines@.len() == hunk.lines@.len(),
        0 <= i < dto.lines@.len() ==> shows_line(dto.lines@[i], hunk.lines@[i]),
        dto.whitespace_only == only_white_space(hunk.lines@),
{
}

/// The difference of a file is shown as it is.
pub proof fn differences_are_shown_as_they_are(dto: FileDiffDto, file: FileDiff, i: int)
    requires
        shows_file(dto, file),
    ensures
        dto.path == file.path,
        dto.old_path == file.old_path,
        dto.is_binary == file.is_binary,
        dto.added == file.added,
        dto.removed == file.removed,
        dto.hunks@.len() == file.hunks@.len(),
        0 <= i < dto.hunks@.len() ==> shows_hunk(dto.hunks@[i], file.hunks@[i]),
{
}

/// A hit of a search is shown as it is.
pub proof fn hits_are_shown_as_they_are(dto: SearchHitDto, hit: SearchHit, i: int)
    requires
        shows_hit(dto, hit),
    ensures
        dto.oid == hit.oid,
        dto.short_oid == hit.short_oid,
        dto.summary == hit.summary,
        dto.author == hit.author,
        dto.timestamp == hit.timestamp,
        dto.paths@ == hit.paths@,
        dto.matched@.len() == hit.matched@.len(),
        0 <= i < dto.matched@.len() ==> dto.matched@[i]@ == hit.matched@[i]@,
{
    let shown = text::views_of(dto.matched@);
    assert(shown.len() == dto.matched@.len());
    if 0 <= i < dto.matched@.len() {
        assert(shown[i] == dto.matched@[i]@);
        assert(crate::search::words_view(hit.matched@)[i] == hit.matched@[i]@);
    }
}

/// A line of a file is shown with the commit that it comes from, each field in its place.
pub proof fn blamed_lines_are_shown_as_they_are(dto: BlameLineDto, line: BlameLine)
    requires
        shows_blame(dto, line),
    ensures
        dto.line_number == line.line_number,
        dto.content == line.content,
        dto.oid == line.oid,
        dto.short_oid == line.short_oid,
        dto.author == line.author,
        dto.summary == line.summary,
        dto.timestamp == line.timestamp,
        dto.same_as_previous == line.same_as_previous,
{
}

} // verus!
