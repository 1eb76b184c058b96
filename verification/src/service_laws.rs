//! What holds of everything that the interface asks for.
use vstd::prelude::*;
use vstd::utf8::{decode_utf8, valid_utf8};

use crate::compare::{compared_for, fails_at, is_history, touching, workspace_options, Visit};
use crate::conflict::{
    comes_of_step, conflict_path, conflicts_view, lists_conflicts, resolves_with, takes_side,
    ConflictFile, RawConflict, Side,
};
use crate::dag::Node;
use crate::diff::{files_view, sections_view, ChangedFile, DiffSource, FileDiff};
use crate::divergence::{
    recommendation_headline, recommendation_name, ConflictRisk, Recommendation,
};
use crate::dto::{
    shows_blame, shows_branch, shows_change, shows_commit, shows_conflict, shows_file,
    shows_files, shows_graph, shows_hit, shows_hunk, shows_point, shows_stash, BlameLineDto,
    CommitDetailDto, FileDiffDto, GraphDto, SearchHitDto, WorkspaceDto,
};
use crate::fetch::{
    comes_of_attempt, FetchAttempt, FetchFailure, FetchReport, GitCode, GitFailure,
};
use crate::git::{is_hex, is_oid, state_name, RepoState};
use crate::layout::{is_layout_of, Layout};
use crate::operation::{Operation, Reply, Request, Step};
use crate::ops::SafetyPoint;
use crate::order::{names_parent, newest_first, ready};
use crate::patch::{file_of, files_of, marked_file, IncomingRanges, RawDelta};
use crate::repo::{is_summary_of, names_at, RawSummary, RepoSummary};
use crate::search::{
    are_hits, hits_view, is_blame, BlameLine, RawBlame, RawHistoryCommit, SearchHit, SearchScope,
};
use crate::selection::{
    begins_selecting, file_at, new_index_text, selected_text, LineRef, SelectKind, Selecting,
};
use crate::service::{
    comes_of_asking, marked_files, resolves_as_asked, search_scope, shows_blames, shows_detail,
    shows_difference, shows_history, shows_hits, shows_search, shows_sources, shows_workspace,
    side_named, source_named, RawDetail,
};
use crate::status::state_label;
use crate::text;
use crate::text::{decimal_digits, lossy_text};
use crate::workspace::{BranchInfo, FileChange, StashEntry};

verus! {

/// The history of a file holds the commits that touch it, in the order in which they come.
pub proof fn every_touching_commit_is_found(visits: Seq<Visit>)
    ensures
        touching(visits) == visits.filter(
            |visit: Visit| visit is Compared && visit->touched,
        ).map_values(|visit: Visit| visit->oid@),
    decreases visits.len(),
{
    reveal(Seq::filter);
    let touches = |visit: Visit| visit is Compared && visit->touched;
    let name = |visit: Visit| visit->oid@;
    if visits.len() > 0 {
        every_touching_commit_is_found(visits.drop_last());
    }
    assert(touching(visits) =~= visits.filter(touches).map_values(name));
}

/// The way back through a history fails exactly where a commit cannot be reached before as
/// many commits were found as were wanted.
pub proof fn way_back_fails_before_enough_is_found(visits: Seq<Visit>, limit: nat, i: int)
    ensures
        fails_at(visits, limit, i) <==> 0 <= i < visits.len() && visits[i] is Failed
            && visits.take(i).filter(|visit: Visit| visit is Compared && visit->touched).len()
            < limit,
{
    if 0 <= i < visits.len() {
        every_touching_commit_is_found(visits.take(i));
    }
}

/// A working tree is compared with all that is new in it, and with three lines round each
/// change.
pub proof fn new_files_are_compared()
    ensures
        workspace_options().include_untracked,
        workspace_options().recurse_untracked_dirs,
        workspace_options().show_untracked_content,
        workspace_options().context_lines == 3,
{
}

/// A side is known by its name, and by no other text.
pub proof fn sides_are_known_by_name(name: Seq<char>)
    ensures
        side_named(Some(name)) == Some(Side::Ours) <==> name == "ours"@,
        side_named(Some(name)) == Some(Side::Theirs) <==> name == "theirs"@,
        side_named(None) is None,
{
    reveal_strlit("ours");
    reveal_strlit("theirs");
    assert("ours"@.len() == 4 && "theirs"@.len() == 6);
}

/// What is staged is shown where it is asked for by name, and otherwise what is not.
pub proof fn sources_are_known_by_name(name: Seq<char>)
    ensures
        source_named(name) == DiffSource::Staged <==> name == "staged"@,
        source_named(name) == DiffSource::Unstaged <==> name != "staged"@,
{
}

/// The files of a difference are marked where it is known what comes in, each for itself, and
/// left as they are where it is not.
pub proof fn files_are_marked_each_for_itself(
    deltas: Seq<RawDelta>,
    incoming: IncomingRanges,
    i: int,
)
    requires
        0 <= i < deltas.len(),
    ensures
        marked_files(deltas, Some(&incoming)).len() == deltas.len(),
        marked_files(deltas, Some(&incoming))[i] == marked_file(file_of(deltas[i]), incoming@),
        marked_files(deltas, None).len() == deltas.len(),
        marked_files(deltas, None)[i] == file_of(deltas[i]),
{
}

/// A commit is shown as it was read: names as well as can be, messages where they are text.
pub proof fn details_are_shown_as_read(dto: CommitDetailDto, oid: Seq<char>, commit: RawDetail)
    requires
        shows_detail(dto, oid, commit),
    ensures
        dto.oid@ == oid,
        oid.len() >= 8 ==> dto.short_oid@ == oid.take(8),
        dto.author@ == lossy_text(commit.author@),
        dto.email@ == lossy_text(commit.email@),
        dto.timestamp == commit.timestamp,
        dto.parents@ == commit.parents@,
        commit.summary is Some && valid_utf8(commit.summary->0@) ==> dto.summary@ == decode_utf8(
            commit.summary->0@,
        ),
        commit.summary is None || !valid_utf8(commit.summary->0@) ==> dto.summary@.len() == 0,
        commit.body is Some && valid_utf8(commit.body->0@) ==> dto.body@ == decode_utf8(
            commit.body->0@,
        ),
        commit.body is None || !valid_utf8(commit.body->0@) ==> dto.body@.len() == 0,
        dto.files@.len() == commit.deltas@.len(),
{
    crate::text_laws::head_is_the_start(oid, 8);
    let files = choose|files: Seq<crate::diff::FileDiff>| #[trigger]
        crate::dto::shows_files(dto.files@, files) && crate::diff::files_view(files) == files_of(
            commit.deltas@,
        );
    assert(crate::diff::files_view(files).len() == files.len());
}

/// A search looks at messages, authors and paths, and at content exactly if that is wanted.
pub proof fn content_is_searched_where_wanted(include_content: bool)
    ensures
        search_scope(include_content).message,
        search_scope(include_content).author,
        search_scope(include_content).path,
        search_scope(include_content).content == include_content,
{
}

/// A state in which something is in progress has a name for the user, and only such a state.
/// Forms of the same operation go by the same name.
pub proof fn states_in_progress_have_a_name(state: RepoState)
    ensures
        state_label(state) is None <==> state == RepoState::Clean,
        state is Merge ==> state_label(state) == Some("合併中"@),
        state is Revert || state is RevertSequence ==> state_label(state) == Some("還原中"@),
        state is CherryPick || state is CherryPickSequence ==> state_label(state) == Some(
            "揀選中"@,
        ),
        state is Bisect ==> state_label(state) == Some("二分搜尋中"@),
        state is Rebase || state is RebaseInteractive || state is RebaseMerge ==> state_label(state)
            == Some("rebase 中"@),
        state is ApplyMailbox || state is ApplyMailboxOrRebase ==> state_label(state) == Some(
            "套用 patch 中"@,
        ),
{
}

/// No two states have the same name, so that a commit that completes one tells which it was.
pub proof fn states_are_told_apart_by_name(a: RepoState, b: RepoState)
    ensures
        state_name(a) == state_name(b) ==> a == b,
        state_name(RepoState::Revert) == "Revert"@,
        state_name(RepoState::CherryPick) == "CherryPick"@,
        state_name(RepoState::Merge) == "Merge"@,
        state_name(RepoState::Rebase) == "Rebase"@,
{
    reveal_strlit("Clean");
    reveal_strlit("Merge");
    reveal_strlit("Revert");
    reveal_strlit("RevertSequence");
    reveal_strlit("CherryPick");
    reveal_strlit("CherryPickSequence");
    reveal_strlit("Bisect");
    reveal_strlit("Rebase");
    reveal_strlit("RebaseInteractive");
    reveal_strlit("RebaseMerge");
    reveal_strlit("ApplyMailbox");
    reveal_strlit("ApplyMailboxOrRebase");
    assert("Clean"@.len() == 5 && "Clean"@[0] == 'C');
    assert("Merge"@.len() == 5 && "Merge"@[0] == 'M');
    assert("Revert"@.len() == 6 && "Revert"@[2] == 'v');
    assert("Bisect"@.len() == 6 && "Bisect"@[2] == 's');
    assert("Rebase"@.len() == 6 && "Rebase"@[2] == 'b');
    assert("CherryPick"@.len() == 10);
    assert("RebaseMerge"@.len() == 11);
    assert("ApplyMailbox"@.len() == 12);
    assert("RevertSequence"@.len() == 14);
    assert("RebaseInteractive"@.len() == 17);
    assert("CherryPickSequence"@.len() == 18);
    assert("ApplyMailboxOrRebase"@.len() == 20);
}

/// Each piece of advice has a name of its own.
pub proof fn advice_is_known_by_name(advice: Recommendation)
    ensures
        recommendation_name(advice) == "no-upstream"@ <==> advice is NoUpstream,
        recommendation_name(advice) == "up-to-date"@ <==> advice is UpToDate,
        recommendation_name(advice) == "push"@ <==> advice is Push,
        recommendation_name(advice) == "fast-forward"@ <==> advice is FastForward,
        recommendation_name(advice) == "rebase"@ <==> advice is Rebase,
        recommendation_name(advice) == "resolve-working-tree"@ <==> advice
            is ResolveWorkingTreeFirst,
{
    reveal_strlit("no-upstream");
    reveal_strlit("up-to-date");
    reveal_strlit("push");
    reveal_strlit("fast-forward");
    reveal_strlit("rebase");
    reveal_strlit("resolve-working-tree");
    assert("no-upstream"@.len() == 11 && "up-to-date"@.len() == 10 && "push"@.len() == 4);
    assert("fast-forward"@.len() == 12 && "rebase"@.len() == 6 && "resolve-working-tree"@.len()
        == 20);
}

/// What is said of a rebase tells whether conflicts can come of it.
pub proof fn advice_tells_of_conflicts()
    ensures
        recommendation_headline(Recommendation::Rebase(ConflictRisk::Absent))
            == "建議 rebase，不會衝突"@,
        recommendation_headline(Recommendation::Rebase(ConflictRisk::Possible))
            == "建議 rebase，但可能需要解衝突"@,
        recommendation_headline(Recommendation::NoUpstream) == "沒有追蹤的遠端分支"@,
        recommendation_headline(Recommendation::UpToDate) == "已與遠端一致"@,
        recommendation_headline(Recommendation::Push) == "推送即可"@,
        recommendation_headline(Recommendation::FastForward) == "可以直接快轉"@,
        recommendation_headline(Recommendation::ResolveWorkingTreeFirst)
            == "請先處理未提交的變更"@,
{
}

proof fn lemma_file_at(files: Seq<ChangedFile>, path: Seq<char>, k: int)
    requires
        0 <= k <= files.len(),
        forall|i: int| 0 <= i < k ==> (#[trigger] files[i]).path != path,
        k < files.len() ==> files[k].path == path,
    ensures
        file_at(files, path) == if k < files.len() {
            Some(files[k])
        } else {
            None
        },
    decreases files.len(),
{
    if k > 0 {
        assert(files[0].path != path);
        let rest = files.drop_first();
        assert forall|i: int| 0 <= i < k - 1 implies (#[trigger] rest[i]).path != path by {
            assert(rest[i] == files[i + 1]);
        }
        lemma_file_at(rest, path, k - 1);
    }
}

/// Lines are picked from what is not staged and unpicked from what is, in the file of that
/// path. Where none is picked, where the file has no changes or where it is binary, nothing
/// is done.
pub proof fn lines_are_picked_from_the_right_difference(
    start: Step,
    kind: SelectKind,
    path: Seq<char>,
    selected: Vec<LineRef>,
    reply: Reply,
    step: Step,
    k: int,
)
    requires
        begins_selecting(start, kind, path, selected),
    ensures
        selected@.len() == 0 <==> start is Refused,
        selected@.len() > 0 ==> start is Ask && start->Ask_1 == (Request::ReadDeltas {
            source: if kind == SelectKind::Stage {
                DiffSource::Unstaged
            } else {
                DiffSource::Staged
            },
        }),
        selected@.len() > 0 && start->Ask_0.expects(reply) && start->Ask_0.leads_to(reply, step)
            && 0 <= k <= reply->Deltas_0@.len() && (forall|i: int|
            0 <= i < k ==> file_of(#[trigger] reply->Deltas_0@[i]).path != path) && (k
            < reply->Deltas_0@.len() ==> file_of(reply->Deltas_0@[k]).path == path) ==> {
            &&& k == reply->Deltas_0@.len() ==> step is Refused
            &&& k < reply->Deltas_0@.len() && reply->Deltas_0@[k].hunks is None ==> step is Refused
            &&& k < reply->Deltas_0@.len() && reply->Deltas_0@[k].hunks is Some ==> {
                &&& step is Ask
                &&& kind == SelectKind::Stage ==> step->Ask_1 is ReadIndexFile
                    && step->Ask_1->ReadIndexFile_path@ == path
                &&& kind == SelectKind::Unstage ==> step->Ask_1 is ReadHeadFile
                    && step->Ask_1->ReadHeadFile_path@ == path
                &&& step->Ask_0 matches Operation::Select(Selecting::File {
                    kind: next,
                    path: named,
                    selected: kept,
                    hunks,
                })
                &&& next == kind
                &&& named@ == path
                &&& kept == selected
                &&& crate::diff::sections_view(hunks@) == file_of(reply->Deltas_0@[k]).sections
            }
        },
{
    if selected@.len() > 0 && start->Ask_0.expects(reply) && start->Ask_0.leads_to(reply, step)
        && 0 <= k <= reply->Deltas_0@.len() && (forall|i: int|
        0 <= i < k ==> file_of(#[trigger] reply->Deltas_0@[i]).path != path) && (k
        < reply->Deltas_0@.len() ==> file_of(reply->Deltas_0@[k]).path == path) {
        let deltas = reply->Deltas_0@;
        let files = files_of(deltas);
        assert(files.len() == deltas.len());
        assert forall|i: int| 0 <= i < k implies (#[trigger] files[i]).path != path by {
            assert(files[i] == file_of(deltas[i]));
        }
        lemma_file_at(files, path, k);
    }
}

/// What was picked is written to the index under the path of the file, on top of the version
/// that was read, and the number of lines is told.
pub proof fn picked_lines_are_written_to_the_index(
    kind: SelectKind,
    path: String,
    selected: Vec<LineRef>,
    hunks: Vec<crate::diff::Hunk>,
    reply: Reply,
    step: Step,
)
    requires
        Operation::Select(Selecting::File { kind, path, selected, hunks }).expects(reply),
        Operation::Select(Selecting::File { kind, path, selected, hunks }).leads_to(reply, step),
    ensures
        step is Ask,
        step->Ask_1 is WriteIndexFile,
        step->Ask_1->WriteIndexFile_path == path,
        reply == Reply::File(None) ==> step->Ask_1->WriteIndexFile_content@ == new_index_text(
            kind,
            Seq::empty(),
            crate::diff::sections_view(hunks@),
            selected@,
        ),
        reply matches Reply::File(Some(bytes)) ==> step->Ask_1->WriteIndexFile_content@
            == new_index_text(
            kind,
            lossy_text(bytes@),
            crate::diff::sections_view(hunks@),
            selected@,
        ),
        selected_text(SelectKind::Stage, path@, selected@.len()) == "已暫存 "@ + path@ + " 的 "@
            + decimal_digits(selected@.len()) + " 行"@,
        selected_text(SelectKind::Unstage, path@, selected@.len()) == "已取消暫存 "@ + path@ + " 的 "@
            + decimal_digits(selected@.len()) + " 行"@,
{
}

/// The history of a file is as long as was wanted, or as there are commits that touch it, and
/// holds the first of them.
pub proof fn history_holds_the_first_commits(
    r: Result<Vec<String>, String>,
    visits: Seq<Visit>,
    limit: usize,
    i: int,
)
    requires
        is_history(r, visits, limit),
    ensures
        r matches Ok(oids) ==> ({
            let found = visits.filter(|visit: Visit| visit is Compared && visit->touched);
            &&& oids@.len() == if found.len() < limit {
                found.len()
            } else {
                limit as nat
            }
            &&& 0 <= i < oids@.len() ==> oids@[i]@ == found[i]->oid@
        }),
        r matches Err(error) ==> exists|k: int|
            0 <= k < visits.len() && (#[trigger] visits[k]) is Failed && visits[k]->Failed_0
                == error,
{
    every_touching_commit_is_found(visits);
    if let Ok(oids) = r {
        assert(text::views_of(oids@).len() == oids@.len());
        if 0 <= i < oids@.len() {
            assert(text::views_of(oids@)[i] == oids@[i]@);
        }
    } else {
        let k = choose|k: int| #[trigger]
            fails_at(visits, limit as nat, k) && r->Err_0 == visits[k]->Failed_0;
        assert(visits[k] is Failed);
    }
}

/// What is not staged is the working tree against the index, what is staged is the index
/// against HEAD, and a commit is compared otherwise.
pub proof fn sources_are_compared_as_such(source: DiffSource)
    ensures
        compared_for(source) is None <==> source == DiffSource::Commit,
        source == DiffSource::Unstaged ==> compared_for(source)->0 is IndexToWorkdir,
        source == DiffSource::Staged ==> compared_for(source)->0 is HeadToIndex,
{
}

/// A repository at a glance: where it is, how many commits there are and how many of them
/// merge others, and whether something is in progress. A bare one is known by its git
/// directory, and has no changed files.
pub proof fn summaries_count_what_was_read(r: RepoSummary, raw: RawSummary, nodes: Seq<Node>)
    requires
        is_summary_of(r, raw, nodes),
    ensures
        raw.workdir is Some ==> r.path@ == lossy_text(raw.workdir->0@),
        raw.workdir is None ==> r.path@ == lossy_text(raw.git_dir@),
        r.branch == raw.branch,
        r.commit_count == nodes.len(),
        r.merge_count + nodes.filter(|node: Node| node.parents.len() < 2).len() == nodes.len(),
        raw.is_bare ==> r.dirty_files == 0,
        !raw.is_bare ==> r.dirty_files == raw.changed_files,
        r.operation_in_progress <==> raw.state != RepoState::Clean,
{
    lemma_split(nodes);
}

proof fn lemma_split(nodes: Seq<Node>)
    ensures
        nodes.filter(|node: Node| node.parents.len() >= 2).len() + nodes.filter(
            |node: Node| node.parents.len() < 2,
        ).len() == nodes.len(),
    decreases nodes.len(),
{
    reveal(Seq::filter);
    if nodes.len() > 0 {
        lemma_split(nodes.drop_last());
    }
}

/// A step of a rebase made a commit, or was there already, or failed for the reason given.
pub proof fn steps_that_are_there_already_are_no_failure(
    r: Result<bool, String>,
    result: Result<(), GitFailure>,
)
    requires
        comes_of_step(r, result),
    ensures
        r == Ok::<bool, String>(true) <==> result is Ok,
        r == Ok::<bool, String>(false) <==> result is Err && result->Err_0.code == GitCode::Applied,
        r is Err ==> result is Err && r->Err_0@ == "無法提交這一步："@ + result->Err_0.message@,
{
}

/// A list of conflicts is refused exactly if one of them has no path.
pub proof fn conflicts_need_a_path(
    r: Result<Vec<ConflictFile>, &'static str>,
    raw: Seq<RawConflict>,
)
    requires
        lists_conflicts(r, raw),
    ensures
        r is Err <==> exists|i: int|
            0 <= i < raw.len() && (#[trigger] raw[i]).our is None && raw[i].their is None
                && raw[i].ancestor is None,
        r is Ok ==> r->Ok_0@.len() == raw.len(),
{
    if r is Err {
        let i = choose|i: int| 0 <= i < raw.len() && conflict_path(#[trigger] raw[i]) is None;
        assert(raw[i].our is None);
    } else {
        if exists|i: int|
            0 <= i < raw.len() && (#[trigger] raw[i]).our is None && raw[i].their is None
                && raw[i].ancestor is None {
            let i = choose|i: int|
                0 <= i < raw.len() && (#[trigger] raw[i]).our is None && raw[i].their is None
                    && raw[i].ancestor is None;
            assert(conflict_path(raw[i]) is Some);
        }
        crate::conflict_laws::every_conflict_is_listed(r->Ok_0@, raw, 0);
    }
}

/// A fetch that received something, be it nothing new, tells of the remote it was from, how
/// much it was and when. One from a remote that is not there says so, and any other failure
/// is told apart.
pub proof fn fetches_tell_what_came(
    r: Result<FetchReport, FetchFailure>,
    remote: Seq<char>,
    attempt: FetchAttempt,
)
    requires
        comes_of_attempt(r, remote, attempt),
    ensures
        r is Ok <==> attempt is Received,
        r is Ok ==> r->Ok_0.remote@ == remote && r->Ok_0.received_objects == attempt->objects
            && r->Ok_0.at == attempt->at,
        attempt is NoRemote <==> r is Err && r->Err_0 is NoRemote,
        attempt is NoRemote ==> r->Err_0->NoRemote_0@ == remote,
{
}

/// A side that is named decides, whatever content is given; content decides where no side is
/// named; and without either nothing is done.
pub proof fn named_side_comes_before_content(
    step: Step,
    files: Seq<ConflictFile>,
    file: Seq<char>,
    side: Option<Seq<char>>,
    content: Option<Seq<char>>,
)
    requires
        resolves_as_asked(step, files, file, side, content),
    ensures
        side == Some("ours"@) ==> takes_side(step, conflicts_view(files), file, Side::Ours),
        side == Some("theirs"@) ==> takes_side(step, conflicts_view(files), file, Side::Theirs),
        side != Some("ours"@) && side != Some("theirs"@) && content is Some ==> resolves_with(
            step,
            file,
            content->0,
        ),
        side != Some("ours"@) && side != Some("theirs"@) && content is None ==> step is Refused,
{
    reveal_strlit("ours");
    reveal_strlit("theirs");
    assert("ours"@.len() == 4 && "theirs"@.len() == 6);
}

/// The name of an object is made of one to forty hexadecimal digits, of either case.
pub proof fn object_names_are_hexadecimal(oid: Seq<char>)
    ensures
        is_oid(oid) <==> 1 <= oid.len() <= 40 && forall|i: int|
            0 <= i < oid.len() ==> {
                let c = #[trigger] oid[i];
                ('0' <= c && c <= '9') || ('a' <= c && c <= 'f') || ('A' <= c && c <= 'F')
            },
{
    if is_oid(oid) {
        assert forall|i: int| 0 <= i < oid.len() implies {
            let c = #[trigger] oid[i];
            ('0' <= c && c <= '9') || ('a' <= c && c <= 'f') || ('A' <= c && c <= 'F')
        } by {
            assert(is_hex(oid[i]));
        }
    }
    if 1 <= oid.len() <= 40 && forall|i: int|
        0 <= i < oid.len() ==> {
            let c = #[trigger] oid[i];
            ('0' <= c && c <= '9') || ('a' <= c && c <= 'f') || ('A' <= c && c <= 'F')
        } {
        assert forall|i: int| 0 <= i < oid.len() implies is_hex(#[trigger] oid[i]) by {}
    }
}

/// Everything that was read of a working tree is shown, each list in its order.
pub proof fn every_part_of_a_workspace_is_shown(
    dto: WorkspaceDto,
    changes: Seq<FileChange>,
    branches: Seq<BranchInfo>,
    stashes: Seq<StashEntry>,
    conflicts: Seq<ConflictFile>,
    points: Seq<SafetyPoint>,
    i: int,
)
    requires
        shows_workspace(dto, changes, branches, stashes, conflicts, points),
        0 <= i,
    ensures
        dto.changes@.len() == changes.len(),
        dto.branches@.len() == branches.len(),
        dto.stashes@.len() == stashes.len(),
        dto.conflicts@.len() == conflicts.len(),
        dto.undo_points@.len() == points.len(),
        i < changes.len() ==> dto.changes@[i].path == changes[i].path && dto.changes@[i].staged@
            == changes[i].staged@ && dto.changes@[i].unstaged@ == changes[i].unstaged@,
        i < branches.len() ==> dto.branches@[i].name == branches[i].name,
        i < stashes.len() ==> dto.stashes@[i].index == stashes[i].index && dto.stashes@[i].message
            == stashes[i].message,
        i < conflicts.len() ==> dto.conflicts@[i].path == conflicts[i].path
            && dto.conflicts@[i].ours.text == conflicts[i].ours.text
            && dto.conflicts@[i].theirs.text == conflicts[i].theirs.text,
        i < points.len() ==> dto.undo_points@[i].reference == points[i].reference,
{
    if i < changes.len() {
        assert(shows_change(dto.changes@[i], changes[i]));
    }
    if i < branches.len() {
        assert(shows_branch(dto.branches@[i], branches[i]));
    }
    if i < stashes.len() {
        assert(shows_stash(dto.stashes@[i], stashes[i]));
    }
    if i < conflicts.len() {
        assert(shows_conflict(dto.conflicts@[i], conflicts[i]));
    }
    if i < points.len() {
        assert(shows_point(dto.undo_points@[i], points[i]));
    }
}

/// The history that is shown has all commits, or as many as are wanted, and the first row is
/// one that no other commit names as a parent.
pub proof fn history_begins_with_a_tip(
    dto: GraphDto,
    nodes: Seq<Node>,
    labels: Map<Seq<char>, Seq<Seq<char>>>,
    limit: usize,
)
    requires
        shows_history(dto, nodes, labels, limit),
        nodes.len() > 0,
        limit > 0,
    ensures
        dto.total_commits == nodes.len(),
        dto.commits@.len() == if nodes.len() < limit {
            nodes.len()
        } else {
            limit as nat
        },
        dto.truncated <==> nodes.len() > limit,
        exists|tip: int|
            0 <= tip < nodes.len() && (#[trigger] nodes[tip]).oid == dto.commits@[0].oid@ && forall|
                v: int,
                k: int,
            |
                0 <= v < nodes.len() && 0 <= k < nodes[v].parents.len()
                    ==> #[trigger] nodes[v].parents[k] != tip,
{
    let layout = choose|layout: Layout| #[trigger]
        shows_graph(dto, nodes, layout, labels, limit) && layout.order@.len() == nodes.len()
            && newest_first(nodes, layout.order@) && is_layout_of(layout, nodes, layout.order@);
    let order = layout.order@;
    let tip = order[0] as int;
    assert(order.take(0) =~= Seq::empty());
    assert(ready(nodes, order.take(0), tip));
    assert(shows_commit(
        dto.commits@[0],
        nodes[tip],
        0,
        layout.lane_of@[tip],
        names_at(labels, nodes[tip].oid),
    ));
    assert forall|v: int, k: int|
        0 <= v < nodes.len() && 0 <= k < nodes[v].parents.len()
            implies #[trigger] nodes[v].parents[k] != tip by {
        if nodes[v].parents[k] == tip {
            assert(names_parent(nodes, v, tip));
        }
    }
    assert(nodes[tip].oid == dto.commits@[0].oid@);
}

/// What is not staged is marked where something comes in; what is staged never is. All files
/// are shown, in their order.
pub proof fn only_what_is_not_staged_is_marked(
    dtos: Seq<FileDiffDto>,
    source: Seq<char>,
    deltas: Seq<RawDelta>,
    incoming: Option<&IncomingRanges>,
    i: int,
    h: int,
)
    requires
        shows_difference(dtos, source, deltas, incoming),
        0 <= i < deltas.len(),
    ensures
        dtos.len() == deltas.len(),
        dtos[i].path@ == file_of(deltas[i]).path,
        dtos[i].is_binary == (deltas[i].hunks is None),
        dtos[i].added == file_of(deltas[i]).added,
        dtos[i].removed == file_of(deltas[i]).removed,
        dtos[i].hunks@.len() == file_of(deltas[i]).sections.len(),
        0 <= h < dtos[i].hunks@.len() && (source == "staged"@ || incoming is None)
            ==> !dtos[i].hunks@[h].collides_with_incoming,
        0 <= h < dtos[i].hunks@.len() && source != "staged"@ && incoming is Some
            ==> dtos[i].hunks@[h].collides_with_incoming == marked_file(
            file_of(deltas[i]),
            incoming->0@,
        ).sections[h].collides_with_incoming,
{
    let files = choose|files: Seq<FileDiff>| #[trigger]
        shows_files(dtos, files) && files_view(files) == if source_named(source)
            == DiffSource::Unstaged {
            marked_files(deltas, incoming)
        } else {
            files_of(deltas)
        };
    assert(files_view(files).len() == files.len());
    assert(shows_file(dtos[i], files[i]));
    assert(files_view(files)[i] == files[i]@);
    assert(files[i]@.sections == sections_view(files[i].hunks@));
    assert(sections_view(files[i].hunks@).len() == files[i].hunks@.len());
    if 0 <= h < dtos[i].hunks@.len() {
        assert(shows_hunk(dtos[i].hunks@[h], files[i].hunks@[h]));
        assert(files[i]@.sections[h] == files[i].hunks@[h]@);
    }
}

/// A commit is shown exactly if its name can be one and there is such a commit, and otherwise
/// it is said which of the two is wrong.
pub proof fn commits_are_shown_where_they_are(
    r: Result<CommitDetailDto, String>,
    oid: Seq<char>,
    commit: Option<RawDetail>,
)
    requires
        comes_of_asking(r, oid, commit),
    ensures
        r is Ok <==> is_oid(oid) && commit is Some,
        r is Ok ==> r->Ok_0.oid@ == oid && shows_detail(r->Ok_0, oid, commit->0),
        r is Err && !is_oid(oid) ==> r->Err_0@ == "commit 識別碼格式錯誤"@,
        r is Err && is_oid(oid) ==> r->Err_0@ == "找不到該 commit"@,
{
}

/// A search shows a hundred hits at most, out of the first five thousand commits.
pub proof fn searches_show_the_first_hits(
    dtos: Seq<SearchHitDto>,
    commits: Seq<Option<RawHistoryCommit>>,
    needle: Seq<char>,
    include_content: bool,
)
    requires
        shows_search(dtos, commits, needle, include_content),
    ensures
        dtos.len() <= 100,
        exists|hits: Seq<SearchHit>|
            dtos.len() == hits.len() && (forall|i: int|
                0 <= i < dtos.len() ==> shows_hit(#[trigger] dtos[i], hits[i])) && #[trigger]
                are_hits(
                hits,
                commits,
                needle,
                SearchScope { message: true, author: true, path: true, content: include_content },
                100,
                5_000,
            ),
{
    let hits = choose|hits: Seq<SearchHit>| #[trigger]
        shows_hits(dtos, hits) && are_hits(
            hits,
            commits,
            needle,
            search_scope(include_content),
            100,
            5_000,
        );
    assert(hits_view(hits).len() == hits.len());
    assert(are_hits(hits, commits, needle, search_scope(include_content), 100, 5_000));
}

/// The sources of the first five thousand lines of a file are shown.
pub proof fn sources_of_the_first_lines_are_shown(
    dtos: Seq<BlameLineDto>,
    content: Seq<u8>,
    sources: Seq<Option<RawBlame>>,
)
    requires
        shows_sources(dtos, content, sources),
    ensures
        exists|lines: Seq<BlameLine>|
            dtos.len() == lines.len() && (forall|i: int|
                0 <= i < dtos.len() ==> shows_blame(#[trigger] dtos[i], lines[i])) && #[trigger]
                is_blame(lines, content, sources, 5_000),
{
    let lines = choose|lines: Seq<BlameLine>| #[trigger]
        shows_blames(dtos, lines) && is_blame(lines, content, sources, 5_000);
    assert(is_blame(lines, content, sources, 5_000));
}

} // verus!
