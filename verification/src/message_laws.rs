//! What is said at the end of every operation.
use vstd::prelude::*;

use crate::cli::{size_line, state_line};
use crate::conflict::{
    resolves_by_deleting, resolves_with, takes_side, ConflictView, Finishing, Side,
};
use crate::fetch::FetchFailure;
use crate::git::state_name;
use crate::layout::{Edge, Layout, LayoutError};
use crate::operation::{Operation, Reply, Step};
use crate::ops::{safety_log, undone_text, Aborting, Pushing, SyncKind, SyncPhase, Syncing};
use crate::repo::RepoSummary;
use crate::selection::{binary_text, no_changes_text, SelectKind};
use crate::text::decimal_digits;
use crate::workspace::{
    begins_branch, begins_commit, begins_following, checks_out, discards, renames, staged_text,
    Branching, Committing, Stashing,
};

verus! {

/// The text that a step ends with, be it a refusal or a report.
pub open spec fn said(step: Step) -> Seq<char> {
    match step {
        Step::Finished(outcome) => outcome.message@,
        Step::Refused(text) => text@,
        Step::Ask(Operation::Plan(rest), _) => rest.outcome.message@,
        _ => Seq::empty(),
    }
}

/// Bringing branches together says why it refuses: what is in progress, what is not
/// committed, that there is no branch or nothing to go to, or how many commits are in the
/// way.
pub proof fn syncing_says_why_it_refuses(inner: Syncing, reply: Reply, step: Step)
    requires
        inner.expects(reply),
        inner.leads_to(reply, step),
        step is Refused,
    ensures
        match reply {
            Reply::State(_) => said(step)
                == "repository 正處於未完成的操作中，請先完成或中止它"@,
            Reply::WorkTree { .. } => match inner.kind {
                SyncKind::FastForward => said(step) == "工作目錄有未提交的變更，請先提交或暫存"@,
                SyncKind::Rebase => said(step)
                    == "工作目錄有未提交的變更，請先提交或暫存後再 rebase"@,
                SyncKind::Merge => said(step)
                    == "工作目錄有未提交的變更，請先提交或暫存後再合併"@,
            },
            Reply::Head { is_branch, .. } => if is_branch {
                said(step) == "分支名稱不是有效的 UTF-8"@
            } else {
                said(step) == "目前不在分支上（detached HEAD）"@
            },
            Reply::Upstream { .. } => said(step) == "遠端追蹤分支沒有指向任何 commit"@,
            Reply::Distance { ahead, .. } => said(step) == "本機有 "@ + decimal_digits(ahead as nat)
                + " 個遠端沒有的 commit，無法快轉；請改用 rebase 或 merge"@,
            _ => false,
        },
{
}

/// Bringing branches together says what it came to.
pub proof fn syncing_says_what_it_came_to(inner: Syncing, reply: Reply, step: Step)
    requires
        inner.expects(reply),
        inner.leads_to(reply, step),
    ensures
        step is Finished && inner.phase is Local ==> said(step) == "已經是最新的，沒有任何改動"@,
        step is Finished && inner.phase is MergeConflicts ==> said(step)
            == "合併遇到衝突，已停在該處等待處理；不想繼續可以還原到操作前的狀態"@,
        inner.phase is MergeCommit ==> said(step) == "已合併遠端的變更，並建立一個合併節點"@,
        inner.phase matches SyncPhase::Kept { upstream, .. } ==> (inner.kind is FastForward
            && upstream@.len() >= 8 ==> said(step) == "已快轉到 "@ + upstream@.take(8)),
{
    if let SyncPhase::Kept { upstream, .. } = inner.phase {
        crate::text_laws::head_is_the_start(upstream@, 8);
    }
}

/// A push says why it refuses.
pub proof fn push_says_why_it_refuses(inner: Pushing, reply: Reply, step: Step)
    requires
        inner.expects(reply),
        inner.leads_to(reply, step),
        step is Refused,
    ensures
        match reply {
            Reply::Head { is_branch, .. } => if is_branch {
                said(step) == "分支名稱不是有效的 UTF-8"@
            } else {
                said(step) == "目前不在分支上（detached HEAD），無法推送"@
            },
            Reply::Remotes { .. } => said(step) == "找不到可用的遠端"@,
            Reply::RemoteHeads(_) => inner.phase is RemoteHeads && said(step) == "遠端的 "@
                + inner.phase->RemoteHeads_branch@
                + " 已經不是本機記錄的位置，可能有其他人推送過。請先取得更新再試，以免覆蓋掉別人的工作"@,
            _ => false,
        },
{
}

/// Giving up says what was given up.
pub proof fn giving_up_says_what_was_given_up(inner: Aborting, reply: Reply, step: Step)
    requires
        inner.expects(reply),
        inner.leads_to(reply, step),
    ensures
        inner is Head ==> said(step) == "已中止操作，回到操作前的狀態"@,
        inner is State && reply->State_0 is Clean ==> said(step) == "沒有進行中的操作"@,
        inner is State && (reply->State_0 is Rebase || reply->State_0 is RebaseMerge
            || reply->State_0 is RebaseInteractive) ==> said(step)
            == "已中止 rebase，回到操作前的狀態"@,
{
}

/// Going on says what it came to.
pub proof fn going_on_says_what_it_came_to(inner: Finishing, reply: Reply, step: Step)
    requires
        inner.expects(reply),
        inner.leads_to(reply, step),
    ensures
        inner is MergeCommit ==> said(step) == "合併完成"@,
        inner is OtherCommit ==> said(step) == "已完成並清除操作狀態"@,
        inner is Conflicts && step is Refused ==> said(step) == "還有未解決的衝突"@,
        inner is SkipState && step is Refused ==> said(step) == "只有 rebase 可以略過單一步驟"@,
        inner is State && step is Finished ==> said(step) == "沒有進行中的操作"@,
{
}

/// Making a commit says what it came to.
pub proof fn committing_says_what_it_came_to(inner: Committing, reply: Reply, step: Step)
    requires
        inner.expects(reply),
        inner.leads_to(reply, step),
    ensures
        inner is Conflicts && step is Refused ==> said(step) == "還有未解決的衝突，無法提交"@,
        inner is Kept ==> said(step) == "已修改前一個 commit"@,
        inner is Created && reply->Commit_0@.len() >= 8 ==> said(step) == "已建立 commit "@
            + reply->Commit_0@.take(8),
{
    if inner is Created {
        crate::text_laws::head_is_the_start(reply->Commit_0@, 8);
    }
}

/// Putting changes away says under which commit they are kept.
pub proof fn stashing_says_where_it_is_kept(inner: Stashing, reply: Reply, step: Step)
    requires
        inner.expects(reply),
        inner.leads_to(reply, step),
    ensures
        inner is Saved && reply->Commit_0@.len() >= 8 ==> step is Finished && said(step)
            == "已暫存為 "@ + reply->Commit_0@.take(8),
{
    if inner is Saved {
        crate::text_laws::head_is_the_start(reply->Commit_0@, 8);
    }
}

/// What is done to branches says so, by their names.
pub proof fn branches_are_told_of_by_name(inner: Branching, reply: Reply, step: Step)
    requires
        inner.expects(reply),
        inner.leads_to(reply, step),
    ensures
        inner matches Branching::CreateHead { name } ==> said(step) == "已建立並切換到 "@ + name@,
        inner matches Branching::DeleteFacts { name } ==> (step is Refused ==> said(step) == name@
            + " 是目前所在的分支，請先切換到其他分支"@),
        inner matches Branching::DeleteKept { name, merged, .. } ==> (merged ==> said(step)
            == "已刪除分支 "@ + name@) && (!merged ==> said(step) == "已刪除分支 "@ + name@
            + "，其中有尚未合併的 commit，可以從還原點取回"@),
        inner matches Branching::UpstreamFound { name, upstream } ==> (step is Refused ==> said(step)
            == "找不到遠端分支 "@ + upstream@) && (step is Ask ==> said(step) == "已設定 "@ + name@
            + " 追蹤 "@ + upstream@),
{
}

/// What is refused, or done at once, says so.
pub proof fn first_steps_say_what_they_are(
    commit: Step,
    branch: Step,
    renamed: Step,
    switched: Step,
    followed: Step,
    message: Seq<char>,
    name: Seq<char>,
    to: Seq<char>,
)
    requires
        begins_commit(commit, message, false),
        begins_branch(branch, name),
        renames(renamed, name, to),
        checks_out(switched, name),
        begins_following(followed, name, None),
    ensures
        commit is Refused ==> said(commit) == "提交訊息不能是空的"@,
        branch is Refused ==> said(branch) == "分支名稱不能是空的"@,
        renamed is Refused ==> said(renamed) == "分支名稱不能是空的"@,
        renamed is Ask ==> said(renamed) == "已將 "@ + name + " 改名為 "@ + to,
        said(switched) == "已切換到 "@ + name,
        said(followed) == "已取消 "@ + name + " 的追蹤對象"@,
{
}

/// What is done to files says how many there were.
pub proof fn files_are_counted_in_reports(step: Step, paths: Vec<String>, count: nat)
    requires
        discards(step, paths),
    ensures
        step is Refused ==> said(step) == "必須指定要丟棄的檔案，不提供一次丟棄全部"@,
        step is Ask ==> said(step) == "已丟棄 "@ + decimal_digits(paths@.len()) + " 個檔案的變更"@,
        staged_text(count) == "已暫存 "@ + decimal_digits(count) + " 個檔案"@,
{
}

/// What is done to a file in conflict says so.
pub proof fn resolving_says_what_was_done(
    step: Step,
    files: Seq<ConflictView>,
    path: Seq<char>,
    side: Side,
    content: Seq<char>,
)
    ensures
        resolves_with(step, path, content) ==> said(step) == "已解決 "@ + path,
        resolves_by_deleting(step, path) ==> said(step) == "已採用刪除 "@ + path,
        takes_side(step, files, path, side) && step is Refused ==> said(step) == path
            + " 目前不處於衝突狀態"@ || said(step) == path
            + " 是二進位檔案，請在檔案總管中處理後再標記為已解決"@,
{
}

/// Where lines cannot be picked it is said why, and in which direction.
pub proof fn picking_says_why_it_refuses(path: Seq<char>)
    ensures
        no_changes_text(SelectKind::Stage, path) == path + " 沒有未暫存的變更"@,
        no_changes_text(SelectKind::Unstage, path) == path + " 沒有已暫存的變更"@,
        binary_text(SelectKind::Stage, path) == path + " 是二進位檔案，只能整檔暫存"@,
        binary_text(SelectKind::Unstage, path) == path + " 是二進位檔案，只能整檔取消暫存"@,
{
}

/// Going back says where to, and a safety point says what it was made for.
pub proof fn going_back_says_where_to(target: Seq<char>, operation: Seq<char>)
    requires
        target.len() >= 8,
    ensures
        undone_text(target) == "已還原到 "@ + target.take(8),
        safety_log(operation) == "gitview: "@ + operation + " 之前的還原點"@,
{
    crate::text_laws::head_is_the_start(target, 8);
}

/// What is said of failed fetches tells what can be done.
pub proof fn failures_say_what_can_be_done(failure: FetchFailure)
    ensures
        failure is Authentication ==> failure.headline_text()
            == "認證失敗，請確認 SSH 金鑰已加入 ssh-agent 並已解鎖"@,
        failure is Network ==> failure.headline_text() == "無法連線到遠端主機"@,
        failure matches FetchFailure::NoRemote(name) ==> failure.headline_text() == "找不到遠端「"@
            + name@ + "」"@,
{
}

/// A history that cannot be laid out says how many of its commits could be placed.
pub proof fn cycles_say_how_far_it_went(ordered: usize, total: usize)
    ensures
        crate::layout::layout_failure(LayoutError::Cyclic { ordered, total })
            == "commit 圖含有環或資料不一致：排入 "@ + decimal_digits(ordered as nat)
            + " 個節點，實際有 "@ + decimal_digits(total as nat) + " 個"@,
{
}

/// The state of a repository in one line: the branch, the numbers of commits, of merges and
/// of changed files, and whether something is in progress.
pub proof fn states_are_told_in_one_line(summary: RepoSummary)
    ensures
        ({
            let branch = if summary.branch is Some {
                summary.branch->0@
            } else {
                "(detached)"@
            };
            let counts = "  分支 "@ + branch + " · "@ + decimal_digits(summary.commit_count as nat)
                + " commits · "@ + decimal_digits(summary.merge_count as nat)
                + " merges · 工作目錄異動 "@ + decimal_digits(summary.dirty_files as nat)
                + " 個檔案"@;
            &&& summary.operation_in_progress ==> state_line(summary) == counts
                + " · 有未完成的操作"@
            &&& !summary.operation_in_progress ==> state_line(summary) == counts
        }),
{
    reveal_strlit("");
    if !summary.operation_in_progress {
        assert(state_line(summary) =~= state_line(summary) + ""@);
    }
}

/// The size of a drawing in one line: its rows, its lanes and the lines that leave their
/// lane.
pub proof fn sizes_are_told_in_one_line(layout: Layout)
    ensures
        size_line(layout) == "  佈局："@ + decimal_digits(layout.order@.len()) + " 列 · "@
            + decimal_digits(layout.lane_count as nat) + " 條線道 · "@ + decimal_digits(
            layout.edges@.filter(|edge: Edge| edge.child_lane != edge.parent_lane).len(),
        ) + " 條需要跨線道"@,
{
}

/// A commit that completes an operation says which it was: a merge by the commit that came
/// in, any other by its name.
pub proof fn completing_commits_say_what_they_complete(
    inner: Finishing,
    reply: Reply,
    step: Step,
)
    requires
        inner.expects(reply),
        inner.leads_to(reply, step),
    ensures
        inner is MergeOther && reply->Commit_0@.len() >= 8 ==> step is Ask && step->Ask_1
            is CreateCommit && step->Ask_1->CreateCommit_message@ == "Merge "@
            + reply->Commit_0@.take(8),
        inner matches Finishing::OtherHead { state, .. } ==> step is Ask && step->Ask_1
            is CreateCommit && step->Ask_1->CreateCommit_message@ == "解決 "@ + state_name(state)
            + " 的衝突"@,
{
    if inner is MergeOther {
        crate::text_laws::head_is_the_start(reply->Commit_0@, 8);
    }
}

} // verus!
