//! What holds of every run that brings a branch together with the branch it tracks.
use vstd::prelude::*;

use crate::operation::{is_start, Operation, RebaseStep, Reply, Request, Step};
use crate::operation_laws::{is_run, Exchange};
use crate::ops::{
    merge_message, sync_name, uncommitted, Replay, ReplayKind, SyncKind, SyncPhase,
};
use crate::text::decimal_digits;

verus! {

/// Whether a reply was given before the exchange at position `i`.
pub open spec fn told(run: Seq<Exchange>, i: int, reply: Reply) -> bool {
    exists|j: int| 0 <= j < i && (#[trigger] run[j]).reply == reply
}

/// Whether HEAD was found at a commit before the exchange at position `i`.
pub open spec fn head_was_at(run: Seq<Exchange>, i: int, oid: String) -> bool {
    exists|j: int|
        0 <= j < i && (#[trigger] run[j]).request is ReadHeadCommit && run[j].reply
            == Reply::Commit(oid)
}

/// Whether it was found before the exchange at position `i` that nothing was committed here
/// that is not at the remote.
pub open spec fn nothing_is_ahead(run: Seq<Exchange>, i: int) -> bool {
    exists|j: int|
        #![trigger run[j]]
        0 <= j < i && run[j].reply is Distance && run[j].reply->ahead == 0
}

/// Whether the branch that is tracked was found at a commit before the exchange at position
/// `i`.
pub open spec fn upstream_was_at(run: Seq<Exchange>, i: int, oid: String) -> bool {
    told(run, i, Reply::Upstream { target: Some(oid) })
}

pub(crate) proof fn lemma_told_later(run: Seq<Exchange>, i: int)
    ensures
        forall|reply: Reply| #[trigger] told(run, i, reply) ==> told(run, i + 1, reply),
        forall|oid: String| #[trigger] head_was_at(run, i, oid) ==> head_was_at(run, i + 1, oid),
        nothing_is_ahead(run, i) ==> nothing_is_ahead(run, i + 1),
        i >= 0 ==> told(run, i + 1, run[i].reply),
{
    assert forall|reply: Reply| #[trigger] told(run, i, reply) implies told(run, i + 1, reply) by {
        let j = choose|j: int| 0 <= j < i && (#[trigger] run[j]).reply == reply;
        assert(run[j].reply == reply);
    }
    assert forall|oid: String| #[trigger] head_was_at(run, i, oid) implies head_was_at(
        run,
        i + 1,
        oid,
    ) by {
        let j = choose|j: int|
            0 <= j < i && (#[trigger] run[j]).request is ReadHeadCommit && run[j].reply
                == Reply::Commit(oid);
        assert(run[j].reply == Reply::Commit(oid));
    }
    if nothing_is_ahead(run, i) {
        let j = choose|j: int|
            #![trigger run[j]]
            0 <= j < i && run[j].reply is Distance && run[j].reply->ahead == 0;
        assert(run[j].reply is Distance);
    }
}

/// Whether what an operation has in mind was found before the exchange at position `i`.
spec fn is_founded(run: Seq<Exchange>, i: int, operation: Operation, request: Request) -> bool {
    match operation {
        Operation::Sync(inner) => match inner.phase {
            SyncPhase::State => true,
            SyncPhase::WorkTree => true,
            SyncPhase::Head => true,
            SyncPhase::Upstream => request matches Request::ReadUpstream { branch } && told(
                run,
                i,
                Reply::Head { is_branch: true, name: Some(branch) },
            ),
            SyncPhase::Local { upstream } => request is ReadHeadCommit && upstream_was_at(
                run,
                i,
                upstream,
            ),
            SyncPhase::Distance { local, upstream } => inner.kind is FastForward && head_was_at(
                run,
                i,
                local,
            ) && upstream_was_at(run, i, upstream) && request == (Request::Compare {
                local,
                upstream,
            }),
            SyncPhase::LateWorkTree { local, upstream } => inner.kind is FastForward && head_was_at(
                run,
                i,
                local,
            ) && upstream_was_at(run, i, upstream) && nothing_is_ahead(run, i),
            SyncPhase::Facts { local, upstream } => head_was_at(run, i, local) && upstream_was_at(
                run,
                i,
                upstream,
            ) && (inner.kind is FastForward ==> nothing_is_ahead(run, i)),
            SyncPhase::Kept { local, upstream, point } => head_was_at(run, i, local)
                && upstream_was_at(run, i, upstream) && (inner.kind is FastForward
                ==> nothing_is_ahead(run, i)),
            SyncPhase::RebaseStarted { .. } => inner.kind is Rebase,
            SyncPhase::RebaseIdentity { .. } => inner.kind is Rebase,
            SyncPhase::MergeStarted { local, upstream, .. } => inner.kind is Merge && head_was_at(
                run,
                i,
                local,
            ) && upstream_was_at(run, i, upstream),
            SyncPhase::MergeConflicts { local, upstream, .. } => inner.kind is Merge && head_was_at(
                run,
                i,
                local,
            ) && upstream_was_at(run, i, upstream) && request is ReadConflicts,
            SyncPhase::MergeTree { local, upstream, .. } => inner.kind is Merge && head_was_at(
                run,
                i,
                local,
            ) && upstream_was_at(run, i, upstream) && told(run, i, Reply::Conflicts(false)),
            SyncPhase::MergeIdentity { local, upstream, tree, .. } => inner.kind is Merge
                && head_was_at(run, i, local) && upstream_was_at(run, i, upstream) && told(
                run,
                i,
                Reply::Conflicts(false),
            ) && told(run, i, Reply::Tree(tree)),
            SyncPhase::MergeName { local, upstream, tree, .. } => inner.kind is Merge
                && head_was_at(run, i, local) && upstream_was_at(run, i, upstream) && told(
                run,
                i,
                Reply::Conflicts(false),
            ) && told(run, i, Reply::Tree(tree)),
            SyncPhase::MergeCommit { .. } => inner.kind is Merge,
        },
        Operation::Replay(_) => true,
        Operation::Plan(rest) => {
            ||| rest.steps@.len() == 0
            ||| rest.steps@.len() == 1 && (rest.steps@[0] matches Request::MoveHead { oid, .. }
                && upstream_was_at(run, i, oid) && nothing_is_ahead(run, i) && request == (
            Request::CheckoutCommit { oid }))
        },
        _ => false,
    }
}

/// Whether what a request says was found before the exchange at position `i`: commits come
/// from where the branches were found, a tree from the index, and only a merge without
/// conflicts is committed.
pub open spec fn request_is_founded(run: Seq<Exchange>, i: int, request: Request) -> bool {
    &&& request matches Request::ReadUpstream { branch } ==> told(
        run,
        i,
        Reply::Head { is_branch: true, name: Some(branch) },
    )
    &&& request matches Request::Compare { local, upstream } ==> head_was_at(run, i, local)
        && upstream_was_at(run, i, upstream)
    &&& request matches Request::CheckoutCommit { oid } ==> upstream_was_at(run, i, oid)
        && nothing_is_ahead(run, i)
    &&& request matches Request::MoveHead { oid, .. } ==> upstream_was_at(run, i, oid)
        && nothing_is_ahead(run, i)
    &&& request matches Request::StartRebase { upstream } ==> upstream_was_at(run, i, upstream)
    &&& request matches Request::StartMerge { upstream } ==> upstream_was_at(run, i, upstream)
    &&& request matches Request::CreateCommit { tree, parents, .. } ==> {
        &&& parents@.len() == 2
        &&& head_was_at(run, i, parents@[0])
        &&& upstream_was_at(run, i, parents@[1])
        &&& told(run, i, Reply::Tree(tree))
        &&& told(run, i, Reply::Conflicts(false))
    }
}

proof fn lemma_founded_step(run: Seq<Exchange>, i: int, next: Operation, request: Request)
    requires
        0 <= i < run.len(),
        run[i].operation.expects(run[i].reply),
        run[i].operation.leads_to(run[i].reply, Step::Ask(next, request)),
        is_founded(run, i, run[i].operation, run[i].request),
    ensures
        is_founded(run, i + 1, next, request),
        request_is_founded(run, i + 1, request),
{
    lemma_told_later(run, i);
    let reply = run[i].reply;
    assert(run[i].reply == reply);
    if let Operation::Sync(inner) = run[i].operation {
        if let SyncPhase::Local { upstream } = inner.phase {
            assert(head_was_at(run, i + 1, reply->Commit_0));
        }
        if inner.phase is Distance && reply->ahead == 0 {
            assert(nothing_is_ahead(run, i + 1));
        }
        if inner.phase is MergeConflicts && !reply->Conflicts_0 {
            assert(reply == Reply::Conflicts(false));
        }
    }
}

proof fn lemma_founded(start: Step, run: Seq<Exchange>, end: Step, i: int)
    requires
        is_start(start),
        is_run(start, run, end),
        run.len() > 0,
        run[0].operation is Sync,
        0 <= i < run.len(),
    ensures
        is_founded(run, i, run[i].operation, run[i].request),
        request_is_founded(run, i, run[i].request),
    decreases i,
{
    if i > 0 {
        lemma_founded(start, run, end, i - 1);
        assert(run[i - 1].operation.expects(run[i - 1].reply));
        lemma_founded_step(run, i - 1, run[i].operation, run[i].request);
    }
}

/// What bringing branches together does rests on what it found in the same run: it looks at
/// the branch that HEAD is on, it goes to where the branch that is tracked was found, it
/// moves forward only if nothing was committed here alone, and the commit of a merge has the
/// tree of the index and has HEAD and the tracked branch for its parents, in this order.
pub proof fn syncing_goes_where_the_branches_were_found(
    start: Step,
    run: Seq<Exchange>,
    end: Step,
    i: int,
)
    requires
        is_start(start),
        is_run(start, run, end),
        run.len() > 0,
        run[0].operation is Sync,
        0 <= i < run.len(),
    ensures
        request_is_founded(run, i, run[i].request),
{
    lemma_founded(start, run, end, i);
}

/// Whether a reply stands in the way of bringing branches together: another operation in
/// progress, changes that are not committed, no branch, no name, nothing to go to, or, for
/// moving forward, commits of one's own.
pub open spec fn stands_in_the_way(kind: SyncKind, reply: Reply) -> bool {
    match reply {
        Reply::State(state) => !(state is Clean),
        Reply::WorkTree { is_bare, has_changes } => !is_bare && has_changes,
        Reply::Head { is_branch, name } => !is_branch || name is None,
        Reply::Upstream { target } => target is None,
        Reply::Distance { ahead, behind } => kind == SyncKind::FastForward && ahead > 0,
        _ => false,
    }
}

/// Bringing branches together refuses exactly if something stands in its way.
pub proof fn syncing_refuses_for_a_reason(start: Step, run: Seq<Exchange>, end: Step, i: int)
    requires
        is_start(start),
        is_run(start, run, end),
        run.len() > 0,
        run[0].operation is Sync,
        0 <= i < run.len(),
        run[i].operation is Sync,
    ensures
        stands_in_the_way(run[i].operation->Sync_0.kind, run[i].reply) ==> i == run.len() - 1
            && end is Refused,
        i == run.len() - 1 && end is Refused ==> stands_in_the_way(
            run[i].operation->Sync_0.kind,
            run[i].reply,
        ),
{
    lemma_founded(start, run, end, i);
    assert(run[i].operation.expects(run[i].reply));
    if i < run.len() - 1 {
        assert(run[i].operation.leads_to(
            run[i].reply,
            Step::Ask(run[i + 1].operation, run[i + 1].request),
        ));
    }
}

/// Whether an operation brings branches together in the given way.
spec fn goes_by(operation: Operation, kind: SyncKind) -> bool {
    match operation {
        Operation::Sync(inner) => inner.kind == kind,
        Operation::Replay(inner) => kind is Rebase && inner.kind is Fresh,
        Operation::Plan(_) => !(kind is Rebase),
        _ => false,
    }
}

proof fn lemma_goes_by(start: Step, run: Seq<Exchange>, end: Step, i: int)
    requires
        is_start(start),
        is_run(start, run, end),
        run.len() > 0,
        run[0].operation is Sync,
        0 <= i < run.len(),
    ensures
        goes_by(run[i].operation, run[0].operation->Sync_0.kind),
    decreases i,
{
    if i > 0 {
        lemma_goes_by(start, run, end, i - 1);
        lemma_founded(start, run, end, i - 1);
        assert(run[i - 1].operation.expects(run[i - 1].reply));
    }
}

/// What was asked for is what is done: only a move forward moves HEAD itself, only a rebase
/// starts a rebase, and only a merge starts a merge and commits it.
pub proof fn syncing_does_what_was_asked_for(start: Step, run: Seq<Exchange>, end: Step, i: int)
    requires
        is_start(start),
        is_run(start, run, end),
        run.len() > 0,
        run[0].operation is Sync,
        0 <= i < run.len(),
    ensures
        ({
            let kind = run[0].operation->Sync_0.kind;
            let request = run[i].request;
            &&& request is MoveHead || request is CheckoutCommit || request is Compare ==> kind
                == SyncKind::FastForward
            &&& request is StartRebase || request is NextRebaseStep || request is CommitRebaseStep
                || request is FinishRebase ==> kind == SyncKind::Rebase
            &&& request is StartMerge || request is CreateCommit || request is CleanUpState ==> kind
                == SyncKind::Merge
        }),
{
    if i > 0 {
        let before = run[i - 1];
        lemma_goes_by(start, run, end, i - 1);
        lemma_founded(start, run, end, i - 1);
        assert(before.operation.expects(before.reply));
        if before.operation is Plan {
            assert(i > 1) by {
                assert(run[0].operation is Sync);
            }
            lemma_plan_of_sync(start, run, end, i - 1);
        }
    }
}

proof fn lemma_plan_of_sync(start: Step, run: Seq<Exchange>, end: Step, i: int)
    requires
        is_start(start),
        is_run(start, run, end),
        run.len() > 0,
        run[0].operation is Sync,
        0 < i < run.len(),
        run[i].operation is Plan,
    ensures
        run[i].operation->Plan_0.steps@.len() > 0 ==> run[0].operation->Sync_0.kind is FastForward,
        run[i].operation->Plan_0.outcome.undo is Some,
    decreases i,
{
    lemma_goes_by(start, run, end, i - 1);
    lemma_founded(start, run, end, i - 1);
    let before = run[i - 1];
    assert(before.operation.expects(before.reply));
    if before.operation is Plan {
        lemma_plan_of_sync(start, run, end, i - 1);
    }
}

/// Where HEAD is already at the commit of the tracked branch, nothing is done, and only
/// then does bringing branches together end well without a safety point.
pub proof fn nothing_is_done_where_nothing_came_in(start: Step, run: Seq<Exchange>, end: Step)
    requires
        is_start(start),
        is_run(start, run, end),
        run.len() > 0,
        run[0].operation is Sync,
        end is Finished,
    ensures
        end->Finished_0.undo is None <==> run.last().request is ReadHeadCommit && run.last().reply
            is Commit && exists|oid: String| #[trigger]
            upstream_was_at(run, run.len() - 1, oid) && oid@ == run.last().reply->Commit_0@,
{
    let last = run.len() - 1;
    lemma_goes_by(start, run, end, last);
    lemma_founded(start, run, end, last);
    assert(run[last].operation.expects(run[last].reply));
    if run[last].operation is Plan {
        lemma_plan_of_sync(start, run, end, last);
    }
    if let Operation::Sync(inner) = run[last].operation {
        if let SyncPhase::Local { upstream } = inner.phase {
            assert(upstream_was_at(run, last, upstream));
        }
    }
    if run[last].request is ReadHeadCommit {
        lemma_head_commit_is_asked_once(start, run, end, last);
    }
}

proof fn lemma_head_commit_is_asked_once(start: Step, run: Seq<Exchange>, end: Step, i: int)
    requires
        is_start(start),
        is_run(start, run, end),
        run.len() > 0,
        run[0].operation is Sync,
        0 <= i < run.len(),
        run[i].request is ReadHeadCommit,
    ensures
        run[i].operation matches Operation::Sync(inner) && inner.phase is Local,
{
    if i > 0 {
        let before = run[i - 1];
        lemma_founded(start, run, end, i - 1);
        assert(before.operation.expects(before.reply));
    }
}

/// A move forward that ends well, and was not done before, has gone through: the last it did
/// was to move the branch.
pub proof fn moving_forward_moves_the_branch(start: Step, run: Seq<Exchange>, end: Step)
    requires
        is_start(start),
        is_run(start, run, end),
        run.len() > 0,
        run[0].operation is Sync,
        run[0].operation->Sync_0.kind == SyncKind::FastForward,
        end is Finished,
        end->Finished_0.undo is Some,
    ensures
        run.len() > 1,
        run[run.len() - 1].request is MoveHead,
        run[run.len() - 2].request == (Request::CheckoutCommit {
            oid: run[run.len() - 1].request->MoveHead_oid,
        }),
{
    let last = run.len() - 1;
    lemma_goes_by(start, run, end, last);
    lemma_founded(start, run, end, last);
    assert(run[last].operation.expects(run[last].reply));
    let before = run[last - 1];
    lemma_goes_by(start, run, end, last - 1);
    lemma_founded(start, run, end, last - 1);
    assert(before.operation.expects(before.reply));
    if before.operation is Plan {
        lemma_plan_of_sync(start, run, end, last - 1);
    }
}

/// A merge that ends well, and was not done before, has either stopped at conflicts, with
/// nothing committed, or was committed and the state of the repository cleared.
pub proof fn merging_commits_or_stops_at_conflicts(start: Step, run: Seq<Exchange>, end: Step)
    requires
        is_start(start),
        is_run(start, run, end),
        run.len() > 0,
        run[0].operation is Sync,
        run[0].operation->Sync_0.kind == SyncKind::Merge,
        end is Finished,
        end->Finished_0.undo is Some,
    ensures
        run.last().reply == Reply::Conflicts(true) || (run.len() > 1 && run.last().request
            is CleanUpState && run[run.len() - 2].request is CreateCommit),
        run.last().reply == Reply::Conflicts(true) ==> run.last().request is ReadConflicts,
{
    let last = run.len() - 1;
    lemma_goes_by(start, run, end, last);
    lemma_founded(start, run, end, last);
    assert(run[last].operation.expects(run[last].reply));
    if run[last].operation is Plan {
        let before = run[last - 1];
        lemma_goes_by(start, run, end, last - 1);
        lemma_founded(start, run, end, last - 1);
        assert(before.operation.expects(before.reply));
        lemma_commit_was_asked(start, run, end, last - 1);
        if before.operation is Plan {
            lemma_plan_of_sync(start, run, end, last - 1);
        }
    }
}

proof fn lemma_commit_was_asked(start: Step, run: Seq<Exchange>, end: Step, i: int)
    requires
        is_start(start),
        is_run(start, run, end),
        run.len() > 0,
        run[0].operation is Sync,
        0 <= i < run.len(),
    ensures
        run[i].operation matches Operation::Sync(inner) && inner.phase is MergeCommit
            ==> run[i].request is CreateCommit,
{
    if i > 0 {
        let before = run[i - 1];
        lemma_founded(start, run, end, i - 1);
        assert(before.operation.expects(before.reply));
    }
}

/// The message of a merge names the commit that came in by its first digits, and where it
/// went.
pub proof fn merge_messages_name_both_sides(upstream: Seq<char>, name: Seq<char>)
    requires
        upstream.len() >= 8,
    ensures
        merge_message(upstream, Some(name)) == "Merge "@ + upstream.take(8) + " into "@ + name,
        merge_message(upstream, None) == "Merge "@ + upstream.take(8) + " into "@ + "HEAD"@,
{
    crate::text_laws::head_is_the_start(upstream, 8);
    assert(crate::git::short_oid(upstream) =~= upstream.take(8));
}

/// How many commits were reapplied before the exchange at position `i`, and how many had
/// become empty.
pub open spec fn number_committed(run: Seq<Exchange>, i: int, empty: bool) -> nat {
    run.take(i).filter(|exchange: Exchange| exchange.reply == (Reply::Committed { empty })).len()
}

proof fn lemma_number_committed(run: Seq<Exchange>, i: int, empty: bool)
    requires
        0 <= i < run.len(),
    ensures
        number_committed(run, i + 1, empty) == number_committed(run, i, empty) + if run[i].reply
            == (Reply::Committed { empty }) {
            1nat
        } else {
            0nat
        },
        number_committed(run, 0, empty) == 0,
{
    reveal(Seq::filter);
    assert(run.take(i + 1).drop_last() =~= run.take(i));
    assert(run.take(i + 1).last() == run[i]);
}

/// Whether the counts of an operation are those of the exchanges before position `i`.
spec fn counts_what_was_committed(run: Seq<Exchange>, i: int, operation: Operation) -> bool {
    match operation {
        Operation::Replay(inner) => inner.applied == number_committed(run, i, false)
            && inner.skipped == number_committed(run, i, true),
        _ => number_committed(run, i, false) == 0 && number_committed(run, i, true) == 0,
    }
}

proof fn lemma_counts(start: Step, run: Seq<Exchange>, end: Step, i: int)
    requires
        is_start(start),
        is_run(start, run, end),
        run.len() > 0,
        0 <= i < run.len(),
    ensures
        counts_what_was_committed(run, i, run[i].operation),
    decreases i,
{
    lemma_number_committed(run, 0, false);
    lemma_number_committed(run, 0, true);
    if i > 0 {
        lemma_counts(start, run, end, i - 1);
        lemma_number_committed(run, i - 1, false);
        lemma_number_committed(run, i - 1, true);
        assert(run[i - 1].operation.expects(run[i - 1].reply));
    }
}

/// What is to be said at the end of a rebase, or of a part of one.
pub open spec fn says_of_rebase(
    said: Seq<char>,
    kind: ReplayKind,
    done: bool,
    applied: nat,
    skipped: nat,
) -> bool {
    match kind {
        ReplayKind::Fresh(_) => said == if done {
            "已將 "@ + decimal_digits(applied) + " 個 commit 重新套用到遠端內容之後"@
        } else {
            "rebase 在第 "@ + decimal_digits(applied + 1)
                + " 個 commit 遇到衝突，已停在該處等待處理；不想繼續可以還原到操作前的狀態"@
        },
        ReplayKind::Continued => said == if !done {
            "又遇到衝突，已停在第 "@ + decimal_digits(applied + skipped + 1) + " 步等待處理"@
        } else if skipped == 0 {
            "rebase 完成，共套用 "@ + decimal_digits(applied) + " 個 commit"@
        } else {
            "rebase 完成，共套用 "@ + decimal_digits(applied) + " 個 commit"@ + "；另有 "@
                + decimal_digits(skipped) + " 個因為解決衝突後內容變成空的而略過"@
        },
        ReplayKind::Skipped => said == if done {
            "已略過該 commit，其餘 "@ + decimal_digits(applied) + " 個已套用"@
        } else {
            "已略過這一步，但下一步又遇到衝突"@
        },
    }
}

proof fn lemma_replay_says(inner: Replay, reply: Reply, end: Step)
    requires
        inner.expects(reply),
        inner.leads_to(reply, end),
        end is Finished,
    ensures
        !(reply is Committed),
        says_of_rebase(
            end->Finished_0.message@,
            inner.kind,
            reply is Done,
            inner.applied as nat,
            inner.skipped as nat,
        ),
{
}

/// What is said at the end of a rebase counts the commits that were reapplied in it, and
/// those that had become empty.
pub proof fn rebase_counts_what_it_reapplied(start: Step, run: Seq<Exchange>, end: Step)
    requires
        is_start(start),
        is_run(start, run, end),
        run.len() > 0,
        run.last().operation is Replay,
        end is Finished,
    ensures
        says_of_rebase(
            end->Finished_0.message@,
            run.last().operation->Replay_0.kind,
            run.last().reply is Done,
            number_committed(run, run.len() as int, false),
            number_committed(run, run.len() as int, true),
        ),
{
    let last = run.len() - 1;
    lemma_counts(start, run, end, last);
    lemma_number_committed(run, last, false);
    lemma_number_committed(run, last, true);
    assert(run[last].operation.expects(run[last].reply));
    lemma_replay_says(run[last].operation->Replay_0, run[last].reply, end);
}

/// A rebase commits each commit that was applied, stops where one left conflicts, and
/// finishes once none is left, not before.
pub proof fn rebase_takes_one_commit_after_the_other(
    start: Step,
    run: Seq<Exchange>,
    end: Step,
    i: int,
)
    requires
        is_start(start),
        is_run(start, run, end),
        0 <= i < run.len(),
        run[i].reply is Step,
    ensures
        run[i].reply == Reply::Step(RebaseStep::Applied) ==> (i < run.len() - 1 ==> run[i
            + 1].request is CommitRebaseStep) && !(end is Finished && i == run.len() - 1),
        run[i].reply == Reply::Step(RebaseStep::Conflicted) ==> i == run.len() - 1 && end
            is Finished,
        run[i].reply == Reply::Step(RebaseStep::End) ==> (i < run.len() - 1 ==> run[i + 1].request
            is FinishRebase) && !(end is Finished && i == run.len() - 1),
{
    assert(run[i].operation.expects(run[i].reply));
    if i < run.len() - 1 {
        assert(run[i].operation.leads_to(
            run[i].reply,
            Step::Ask(run[i + 1].operation, run[i + 1].request),
        ));
    }
}

/// Each way of bringing branches together has a name of its own.
pub proof fn ways_are_known_by_name(kind: SyncKind)
    ensures
        sync_name(kind) == "fast-forward"@ <==> kind == SyncKind::FastForward,
        sync_name(kind) == "rebase"@ <==> kind == SyncKind::Rebase,
        sync_name(kind) == "merge"@ <==> kind == SyncKind::Merge,
{
    reveal_strlit("fast-forward");
    reveal_strlit("rebase");
    reveal_strlit("merge");
    assert("fast-forward"@.len() == 12 && "rebase"@.len() == 6 && "merge"@.len() == 5);
}

/// Only changes in a working tree are in the way; a bare repository has none.
pub proof fn bare_repositories_have_nothing_uncommitted(has_changes: bool)
    ensures
        !uncommitted(true, has_changes),
        uncommitted(false, has_changes) == has_changes,
{
}

} // verus!
