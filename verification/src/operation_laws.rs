//! What holds of every run of an operation.
use vstd::prelude::*;

use crate::operation::{is_start, Operation, Reply, Request, Step};
use crate::ops::{
    branch_reference, remote_position, uncommitted, PushPhase, Pushing, ReplayKind, ReplayPhase,
    SafetyPoint, SyncPhase, Undoing,
};
use crate::text;
use crate::workspace::{Branching, Committing, Staging};

verus! {

/// One request of an operation, and what was answered.
pub struct Exchange {
    pub operation: Operation,
    pub request: Request,
    pub reply: Reply,
}

/// Whether these are the exchanges that lead from one step to another.
pub open spec fn is_run(start: Step, run: Seq<Exchange>, end: Step) -> bool {
    if run.len() == 0 {
        start == end
    } else {
        &&& start == Step::Ask(run[0].operation, run[0].request)
        &&& forall|i: int|
            0 <= i < run.len() ==> (#[trigger] run[i]).operation.expects(run[i].reply)
        &&& forall|i: int|
            #![trigger run[i]]
            0 <= i < run.len() - 1 ==> run[i].operation.leads_to(
                run[i].reply,
                Step::Ask(run[i + 1].operation, run[i + 1].request),
            )
        &&& run.last().operation.leads_to(run.last().reply, end)
    }
}

/// Whether these are the exchanges that lead from one step to another, each request being
/// answered with a reply of its kind.
pub open spec fn is_conversation(start: Step, run: Seq<Exchange>, end: Step) -> bool {
    if run.len() == 0 {
        start == end
    } else {
        &&& start == Step::Ask(run[0].operation, run[0].request)
        &&& forall|i: int|
            0 <= i < run.len() ==> (#[trigger] run[i]).request.answered_by(run[i].reply)
        &&& forall|i: int|
            #![trigger run[i]]
            0 <= i < run.len() - 1 ==> run[i].operation.leads_to(
                run[i].reply,
                Step::Ask(run[i + 1].operation, run[i + 1].request),
            )
        &&& run.last().operation.leads_to(run.last().reply, end)
    }
}

/// Whether the operation waits for what the request is answered with, after a number of
/// exchanges.
spec fn waits_for(operation: Operation, request: Request, exchanges: int) -> bool {
    match operation {
        Operation::Plan(inner) => request.answered_by(Reply::Done) && inner.only_acts(),
        Operation::Replay(inner) => inner.applied + inner.skipped <= exchanges
            && match inner.phase {
            ReplayPhase::Step => request is NextRebaseStep,
            ReplayPhase::Committed => request matches Request::CommitRebaseStep { allow_empty } && (
            allow_empty ==> inner.kind is Continued),
            ReplayPhase::Finished => request is FinishRebase,
        },
        _ => forall|reply: Reply| #[trigger]
            request.answered_by(reply) ==> operation.expects(reply),
    }
}

proof fn lemma_waits_for(operation: Operation, request: Request, reply: Reply, exchanges: int)
    requires
        waits_for(operation, request, exchanges),
        request.answered_by(reply),
        exchanges < usize::MAX,
    ensures
        operation.expects(reply),
{
}

proof fn lemma_waits_on(
    operation: Operation,
    request: Request,
    reply: Reply,
    next: Operation,
    next_request: Request,
    exchanges: int,
)
    requires
        waits_for(operation, request, exchanges),
        operation.expects(reply),
        operation.leads_to(reply, Step::Ask(next, next_request)),
        0 <= exchanges < usize::MAX,
    ensures
        waits_for(next, next_request, exchanges + 1),
{
    match operation {
        Operation::Plan(inner) => {
            let rest = next->Plan_0;
            assert(inner.steps@[0].answered_by(Reply::Done));
            assert forall|i: int| 0 <= i < rest.steps@.len() implies (
            #[trigger] rest.steps@[i]).answered_by(Reply::Done) by {
                assert(rest.steps@[i] == inner.steps@[i + 1]);
            }
        },
        Operation::Stage(Staging::Found { paths, at }) => {
            assert(paths.len() == paths@.len());
        },
        Operation::Stage(Staging::Staged { paths, at }) => {
            assert(paths.len() == paths@.len());
        },
        _ => {},
    }
}

proof fn lemma_waits(start: Step, run: Seq<Exchange>, end: Step, i: int)
    requires
        is_start(start),
        is_conversation(start, run, end),
        run.len() < usize::MAX,
        0 <= i < run.len(),
    ensures
        waits_for(run[i].operation, run[i].request, i),
    decreases i,
{
    if i > 0 {
        let before = run[i - 1];
        lemma_waits(start, run, end, i - 1);
        assert(before.request.answered_by(before.reply));
        lemma_waits_for(before.operation, before.request, before.reply, i - 1);
        lemma_waits_on(
            before.operation,
            before.request,
            before.reply,
            run[i].operation,
            run[i].request,
            i - 1,
        );
    }
}

/// Whoever answers each request with a reply of its kind meets what every operation
/// expects, all the way to its end.
pub proof fn answers_are_expected(start: Step, run: Seq<Exchange>, end: Step)
    requires
        is_start(start),
        is_conversation(start, run, end),
        run.len() < usize::MAX,
    ensures
        is_run(start, run, end),
{
    assert forall|i: int| 0 <= i < run.len() implies (#[trigger] run[i]).operation.expects(
        run[i].reply,
    ) by {
        lemma_waits(start, run, end, i);
        assert(run[i].request.answered_by(run[i].reply));
        lemma_waits_for(run[i].operation, run[i].request, run[i].reply, i);
    }
}

/// Whether the operation can still refuse.
spec fn may_refuse(operation: Operation) -> bool {
    match operation {
        Operation::Sync(inner) => {
            ||| inner.phase is State
            ||| inner.phase is WorkTree
            ||| inner.phase is Head
            ||| inner.phase is Upstream
            ||| inner.phase is Local
            ||| inner.phase is Distance
            ||| inner.phase is LateWorkTree
        },
        Operation::Push(_) => true,
        Operation::Finish(inner) => inner is Conflicts || inner is SkipState,
        Operation::Commit(inner) => inner is Identity || inner is Conflicts,
        Operation::Branch(inner) => inner is DeleteFacts || inner is UpstreamFound,
        Operation::Select(inner) => inner is Deltas,
        _ => false,
    }
}

proof fn lemma_refusal(operation: Operation, reply: Reply, step: Step)
    requires
        operation.expects(reply),
        operation.leads_to(reply, step),
    ensures
        step is Refused ==> may_refuse(operation),
        step matches Step::Ask(next, request) ==> (may_refuse(next) ==> may_refuse(operation)
            && request.only_reads()),
{
}

proof fn lemma_run_can_refuse(start: Step, run: Seq<Exchange>, end: Step, i: int)
    requires
        is_run(start, run, end),
        end is Refused,
        0 <= i < run.len(),
    ensures
        may_refuse(run[i].operation),
        i > 0 ==> run[i].request.only_reads(),
    decreases run.len() - i,
{
    let here = run[i];
    assert(here.operation.expects(here.reply));
    if i == run.len() - 1 {
        lemma_refusal(here.operation, here.reply, end);
    } else {
        lemma_run_can_refuse(start, run, end, i + 1);
        lemma_refusal(
            here.operation,
            here.reply,
            Step::Ask(run[i + 1].operation, run[i + 1].request),
        );
    }
    if i > 0 {
        let before = run[i - 1];
        assert(before.operation.expects(before.reply));
        lemma_refusal(before.operation, before.reply, Step::Ask(here.operation, here.request));
    }
}

/// An operation that refuses has changed nothing: all it did was to look.
pub proof fn refusing_changes_nothing(start: Step, run: Seq<Exchange>, end: Step, i: int)
    requires
        is_start(start),
        is_run(start, run, end),
        end is Refused,
        0 <= i < run.len(),
    ensures
        run[i].request.only_reads(),
{
    lemma_run_can_refuse(start, run, end, i);
}

/// Whether the operation is one that keeps a safety point before it changes anything:
/// bringing branches together, replacing a commit, deleting a branch.
pub open spec fn takes_safety_point(operation: Operation) -> bool {
    match operation {
        Operation::Sync(_) => true,
        Operation::Replay(inner) => inner.kind is Fresh,
        Operation::Commit(inner) => match inner {
            Committing::Identity { amend, .. } => amend,
            Committing::Conflicts { amend, .. } => amend,
            Committing::Tree { amend, .. } => amend,
            Committing::Head { .. } => true,
            Committing::Facts { .. } => true,
            Committing::Kept { .. } => true,
            Committing::Parent { .. } => false,
            Committing::Created => false,
        },
        Operation::Branch(inner) => inner is DeleteFacts || inner is DeleteTime
            || inner is DeleteKept,
        Operation::Plan(inner) => inner.outcome.undo is Some,
        _ => false,
    }
}

/// The safety point that the operation has asked to be kept.
pub open spec fn point_of(operation: Operation) -> Option<SafetyPoint> {
    match operation {
        Operation::Sync(inner) => match inner.phase {
            SyncPhase::Kept { point, .. } => Some(point),
            SyncPhase::RebaseStarted { point } => Some(point),
            SyncPhase::RebaseIdentity { point } => Some(point),
            SyncPhase::MergeStarted { point, .. } => Some(point),
            SyncPhase::MergeConflicts { point, .. } => Some(point),
            SyncPhase::MergeTree { point, .. } => Some(point),
            SyncPhase::MergeIdentity { point, .. } => Some(point),
            SyncPhase::MergeName { point, .. } => Some(point),
            SyncPhase::MergeCommit { point } => Some(point),
            _ => None,
        },
        Operation::Replay(inner) => match inner.kind {
            ReplayKind::Fresh(point) => Some(point),
            _ => None,
        },
        Operation::Commit(inner) => match inner {
            Committing::Kept { point, .. } => Some(point),
            _ => None,
        },
        Operation::Branch(inner) => match inner {
            Branching::DeleteKept { point, .. } => Some(point),
            _ => None,
        },
        Operation::Plan(inner) => inner.outcome.undo,
        _ => None,
    }
}

/// Whether the request keeps the given point.
pub open spec fn keeps(request: Request, point: SafetyPoint) -> bool {
    request matches Request::WriteSafetyPoint { point: kept, .. } && kept == point
}

proof fn lemma_point_step(operation: Operation, reply: Reply, next: Operation, request: Request)
    requires
        operation.expects(reply),
        operation.leads_to(reply, Step::Ask(next, request)),
        takes_safety_point(operation),
    ensures
        takes_safety_point(next),
        request.changes() ==> point_of(operation) is Some,
        point_of(next) is Some ==> point_of(operation) == point_of(next) || keeps(
            request,
            point_of(next)->0,
        ),
{
}

proof fn lemma_point_end(operation: Operation, reply: Reply, end: Step)
    requires
        operation.expects(reply),
        operation.leads_to(reply, end),
        takes_safety_point(operation),
        end is Finished,
        end->Finished_0.undo is Some,
    ensures
        point_of(operation) == end->Finished_0.undo,
{
}

proof fn lemma_point_was_kept(start: Step, run: Seq<Exchange>, end: Step, i: int)
    requires
        is_start(start),
        is_run(start, run, end),
        run.len() > 0,
        takes_safety_point(run[0].operation),
        0 <= i < run.len(),
    ensures
        takes_safety_point(run[i].operation),
        point_of(run[i].operation) is Some ==> exists|j: int|
            0 <= j <= i && keeps((#[trigger] run[j]).request, point_of(run[i].operation)->0),
    decreases i,
{
    if i > 0 {
        let before = run[i - 1];
        let here = run[i];
        lemma_point_was_kept(start, run, end, i - 1);
        assert(before.operation.expects(before.reply));
        lemma_point_step(before.operation, before.reply, here.operation, here.request);
        if point_of(here.operation) is Some {
            let point = point_of(here.operation)->0;
            if keeps(here.request, point) {
                assert(keeps(run[i].request, point));
            } else {
                let j = choose|j: int|
                    0 <= j <= i - 1 && keeps((#[trigger] run[j]).request, point);
                assert(keeps(run[j].request, point));
            }
        }
    }
}

/// Bringing branches together, replacing a commit and deleting a branch keep a safety
/// point before they change anything.
pub proof fn nothing_changes_before_a_safety_point_is_kept(
    start: Step,
    run: Seq<Exchange>,
    end: Step,
    i: int,
)
    requires
        is_start(start),
        is_run(start, run, end),
        run.len() > 0,
        takes_safety_point(run[0].operation),
        0 <= i < run.len(),
        run[i].request.changes(),
    ensures
        exists|j: int| 0 <= j < i && (#[trigger] run[j]).request is WriteSafetyPoint,
{
    if i > 0 {
        let before = run[i - 1];
        let here = run[i];
        lemma_point_was_kept(start, run, end, i - 1);
        assert(before.operation.expects(before.reply));
        lemma_point_step(before.operation, before.reply, here.operation, here.request);
        let point = point_of(before.operation)->0;
        let j = choose|j: int| 0 <= j <= i - 1 && keeps((#[trigger] run[j]).request, point);
        assert(run[j].request is WriteSafetyPoint);
    }
}

/// The safety point that is reported is one that was kept.
pub proof fn reported_point_was_kept(start: Step, run: Seq<Exchange>, end: Step)
    requires
        is_start(start),
        is_run(start, run, end),
        run.len() > 0,
        takes_safety_point(run[0].operation),
        end is Finished,
        end->Finished_0.undo is Some,
    ensures
        exists|j: int|
            0 <= j < run.len() && keeps((#[trigger] run[j]).request, end->Finished_0.undo->0),
{
    let last = run.len() - 1;
    assert(run[last].operation.expects(run[last].reply));
    lemma_point_end(run[last].operation, run[last].reply, end);
    lemma_point_was_kept(start, run, end, last);
    let point = end->Finished_0.undo->0;
    let j = choose|j: int| 0 <= j <= last && keeps((#[trigger] run[j]).request, point);
    assert(keeps(run[j].request, point));
}

/// Whether an operation is part of bringing branches together or of making a commit, and
/// what it still plans keeps no safety point.
spec fn keeps_head_alone(operation: Operation) -> bool {
    match operation {
        Operation::Sync(_) => true,
        Operation::Replay(_) => true,
        Operation::Commit(_) => true,
        Operation::Plan(inner) => forall|k: int|
            0 <= k < inner.steps@.len() ==> !((#[trigger] inner.steps@[k]) is WriteSafetyPoint),
        _ => false,
    }
}

proof fn lemma_head_step(operation: Operation, reply: Reply, next: Operation, request: Request)
    requires
        operation.expects(reply),
        operation.leads_to(reply, Step::Ask(next, request)),
        keeps_head_alone(operation),
    ensures
        keeps_head_alone(next),
        request matches Request::WriteSafetyPoint { point, .. } ==> reply matches Reply::Facts(facts)
            && point.oid == facts.head,
{
    if let Operation::Plan(inner) = operation {
        if let Operation::Plan(rest) = next {
            assert forall|k: int| 0 <= k < rest.steps@.len() implies !((
            #[trigger] rest.steps@[k]) is WriteSafetyPoint) by {
                assert(rest.steps@[k] == inner.steps@[k + 1]);
            }
        }
        assert(!(inner.steps@[0] is WriteSafetyPoint));
    }
}

proof fn lemma_keeps_head_alone(start: Step, run: Seq<Exchange>, end: Step, i: int)
    requires
        is_start(start),
        is_run(start, run, end),
        run.len() > 0,
        run[0].operation is Sync || run[0].operation is Commit,
        0 <= i < run.len(),
    ensures
        keeps_head_alone(run[i].operation),
    decreases i,
{
    if i > 0 {
        let before = run[i - 1];
        lemma_keeps_head_alone(start, run, end, i - 1);
        assert(before.operation.expects(before.reply));
        lemma_head_step(before.operation, before.reply, run[i].operation, run[i].request);
    }
}

/// What bringing branches together or replacing a commit keeps is the commit that HEAD has
/// just been found at.
pub proof fn kept_commit_is_where_head_was(start: Step, run: Seq<Exchange>, end: Step, i: int)
    requires
        is_start(start),
        is_run(start, run, end),
        run.len() > 0,
        run[0].operation is Sync || run[0].operation is Commit,
        0 <= i < run.len(),
        run[i].request is WriteSafetyPoint,
    ensures
        i > 0,
        run[i - 1].reply is Facts,
        run[i].request->WriteSafetyPoint_point.oid == run[i - 1].reply->Facts_0.head,
{
    let before = run[i - 1];
    lemma_keeps_head_alone(start, run, end, i - 1);
    assert(before.operation.expects(before.reply));
    lemma_head_step(before.operation, before.reply, run[i].operation, run[i].request);
}

/// Going back to a safety point moves the branch to the commit that the point holds, and
/// does nothing else that could be lost.
pub proof fn undoing_goes_back_to_the_point(start: Step, run: Seq<Exchange>, end: Step)
    requires
        is_start(start),
        is_run(start, run, end),
        run.len() > 0,
        run[0].operation is Undo,
        end is Finished,
    ensures
        run[0].reply is Commit,
        run.last().request == (Request::ResetHard { oid: run[0].reply->Commit_0 }),
        forall|i: int| 0 <= i < run.len() - 1 ==> !(#[trigger] run[i]).request.changes(),
{
    assert(run[0].operation.expects(run[0].reply));
    assert(run[0].operation == Operation::Undo(Undoing::Target));
    assert(run.len() > 1);
    assert(run[1].operation.expects(run[1].reply));
    assert(run.len() > 2);
    assert(run[2].operation.expects(run[2].reply));
    if run[2].operation is Undo {
        assert(run.len() > 3);
        assert(run[3].operation.expects(run[3].reply));
        assert(run.len() == 4);
    } else {
        assert(run.len() == 3);
    }
}

/// An operation can be taken back: going back to the safety point that bringing branches
/// together or replacing a commit reported moves the branch to the commit that HEAD was at
/// before, as long as the point holds what was put there.
pub proof fn undoing_takes_an_operation_back(
    start: Step,
    run: Seq<Exchange>,
    end: Step,
    undo_start: Step,
    undo_run: Seq<Exchange>,
    undo_end: Step,
)
    requires
        is_start(start),
        is_run(start, run, end),
        run.len() > 0,
        run[0].operation is Sync || run[0].operation is Commit,
        takes_safety_point(run[0].operation),
        end is Finished,
        end->Finished_0.undo is Some,
        is_start(undo_start),
        is_run(undo_start, undo_run, undo_end),
        undo_run.len() > 0,
        undo_run[0].operation is Undo,
        undo_run[0].reply == Reply::Commit(end->Finished_0.undo->0.oid),
        undo_end is Finished,
    ensures
        exists|i: int|
            0 <= i < run.len() && (#[trigger] run[i]).reply is Facts && undo_run.last().request == (
            Request::ResetHard { oid: run[i].reply->Facts_0.head }),
{
    reported_point_was_kept(start, run, end);
    let point = end->Finished_0.undo->0;
    let j = choose|j: int| 0 <= j < run.len() && keeps((#[trigger] run[j]).request, point);
    kept_commit_is_where_head_was(start, run, end, j);
    undoing_goes_back_to_the_point(undo_start, undo_run, undo_end);
    assert(run[j - 1].reply is Facts);
}

/// Whether bringing branches together has found no other operation in progress.
spec fn state_checked(operation: Operation) -> bool {
    match operation {
        Operation::Sync(inner) => !(inner.phase is State),
        _ => true,
    }
}

/// Whether bringing branches together has found no uncommitted changes.
spec fn tree_checked(operation: Operation) -> bool {
    match operation {
        Operation::Sync(inner) => match inner.phase {
            SyncPhase::State => false,
            SyncPhase::WorkTree => false,
            SyncPhase::Head => !(inner.kind is FastForward),
            SyncPhase::Upstream => !(inner.kind is FastForward),
            SyncPhase::Local { .. } => !(inner.kind is FastForward),
            SyncPhase::Distance { .. } => !(inner.kind is FastForward),
            SyncPhase::LateWorkTree { .. } => !(inner.kind is FastForward),
            _ => true,
        },
        _ => true,
    }
}

pub open spec fn says_clean_state(reply: Reply) -> bool {
    reply matches Reply::State(state) && state is Clean
}

pub open spec fn says_clean_tree(reply: Reply) -> bool {
    reply matches Reply::WorkTree { is_bare, has_changes } && !uncommitted(is_bare, has_changes)
}

/// Whether an operation is part of bringing branches together.
spec fn syncing(operation: Operation) -> bool {
    ||| operation is Sync
    ||| operation is Replay
    ||| operation is Plan
}

proof fn lemma_check_step(operation: Operation, reply: Reply, next: Operation, request: Request)
    requires
        operation.expects(reply),
        operation.leads_to(reply, Step::Ask(next, request)),
        syncing(operation),
    ensures
        syncing(next),
        request.changes() ==> state_checked(operation) && tree_checked(operation),
        state_checked(next) ==> state_checked(operation) || says_clean_state(reply),
        tree_checked(next) ==> tree_checked(operation) || says_clean_tree(reply),
{
}

proof fn lemma_checks(start: Step, run: Seq<Exchange>, end: Step, i: int)
    requires
        is_start(start),
        is_run(start, run, end),
        run.len() > 0,
        run[0].operation is Sync,
        0 <= i < run.len(),
    ensures
        syncing(run[i].operation),
        state_checked(run[i].operation) ==> exists|j: int|
            0 <= j < i && says_clean_state((#[trigger] run[j]).reply),
        tree_checked(run[i].operation) ==> exists|j: int|
            0 <= j < i && says_clean_tree((#[trigger] run[j]).reply),
    decreases i,
{
    if i > 0 {
        let before = run[i - 1];
        let here = run[i];
        lemma_checks(start, run, end, i - 1);
        assert(before.operation.expects(before.reply));
        lemma_check_step(before.operation, before.reply, here.operation, here.request);
        if state_checked(here.operation) {
            if says_clean_state(before.reply) {
                assert(says_clean_state(run[i - 1].reply));
            } else {
                let j = choose|j: int|
                    0 <= j < i - 1 && says_clean_state((#[trigger] run[j]).reply);
                assert(says_clean_state(run[j].reply));
            }
        }
        if tree_checked(here.operation) {
            if says_clean_tree(before.reply) {
                assert(says_clean_tree(run[i - 1].reply));
            } else {
                let j = choose|j: int| 0 <= j < i - 1 && says_clean_tree((#[trigger] run[j]).reply);
                assert(says_clean_tree(run[j].reply));
            }
        }
    }
}

/// Bringing branches together changes something only after it has found that no other
/// operation is in progress and that there are no uncommitted changes.
pub proof fn syncing_starts_from_a_clean_tree(
    start: Step,
    run: Seq<Exchange>,
    end: Step,
    i: int,
)
    requires
        is_start(start),
        is_run(start, run, end),
        run.len() > 0,
        run[0].operation is Sync,
        0 <= i < run.len(),
        run[i].request.changes(),
    ensures
        exists|j: int| 0 <= j < i && says_clean_state((#[trigger] run[j]).reply),
        exists|j: int| 0 <= j < i && says_clean_tree((#[trigger] run[j]).reply),
{
    if i > 0 {
        let before = run[i - 1];
        let here = run[i];
        lemma_checks(start, run, end, i - 1);
        assert(before.operation.expects(before.reply));
        lemma_check_step(before.operation, before.reply, here.operation, here.request);
        let j = choose|j: int| 0 <= j < i - 1 && says_clean_state((#[trigger] run[j]).reply);
        assert(says_clean_state(run[j].reply));
        let k = choose|k: int| 0 <= k < i - 1 && says_clean_tree((#[trigger] run[k]).reply);
        assert(says_clean_tree(run[k].reply));
    }
}

/// Whether the remote says that the branch to push is where it is expected to be.
pub open spec fn confirms_position(operation: Operation, reply: Reply) -> bool {
    match (operation, reply) {
        (
            Operation::Push(
                Pushing { phase: PushPhase::RemoteHeads { branch, expected, .. }, .. },
            ),
            Reply::RemoteHeads(heads),
        ) => remote_position(heads@, branch_reference(branch@)) == text::view_of(expected),
        _ => false,
    }
}

/// Where the branch to push is expected to be at the remote.
pub open spec fn expected_of(operation: Operation) -> Option<Option<String>> {
    match operation {
        Operation::Push(Pushing { phase: PushPhase::Remotes { expected, .. }, .. }) => Some(
            expected,
        ),
        Operation::Push(Pushing { phase: PushPhase::RemoteHeads { expected, .. }, .. }) => Some(
            expected,
        ),
        _ => None,
    }
}

proof fn lemma_push_step(operation: Operation, reply: Reply, next: Operation, request: Request)
    requires
        operation.expects(reply),
        operation.leads_to(reply, Step::Ask(next, request)),
        operation matches Operation::Push(inner) && inner.force,
    ensures
        (next matches Operation::Push(inner) && inner.force) || (next matches Operation::Plan(rest)
            && rest.steps@.len() == 0),
        expected_of(next) is Some ==> expected_of(operation) == expected_of(next) || reply
            == (Reply::Upstream { target: expected_of(next)->0 }),
        request is Push ==> confirms_position(operation, reply),
{
}

proof fn lemma_expected(start: Step, run: Seq<Exchange>, end: Step, i: int)
    requires
        is_start(start),
        is_run(start, run, end),
        run.len() > 0,
        run[0].operation matches Operation::Push(inner) && inner.force,
        0 <= i < run.len(),
    ensures
        (run[i].operation matches Operation::Push(inner) && inner.force) || (run[i].operation
            matches Operation::Plan(rest) && rest.steps@.len() == 0),
        expected_of(run[i].operation) is Some ==> exists|j: int|
            0 <= j < i && (#[trigger] run[j]).reply == (Reply::Upstream {
                target: expected_of(run[i].operation)->0,
            }),
    decreases i,
{
    if i > 0 {
        let before = run[i - 1];
        let here = run[i];
        lemma_expected(start, run, end, i - 1);
        assert(before.operation.expects(before.reply));
        if before.operation is Push {
            lemma_push_step(before.operation, before.reply, here.operation, here.request);
            if expected_of(here.operation) is Some {
                let target = expected_of(here.operation)->0;
                if before.reply == (Reply::Upstream { target }) {
                    assert(run[i - 1].reply == (Reply::Upstream { target }));
                } else {
                    let j = choose|j: int|
                        0 <= j < i - 1 && (#[trigger] run[j]).reply == (Reply::Upstream {
                            target,
                        });
                    assert(run[j].reply == (Reply::Upstream { target }));
                }
            }
        }
    }
}

/// A forced push goes out only if the remote has just said that the branch is where the
/// remote-tracking branch has it: nobody else's commits are overwritten.
pub proof fn forced_push_holds_the_lease(start: Step, run: Seq<Exchange>, end: Step, i: int)
    requires
        is_start(start),
        is_run(start, run, end),
        run.len() > 0,
        run[0].operation matches Operation::Push(inner) && inner.force,
        0 <= i < run.len(),
        run[i].request is Push,
    ensures
        i > 0,
        confirms_position(run[i - 1].operation, run[i - 1].reply),
        expected_of(run[i - 1].operation) is Some,
        exists|j: int|
            0 <= j < i && (#[trigger] run[j]).reply == (Reply::Upstream {
                target: expected_of(run[i - 1].operation)->0,
            }),
{
    let before = run[i - 1];
    let here = run[i];
    lemma_expected(start, run, end, i - 1);
    assert(before.operation.expects(before.reply));
    if before.operation is Push {
        lemma_push_step(before.operation, before.reply, here.operation, here.request);
        let target = expected_of(before.operation)->0;
        let j = choose|j: int|
            0 <= j < i - 1 && (#[trigger] run[j]).reply == (Reply::Upstream { target });
        assert(run[j].reply == (Reply::Upstream { target }));
    }
}

} // verus!
