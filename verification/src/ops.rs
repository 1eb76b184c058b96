//! Operations that rewrite history or move branches.
//!
//! Two rules hold for all of them. Whatever rewrites history or moves a branch first
//! keeps the commit it starts from under a reference in [`UNDO_NAMESPACE`], where it
//! cannot be collected and can be gone back to. And an operation whose conditions are
//! not met refuses, saying why, rather than guess.
use vstd::prelude::*;

use crate::fetch::{chosen_remote, default_remote};
use crate::git;
use crate::git::{short_oid, RepoState};
use crate::operation::{
    is_start, Operation, Plan, RebaseStep, RemoteHead, Reply, Request, SafetyFacts, Step,
};
use crate::sorting::{sorted, sorting_of_views, stable_sort};
use crate::text;
use crate::text::decimal_digits;

verus! {

/// Where safety points live: outside `refs/heads`, so that they are neither listed among
/// the branches nor pushed.
pub const UNDO_NAMESPACE: &'static str = "refs/gitview/undo";

/// A commit kept before an operation.
#[derive(Debug)]
pub struct SafetyPoint {
    /// The full name of the reference.
    pub reference: String,
    /// The commit that was HEAD.
    pub oid: String,
    /// The operation it was kept for.
    pub operation: String,
    pub created_unix: u64,
}

impl Clone for SafetyPoint {
    fn clone(&self) -> (r: Self)
        ensures
            r == *self,
    {
        SafetyPoint {
            reference: self.reference.clone(),
            oid: self.oid.clone(),
            operation: self.operation.clone(),
            created_unix: self.created_unix,
        }
    }
}

/// What an operation came to.
#[derive(Debug)]
pub struct OpOutcome {
    /// One sentence for the user.
    pub message: String,
    /// The safety point of the operation, `None` where nothing was rewritten.
    pub undo: Option<SafetyPoint>,
}

impl Clone for OpOutcome {
    fn clone(&self) -> (r: Self)
        ensures
            r == *self,
    {
        OpOutcome {
            message: self.message.clone(),
            undo: match &self.undo {
                Some(point) => Some(point.clone()),
                None => None,
            },
        }
    }
}

/// Whether a step reports completion with the given text and safety point.
pub open spec fn reports(step: Step, message: Seq<char>, undo: Option<SafetyPoint>) -> bool {
    step matches Step::Finished(outcome) && outcome.message@ == message && outcome.undo == undo
}

/// Whether a step refuses with the given text.
pub open spec fn refuses(step: Step, message: Seq<char>) -> bool {
    step matches Step::Refused(text) && text@ == message
}

pub(crate) fn report(message: &str, undo: Option<SafetyPoint>) -> (r: Step)
    ensures
        reports(r, message@, undo),
{
    Step::Finished(OpOutcome { message: message.to_owned(), undo })
}

pub(crate) fn refuse(message: &str) -> (r: Step)
    ensures
        refuses(r, message@),
{
    Step::Refused(message.to_owned())
}

/// The name of a safety point: when it was made, and for which operation.
pub open spec fn safety_reference(now: u64, operation: Seq<char>) -> Seq<char> {
    UNDO_NAMESPACE@ + "/"@ + decimal_digits(now as nat) + "-"@ + operation
}

/// Whether this is the safety point of an operation.
pub open spec fn is_point_for(point: SafetyPoint, facts: SafetyFacts, operation: Seq<char>) -> bool {
    &&& point.reference@ == safety_reference(facts.now, operation)
    &&& point.oid == facts.head
    &&& point.operation@ == operation
    &&& point.created_unix == facts.now
}

/// The log entry of a safety point.
pub open spec fn safety_log(operation: Seq<char>) -> Seq<char> {
    "gitview: "@ + operation + " 之前的還原點"@
}

/// The safety point of an operation, with its log entry.
pub fn create_safety_point(facts: SafetyFacts, operation: &str) -> (r: (SafetyPoint, String))
    ensures
        is_point_for(r.0, facts, operation@),
        r.1@ == safety_log(operation@),
{
    let name = text::plus(UNDO_NAMESPACE.to_owned(), "/");
    let name = text::plus(name, text::decimal(facts.now).as_str());
    let name = text::plus(name, "-");
    let reference = text::plus(name, operation);
    let log = text::plus("gitview: ".to_owned(), operation);
    let log = text::plus(log, " 之前的還原點");
    let point = SafetyPoint {
        reference,
        oid: facts.head,
        operation: operation.to_owned(),
        created_unix: facts.now,
    };
    (point, log)
}

/// How the current branch is brought together with the branch it tracks.
#[derive(Debug, Clone, Copy, PartialEq, Eq, Structural)]
pub enum SyncKind {
    FastForward,
    Rebase,
    Merge,
}

/// How far bringing the branches together has come: each phase is named after the reply
/// it waits for.
#[derive(Debug)]
pub enum SyncPhase {
    State,
    WorkTree,
    Head,
    Upstream,
    Local { upstream: String },
    Distance { local: String, upstream: String },
    LateWorkTree { local: String, upstream: String },
    Facts { local: String, upstream: String },
    Kept { local: String, upstream: String, point: SafetyPoint },
    RebaseStarted { point: SafetyPoint },
    RebaseIdentity { point: SafetyPoint },
    MergeStarted { local: String, upstream: String, point: SafetyPoint },
    MergeConflicts { local: String, upstream: String, point: SafetyPoint },
    MergeTree { local: String, upstream: String, point: SafetyPoint },
    MergeIdentity { local: String, upstream: String, point: SafetyPoint, tree: String },
    MergeName { local: String, upstream: String, point: SafetyPoint, tree: String },
    MergeCommit { point: SafetyPoint },
}

/// Bringing the current branch together with the branch it tracks.
#[derive(Debug)]
pub struct Syncing {
    pub kind: SyncKind,
    pub phase: SyncPhase,
}

pub open spec fn sync_name(kind: SyncKind) -> Seq<char> {
    match kind {
        SyncKind::FastForward => "fast-forward"@,
        SyncKind::Rebase => "rebase"@,
        SyncKind::Merge => "merge"@,
    }
}

/// What is said where changes that are not committed are in the way.
pub open spec fn uncommitted_text(kind: SyncKind) -> Seq<char> {
    match kind {
        SyncKind::FastForward => "工作目錄有未提交的變更，請先提交或暫存"@,
        SyncKind::Rebase => "工作目錄有未提交的變更，請先提交或暫存後再 rebase"@,
        SyncKind::Merge => "工作目錄有未提交的變更，請先提交或暫存後再合併"@,
    }
}

/// Whether there are changes that are not committed. Untracked files are in nobody's way,
/// and a bare repository has no working tree.
pub open spec fn uncommitted(is_bare: bool, has_changes: bool) -> bool {
    !is_bare && has_changes
}

pub fn has_uncommitted_changes(is_bare: bool, has_changes: bool) -> (r: bool)
    ensures
        r == uncommitted(is_bare, has_changes),
{
    if is_bare {
        return false;
    }
    has_changes
}

/// What is said where another operation is in progress, if one is.
pub fn ensure_no_operation_in_progress(state: RepoState) -> (r: Result<(), &'static str>)
    ensures
        match r {
            Ok(_) => state is Clean,
            Err(text) => !(state is Clean) && text@ == in_progress_text(),
        },
{
    if state != RepoState::Clean {
        return Err("repository 正處於未完成的操作中，請先完成或中止它");
    }
    Ok(())
}

pub open spec fn in_progress_text() -> Seq<char> {
    "repository 正處於未完成的操作中，請先完成或中止它"@
}

pub open spec fn up_to_date_text() -> Seq<char> {
    "已經是最新的，沒有任何改動"@
}

/// Whether a step asks for `request` and then goes on with a sync of the same kind.
pub open spec fn syncs(step: Step, kind: SyncKind, phase: SyncPhase, request: Request) -> bool {
    step == Step::Ask(Operation::Sync(Syncing { kind, phase }), request)
}

/// Whether a step keeps the commit that HEAD was at and then goes on.
pub open spec fn keeps_point(
    step: Step,
    kind: SyncKind,
    local: String,
    upstream: String,
    facts: SafetyFacts,
) -> bool {
    step matches Step::Ask(
        Operation::Sync(Syncing { kind: next_kind, phase: SyncPhase::Kept {
            local: next_local,
            upstream: next_upstream,
            point,
        } }),
        Request::WriteSafetyPoint { point: kept, log },
    ) && next_kind == kind && next_local == local && next_upstream == upstream && point == kept
        && is_point_for(point, facts, sync_name(kind)) && log@ == safety_log(sync_name(kind))
}

pub open spec fn merge_message(upstream: Seq<char>, name: Option<Seq<char>>) -> Seq<char> {
    "Merge "@ + short_oid(upstream) + " into "@ + match name {
        Some(name) => name,
        None => "HEAD"@,
    }
}

/// Whether a step commits the merge of two commits and then goes on.
pub open spec fn commits_merge(
    step: Step,
    kind: SyncKind,
    local: String,
    upstream: String,
    point: SafetyPoint,
    tree: String,
    name: Option<String>,
) -> bool {
    step matches Step::Ask(
        Operation::Sync(Syncing { kind: next_kind, phase: SyncPhase::MergeCommit {
            point: next_point,
        } }),
        Request::CreateCommit { message, tree: committed, parents },
    ) && next_kind == kind && next_point == point && committed == tree && parents@ == seq![local, upstream]
        && message@ == merge_message(upstream@, text::view_of(name))
}

impl Syncing {
    /// Whether the reply answers the request that was made.
    pub open spec fn expects(self, reply: Reply) -> bool {
        match self.phase {
            SyncPhase::State => reply is State,
            SyncPhase::WorkTree => reply is WorkTree,
            SyncPhase::Head => reply is Head,
            SyncPhase::Upstream => reply is Upstream,
            SyncPhase::Local { .. } => reply is Commit,
            SyncPhase::Distance { .. } => reply is Distance,
            SyncPhase::LateWorkTree { .. } => reply is WorkTree,
            SyncPhase::Facts { .. } => reply is Facts,
            SyncPhase::Kept { .. } => reply is Done,
            SyncPhase::RebaseStarted { .. } => reply is Done,
            SyncPhase::RebaseIdentity { .. } => reply is Done,
            SyncPhase::MergeStarted { .. } => reply is Done,
            SyncPhase::MergeConflicts { .. } => reply is Conflicts,
            SyncPhase::MergeTree { .. } => reply is Tree,
            SyncPhase::MergeIdentity { .. } => reply is Done,
            SyncPhase::MergeName { .. } => reply is Name,
            SyncPhase::MergeCommit { .. } => reply is Commit,
        }
    }

    /// What follows a reply.
    pub open spec fn leads_to(self, reply: Reply, step: Step) -> bool {
        let kind = self.kind;
        match (self.phase, reply) {
            (SyncPhase::State, Reply::State(state)) => {
                if !(state is Clean) {
                    refuses(step, in_progress_text())
                } else if kind is FastForward {
                    syncs(step, kind, SyncPhase::Head, Request::ReadHead)
                } else {
                    syncs(step, kind, SyncPhase::WorkTree, Request::ReadWorkTree)
                }
            },
            (SyncPhase::WorkTree, Reply::WorkTree { is_bare, has_changes }) => {
                if uncommitted(is_bare, has_changes) {
                    refuses(step, uncommitted_text(kind))
                } else {
                    syncs(step, kind, SyncPhase::Head, Request::ReadHead)
                }
            },
            (SyncPhase::Head, Reply::Head { is_branch, name }) => {
                if !is_branch {
                    refuses(step, "目前不在分支上（detached HEAD）"@)
                } else {
                    match name {
                        Some(branch) => syncs(
                            step,
                            kind,
                            SyncPhase::Upstream,
                            Request::ReadUpstream { branch },
                        ),
                        None => refuses(step, "分支名稱不是有效的 UTF-8"@),
                    }
                }
            },
            (SyncPhase::Upstream, Reply::Upstream { target }) => match target {
                Some(upstream) => syncs(
                    step,
                    kind,
                    SyncPhase::Local { upstream },
                    Request::ReadHeadCommit,
                ),
                None => refuses(step, "遠端追蹤分支沒有指向任何 commit"@),
            },
            (SyncPhase::Local { upstream }, Reply::Commit(local)) => {
                if local@ == upstream@ {
                    reports(step, up_to_date_text(), None)
                } else if kind is FastForward {
                    syncs(
                        step,
                        kind,
                        SyncPhase::Distance { local, upstream },
                        Request::Compare { local, upstream },
                    )
                } else {
                    syncs(
                        step,
                        kind,
                        SyncPhase::Facts { local, upstream },
                        Request::ReadSafetyFacts,
                    )
                }
            },
            (SyncPhase::Distance { local, upstream }, Reply::Distance { ahead, behind }) => {
                if ahead > 0 {
                    refuses(
                        step,
                        "本機有 "@ + decimal_digits(ahead as nat)
                            + " 個遠端沒有的 commit，無法快轉；請改用 rebase 或 merge"@,
                    )
                } else {
                    syncs(
                        step,
                        kind,
                        SyncPhase::LateWorkTree { local, upstream },
                        Request::ReadWorkTree,
                    )
                }
            },
            (SyncPhase::LateWorkTree { local, upstream }, Reply::WorkTree { is_bare, has_changes }) => {
                if uncommitted(is_bare, has_changes) {
                    refuses(step, uncommitted_text(kind))
                } else {
                    syncs(
                        step,
                        kind,
                        SyncPhase::Facts { local, upstream },
                        Request::ReadSafetyFacts,
                    )
                }
            },
            (SyncPhase::Facts { local, upstream }, Reply::Facts(facts)) => keeps_point(
                step,
                kind,
                local,
                upstream,
                facts,
            ),
            (SyncPhase::Kept { local, upstream, point }, Reply::Done) => match kind {
                SyncKind::FastForward => {
                    step matches Step::Ask(Operation::Plan(rest), request) && request
                        == (Request::CheckoutCommit { oid: upstream }) && rest.steps@.len() == 1
                        && (rest.steps@[0] matches Request::MoveHead { oid, log } && oid == upstream
                        && log@ == "gitview: fast-forward"@) && rest.outcome.undo == Some(point)
                        && rest.outcome.message@ == "已快轉到 "@ + short_oid(upstream@)
                },
                SyncKind::Rebase => syncs(
                    step,
                    kind,
                    SyncPhase::RebaseStarted { point },
                    Request::StartRebase { upstream },
                ),
                SyncKind::Merge => syncs(
                    step,
                    kind,
                    SyncPhase::MergeStarted { local, upstream, point },
                    Request::StartMerge { upstream },
                ),
            },
            (SyncPhase::RebaseStarted { point }, Reply::Done) => syncs(
                step,
                kind,
                SyncPhase::RebaseIdentity { point },
                Request::ReadIdentity,
            ),
            (SyncPhase::RebaseIdentity { point }, Reply::Done) => {
                step == Step::Ask(
                    Operation::Replay(
                        Replay {
                            kind: ReplayKind::Fresh(point),
                            phase: ReplayPhase::Step,
                            applied: 0,
                            skipped: 0,
                        },
                    ),
                    Request::NextRebaseStep,
                )
            },
            (SyncPhase::MergeStarted { local, upstream, point }, Reply::Done) => syncs(
                step,
                kind,
                SyncPhase::MergeConflicts { local, upstream, point },
                Request::ReadConflicts,
            ),
            (SyncPhase::MergeConflicts { local, upstream, point }, Reply::Conflicts(some)) => {
                if some {
                    reports(
                        step,
                        "合併遇到衝突，已停在該處等待處理；不想繼續可以還原到操作前的狀態"@,
                        Some(point),
                    )
                } else {
                    syncs(
                        step,
                        kind,
                        SyncPhase::MergeTree { local, upstream, point },
                        Request::WriteTree,
                    )
                }
            },
            (SyncPhase::MergeTree { local, upstream, point }, Reply::Tree(tree)) => syncs(
                step,
                kind,
                SyncPhase::MergeIdentity { local, upstream, point, tree },
                Request::ReadIdentity,
            ),
            (SyncPhase::MergeIdentity { local, upstream, point, tree }, Reply::Done) => syncs(
                step,
                kind,
                SyncPhase::MergeName { local, upstream, point, tree },
                Request::FindHeadName,
            ),
            (SyncPhase::MergeName { local, upstream, point, tree }, Reply::Name(name)) => commits_merge(
                step,
                kind,
                local,
                upstream,
                point,
                tree,
                name,
            ),
            (SyncPhase::MergeCommit { point }, Reply::Commit(_)) => {
                step matches Step::Ask(Operation::Plan(rest), request) && request
                    == Request::CleanUpState && rest.steps@.len() == 0 && rest.outcome.undo
                    == Some(point) && rest.outcome.message@
                    == "已合併遠端的變更，並建立一個合併節點"@
            },
            _ => true,
        }
    }

    fn ask(kind: SyncKind, phase: SyncPhase, request: Request) -> (r: Step)
        ensures
            syncs(r, kind, phase, request),
    {
        Step::Ask(Operation::Sync(Syncing { kind, phase }), request)
    }

    pub fn advance(self, reply: Reply) -> (r: Step)
        requires
            self.expects(reply),
        ensures
            self.leads_to(reply, r),
    {
        let kind = self.kind;
        match (self.phase, reply) {
            (SyncPhase::State, Reply::State(state)) => {
                match ensure_no_operation_in_progress(state) {
                    Err(text) => refuse(text),
                    Ok(_) => match kind {
                        SyncKind::FastForward => Self::ask(
                            kind,
                            SyncPhase::Head,
                            Request::ReadHead,
                        ),
                        _ => Self::ask(kind, SyncPhase::WorkTree, Request::ReadWorkTree),
                    },
                }
            }
            (SyncPhase::WorkTree, Reply::WorkTree { is_bare, has_changes }) => {
                if has_uncommitted_changes(is_bare, has_changes) {
                    refuse(uncommitted_message(kind))
                } else {
                    Self::ask(kind, SyncPhase::Head, Request::ReadHead)
                }
            }
            (SyncPhase::Head, Reply::Head { is_branch, name }) => {
                if !is_branch {
                    return refuse("目前不在分支上（detached HEAD）");
                }
                match name {
                    Some(branch) => Self::ask(
                        kind,
                        SyncPhase::Upstream,
                        Request::ReadUpstream { branch },
                    ),
                    None => refuse("分支名稱不是有效的 UTF-8"),
                }
            }
            (SyncPhase::Upstream, Reply::Upstream { target }) => match target {
                Some(upstream) => Self::ask(
                    kind,
                    SyncPhase::Local { upstream },
                    Request::ReadHeadCommit,
                ),
                None => refuse("遠端追蹤分支沒有指向任何 commit"),
            },
            (SyncPhase::Local { upstream }, Reply::Commit(local)) => {
                if text::same(local.as_str(), upstream.as_str()) {
                    return report("已經是最新的，沒有任何改動", None);
                }
                match kind {
                    SyncKind::FastForward => {
                        let request = Request::Compare {
                            local: local.clone(),
                            upstream: upstream.clone(),
                        };
                        Self::ask(kind, SyncPhase::Distance { local, upstream }, request)
                    }
                    _ => Self::ask(
                        kind,
                        SyncPhase::Facts { local, upstream },
                        Request::ReadSafetyFacts,
                    ),
                }
            }
            (SyncPhase::Distance { local, upstream }, Reply::Distance { ahead, behind: _ }) => {
                if ahead > 0 {
                    let message = text::plus(
                        "本機有 ".to_owned(),
                        text::decimal(ahead as u64).as_str(),
                    );
                    let message = text::plus(
                        message,
                        " 個遠端沒有的 commit，無法快轉；請改用 rebase 或 merge",
                    );
                    return refuse(message.as_str());
                }
                Self::ask(
                    kind,
                    SyncPhase::LateWorkTree { local, upstream },
                    Request::ReadWorkTree,
                )
            }
            (
                SyncPhase::LateWorkTree { local, upstream },
                Reply::WorkTree { is_bare, has_changes },
            ) => {
                if has_uncommitted_changes(is_bare, has_changes) {
                    return refuse(uncommitted_message(kind));
                }
                Self::ask(kind, SyncPhase::Facts { local, upstream }, Request::ReadSafetyFacts)
            }
            (SyncPhase::Facts { local, upstream }, Reply::Facts(facts)) => {
                let operation = match kind {
                    SyncKind::FastForward => "fast-forward",
                    SyncKind::Rebase => "rebase",
                    SyncKind::Merge => "merge",
                };
                let (point, log) = create_safety_point(facts, operation);
                let request = Request::WriteSafetyPoint { point: point.clone(), log };
                Self::ask(kind, SyncPhase::Kept { local, upstream, point }, request)
            }
            (SyncPhase::Kept { local, upstream, point }, Reply::Done) => match kind {
                SyncKind::FastForward => {
                    let message = text::plus(
                        "已快轉到 ".to_owned(),
                        git::short(upstream.as_str()).as_str(),
                    );
                    let mut steps: Vec<Request> = Vec::new();
                    steps.push(
                        Request::MoveHead {
                            oid: upstream.clone(),
                            log: "gitview: fast-forward".to_owned(),
                        },
                    );
                    let outcome = OpOutcome { message, undo: Some(point) };
                    Step::Ask(
                        Operation::Plan(Plan { steps, outcome }),
                        Request::CheckoutCommit { oid: upstream },
                    )
                }
                SyncKind::Rebase => Self::ask(
                    kind,
                    SyncPhase::RebaseStarted { point },
                    Request::StartRebase { upstream },
                ),
                SyncKind::Merge => {
                    let request = Request::StartMerge { upstream: upstream.clone() };
                    Self::ask(kind, SyncPhase::MergeStarted { local, upstream, point }, request)
                }
            },
            (SyncPhase::RebaseStarted { point }, Reply::Done) => Self::ask(
                kind,
                SyncPhase::RebaseIdentity { point },
                Request::ReadIdentity,
            ),
            (SyncPhase::RebaseIdentity { point }, Reply::Done) => Step::Ask(
                Operation::Replay(
                    Replay {
                        kind: ReplayKind::Fresh(point),
                        phase: ReplayPhase::Step,
                        applied: 0,
                        skipped: 0,
                    },
                ),
                Request::NextRebaseStep,
            ),
            (SyncPhase::MergeStarted { local, upstream, point }, Reply::Done) => Self::ask(
                kind,
                SyncPhase::MergeConflicts { local, upstream, point },
                Request::ReadConflicts,
            ),
            (SyncPhase::MergeConflicts { local, upstream, point }, Reply::Conflicts(some)) => {
                if some {
                    return report(
                        "合併遇到衝突，已停在該處等待處理；不想繼續可以還原到操作前的狀態",
                        Some(point),
                    );
                }
                Self::ask(kind, SyncPhase::MergeTree { local, upstream, point }, Request::WriteTree)
            }
            (SyncPhase::MergeTree { local, upstream, point }, Reply::Tree(tree)) => Self::ask(
                kind,
                SyncPhase::MergeIdentity { local, upstream, point, tree },
                Request::ReadIdentity,
            ),
            (SyncPhase::MergeIdentity { local, upstream, point, tree }, Reply::Done) => Self::ask(
                kind,
                SyncPhase::MergeName { local, upstream, point, tree },
                Request::FindHeadName,
            ),
            (SyncPhase::MergeName { local, upstream, point, tree }, Reply::Name(name)) => {
                let message = text::plus(
                    "Merge ".to_owned(),
                    git::short(upstream.as_str()).as_str(),
                );
                let message = text::plus(message, " into ");
                let message = match &name {
                    Some(name) => text::plus(message, name.as_str()),
                    None => text::plus(message, "HEAD"),
                };
                let mut parents: Vec<String> = Vec::new();
                parents.push(local);
                parents.push(upstream);
                assert(parents@ =~= seq![local, upstream]);
                Self::ask(
                    kind,
                    SyncPhase::MergeCommit { point },
                    Request::CreateCommit { message, tree, parents },
                )
            }
            (SyncPhase::MergeCommit { point }, Reply::Commit(_)) => {
                let outcome = OpOutcome {
                    message: "已合併遠端的變更，並建立一個合併節點".to_owned(),
                    undo: Some(point),
                };
                Step::Ask(
                    Operation::Plan(Plan { steps: Vec::new(), outcome }),
                    Request::CleanUpState,
                )
            }
            _ => vstd::pervasive::unreached(),
        }
    }
}

fn uncommitted_message(kind: SyncKind) -> (r: &'static str)
    ensures
        r@ == uncommitted_text(kind),
{
    match kind {
        SyncKind::FastForward => "工作目錄有未提交的變更，請先提交或暫存",
        SyncKind::Rebase => "工作目錄有未提交的變更，請先提交或暫存後再 rebase",
        SyncKind::Merge => "工作目錄有未提交的變更，請先提交或暫存後再合併",
    }
}

fn begin_sync(kind: SyncKind) -> (r: Step)
    ensures
        syncs(r, kind, SyncPhase::State, Request::ReadState),
{
    Step::Ask(
        Operation::Sync(Syncing { kind, phase: SyncPhase::State }),
        Request::ReadState,
    )
}

/// Moves the current branch forward to the branch it tracks, where nothing was committed
/// here that is not there.
pub fn fast_forward() -> (r: Step)
    ensures
        is_start(r),
        syncs(r, SyncKind::FastForward, SyncPhase::State, Request::ReadState),
{
    begin_sync(SyncKind::FastForward)
}

/// Reapplies what was committed here alone on top of the branch that is tracked.
pub fn rebase_onto_upstream() -> (r: Step)
    ensures
        is_start(r),
        syncs(r, SyncKind::Rebase, SyncPhase::State, Request::ReadState),
{
    begin_sync(SyncKind::Rebase)
}

/// Merges the branch that is tracked into the current branch.
pub fn merge_upstream() -> (r: Step)
    ensures
        is_start(r),
        syncs(r, SyncKind::Merge, SyncPhase::State, Request::ReadState),
{
    begin_sync(SyncKind::Merge)
}

/// Why commits are being reapplied.
#[derive(Debug)]
pub enum ReplayKind {
    /// A rebase has just begun, and this is its safety point.
    Fresh(SafetyPoint),
    /// A rebase goes on after conflicts were resolved.
    Continued,
    /// A rebase goes on without the commit it had stopped at.
    Skipped,
}

/// Which reply is awaited.
#[derive(Debug, Clone, Copy, PartialEq, Eq, Structural)]
pub enum ReplayPhase {
    Step,
    Committed,
    Finished,
}

/// Reapplying commits one by one.
#[derive(Debug)]
pub struct Replay {
    pub kind: ReplayKind,
    pub phase: ReplayPhase,
    /// The number of commits that were reapplied.
    pub applied: usize,
    /// The number of commits that had become empty.
    pub skipped: usize,
}

/// What is said where the next commit left conflicts.
pub open spec fn stopped_text(kind: ReplayKind, applied: nat, skipped: nat) -> Seq<char> {
    match kind {
        ReplayKind::Fresh(_) => "rebase 在第 "@ + decimal_digits(applied + 1)
            + " 個 commit 遇到衝突，已停在該處等待處理；不想繼續可以還原到操作前的狀態"@,
        ReplayKind::Continued => "又遇到衝突，已停在第 "@ + decimal_digits(applied + skipped + 1)
            + " 步等待處理"@,
        ReplayKind::Skipped => "已略過這一步，但下一步又遇到衝突"@,
    }
}

/// What is said once all commits are reapplied.
pub open spec fn replayed_text(kind: ReplayKind, applied: nat, skipped: nat) -> Seq<char> {
    match kind {
        ReplayKind::Fresh(_) => "已將 "@ + decimal_digits(applied)
            + " 個 commit 重新套用到遠端內容之後"@,
        ReplayKind::Continued => {
            let done = "rebase 完成，共套用 "@ + decimal_digits(applied) + " 個 commit"@;
            if skipped > 0 {
                done + "；另有 "@ + decimal_digits(skipped)
                    + " 個因為解決衝突後內容變成空的而略過"@
            } else {
                done
            }
        },
        ReplayKind::Skipped => "已略過該 commit，其餘 "@ + decimal_digits(applied)
            + " 個已套用"@,
    }
}

pub open spec fn replay_undo(kind: ReplayKind) -> Option<SafetyPoint> {
    match kind {
        ReplayKind::Fresh(point) => Some(point),
        _ => None,
    }
}

pub open spec fn replays(step: Step, next: Replay, request: Request) -> bool {
    step == Step::Ask(Operation::Replay(next), request)
}

impl Replay {
    /// Whether the reply answers the request that was made. The number of commits has to
    /// stay within what can be counted.
    pub open spec fn expects(self, reply: Reply) -> bool {
        match self.phase {
            ReplayPhase::Step => reply is Step && self.applied + self.skipped < u64::MAX
                && self.applied + self.skipped < usize::MAX,
            ReplayPhase::Committed => reply is Committed && self.applied + self.skipped < u64::MAX
                && self.applied + self.skipped < usize::MAX && (reply->empty ==> self.kind
                is Continued),
            ReplayPhase::Finished => reply is Done,
        }
    }

    pub open spec fn leads_to(self, reply: Reply, step: Step) -> bool {
        match (self.phase, reply) {
            (ReplayPhase::Step, Reply::Step(RebaseStep::End)) => replays(
                step,
                Replay { phase: ReplayPhase::Finished, ..self },
                Request::FinishRebase,
            ),
            (ReplayPhase::Step, Reply::Step(RebaseStep::Conflicted)) => reports(
                step,
                stopped_text(self.kind, self.applied as nat, self.skipped as nat),
                replay_undo(self.kind),
            ),
            (ReplayPhase::Step, Reply::Step(RebaseStep::Applied)) => replays(
                step,
                Replay { phase: ReplayPhase::Committed, ..self },
                Request::CommitRebaseStep { allow_empty: self.kind is Continued },
            ),
            (ReplayPhase::Committed, Reply::Committed { empty }) => replays(
                step,
                if empty {
                    Replay {
                        phase: ReplayPhase::Step,
                        skipped: (self.skipped + 1) as usize,
                        ..self
                    }
                } else {
                    Replay {
                        phase: ReplayPhase::Step,
                        applied: (self.applied + 1) as usize,
                        ..self
                    }
                },
                Request::NextRebaseStep,
            ),
            (ReplayPhase::Finished, Reply::Done) => reports(
                step,
                replayed_text(self.kind, self.applied as nat, self.skipped as nat),
                replay_undo(self.kind),
            ),
            _ => true,
        }
    }

    pub fn advance(self, reply: Reply) -> (r: Step)
        requires
            self.expects(reply),
        ensures
            self.leads_to(reply, r),
    {
        let Replay { kind, phase, applied, skipped } = self;
        match (phase, reply) {
            (ReplayPhase::Step, Reply::Step(RebaseStep::End)) => Step::Ask(
                Operation::Replay(Replay { kind, phase: ReplayPhase::Finished, applied, skipped }),
                Request::FinishRebase,
            ),
            (ReplayPhase::Step, Reply::Step(RebaseStep::Conflicted)) => {
                let message = match &kind {
                    ReplayKind::Fresh(_) => {
                        let message = text::plus(
                            "rebase 在第 ".to_owned(),
                            text::decimal(applied as u64 + 1).as_str(),
                        );
                        text::plus(
                            message,
                            " 個 commit 遇到衝突，已停在該處等待處理；不想繼續可以還原到操作前的狀態",
                        )
                    }
                    ReplayKind::Continued => {
                        let message = text::plus(
                            "又遇到衝突，已停在第 ".to_owned(),
                            text::decimal((applied + skipped) as u64 + 1).as_str(),
                        );
                        text::plus(message, " 步等待處理")
                    }
                    ReplayKind::Skipped => "已略過這一步，但下一步又遇到衝突".to_owned(),
                };
                report(message.as_str(), undo_of(kind))
            }
            (ReplayPhase::Step, Reply::Step(RebaseStep::Applied)) => {
                let allow_empty = match &kind {
                    ReplayKind::Continued => true,
                    _ => false,
                };
                Step::Ask(
                    Operation::Replay(
                        Replay { kind, phase: ReplayPhase::Committed, applied, skipped },
                    ),
                    Request::CommitRebaseStep { allow_empty },
                )
            }
            (ReplayPhase::Committed, Reply::Committed { empty }) => {
                let (applied, skipped) = if empty {
                    (applied, skipped + 1)
                } else {
                    (applied + 1, skipped)
                };
                Step::Ask(
                    Operation::Replay(Replay { kind, phase: ReplayPhase::Step, applied, skipped }),
                    Request::NextRebaseStep,
                )
            }
            (ReplayPhase::Finished, Reply::Done) => {
                let message = replayed_message(&kind, applied, skipped);
                report(message.as_str(), undo_of(kind))
            }
            _ => vstd::pervasive::unreached(),
        }
    }
}

fn undo_of(kind: ReplayKind) -> (r: Option<SafetyPoint>)
    ensures
        r == replay_undo(kind),
{
    match kind {
        ReplayKind::Fresh(point) => Some(point),
        _ => None,
    }
}

fn replayed_message(kind: &ReplayKind, applied: usize, skipped: usize) -> (r: String)
    ensures
        r@ == replayed_text(*kind, applied as nat, skipped as nat),
{
    let count = text::decimal(applied as u64);
    match kind {
        ReplayKind::Fresh(_) => {
            let message = text::plus("已將 ".to_owned(), count.as_str());
            text::plus(message, " 個 commit 重新套用到遠端內容之後")
        }
        ReplayKind::Continued => {
            let message = text::plus("rebase 完成，共套用 ".to_owned(), count.as_str());
            let message = text::plus(message, " 個 commit");
            if skipped > 0 {
                let message = text::plus(message, "；另有 ");
                let message = text::plus(message, text::decimal(skipped as u64).as_str());
                text::plus(message, " 個因為解決衝突後內容變成空的而略過")
            } else {
                message
            }
        }
        ReplayKind::Skipped => {
            let message = text::plus("已略過該 commit，其餘 ".to_owned(), count.as_str());
            text::plus(message, " 個已套用")
        }
    }
}

/// How far a push has come: each phase is named after the reply it waits for.
#[derive(Debug)]
pub enum PushPhase {
    Head,
    Upstream { branch: String },
    Remotes { branch: String, expected: Option<String> },
    RemoteHeads { branch: String, expected: Option<String>, remote: String },
}

/// Sending the current branch to the branch it tracks.
#[derive(Debug)]
pub struct Pushing {
    pub force: bool,
    pub phase: PushPhase,
}

/// The full name of a local branch.
pub open spec fn branch_reference(branch: Seq<char>) -> Seq<char> {
    "refs/heads/"@ + branch
}

/// What to push: the branch to the branch of the same name. A plus sign in front lets it
/// be overwritten.
pub open spec fn push_refspec(branch: Seq<char>, force: bool) -> Seq<char> {
    let plain = branch_reference(branch) + ":"@ + branch_reference(branch);
    if force {
        "+"@ + plain
    } else {
        plain
    }
}

pub open spec fn pushed_text(branch: Seq<char>, remote: Seq<char>, force: bool) -> Seq<char> {
    if force {
        "已強制推送 "@ + branch + " 到 "@ + remote
    } else {
        "已推送 "@ + branch + " 到 "@ + remote
    }
}

/// Whether a step sends the branch and then reports it. Nothing here has changed, so
/// there is nothing to go back to.
pub open spec fn pushes(step: Step, branch: Seq<char>, remote: String, force: bool) -> bool {
    step matches Step::Ask(Operation::Plan(rest), Request::Push { remote: to, refspec }) && to
        == remote && refspec@ == push_refspec(branch, force) && rest.steps@.len() == 0
        && rest.outcome.undo is None && rest.outcome.message@ == pushed_text(
        branch,
        remote@,
        force,
    )
}

/// Where the first remote head of the given name is at.
pub open spec fn remote_position(heads: Seq<RemoteHead>, name: Seq<char>) -> Option<Seq<char>>
    decreases heads.len(),
{
    if heads.len() == 0 {
        None
    } else if heads[0].name@ == name {
        Some(heads[0].oid@)
    } else {
        remote_position(heads.drop_first(), name)
    }
}

pub open spec fn lease_text(branch: Seq<char>) -> Seq<char> {
    "遠端的 "@ + branch
        + " 已經不是本機記錄的位置，可能有其他人推送過。請先取得更新再試，以免覆蓋掉別人的工作"@
}

pub open spec fn push_asks(step: Step, force: bool, phase: PushPhase, request: Request) -> bool {
    step == Step::Ask(Operation::Push(Pushing { force, phase }), request)
}

fn find_remote_head(heads: &Vec<RemoteHead>, name: &str) -> (r: Option<String>)
    ensures
        text::view_of(r) == remote_position(heads@, name@),
{
    let mut index: usize = 0;
    assert(heads@.skip(0) =~= heads@);
    while index < heads.len()
        invariant
            index <= heads@.len(),
            remote_position(heads@, name@) == remote_position(heads@.skip(index as int), name@),
        decreases heads@.len() - index,
    {
        assert(heads@.skip(index as int)[0] == heads@[index as int]);
        if text::same(heads[index].name.as_str(), name) {
            return Some(heads[index].oid.clone());
        }
        assert(heads@.skip(index as int).drop_first() =~= heads@.skip(index + 1));
        index += 1;
    }
    None
}

fn send(branch: String, remote: String, force: bool) -> (r: Step)
    ensures
        pushes(r, branch@, remote, force),
{
    let source = text::plus("refs/heads/".to_owned(), branch.as_str());
    let target = text::plus("refs/heads/".to_owned(), branch.as_str());
    let plain = text::plus(text::plus(source, ":"), target.as_str());
    let refspec = if force {
        text::plus("+".to_owned(), plain.as_str())
    } else {
        plain
    };
    assert(refspec@ =~= push_refspec(branch@, force));
    let verb = if force {
        "已強制推送 "
    } else {
        "已推送 "
    };
    let message = text::plus(verb.to_owned(), branch.as_str());
    let message = text::plus(text::plus(message, " 到 "), remote.as_str());
    assert(message@ =~= pushed_text(branch@, remote@, force));
    let outcome = OpOutcome { message, undo: None };
    Step::Ask(Operation::Plan(Plan { steps: Vec::new(), outcome }), Request::Push { remote, refspec })
}

impl Pushing {
    /// Whether the reply answers the request that was made.
    pub open spec fn expects(self, reply: Reply) -> bool {
        match self.phase {
            PushPhase::Head => reply is Head,
            PushPhase::Upstream { .. } => reply is Upstream,
            PushPhase::Remotes { .. } => reply is Remotes,
            PushPhase::RemoteHeads { .. } => reply is RemoteHeads,
        }
    }

    /// What follows a reply. A forced push goes ahead only if the remote branch is still
    /// where it was last seen, so that nobody's work is overwritten.
    pub open spec fn leads_to(self, reply: Reply, step: Step) -> bool {
        let force = self.force;
        match (self.phase, reply) {
            (PushPhase::Head, Reply::Head { is_branch, name }) => {
                if !is_branch {
                    refuses(step, "目前不在分支上（detached HEAD），無法推送"@)
                } else {
                    match name {
                        Some(branch) => push_asks(
                            step,
                            force,
                            PushPhase::Upstream { branch },
                            Request::ReadUpstream { branch },
                        ),
                        None => refuses(step, "分支名稱不是有效的 UTF-8"@),
                    }
                }
            },
            (PushPhase::Upstream { branch }, Reply::Upstream { target }) => push_asks(
                step,
                force,
                PushPhase::Remotes { branch, expected: target },
                Request::ReadRemotes,
            ),
            (PushPhase::Remotes { branch, expected }, Reply::Remotes { of_branch, names }) => {
                match chosen_remote(text::view_of(of_branch), text::views_of(names@)) {
                    Some(chosen) => if force {
                        step matches Step::Ask(
                            Operation::Push(Pushing { force: true, phase: PushPhase::RemoteHeads {
                                branch: next_branch,
                                expected: next_expected,
                                remote,
                            } }),
                            Request::ListRemote { remote: listed },
                        ) && next_branch == branch && next_expected == expected && remote == listed
                            && remote@ == chosen
                    } else {
                        exists|remote: String|
                            remote@ == chosen && #[trigger] pushes(step, branch@, remote, false)
                    },
                    None => refuses(step, "找不到可用的遠端"@),
                }
            },
            (
                PushPhase::RemoteHeads { branch, expected, remote },
                Reply::RemoteHeads(heads),
            ) => {
                if remote_position(heads@, branch_reference(branch@)) != text::view_of(expected) {
                    refuses(step, lease_text(branch@))
                } else {
                    pushes(step, branch@, remote, force)
                }
            },
            _ => true,
        }
    }

    pub fn advance(self, reply: Reply) -> (r: Step)
        requires
            self.expects(reply),
        ensures
            self.leads_to(reply, r),
    {
        let force = self.force;
        match (self.phase, reply) {
            (PushPhase::Head, Reply::Head { is_branch, name }) => {
                if !is_branch {
                    return refuse("目前不在分支上（detached HEAD），無法推送");
                }
                match name {
                    Some(branch) => {
                        let phase = PushPhase::Upstream { branch: branch.clone() };
                        Step::Ask(
                            Operation::Push(Pushing { force, phase }),
                            Request::ReadUpstream { branch },
                        )
                    }
                    None => refuse("分支名稱不是有效的 UTF-8"),
                }
            }
            (PushPhase::Upstream { branch }, Reply::Upstream { target }) => {
                let phase = PushPhase::Remotes { branch, expected: target };
                Step::Ask(Operation::Push(Pushing { force, phase }), Request::ReadRemotes)
            }
            (PushPhase::Remotes { branch, expected }, Reply::Remotes { of_branch, names }) => {
                match default_remote(of_branch, &names) {
                    Some(remote) => {
                        if force {
                            let listed = remote.clone();
                            let phase = PushPhase::RemoteHeads { branch, expected, remote };
                            Step::Ask(
                                Operation::Push(Pushing { force, phase }),
                                Request::ListRemote { remote: listed },
                            )
                        } else {
                            send(branch, remote, false)
                        }
                    }
                    None => refuse("找不到可用的遠端"),
                }
            }
            (
                PushPhase::RemoteHeads { branch, expected, remote },
                Reply::RemoteHeads(heads),
            ) => {
                let name = text::plus("refs/heads/".to_owned(), branch.as_str());
                let actual = find_remote_head(&heads, name.as_str());
                let held = match (&actual, &expected) {
                    (Some(actual), Some(expected)) => text::same(
                        actual.as_str(),
                        expected.as_str(),
                    ),
                    (None, None) => true,
                    _ => false,
                };
                if !held {
                    let message = text::plus("遠端的 ".to_owned(), branch.as_str());
                    let message = text::plus(
                        message,
                        " 已經不是本機記錄的位置，可能有其他人推送過。請先取得更新再試，以免覆蓋掉別人的工作",
                    );
                    return refuse(message.as_str());
                }
                send(branch, remote, force)
            }
            _ => vstd::pervasive::unreached(),
        }
    }
}

/// Sends the current branch to the branch it tracks. To force is needed after a rebase
/// alone.
pub fn push(force: bool) -> (r: Step)
    ensures
        is_start(r),
        push_asks(r, force, PushPhase::Head, Request::ReadHead),
{
    Step::Ask(Operation::Push(Pushing { force, phase: PushPhase::Head }), Request::ReadHead)
}

/// Giving up the operation in progress: which reply is awaited.
#[derive(Debug, Clone, Copy, PartialEq, Eq, Structural)]
pub enum Aborting {
    State,
    Head,
}

pub open spec fn plans_one(
    step: Step,
    first: Request,
    message: Seq<char>,
    undo: Option<SafetyPoint>,
) -> bool {
    step matches Step::Ask(Operation::Plan(rest), request) && request == first && rest.steps@.len()
        == 0 && rest.outcome.undo == undo && rest.outcome.message@ == message
}

pub open spec fn plans_two(
    step: Step,
    first: Request,
    second: Request,
    message: Seq<char>,
    undo: Option<SafetyPoint>,
) -> bool {
    step matches Step::Ask(Operation::Plan(rest), request) && request == first && rest.steps@
        == seq![second] && rest.outcome.undo == undo && rest.outcome.message@ == message
}

pub(crate) fn plan_one(first: Request, message: &str, undo: Option<SafetyPoint>) -> (r: Step)
    ensures
        plans_one(r, first, message@, undo),
{
    let outcome = OpOutcome { message: message.to_owned(), undo };
    Step::Ask(Operation::Plan(Plan { steps: Vec::new(), outcome }), first)
}

pub(crate) fn plan_two(
    first: Request,
    second: Request,
    message: &str,
    undo: Option<SafetyPoint>,
) -> (r: Step)
    ensures
        plans_two(r, first, second, message@, undo),
{
    let outcome = OpOutcome { message: message.to_owned(), undo };
    let mut steps: Vec<Request> = Vec::new();
    steps.push(second);
    assert(steps@ =~= seq![second]);
    Step::Ask(Operation::Plan(Plan { steps, outcome }), first)
}

impl Aborting {
    /// Whether the reply answers the request that was made.
    pub open spec fn expects(self, reply: Reply) -> bool {
        match self {
            Aborting::State => reply is State,
            Aborting::Head => reply is Commit,
        }
    }

    /// What follows a reply. A rebase is undone by git itself; a merge and the like leave
    /// their mark in files of the repository, so that it is enough to go back to HEAD and
    /// clear them.
    pub open spec fn leads_to(self, reply: Reply, step: Step) -> bool {
        match (self, reply) {
            (Aborting::State, Reply::State(state)) => {
                if state is Clean {
                    reports(step, "沒有進行中的操作"@, None)
                } else if state.rebasing() {
                    plans_one(
                        step,
                        Request::AbortRebase,
                        "已中止 rebase，回到操作前的狀態"@,
                        None,
                    )
                } else {
                    step == Step::Ask(Operation::Abort(Aborting::Head), Request::ReadHeadCommit)
                }
            },
            (Aborting::Head, Reply::Commit(head)) => plans_two(
                step,
                Request::ResetHard { oid: head },
                Request::CleanUpState,
                "已中止操作，回到操作前的狀態"@,
                None,
            ),
            _ => true,
        }
    }

    pub fn advance(self, reply: Reply) -> (r: Step)
        requires
            self.expects(reply),
        ensures
            self.leads_to(reply, r),
    {
        match (self, reply) {
            (Aborting::State, Reply::State(state)) => {
                if state == RepoState::Clean {
                    report("沒有進行中的操作", None)
                } else if state.is_rebasing() {
                    plan_one(Request::AbortRebase, "已中止 rebase，回到操作前的狀態", None)
                } else {
                    Step::Ask(Operation::Abort(Aborting::Head), Request::ReadHeadCommit)
                }
            }
            (Aborting::Head, Reply::Commit(head)) => plan_two(
                Request::ResetHard { oid: head },
                Request::CleanUpState,
                "已中止操作，回到操作前的狀態",
                None,
            ),
            _ => vstd::pervasive::unreached(),
        }
    }
}

/// Gives up the rebase or merge in progress.
pub fn abort_operation() -> (r: Step)
    ensures
        is_start(r),
        r == Step::Ask(Operation::Abort(Aborting::State), Request::ReadState),
{
    Step::Ask(Operation::Abort(Aborting::State), Request::ReadState)
}

/// Going back to a safety point: which reply is awaited.
#[derive(Debug)]
pub enum Undoing {
    Target,
    Facts { target: String },
    Kept { target: String, point: SafetyPoint },
}

pub open spec fn undone_text(target: Seq<char>) -> Seq<char> {
    "已還原到 "@ + short_oid(target)
}

fn reset_to(target: String, undo: Option<SafetyPoint>) -> (r: Step)
    ensures
        plans_one(r, Request::ResetHard { oid: target }, undone_text(target@), undo),
{
    let message = text::plus("已還原到 ".to_owned(), git::short(target.as_str()).as_str());
    plan_one(Request::ResetHard { oid: target }, message.as_str(), undo)
}

impl Undoing {
    /// Whether the reply answers the request that was made.
    pub open spec fn expects(self, reply: Reply) -> bool {
        match self {
            Undoing::Target => reply is Commit,
            Undoing::Facts { .. } => reply is MaybeFacts,
            Undoing::Kept { .. } => reply is Kept,
        }
    }

    /// What follows a reply. Going back keeps a safety point too, if it can, so that one
    /// can think better of it.
    pub open spec fn leads_to(self, reply: Reply, step: Step) -> bool {
        match (self, reply) {
            (Undoing::Target, Reply::Commit(target)) => {
                step == Step::Ask(
                    Operation::Undo(Undoing::Facts { target }),
                    Request::FindSafetyFacts,
                )
            },
            (Undoing::Facts { target }, Reply::MaybeFacts(facts)) => match facts {
                Some(facts) => {
                    step matches Step::Ask(
                        Operation::Undo(Undoing::Kept { target: next_target, point }),
                        Request::TrySafetyPoint { point: kept, log },
                    ) && next_target == target && point == kept && is_point_for(
                        point,
                        facts,
                        "undo"@,
                    ) && log@ == safety_log("undo"@)
                },
                None => plans_one(
                    step,
                    Request::ResetHard { oid: target },
                    undone_text(target@),
                    None,
                ),
            },
            (Undoing::Kept { target, point }, Reply::Kept(kept)) => plans_one(
                step,
                Request::ResetHard { oid: target },
                undone_text(target@),
                if kept {
                    Some(point)
                } else {
                    None
                },
            ),
            _ => true,
        }
    }

    pub fn advance(self, reply: Reply) -> (r: Step)
        requires
            self.expects(reply),
        ensures
            self.leads_to(reply, r),
    {
        match (self, reply) {
            (Undoing::Target, Reply::Commit(target)) => Step::Ask(
                Operation::Undo(Undoing::Facts { target }),
                Request::FindSafetyFacts,
            ),
            (Undoing::Facts { target }, Reply::MaybeFacts(facts)) => match facts {
                Some(facts) => {
                    let (point, log) = create_safety_point(facts, "undo");
                    let request = Request::TrySafetyPoint { point: point.clone(), log };
                    Step::Ask(Operation::Undo(Undoing::Kept { target, point }), request)
                }
                None => reset_to(target, None),
            },
            (Undoing::Kept { target, point }, Reply::Kept(kept)) => {
                if kept {
                    reset_to(target, Some(point))
                } else {
                    reset_to(target, None)
                }
            }
            _ => vstd::pervasive::unreached(),
        }
    }
}

/// What going back to a safety point begins with.
pub open spec fn begins_undo(step: Step, reference: Seq<char>) -> bool {
    if UNDO_NAMESPACE@.is_prefix_of(reference) {
        step matches Step::Ask(Operation::Undo(Undoing::Target), Request::ReadReference {
            reference: named,
        }) && named@ == reference
    } else {
        refuses(step, "只能還原到 gitview 建立的還原點"@)
    }
}

/// Goes back to a safety point.
///
/// This moves the current branch and overwrites the working tree, so that whoever calls
/// it has to ask the user first. No other reference is accepted.
pub fn undo_to(reference: &str) -> (r: Step)
    ensures
        is_start(r),
        begins_undo(r, reference@),
{
    if !text::starts_with(reference, UNDO_NAMESPACE) {
        return refuse("只能還原到 gitview 建立的還原點");
    }
    Step::Ask(
        Operation::Undo(Undoing::Target),
        Request::ReadReference { reference: reference.to_owned() },
    )
}

/// A reference as it was read. Its name may not be UTF-8, and it may point to another
/// reference in place of a commit.
#[derive(Debug)]
pub struct RawReference {
    pub name: Option<String>,
    pub target: Option<String>,
}

/// When and for which operation a safety point was made, by the last part of its name.
pub open spec fn point_facts(name: Seq<char>) -> (u64, Seq<char>) {
    let tail = text::after_last(name, '/');
    let dash = text::first_index(tail, '-', 0);
    if dash < tail.len() {
        (
            match text::number_in(tail.take(dash)) {
                Some(created) => created,
                None => 0,
            },
            tail.skip(dash + 1),
        )
    } else {
        (0, tail)
    }
}

/// What a [`SafetyPoint`] holds.
pub struct Point {
    pub reference: Seq<char>,
    pub oid: Seq<char>,
    pub operation: Seq<char>,
    pub created_unix: u64,
}

impl View for SafetyPoint {
    type V = Point;

    open spec fn view(&self) -> Point {
        Point {
            reference: self.reference@,
            oid: self.oid@,
            operation: self.operation@,
            created_unix: self.created_unix,
        }
    }
}

/// The safety points under references: those with a name and a commit.
pub open spec fn points_under(references: Seq<RawReference>) -> Seq<Point>
    decreases references.len(),
{
    if references.len() == 0 {
        Seq::empty()
    } else {
        let before = points_under(references.drop_last());
        match (references.last().name, references.last().target) {
            (Some(name), Some(target)) => before.push(
                Point {
                    reference: name@,
                    oid: target@,
                    operation: point_facts(name@).1,
                    created_unix: point_facts(name@).0,
                },
            ),
            _ => before,
        }
    }
}

/// The order of safety points: the latest first.
pub open spec fn later_first() -> spec_fn(Point, Point) -> bool {
    |a: Point, b: Point| a.created_unix > b.created_unix
}

pub open spec fn points_view(points: Seq<SafetyPoint>) -> Seq<Point> {
    points.map_values(|point: SafetyPoint| point@)
}

fn is_later(a: &SafetyPoint, b: &SafetyPoint) -> (r: bool)
    ensures
        r == later_first()(a@, b@),
{
    a.created_unix > b.created_unix
}

fn read_point(name: String, oid: String) -> (r: SafetyPoint)
    ensures
        r.reference == name,
        r.oid == oid,
        r.created_unix == point_facts(name@).0,
        r.operation@ == point_facts(name@).1,
{
    let tail = text::last_part(name.as_str(), '/');
    match text::split_first(tail.as_str(), '-') {
        Some((created, operation)) => {
            let created_unix = match text::parse_number(created.as_str()) {
                Some(value) => value,
                None => 0,
            };
            SafetyPoint { reference: name, oid, operation, created_unix }
        }
        None => SafetyPoint { reference: name, oid, operation: tail, created_unix: 0 },
    }
}

/// Whether these are the safety points under the given references.
pub open spec fn lists_points(points: Seq<SafetyPoint>, references: Seq<RawReference>) -> bool {
    points_view(points) == sorted(points_under(references), later_first())
}

/// The safety points, the latest first.
pub fn list_safety_points(references: Vec<RawReference>) -> (r: Vec<SafetyPoint>)
    ensures
        lists_points(r@, references@),
{
    let mut points: Vec<SafetyPoint> = Vec::new();
    for reference in rest: references
        invariant
            rest.seq() == references@,
            points_view(points@) == points_under(references@.take(rest.index() as int)),
    {
        proof {
            let seen = references@.take(rest.index() + 1);
            assert(seen.drop_last() =~= references@.take(rest.index() as int));
            assert(seen.last() == reference);
        }
        let ghost held = points@;
        if let (Some(name), Some(oid)) = (reference.name, reference.target) {
            let point = read_point(name, oid);
            points.push(point);
            assert(points_view(points@) =~= points_view(held).push(point@));
        }
    }
    assert(references@.take(references@.len() as int) =~= references@);
    let ghost before = |a: SafetyPoint, b: SafetyPoint| later_first()(a@, b@);
    proof {
        sorting_of_views(points@, before, |point: SafetyPoint| point@, later_first());
    }
    stable_sort(points, is_later, Ghost(before))
}

/// The names of the safety points beyond the first `keep`.
pub open spec fn names_beyond(points: Seq<SafetyPoint>, keep: usize) -> Seq<Seq<char>> {
    if keep >= points.len() {
        Seq::<Seq<char>>::empty()
    } else {
        Seq::new((points.len() - keep) as nat, |i: int| points[keep + i].reference@)
    }
}

/// The references of the safety points beyond the latest `keep`: those to be removed, so
/// that what they hold can be collected.
pub fn prune_safety_points(points: &Vec<SafetyPoint>, keep: usize) -> (r: Vec<String>)
    ensures
        text::views_of(r@) == names_beyond(points@, keep),
{
    let mut names: Vec<String> = Vec::new();
    let mut index: usize = keep;
    while index < points.len()
        invariant
            keep <= index,
            index <= points@.len() || index == keep,
            names@.len() == index - keep,
            forall|i: int| 0 <= i < names@.len() ==> (#[trigger] names@[i])@ == points@[keep + i].reference@,
        decreases points@.len() - index,
    {
        names.push(points[index].reference.clone());
        index += 1;
    }
    assert(text::views_of(names@) =~= names_beyond(points@, keep));
    names
}

} // verus!
