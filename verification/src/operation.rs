//! Operations as conversations with a repository.
//!
//! An operation decides and asks; whoever runs it carries out each request, one at a
//! time, and hands the reply back until the operation is done or refuses. Failures of
//! the repository itself end the conversation and never reach the operation.
use vstd::prelude::*;

use crate::conflict::Finishing;
use crate::diff::DiffSource;
use crate::git::RepoState;
use crate::ops::{Aborting, OpOutcome, Pushing, Replay, SafetyPoint, Syncing, Undoing};
use crate::patch::{counts_fit, RawDelta};
use crate::selection::Selecting;
use crate::workspace::{Branching, Committing, Staging, Stashing};

verus! {

/// What a safety point is made of.
#[derive(Debug)]
pub struct SafetyFacts {
    /// The commit to come back to.
    pub head: String,
    /// The time, in Unix seconds.
    pub now: u64,
}

/// What is known of a branch that is to be deleted.
#[derive(Debug)]
pub struct BranchFacts {
    pub tip: String,
    pub is_head: bool,
    /// Whether HEAD reaches the tip.
    pub merged: bool,
}

/// A branch of the remote and the commit it is at.
#[derive(Debug)]
pub struct RemoteHead {
    pub name: String,
    pub oid: String,
}

/// What an operation asks of the repository.
#[derive(Debug)]
pub enum Request {
    /// Which operation is in progress?
    ReadState,
    /// Is HEAD on a branch, and on which?
    ReadHead,
    /// Where is the branch that the given branch tracks?
    ReadUpstream { branch: String },
    /// Which commit is HEAD at?
    ReadHeadCommit,
    /// Which commit is HEAD at, if there is one yet?
    FindHeadCommit,
    /// What is HEAD called, if it can be told?
    FindHeadName,
    /// Which commit is being merged?
    ReadMergeHead,
    /// Which commit is a reference at?
    ReadReference { reference: String },
    /// How far are two commits apart?
    Compare { local: String, upstream: String },
    /// Are there uncommitted changes to tracked files?
    ReadWorkTree,
    /// Are there unresolved conflicts in the index?
    ReadConflicts,
    /// Is there an identity to commit under?
    ReadIdentity,
    /// What goes into a safety point?
    ReadSafetyFacts,
    /// What goes into a safety point, if it can be told?
    FindSafetyFacts,
    /// Which remotes are there, and which one does the current branch track?
    ReadRemotes,
    /// Which branches does the remote have right now?
    ListRemote { remote: String },
    /// Does a file exist in the working tree?
    FindFile { path: String },
    /// What is known of a local branch?
    ReadBranch { name: String },
    /// Is there a remote-tracking branch of this name?
    FindRemoteBranch { name: String },
    /// How do two versions differ?
    ReadDeltas { source: DiffSource },
    /// What does the index hold for a path?
    ReadIndexFile { path: String },
    /// What does HEAD hold for a path?
    ReadHeadFile { path: String },
    /// Keep a commit under a reference.
    WriteSafetyPoint { point: SafetyPoint, log: String },
    /// Keep a commit under a reference; to fail is no failure.
    TrySafetyPoint { point: SafetyPoint, log: String },
    /// Update the working tree and the index to a commit.
    CheckoutCommit { oid: String },
    /// Move the current branch.
    MoveHead { oid: String, log: String },
    /// Begin to reapply the local commits onto a commit.
    StartRebase { upstream: String },
    /// Take up the rebase in progress.
    OpenRebase,
    /// Apply the next commit.
    NextRebaseStep,
    /// Commit what was applied. Where `allow_empty` is set, nothing to commit is no
    /// failure.
    CommitRebaseStep { allow_empty: bool },
    FinishRebase,
    AbortRebase,
    /// Begin to merge a commit.
    StartMerge { upstream: String },
    /// Write the index out as a tree.
    WriteTree,
    /// Commit a tree on HEAD.
    CreateCommit { message: String, tree: String, parents: Vec<String> },
    /// Replace the commit HEAD is at.
    AmendCommit { oid: String, message: String, tree: String },
    /// Forget the operation in progress.
    CleanUpState,
    /// Move the current branch, the index and the working tree to a commit, and forget
    /// the operation in progress.
    ResetHard { oid: String },
    /// Take the index and the working tree to a commit. The operation in progress stays.
    DropChanges { oid: String },
    /// Move the current branch and the index to a commit.
    ResetMixed { oid: String },
    /// Take paths in the index back to a commit.
    ResetPaths { oid: String, paths: Vec<String> },
    ClearIndex,
    StageAll,
    StageFile { path: String },
    StageRemoval { path: String },
    WriteIndex,
    /// Take files in the working tree back to HEAD.
    RestoreFiles { paths: Vec<String> },
    /// Update the working tree and the index to a branch, unless that loses changes.
    CheckoutBranch { name: String },
    SetHead { reference: String },
    CreateBranch { name: String, oid: String },
    DeleteBranch { name: String },
    RenameBranch { from: String, to: String },
    SetUpstream { name: String, onto: Option<String> },
    StashSave { label: String },
    StashPop { index: usize },
    StashDrop { index: usize },
    /// Send a branch to a remote.
    Push { remote: String, refspec: String },
    WriteFile { path: String, content: String },
    /// Delete a file in the working tree; to fail is no failure.
    DeleteFile { path: String },
    MarkResolved { path: String },
    RemoveFromIndex { path: String },
    WriteIndexFile { path: String, content: String },
}

impl Request {
    /// Whether the request only looks.
    pub open spec fn only_reads(self) -> bool {
        match self {
            Request::ReadState => true,
            Request::ReadHead => true,
            Request::ReadUpstream { .. } => true,
            Request::ReadHeadCommit => true,
            Request::FindHeadCommit => true,
            Request::FindHeadName => true,
            Request::ReadMergeHead => true,
            Request::ReadReference { .. } => true,
            Request::Compare { .. } => true,
            Request::ReadWorkTree => true,
            Request::ReadConflicts => true,
            Request::ReadIdentity => true,
            Request::ReadSafetyFacts => true,
            Request::FindSafetyFacts => true,
            Request::ReadRemotes => true,
            Request::ListRemote { .. } => true,
            Request::FindFile { .. } => true,
            Request::ReadBranch { .. } => true,
            Request::FindRemoteBranch { .. } => true,
            Request::ReadDeltas { .. } => true,
            Request::ReadIndexFile { .. } => true,
            Request::ReadHeadFile { .. } => true,
            _ => false,
        }
    }

    /// Whether the request keeps a commit under a reference of its own.
    pub open spec fn keeps_safe(self) -> bool {
        self is WriteSafetyPoint || self is TrySafetyPoint
    }

    /// Whether a reply is of the kind that the request is answered with.
    pub open spec fn answered_by(self, reply: Reply) -> bool {
        match self {
            Request::ReadState => reply is State,
            Request::ReadHead => reply is Head,
            Request::ReadUpstream { .. } => reply is Upstream,
            Request::ReadHeadCommit => reply is Commit,
            Request::FindHeadCommit => reply is MaybeCommit,
            Request::FindHeadName => reply is Name,
            Request::ReadMergeHead => reply is Commit,
            Request::ReadReference { .. } => reply is Commit,
            Request::Compare { .. } => reply is Distance,
            Request::ReadWorkTree => reply is WorkTree,
            Request::ReadConflicts => reply is Conflicts,
            Request::ReadSafetyFacts => reply is Facts,
            Request::FindSafetyFacts => reply is MaybeFacts,
            Request::ReadRemotes => reply is Remotes,
            Request::ListRemote { .. } => reply is RemoteHeads,
            Request::FindFile { .. } => reply is Found,
            Request::ReadBranch { .. } => reply is Branch,
            Request::FindRemoteBranch { .. } => reply is Found,
            Request::ReadDeltas { .. } => {
                &&& reply is Deltas
                &&& forall|i: int|
                    0 <= i < reply->Deltas_0@.len() ==> counts_fit(#[trigger] reply->Deltas_0@[i])
            },
            Request::ReadIndexFile { .. } => reply is File,
            Request::ReadHeadFile { .. } => reply is File,
            Request::TrySafetyPoint { .. } => reply is Kept,
            Request::NextRebaseStep => reply is Step,
            Request::CommitRebaseStep { allow_empty } => reply matches Reply::Committed { empty }
                && (empty ==> allow_empty),
            Request::WriteTree => reply is Tree,
            Request::CreateCommit { .. } => reply is Commit,
            Request::StashSave { .. } => reply is Commit,
            _ => reply is Done,
        }
    }

    /// Whether the request changes something that a user can lose.
    pub open spec fn changes(self) -> bool {
        !self.only_reads() && !self.keeps_safe() && !(self is WriteTree)
    }
}

/// What came of applying the next commit of a rebase.
#[derive(Debug, Clone, Copy, PartialEq, Eq, Structural)]
pub enum RebaseStep {
    /// There was none left.
    End,
    /// It was applied and left conflicts.
    Conflicted,
    /// It was applied.
    Applied,
}

/// What the repository answers.
#[derive(Debug)]
pub enum Reply {
    Done,
    State(RepoState),
    Head { is_branch: bool, name: Option<String> },
    Upstream { target: Option<String> },
    Commit(String),
    MaybeCommit(Option<String>),
    Name(Option<String>),
    Distance { ahead: usize, behind: usize },
    WorkTree { is_bare: bool, has_changes: bool },
    Conflicts(bool),
    Facts(SafetyFacts),
    MaybeFacts(Option<SafetyFacts>),
    Kept(bool),
    Remotes { of_branch: Option<String>, names: Vec<String> },
    RemoteHeads(Vec<RemoteHead>),
    Found(bool),
    Branch(BranchFacts),
    Deltas(Vec<RawDelta>),
    File(Option<Vec<u8>>),
    Tree(String),
    Step(RebaseStep),
    Committed { empty: bool },
}

/// An operation that waits for a reply.
#[derive(Debug)]
pub enum Operation {
    Sync(Syncing),
    Replay(Replay),
    Push(Pushing),
    Abort(Aborting),
    Undo(Undoing),
    Finish(Finishing),
    Commit(Committing),
    Stage(Staging),
    Branch(Branching),
    Stash(Stashing),
    Select(Selecting),
    Plan(Plan),
}

/// What happens next.
#[derive(Debug)]
pub enum Step {
    /// Carry the request out and hand the reply to the operation.
    Ask(Operation, Request),
    /// The operation is complete.
    Finished(OpOutcome),
    /// A condition of the operation is not met; the text says which.
    Refused(String),
}

/// Whether an operation can begin with this step.
pub open spec fn is_start(step: Step) -> bool {
    match step {
        Step::Ask(operation, request) => match operation {
            Operation::Sync(inner) => inner.phase is State && request is ReadState,
            Operation::Push(inner) => inner.phase is Head && request is ReadHead,
            Operation::Abort(inner) => inner is State && request is ReadState,
            Operation::Undo(inner) => inner is Target && request is ReadReference,
            Operation::Finish(inner) => {
                ||| inner is Conflicts && request is ReadConflicts
                ||| inner is SkipState && request is ReadState
            },
            Operation::Commit(inner) => inner is Identity && request is ReadIdentity,
            Operation::Stage(inner) => {
                ||| inner matches Staging::Found { paths, at } && at < paths@.len() && request is FindFile
                ||| inner is Head && request is FindHeadCommit
            },
            Operation::Branch(inner) => {
                ||| inner is CreateHead && request is ReadHeadCommit
                ||| inner is DeleteFacts && request is ReadBranch
                ||| inner is UpstreamFound && request is FindRemoteBranch
            },
            Operation::Stash(inner) => inner is Identity && request is ReadIdentity,
            Operation::Select(inner) => inner is Deltas && request is ReadDeltas,
            Operation::Plan(inner) => inner.outcome.undo is None && inner.only_acts()
                && request.answered_by(Reply::Done),
            Operation::Replay(_) => false,
        },
        _ => true,
    }
}

/// Requests to be made one after the other, and what to report once they are.
#[derive(Debug)]
pub struct Plan {
    pub steps: Vec<Request>,
    pub outcome: OpOutcome,
}

impl Plan {
    /// Whether all that is planned is answered with nothing but that it is done.
    pub open spec fn only_acts(self) -> bool {
        forall|i: int|
            0 <= i < self.steps@.len() ==> (#[trigger] self.steps@[i]).answered_by(Reply::Done)
    }

    /// What follows where the given requests are still to be made.
    pub open spec fn goes_on(self, step: Step) -> bool {
        if self.steps@.len() == 0 {
            step == Step::Finished(self.outcome)
        } else {
            step matches Step::Ask(Operation::Plan(rest), request) && request == self.steps@[0]
                && rest.steps@ == self.steps@.skip(1) && rest.outcome == self.outcome
        }
    }

    pub fn go_on(self) -> (r: Step)
        ensures
            self.goes_on(r),
    {
        let Plan { steps, outcome } = self;
        let mut steps = steps;
        if steps.len() == 0 {
            return Step::Finished(outcome);
        }
        let request = steps.remove(0);
        assert(steps@ =~= self.steps@.skip(1));
        Step::Ask(Operation::Plan(Plan { steps, outcome }), request)
    }
}

impl Operation {
    /// Whether the reply answers the request that was made.
    pub open spec fn expects(self, reply: Reply) -> bool {
        match self {
            Operation::Sync(inner) => inner.expects(reply),
            Operation::Replay(inner) => inner.expects(reply),
            Operation::Push(inner) => inner.expects(reply),
            Operation::Abort(inner) => inner.expects(reply),
            Operation::Undo(inner) => inner.expects(reply),
            Operation::Finish(inner) => inner.expects(reply),
            Operation::Commit(inner) => inner.expects(reply),
            Operation::Stage(inner) => inner.expects(reply),
            Operation::Branch(inner) => inner.expects(reply),
            Operation::Stash(inner) => inner.expects(reply),
            Operation::Select(inner) => inner.expects(reply),
            Operation::Plan(_) => reply is Done,
        }
    }

    /// What follows a reply.
    pub open spec fn leads_to(self, reply: Reply, step: Step) -> bool {
        match self {
            Operation::Sync(inner) => inner.leads_to(reply, step),
            Operation::Replay(inner) => inner.leads_to(reply, step),
            Operation::Push(inner) => inner.leads_to(reply, step),
            Operation::Abort(inner) => inner.leads_to(reply, step),
            Operation::Undo(inner) => inner.leads_to(reply, step),
            Operation::Finish(inner) => inner.leads_to(reply, step),
            Operation::Commit(inner) => inner.leads_to(reply, step),
            Operation::Stage(inner) => inner.leads_to(reply, step),
            Operation::Branch(inner) => inner.leads_to(reply, step),
            Operation::Stash(inner) => inner.leads_to(reply, step),
            Operation::Select(inner) => inner.leads_to(reply, step),
            Operation::Plan(inner) => inner.goes_on(step),
        }
    }

    /// Takes the reply to the request that was made, and says what happens next.
    pub fn advance(self, reply: Reply) -> (r: Step)
        requires
            self.expects(reply),
        ensures
            self.leads_to(reply, r),
    {
        match self {
            Operation::Sync(inner) => inner.advance(reply),
            Operation::Replay(inner) => inner.advance(reply),
            Operation::Push(inner) => inner.advance(reply),
            Operation::Abort(inner) => inner.advance(reply),
            Operation::Undo(inner) => inner.advance(reply),
            Operation::Finish(inner) => inner.advance(reply),
            Operation::Commit(inner) => inner.advance(reply),
            Operation::Stage(inner) => inner.advance(reply),
            Operation::Branch(inner) => inner.advance(reply),
            Operation::Stash(inner) => inner.advance(reply),
            Operation::Select(inner) => inner.advance(reply),
            Operation::Plan(inner) => inner.go_on(),
        }
    }
}

} // verus!
