//! The working tree: staging, committing, branches, stashes.
//!
//! As in [`crate::ops`], an operation whose conditions are not met refuses. What destroys
//! content has to be confirmed by whoever calls it.
use vstd::prelude::*;

use crate::git;
use crate::git::short_oid;
use crate::operation::{
    is_start, BranchFacts, Operation, Plan, Reply, Request, SafetyFacts, Step,
};
use crate::ops;
use crate::ops::{
    is_point_for, plans_one, plans_two, refuses, reports, safety_log, OpOutcome, SafetyPoint,
};
use crate::sorting::{sorted, sorting_of_views, stable_sort};
use crate::text;
use crate::text::{blank, decimal_digits, lossy_text, precedes};

pub use crate::selection::{stage_selection, unstage_selection, LineRef};

verus! {

/// What happened to a file.
#[derive(Debug)]
pub struct FileChange {
    pub path: String,
    /// What is staged: `new`, `modified`, `deleted`, `renamed` or `none`.
    pub staged: &'static str,
    /// What is not staged, in the same words.
    pub unstaged: &'static str,
    pub is_untracked: bool,
    pub is_conflicted: bool,
}

/// What a [`FileChange`] holds.
pub struct Change {
    pub path: Seq<char>,
    pub staged: Seq<char>,
    pub unstaged: Seq<char>,
    pub is_untracked: bool,
    pub is_conflicted: bool,
}

impl View for FileChange {
    type V = Change;

    open spec fn view(&self) -> Change {
        Change {
            path: self.path@,
            staged: self.staged@,
            unstaged: self.unstaged@,
            is_untracked: self.is_untracked,
            is_conflicted: self.is_conflicted,
        }
    }
}

/// A branch.
#[derive(Debug)]
pub struct BranchInfo {
    pub name: String,
    pub is_head: bool,
    pub is_remote: bool,
    pub upstream: Option<String>,
}

/// What a [`BranchInfo`] holds.
pub struct Branch {
    pub name: Seq<char>,
    pub is_head: bool,
    pub is_remote: bool,
    pub upstream: Option<Seq<char>>,
}

impl View for BranchInfo {
    type V = Branch;

    open spec fn view(&self) -> Branch {
        Branch {
            name: self.name@,
            is_head: self.is_head,
            is_remote: self.is_remote,
            upstream: text::view_of(self.upstream),
        }
    }
}

/// An entry of the stash.
#[derive(Debug)]
pub struct StashEntry {
    pub index: usize,
    pub message: String,
}

/// What the status bits say of the index.
pub open spec fn staged_word(bits: u32) -> Seq<char> {
    if bits & 0x1 != 0 {
        "new"@
    } else if bits & 0x2 != 0 {
        "modified"@
    } else if bits & 0x4 != 0 {
        "deleted"@
    } else if bits & 0x8 != 0 || bits & 0x10 != 0 {
        "renamed"@
    } else {
        "none"@
    }
}

/// What the status bits say of the working tree.
pub open spec fn unstaged_word(bits: u32) -> Seq<char> {
    if bits & 0x80 != 0 {
        "new"@
    } else if bits & 0x100 != 0 {
        "modified"@
    } else if bits & 0x200 != 0 {
        "deleted"@
    } else if bits & 0x800 != 0 || bits & 0x400 != 0 {
        "renamed"@
    } else {
        "none"@
    }
}

/// What the status bits say of the index.
pub fn staged_kind(bits: u32) -> (r: &'static str)
    ensures
        r@ == staged_word(bits),
{
    if git::is_index_new(bits) {
        "new"
    } else if git::is_index_modified(bits) {
        "modified"
    } else if git::is_index_deleted(bits) {
        "deleted"
    } else if git::is_index_renamed(bits) || git::is_index_typechange(bits) {
        "renamed"
    } else {
        "none"
    }
}

/// What the status bits say of the working tree.
pub fn unstaged_kind(bits: u32) -> (r: &'static str)
    ensures
        r@ == unstaged_word(bits),
{
    if git::is_wt_new(bits) {
        "new"
    } else if git::is_wt_modified(bits) {
        "modified"
    } else if git::is_wt_deleted(bits) {
        "deleted"
    } else if git::is_wt_renamed(bits) || git::is_wt_typechange(bits) {
        "renamed"
    } else {
        "none"
    }
}

/// The status of a file as it was read.
#[derive(Debug)]
pub struct RawStatus {
    pub path: Vec<u8>,
    pub bits: u32,
}

pub open spec fn change_of(status: RawStatus) -> Change {
    Change {
        path: lossy_text(status.path@),
        staged: staged_word(status.bits),
        unstaged: unstaged_word(status.bits),
        is_untracked: status.bits & 0x80 != 0,
        is_conflicted: status.bits & 0x8000 != 0,
    }
}

pub open spec fn changes_of(statuses: Seq<RawStatus>) -> Seq<Change> {
    statuses.map_values(|status: RawStatus| change_of(status))
}

pub open spec fn changes_view(changes: Seq<FileChange>) -> Seq<Change> {
    changes.map_values(|change: FileChange| change@)
}

pub open spec fn change_order() -> spec_fn(Change, Change) -> bool {
    |a: Change, b: Change| precedes(a.path, b.path)
}

fn change_precedes(a: &FileChange, b: &FileChange) -> (r: bool)
    ensures
        r == change_order()(a@, b@),
{
    text::less(a.path.as_str(), b.path.as_str())
}

/// Whether these are the files with changes.
pub open spec fn lists_changes(
    changes: Seq<FileChange>,
    is_bare: bool,
    statuses: Seq<RawStatus>,
) -> bool {
    changes_view(changes) == if is_bare {
        Seq::empty()
    } else {
        sorted(changes_of(statuses), change_order())
    }
}

/// The files with changes, by their paths. A bare repository has none.
pub fn changes(is_bare: bool, statuses: &Vec<RawStatus>) -> (r: Vec<FileChange>)
    ensures
        lists_changes(r@, is_bare, statuses@),
{
    let mut changes: Vec<FileChange> = Vec::new();
    if is_bare {
        assert(changes_view(changes@) =~= Seq::empty());
        return changes;
    }
    let mut index: usize = 0;
    while index < statuses.len()
        invariant
            index <= statuses@.len(),
            changes_view(changes@) == changes_of(statuses@).take(index as int),
        decreases statuses@.len() - index,
    {
        let status = &statuses[index];
        let ghost held = changes@;
        let change = FileChange {
            path: text::decode_lossy(status.path.as_slice()),
            staged: staged_kind(status.bits),
            unstaged: unstaged_kind(status.bits),
            is_untracked: git::is_wt_new(status.bits),
            is_conflicted: git::is_conflicted(status.bits),
        };
        assert(change@ == change_of(*status));
        changes.push(change);
        index += 1;
        assert(changes_view(changes@) =~= changes_view(held).push(change@));
        assert(changes_of(statuses@).take(index as int) =~= changes_of(statuses@).take(
            index - 1,
        ).push(change@));
    }
    assert(changes_of(statuses@).take(index as int) =~= changes_of(statuses@));
    let ghost before = |a: FileChange, b: FileChange| change_order()(a@, b@);
    proof {
        sorting_of_views(changes@, before, |change: FileChange| change@, change_order());
    }
    stable_sort(changes, change_precedes, Ghost(before))
}

/// A branch as it was read. Its name may not be UTF-8.
#[derive(Debug)]
pub struct RawBranch {
    pub name: Option<String>,
    pub is_head: bool,
    pub is_remote: bool,
    pub upstream: Option<String>,
}

/// The branches with a name.
pub open spec fn named_branches(branches: Seq<RawBranch>) -> Seq<Branch>
    decreases branches.len(),
{
    if branches.len() == 0 {
        Seq::empty()
    } else {
        let before = named_branches(branches.drop_last());
        let last = branches.last();
        match last.name {
            Some(name) => before.push(
                Branch {
                    name: name@,
                    is_head: last.is_head,
                    is_remote: last.is_remote,
                    upstream: text::view_of(last.upstream),
                },
            ),
            None => before,
        }
    }
}

pub open spec fn branches_view(branches: Seq<BranchInfo>) -> Seq<Branch> {
    branches.map_values(|branch: BranchInfo| branch@)
}

/// Local branches come first, and each kind is listed by name.
pub open spec fn branch_order() -> spec_fn(Branch, Branch) -> bool {
    |a: Branch, b: Branch|
        if a.is_remote != b.is_remote {
            b.is_remote
        } else {
            precedes(a.name, b.name)
        }
}

fn branch_precedes(a: &BranchInfo, b: &BranchInfo) -> (r: bool)
    ensures
        r == branch_order()(a@, b@),
{
    if a.is_remote != b.is_remote {
        b.is_remote
    } else {
        text::less(a.name.as_str(), b.name.as_str())
    }
}

/// Whether these are the local and the remote branches.
pub open spec fn lists_branches(branches: Seq<BranchInfo>, raw: Seq<RawBranch>) -> bool {
    branches_view(branches) == sorted(named_branches(raw), branch_order())
}

/// The local and the remote branches.
pub fn branches(raw: Vec<RawBranch>) -> (r: Vec<BranchInfo>)
    ensures
        lists_branches(r@, raw@),
{
    let mut result: Vec<BranchInfo> = Vec::new();
    for branch in rest: raw
        invariant
            rest.seq() == raw@,
            branches_view(result@) == named_branches(raw@.take(rest.index() as int)),
    {
        proof {
            let seen = raw@.take(rest.index() + 1);
            assert(seen.drop_last() =~= raw@.take(rest.index() as int));
            assert(seen.last() == branch);
        }
        let ghost held = result@;
        if let Some(name) = branch.name {
            let info = BranchInfo {
                name,
                is_head: branch.is_head,
                is_remote: branch.is_remote,
                upstream: branch.upstream,
            };
            result.push(info);
            assert(branches_view(result@) =~= branches_view(held).push(info@));
        }
    }
    assert(raw@.take(raw@.len() as int) =~= raw@);
    let ghost before = |a: BranchInfo, b: BranchInfo| branch_order()(a@, b@);
    proof {
        sorting_of_views(result@, before, |branch: BranchInfo| branch@, branch_order());
    }
    stable_sort(result, branch_precedes, Ghost(before))
}

/// Whether these are the entries of the stash with the given messages.
pub open spec fn lists_stashes(entries: Seq<StashEntry>, messages: Seq<String>) -> bool {
    &&& entries.len() == messages.len()
    &&& forall|i: int|
        0 <= i < entries.len() ==> (#[trigger] entries[i]).index == i && entries[i].message
            == messages[i]
}

/// The entries of the stash, numbered from the latest.
pub fn stashes(messages: Vec<String>) -> (r: Vec<StashEntry>)
    ensures
        lists_stashes(r@, messages@),
{
    let mut entries: Vec<StashEntry> = Vec::new();
    for message in rest: messages
        invariant
            rest.seq() == messages@,
            entries@.len() == rest.index(),
            forall|i: int|
                0 <= i < entries@.len() ==> (#[trigger] entries@[i]).index == i
                    && entries@[i].message == messages@[i],
    {
        let index = entries.len();
        entries.push(StashEntry { index, message });
    }
    entries
}

/// Putting files into the index or taking them out: which reply is awaited.
#[derive(Debug)]
pub enum Staging {
    /// Whether the file at position `at` exists.
    Found { paths: Vec<String>, at: usize },
    /// The file before position `at` is in the index.
    Staged { paths: Vec<String>, at: usize },
    Head { paths: Vec<String> },
}

pub open spec fn staged_text(count: nat) -> Seq<char> {
    "已暫存 "@ + decimal_digits(count) + " 個檔案"@
}

pub open spec fn stages(step: Step, next: Staging, request: Request) -> bool {
    step == Step::Ask(Operation::Stage(next), request)
}

/// What follows once the first `at` files are in the index.
pub open spec fn stages_from(step: Step, paths: Vec<String>, at: int) -> bool {
    if at < paths@.len() {
        stages(
            step,
            Staging::Found { paths, at: at as usize },
            Request::FindFile { path: paths@[at] },
        )
    } else {
        plans_one(step, Request::WriteIndex, staged_text(paths@.len()), None)
    }
}

impl Staging {
    /// Whether the reply answers the request that was made.
    pub open spec fn expects(self, reply: Reply) -> bool {
        match self {
            Staging::Found { paths, at } => reply is Found && at < paths@.len(),
            Staging::Staged { paths, at } => reply is Done && at <= paths@.len(),
            Staging::Head { .. } => reply is MaybeCommit,
        }
    }

    /// What follows a reply. A file that is gone is staged as a removal.
    pub open spec fn leads_to(self, reply: Reply, step: Step) -> bool {
        match (self, reply) {
            (Staging::Found { paths, at }, Reply::Found(exists)) => stages(
                step,
                Staging::Staged { paths, at: (at + 1) as usize },
                if exists {
                    Request::StageFile { path: paths@[at as int] }
                } else {
                    Request::StageRemoval { path: paths@[at as int] }
                },
            ),
            (Staging::Staged { paths, at }, Reply::Done) => stages_from(step, paths, at as int),
            (Staging::Head { paths }, Reply::MaybeCommit(head)) => match head {
                None => plans_two(
                    step,
                    Request::ClearIndex,
                    Request::WriteIndex,
                    "已取消暫存"@,
                    None,
                ),
                Some(oid) => if paths@.len() == 0 {
                    plans_one(step, Request::ResetMixed { oid }, "已取消暫存"@, None)
                } else {
                    plans_one(step, Request::ResetPaths { oid, paths }, "已取消暫存"@, None)
                },
            },
            _ => true,
        }
    }

    fn stage_from(paths: Vec<String>, at: usize) -> (r: Step)
        requires
            at <= paths@.len(),
        ensures
            stages_from(r, paths, at as int),
    {
        if at < paths.len() {
            let path = paths[at].clone();
            Step::Ask(Operation::Stage(Staging::Found { paths, at }), Request::FindFile { path })
        } else {
            let message = text::plus(
                "已暫存 ".to_owned(),
                text::decimal(paths.len() as u64).as_str(),
            );
            let message = text::plus(message, " 個檔案");
            ops::plan_one(Request::WriteIndex, message.as_str(), None)
        }
    }

    pub fn advance(self, reply: Reply) -> (r: Step)
        requires
            self.expects(reply),
        ensures
            self.leads_to(reply, r),
    {
        match (self, reply) {
            (Staging::Found { paths, at }, Reply::Found(exists)) => {
                assert(at < paths.len());
                let path = paths[at].clone();
                let request = if exists {
                    Request::StageFile { path }
                } else {
                    Request::StageRemoval { path }
                };
                Step::Ask(Operation::Stage(Staging::Staged { paths, at: at + 1 }), request)
            }
            (Staging::Staged { paths, at }, Reply::Done) => Self::stage_from(paths, at),
            (Staging::Head { paths }, Reply::MaybeCommit(head)) => match head {
                None => ops::plan_two(
                    Request::ClearIndex,
                    Request::WriteIndex,
                    "已取消暫存",
                    None,
                ),
                Some(oid) => {
                    if paths.len() == 0 {
                        ops::plan_one(Request::ResetMixed { oid }, "已取消暫存", None)
                    } else {
                        ops::plan_one(Request::ResetPaths { oid, paths }, "已取消暫存", None)
                    }
                }
            },
            _ => vstd::pervasive::unreached(),
        }
    }
}

/// What putting files into the index begins with.
pub open spec fn begins_staging(step: Step, paths: Vec<String>) -> bool {
    if paths@.len() == 0 {
        plans_two(step, Request::StageAll, Request::WriteIndex, "已暫存全部變更"@, None)
    } else {
        stages_from(step, paths, 0)
    }
}

/// Puts files into the index, or all of them where none is named.
pub fn stage(paths: Vec<String>) -> (r: Step)
    ensures
        is_start(r),
        begins_staging(r, paths),
{
    if paths.len() == 0 {
        return ops::plan_two(Request::StageAll, Request::WriteIndex, "已暫存全部變更", None);
    }
    Staging::stage_from(paths, 0)
}

/// Takes files out of the index, or all of them where none is named. The working tree
/// stays as it is, so that no edit is lost.
pub fn unstage(paths: Vec<String>) -> (r: Step)
    ensures
        is_start(r),
        stages(r, Staging::Head { paths }, Request::FindHeadCommit),
{
    Step::Ask(Operation::Stage(Staging::Head { paths }), Request::FindHeadCommit)
}

/// Making a commit: which reply is awaited.
#[derive(Debug)]
pub enum Committing {
    Identity { message: String, amend: bool },
    Conflicts { message: String, amend: bool },
    Tree { message: String, amend: bool },
    Head { message: String, tree: String },
    Facts { message: String, tree: String, head: String },
    Kept { message: String, tree: String, head: String, point: SafetyPoint },
    Parent { message: String, tree: String },
    Created,
}

pub open spec fn continues_commit(step: Step, next: Committing, request: Request) -> bool {
    step == Step::Ask(Operation::Commit(next), request)
}

impl Committing {
    /// Whether the reply answers the request that was made.
    pub open spec fn expects(self, reply: Reply) -> bool {
        match self {
            Committing::Identity { .. } => reply is Done,
            Committing::Conflicts { .. } => reply is Conflicts,
            Committing::Tree { .. } => reply is Tree,
            Committing::Head { .. } => reply is Commit,
            Committing::Facts { .. } => reply is Facts,
            Committing::Kept { .. } => reply is Done,
            Committing::Parent { .. } => reply is MaybeCommit,
            Committing::Created => reply is Commit,
        }
    }

    /// What follows a reply. To amend rewrites history and keeps a safety point first.
    pub open spec fn leads_to(self, reply: Reply, step: Step) -> bool {
        match (self, reply) {
            (Committing::Identity { message, amend }, Reply::Done) => continues_commit(
                step,
                Committing::Conflicts { message, amend },
                Request::ReadConflicts,
            ),
            (Committing::Conflicts { message, amend }, Reply::Conflicts(some)) => {
                if some {
                    refuses(step, "還有未解決的衝突，無法提交"@)
                } else {
                    continues_commit(
                        step,
                        Committing::Tree { message, amend },
                        Request::WriteTree,
                    )
                }
            },
            (Committing::Tree { message, amend }, Reply::Tree(tree)) => {
                if amend {
                    continues_commit(
                        step,
                        Committing::Head { message, tree },
                        Request::ReadHeadCommit,
                    )
                } else {
                    continues_commit(
                        step,
                        Committing::Parent { message, tree },
                        Request::FindHeadCommit,
                    )
                }
            },
            (Committing::Head { message, tree }, Reply::Commit(head)) => continues_commit(
                step,
                Committing::Facts { message, tree, head },
                Request::ReadSafetyFacts,
            ),
            (Committing::Facts { message, tree, head }, Reply::Facts(facts)) => {
                step matches Step::Ask(
                    Operation::Commit(Committing::Kept {
                        message: next_message,
                        tree: next_tree,
                        head: next_head,
                        point,
                    }),
                    Request::WriteSafetyPoint { point: kept, log },
                ) && next_message == message && next_tree == tree && next_head == head && point
                    == kept && is_point_for(point, facts, "amend"@) && log@ == safety_log("amend"@)
            },
            (Committing::Kept { message, tree, head, point }, Reply::Done) => plans_one(
                step,
                Request::AmendCommit { oid: head, message, tree },
                "已修改前一個 commit"@,
                Some(point),
            ),
            (Committing::Parent { message, tree }, Reply::MaybeCommit(parent)) => {
                step matches Step::Ask(
                    Operation::Commit(Committing::Created),
                    Request::CreateCommit { message: text, tree: committed, parents },
                ) && text == message && committed == tree && parents@ == match parent {
                    Some(oid) => seq![oid],
                    None => Seq::<String>::empty(),
                }
            },
            (Committing::Created, Reply::Commit(oid)) => reports(
                step,
                "已建立 commit "@ + short_oid(oid@),
                None,
            ),
            _ => true,
        }
    }

    pub fn advance(self, reply: Reply) -> (r: Step)
        requires
            self.expects(reply),
        ensures
            self.leads_to(reply, r),
    {
        match (self, reply) {
            (Committing::Identity { message, amend }, Reply::Done) => Step::Ask(
                Operation::Commit(Committing::Conflicts { message, amend }),
                Request::ReadConflicts,
            ),
            (Committing::Conflicts { message, amend }, Reply::Conflicts(some)) => {
                if some {
                    return ops::refuse("還有未解決的衝突，無法提交");
                }
                Step::Ask(
                    Operation::Commit(Committing::Tree { message, amend }),
                    Request::WriteTree,
                )
            }
            (Committing::Tree { message, amend }, Reply::Tree(tree)) => {
                if amend {
                    Step::Ask(
                        Operation::Commit(Committing::Head { message, tree }),
                        Request::ReadHeadCommit,
                    )
                } else {
                    Step::Ask(
                        Operation::Commit(Committing::Parent { message, tree }),
                        Request::FindHeadCommit,
                    )
                }
            }
            (Committing::Head { message, tree }, Reply::Commit(head)) => Step::Ask(
                Operation::Commit(Committing::Facts { message, tree, head }),
                Request::ReadSafetyFacts,
            ),
            (Committing::Facts { message, tree, head }, Reply::Facts(facts)) => {
                let (point, log) = ops::create_safety_point(facts, "amend");
                let request = Request::WriteSafetyPoint { point: point.clone(), log };
                Step::Ask(
                    Operation::Commit(Committing::Kept { message, tree, head, point }),
                    request,
                )
            }
            (Committing::Kept { message, tree, head, point }, Reply::Done) => ops::plan_one(
                Request::AmendCommit { oid: head, message, tree },
                "已修改前一個 commit",
                Some(point),
            ),
            (Committing::Parent { message, tree }, Reply::MaybeCommit(parent)) => {
                let mut parents: Vec<String> = Vec::new();
                if let Some(oid) = parent {
                    parents.push(oid);
                }
                assert(parents@ =~= match parent {
                    Some(oid) => seq![oid],
                    None => Seq::<String>::empty(),
                });
                Step::Ask(
                    Operation::Commit(Committing::Created),
                    Request::CreateCommit { message, tree, parents },
                )
            }
            (Committing::Created, Reply::Commit(oid)) => {
                let message = text::plus(
                    "已建立 commit ".to_owned(),
                    git::short(oid.as_str()).as_str(),
                );
                ops::report(message.as_str(), None)
            }
            _ => vstd::pervasive::unreached(),
        }
    }
}

/// What making a commit begins with.
pub open spec fn begins_commit(step: Step, message: Seq<char>, amend: bool) -> bool {
    if blank(message) {
        refuses(step, "提交訊息不能是空的"@)
    } else {
        step matches Step::Ask(
            Operation::Commit(Committing::Identity { message: text, amend: same }),
            Request::ReadIdentity,
        ) && text@ == message && same == amend
    }
}

/// Makes a commit, or replaces the last one. Replacing gives it another id, so that
/// whoever calls this has to make sure that it has not been pushed.
pub fn commit(message: &str, amend: bool) -> (r: Step)
    ensures
        is_start(r),
        begins_commit(r, message@, amend),
{
    if text::is_blank(message) {
        return ops::refuse("提交訊息不能是空的");
    }
    Step::Ask(
        Operation::Commit(Committing::Identity { message: message.to_owned(), amend }),
        Request::ReadIdentity,
    )
}

/// Whether a step takes files back to HEAD and reports it.
pub open spec fn discards(step: Step, paths: Vec<String>) -> bool {
    if paths@.len() == 0 {
        refuses(step, "必須指定要丟棄的檔案，不提供一次丟棄全部"@)
    } else {
        plans_one(
            step,
            Request::RestoreFiles { paths },
            "已丟棄 "@ + decimal_digits(paths@.len()) + " 個檔案的變更"@,
            None,
        )
    }
}

/// Takes files in the working tree back to HEAD.
///
/// Edits that are not committed are gone for good: whoever calls this has to ask first.
pub fn discard(paths: Vec<String>) -> (r: Step)
    ensures
        is_start(r),
        discards(r, paths),
{
    if paths.len() == 0 {
        return ops::refuse("必須指定要丟棄的檔案，不提供一次丟棄全部");
    }
    let message = text::plus("已丟棄 ".to_owned(), text::decimal(paths.len() as u64).as_str());
    let message = text::plus(message, " 個檔案的變更");
    ops::plan_one(Request::RestoreFiles { paths }, message.as_str(), None)
}

/// Whether these requests switch to a branch.
pub open spec fn switches(first: Request, second: Request, name: Seq<char>) -> bool {
    &&& first matches Request::CheckoutBranch { name: to }
    &&& to@ == name
    &&& second matches Request::SetHead { reference }
    &&& reference@ == ops::branch_reference(name)
}

/// Whether a step switches to a branch and reports it.
pub open spec fn checks_out(step: Step, name: Seq<char>) -> bool {
    step matches Step::Ask(Operation::Plan(rest), request) && rest.steps@.len() == 1 && switches(
        request,
        rest.steps@[0],
        name,
    ) && rest.outcome.undo is None && rest.outcome.message@ == "已切換到 "@ + name
}

/// Switches to a branch, unless that would overwrite changes that are not committed.
pub fn checkout_branch(name: &str) -> (r: Step)
    ensures
        is_start(r),
        checks_out(r, name@),
{
    let mut steps: Vec<Request> = Vec::new();
    steps.push(Request::SetHead { reference: text::plus("refs/heads/".to_owned(), name) });
    let outcome = OpOutcome { message: text::plus("已切換到 ".to_owned(), name), undo: None };
    Step::Ask(
        Operation::Plan(Plan { steps, outcome }),
        Request::CheckoutBranch { name: name.to_owned() },
    )
}

/// Making, deleting or redirecting a branch: which reply is awaited.
#[derive(Debug)]
pub enum Branching {
    CreateHead { name: String },
    DeleteFacts { name: String },
    DeleteTime { name: String, facts: BranchFacts },
    DeleteKept { name: String, merged: bool, point: SafetyPoint },
    UpstreamFound { name: String, upstream: String },
}

pub open spec fn deleted_text(name: Seq<char>, merged: bool) -> Seq<char> {
    if merged {
        "已刪除分支 "@ + name
    } else {
        "已刪除分支 "@ + name + "，其中有尚未合併的 commit，可以從還原點取回"@
    }
}

pub open spec fn branches_on(step: Step, next: Branching, request: Request) -> bool {
    step == Step::Ask(Operation::Branch(next), request)
}

/// Whether a step makes a branch, switches to it and reports it.
pub open spec fn creates_branch(step: Step, name: Seq<char>, head: String) -> bool {
    step matches Step::Ask(Operation::Plan(rest), Request::CreateBranch { name: made, oid })
        && made@ == name && oid == head && rest.steps@.len() == 2 && switches(
        rest.steps@[0],
        rest.steps@[1],
        name,
    ) && rest.outcome.undo is None && rest.outcome.message@ == "已建立並切換到 "@ + name
}

impl Branching {
    /// Whether the reply answers the request that was made.
    pub open spec fn expects(self, reply: Reply) -> bool {
        match self {
            Branching::CreateHead { .. } => reply is Commit,
            Branching::DeleteFacts { .. } => reply is Branch,
            Branching::DeleteTime { .. } => reply is Facts,
            Branching::DeleteKept { .. } => reply is Done,
            Branching::UpstreamFound { .. } => reply is Found,
        }
    }

    /// What follows a reply. The tip of a branch that is deleted is kept, so that its
    /// commits can be got back.
    pub open spec fn leads_to(self, reply: Reply, step: Step) -> bool {
        match (self, reply) {
            (Branching::CreateHead { name }, Reply::Commit(head)) => creates_branch(
                step,
                name@,
                head,
            ),
            (Branching::DeleteFacts { name }, Reply::Branch(facts)) => {
                if facts.is_head {
                    refuses(step, name@ + " 是目前所在的分支，請先切換到其他分支"@)
                } else {
                    branches_on(
                        step,
                        Branching::DeleteTime { name, facts },
                        Request::ReadSafetyFacts,
                    )
                }
            },
            (Branching::DeleteTime { name, facts }, Reply::Facts(now)) => {
                step matches Step::Ask(
                    Operation::Branch(Branching::DeleteKept { name: next_name, merged, point }),
                    Request::WriteSafetyPoint { point: kept, log },
                ) && next_name == name && merged == facts.merged && point == kept && is_point_for(
                    point,
                    (SafetyFacts { head: facts.tip, now: now.now }),
                    "delete-branch"@,
                ) && log@ == safety_log("delete-branch"@)
            },
            (Branching::DeleteKept { name, merged, point }, Reply::Done) => plans_one(
                step,
                Request::DeleteBranch { name },
                deleted_text(name@, merged),
                Some(point),
            ),
            (Branching::UpstreamFound { name, upstream }, Reply::Found(exists)) => {
                if exists {
                    plans_one(
                        step,
                        Request::SetUpstream { name, onto: Some(upstream) },
                        "已設定 "@ + name@ + " 追蹤 "@ + upstream@,
                        None,
                    )
                } else {
                    refuses(step, "找不到遠端分支 "@ + upstream@)
                }
            },
            _ => true,
        }
    }

    pub fn advance(self, reply: Reply) -> (r: Step)
        requires
            self.expects(reply),
        ensures
            self.leads_to(reply, r),
    {
        match (self, reply) {
            (Branching::CreateHead { name }, Reply::Commit(head)) => {
                let mut steps: Vec<Request> = Vec::new();
                steps.push(Request::CheckoutBranch { name: name.clone() });
                steps.push(
                    Request::SetHead {
                        reference: text::plus("refs/heads/".to_owned(), name.as_str()),
                    },
                );
                let message = text::plus("已建立並切換到 ".to_owned(), name.as_str());
                let outcome = OpOutcome { message, undo: None };
                Step::Ask(
                    Operation::Plan(Plan { steps, outcome }),
                    Request::CreateBranch { name, oid: head },
                )
            }
            (Branching::DeleteFacts { name }, Reply::Branch(facts)) => {
                if facts.is_head {
                    let message = text::plus(name, " 是目前所在的分支，請先切換到其他分支");
                    return ops::refuse(message.as_str());
                }
                Step::Ask(
                    Operation::Branch(Branching::DeleteTime { name, facts }),
                    Request::ReadSafetyFacts,
                )
            }
            (Branching::DeleteTime { name, facts }, Reply::Facts(now)) => {
                let merged = facts.merged;
                let kept = SafetyFacts { head: facts.tip, now: now.now };
                let (point, log) = ops::create_safety_point(kept, "delete-branch");
                let request = Request::WriteSafetyPoint { point: point.clone(), log };
                Step::Ask(
                    Operation::Branch(Branching::DeleteKept { name, merged, point }),
                    request,
                )
            }
            (Branching::DeleteKept { name, merged, point }, Reply::Done) => {
                let message = text::plus("已刪除分支 ".to_owned(), name.as_str());
                let message = if merged {
                    message
                } else {
                    text::plus(message, "，其中有尚未合併的 commit，可以從還原點取回")
                };
                ops::plan_one(Request::DeleteBranch { name }, message.as_str(), Some(point))
            }
            (Branching::UpstreamFound { name, upstream }, Reply::Found(exists)) => {
                if !exists {
                    let message = text::plus("找不到遠端分支 ".to_owned(), upstream.as_str());
                    return ops::refuse(message.as_str());
                }
                let message = text::plus("已設定 ".to_owned(), name.as_str());
                let message = text::plus(message, " 追蹤 ");
                let message = text::plus(message, upstream.as_str());
                ops::plan_one(
                    Request::SetUpstream { name, onto: Some(upstream) },
                    message.as_str(),
                    None,
                )
            }
            _ => vstd::pervasive::unreached(),
        }
    }
}

/// What making a branch begins with.
pub open spec fn begins_branch(step: Step, name: Seq<char>) -> bool {
    if blank(name) {
        refuses(step, "分支名稱不能是空的"@)
    } else {
        step matches Step::Ask(
            Operation::Branch(Branching::CreateHead { name: made }),
            Request::ReadHeadCommit,
        ) && made@ == name
    }
}

/// Makes a branch at HEAD and switches to it.
pub fn create_branch(name: &str) -> (r: Step)
    ensures
        is_start(r),
        begins_branch(r, name@),
{
    if text::is_blank(name) {
        return ops::refuse("分支名稱不能是空的");
    }
    Step::Ask(
        Operation::Branch(Branching::CreateHead { name: name.to_owned() }),
        Request::ReadHeadCommit,
    )
}

/// What deleting a branch begins with.
pub open spec fn begins_deleting(step: Step, name: Seq<char>) -> bool {
    step matches Step::Ask(
        Operation::Branch(Branching::DeleteFacts { name: deleted }),
        Request::ReadBranch { name: read },
    ) && deleted@ == name && read@ == name
}

/// Deletes a local branch other than the current one.
pub fn delete_branch(name: &str) -> (r: Step)
    ensures
        is_start(r),
        begins_deleting(r, name@),
{
    Step::Ask(
        Operation::Branch(Branching::DeleteFacts { name: name.to_owned() }),
        Request::ReadBranch { name: name.to_owned() },
    )
}

/// Whether a step gives a branch another name and reports it.
pub open spec fn renames(step: Step, from: Seq<char>, to: Seq<char>) -> bool {
    if blank(to) {
        refuses(step, "分支名稱不能是空的"@)
    } else {
        step matches Step::Ask(Operation::Plan(rest), Request::RenameBranch {
            from: old_name,
            to: new_name,
        }) && old_name@ == from && new_name@ == to && rest.steps@.len() == 0
            && rest.outcome.undo is None && rest.outcome.message@ == "已將 "@ + from + " 改名為 "@
            + to
    }
}

/// Gives a local branch another name.
pub fn rename_branch(from: &str, to: &str) -> (r: Step)
    ensures
        is_start(r),
        renames(r, from@, to@),
{
    if text::is_blank(to) {
        return ops::refuse("分支名稱不能是空的");
    }
    let message = text::plus("已將 ".to_owned(), from);
    let message = text::plus(message, " 改名為 ");
    let message = text::plus(message, to);
    ops::plan_one(
        Request::RenameBranch { from: from.to_owned(), to: to.to_owned() },
        message.as_str(),
        None,
    )
}

/// What setting the branch that a branch tracks begins with.
pub open spec fn begins_following(
    step: Step,
    name: Seq<char>,
    upstream: Option<Seq<char>>,
) -> bool {
    match upstream {
        Some(upstream) => {
            step matches Step::Ask(
                Operation::Branch(Branching::UpstreamFound { name: set, upstream: onto }),
                Request::FindRemoteBranch { name: found },
            ) && set@ == name && onto@ == upstream && found@ == upstream
        },
        None => {
            step matches Step::Ask(Operation::Plan(rest), Request::SetUpstream {
                name: cleared,
                onto,
            }) && cleared@ == name && onto is None && rest.steps@.len() == 0
                && rest.outcome.undo is None && rest.outcome.message@ == "已取消 "@ + name
                + " 的追蹤對象"@
        },
    }
}

/// Sets which remote branch a local branch tracks, or that it tracks none.
pub fn set_upstream(name: &str, upstream: Option<&str>) -> (r: Step)
    ensures
        is_start(r),
        begins_following(
            r,
            name@,
            match upstream {
                Some(upstream) => Some(upstream@),
                None => None,
            },
        ),
{
    match upstream {
        Some(upstream) => Step::Ask(
            Operation::Branch(
                Branching::UpstreamFound { name: name.to_owned(), upstream: upstream.to_owned() },
            ),
            Request::FindRemoteBranch { name: upstream.to_owned() },
        ),
        None => {
            let message = text::plus("已取消 ".to_owned(), name);
            let message = text::plus(message, " 的追蹤對象");
            ops::plan_one(
                Request::SetUpstream { name: name.to_owned(), onto: None },
                message.as_str(),
                None,
            )
        }
    }
}

/// What the stash entry is called: the message, or a name for it where it is blank.
pub open spec fn stash_label(message: Seq<char>) -> Seq<char> {
    if blank(message) {
        "gitview 暫存"@
    } else {
        message
    }
}

/// Stashing changes: which reply is awaited.
#[derive(Debug)]
pub enum Stashing {
    Identity { label: String },
    Saved,
}

pub open spec fn continues_stash(step: Step, next: Stashing, request: Request) -> bool {
    step == Step::Ask(Operation::Stash(next), request)
}

impl Stashing {
    /// Whether the reply answers the request that was made.
    pub open spec fn expects(self, reply: Reply) -> bool {
        match self {
            Stashing::Identity { .. } => reply is Done,
            Stashing::Saved => reply is Commit,
        }
    }

    /// What follows a reply.
    pub open spec fn leads_to(self, reply: Reply, step: Step) -> bool {
        match (self, reply) {
            (Stashing::Identity { label }, Reply::Done) => continues_stash(
                step,
                Stashing::Saved,
                Request::StashSave { label },
            ),
            (Stashing::Saved, Reply::Commit(oid)) => reports(
                step,
                "已暫存為 "@ + short_oid(oid@),
                None,
            ),
            _ => true,
        }
    }

    pub fn advance(self, reply: Reply) -> (r: Step)
        requires
            self.expects(reply),
        ensures
            self.leads_to(reply, r),
    {
        match (self, reply) {
            (Stashing::Identity { label }, Reply::Done) => Step::Ask(
                Operation::Stash(Stashing::Saved),
                Request::StashSave { label },
            ),
            (Stashing::Saved, Reply::Commit(oid)) => {
                let message = text::plus(
                    "已暫存為 ".to_owned(),
                    git::short(oid.as_str()).as_str(),
                );
                ops::report(message.as_str(), None)
            }
            _ => vstd::pervasive::unreached(),
        }
    }
}

/// What putting changes away begins with.
pub open spec fn begins_stash(step: Step, message: Seq<char>) -> bool {
    step matches Step::Ask(
        Operation::Stash(Stashing::Identity { label }),
        Request::ReadIdentity,
    ) && label@ == stash_label(message)
}

/// Puts the changes of the working tree away.
pub fn stash_save(message: &str) -> (r: Step)
    ensures
        is_start(r),
        begins_stash(r, message@),
{
    let label = if text::is_blank(message) {
        "gitview 暫存"
    } else {
        message
    };
    Step::Ask(
        Operation::Stash(Stashing::Identity { label: label.to_owned() }),
        Request::ReadIdentity,
    )
}

/// Whether a step takes an entry of the stash out and reports it.
pub open spec fn pops_stash(step: Step, index: usize) -> bool {
    plans_one(step, Request::StashPop { index }, "已取出暫存的變更"@, None)
}

/// Whether a step throws an entry of the stash away and reports it.
pub open spec fn drops_stash(step: Step, index: usize) -> bool {
    plans_one(step, Request::StashDrop { index }, "已刪除暫存"@, None)
}

/// Takes an entry of the stash out again.
pub fn stash_pop(index: usize) -> (r: Step)
    ensures
        is_start(r),
        pops_stash(r, index),
{
    ops::plan_one(Request::StashPop { index }, "已取出暫存的變更", None)
}

/// Throws an entry of the stash away. It is gone for good: whoever calls this has to ask
/// first.
pub fn stash_drop(index: usize) -> (r: Step)
    ensures
        is_start(r),
        drops_stash(r, index),
{
    ops::plan_one(Request::StashDrop { index }, "已刪除暫存", None)
}

} // verus!
