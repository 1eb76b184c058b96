//! Looking at conflicts and resolving them.
//!
//! A file in conflict is resolved by taking one side, by taking the other, or by content
//! that was edited by hand. Picking single blocks is a matter of editing: only the
//! final content arrives here.
use vstd::prelude::*;
use vstd::utf8::{decode_utf8, valid_utf8};

use crate::fetch::{GitCode, GitFailure};
use crate::git;
use crate::git::{short_oid, state_name, RepoState};
use crate::operation::{is_start, Operation, Plan, Reply, Request, Step};
use crate::ops;
use crate::ops::{plans_one, refuses, reports, OpOutcome, Replay, ReplayKind, ReplayPhase};
use crate::sorting::{sorted, sorting_of_views, stable_sort};
use crate::text;
use crate::text::{lossy_text, precedes};

verus! {

/// One version of a file in conflict.
#[derive(Debug)]
pub struct ConflictSide {
    /// The content, `None` for a binary file.
    pub text: Option<String>,
    /// Whether there is such a version: a side may have deleted the file.
    pub exists: bool,
}

/// What a [`ConflictSide`] holds.
pub struct SideView {
    pub text: Option<Seq<char>>,
    pub exists: bool,
}

impl View for ConflictSide {
    type V = SideView;

    open spec fn view(&self) -> SideView {
        SideView { text: text::view_of(self.text), exists: self.exists }
    }
}

impl ConflictSide {
    pub fn missing() -> (r: Self)
        ensures
            r@ == (SideView { text: None, exists: false }),
    {
        ConflictSide { text: None, exists: false }
    }
}

/// A file in conflict.
#[derive(Debug)]
pub struct ConflictFile {
    pub path: String,
    /// The version both sides come from.
    pub base: ConflictSide,
    /// The version of the current branch.
    pub ours: ConflictSide,
    /// The version that comes in.
    pub theirs: ConflictSide,
    /// What git wrote to the working tree, with conflict markers.
    pub merged: Option<String>,
    /// Whether the file is binary, so that one side has to be taken as a whole.
    pub is_binary: bool,
}

/// What a [`ConflictFile`] holds.
pub struct ConflictView {
    pub path: Seq<char>,
    pub base: SideView,
    pub ours: SideView,
    pub theirs: SideView,
    pub merged: Option<Seq<char>>,
    pub is_binary: bool,
}

impl View for ConflictFile {
    type V = ConflictView;

    open spec fn view(&self) -> ConflictView {
        ConflictView {
            path: self.path@,
            base: self.base@,
            ours: self.ours@,
            theirs: self.theirs@,
            merged: text::view_of(self.merged),
            is_binary: self.is_binary,
        }
    }
}

pub open spec fn conflicts_view(files: Seq<ConflictFile>) -> Seq<ConflictView> {
    files.map_values(|file: ConflictFile| file@)
}

/// What the two sides are in the operation in progress.
///
/// git's "ours" and "theirs" are the other way round in a rebase: "ours" is the base that
/// commits are put on, "theirs" is one's own commit. The words alone would have users
/// pick the wrong side.
#[derive(Debug)]
pub struct SideLabels {
    pub ours: String,
    pub theirs: String,
    /// One sentence on the situation.
    pub note: String,
}

/// Whether these are what the sides are called in a repository in the given state.
pub open spec fn labels_sides(r: SideLabels, state: RepoState) -> bool {
    if state.rebasing() {
        &&& r.ours@ == "接上去的基底（遠端已有的內容）"@
        &&& r.theirs@ == "你的 commit（正在被重新套用）"@
        &&& r.note@
            == "rebase 是把你的 commit 逐一接到遠端內容之後，                   因此「基底」是遠端那一邊。"@
    } else if state is Merge {
        &&& r.ours@ == "你目前的分支"@
        &&& r.theirs@ == "併入的內容（遠端）"@
        &&& r.note@ == "合併是把對方的內容併進你的分支。"@
    } else {
        &&& r.ours@ == "目前的版本"@
        &&& r.theirs@ == "另一個版本"@
        &&& r.note@ == Seq::<char>::empty()
    }
}

/// What the sides are called in a repository in the given state.
pub fn side_labels(state: RepoState) -> (r: SideLabels)
    ensures
        labels_sides(r, state),
{
    match state {
        RepoState::Rebase | RepoState::RebaseMerge | RepoState::RebaseInteractive => SideLabels {
            ours: "接上去的基底（遠端已有的內容）".to_owned(),
            theirs: "你的 commit（正在被重新套用）".to_owned(),
            note: "rebase 是把你的 commit 逐一接到遠端內容之後，                   因此「基底」是遠端那一邊。".to_owned(),
        },
        RepoState::Merge => SideLabels {
            ours: "你目前的分支".to_owned(),
            theirs: "併入的內容（遠端）".to_owned(),
            note: "合併是把對方的內容併進你的分支。".to_owned(),
        },
        _ => SideLabels {
            ours: "目前的版本".to_owned(),
            theirs: "另一個版本".to_owned(),
            note: String::new(),
        },
    }
}

/// Which version to take.
#[derive(Debug, Clone, Copy, PartialEq, Eq, Structural)]
pub enum Side {
    Ours,
    Theirs,
}

/// The content of a file version as it was read.
#[derive(Debug)]
pub struct RawBlob {
    pub bytes: Vec<u8>,
    pub is_binary: bool,
}

/// One version of a file in conflict as it was read. The content may be unreadable.
#[derive(Debug)]
pub struct RawSide {
    pub path: Vec<u8>,
    pub blob: Option<RawBlob>,
}

/// A conflict as it was read.
#[derive(Debug)]
pub struct RawConflict {
    pub ancestor: Option<RawSide>,
    pub our: Option<RawSide>,
    pub their: Option<RawSide>,
    /// The file in the working tree, if there is one.
    pub merged: Option<Vec<u8>>,
}

pub open spec fn missing_side() -> SideView {
    SideView { text: None, exists: false }
}

/// A version of a file: there if its content could be read, with a text unless binary.
pub open spec fn side_of(side: Option<RawSide>) -> SideView {
    match side {
        Some(RawSide { path: _, blob: Some(blob) }) => SideView {
            text: if blob.is_binary {
                None
            } else {
                Some(lossy_text(blob.bytes@))
            },
            exists: true,
        },
        _ => missing_side(),
    }
}

/// The path of a conflict: that of any version, ours before theirs before the base.
pub open spec fn conflict_path(raw: RawConflict) -> Option<Seq<char>> {
    match (raw.our, raw.their, raw.ancestor) {
        (Some(side), _, _) => Some(lossy_text(side.path@)),
        (None, Some(side), _) => Some(lossy_text(side.path@)),
        (None, None, Some(side)) => Some(lossy_text(side.path@)),
        (None, None, None) => None,
    }
}

/// A side that exists without a text.
pub open spec fn binary_side(side: SideView) -> bool {
    side.exists && side.text is None
}

pub open spec fn conflict_of(raw: RawConflict) -> ConflictView {
    ConflictView {
        path: conflict_path(raw)->0,
        base: side_of(raw.ancestor),
        ours: side_of(raw.our),
        theirs: side_of(raw.their),
        merged: match raw.merged {
            Some(bytes) => if valid_utf8(bytes@) {
                Some(decode_utf8(bytes@))
            } else {
                None
            },
            None => None,
        },
        is_binary: binary_side(side_of(raw.our)) || binary_side(side_of(raw.their)),
    }
}

pub open spec fn conflicts_of(raw: Seq<RawConflict>) -> Seq<ConflictView> {
    raw.map_values(|conflict: RawConflict| conflict_of(conflict))
}

/// Files are listed by their paths.
pub open spec fn by_path() -> spec_fn(ConflictView, ConflictView) -> bool {
    |a: ConflictView, b: ConflictView| precedes(a.path, b.path)
}

/// Reads one version of a file.
pub fn read_blob(blob: Option<&RawBlob>) -> (r: ConflictSide)
    ensures
        r@ == match blob {
            Some(blob) => SideView {
                text: if blob.is_binary {
                    None
                } else {
                    Some(lossy_text(blob.bytes@))
                },
                exists: true,
            },
            None => missing_side(),
        },
{
    match blob {
        Some(blob) => if blob.is_binary {
            ConflictSide { text: None, exists: true }
        } else {
            ConflictSide {
                text: Some(text::decode_lossy(blob.bytes.as_slice())),
                exists: true,
            }
        },
        None => ConflictSide::missing(),
    }
}

fn read_side(side: &Option<RawSide>) -> (r: ConflictSide)
    ensures
        r@ == side_of(*side),
{
    match side {
        Some(side) => read_blob(side.blob.as_ref()),
        None => ConflictSide::missing(),
    }
}

fn read_path(raw: &RawConflict) -> (r: Option<String>)
    ensures
        text::view_of(r) == conflict_path(*raw),
{
    match (&raw.our, &raw.their, &raw.ancestor) {
        (Some(side), _, _) => Some(text::decode_lossy(side.path.as_slice())),
        (None, Some(side), _) => Some(text::decode_lossy(side.path.as_slice())),
        (None, None, Some(side)) => Some(text::decode_lossy(side.path.as_slice())),
        (None, None, None) => None,
    }
}

fn path_precedes(a: &ConflictFile, b: &ConflictFile) -> (r: bool)
    ensures
        r == by_path()(a@, b@),
{
    text::less(a.path.as_str(), b.path.as_str())
}

/// Whether these are the files in conflict, or what is wrong with one of them.
pub open spec fn lists_conflicts(
    r: Result<Vec<ConflictFile>, &'static str>,
    raw: Seq<RawConflict>,
) -> bool {
    match r {
        Ok(files) => {
            &&& forall|i: int| 0 <= i < raw.len() ==> conflict_path(#[trigger] raw[i]) is Some
            &&& conflicts_view(files@) == sorted(conflicts_of(raw), by_path())
        },
        Err(text) => {
            &&& text@ == "衝突項目沒有路徑"@
            &&& exists|i: int| 0 <= i < raw.len() && conflict_path(#[trigger] raw[i]) is None
        },
    }
}

/// The files in conflict, by their paths.
pub fn conflicts(raw: Vec<RawConflict>) -> (r: Result<Vec<ConflictFile>, &'static str>)
    ensures
        lists_conflicts(r, raw@),
{
    let mut files: Vec<ConflictFile> = Vec::new();
    for conflict in rest: raw
        invariant
            rest.seq() == raw@,
            forall|i: int| 0 <= i < rest.index() ==> conflict_path(#[trigger] raw@[i]) is Some,
            conflicts_view(files@) == conflicts_of(raw@).take(rest.index() as int),
    {
        let ghost held = files@;
        let ghost index = rest.index() as int;
        let ghost read = conflict;
        assert(raw@[index] == read);
        let path = match read_path(&conflict) {
            Some(path) => path,
            None => {
                return Err("衝突項目沒有路徑");
            }
        };
        let base = read_side(&conflict.ancestor);
        let ours = read_side(&conflict.our);
        let theirs = read_side(&conflict.their);
        let merged = match conflict.merged {
            Some(bytes) => text::decode(bytes),
            None => None,
        };
        let is_binary = (ours.exists && ours.text.is_none()) || (theirs.exists
            && theirs.text.is_none());
        let file = ConflictFile { path, base, ours, theirs, merged, is_binary };
        assert(file@ == conflict_of(read));
        files.push(file);
        assert(conflicts_view(files@) =~= conflicts_view(held).push(file@));
        assert(conflicts_of(raw@).take(index + 1) =~= conflicts_of(raw@).take(index).push(
            conflict_of(read),
        ));
    }
    assert(conflicts_of(raw@).take(raw@.len() as int) =~= conflicts_of(raw@));
    let ghost before = |a: ConflictFile, b: ConflictFile| by_path()(a@, b@);
    proof {
        sorting_of_views(files@, before, |file: ConflictFile| file@, by_path());
    }
    Ok(stable_sort(files, path_precedes, Ghost(before)))
}

/// Whether a step writes the final content of a file, marks it resolved and reports it.
pub open spec fn resolves_with(step: Step, path: Seq<char>, content: Seq<char>) -> bool {
    step matches Step::Ask(Operation::Plan(rest), Request::WriteFile {
        path: written,
        content: text,
    }) && written@ == path && text@ == content && rest.steps@.len() == 1 && (
    rest.steps@[0] matches Request::MarkResolved { path: marked } && marked@ == path)
        && rest.outcome.undo is None && rest.outcome.message@ == "已解決 "@ + path
}

/// Resolves a file with the given content.
pub fn resolve_with_content(path: &str, content: &str) -> (r: Step)
    ensures
        is_start(r),
        resolves_with(r, path@, content@),
{
    let mut steps: Vec<Request> = Vec::new();
    steps.push(Request::MarkResolved { path: path.to_owned() });
    let outcome = OpOutcome { message: text::plus("已解決 ".to_owned(), path), undo: None };
    Step::Ask(
        Operation::Plan(Plan { steps, outcome }),
        Request::WriteFile { path: path.to_owned(), content: content.to_owned() },
    )
}

/// Whether a step deletes a file and reports it.
pub open spec fn resolves_by_deleting(step: Step, path: Seq<char>) -> bool {
    step matches Step::Ask(Operation::Plan(rest), Request::DeleteFile { path: deleted })
        && deleted@ == path && rest.steps@.len() == 1 && (
    rest.steps@[0] matches Request::RemoveFromIndex { path: removed } && removed@ == path)
        && rest.outcome.undo is None && rest.outcome.message@ == "已採用刪除 "@ + path
}

/// The first of the files at a path.
pub open spec fn find_conflict(files: Seq<ConflictView>, path: Seq<char>) -> Option<ConflictView>
    decreases files.len(),
{
    if files.len() == 0 {
        None
    } else if files[0].path == path {
        Some(files[0])
    } else {
        find_conflict(files.drop_first(), path)
    }
}

pub open spec fn chosen_side(file: ConflictView, side: Side) -> SideView {
    match side {
        Side::Ours => file.ours,
        Side::Theirs => file.theirs,
    }
}

/// What taking one side of a file comes to: its content is taken over, or the file is
/// deleted where the side has deleted it. A binary file has to be handled elsewhere.
pub open spec fn takes_side(
    step: Step,
    files: Seq<ConflictView>,
    path: Seq<char>,
    side: Side,
) -> bool {
    match find_conflict(files, path) {
        None => refuses(step, path + " 目前不處於衝突狀態"@),
        Some(file) => {
            let chosen = chosen_side(file, side);
            if !chosen.exists {
                resolves_by_deleting(step, path)
            } else {
                match chosen.text {
                    Some(content) => resolves_with(step, path, content),
                    None => refuses(
                        step,
                        path + " 是二進位檔案，請在檔案總管中處理後再標記為已解決"@,
                    ),
                }
            }
        },
    }
}

/// Takes one side of a file as a whole.
pub fn resolve_using(files: &Vec<ConflictFile>, path: &str, side: Side) -> (r: Step)
    ensures
        is_start(r),
        takes_side(r, conflicts_view(files@), path@, side),
{
    let ghost views = conflicts_view(files@);
    let mut index: usize = 0;
    assert(views.skip(0) =~= views);
    while index < files.len()
        invariant
            views == conflicts_view(files@),
            index <= files@.len(),
            find_conflict(views, path@) == find_conflict(views.skip(index as int), path@),
        decreases files@.len() - index,
    {
        let file = &files[index];
        assert(views.skip(index as int)[0] == file@);
        if text::same(file.path.as_str(), path) {
            let chosen = match side {
                Side::Ours => &file.ours,
                Side::Theirs => &file.theirs,
            };
            if !chosen.exists {
                let mut steps: Vec<Request> = Vec::new();
                steps.push(Request::RemoveFromIndex { path: path.to_owned() });
                let message = text::plus("已採用刪除 ".to_owned(), path);
                let outcome = OpOutcome { message, undo: None };
                return Step::Ask(
                    Operation::Plan(Plan { steps, outcome }),
                    Request::DeleteFile { path: path.to_owned() },
                );
            }
            return match &chosen.text {
                Some(content) => resolve_with_content(path, content.as_str()),
                None => {
                    let message = text::plus(
                        path.to_owned(),
                        " 是二進位檔案，請在檔案總管中處理後再標記為已解決",
                    );
                    ops::refuse(message.as_str())
                }
            };
        }
        assert(views.skip(index as int).drop_first() =~= views.skip(index + 1));
        index += 1;
    }
    let message = text::plus(path.to_owned(), " 目前不處於衝突狀態");
    ops::refuse(message.as_str())
}

/// Whether this is what came of committing a step of a rebase.
pub open spec fn comes_of_step(r: Result<bool, String>, result: Result<(), GitFailure>) -> bool {
    match result {
        Ok(_) => r == Ok::<bool, String>(true),
        Err(failure) => if failure.code is Applied {
            r == Ok::<bool, String>(false)
        } else {
            r matches Err(text) && text@ == "無法提交這一步："@ + failure.message@
        },
    }
}

/// What came of committing a step of a rebase: whether there is a commit now.
///
/// Where a conflict was resolved in favour of the base, nothing may be left to commit.
/// That is reported as a change that is already there, and is no failure: the user got
/// what they wanted.
pub fn commit_step(result: Result<(), GitFailure>) -> (r: Result<bool, String>)
    ensures
        comes_of_step(r, result),
{
    match result {
        Ok(_) => Ok(true),
        Err(failure) => match failure.code {
            GitCode::Applied => Ok(false),
            _ => Err(text::plus("無法提交這一步：".to_owned(), failure.message.as_str())),
        },
    }
}

/// Whether all conflicts are resolved.
pub fn all_resolved(has_conflicts: bool) -> (r: bool)
    ensures
        r == !has_conflicts,
{
    !has_conflicts
}

/// Going on with the operation in progress, or without its current commit: which reply is
/// awaited.
#[derive(Debug)]
pub enum Finishing {
    Conflicts,
    Identity,
    State,
    RebaseOpened,
    MergeTree,
    MergeHead { tree: String },
    MergeOther { tree: String, head: String },
    MergeCommit,
    OtherTree { state: RepoState },
    OtherHead { state: RepoState, tree: String },
    OtherCommit,
    SkipState,
    SkipHead,
    SkipReset,
    SkipOpened,
    SkipIdentity,
}

pub open spec fn finishes(step: Step, next: Finishing, request: Request) -> bool {
    step == Step::Ask(Operation::Finish(next), request)
}

/// Whether a step makes a commit on HEAD and goes on.
pub open spec fn commits(
    step: Step,
    next: Finishing,
    message: Seq<char>,
    tree: String,
    parents: Seq<String>,
) -> bool {
    step matches Step::Ask(Operation::Finish(after), Request::CreateCommit {
        message: text,
        tree: committed,
        parents: named,
    }) && after == next && text@ == message && committed == tree && named@ == parents
}

impl Finishing {
    /// Whether the reply answers the request that was made.
    pub open spec fn expects(self, reply: Reply) -> bool {
        match self {
            Finishing::Conflicts => reply is Conflicts,
            Finishing::Identity => reply is Done,
            Finishing::State => reply is State,
            Finishing::RebaseOpened => reply is Done,
            Finishing::MergeTree => reply is Tree,
            Finishing::MergeHead { .. } => reply is Commit,
            Finishing::MergeOther { .. } => reply is Commit,
            Finishing::MergeCommit => reply is Commit,
            Finishing::OtherTree { .. } => reply is Tree,
            Finishing::OtherHead { .. } => reply is Commit,
            Finishing::OtherCommit => reply is Commit,
            Finishing::SkipState => reply is State,
            Finishing::SkipHead => reply is Commit,
            Finishing::SkipReset => reply is Done,
            Finishing::SkipOpened => reply is Done,
            Finishing::SkipIdentity => reply is Done,
        }
    }

    /// What follows a reply.
    pub open spec fn leads_to(self, reply: Reply, step: Step) -> bool {
        match (self, reply) {
            (Finishing::Conflicts, Reply::Conflicts(some)) => {
                if some {
                    refuses(step, "還有未解決的衝突"@)
                } else {
                    finishes(step, Finishing::Identity, Request::ReadIdentity)
                }
            },
            (Finishing::Identity, Reply::Done) => finishes(
                step,
                Finishing::State,
                Request::ReadState,
            ),
            (Finishing::State, Reply::State(state)) => {
                if state.rebasing() {
                    finishes(step, Finishing::RebaseOpened, Request::OpenRebase)
                } else if state is Merge {
                    finishes(step, Finishing::MergeTree, Request::WriteTree)
                } else if state is Clean {
                    reports(step, "沒有進行中的操作"@, None)
                } else {
                    finishes(step, Finishing::OtherTree { state }, Request::WriteTree)
                }
            },
            (Finishing::RebaseOpened, Reply::Done) => {
                step == Step::Ask(
                    Operation::Replay(
                        Replay {
                            kind: ReplayKind::Continued,
                            phase: ReplayPhase::Committed,
                            applied: 0,
                            skipped: 0,
                        },
                    ),
                    Request::CommitRebaseStep { allow_empty: true },
                )
            },
            (Finishing::MergeTree, Reply::Tree(tree)) => finishes(
                step,
                Finishing::MergeHead { tree },
                Request::ReadHeadCommit,
            ),
            (Finishing::MergeHead { tree }, Reply::Commit(head)) => finishes(
                step,
                Finishing::MergeOther { tree, head },
                Request::ReadMergeHead,
            ),
            (Finishing::MergeOther { tree, head }, Reply::Commit(other)) => commits(
                step,
                Finishing::MergeCommit,
                "Merge "@ + short_oid(other@),
                tree,
                seq![head, other],
            ),
            (Finishing::MergeCommit, Reply::Commit(_)) => plans_one(
                step,
                Request::CleanUpState,
                "合併完成"@,
                None,
            ),
            (Finishing::OtherTree { state }, Reply::Tree(tree)) => finishes(
                step,
                Finishing::OtherHead { state, tree },
                Request::ReadHeadCommit,
            ),
            (Finishing::OtherHead { state, tree }, Reply::Commit(head)) => commits(
                step,
                Finishing::OtherCommit,
                "解決 "@ + state_name(state) + " 的衝突"@,
                tree,
                seq![head],
            ),
            (Finishing::OtherCommit, Reply::Commit(_)) => plans_one(
                step,
                Request::CleanUpState,
                "已完成並清除操作狀態"@,
                None,
            ),
            (Finishing::SkipState, Reply::State(state)) => {
                if state.rebasing() {
                    finishes(step, Finishing::SkipHead, Request::ReadHeadCommit)
                } else {
                    refuses(step, "只有 rebase 可以略過單一步驟"@)
                }
            },
            (Finishing::SkipHead, Reply::Commit(head)) => finishes(
                step,
                Finishing::SkipReset,
                Request::DropChanges { oid: head },
            ),
            (Finishing::SkipReset, Reply::Done) => finishes(
                step,
                Finishing::SkipOpened,
                Request::OpenRebase,
            ),
            (Finishing::SkipOpened, Reply::Done) => finishes(
                step,
                Finishing::SkipIdentity,
                Request::ReadIdentity,
            ),
            (Finishing::SkipIdentity, Reply::Done) => {
                step == Step::Ask(
                    Operation::Replay(
                        Replay {
                            kind: ReplayKind::Skipped,
                            phase: ReplayPhase::Step,
                            applied: 0,
                            skipped: 0,
                        },
                    ),
                    Request::NextRebaseStep,
                )
            },
            _ => true,
        }
    }

    fn ask(next: Finishing, request: Request) -> (r: Step)
        ensures
            finishes(r, next, request),
    {
        Step::Ask(Operation::Finish(next), request)
    }

    pub fn advance(self, reply: Reply) -> (r: Step)
        requires
            self.expects(reply),
        ensures
            self.leads_to(reply, r),
    {
        match (self, reply) {
            (Finishing::Conflicts, Reply::Conflicts(some)) => {
                if !all_resolved(some) {
                    ops::refuse("還有未解決的衝突")
                } else {
                    Self::ask(Finishing::Identity, Request::ReadIdentity)
                }
            }
            (Finishing::Identity, Reply::Done) => Self::ask(Finishing::State, Request::ReadState),
            (Finishing::State, Reply::State(state)) => match state {
                RepoState::Rebase | RepoState::RebaseMerge | RepoState::RebaseInteractive => {
                    Self::ask(Finishing::RebaseOpened, Request::OpenRebase)
                }
                RepoState::Merge => Self::ask(Finishing::MergeTree, Request::WriteTree),
                RepoState::Clean => ops::report("沒有進行中的操作", None),
                _ => Self::ask(Finishing::OtherTree { state }, Request::WriteTree),
            },
            (Finishing::RebaseOpened, Reply::Done) => Step::Ask(
                Operation::Replay(
                    Replay {
                        kind: ReplayKind::Continued,
                        phase: ReplayPhase::Committed,
                        applied: 0,
                        skipped: 0,
                    },
                ),
                Request::CommitRebaseStep { allow_empty: true },
            ),
            (Finishing::MergeTree, Reply::Tree(tree)) => Self::ask(
                Finishing::MergeHead { tree },
                Request::ReadHeadCommit,
            ),
            (Finishing::MergeHead { tree }, Reply::Commit(head)) => Self::ask(
                Finishing::MergeOther { tree, head },
                Request::ReadMergeHead,
            ),
            (Finishing::MergeOther { tree, head }, Reply::Commit(other)) => {
                let message = text::plus(
                    "Merge ".to_owned(),
                    git::short(other.as_str()).as_str(),
                );
                let mut parents: Vec<String> = Vec::new();
                parents.push(head);
                parents.push(other);
                assert(parents@ =~= seq![head, other]);
                Self::ask(Finishing::MergeCommit, Request::CreateCommit { message, tree, parents })
            }
            (Finishing::MergeCommit, Reply::Commit(_)) => ops::plan_one(
                Request::CleanUpState,
                "合併完成",
                None,
            ),
            (Finishing::OtherTree { state }, Reply::Tree(tree)) => Self::ask(
                Finishing::OtherHead { state, tree },
                Request::ReadHeadCommit,
            ),
            (Finishing::OtherHead { state, tree }, Reply::Commit(head)) => {
                let message = text::plus("解決 ".to_owned(), state.name());
                let message = text::plus(message, " 的衝突");
                let mut parents: Vec<String> = Vec::new();
                parents.push(head);
                assert(parents@ =~= seq![head]);
                Self::ask(Finishing::OtherCommit, Request::CreateCommit { message, tree, parents })
            }
            (Finishing::OtherCommit, Reply::Commit(_)) => ops::plan_one(
                Request::CleanUpState,
                "已完成並清除操作狀態",
                None,
            ),
            (Finishing::SkipState, Reply::State(state)) => {
                if state.is_rebasing() {
                    Self::ask(Finishing::SkipHead, Request::ReadHeadCommit)
                } else {
                    ops::refuse("只有 rebase 可以略過單一步驟")
                }
            }
            (Finishing::SkipHead, Reply::Commit(head)) => Self::ask(
                Finishing::SkipReset,
                Request::DropChanges { oid: head },
            ),
            (Finishing::SkipReset, Reply::Done) => Self::ask(
                Finishing::SkipOpened,
                Request::OpenRebase,
            ),
            (Finishing::SkipOpened, Reply::Done) => Self::ask(
                Finishing::SkipIdentity,
                Request::ReadIdentity,
            ),
            (Finishing::SkipIdentity, Reply::Done) => Step::Ask(
                Operation::Replay(
                    Replay {
                        kind: ReplayKind::Skipped,
                        phase: ReplayPhase::Step,
                        applied: 0,
                        skipped: 0,
                    },
                ),
                Request::NextRebaseStep,
            ),
            _ => vstd::pervasive::unreached(),
        }
    }
}

/// Goes on with the rebase in progress, or completes the merge, once all conflicts are
/// resolved.
pub fn continue_operation() -> (r: Step)
    ensures
        is_start(r),
        finishes(r, Finishing::Conflicts, Request::ReadConflicts),
{
    Step::Ask(Operation::Finish(Finishing::Conflicts), Request::ReadConflicts)
}

/// Goes on with the rebase in progress without the commit it stopped at.
pub fn skip_current_step() -> (r: Step)
    ensures
        is_start(r),
        finishes(r, Finishing::SkipState, Request::ReadState),
{
    Step::Ask(Operation::Finish(Finishing::SkipState), Request::ReadState)
}

} // verus!
