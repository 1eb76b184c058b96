//! The state of a repository at a glance.
use vstd::prelude::*;

use crate::git;
use crate::git::RepoState;
use crate::text;
use crate::text::{lossy_text, parts_between, without_trailing};

verus! {

/// How much a repository needs to be looked at, from least to most.
#[derive(Debug, Clone, Copy, PartialEq, Eq, PartialOrd, Ord, Structural)]
pub enum Attention {
    Clean,
    /// There are uncommitted changes.
    Uncommitted,
    /// There are commits to push.
    Unpushed,
    /// There are commits to pull.
    Incoming,
    /// There are both.
    Diverged,
    /// An operation is in progress, there are conflicts, or the state cannot be read.
    NeedsAttention,
}

impl Attention {
    /// A stable name.
    pub fn as_str(self) -> (r: &'static str)
        ensures
            r@ == attention_name(self),
    {
        match self {
            Attention::Clean => "clean",
            Attention::Uncommitted => "uncommitted",
            Attention::Unpushed => "unpushed",
            Attention::Incoming => "incoming",
            Attention::Diverged => "diverged",
            Attention::NeedsAttention => "attention",
        }
    }
}

pub open spec fn attention_name(attention: Attention) -> Seq<char> {
    match attention {
        Attention::Clean => "clean"@,
        Attention::Uncommitted => "uncommitted"@,
        Attention::Unpushed => "unpushed"@,
        Attention::Incoming => "incoming"@,
        Attention::Diverged => "diverged"@,
        Attention::NeedsAttention => "attention"@,
    }
}

/// How many files have which changes.
#[derive(Debug, Clone, Copy, PartialEq, Eq, Structural)]
pub struct WorkingTree {
    pub staged: usize,
    pub unstaged: usize,
    pub untracked: usize,
    pub conflicted: usize,
}

impl Default for WorkingTree {
    fn default() -> (r: Self)
        ensures
            r == (WorkingTree { staged: 0, unstaged: 0, untracked: 0, conflicted: 0 }),
    {
        WorkingTree { staged: 0, unstaged: 0, untracked: 0, conflicted: 0 }
    }
}

impl WorkingTree {
    /// The sum of all counts.
    pub open spec fn sum(self) -> int {
        self.staged + self.unstaged + self.untracked + self.conflicted
    }

    pub fn total(&self) -> (r: usize)
        requires
            self.sum() <= usize::MAX,
        ensures
            r == self.sum(),
    {
        self.staged + self.unstaged + self.untracked + self.conflicted
    }

    pub fn is_clean(&self) -> (r: bool)
        ensures
            r == (self.sum() == 0),
    {
        self.staged == 0 && self.unstaged == 0 && self.untracked == 0 && self.conflicted == 0
    }
}

/// The state of a repository.
#[derive(Debug)]
pub struct RepoStatus {
    pub path: String,
    pub name: String,
    pub branch: Option<String>,
    /// The remote branch that is tracked, such as `origin/main`.
    pub upstream: Option<String>,
    /// The number of commits that only this side has.
    pub ahead: usize,
    /// The number of commits that only the remote has.
    pub behind: usize,
    pub working_tree: WorkingTree,
    /// The operation in progress, if any.
    pub operation: Option<String>,
    /// When something was last fetched.
    pub last_fetch: Option<std::time::SystemTime>,
    pub attention: Attention,
}

impl RepoStatus {
    /// Whether both sides have commits that the other has not.
    pub fn is_diverged(&self) -> (r: bool)
        ensures
            r == (self.ahead > 0 && self.behind > 0),
    {
        self.ahead > 0 && self.behind > 0
    }
}

/// What an operation in progress is called.
pub open spec fn state_label(state: RepoState) -> Option<Seq<char>> {
    match state {
        RepoState::Clean => None,
        RepoState::Merge => Some("合併中"@),
        RepoState::Revert => Some("還原中"@),
        RepoState::RevertSequence => Some("還原中"@),
        RepoState::CherryPick => Some("揀選中"@),
        RepoState::CherryPickSequence => Some("揀選中"@),
        RepoState::Bisect => Some("二分搜尋中"@),
        RepoState::Rebase => Some("rebase 中"@),
        RepoState::RebaseInteractive => Some("rebase 中"@),
        RepoState::RebaseMerge => Some("rebase 中"@),
        RepoState::ApplyMailbox => Some("套用 patch 中"@),
        RepoState::ApplyMailboxOrRebase => Some("套用 patch 中"@),
    }
}

/// What an operation in progress is called.
pub fn describe_state(state: RepoState) -> (r: Option<String>)
    ensures
        text::view_of(r) == state_label(state),
{
    let label = match state {
        RepoState::Clean => {
            return None;
        }
        RepoState::Merge => "合併中",
        RepoState::Revert | RepoState::RevertSequence => "還原中",
        RepoState::CherryPick | RepoState::CherryPickSequence => "揀選中",
        RepoState::Bisect => "二分搜尋中",
        RepoState::Rebase | RepoState::RebaseInteractive | RepoState::RebaseMerge => "rebase 中",
        RepoState::ApplyMailbox | RepoState::ApplyMailboxOrRebase => "套用 patch 中",
    };
    Some(label.to_owned())
}

/// A file with conflicts is counted as such and nothing else.
pub open spec fn counts_conflicted(bits: u32) -> bool {
    bits & 0x8000 != 0
}

/// So is a file that is not in the index.
pub open spec fn counts_untracked(bits: u32) -> bool {
    !counts_conflicted(bits) && bits & 0x80 != 0
}

/// A file may have both staged and unstaged changes.
pub open spec fn counts_staged(bits: u32) -> bool {
    &&& !counts_conflicted(bits)
    &&& !counts_untracked(bits)
    &&& bits & 0x1 != 0 || bits & 0x2 != 0 || bits & 0x4 != 0 || bits & 0x8 != 0 || bits & 0x10 != 0
}

pub open spec fn counts_unstaged(bits: u32) -> bool {
    &&& !counts_conflicted(bits)
    &&& !counts_untracked(bits)
    &&& bits & 0x100 != 0 || bits & 0x200 != 0 || bits & 0x800 != 0 || bits & 0x400 != 0
}

/// The counts of files by their status bits. A bare repository has none.
pub open spec fn tree_counts(is_bare: bool, flags: Seq<u32>) -> (nat, nat, nat, nat) {
    if is_bare {
        (0, 0, 0, 0)
    } else {
        (
            flags.filter(|bits: u32| counts_staged(bits)).len(),
            flags.filter(|bits: u32| counts_unstaged(bits)).len(),
            flags.filter(|bits: u32| counts_untracked(bits)).len(),
            flags.filter(|bits: u32| counts_conflicted(bits)).len(),
        )
    }
}

pub open spec fn counts_view(tree: WorkingTree) -> (nat, nat, nat, nat) {
    (
        tree.staged as nat,
        tree.unstaged as nat,
        tree.untracked as nat,
        tree.conflicted as nat,
    )
}

proof fn lemma_filter_step(flags: Seq<u32>, index: int, wanted: spec_fn(u32) -> bool)
    requires
        0 <= index < flags.len(),
    ensures
        flags.take(index + 1).filter(wanted).len() == flags.take(index).filter(wanted).len()
            + if wanted(flags[index]) {
            1nat
        } else {
            0nat
        },
        flags.take(index + 1).filter(wanted).len() <= index + 1,
{
    reveal(Seq::filter);
    assert(flags.take(index + 1).drop_last() =~= flags.take(index));
    flags.take(index + 1).lemma_filter_len(wanted);
}

/// How many files have which changes.
pub fn working_tree_counts(is_bare: bool, flags: &Vec<u32>) -> (r: WorkingTree)
    ensures
        counts_view(r) == tree_counts(is_bare, flags@),
{
    let mut counts = WorkingTree::default();
    if is_bare {
        return counts;
    }
    let mut index: usize = 0;
    proof {
        reveal(Seq::filter);
    }
    while index < flags.len()
        invariant
            index <= flags@.len(),
            counts_view(counts) == tree_counts(false, flags@.take(index as int)),
            counts.staged <= index,
            counts.unstaged <= index,
            counts.untracked <= index,
            counts.conflicted <= index,
        decreases flags@.len() - index,
    {
        let bits = flags[index];
        proof {
            lemma_filter_step(flags@, index as int, |bits: u32| counts_staged(bits));
            lemma_filter_step(flags@, index as int, |bits: u32| counts_unstaged(bits));
            lemma_filter_step(flags@, index as int, |bits: u32| counts_untracked(bits));
            lemma_filter_step(flags@, index as int, |bits: u32| counts_conflicted(bits));
        }
        if git::is_conflicted(bits) {
            counts.conflicted += 1;
        } else if git::is_wt_new(bits) {
            counts.untracked += 1;
        } else {
            if git::is_index_new(bits) || git::is_index_modified(bits) || git::is_index_deleted(bits)
                || git::is_index_renamed(bits) || git::is_index_typechange(bits) {
                counts.staged += 1;
            }
            if git::is_wt_modified(bits) || git::is_wt_deleted(bits) || git::is_wt_renamed(bits)
                || git::is_wt_typechange(bits) {
                counts.unstaged += 1;
            }
        }
        index += 1;
    }
    assert(flags@.take(index as int) =~= flags@);
    counts
}

/// A part of a path that names something: not empty, and not a dot.
pub open spec fn is_name(part: Seq<char>) -> bool {
    part.len() > 0 && part != "."@
}

/// The last part of a path that names something. A path that ends by going up names
/// nothing.
pub open spec fn last_name(parts: Seq<Seq<char>>) -> Option<Seq<char>>
    decreases parts.len(),
{
    if parts.len() == 0 {
        None
    } else if !is_name(parts.last()) {
        last_name(parts.drop_last())
    } else if parts.last() == ".."@ {
        None
    } else {
        Some(parts.last())
    }
}

/// The name of a repository: the last part of its path, or the path where there is none.
pub open spec fn name_of_path(path: Seq<char>) -> Seq<char> {
    match last_name(parts_between(path, '/')) {
        Some(name) => name,
        None => path,
    }
}

/// The name of a repository.
pub fn repo_name(path: &str) -> (r: String)
    ensures
        r@ == name_of_path(path@),
{
    let parts = text::split_at_every(path, '/');
    let ghost views = text::views_of(parts@);
    let mut end: usize = parts.len();
    assert(views.take(end as int) =~= views);
    while end > 0
        invariant
            end <= parts@.len(),
            views == text::views_of(parts@),
            views == parts_between(path@, '/'),
            last_name(views) == last_name(views.take(end as int)),
        decreases end,
    {
        let part = &parts[end - 1];
        proof {
            let left = views.take(end as int);
            assert(left.last() == part@);
            assert(left.drop_last() =~= views.take(end - 1));
            text::empty_text_has_no_bytes(part@);
        }
        if part.as_str().as_bytes().len() > 0 && !text::same(part.as_str(), ".") {
            if text::same(part.as_str(), "..") {
                return path.to_owned();
            }
            return part.clone();
        }
        end -= 1;
    }
    path.to_owned()
}

/// How much a repository needs to be looked at: an operation in progress or conflicts
/// first, then what the remote has, then what is to be pushed or committed.
pub open spec fn attention_of(
    ahead: nat,
    behind: nat,
    tree: WorkingTree,
    in_operation: bool,
) -> Attention {
    if in_operation || tree.conflicted > 0 {
        Attention::NeedsAttention
    } else if ahead > 0 && behind > 0 {
        Attention::Diverged
    } else if behind > 0 {
        Attention::Incoming
    } else if ahead > 0 {
        Attention::Unpushed
    } else if tree.sum() != 0 {
        Attention::Uncommitted
    } else {
        Attention::Clean
    }
}

/// How much a repository needs to be looked at.
pub fn classify(
    ahead: usize,
    behind: usize,
    working_tree: &WorkingTree,
    operation: &Option<String>,
) -> (r: Attention)
    ensures
        r == attention_of(ahead as nat, behind as nat, *working_tree, operation is Some),
{
    if operation.is_some() || working_tree.conflicted > 0 {
        return Attention::NeedsAttention;
    }
    if ahead > 0 && behind > 0 {
        return Attention::Diverged;
    }
    if behind > 0 {
        return Attention::Incoming;
    }
    if ahead > 0 {
        return Attention::Unpushed;
    }
    if !working_tree.is_clean() {
        return Attention::Uncommitted;
    }
    Attention::Clean
}

/// What was read of a repository.
#[derive(Debug)]
pub struct RawRepo {
    /// The working tree, or the repository itself where there is none.
    pub path: Vec<u8>,
    /// The name of the branch that HEAD is on, if it is on one.
    pub branch: Option<Vec<u8>>,
    pub upstream: Option<String>,
    /// How far the branch and the remote branch are apart, if it can be told.
    pub distance: Option<(usize, usize)>,
    pub is_bare: bool,
    /// The status bits of all files with changes.
    pub flags: Vec<u32>,
    pub state: RepoState,
    pub last_fetch: Option<std::time::SystemTime>,
}

pub open spec fn shown_path(path: Seq<u8>) -> Seq<char> {
    without_trailing(lossy_text(path), '/')
}

/// The path of a repository as it is stored and shown.
pub fn display_path(path: &Vec<u8>) -> (r: String)
    ensures
        r@ == shown_path(path@),
{
    text::trim_end_of(text::decode_lossy(path.as_slice()).as_str(), '/')
}

/// Whether this is the state of the repository.
pub open spec fn is_status_of(r: RepoStatus, raw: RawRepo) -> bool {
    let (ahead, behind) = match raw.distance {
        Some((ahead, behind)) => (ahead, behind),
        None => (0usize, 0usize),
    };
    &&& r.path@ == shown_path(raw.path@)
    &&& r.name@ == name_of_path(r.path@)
    &&& text::view_of(r.branch) == match raw.branch {
        Some(name) => Some(lossy_text(name@)),
        None => None,
    }
    &&& r.upstream == raw.upstream
    &&& r.ahead == ahead
    &&& r.behind == behind
    &&& counts_view(r.working_tree) == tree_counts(raw.is_bare, raw.flags@)
    &&& text::view_of(r.operation) == state_label(raw.state)
    &&& r.last_fetch == raw.last_fetch
    &&& r.attention == attention_of(
        ahead as nat,
        behind as nat,
        r.working_tree,
        !(raw.state is Clean),
    )
}

/// The state of a repository.
pub fn status(raw: RawRepo) -> (r: RepoStatus)
    ensures
        is_status_of(r, raw),
{
    let path = display_path(&raw.path);
    let branch = match &raw.branch {
        Some(name) => Some(text::decode_lossy(name.as_slice())),
        None => None,
    };
    let (ahead, behind) = match raw.distance {
        Some((ahead, behind)) => (ahead, behind),
        None => (0, 0),
    };
    let working_tree = working_tree_counts(raw.is_bare, &raw.flags);
    let operation = describe_state(raw.state);
    assert(operation is Some <==> !(raw.state is Clean));
    let attention = classify(ahead, behind, &working_tree, &operation);
    RepoStatus {
        name: repo_name(path.as_str()),
        path,
        branch,
        upstream: raw.upstream,
        ahead,
        behind,
        working_tree,
        operation,
        last_fetch: raw.last_fetch,
        attention,
    }
}

} // verus!
