//! What bringing a branch together with its remote branch would come to, worked out
//! before anything is done.
use vstd::prelude::*;

use crate::pathset::{lists, PathSet};
use crate::text;
use crate::text::{head_of, lossy_text};

verus! {

/// A commit, as it is listed.
#[derive(Debug)]
pub struct CommitInfo {
    pub oid: String,
    pub short_oid: String,
    pub summary: String,
    pub author: String,
    pub timestamp: i64,
}

/// What a [`CommitInfo`] holds.
pub struct Listed {
    pub oid: Seq<char>,
    pub short_oid: Seq<char>,
    pub summary: Seq<char>,
    pub author: Seq<char>,
    pub timestamp: i64,
}

impl View for CommitInfo {
    type V = Listed;

    open spec fn view(&self) -> Listed {
        Listed {
            oid: self.oid@,
            short_oid: self.short_oid@,
            summary: self.summary@,
            author: self.author@,
            timestamp: self.timestamp,
        }
    }
}

/// How likely a conflict is, as far as files go.
///
/// Where no file was changed on both sides there is none. Where one was there may be
/// one: git merges by blocks, and the blocks may be different.
#[derive(Debug, Clone, Copy, PartialEq, Eq, Structural)]
pub enum ConflictRisk {
    /// No file was changed on both sides.
    Absent,
    /// Some file was changed on both sides.
    Possible,
}

/// What is advised.
#[derive(Debug, Clone, Copy, PartialEq, Eq, Structural)]
pub enum Recommendation {
    /// No remote branch is tracked.
    NoUpstream,
    UpToDate,
    /// Only this side has new commits.
    Push,
    /// Only the remote has new commits.
    FastForward,
    /// Both sides have new commits.
    Rebase(ConflictRisk),
    /// What comes in touches files with uncommitted changes.
    ResolveWorkingTreeFirst,
}

/// A short name of what is advised.
pub open spec fn recommendation_name(recommendation: Recommendation) -> Seq<char> {
    match recommendation {
        Recommendation::NoUpstream => "no-upstream"@,
        Recommendation::UpToDate => "up-to-date"@,
        Recommendation::Push => "push"@,
        Recommendation::FastForward => "fast-forward"@,
        Recommendation::Rebase(_) => "rebase"@,
        Recommendation::ResolveWorkingTreeFirst => "resolve-working-tree"@,
    }
}

/// What is advised, in one sentence.
pub open spec fn recommendation_headline(recommendation: Recommendation) -> Seq<char> {
    match recommendation {
        Recommendation::NoUpstream => "沒有追蹤的遠端分支"@,
        Recommendation::UpToDate => "已與遠端一致"@,
        Recommendation::Push => "推送即可"@,
        Recommendation::FastForward => "可以直接快轉"@,
        Recommendation::Rebase(ConflictRisk::Absent) => "建議 rebase，不會衝突"@,
        Recommendation::Rebase(ConflictRisk::Possible) => "建議 rebase，但可能需要解衝突"@,
        Recommendation::ResolveWorkingTreeFirst => "請先處理未提交的變更"@,
    }
}

impl Recommendation {
    /// A stable name.
    pub fn as_str(&self) -> (r: &'static str)
        ensures
            r@ == recommendation_name(*self),
    {
        match self {
            Recommendation::NoUpstream => "no-upstream",
            Recommendation::UpToDate => "up-to-date",
            Recommendation::Push => "push",
            Recommendation::FastForward => "fast-forward",
            Recommendation::Rebase(_) => "rebase",
            Recommendation::ResolveWorkingTreeFirst => "resolve-working-tree",
        }
    }

    /// The advice in one sentence.
    pub fn headline(&self) -> (r: &'static str)
        ensures
            r@ == recommendation_headline(*self),
    {
        match self {
            Recommendation::NoUpstream => "沒有追蹤的遠端分支",
            Recommendation::UpToDate => "已與遠端一致",
            Recommendation::Push => "推送即可",
            Recommendation::FastForward => "可以直接快轉",
            Recommendation::Rebase(ConflictRisk::Absent) => "建議 rebase，不會衝突",
            Recommendation::Rebase(ConflictRisk::Possible) => "建議 rebase，但可能需要解衝突",
            Recommendation::ResolveWorkingTreeFirst => "請先處理未提交的變更",
        }
    }
}

/// How a branch and the remote branch it tracks differ.
#[derive(Debug)]
pub struct Divergence {
    pub branch: Option<String>,
    pub upstream: Option<String>,
    /// The commits that only this side has, the latest first.
    pub ahead: Vec<CommitInfo>,
    /// The commits that only the remote has, the latest first.
    pub behind: Vec<CommitInfo>,
    /// The files that the commits of this side change.
    pub local_files: Vec<String>,
    /// The files that the commits of the remote change.
    pub incoming_files: Vec<String>,
    /// The files that both sides change.
    pub overlapping_files: Vec<String>,
    /// The files that the remote changes and that have uncommitted changes here.
    pub uncommitted_overlap: Vec<String>,
    pub recommendation: Recommendation,
}

impl Divergence {
    pub fn is_diverged(&self) -> (r: bool)
        ensures
            r == (self.ahead@.len() > 0 && self.behind@.len() > 0),
    {
        self.ahead.len() > 0 && self.behind.len() > 0
    }

    pub fn risk(&self) -> (r: ConflictRisk)
        ensures
            r == if self.overlapping_files@.len() == 0 {
                ConflictRisk::Absent
            } else {
                ConflictRisk::Possible
            },
    {
        if self.overlapping_files.len() == 0 {
            ConflictRisk::Absent
        } else {
            ConflictRisk::Possible
        }
    }

    /// The number of commits on the line after a rebase, which keeps it a single line.
    pub fn commits_after_rebase(&self) -> (r: usize)
        requires
            self.behind@.len() + self.ahead@.len() <= usize::MAX,
        ensures
            r == self.behind@.len() + self.ahead@.len(),
    {
        self.behind.len() + self.ahead.len()
    }

    /// The number of commits after a merge, the merge itself among them.
    pub fn commits_after_merge(&self) -> (r: usize)
        requires
            self.behind@.len() + self.ahead@.len() + 1 <= usize::MAX,
        ensures
            r == self.behind@.len() + self.ahead@.len() + 1,
    {
        self.behind.len() + self.ahead.len() + 1
    }
}

/// A commit as it was read. A commit may have no summary.
#[derive(Debug)]
pub struct RawCommit {
    pub oid: String,
    pub author: Vec<u8>,
    pub summary: Option<Vec<u8>>,
    pub timestamp: i64,
}

/// The text of bytes that may be missing.
pub open spec fn optional_text(bytes: Option<Vec<u8>>) -> Seq<char> {
    match bytes {
        Some(bytes) => lossy_text(bytes@),
        None => Seq::empty(),
    }
}

pub open spec fn listed(commit: RawCommit) -> Listed {
    Listed {
        oid: commit.oid@,
        short_oid: head_of(commit.oid@, 8),
        summary: optional_text(commit.summary),
        author: lossy_text(commit.author@),
        timestamp: commit.timestamp,
    }
}

pub open spec fn all_listed(commits: Seq<RawCommit>) -> Seq<Listed> {
    commits.map_values(|commit: RawCommit| listed(commit))
}

pub open spec fn infos_view(commits: Seq<CommitInfo>) -> Seq<Listed> {
    commits.map_values(|commit: CommitInfo| commit@)
}

pub(crate) fn read_optional(bytes: &Option<Vec<u8>>) -> (r: String)
    ensures
        r@ == optional_text(*bytes),
{
    match bytes {
        Some(bytes) => text::decode_lossy(bytes.as_slice()),
        None => String::new(),
    }
}

/// A commit, as it is listed. Names and messages that are not UTF-8 are kept as well as
/// can be.
pub fn commit_info(commit: &RawCommit) -> (r: CommitInfo)
    ensures
        r@ == listed(*commit),
{
    let r = CommitInfo {
        short_oid: text::first_chars(commit.oid.as_str(), 8),
        oid: commit.oid.clone(),
        summary: read_optional(&commit.summary),
        author: text::decode_lossy(commit.author.as_slice()),
        timestamp: commit.timestamp,
    };
    assert(r@ == listed(*commit));
    r
}

/// The commits that are there, as they are listed.
pub fn commits_between(commits: &Vec<RawCommit>) -> (r: Vec<CommitInfo>)
    ensures
        infos_view(r@) == all_listed(commits@),
{
    let mut out: Vec<CommitInfo> = Vec::new();
    let mut index: usize = 0;
    while index < commits.len()
        invariant
            index <= commits@.len(),
            infos_view(out@) == all_listed(commits@).take(index as int),
        decreases commits@.len() - index,
    {
        let ghost held = out@;
        let info = commit_info(&commits[index]);
        out.push(info);
        index += 1;
        assert(infos_view(out@) =~= infos_view(held).push(info@));
        assert(all_listed(commits@).take(index as int) =~= all_listed(commits@).take(
            index - 1,
        ).push(info@));
    }
    assert(all_listed(commits@).take(index as int) =~= all_listed(commits@));
    out
}

/// The old and the new path of a changed file. A rename has both.
#[derive(Debug)]
pub struct RawPaths {
    pub old: Option<Vec<u8>>,
    pub new: Option<Vec<u8>>,
}

pub open spec fn is_path_of(path: Seq<char>, paths: RawPaths) -> bool {
    ||| paths.old matches Some(bytes) && lossy_text(bytes@) == path
    ||| paths.new matches Some(bytes) && lossy_text(bytes@) == path
}

/// The paths of changed files, old and new.
pub open spec fn paths_in(changes: Seq<RawPaths>) -> Set<Seq<char>> {
    Set::new(
        |path: Seq<char>|
            exists|i: int| 0 <= i < changes.len() && is_path_of(path, #[trigger] changes[i]),
    )
}

fn diff_paths(changes: &Vec<RawPaths>) -> (r: PathSet)
    ensures
        r.wf(),
        r@ == paths_in(changes@),
{
    let mut paths = PathSet::new();
    let mut index: usize = 0;
    assert(paths@ =~= paths_in(changes@.take(0)));
    while index < changes.len()
        invariant
            index <= changes@.len(),
            paths.wf(),
            paths@ == paths_in(changes@.take(index as int)),
        decreases changes@.len() - index,
    {
        let change = &changes[index];
        let ghost seen = changes@.take(index as int);
        let ghost held = paths@;
        if let Some(old) = &change.old {
            paths.insert(text::decode_lossy(old.as_slice()));
        }
        if let Some(new) = &change.new {
            paths.insert(text::decode_lossy(new.as_slice()));
        }
        index += 1;
        proof {
            let now = changes@.take(index as int);
            assert(now =~= seen.push(*change));
            assert forall|path: Seq<char>| paths@.contains(path) <==> paths_in(now).contains(path) by {
                if held.contains(path) {
                    let i = choose|i: int| 0 <= i < seen.len() && is_path_of(path, #[trigger] seen[i]);
                    assert(is_path_of(path, now[i]));
                }
                if is_path_of(path, *change) {
                    assert(is_path_of(path, now[index - 1]));
                }
                if paths_in(now).contains(path) && !is_path_of(path, *change) {
                    let i = choose|i: int| 0 <= i < now.len() && is_path_of(path, #[trigger] now[i]);
                    assert(is_path_of(path, seen[i]));
                }
            }
            assert(paths@ =~= paths_in(now));
        }
    }
    assert(changes@.take(index as int) =~= changes@);
    paths
}

/// The paths of files with uncommitted changes.
pub open spec fn dirty_in(is_bare: bool, paths: Seq<Vec<u8>>) -> Set<Seq<char>> {
    Set::new(
        |path: Seq<char>|
            !is_bare && exists|i: int| 0 <= i < paths.len() && lossy_text((#[trigger] paths[i])@) == path,
    )
}

/// The paths of files with uncommitted changes. A bare repository has none.
fn uncommitted_paths(is_bare: bool, changed: &Vec<Vec<u8>>) -> (r: PathSet)
    ensures
        r.wf(),
        r@ == dirty_in(is_bare, changed@),
{
    let mut paths = PathSet::new();
    if is_bare {
        assert(paths@ =~= dirty_in(is_bare, changed@));
        return paths;
    }
    let mut index: usize = 0;
    assert(paths@ =~= dirty_in(false, changed@.take(0)));
    while index < changed.len()
        invariant
            index <= changed@.len(),
            paths.wf(),
            paths@ == dirty_in(false, changed@.take(index as int)),
        decreases changed@.len() - index,
    {
        let ghost seen = changed@.take(index as int);
        let ghost held = paths@;
        let path = text::decode_lossy(changed[index].as_slice());
        let ghost added = path@;
        paths.insert(path);
        index += 1;
        proof {
            let now = changed@.take(index as int);
            assert(now =~= seen.push(changed@[index - 1]));
            assert forall|path: Seq<char>| paths@.contains(path) <==> dirty_in(false, now).contains(
                path,
            ) by {
                if held.contains(path) {
                    let i = choose|i: int| 0 <= i < seen.len() && lossy_text((#[trigger] seen[i])@) == path;
                    assert(lossy_text(now[i]@) == path);
                }
                if path == added {
                    assert(lossy_text(now[index - 1]@) == path);
                }
                if dirty_in(false, now).contains(path) && path != added {
                    let i = choose|i: int| 0 <= i < now.len() && lossy_text((#[trigger] now[i])@) == path;
                    assert(lossy_text(seen[i]@) == path);
                }
            }
            assert(paths@ =~= dirty_in(false, now));
        }
    }
    assert(changed@.take(index as int) =~= changed@);
    paths
}

/// What is advised. Uncommitted work that what comes in would touch goes before all else.
pub open spec fn advice(
    ahead: nat,
    behind: nat,
    has_upstream: bool,
    risk: ConflictRisk,
    uncommitted_overlap: bool,
) -> Recommendation {
    if !has_upstream {
        Recommendation::NoUpstream
    } else if behind > 0 && uncommitted_overlap {
        Recommendation::ResolveWorkingTreeFirst
    } else if ahead == 0 && behind == 0 {
        Recommendation::UpToDate
    } else if behind == 0 {
        Recommendation::Push
    } else if ahead == 0 {
        Recommendation::FastForward
    } else {
        Recommendation::Rebase(risk)
    }
}

/// What is advised.
pub fn recommend(
    ahead: usize,
    behind: usize,
    has_upstream: bool,
    risk: ConflictRisk,
    uncommitted_overlap: bool,
) -> (r: Recommendation)
    ensures
        r == advice(ahead as nat, behind as nat, has_upstream, risk, uncommitted_overlap),
{
    if !has_upstream {
        return Recommendation::NoUpstream;
    }
    if behind > 0 && uncommitted_overlap {
        return Recommendation::ResolveWorkingTreeFirst;
    }
    if ahead == 0 && behind == 0 {
        Recommendation::UpToDate
    } else if behind == 0 {
        Recommendation::Push
    } else if ahead == 0 {
        Recommendation::FastForward
    } else {
        Recommendation::Rebase(risk)
    }
}

/// What was read of a branch and of the remote branch it tracks.
#[derive(Debug)]
pub struct RawDivergence {
    /// The name of the branch that HEAD is on, if it is on one.
    pub branch: Option<Vec<u8>>,
    pub upstream: Option<String>,
    pub ahead: Vec<RawCommit>,
    pub behind: Vec<RawCommit>,
    /// The files that the commits of this side change.
    pub local_changes: Vec<RawPaths>,
    /// The files that the commits of the remote change.
    pub incoming_changes: Vec<RawPaths>,
    pub is_bare: bool,
    /// The files with uncommitted changes.
    pub uncommitted: Vec<Vec<u8>>,
}

/// Whether this is how the two sides differ.
pub open spec fn is_divergence_of(r: Divergence, raw: RawDivergence) -> bool {
    let local = paths_in(raw.local_changes@);
    let incoming = paths_in(raw.incoming_changes@);
    let dirty = dirty_in(raw.is_bare, raw.uncommitted@);
    &&& text::view_of(r.branch) == match raw.branch {
        Some(name) => Some(lossy_text(name@)),
        None => None,
    }
    &&& r.upstream == raw.upstream
    &&& infos_view(r.ahead@) == all_listed(raw.ahead@)
    &&& infos_view(r.behind@) == all_listed(raw.behind@)
    &&& lists(text::views_of(r.local_files@), local)
    &&& lists(text::views_of(r.incoming_files@), incoming)
    &&& lists(text::views_of(r.overlapping_files@), local.intersect(incoming))
    &&& lists(text::views_of(r.uncommitted_overlap@), incoming.intersect(dirty))
    &&& r.recommendation == advice(
        raw.ahead@.len(),
        raw.behind@.len(),
        raw.upstream is Some,
        if r.overlapping_files@.len() == 0 {
            ConflictRisk::Absent
        } else {
            ConflictRisk::Possible
        },
        r.uncommitted_overlap@.len() > 0,
    )
}

/// Works out how a branch and the remote branch it tracks differ.
pub fn analyse(raw: RawDivergence) -> (r: Divergence)
    ensures
        is_divergence_of(r, raw),
{
    let branch = match &raw.branch {
        Some(name) => Some(text::decode_lossy(name.as_slice())),
        None => None,
    };
    let ahead = commits_between(&raw.ahead);
    let behind = commits_between(&raw.behind);
    assert(infos_view(ahead@).len() == ahead@.len());
    assert(infos_view(behind@).len() == behind@.len());
    let local = diff_paths(&raw.local_changes);
    let incoming = diff_paths(&raw.incoming_changes);
    let overlapping_files = local.intersection(&incoming);
    let dirty = uncommitted_paths(raw.is_bare, &raw.uncommitted);
    let uncommitted_overlap = incoming.intersection(&dirty);
    let risk = if overlapping_files.len() == 0 {
        ConflictRisk::Absent
    } else {
        ConflictRisk::Possible
    };
    let has_upstream = raw.upstream.is_some();
    let recommendation = recommend(
        ahead.len(),
        behind.len(),
        has_upstream,
        risk,
        uncommitted_overlap.len() > 0,
    );
    Divergence {
        branch,
        upstream: raw.upstream,
        ahead,
        behind,
        local_files: local.into_vec(),
        incoming_files: incoming.into_vec(),
        overlapping_files,
        uncommitted_overlap,
        recommendation,
    }
}

/// Nothing that could touch uncommitted work is ever advised: where a file with
/// uncommitted changes is changed by what comes in, the advice is to see to it first.
pub proof fn uncommitted_work_comes_first(r: Divergence, raw: RawDivergence, path: Seq<char>)
    requires
        is_divergence_of(r, raw),
        raw.upstream is Some,
        raw.behind@.len() > 0,
        paths_in(raw.incoming_changes@).contains(path),
        dirty_in(raw.is_bare, raw.uncommitted@).contains(path),
    ensures
        r.recommendation is ResolveWorkingTreeFirst,
{
    let overlap = text::views_of(r.uncommitted_overlap@);
    assert(overlap.contains(path));
    let i = choose|i: int| 0 <= i < overlap.len() && overlap[i] == path;
    assert(r.uncommitted_overlap@.len() > i);
}

/// A rebase is called free of conflicts only where no file was changed on both sides.
pub proof fn no_risk_means_no_common_file(r: Divergence, raw: RawDivergence, path: Seq<char>)
    requires
        is_divergence_of(r, raw),
        r.recommendation == Recommendation::Rebase(ConflictRisk::Absent),
    ensures
        !(paths_in(raw.local_changes@).contains(path) && paths_in(
            raw.incoming_changes@,
        ).contains(path)),
{
    let overlap = text::views_of(r.overlapping_files@);
    if paths_in(raw.local_changes@).intersect(paths_in(raw.incoming_changes@)).contains(path) {
        assert(overlap.contains(path));
        let i = choose|i: int| 0 <= i < overlap.len() && overlap[i] == path;
        assert(r.overlapping_files@.len() > i);
    }
}

} // verus!
