//! Which versions are compared, and what comes of it.
use vstd::prelude::*;

use crate::diff::{files_view, DiffSource, FileDiff};
use crate::git;
use crate::git::is_oid;
use crate::patch;
use crate::patch::{counts_fit, files_of, RawDelta};
use crate::text;

verus! {

/// How two versions are compared.
#[derive(Debug, Clone, Copy, PartialEq, Eq, Structural)]
pub struct CompareOptions {
    pub include_untracked: bool,
    pub recurse_untracked_dirs: bool,
    pub show_untracked_content: bool,
    /// The number of unchanged lines shown around a change.
    pub context_lines: u32,
}

/// The comparison behind the difference of a working tree or an index.
#[derive(Debug, Clone, Copy, PartialEq, Eq, Structural)]
pub enum Comparison {
    /// The index against the working tree.
    IndexToWorkdir(CompareOptions),
    /// HEAD, or nothing where there is no commit, against the index.
    HeadToIndex(CompareOptions),
}

pub open spec fn workspace_options() -> CompareOptions {
    CompareOptions {
        include_untracked: true,
        recurse_untracked_dirs: true,
        show_untracked_content: true,
        context_lines: 3,
    }
}

/// How a working tree is compared: new files and what is in them count.
pub fn default_options() -> (r: CompareOptions)
    ensures
        r == workspace_options(),
{
    CompareOptions {
        include_untracked: true,
        recurse_untracked_dirs: true,
        show_untracked_content: true,
        context_lines: 3,
    }
}

/// How a commit is compared with its first parent, or with nothing where it has none.
pub fn commit_options() -> (r: CompareOptions)
    ensures
        r == (CompareOptions {
            include_untracked: false,
            recurse_untracked_dirs: false,
            show_untracked_content: false,
            context_lines: 3,
        }),
{
    CompareOptions {
        include_untracked: false,
        recurse_untracked_dirs: false,
        show_untracked_content: false,
        context_lines: 3,
    }
}

/// The comparison to make.
pub open spec fn compared_for(source: DiffSource) -> Option<Comparison> {
    match source {
        DiffSource::Unstaged => Some(Comparison::IndexToWorkdir(workspace_options())),
        DiffSource::Staged => Some(Comparison::HeadToIndex(workspace_options())),
        DiffSource::Commit => None,
    }
}

/// The comparison to make. A commit is compared by [`commit_diff`] instead.
pub fn comparison(source: DiffSource) -> (r: Option<Comparison>)
    ensures
        r == compared_for(source),
{
    match source {
        DiffSource::Unstaged => Some(Comparison::IndexToWorkdir(default_options())),
        DiffSource::Staged => Some(Comparison::HeadToIndex(default_options())),
        DiffSource::Commit => None,
    }
}

/// The difference of a working tree or an index, from what its [`comparison`] gave.
pub fn workspace_diff(source: DiffSource, deltas: &Vec<RawDelta>) -> (r: Result<
    Vec<FileDiff>,
    String,
>)
    requires
        forall|i: int| 0 <= i < deltas@.len() ==> counts_fit(#[trigger] deltas@[i]),
    ensures
        match r {
            Ok(files) => source != DiffSource::Commit && files_view(files@) == files_of(deltas@),
            Err(error) => source == DiffSource::Commit && error@
                == "commit 的差異請改用 commit_diff"@,
        },
{
    match comparison(source) {
        Some(_) => Ok(patch::build_file_diffs(deltas)),
        None => Err("commit 的差異請改用 commit_diff".to_owned()),
    }
}

/// The difference a commit makes to its first parent, from what comparing them gave.
/// `deltas` is `None` where there is no such commit.
pub fn commit_diff(oid: &str, deltas: Option<&Vec<RawDelta>>) -> (r: Result<Vec<FileDiff>, String>)
    requires
        deltas matches Some(deltas) ==> forall|i: int|
            0 <= i < deltas@.len() ==> counts_fit(#[trigger] deltas@[i]),
    ensures
        match r {
            Ok(files) => is_oid(oid@) && deltas is Some && files_view(files@) == files_of(
                deltas->0@,
            ),
            Err(error) => if is_oid(oid@) {
                deltas is None && error@ == "找不到該 commit"@
            } else {
                error@ == "commit 識別碼格式錯誤"@
            },
        },
{
    if !git::names_object(oid) {
        return Err("commit 識別碼格式錯誤".to_owned());
    }
    match deltas {
        Some(deltas) => Ok(patch::build_file_diffs(deltas)),
        None => Err("找不到該 commit".to_owned()),
    }
}

/// One commit on the way back through a history.
#[derive(Debug)]
pub enum Visit {
    /// The way back ends here, with the reason.
    Failed(String),
    /// The commit, or what it changed, could not be read.
    Unreadable,
    /// The commit was compared with its first parent.
    Compared {
        oid: String,
        /// Whether the file is among what it changed.
        touched: bool,
    },
}

/// The commits that touch the file.
pub open spec fn touching(visits: Seq<Visit>) -> Seq<Seq<char>>
    decreases visits.len(),
{
    if visits.len() == 0 {
        Seq::empty()
    } else {
        let before = touching(visits.drop_last());
        match visits.last() {
            Visit::Compared { oid, touched: true } => before.push(oid@),
            _ => before,
        }
    }
}

/// Whether the visit at `i` ends the way back before `limit` commits are found.
pub open spec fn fails_at(visits: Seq<Visit>, limit: nat, i: int) -> bool {
    0 <= i < visits.len() && visits[i] is Failed && touching(visits.take(i)).len() < limit
}

/// The history of a file as it is gathered, the latest commit first.
#[derive(Debug)]
pub struct FileHistory {
    pub limit: usize,
    pub oids: Vec<String>,
}

impl FileHistory {
    pub fn new(limit: usize) -> (r: Self)
        ensures
            r.limit == limit,
            r.oids@.len() == 0,
    {
        FileHistory { limit, oids: Vec::new() }
    }

    pub fn wants_more(&self) -> (r: bool)
        ensures
            r == (self.oids@.len() < self.limit),
    {
        self.oids.len() < self.limit
    }

    /// Takes the next commit. The reason comes back where the way back fails.
    pub fn offer(&mut self, visit: Visit) -> (r: Option<String>)
        ensures
            final(self).limit == old(self).limit,
            match visit {
                Visit::Failed(reason) => r == Some(reason) && final(self).oids == old(self).oids,
                Visit::Unreadable => r is None && final(self).oids == old(self).oids,
                Visit::Compared { oid, touched } => r is None && final(self).oids@ == if touched {
                    old(self).oids@.push(oid)
                } else {
                    old(self).oids@
                },
            },
    {
        match visit {
            Visit::Failed(reason) => Some(reason),
            Visit::Unreadable => None,
            Visit::Compared { oid, touched } => {
                if touched {
                    self.oids.push(oid);
                }
                None
            },
        }
    }
}

/// What the first visits find comes first.
proof fn lemma_touching_grows(visits: Seq<Visit>, k: int)
    requires
        0 <= k <= visits.len(),
    ensures
        touching(visits.take(k)).len() <= touching(visits).len(),
        touching(visits.take(k)) == touching(visits).take(touching(visits.take(k)).len() as int),
    decreases visits.len(),
{
    let all = touching(visits);
    if k < visits.len() {
        lemma_touching_grows(visits.drop_last(), k);
        assert(visits.drop_last().take(k) =~= visits.take(k));
        let n = touching(visits.take(k)).len() as int;
        assert(all.take(n) =~= touching(visits.drop_last()).take(n));
    } else {
        assert(visits.take(k) =~= visits);
        assert(all.take(all.len() as int) =~= all);
    }
}

/// Whether this is the history of a file, or why it could not be gathered.
pub open spec fn is_history(
    r: Result<Vec<String>, String>,
    visits: Seq<Visit>,
    limit: usize,
) -> bool {
    match r {
        Ok(oids) => (forall|i: int| !#[trigger] fails_at(visits, limit as nat, i))
            && text::views_of(oids@) == if touching(visits).len() <= limit {
            touching(visits)
        } else {
            touching(visits).take(limit as int)
        },
        Err(error) => exists|i: int| #[trigger]
            fails_at(visits, limit as nat, i) && error == visits[i]->Failed_0 && (forall|k: int|
                k < i ==> !#[trigger] fails_at(visits, limit as nat, k)),
    }
}

/// The commits that touch a file, the latest first, `limit` at most.
pub fn file_history(visits: Vec<Visit>, limit: usize) -> (r: Result<Vec<String>, String>)
    ensures
        is_history(r, visits@, limit),
{
    let mut history = FileHistory::new(limit);
    let ghost all = visits@;
    let ghost mut count: int = 0;
    assert(text::views_of(history.oids@) =~= touching(all.take(0)));
    for visit in rest: visits
        invariant
            rest.seq() == all,
            history.limit == limit,
            0 <= count <= rest.index(),
            history.oids@.len() <= limit,
            text::views_of(history.oids@) == touching(all.take(count)),
            history.oids@.len() < limit ==> count == rest.index(),
            forall|i: int| i < count ==> !#[trigger] fails_at(all, limit as nat, i),
    {
        if history.wants_more() {
            let ghost held = history.oids@;
            proof {
                let seen = all.take(count + 1);
                assert(seen.drop_last() =~= all.take(count));
                assert(seen.last() == visit);
                assert(text::views_of(held).len() == held.len());
            }
            let failure = history.offer(visit);
            if let Some(reason) = failure {
                assert(fails_at(all, limit as nat, count));
                return Err(reason);
            }
            proof {
                if visit is Compared && visit->touched {
                    assert(text::views_of(history.oids@) =~= text::views_of(held).push(
                        visit->oid@,
                    ));
                }
                assert(!fails_at(all, limit as nat, count));
                count = count + 1;
            }
        }
    }
    proof {
        lemma_touching_grows(all, count);
        assert(text::views_of(history.oids@).len() == history.oids@.len());
        assert forall|i: int| !#[trigger] fails_at(all, limit as nat, i) by {
            if count <= i < all.len() {
                let first = all.take(i);
                lemma_touching_grows(first, count);
                assert(first.take(count) =~= all.take(count));
            }
        }
        if count == all.len() {
            assert(all.take(count) =~= all);
        }
        assert(text::views_of(history.oids@) =~= if touching(all).len() <= limit {
            touching(all)
        } else {
            touching(all).take(limit as int)
        });
    }
    Ok(history.oids)
}

} // verus!
