//! What holds of every analysis of how a branch and its remote branch differ.
use vstd::prelude::*;

use crate::divergence::{
    all_listed, dirty_in, infos_view, is_divergence_of, is_path_of, listed, paths_in, CommitInfo,
    ConflictRisk, Divergence, RawCommit, RawDivergence, RawPaths, Recommendation,
};
use crate::text;
use crate::text::{lossy_text, precedes};

verus! {

/// Whether a change of the given list is a change of the file at `path`, by its old name or
/// by its new one.
pub open spec fn changes_file(changes: Seq<RawPaths>, path: Seq<char>) -> bool {
    exists|i: int|
        #![trigger changes[i]]
        0 <= i < changes.len() && ((changes[i].old is Some && lossy_text(changes[i].old->0@) == path)
            || (changes[i].new is Some && lossy_text(changes[i].new->0@) == path))
}

/// Whether a list of files names `path`.
pub open spec fn names(files: Seq<String>, path: Seq<char>) -> bool {
    exists|i: int| 0 <= i < files.len() && (#[trigger] files[i])@ == path
}

proof fn lemma_changes_file(changes: Seq<RawPaths>, path: Seq<char>)
    ensures
        paths_in(changes).contains(path) <==> changes_file(changes, path),
{
    if paths_in(changes).contains(path) {
        let i = choose|i: int| 0 <= i < changes.len() && is_path_of(path, #[trigger] changes[i]);
        assert(is_path_of(path, changes[i]));
    }
    if changes_file(changes, path) {
        let i = choose|i: int|
            #![trigger changes[i]]
            0 <= i < changes.len() && ((changes[i].old is Some && lossy_text(changes[i].old->0@)
                == path) || (changes[i].new is Some && lossy_text(changes[i].new->0@) == path));
        assert(is_path_of(path, changes[i]));
    }
}

proof fn lemma_names(files: Seq<String>, path: Seq<char>)
    ensures
        text::views_of(files).contains(path) <==> names(files, path),
{
    let views = text::views_of(files);
    if views.contains(path) {
        let i = choose|i: int| 0 <= i < views.len() && views[i] == path;
        assert(files[i]@ == path);
    }
    if names(files, path) {
        let i = choose|i: int| 0 <= i < files.len() && (#[trigger] files[i])@ == path;
        assert(views[i] == path);
    }
}

/// The files of each side are those that its changes name, by their old names and by their
/// new ones, and the files of both sides are those that both name.
pub proof fn files_are_those_that_changes_name(r: Divergence, raw: RawDivergence, path: Seq<char>)
    requires
        is_divergence_of(r, raw),
    ensures
        names(r.local_files@, path) <==> changes_file(raw.local_changes@, path),
        names(r.incoming_files@, path) <==> changes_file(raw.incoming_changes@, path),
        names(r.overlapping_files@, path) <==> changes_file(raw.local_changes@, path)
            && changes_file(raw.incoming_changes@, path),
{
    let local = paths_in(raw.local_changes@);
    let incoming = paths_in(raw.incoming_changes@);
    lemma_changes_file(raw.local_changes@, path);
    lemma_changes_file(raw.incoming_changes@, path);
    lemma_names(r.local_files@, path);
    lemma_names(r.incoming_files@, path);
    lemma_names(r.overlapping_files@, path);
    assert(text::views_of(r.local_files@).contains(path) <==> local.contains(path));
    assert(text::views_of(r.incoming_files@).contains(path) <==> incoming.contains(path));
    assert(text::views_of(r.overlapping_files@).contains(path) <==> local.intersect(
        incoming,
    ).contains(path));
}

/// The warning names every file with uncommitted changes that what comes in changes too,
/// and no other. A bare repository has none.
pub proof fn warning_names_the_files_at_risk(r: Divergence, raw: RawDivergence, path: Seq<char>)
    requires
        is_divergence_of(r, raw),
    ensures
        names(r.uncommitted_overlap@, path) <==> !raw.is_bare && changes_file(
            raw.incoming_changes@,
            path,
        ) && exists|i: int|
            0 <= i < raw.uncommitted@.len() && lossy_text((#[trigger] raw.uncommitted@[i])@) == path,
{
    let incoming = paths_in(raw.incoming_changes@);
    let dirty = dirty_in(raw.is_bare, raw.uncommitted@);
    lemma_changes_file(raw.incoming_changes@, path);
    lemma_names(r.uncommitted_overlap@, path);
    assert(text::views_of(r.uncommitted_overlap@).contains(path) <==> incoming.intersect(
        dirty,
    ).contains(path));
}

/// Every file list stands in order, and no file stands in it twice.
pub proof fn file_lists_are_in_order(r: Divergence, raw: RawDivergence, i: int, j: int)
    requires
        is_divergence_of(r, raw),
        0 <= i < j,
    ensures
        j < r.local_files@.len() ==> precedes(r.local_files@[i]@, r.local_files@[j]@),
        j < r.incoming_files@.len() ==> precedes(r.incoming_files@[i]@, r.incoming_files@[j]@),
        j < r.overlapping_files@.len() ==> precedes(
            r.overlapping_files@[i]@,
            r.overlapping_files@[j]@,
        ),
        j < r.uncommitted_overlap@.len() ==> precedes(
            r.uncommitted_overlap@[i]@,
            r.uncommitted_overlap@[j]@,
        ),
{
    let (local, incoming) = (text::views_of(r.local_files@), text::views_of(r.incoming_files@));
    let (both, risk) = (
        text::views_of(r.overlapping_files@),
        text::views_of(r.uncommitted_overlap@),
    );
    if j < local.len() {
        assert(precedes(local[i], local[j]));
    }
    if j < incoming.len() {
        assert(precedes(incoming[i], incoming[j]));
    }
    if j < both.len() {
        assert(precedes(both[i], both[j]));
    }
    if j < risk.len() {
        assert(precedes(risk[i], risk[j]));
    }
}

/// An uncommitted file that what comes in changes is listed, whichever it is, and the
/// advice is then to see to it first.
pub proof fn no_uncommitted_file_is_passed_over(
    r: Divergence,
    raw: RawDivergence,
    i: int,
    j: int,
)
    requires
        is_divergence_of(r, raw),
        !raw.is_bare,
        0 <= i < raw.uncommitted@.len(),
        0 <= j < raw.incoming_changes@.len(),
        ({
            let change = raw.incoming_changes@[j];
            let path = lossy_text(raw.uncommitted@[i]@);
            (change.old is Some && lossy_text(change.old->0@) == path) || (change.new is Some
                && lossy_text(change.new->0@) == path)
        }),
    ensures
        exists|k: int|
            0 <= k < r.uncommitted_overlap@.len() && (#[trigger] r.uncommitted_overlap@[k])@
                == lossy_text(raw.uncommitted@[i]@),
        raw.upstream is Some && raw.behind@.len() > 0
            ==> r.recommendation is ResolveWorkingTreeFirst,
{
    let path = lossy_text(raw.uncommitted@[i]@);
    assert(changes_file(raw.incoming_changes@, path)) by {
        let change = raw.incoming_changes@[j];
        assert((change.old is Some && lossy_text(change.old->0@) == path) || (change.new is Some
            && lossy_text(change.new->0@) == path));
    }
    assert(exists|i: int|
        0 <= i < raw.uncommitted@.len() && lossy_text((#[trigger] raw.uncommitted@[i])@) == path);
    warning_names_the_files_at_risk(r, raw, path);
    let k = choose|k: int|
        0 <= k < r.uncommitted_overlap@.len() && (#[trigger] r.uncommitted_overlap@[k])@ == path;
    assert(r.uncommitted_overlap@.len() > k);
}

/// Whether an uncommitted file is changed by what comes in.
pub open spec fn work_at_risk(raw: RawDivergence) -> bool {
    !raw.is_bare && exists|i: int|
        0 <= i < raw.uncommitted@.len() && changes_file(
            raw.incoming_changes@,
            lossy_text((#[trigger] raw.uncommitted@[i])@),
        )
}

/// Whether a file is changed on both sides.
pub open spec fn common_file(raw: RawDivergence) -> bool {
    exists|path: Seq<char>| #[trigger]
        changes_file(raw.local_changes@, path) && changes_file(raw.incoming_changes@, path)
}

/// What is advised, by what was read: nothing can be without a remote branch; uncommitted
/// work that what comes in touches goes first; with nothing on either side all is done;
/// what one side alone has is pushed or taken over; and where both have something, to
/// reapply is advised, without a risk exactly if no file is changed on both sides.
pub proof fn advice_follows_what_was_read(r: Divergence, raw: RawDivergence)
    requires
        is_divergence_of(r, raw),
    ensures
        ({
            let ahead = raw.ahead@.len() > 0;
            let behind = raw.behind@.len() > 0;
            &&& r.recommendation is NoUpstream <==> raw.upstream is None
            &&& r.recommendation is ResolveWorkingTreeFirst <==> raw.upstream is Some && behind
                && work_at_risk(raw)
            &&& r.recommendation is UpToDate <==> raw.upstream is Some && !ahead && !behind
            &&& r.recommendation is Push <==> raw.upstream is Some && ahead && !behind
            &&& r.recommendation is FastForward <==> raw.upstream is Some && !ahead && behind
                && !work_at_risk(raw)
            &&& r.recommendation == Recommendation::Rebase(ConflictRisk::Absent) <==> raw.upstream
                is Some && ahead && behind && !work_at_risk(raw) && !common_file(raw)
            &&& r.recommendation == Recommendation::Rebase(ConflictRisk::Possible)
                <==> raw.upstream is Some && ahead && behind && !work_at_risk(raw) && common_file(
                raw,
            )
        }),
{
    assert(work_at_risk(raw) <==> r.uncommitted_overlap@.len() > 0) by {
        if work_at_risk(raw) {
            let i = choose|i: int|
                0 <= i < raw.uncommitted@.len() && changes_file(
                    raw.incoming_changes@,
                    lossy_text((#[trigger] raw.uncommitted@[i])@),
                );
            warning_names_the_files_at_risk(r, raw, lossy_text(raw.uncommitted@[i]@));
        }
        if r.uncommitted_overlap@.len() > 0 {
            let path = r.uncommitted_overlap@[0]@;
            assert(names(r.uncommitted_overlap@, path));
            warning_names_the_files_at_risk(r, raw, path);
            let i = choose|i: int|
                0 <= i < raw.uncommitted@.len() && lossy_text((#[trigger] raw.uncommitted@[i])@)
                    == path;
            assert(changes_file(raw.incoming_changes@, lossy_text(raw.uncommitted@[i]@)));
        }
    }
    assert(common_file(raw) <==> r.overlapping_files@.len() > 0) by {
        if common_file(raw) {
            let path = choose|path: Seq<char>| #[trigger]
                changes_file(raw.local_changes@, path) && changes_file(raw.incoming_changes@, path);
            files_are_those_that_changes_name(r, raw, path);
        }
        if r.overlapping_files@.len() > 0 {
            let path = r.overlapping_files@[0]@;
            assert(names(r.overlapping_files@, path));
            files_are_those_that_changes_name(r, raw, path);
        }
    }
}

/// Whether this is how a commit is listed: its id, the first eight characters of it, its
/// summary, its author and its time.
pub open spec fn lists_commit(info: CommitInfo, commit: RawCommit) -> bool {
    &&& info.oid@ == commit.oid@
    &&& info.short_oid@ == commit.oid@.take(
        if commit.oid@.len() < 8 {
            commit.oid@.len() as int
        } else {
            8
        },
    )
    &&& commit.summary is Some ==> info.summary@ == lossy_text(commit.summary->0@)
    &&& commit.summary is None ==> info.summary@.len() == 0
    &&& info.author@ == lossy_text(commit.author@)
    &&& info.timestamp == commit.timestamp
}

proof fn lemma_lists_commit(info: CommitInfo, commit: RawCommit)
    requires
        info@ == listed(commit),
    ensures
        lists_commit(info, commit),
{
    assert(commit.oid@.take(commit.oid@.len() as int) =~= commit.oid@);
}

/// All commits of either side are listed, in the order in which they were read, and the
/// branches are those that were read.
pub proof fn every_commit_is_listed(r: Divergence, raw: RawDivergence)
    requires
        is_divergence_of(r, raw),
    ensures
        r.ahead@.len() == raw.ahead@.len(),
        r.behind@.len() == raw.behind@.len(),
        forall|i: int|
            0 <= i < raw.ahead@.len() ==> lists_commit(#[trigger] r.ahead@[i], raw.ahead@[i]),
        forall|i: int|
            0 <= i < raw.behind@.len() ==> lists_commit(#[trigger] r.behind@[i], raw.behind@[i]),
        r.upstream == raw.upstream,
        r.branch is Some <==> raw.branch is Some,
        raw.branch matches Some(name) ==> r.branch->0@ == lossy_text(name@),
{
    assert(infos_view(r.ahead@).len() == all_listed(raw.ahead@).len());
    assert(infos_view(r.behind@).len() == all_listed(raw.behind@).len());
    assert forall|i: int| 0 <= i < raw.ahead@.len() implies lists_commit(
        #[trigger] r.ahead@[i],
        raw.ahead@[i],
    ) by {
        assert(infos_view(r.ahead@)[i] == all_listed(raw.ahead@)[i]);
        lemma_lists_commit(r.ahead@[i], raw.ahead@[i]);
    }
    assert forall|i: int| 0 <= i < raw.behind@.len() implies lists_commit(
        #[trigger] r.behind@[i],
        raw.behind@[i],
    ) by {
        assert(infos_view(r.behind@)[i] == all_listed(raw.behind@)[i]);
        lemma_lists_commit(r.behind@[i], raw.behind@[i]);
    }
}

} // verus!
