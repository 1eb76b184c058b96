//! What holds of every conflict that is looked at or resolved.
use vstd::prelude::*;
use vstd::utf8::{decode_utf8, valid_utf8};

use crate::conflict::{
    by_path, conflict_of, conflict_path, conflicts_of, conflicts_view, find_conflict, labels_sides,
    resolves_with, takes_side, ConflictFile, ConflictView, RawConflict, RawSide, Side, SideLabels,
    SideView,
};
use crate::git::RepoState;
use crate::operation::{Operation, Request, Step};
use crate::sorting::{is_order, sorted, sorting_keeps_items, sorting_puts_in_order};
use crate::text::{lossy_text, precedes, precedes_is_total, precedes_is_transitive};
use crate::workspace_laws::lemma_same_members;

verus! {

/// Whether a version of a file is shown as it was read: missing if it is not there or
/// cannot be read, and without a text if it is binary.
pub open spec fn shows_version(shown: SideView, read: Option<RawSide>) -> bool {
    &&& shown.exists <==> read is Some && read->0.blob is Some
    &&& shown.text is Some <==> read is Some && read->0.blob is Some && !read->0.blob->0.is_binary
    &&& shown.text is Some ==> shown.text->0 == lossy_text(read->0.blob->0.bytes@)
}

/// Whether a conflict is shown as it was read: each of its three versions as such, and what
/// is in the working tree as far as it is text. It is binary if either side is.
pub open spec fn shows_conflict(shown: ConflictView, read: RawConflict) -> bool {
    &&& shows_version(shown.base, read.ancestor)
    &&& shows_version(shown.ours, read.our)
    &&& shows_version(shown.theirs, read.their)
    &&& shown.merged is Some <==> read.merged is Some && valid_utf8(read.merged->0@)
    &&& shown.merged is Some ==> shown.merged->0 == decode_utf8(read.merged->0@)
    &&& shown.is_binary <==> (read.our is Some && read.our->0.blob is Some
        && read.our->0.blob->0.is_binary) || (read.their is Some && read.their->0.blob is Some
        && read.their->0.blob->0.is_binary)
    &&& read.our is Some ==> shown.path == lossy_text(read.our->0.path@)
    &&& read.our is None && read.their is Some ==> shown.path == lossy_text(read.their->0.path@)
    &&& read.our is None && read.their is None && read.ancestor is Some ==> shown.path
        == lossy_text(read.ancestor->0.path@)
}

/// A conflict is shown as it was read.
pub proof fn conflicts_are_shown_as_read(raw: RawConflict)
    ensures
        shows_conflict(conflict_of(raw), raw),
        conflict_path(raw) is None <==> raw.our is None && raw.their is None && raw.ancestor is None,
{
}

/// Every conflict is listed, and the list holds nothing else.
pub proof fn every_conflict_is_listed(files: Seq<ConflictFile>, raw: Seq<RawConflict>, i: int)
    requires
        conflicts_view(files) == sorted(conflicts_of(raw), by_path()),
    ensures
        files.len() == raw.len(),
        0 <= i < raw.len() ==> exists|k: int|
            #![trigger files[k]]
            0 <= k < files.len() && shows_conflict(files[k]@, raw[i]),
        0 <= i < files.len() ==> exists|k: int|
            #![trigger raw[k]]
            0 <= k < raw.len() && shows_conflict(files[i]@, raw[k]),
{
    let read = conflicts_of(raw);
    let shown = conflicts_view(files);
    assert(shown.len() == files.len());
    sorting_keeps_items(read, by_path());
    if 0 <= i < raw.len() {
        assert(read[i] == conflict_of(raw[i]));
        assert(read.contains(read[i]));
        lemma_same_members(read, shown, read[i]);
        let k = choose|k: int| 0 <= k < shown.len() && shown[k] == read[i];
        assert(files[k]@ == read[i]);
        assert(shows_conflict(files[k]@, raw[i]));
    }
    if 0 <= i < files.len() {
        assert(shown[i] == files[i]@);
        assert(shown.contains(shown[i]));
        lemma_same_members(shown, read, shown[i]);
        let k = choose|k: int| 0 <= k < read.len() && read[k] == shown[i];
        assert(read[k] == conflict_of(raw[k]));
        assert(shows_conflict(files[i]@, raw[k]));
    }
}

/// Conflicts are listed by their paths.
pub proof fn conflicts_are_in_order(
    files: Seq<ConflictFile>,
    raw: Seq<RawConflict>,
    i: int,
    j: int,
)
    requires
        conflicts_view(files) == sorted(conflicts_of(raw), by_path()),
        0 <= i < j < files.len(),
    ensures
        precedes(files[i].path@, files[j].path@) || files[i].path@ == files[j].path@,
{
    let shown = conflicts_view(files);
    let before = by_path();
    assert(shown.len() == files.len());
    assert(is_order(before)) by {
        assert forall|a: ConflictView, b: ConflictView| #[trigger] before(a, b) implies !before(
            b,
            a,
        ) by {
            precedes_is_total(a.path, b.path);
        }
        assert forall|a: ConflictView, b: ConflictView, c: ConflictView|
            #![trigger before(a, b), before(c, b)]
            before(a, b) && !before(c, b) implies before(a, c) by {
            precedes_is_total(b.path, c.path);
            if b.path != c.path {
                precedes_is_transitive(a.path, b.path, c.path);
            }
        }
    }
    sorting_puts_in_order(conflicts_of(raw), before);
    assert(!before(shown[j], shown[i]));
    precedes_is_total(files[i].path@, files[j].path@);
}

proof fn lemma_find_conflict(files: Seq<ConflictView>, path: Seq<char>, k: int)
    requires
        0 <= k <= files.len(),
        forall|i: int| 0 <= i < k ==> (#[trigger] files[i]).path != path,
        k < files.len() ==> files[k].path == path,
    ensures
        find_conflict(files, path) == if k < files.len() {
            Some(files[k])
        } else {
            None
        },
    decreases files.len(),
{
    if files.len() > 0 && k > 0 {
        assert(files[0].path != path);
        let rest = files.drop_first();
        assert forall|i: int| 0 <= i < k - 1 implies (#[trigger] rest[i]).path != path by {
            assert(rest[i] == files[i + 1]);
        }
        lemma_find_conflict(rest, path, k - 1);
    }
}

/// The version that was asked for.
pub open spec fn asked_for(file: ConflictView, side: Side) -> SideView {
    if side == Side::Ours {
        file.ours
    } else {
        file.theirs
    }
}

/// Taking a side of a file takes that side of that file: its text is written to the path and
/// the path marked as resolved. Where the side deleted the file, the file and its entry in
/// the index go. A binary version is not taken.
pub proof fn side_that_was_asked_for_is_taken(
    step: Step,
    files: Seq<ConflictView>,
    path: Seq<char>,
    side: Side,
    k: int,
)
    requires
        takes_side(step, files, path, side),
        0 <= k < files.len(),
        files[k].path == path,
        forall|i: int| 0 <= i < k ==> (#[trigger] files[i]).path != path,
    ensures
        ({
            let asked = asked_for(files[k], side);
            &&& asked.exists && asked.text is Some ==> {
                &&& step matches Step::Ask(Operation::Plan(rest), Request::WriteFile {
                    path: at,
                    content,
                })
                &&& at@ == path
                &&& content@ == asked.text->0
                &&& rest.steps@.len() == 1
                &&& rest.steps@[0] matches Request::MarkResolved { path: marked }
                &&& marked@ == path
            }
            &&& !asked.exists ==> {
                &&& step matches Step::Ask(Operation::Plan(rest), Request::DeleteFile { path: at })
                &&& at@ == path
                &&& rest.steps@.len() == 1
                &&& rest.steps@[0] matches Request::RemoveFromIndex { path: removed }
                &&& removed@ == path
            }
            &&& asked.exists && asked.text is None ==> step is Refused
        }),
{
    lemma_find_conflict(files, path, k);
}

/// Where no file of that path is in conflict, there is nothing to take.
pub proof fn nothing_is_taken_of_other_files(
    step: Step,
    files: Seq<ConflictView>,
    path: Seq<char>,
    side: Side,
)
    requires
        takes_side(step, files, path, side),
        forall|i: int| 0 <= i < files.len() ==> (#[trigger] files[i]).path != path,
    ensures
        step is Refused,
{
    lemma_find_conflict(files, path, files.len() as int);
}

/// Content that was edited by hand is written to the path as it is, and the path marked as
/// resolved.
pub proof fn edited_content_is_written(step: Step, path: Seq<char>, content: Seq<char>)
    requires
        resolves_with(step, path, content),
    ensures
        step matches Step::Ask(Operation::Plan(rest), Request::WriteFile {
            path: at,
            content: written,
        }) && at@ == path && written@ == content && rest.steps@.len() == 1 && (
        rest.steps@[0] matches Request::MarkResolved { path: marked } && marked@ == path)
            && rest.outcome.undo is None,
{
}

/// In a rebase the sides go by other names than in a merge: what is called ours there is
/// the base, and one's own commit is called theirs. The two sides never go by the same name.
pub proof fn sides_are_told_apart(
    merging: SideLabels,
    rebasing: SideLabels,
    other: SideLabels,
    rebase: RepoState,
    rest: RepoState,
)
    requires
        labels_sides(merging, RepoState::Merge),
        rebase == RepoState::Rebase || rebase == RepoState::RebaseMerge || rebase
            == RepoState::RebaseInteractive,
        labels_sides(rebasing, rebase),
        rest != RepoState::Merge,
        rest != RepoState::Rebase,
        rest != RepoState::RebaseMerge,
        rest != RepoState::RebaseInteractive,
        labels_sides(other, rest),
    ensures
        merging.ours@ == "你目前的分支"@,
        merging.theirs@ == "併入的內容（遠端）"@,
        rebasing.ours@ == "接上去的基底（遠端已有的內容）"@,
        rebasing.theirs@ == "你的 commit（正在被重新套用）"@,
        other.ours@ == "目前的版本"@,
        other.theirs@ == "另一個版本"@,
        other.note@.len() == 0,
        merging.note@.len() > 0,
        rebasing.note@.len() > 0,
{
    reveal_strlit("合併是把對方的內容併進你的分支。");
    reveal_strlit(
        "rebase 是把你的 commit 逐一接到遠端內容之後，                   因此「基底」是遠端那一邊。",
    );
}

} // verus!
