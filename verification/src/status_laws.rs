//! What holds of the state of a repository, whatever was read of it.
use vstd::prelude::*;

use crate::status::{
    counts_conflicted, counts_staged, counts_unstaged, counts_untracked, counts_view,
    is_status_of, last_name, name_of_path, tree_counts, RawRepo, RepoStatus, WorkingTree,
};
use crate::text::{first_index, first_index_is_first, lossy_text, parts_between};
use crate::text_laws::{separators_end_parts, trimming_takes_the_whole_run};

verus! {

proof fn lemma_same_count(flags: Seq<u32>, a: spec_fn(u32) -> bool, b: spec_fn(u32) -> bool)
    requires
        forall|bits: u32| #[trigger] a(bits) == b(bits),
    ensures
        flags.filter(a).len() == flags.filter(b).len(),
    decreases flags.len(),
{
    reveal(Seq::filter);
    if flags.len() > 0 {
        lemma_same_count(flags.drop_last(), a, b);
        assert(a(flags.last()) == b(flags.last()));
    }
}

/// Every file is counted by what its status bits say. A file in conflict counts as such
/// alone, and so does one that is not in the index. Of the others, each that is new,
/// changed, deleted, renamed or of another type in the index counts as staged, and each
/// that is changed, deleted, renamed or of another type in the working tree counts as
/// unstaged.
pub proof fn files_are_counted_by_their_bits(r: WorkingTree, flags: Seq<u32>)
    requires
        counts_view(r) == tree_counts(false, flags),
    ensures
        r.conflicted == flags.filter(|bits: u32| bits & 0x8000 != 0).len(),
        r.untracked == flags.filter(|bits: u32| bits & 0x8000 == 0 && bits & 0x80 != 0).len(),
        r.staged == flags.filter(
            |bits: u32|
                bits & 0x8000 == 0 && bits & 0x80 == 0 && (bits & 0x1 != 0 || bits & 0x2 != 0
                    || bits & 0x4 != 0 || bits & 0x8 != 0 || bits & 0x10 != 0),
        ).len(),
        r.unstaged == flags.filter(
            |bits: u32|
                bits & 0x8000 == 0 && bits & 0x80 == 0 && (bits & 0x100 != 0 || bits & 0x200 != 0
                    || bits & 0x400 != 0 || bits & 0x800 != 0),
        ).len(),
{
    lemma_same_count(
        flags,
        |bits: u32| counts_conflicted(bits),
        |bits: u32| bits & 0x8000 != 0,
    );
    lemma_same_count(
        flags,
        |bits: u32| counts_untracked(bits),
        |bits: u32| bits & 0x8000 == 0 && bits & 0x80 != 0,
    );
    lemma_same_count(
        flags,
        |bits: u32| counts_staged(bits),
        |bits: u32|
            bits & 0x8000 == 0 && bits & 0x80 == 0 && (bits & 0x1 != 0 || bits & 0x2 != 0 || bits
                & 0x4 != 0 || bits & 0x8 != 0 || bits & 0x10 != 0),
    );
    lemma_same_count(
        flags,
        |bits: u32| counts_unstaged(bits),
        |bits: u32|
            bits & 0x8000 == 0 && bits & 0x80 == 0 && (bits & 0x100 != 0 || bits & 0x200 != 0 || bits
                & 0x400 != 0 || bits & 0x800 != 0),
    );
}

/// A bare repository has no files to count.
pub proof fn bare_repositories_have_no_changes(r: WorkingTree, flags: Seq<u32>)
    requires
        counts_view(r) == tree_counts(true, flags),
    ensures
        r.staged == 0 && r.unstaged == 0 && r.untracked == 0 && r.conflicted == 0,
{
}

/// Whether the status bits of a file say that it was changed in any way.
pub open spec fn says_changed(bits: u32) -> bool {
    ||| bits & 0x8000 != 0
    ||| bits & 0x80 != 0
    ||| bits & 0x1 != 0
    ||| bits & 0x2 != 0
    ||| bits & 0x4 != 0
    ||| bits & 0x8 != 0
    ||| bits & 0x10 != 0
    ||| bits & 0x100 != 0
    ||| bits & 0x200 != 0
    ||| bits & 0x400 != 0
    ||| bits & 0x800 != 0
}

proof fn lemma_some_counted(flags: Seq<u32>, wanted: spec_fn(u32) -> bool, i: int)
    requires
        0 <= i < flags.len(),
        wanted(flags[i]),
    ensures
        flags.filter(wanted).len() > 0,
{
    flags.lemma_filter_contains(wanted, i);
}

/// Adding one file that was changed makes the tree unclean.
proof fn lemma_changed_is_counted(r: WorkingTree, flags: Seq<u32>, i: int)
    requires
        counts_view(r) == tree_counts(false, flags),
        0 <= i < flags.len(),
        says_changed(flags[i]),
    ensures
        r.staged > 0 || r.unstaged > 0 || r.untracked > 0 || r.conflicted > 0,
        flags[i] & 0x8000 != 0 ==> r.conflicted > 0,
{
    let bits = flags[i];
    files_are_counted_by_their_bits(r, flags);
    if bits & 0x8000 != 0 {
        lemma_some_counted(flags, |bits: u32| bits & 0x8000 != 0, i);
    } else if bits & 0x80 != 0 {
        lemma_some_counted(flags, |bits: u32| bits & 0x8000 == 0 && bits & 0x80 != 0, i);
    } else if bits & 0x1 != 0 || bits & 0x2 != 0 || bits & 0x4 != 0 || bits & 0x8 != 0 || bits
        & 0x10 != 0 {
        lemma_some_counted(
            flags,
            |bits: u32|
                bits & 0x8000 == 0 && bits & 0x80 == 0 && (bits & 0x1 != 0 || bits & 0x2 != 0
                    || bits & 0x4 != 0 || bits & 0x8 != 0 || bits & 0x10 != 0),
            i,
        );
    } else {
        lemma_some_counted(
            flags,
            |bits: u32|
                bits & 0x8000 == 0 && bits & 0x80 == 0 && (bits & 0x100 != 0 || bits & 0x200 != 0
                    || bits & 0x400 != 0 || bits & 0x800 != 0),
            i,
        );
    }
}

proof fn lemma_counted_is_there(flags: Seq<u32>, wanted: spec_fn(u32) -> bool) -> (i: int)
    requires
        flags.filter(wanted).len() > 0,
    ensures
        0 <= i < flags.len(),
        wanted(flags[i]),
{
    let found = flags.filter(wanted);
    flags.lemma_filter_pred(wanted, 0);
    flags.lemma_filter_contains_rev(wanted, found[0]);
    choose|i: int| 0 <= i < flags.len() && flags[i] == found[0]
}

/// A tree is clean exactly if no file of it was changed.
pub proof fn clean_means_no_changed_file(r: WorkingTree, flags: Seq<u32>)
    requires
        counts_view(r) == tree_counts(false, flags),
    ensures
        r.sum() == 0 <==> forall|i: int| 0 <= i < flags.len() ==> !says_changed(#[trigger] flags[i]),
        r.conflicted > 0 <==> exists|i: int|
            0 <= i < flags.len() && (#[trigger] flags[i]) & 0x8000 != 0,
{
    if exists|i: int| 0 <= i < flags.len() && says_changed(#[trigger] flags[i]) {
        let i = choose|i: int| 0 <= i < flags.len() && says_changed(#[trigger] flags[i]);
        lemma_changed_is_counted(r, flags, i);
    }
    if exists|i: int| 0 <= i < flags.len() && (#[trigger] flags[i]) & 0x8000 != 0 {
        let i = choose|i: int| 0 <= i < flags.len() && (#[trigger] flags[i]) & 0x8000 != 0;
        assert(says_changed(flags[i]));
        lemma_changed_is_counted(r, flags, i);
    }
    files_are_counted_by_their_bits(r, flags);
    if r.conflicted > 0 {
        let i = lemma_counted_is_there(flags, |bits: u32| bits & 0x8000 != 0);
        assert(flags[i] & 0x8000 != 0);
        assert(says_changed(flags[i]));
    }
    if r.untracked > 0 {
        let i = lemma_counted_is_there(flags, |bits: u32| bits & 0x8000 == 0 && bits & 0x80 != 0);
        assert(says_changed(flags[i]));
    }
    if r.staged > 0 {
        let i = lemma_counted_is_there(
            flags,
            |bits: u32|
                bits & 0x8000 == 0 && bits & 0x80 == 0 && (bits & 0x1 != 0 || bits & 0x2 != 0
                    || bits & 0x4 != 0 || bits & 0x8 != 0 || bits & 0x10 != 0),
        );
        assert(says_changed(flags[i]));
    }
    if r.unstaged > 0 {
        let i = lemma_counted_is_there(
            flags,
            |bits: u32|
                bits & 0x8000 == 0 && bits & 0x80 == 0 && (bits & 0x100 != 0 || bits & 0x200 != 0
                    || bits & 0x400 != 0 || bits & 0x800 != 0),
        );
        assert(says_changed(flags[i]));
    }
}

/// How much a repository needs to be looked at, by what was read of it: most where an
/// operation is in progress or a file is in conflict; else where both sides have commits of
/// their own, then where the remote has, then where this side has; then where a file was
/// changed; and only where nothing of all this holds is it clean.
pub proof fn attention_follows_what_was_read(r: RepoStatus, raw: RawRepo)
    requires
        is_status_of(r, raw),
    ensures
        ({
            let in_conflict = !raw.is_bare && exists|i: int|
                0 <= i < raw.flags@.len() && (#[trigger] raw.flags@[i]) & 0x8000 != 0;
            let changed = !raw.is_bare && exists|i: int|
                0 <= i < raw.flags@.len() && says_changed(#[trigger] raw.flags@[i]);
            let ahead = raw.distance matches Some(distance) && distance.0 > 0;
            let behind = raw.distance matches Some(distance) && distance.1 > 0;
            let urgent = !(raw.state is Clean) || in_conflict;
            &&& r.attention is NeedsAttention <==> urgent
            &&& r.attention is Diverged <==> !urgent && ahead && behind
            &&& r.attention is Incoming <==> !urgent && !ahead && behind
            &&& r.attention is Unpushed <==> !urgent && ahead && !behind
            &&& r.attention is Uncommitted <==> !urgent && !ahead && !behind && changed
            &&& r.attention is Clean <==> !urgent && !ahead && !behind && !changed
        }),
{
    if raw.is_bare {
        bare_repositories_have_no_changes(r.working_tree, raw.flags@);
    } else {
        clean_means_no_changed_file(r.working_tree, raw.flags@);
    }
}

/// The rest of a state is what was read: the branches, how far they are apart, and when
/// something was last fetched. The path is shown without the slashes at its end.
pub proof fn state_says_what_was_read(r: RepoStatus, raw: RawRepo)
    requires
        is_status_of(r, raw),
    ensures
        r.branch is Some <==> raw.branch is Some,
        raw.branch matches Some(name) ==> r.branch->0@ == lossy_text(name@),
        r.upstream == raw.upstream,
        raw.distance matches Some(distance) ==> r.ahead == distance.0 && r.behind == distance.1,
        raw.distance is None ==> r.ahead == 0 && r.behind == 0,
        r.last_fetch == raw.last_fetch,
        r.operation is Some <==> !(raw.state is Clean),
        r.path@.len() <= lossy_text(raw.path@).len(),
        r.path@ == lossy_text(raw.path@).take(r.path@.len() as int),
        forall|i: int|
            r.path@.len() <= i < lossy_text(raw.path@).len() ==> #[trigger] lossy_text(raw.path@)[i]
                == '/',
        r.path@.len() > 0 ==> r.path@.last() != '/',
{
    trimming_takes_the_whole_run(lossy_text(raw.path@), '/');
}

proof fn lemma_last_part(dir: Seq<char>, name: Seq<char>)
    requires
        !name.contains('/'),
    ensures
        parts_between(dir + seq!['/'] + name, '/') == parts_between(dir, '/') + seq![name],
    decreases dir.len(),
{
    first_index_is_first(dir, '/', 0);
    let at = first_index(dir, '/', 0);
    if at < dir.len() {
        let first = dir.take(at);
        let rest = dir.skip(at + 1);
        assert(!first.contains('/')) by {
            if first.contains('/') {
                let i = choose|i: int| 0 <= i < first.len() && first[i] == '/';
                assert(dir[i] == '/');
            }
        }
        lemma_last_part(rest, name);
        assert(dir =~= first + seq!['/'] + rest);
        separators_end_parts(first, '/', rest);
        separators_end_parts(first, '/', rest + seq!['/'] + name);
        assert(dir + seq!['/'] + name =~= first + seq!['/'] + (rest + seq!['/'] + name));
        assert(seq![first] + (parts_between(rest, '/') + seq![name]) =~= seq![first]
            + parts_between(rest, '/') + seq![name]);
    } else {
        assert(!dir.contains('/')) by {
            if dir.contains('/') {
                let i = choose|i: int| 0 <= i < dir.len() && dir[i] == '/';
                assert(dir[i] == '/');
            }
        }
        separators_end_parts(dir, '/', name);
        separators_end_parts(name, '/', dir);
        separators_end_parts(dir, '/', dir);
        assert(parts_between(dir, '/') =~= seq![dir]);
    }
}

/// A repository is called by the last part of its path.
pub proof fn repositories_are_called_by_their_directory(dir: Seq<char>, name: Seq<char>)
    requires
        !name.contains('/'),
        name.len() > 0,
        name != "."@,
        name != ".."@,
    ensures
        name_of_path(dir + seq!['/'] + name) == name,
        name_of_path(name) == name,
{
    lemma_last_part(dir, name);
    separators_end_parts(name, '/', dir);
    let parts = parts_between(dir, '/') + seq![name];
    assert(parts.last() == name);
    assert(seq![name].last() == name);
}

/// Slashes and dots at the end of a path do not bear on the name, and a path that ends by
/// going up is called by itself.
pub proof fn names_see_through_slashes_and_dots(path: Seq<char>)
    ensures
        last_name(parts_between(path + seq!['/'], '/')) == last_name(parts_between(path, '/')),
        last_name(parts_between(path + seq!['/'] + "."@, '/')) == last_name(
            parts_between(path, '/'),
        ),
        name_of_path(path + seq!['/'] + ".."@) == path + seq!['/'] + ".."@,
        name_of_path(Seq::empty()) == Seq::<char>::empty(),
{
    reveal_strlit(".");
    reveal_strlit("..");
    let nothing = Seq::<char>::empty();
    lemma_last_part(path, nothing);
    assert(path + seq!['/'] + nothing =~= path + seq!['/']);
    let slashed = parts_between(path, '/') + seq![nothing];
    assert(slashed.drop_last() =~= parts_between(path, '/'));
    assert(!"."@.contains('/'));
    lemma_last_part(path, "."@);
    let dotted = parts_between(path, '/') + seq!["."@];
    assert(dotted.drop_last() =~= parts_between(path, '/'));
    assert(!".."@.contains('/'));
    lemma_last_part(path, ".."@);
    let up = parts_between(path, '/') + seq![".."@];
    assert(up.last() == ".."@);
    assert(".."@.len() != "."@.len());
    separators_end_parts(nothing, '/', nothing);
    assert(seq![nothing].drop_last() =~= Seq::empty());
    assert(last_name(Seq::empty()) is None);
    assert(last_name(seq![nothing]) is None);
}

} // verus!
