//! What holds of every listing of the working tree.
use vstd::prelude::*;

use crate::sorting::{is_order, sorting_keeps_items, sorting_puts_in_order};
use crate::text;
use crate::text::{lossy_text, precedes, precedes_is_total, precedes_is_transitive};
use crate::workspace::{
    branch_order, branches_view, change_of, change_order, changes_of, changes_view, deleted_text,
    lists_branches, lists_changes, named_branches, staged_word, stash_label, unstaged_word, Branch,
    BranchInfo, Change, FileChange, RawBranch, RawStatus,
};

verus! {

/// What is staged of a file goes by the bits of the index alone. A new file is new, whatever
/// else happened to it, and so on through modified, deleted and renamed.
pub proof fn staged_words_follow_the_index(bits: u32)
    ensures
        staged_word(bits) == "new"@ <==> bits & 0x1 != 0,
        staged_word(bits) == "modified"@ <==> bits & 0x1 == 0 && bits & 0x2 != 0,
        staged_word(bits) == "deleted"@ <==> bits & 0x1 == 0 && bits & 0x2 == 0 && bits & 0x4 != 0,
        staged_word(bits) == "none"@ <==> bits & 0x1 == 0 && bits & 0x2 == 0 && bits & 0x4 == 0
            && bits & 0x8 == 0 && bits & 0x10 == 0,
        staged_word(bits) == "renamed"@ <==> bits & 0x1 == 0 && bits & 0x2 == 0 && bits & 0x4 == 0
            && (bits & 0x8 != 0 || bits & 0x10 != 0),
{
    lemma_words_differ();
}

/// What is not staged of a file goes by the bits of the working tree alone.
pub proof fn unstaged_words_follow_the_working_tree(bits: u32)
    ensures
        unstaged_word(bits) == "new"@ <==> bits & 0x80 != 0,
        unstaged_word(bits) == "modified"@ <==> bits & 0x80 == 0 && bits & 0x100 != 0,
        unstaged_word(bits) == "deleted"@ <==> bits & 0x80 == 0 && bits & 0x100 == 0 && bits & 0x200
            != 0,
        unstaged_word(bits) == "none"@ <==> bits & 0x80 == 0 && bits & 0x100 == 0 && bits & 0x200
            == 0 && bits & 0x400 == 0 && bits & 0x800 == 0,
        unstaged_word(bits) == "renamed"@ <==> bits & 0x80 == 0 && bits & 0x100 == 0 && bits & 0x200
            == 0 && (bits & 0x400 != 0 || bits & 0x800 != 0),
{
    lemma_words_differ();
}

proof fn lemma_words_differ()
    ensures
        "new"@ != "modified"@,
        "new"@ != "deleted"@,
        "new"@ != "renamed"@,
        "new"@ != "none"@,
        "modified"@ != "deleted"@,
        "modified"@ != "renamed"@,
        "modified"@ != "none"@,
        "deleted"@ != "renamed"@,
        "deleted"@ != "none"@,
        "renamed"@ != "none"@,
{
    reveal_strlit("new");
    reveal_strlit("modified");
    reveal_strlit("deleted");
    reveal_strlit("renamed");
    reveal_strlit("none");
    assert("new"@.len() == 3 && "modified"@.len() == 8 && "none"@.len() == 4);
    assert("deleted"@.len() == 7 && "deleted"@[0] == 'd' && "renamed"@.len() == 7 && "renamed"@[0]
        == 'r');
}

proof fn lemma_change_order()
    ensures
        is_order(change_order()),
{
    let before = change_order();
    assert forall|a: Change, b: Change| #[trigger] before(a, b) implies !before(b, a) by {
        precedes_is_total(a.path, b.path);
    }
    assert forall|a: Change, b: Change, c: Change|
        #![trigger before(a, b), before(c, b)]
        before(a, b) && !before(c, b) implies before(a, c) by {
        precedes_is_total(b.path, c.path);
        if b.path != c.path {
            precedes_is_transitive(a.path, b.path, c.path);
        }
    }
}

/// What one of two lists holds the other holds too, if they hold the same things.
pub proof fn lemma_same_members<T>(a: Seq<T>, b: Seq<T>, item: T)
    requires
        a.to_multiset() == b.to_multiset(),
        a.contains(item),
    ensures
        b.contains(item),
{
    broadcast use vstd::seq_lib::group_to_multiset_ensures;

    assert(a.to_multiset().count(item) > 0);
    assert(b.to_multiset().count(item) > 0);
}

/// Every file with a status is listed, under its path and with what its bits say, and no
/// other is. A bare repository lists none.
pub proof fn every_change_is_listed(
    r: Seq<FileChange>,
    is_bare: bool,
    statuses: Seq<RawStatus>,
    i: int,
)
    requires
        lists_changes(r, is_bare, statuses),
    ensures
        is_bare ==> r.len() == 0,
        !is_bare ==> r.len() == statuses.len(),
        !is_bare && 0 <= i < statuses.len() ==> exists|k: int|
            0 <= k < r.len() && (#[trigger] r[k]).path@ == lossy_text(statuses[i].path@)
                && r[k].staged@ == staged_word(statuses[i].bits) && r[k].unstaged@ == unstaged_word(
                statuses[i].bits,
            ) && r[k].is_untracked == (statuses[i].bits & 0x80 != 0) && r[k].is_conflicted == (
            statuses[i].bits & 0x8000 != 0),
        !is_bare && 0 <= i < r.len() ==> exists|k: int|
            0 <= k < statuses.len() && r[i].path@ == lossy_text((#[trigger] statuses[k]).path@)
                && r[i].staged@ == staged_word(statuses[k].bits) && r[i].unstaged@ == unstaged_word(
                statuses[k].bits,
            ) && r[i].is_untracked == (statuses[k].bits & 0x80 != 0) && r[i].is_conflicted == (
            statuses[k].bits & 0x8000 != 0),
{
    let read = changes_of(statuses);
    let shown = changes_view(r);
    assert(shown.len() == r.len());
    if !is_bare {
        sorting_keeps_items(read, change_order());
        if 0 <= i < statuses.len() {
            assert(read[i] == change_of(statuses[i]));
            assert(read.contains(read[i]));
            lemma_same_members(read, shown, read[i]);
            let k = choose|k: int| 0 <= k < shown.len() && shown[k] == read[i];
            assert(r[k]@ == read[i]);
        }
        if 0 <= i < r.len() {
            assert(shown[i] == r[i]@);
            assert(shown.contains(shown[i]));
            lemma_same_members(shown, read, shown[i]);
            let k = choose|k: int| 0 <= k < read.len() && read[k] == shown[i];
            assert(read[k] == change_of(statuses[k]));
        }
    }
}

/// Files are listed by their paths.
pub proof fn changes_are_in_order(
    r: Seq<FileChange>,
    is_bare: bool,
    statuses: Seq<RawStatus>,
    i: int,
    j: int,
)
    requires
        lists_changes(r, is_bare, statuses),
        0 <= i < j < r.len(),
    ensures
        precedes(r[i].path@, r[j].path@) || r[i].path@ == r[j].path@,
{
    let shown = changes_view(r);
    assert(shown.len() == r.len());
    lemma_change_order();
    sorting_puts_in_order(changes_of(statuses), change_order());
    assert(!change_order()(shown[j], shown[i]));
    precedes_is_total(r[i].path@, r[j].path@);
}

/// What is shown of a branch that has a name.
pub open spec fn branch_shown(raw: RawBranch) -> Branch {
    Branch {
        name: raw.name->0@,
        is_head: raw.is_head,
        is_remote: raw.is_remote,
        upstream: if raw.upstream is Some {
            Some(raw.upstream->0@)
        } else {
            None
        },
    }
}

proof fn lemma_named_branches(raw: Seq<RawBranch>)
    ensures
        named_branches(raw) == raw.filter(|branch: RawBranch| branch.name is Some).map_values(
            |branch: RawBranch| branch_shown(branch),
        ),
    decreases raw.len(),
{
    reveal(Seq::filter);
    if raw.len() > 0 {
        lemma_named_branches(raw.drop_last());
    }
    assert(named_branches(raw) =~= raw.filter(
        |branch: RawBranch| branch.name is Some,
    ).map_values(|branch: RawBranch| branch_shown(branch)));
}

proof fn lemma_branch_order()
    ensures
        is_order(branch_order()),
{
    let before = branch_order();
    assert forall|a: Branch, b: Branch| #[trigger] before(a, b) implies !before(b, a) by {
        precedes_is_total(a.name, b.name);
    }
    assert forall|a: Branch, b: Branch, c: Branch|
        #![trigger before(a, b), before(c, b)]
        before(a, b) && !before(c, b) implies before(a, c) by {
        precedes_is_total(b.name, c.name);
        if a.is_remote == b.is_remote && b.is_remote == c.is_remote && b.name != c.name {
            precedes_is_transitive(a.name, b.name, c.name);
        }
    }
}

/// Every branch that has a name is listed as it was read, and no other.
pub proof fn every_named_branch_is_listed(r: Seq<BranchInfo>, raw: Seq<RawBranch>, branch: Branch)
    requires
        lists_branches(r, raw),
    ensures
        (exists|k: int| 0 <= k < r.len() && (#[trigger] r[k])@ == branch) <==> (exists|k: int|
            #![trigger raw[k]]
            0 <= k < raw.len() && raw[k].name is Some && branch_shown(raw[k]) == branch),
        r.len() == raw.filter(|branch: RawBranch| branch.name is Some).len(),
{
    let named = raw.filter(|branch: RawBranch| branch.name is Some);
    let read = named_branches(raw);
    let shown = branches_view(r);
    lemma_named_branches(raw);
    sorting_keeps_items(read, branch_order());
    assert(shown.len() == r.len());
    if exists|k: int| 0 <= k < r.len() && (#[trigger] r[k])@ == branch {
        let k = choose|k: int| 0 <= k < r.len() && (#[trigger] r[k])@ == branch;
        assert(shown[k] == branch);
        lemma_same_members(shown, read, branch);
        let n = choose|n: int| 0 <= n < read.len() && read[n] == branch;
        assert(branch_shown(named[n]) == branch);
        raw.lemma_filter_pred(|branch: RawBranch| branch.name is Some, n);
        raw.lemma_filter_contains_rev(|branch: RawBranch| branch.name is Some, named[n]);
        let m = choose|m: int| 0 <= m < raw.len() && raw[m] == named[n];
        assert(raw[m].name is Some && branch_shown(raw[m]) == branch);
    }
    if exists|k: int|
        #![trigger raw[k]]
        0 <= k < raw.len() && raw[k].name is Some && branch_shown(raw[k]) == branch {
        let k = choose|k: int|
            #![trigger raw[k]]
            0 <= k < raw.len() && raw[k].name is Some && branch_shown(raw[k]) == branch;
        raw.lemma_filter_contains(|branch: RawBranch| branch.name is Some, k);
        let n = choose|n: int| 0 <= n < named.len() && named[n] == raw[k];
        assert(read[n] == branch);
        lemma_same_members(read, shown, branch);
        let m = choose|m: int| 0 <= m < shown.len() && shown[m] == branch;
        assert(r[m]@ == branch);
    }
}

/// Local branches are listed before remote ones, and each kind by name.
pub proof fn local_branches_come_first(r: Seq<BranchInfo>, raw: Seq<RawBranch>, i: int, j: int)
    requires
        lists_branches(r, raw),
        0 <= i < j < r.len(),
    ensures
        r[i].is_remote ==> r[j].is_remote,
        r[i].is_remote == r[j].is_remote ==> precedes(r[i].name@, r[j].name@) || r[i].name@
            == r[j].name@,
{
    let shown = branches_view(r);
    assert(shown.len() == r.len());
    lemma_branch_order();
    sorting_puts_in_order(named_branches(raw), branch_order());
    assert(!branch_order()(shown[j], shown[i]));
    precedes_is_total(r[i].name@, r[j].name@);
}

/// A stash entry is called by its message where that holds anything but white space, and
/// never by a text of white space.
pub proof fn stash_entries_have_a_name(message: Seq<char>)
    ensures
        (exists|i: int| 0 <= i < message.len() && !text::is_white_space(#[trigger] message[i]))
            ==> stash_label(message) == message,
        exists|i: int|
            0 <= i < stash_label(message).len() && !text::is_white_space(
                #[trigger] stash_label(message)[i],
            ),
{
    reveal_strlit("gitview 暫存");
    assert("gitview 暫存"@[0] == 'g');
    if text::blank(message) {
        assert(!text::is_white_space(stash_label(message)[0]));
    }
}

/// What is said of a deleted branch begins alike, and says more where commits of it were
/// not merged.
pub proof fn deleting_tells_of_what_was_not_merged(name: Seq<char>)
    ensures
        deleted_text(name, true).len() < deleted_text(name, false).len(),
        deleted_text(name, false).take(deleted_text(name, true).len() as int) == deleted_text(
            name,
            true,
        ),
        deleted_text(name, true).skip(deleted_text(name, true).len() - name.len()) == name,
{
    reveal_strlit("，其中有尚未合併的 commit，可以從還原點取回");
    let short = "已刪除分支 "@ + name;
    assert(deleted_text(name, false).take(short.len() as int) =~= short);
    assert(short.skip(short.len() - name.len()) =~= name);
}

} // verus!
