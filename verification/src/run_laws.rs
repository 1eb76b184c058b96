//! What holds of every run that pushes, commits, stages, changes branches, or ends an
//! operation in progress.
use vstd::prelude::*;

use crate::conflict::Finishing;
use crate::operation::{is_start, Operation, RemoteHead, Reply, Request, Step};
use crate::operation_laws::{is_run, Exchange};
use crate::ops::{
    begins_undo, names_beyond, pushed_text, remote_position, Aborting, PushPhase, SafetyPoint,
};
use crate::sync_laws::{head_was_at, lemma_told_later, told};
use crate::text;
use crate::text::is_white_space;
use crate::workspace::{
    begins_branch, begins_commit, begins_deleting, begins_following, begins_staging, begins_stash,
    checks_out, discards, drops_stash, lists_stashes, pops_stash, renames, stages_from, Branching,
    Committing, Staging, StashEntry, Stashing,
};

verus! {

/// What a push of a branch names: the branch, and the branch of the same name at the remote,
/// with a plus sign in front to overwrite it.
pub open spec fn names_branch(refspec: Seq<char>, branch: Seq<char>, force: bool) -> bool {
    refspec == if force {
        "+"@ + ("refs/heads/"@ + branch + ":"@ + ("refs/heads/"@ + branch))
    } else {
        "refs/heads/"@ + branch + ":"@ + ("refs/heads/"@ + branch)
    }
}

/// Whether a remote is the one to push to: that of the branch, or else `origin`, or else the
/// first one.
pub open spec fn is_right_remote(
    remote: Seq<char>,
    of_branch: Option<String>,
    names: Seq<String>,
) -> bool {
    match of_branch {
        Some(name) => remote == name@,
        None => {
            &&& names.len() > 0
            &&& (exists|i: int| 0 <= i < names.len() && (#[trigger] names[i])@ == "origin"@)
                ==> remote == "origin"@
            &&& !(exists|i: int| 0 <= i < names.len() && (#[trigger] names[i])@ == "origin"@)
                ==> remote == names[0]@
        },
    }
}

/// Whether a branch was found to be the current one before the exchange at position `i`.
pub open spec fn branch_was(run: Seq<Exchange>, i: int, branch: String) -> bool {
    told(run, i, Reply::Head { is_branch: true, name: Some(branch) })
}

/// Whether the remotes were read before the exchange at position `i`, and this is the one to
/// push to.
pub open spec fn remote_was_chosen(run: Seq<Exchange>, i: int, remote: Seq<char>) -> bool {
    exists|j: int|
        #![trigger run[j]]
        0 <= j < i && run[j].reply is Remotes && is_right_remote(
            remote,
            run[j].reply->of_branch,
            run[j].reply->names@,
        )
}

spec fn push_is_founded(run: Seq<Exchange>, i: int, operation: Operation, request: Request) -> bool {
    match operation {
        Operation::Push(inner) => match inner.phase {
            PushPhase::Head => request is ReadHead,
            PushPhase::Upstream { branch } => branch_was(run, i, branch) && request == (
            Request::ReadUpstream { branch }),
            PushPhase::Remotes { branch, expected } => branch_was(run, i, branch) && request
                is ReadRemotes && told(run, i, Reply::Upstream { target: expected }),
            PushPhase::RemoteHeads { branch, expected, remote } => inner.force && branch_was(
                run,
                i,
                branch,
            ) && request == (Request::ListRemote { remote }) && remote_was_chosen(run, i, remote@)
                && told(run, i, Reply::Upstream { target: expected }),
        },
        Operation::Plan(rest) => request is Push && rest.steps@.len() == 0,
        _ => false,
    }
}

/// Whether a push sends the current branch to the right remote.
pub open spec fn push_is_right(run: Seq<Exchange>, i: int, request: Request, force: bool) -> bool {
    request matches Request::Push { remote, refspec } ==> {
        &&& remote_was_chosen(run, i, remote@)
        &&& exists|branch: String| #[trigger]
            branch_was(run, i, branch) && names_branch(refspec@, branch@, force)
    }
}

proof fn lemma_right_remote(of_branch: Option<String>, names: Vec<String>)
    ensures
        crate::fetch::chosen_remote(text::view_of(of_branch), text::views_of(names@)) is Some
            ==> is_right_remote(
            crate::fetch::chosen_remote(text::view_of(of_branch), text::views_of(names@))->0,
            of_branch,
            names@,
        ),
        crate::fetch::chosen_remote(text::view_of(of_branch), text::views_of(names@)) is None
            <==> of_branch is None && names@.len() == 0,
{
    let views = text::views_of(names@);
    assert(views.len() == names@.len());
    if views.contains("origin"@) {
        let i = choose|i: int| 0 <= i < views.len() && views[i] == "origin"@;
        assert(names@[i]@ == "origin"@);
    }
    if exists|i: int| 0 <= i < names@.len() && (#[trigger] names@[i])@ == "origin"@ {
        let i = choose|i: int| 0 <= i < names@.len() && (#[trigger] names@[i])@ == "origin"@;
        assert(views[i] == "origin"@);
    }
    if names@.len() > 0 {
        assert(views[0] == names@[0]@);
    }
}

proof fn lemma_push_founded_step(
    run: Seq<Exchange>,
    i: int,
    next: Operation,
    request: Request,
    force: bool,
)
    requires
        0 <= i < run.len(),
        run[i].operation.expects(run[i].reply),
        run[i].operation.leads_to(run[i].reply, Step::Ask(next, request)),
        push_is_founded(run, i, run[i].operation, run[i].request),
        run[i].operation matches Operation::Push(inner) && inner.force == force,
    ensures
        push_is_founded(run, i + 1, next, request),
        push_is_right(run, i + 1, request, force),
        next matches Operation::Push(inner) ==> inner.force == force,
        !force && request is ListRemote ==> false,
{
    lemma_told_later(run, i);
    let reply = run[i].reply;
    let inner = run[i].operation->Push_0;
    match inner.phase {
        PushPhase::Head => {
            if reply->is_branch && reply->Head_name is Some {
                assert(reply == (Reply::Head { is_branch: true, name: reply->Head_name }));
                assert(branch_was(run, i + 1, reply->Head_name->0));
            }
        },
        PushPhase::Upstream { branch } => {
            assert(reply == (Reply::Upstream { target: reply->target }));
            assert(branch_was(run, i + 1, branch));
        },
        PushPhase::Remotes { branch, expected } => {
            lemma_right_remote(reply->of_branch, reply->names);
            assert(branch_was(run, i + 1, branch));
            if let Some(chosen) = crate::fetch::chosen_remote(
                text::view_of(reply->of_branch),
                text::views_of(reply->names@),
            ) {
                assert(run[i].reply is Remotes);
                assert(remote_was_chosen(run, i + 1, chosen));
                if !force {
                    assert(request is Push);
                    let remote = request->Push_remote;
                    assert(remote@ == chosen);
                }
            }
        },
        PushPhase::RemoteHeads { branch, expected, remote } => {
            assert(branch_was(run, i + 1, branch));
            let j = choose|j: int|
                #![trigger run[j]]
                0 <= j < i && run[j].reply is Remotes && is_right_remote(
                    remote@,
                    run[j].reply->of_branch,
                    run[j].reply->names@,
                );
            assert(run[j].reply is Remotes);
            assert(remote_was_chosen(run, i + 1, remote@));
        },
    }
}

proof fn lemma_push_founded(start: Step, run: Seq<Exchange>, end: Step, i: int)
    requires
        is_start(start),
        is_run(start, run, end),
        run.len() > 0,
        run[0].operation is Push,
        0 <= i < run.len(),
    ensures
        push_is_founded(run, i, run[i].operation, run[i].request),
        push_is_right(run, i, run[i].request, run[0].operation->Push_0.force),
        run[i].operation matches Operation::Push(inner) ==> inner.force
            == run[0].operation->Push_0.force,
        run[i].request is ListRemote ==> run[0].operation->Push_0.force,
    decreases i,
{
    if i > 0 {
        lemma_push_founded(start, run, end, i - 1);
        assert(run[i - 1].operation.expects(run[i - 1].reply));
        if run[i - 1].operation is Push {
            lemma_push_founded_step(
                run,
                i - 1,
                run[i].operation,
                run[i].request,
                run[0].operation->Push_0.force,
            );
        }
    }
}

/// A push sends the branch that HEAD is on to the branch of the same name, at the remote of
/// the branch, or else at `origin`, or else at the first remote. It overwrites what is there
/// only if it was forced.
pub proof fn push_sends_the_current_branch(start: Step, run: Seq<Exchange>, end: Step, i: int)
    requires
        is_start(start),
        is_run(start, run, end),
        run.len() > 0,
        run[0].operation is Push,
        0 <= i < run.len(),
    ensures
        push_is_right(run, i, run[i].request, run[0].operation->Push_0.force),
        run[i].request is ListRemote ==> run[0].operation->Push_0.force,
{
    lemma_push_founded(start, run, end, i);
}

/// A push that ends well has pushed.
pub proof fn push_that_ends_well_has_pushed(start: Step, run: Seq<Exchange>, end: Step)
    requires
        is_start(start),
        is_run(start, run, end),
        run.len() > 0,
        run[0].operation is Push,
        end is Finished,
    ensures
        run.last().request is Push,
        end->Finished_0.undo is None,
{
    let last = run.len() - 1;
    lemma_push_founded(start, run, end, last);
    assert(run[last].operation.expects(run[last].reply));
    if last > 0 {
        lemma_push_founded(start, run, end, last - 1);
        assert(run[last - 1].operation.expects(run[last - 1].reply));
        if run[last].operation is Plan {
            assert(run[last - 1].operation is Push);
        }
    }
}

/// The position of a branch at a remote is that of the first head of its name.
pub proof fn first_head_of_a_name_counts(heads: Seq<RemoteHead>, name: Seq<char>, k: int)
    requires
        0 <= k <= heads.len(),
        forall|i: int| 0 <= i < k ==> (#[trigger] heads[i]).name@ != name,
        k < heads.len() ==> heads[k].name@ == name,
    ensures
        k < heads.len() ==> remote_position(heads, name) == Some(heads[k].oid@),
        k == heads.len() ==> remote_position(heads, name) is None,
    decreases heads.len(),
{
    if k > 0 {
        assert(heads[0].name@ != name);
        let rest = heads.drop_first();
        assert forall|i: int| 0 <= i < k - 1 implies (#[trigger] rest[i]).name@ != name by {
            assert(rest[i] == heads[i + 1]);
        }
        first_head_of_a_name_counts(rest, name, k - 1);
    }
}

/// Whether the head of the branch at the remote is where it is expected: the first head of
/// that name is at that commit, or there is none and none is expected.
pub open spec fn is_at_remote(
    heads: Seq<RemoteHead>,
    branch: Seq<char>,
    expected: Option<String>,
) -> bool {
    match expected {
        Some(oid) => exists|k: int|
            #![trigger heads[k]]
            0 <= k < heads.len() && heads[k].name@ == "refs/heads/"@ + branch && heads[k].oid@
                == oid@ && forall|i: int|
                0 <= i < k ==> (#[trigger] heads[i]).name@ != "refs/heads/"@ + branch,
        None => forall|i: int|
            0 <= i < heads.len() ==> (#[trigger] heads[i]).name@ != "refs/heads/"@ + branch,
    }
}

proof fn lemma_is_at_remote(heads: Seq<RemoteHead>, branch: Seq<char>, expected: Option<String>)
    ensures
        is_at_remote(heads, branch, expected) <==> remote_position(heads, "refs/heads/"@ + branch)
            == text::view_of(expected),
    decreases heads.len(),
{
    let name = "refs/heads/"@ + branch;
    if heads.len() > 0 && heads[0].name@ != name {
        let rest = heads.drop_first();
        lemma_is_at_remote(rest, branch, expected);
        assert forall|i: int| 0 <= i < rest.len() implies rest[i] == heads[i + 1] by {}
        match expected {
            Some(oid) => {
                if is_at_remote(rest, branch, expected) {
                    let k = choose|k: int|
                        #![trigger rest[k]]
                        0 <= k < rest.len() && rest[k].name@ == name && rest[k].oid@ == oid@
                            && forall|i: int|
                            0 <= i < k ==> (#[trigger] rest[i]).name@ != name;
                    assert(heads[k + 1].name@ == name);
                    assert forall|i: int| 0 <= i < k + 1 implies (#[trigger] heads[i]).name@
                        != name by {
                        if i > 0 {
                            assert(rest[i - 1] == heads[i]);
                        }
                    }
                }
                if is_at_remote(heads, branch, expected) {
                    let k = choose|k: int|
                        #![trigger heads[k]]
                        0 <= k < heads.len() && heads[k].name@ == name && heads[k].oid@ == oid@
                            && forall|i: int|
                            0 <= i < k ==> (#[trigger] heads[i]).name@ != name;
                    assert(rest[k - 1] == heads[k]);
                }
            },
            None => {
                if is_at_remote(rest, branch, expected) {
                    assert forall|i: int| 0 <= i < heads.len() implies (
                    #[trigger] heads[i]).name@ != name by {
                        if i > 0 {
                            assert(rest[i - 1] == heads[i]);
                        }
                    }
                }
            },
        }
    } else if heads.len() > 0 {
        if let Some(oid) = expected {
            if heads[0].oid@ == oid@ {
                assert(heads[0].name@ == name);
            }
        }
    }
}

/// A push refuses exactly if HEAD is on no branch with a name, if there is no remote, or if
/// it is forced and the remote branch is not where it was last seen.
pub proof fn push_refuses_for_a_reason(start: Step, run: Seq<Exchange>, end: Step)
    requires
        is_start(start),
        is_run(start, run, end),
        run.len() > 0,
        run[0].operation is Push,
        !(end is Ask),
    ensures
        end is Refused <==> match run.last().reply {
            Reply::Head { is_branch, name } => !is_branch || name is None,
            Reply::Remotes { of_branch, names } => of_branch is None && names@.len() == 0,
            Reply::RemoteHeads(heads) => !(exists|branch: String, expected: Option<String>|
                #![trigger branch_was(run, run.len() - 1, branch), told(run, run.len() - 1, Reply::Upstream { target: expected })]
                branch_was(run, run.len() - 1, branch) && told(
                    run,
                    run.len() - 1,
                    Reply::Upstream { target: expected },
                ) && is_at_remote(heads@, branch@, expected)),
            _ => false,
        },
{
    let last = run.len() - 1;
    lemma_push_founded(start, run, end, last);
    assert(run[last].operation.expects(run[last].reply));
    if let Operation::Push(inner) = run[last].operation {
        match inner.phase {
            PushPhase::Remotes { branch, expected } => {
                let reply = run[last].reply;
                lemma_right_remote(reply->of_branch, reply->names);
            },
            PushPhase::RemoteHeads { branch, expected, remote } => {
                let heads = run[last].reply->RemoteHeads_0;
                lemma_is_at_remote(heads@, branch@, expected);
                assert(branch_was(run, last, branch));
                assert(told(run, last, Reply::Upstream { target: expected }));
                lemma_one_of_each(start, run, end, last);
                if exists|other: String, held: Option<String>|
                    #![trigger branch_was(run, last, other), told(run, last, Reply::Upstream { target: held })]
                    branch_was(run, last, other) && told(
                        run,
                        last,
                        Reply::Upstream { target: held },
                    ) && is_at_remote(heads@, other@, held) {
                    let (other, held) = choose|other: String, held: Option<String>|
                        #![trigger branch_was(run, last, other), told(run, last, Reply::Upstream { target: held })]
                        branch_was(run, last, other) && told(
                            run,
                            last,
                            Reply::Upstream { target: held },
                        ) && is_at_remote(heads@, other@, held);
                    let a = choose|j: int|
                        0 <= j < last && (#[trigger] run[j]).reply == (Reply::Head {
                            is_branch: true,
                            name: Some(other),
                        });
                    let b = choose|j: int|
                        0 <= j < last && (#[trigger] run[j]).reply == (Reply::Upstream {
                            target: held,
                        });
                    let c = choose|j: int|
                        0 <= j < last && (#[trigger] run[j]).reply == (Reply::Head {
                            is_branch: true,
                            name: Some(branch),
                        });
                    let d = choose|j: int|
                        0 <= j < last && (#[trigger] run[j]).reply == (Reply::Upstream {
                            target: expected,
                        });
                    lemma_one_of_each(start, run, end, a);
                    lemma_one_of_each(start, run, end, b);
                    lemma_one_of_each(start, run, end, c);
                    lemma_one_of_each(start, run, end, d);
                    assert(a == c && b == d);
                }
            },
            _ => {},
        }
    } else {
        assert(run[last].operation is Plan);
    }
}

/// A push asks for the branch first, for what it tracks next, and then for the remotes.
proof fn lemma_one_of_each(start: Step, run: Seq<Exchange>, end: Step, i: int)
    requires
        is_start(start),
        is_run(start, run, end),
        run.len() > 0,
        run[0].operation is Push,
        0 <= i < run.len(),
    ensures
        run[i].operation.expects(run[i].reply),
        match run[i].operation {
            Operation::Push(inner) => match inner.phase {
                PushPhase::Head => i == 0,
                PushPhase::Upstream { .. } => i == 1,
                PushPhase::Remotes { .. } => i == 2,
                PushPhase::RemoteHeads { .. } => i == 3,
            },
            _ => i > 2,
        },
        run[i].operation is Push || run[i].operation is Plan,
    decreases i,
{
    assert(run[i].operation.expects(run[i].reply));
    if i > 0 {
        lemma_one_of_each(start, run, end, i - 1);
        lemma_push_founded(start, run, end, i - 1);
        assert(run[i - 1].operation.expects(run[i - 1].reply));
    }
}

/// What is said of a push names the branch and the remote, and tells a forced one from
/// another.
pub proof fn push_reports_name_both_ends(branch: Seq<char>, remote: Seq<char>)
    ensures
        pushed_text(branch, remote, true) == "已強制推送 "@ + branch + " 到 "@ + remote,
        pushed_text(branch, remote, false) == "已推送 "@ + branch + " 到 "@ + remote,
        pushed_text(branch, remote, true) != pushed_text(branch, remote, false),
{
    reveal_strlit("已強制推送 ");
    reveal_strlit("已推送 ");
    assert(pushed_text(branch, remote, true).len() != pushed_text(branch, remote, false).len());
}

/// Whether what a commit in the making holds was found before the exchange at position `i`.
spec fn commit_is_founded(run: Seq<Exchange>, i: int, operation: Operation) -> bool {
    let asked = run[0].operation->Commit_0;
    match operation {
        Operation::Commit(inner) => match inner {
            Committing::Identity { message, amend } => message == asked->Identity_message && amend
                == asked->Identity_amend,
            Committing::Conflicts { message, amend } => message == asked->Identity_message && amend
                == asked->Identity_amend,
            Committing::Tree { message, amend } => message == asked->Identity_message && amend
                == asked->Identity_amend && told(run, i, Reply::Conflicts(false)),
            Committing::Head { message, tree } => message == asked->Identity_message
                && asked->Identity_amend && told(run, i, Reply::Conflicts(false)) && told(
                run,
                i,
                Reply::Tree(tree),
            ) && run[i].request is ReadHeadCommit,
            Committing::Facts { message, tree, head } => message == asked->Identity_message
                && asked->Identity_amend && told(run, i, Reply::Conflicts(false)) && told(
                run,
                i,
                Reply::Tree(tree),
            ) && head_was_at(run, i, head),
            Committing::Kept { message, tree, head, .. } => message == asked->Identity_message
                && asked->Identity_amend && told(run, i, Reply::Conflicts(false)) && told(
                run,
                i,
                Reply::Tree(tree),
            ) && head_was_at(run, i, head),
            Committing::Parent { message, tree } => message == asked->Identity_message
                && !asked->Identity_amend && told(run, i, Reply::Conflicts(false)) && told(
                run,
                i,
                Reply::Tree(tree),
            ),
            Committing::Created => run[i].request is CreateCommit,
        },
        Operation::Plan(rest) => rest.steps@.len() == 0 && run[i].request is AmendCommit,
        _ => false,
    }
}

/// Whether a request to commit commits what was asked for: the message, the tree of the
/// index without conflicts, and HEAD for the parent, if there is a commit yet. A commit is
/// replaced only if that was asked for, and it is the one at HEAD.
pub open spec fn commits_what_was_asked(
    run: Seq<Exchange>,
    i: int,
    request: Request,
    message: String,
    amend: bool,
) -> bool {
    &&& request matches Request::CreateCommit { message: text, tree, parents } ==> {
        &&& !amend
        &&& text == message
        &&& told(run, i, Reply::Tree(tree))
        &&& told(run, i, Reply::Conflicts(false))
        &&& parents@.len() == 0 ==> told(run, i, Reply::MaybeCommit(None))
        &&& parents@.len() > 0 ==> parents@.len() == 1 && told(
            run,
            i,
            Reply::MaybeCommit(Some(parents@[0])),
        )
    }
    &&& request matches Request::AmendCommit { oid, message: text, tree } ==> {
        &&& amend
        &&& text == message
        &&& head_was_at(run, i, oid)
        &&& told(run, i, Reply::Tree(tree))
        &&& told(run, i, Reply::Conflicts(false))
    }
}

proof fn lemma_commit_founded(start: Step, run: Seq<Exchange>, end: Step, i: int)
    requires
        is_start(start),
        is_run(start, run, end),
        run.len() > 0,
        run[0].operation is Commit,
        0 <= i < run.len(),
    ensures
        run[0].operation->Commit_0 is Identity,
        commit_is_founded(run, i, run[i].operation),
        commits_what_was_asked(
            run,
            i,
            run[i].request,
            run[0].operation->Commit_0->Identity_message,
            run[0].operation->Commit_0->Identity_amend,
        ),
    decreases i,
{
    if i > 0 {
        lemma_commit_founded(start, run, end, i - 1);
        lemma_told_later(run, i - 1);
        let before = run[i - 1];
        assert(before.operation.expects(before.reply));
        if let Operation::Commit(inner) = before.operation {
            match inner {
                Committing::Conflicts { .. } => {
                    if !before.reply->Conflicts_0 {
                        assert(before.reply == Reply::Conflicts(false));
                    }
                },
                Committing::Tree { .. } => {
                    assert(before.reply == Reply::Tree(before.reply->Tree_0));
                },
                Committing::Head { .. } => {
                    assert(run[i - 1].reply == Reply::Commit(before.reply->Commit_0));
                    assert(head_was_at(run, i, before.reply->Commit_0));
                },
                Committing::Parent { .. } => {
                    assert(before.reply == Reply::MaybeCommit(before.reply->MaybeCommit_0));
                },
                _ => {},
            }
        }
    }
}

/// A commit has the message that was asked for, the tree of the index and HEAD for its
/// parent.
pub proof fn commit_holds_what_was_asked_for(start: Step, run: Seq<Exchange>, end: Step, i: int)
    requires
        is_start(start),
        is_run(start, run, end),
        run.len() > 0,
        run[0].operation is Commit,
        0 <= i < run.len(),
    ensures
        run[0].operation->Commit_0 is Identity,
        commits_what_was_asked(
            run,
            i,
            run[i].request,
            run[0].operation->Commit_0->Identity_message,
            run[0].operation->Commit_0->Identity_amend,
        ),
{
    lemma_commit_founded(start, run, end, i);
}

/// Making a commit ends with the commit made or replaced, and refuses exactly at conflicts.
pub proof fn committing_ends_with_a_commit(start: Step, run: Seq<Exchange>, end: Step)
    requires
        is_start(start),
        is_run(start, run, end),
        run.len() > 0,
        run[0].operation is Commit,
        !(end is Ask),
    ensures
        end is Refused <==> run.last().reply == Reply::Conflicts(true),
        end is Finished ==> run.last().request is CreateCommit || run.last().request is AmendCommit,
{
    let last = run.len() - 1;
    lemma_commit_founded(start, run, end, last);
    assert(run[last].operation.expects(run[last].reply));
}

/// Whether a request puts a file into the index as it was found: its content if it exists,
/// its removal if it does not.
pub open spec fn stages_as_found(request: Request, path: String, exists_now: bool) -> bool {
    if exists_now {
        request == Request::StageFile { path }
    } else {
        request == Request::StageRemoval { path }
    }
}

proof fn lemma_found_step(
    paths: Vec<String>,
    at: usize,
    reply: Reply,
    next: Operation,
    request: Request,
)
    requires
        (Staging::Found { paths, at }).expects(reply),
        (Staging::Found { paths, at }).leads_to(reply, Step::Ask(next, request)),
    ensures
        reply is Found,
        next == Operation::Stage((Staging::Staged { paths, at: (at + 1) as usize })),
        stages_as_found(request, paths@[at as int], reply->Found_0),
{
}

proof fn lemma_staged_step(paths: Vec<String>, at: usize, reply: Reply, step: Step)
    requires
        (Staging::Staged { paths, at }).expects(reply),
        (Staging::Staged { paths, at }).leads_to(reply, step),
    ensures
        at < paths@.len() ==> step == Step::Ask(
            Operation::Stage(Staging::Found { paths, at }),
            Request::FindFile { path: paths@[at as int] },
        ),
        at == paths@.len() ==> step is Ask && step->Ask_1 is WriteIndex && step->Ask_0 is Plan
            && step->Ask_0->Plan_0.steps@.len() == 0,
{
}

/// Whether the exchange at position `i` looks for the file at position `k`.
spec fn looks_for(run: Seq<Exchange>, i: int, paths: Vec<String>, k: int) -> bool {
    &&& run[i].operation == Operation::Stage(Staging::Found { paths, at: k as usize })
    &&& run[i].request == (Request::FindFile { path: paths@[k] })
}

/// Whether the exchange at position `i` puts the file at position `k` into the index.
spec fn puts_in(run: Seq<Exchange>, i: int, paths: Vec<String>, k: int) -> bool {
    &&& run[i].operation == Operation::Stage(Staging::Staged { paths, at: (k + 1) as usize })
    &&& run[i - 1].reply is Found
    &&& stages_as_found(run[i].request, paths@[k], run[i - 1].reply->Found_0)
}

/// Whether the exchange at position `i` is the last one and writes the index.
spec fn writes_index(run: Seq<Exchange>, i: int) -> bool {
    &&& run[i].request is WriteIndex
    &&& run[i].operation is Plan
    &&& run[i].operation->Plan_0.steps@.len() == 0
}

/// Whether these are the exchanges that lead from one step to another.
#[verifier::opaque]
spec fn runs(start: Step, run: Seq<Exchange>, end: Step) -> bool {
    is_run(start, run, end)
}

proof fn lemma_step_of_run(start: Step, run: Seq<Exchange>, end: Step, i: int)
    requires
        runs(start, run, end),
        0 <= i < run.len(),
    ensures
        i == 0 ==> start == Step::Ask(run[0].operation, run[0].request),
        run[i].operation.expects(run[i].reply),
        i < run.len() - 1 ==> run[i].operation.leads_to(
            run[i].reply,
            Step::Ask(run[i + 1].operation, run[i + 1].request),
        ),
        i == run.len() - 1 ==> run[i].operation.leads_to(run[i].reply, end),
{
    reveal(runs);
}

proof fn lemma_staging(start: Step, run: Seq<Exchange>, end: Step, paths: Vec<String>, k: int)
    requires
        paths@.len() > 0,
        stages_from(start, paths, 0),
        runs(start, run, end),
        0 <= k <= paths@.len(),
    ensures
        k < paths@.len() && 2 * k < run.len() ==> looks_for(run, 2 * k, paths, k),
        k < paths@.len() && 2 * k + 1 < run.len() ==> puts_in(run, 2 * k + 1, paths, k),
        k == paths@.len() && 2 * k < run.len() ==> writes_index(run, 2 * k),
    decreases k,
{
    assert(paths.len() == paths@.len());
    if 2 * k < run.len() {
        if k > 0 {
            lemma_staging(start, run, end, paths, k - 1);
            let i = 2 * (k - 1) + 1;
            assert(puts_in(run, i, paths, k - 1));
            lemma_step_of_run(start, run, end, i);
            lemma_staged_step(
                paths,
                k as usize,
                run[i].reply,
                Step::Ask(run[i + 1].operation, run[i + 1].request),
            );
        } else {
            lemma_step_of_run(start, run, end, 0);
        }
    }
    if k < paths@.len() && 2 * k + 1 < run.len() {
        let i = 2 * k;
        assert(looks_for(run, i, paths, k));
        lemma_step_of_run(start, run, end, i);
        lemma_found_step(
            paths,
            k as usize,
            run[i].reply,
            run[i + 1].operation,
            run[i + 1].request,
        );
        assert(puts_in(run, i + 1, paths, k));
    }
}

proof fn lemma_found_goes_on(paths: Vec<String>, at: usize, reply: Reply, step: Step)
    requires
        (Staging::Found { paths, at }).expects(reply),
        (Staging::Found { paths, at }).leads_to(reply, step),
    ensures
        step is Ask,
{
}

proof fn lemma_staging_goes_on(
    start: Step,
    run: Seq<Exchange>,
    end: Step,
    paths: Vec<String>,
    k: int,
)
    requires
        paths@.len() > 0,
        stages_from(start, paths, 0),
        runs(start, run, end),
        run.len() > 0,
        end is Finished,
        0 <= k <= paths@.len(),
    ensures
        2 * k < run.len(),
    decreases k,
{
    assert(paths.len() == paths@.len());
    if k > 0 {
        lemma_staging_goes_on(start, run, end, paths, k - 1);
        lemma_staging(start, run, end, paths, k - 1);
        let i = 2 * (k - 1);
        lemma_step_of_run(start, run, end, i);
        if run.len() == i + 1 {
            lemma_found_goes_on(paths, (k - 1) as usize, run[i].reply, end);
        }
        lemma_step_of_run(start, run, end, i + 1);
        if run.len() == i + 2 {
            lemma_staged_step(paths, k as usize, run[i + 1].reply, end);
        }
    }
}

/// Every file that was named is put into the index: a file that is there with its content,
/// one that is gone as a removal. The index is written once all of them are, and not before.
pub proof fn every_named_file_is_staged(
    start: Step,
    run: Seq<Exchange>,
    end: Step,
    paths: Vec<String>,
    k: int,
)
    requires
        paths@.len() > 0,
        stages_from(start, paths, 0),
        is_run(start, run, end),
        end is Finished,
        0 <= k < paths@.len(),
    ensures
        run.len() == 2 * paths@.len() + 1,
        run[2 * k].request == (Request::FindFile { path: paths@[k] }),
        run[2 * k].reply is Found,
        stages_as_found(run[2 * k + 1].request, paths@[k], run[2 * k].reply->Found_0),
        run.last().request is WriteIndex,
{
    assert(run.len() > 0);
    assert(runs(start, run, end)) by {
        reveal(runs);
    }
    lemma_every_file(start, run, end, paths, k);
}

proof fn lemma_every_file(start: Step, run: Seq<Exchange>, end: Step, paths: Vec<String>, k: int)
    requires
        paths@.len() > 0,
        stages_from(start, paths, 0),
        runs(start, run, end),
        run.len() > 0,
        end is Finished,
        0 <= k < paths@.len(),
    ensures
        run.len() == 2 * paths@.len() + 1,
        run[2 * k].request == (Request::FindFile { path: paths@[k] }),
        run[2 * k].reply is Found,
        stages_as_found(run[2 * k + 1].request, paths@[k], run[2 * k].reply->Found_0),
        run.last().request is WriteIndex,
{
    let count = paths@.len() as int;
    lemma_staging_goes_on(start, run, end, paths, count);
    lemma_staging(start, run, end, paths, count);
    lemma_step_of_run(start, run, end, 2 * count);
    assert(writes_index(run, 2 * count));
    assert(run.len() == 2 * count + 1);
    lemma_staging(start, run, end, paths, k);
    assert(looks_for(run, 2 * k, paths, k));
    assert(puts_in(run, 2 * k + 1, paths, k));
}

/// Taking files out of the index takes them back to HEAD: those that were named, or all of
/// them where none was. Before the first commit the index is emptied.
pub proof fn unstaging_goes_back_to_head(paths: Vec<String>, reply: Reply, step: Step)
    requires
        Operation::Stage(Staging::Head { paths }).expects(reply),
        Operation::Stage(Staging::Head { paths }).leads_to(reply, step),
    ensures
        reply is MaybeCommit,
        step is Ask,
        match reply->MaybeCommit_0 {
            None => step->Ask_1 is ClearIndex && step->Ask_0 is Plan
                && step->Ask_0->Plan_0.steps@.len() == 1 && step->Ask_0->Plan_0.steps@[0]
                is WriteIndex,
            Some(oid) => step->Ask_0 is Plan && step->Ask_0->Plan_0.steps@.len() == 0
                && step->Ask_1 == if paths@.len() == 0 {
                Request::ResetMixed { oid }
            } else {
                Request::ResetPaths { oid, paths }
            },
        },
{
}

/// A branch is deleted under the name that was asked for, and only if HEAD is not on it. The
/// commit it was at is kept first.
pub proof fn deleting_keeps_the_tip(start: Step, run: Seq<Exchange>, end: Step, i: int)
    requires
        is_start(start),
        is_run(start, run, end),
        run.len() > 0,
        run[0].operation is Branch,
        run[0].operation->Branch_0 is DeleteFacts,
        0 <= i < run.len(),
        run[i].request is DeleteBranch,
    ensures
        i == 3,
        run[0].reply is Branch,
        !run[0].reply->Branch_0.is_head,
        run[i].request->DeleteBranch_name == run[0].operation->Branch_0->DeleteFacts_name,
        run[2].request is WriteSafetyPoint,
        run[2].request->WriteSafetyPoint_point.oid == run[0].reply->Branch_0.tip,
{
    lemma_deleting(start, run, end, i);
}

proof fn lemma_deleting(start: Step, run: Seq<Exchange>, end: Step, i: int)
    requires
        is_start(start),
        is_run(start, run, end),
        run.len() > 0,
        run[0].operation is Branch,
        run[0].operation->Branch_0 is DeleteFacts,
        0 <= i < run.len(),
    ensures
        i <= 3,
        run[0].reply is Branch,
        i == 0 ==> run[0].request is ReadBranch,
        i == 1 ==> !run[0].reply->Branch_0.is_head && run[1].request is ReadSafetyFacts
            && run[1].operation == Operation::Branch(
            Branching::DeleteTime {
                name: run[0].operation->Branch_0->DeleteFacts_name,
                facts: run[0].reply->Branch_0,
            },
        ),
        i == 2 ==> !run[0].reply->Branch_0.is_head && run[2].request is WriteSafetyPoint
            && run[2].request->WriteSafetyPoint_point.oid == run[0].reply->Branch_0.tip && (
        run[2].operation matches Operation::Branch(Branching::DeleteKept { name, merged, .. })
            && name == run[0].operation->Branch_0->DeleteFacts_name && merged
            == run[0].reply->Branch_0.merged),
        i == 3 ==> !run[0].reply->Branch_0.is_head && run[2].request is WriteSafetyPoint
            && run[2].request->WriteSafetyPoint_point.oid == run[0].reply->Branch_0.tip
            && run[3].request == (Request::DeleteBranch {
            name: run[0].operation->Branch_0->DeleteFacts_name,
        }) && run[3].operation is Plan && run[3].operation->Plan_0.steps@.len() == 0,
    decreases i,
{
    assert(run[0].operation.expects(run[0].reply));
    if i > 0 {
        lemma_deleting(start, run, end, i - 1);
        assert(run[i - 1].operation.expects(run[i - 1].reply));
        assert(run[i - 1].operation.leads_to(
            run[i - 1].reply,
            Step::Ask(run[i].operation, run[i].request),
        ));
    }
}

/// The branch that HEAD is on is not deleted, and any other is.
pub proof fn current_branch_is_not_deleted(start: Step, run: Seq<Exchange>, end: Step)
    requires
        is_start(start),
        is_run(start, run, end),
        run.len() > 0,
        run[0].operation is Branch,
        run[0].operation->Branch_0 is DeleteFacts,
        !(end is Ask),
    ensures
        run[0].reply is Branch,
        end is Refused <==> run[0].reply->Branch_0.is_head,
        end is Finished ==> run.last().request is DeleteBranch && end->Finished_0.undo is Some
            && end->Finished_0.undo->0.oid == run[0].reply->Branch_0.tip,
{
    let last = run.len() - 1;
    lemma_deleting(start, run, end, last);
    assert(run[last].operation.expects(run[last].reply));
    assert(run[last].operation.leads_to(run[last].reply, end));
    if last == 3 {
        lemma_deleting(start, run, end, 2);
        assert(run[2].operation.expects(run[2].reply));
        assert(run[2].operation.leads_to(
            run[2].reply,
            Step::Ask(run[3].operation, run[3].request),
        ));
        lemma_deleting(start, run, end, 1);
        assert(run[1].operation.expects(run[1].reply));
        assert(run[1].operation.leads_to(
            run[1].reply,
            Step::Ask(run[2].operation, run[2].request),
        ));
    }
}

/// A new branch begins at HEAD, and HEAD goes on to it.
pub proof fn new_branch_begins_at_head(name: String, reply: Reply, step: Step)
    requires
        Operation::Branch(Branching::CreateHead { name }).expects(reply),
        Operation::Branch(Branching::CreateHead { name }).leads_to(reply, step),
    ensures
        reply is Commit,
        step matches Step::Ask(Operation::Plan(rest), Request::CreateBranch { name: made, oid })
            && made@ == name@ && oid == reply->Commit_0 && rest.steps@.len() == 2 && (
        rest.steps@[0] matches Request::CheckoutBranch { name: to } && to@ == name@) && (
        rest.steps@[1] matches Request::SetHead { reference } && reference@ == "refs/heads/"@
            + name@),
{
}

/// A branch is made to track a remote branch exactly if there is such a branch.
pub proof fn only_what_exists_is_followed(
    name: String,
    upstream: String,
    reply: Reply,
    step: Step,
)
    requires
        Operation::Branch(Branching::UpstreamFound { name, upstream }).expects(reply),
        Operation::Branch(Branching::UpstreamFound { name, upstream }).leads_to(reply, step),
    ensures
        reply == Reply::Found(true) ==> step is Ask && step->Ask_1 == (Request::SetUpstream {
            name,
            onto: Some(upstream),
        }),
        reply == Reply::Found(false) ==> step is Refused,
        reply is Found,
{
}

/// Whether what the completion of an operation holds was found before the exchange at
/// position `i`.
spec fn finish_is_founded(run: Seq<Exchange>, i: int, operation: Operation) -> bool {
    match operation {
        Operation::Finish(inner) => match inner {
            Finishing::Conflicts => true,
            Finishing::Identity => told(run, i, Reply::Conflicts(false)),
            Finishing::State => told(run, i, Reply::Conflicts(false)),
            Finishing::RebaseOpened => true,
            Finishing::MergeTree => told(run, i, Reply::Conflicts(false)),
            Finishing::MergeHead { tree } => told(run, i, Reply::Conflicts(false)) && told(
                run,
                i,
                Reply::Tree(tree),
            ) && run[i].request is ReadHeadCommit,
            Finishing::MergeOther { tree, head } => told(run, i, Reply::Conflicts(false)) && told(
                run,
                i,
                Reply::Tree(tree),
            ) && head_was_at(run, i, head) && run[i].request is ReadMergeHead,
            Finishing::OtherTree { .. } => told(run, i, Reply::Conflicts(false)),
            Finishing::OtherHead { tree, .. } => told(run, i, Reply::Conflicts(false)) && told(
                run,
                i,
                Reply::Tree(tree),
            ) && run[i].request is ReadHeadCommit,
            Finishing::SkipHead => run[i].request is ReadHeadCommit,
            _ => true,
        },
        Operation::Replay(_) => true,
        Operation::Plan(rest) => rest.steps@.len() == 0,
        _ => false,
    }
}

/// Whether the commit that was being merged was found before the exchange at position `i`.
pub open spec fn merge_head_was_at(run: Seq<Exchange>, i: int, oid: String) -> bool {
    exists|j: int|
        0 <= j < i && (#[trigger] run[j]).request is ReadMergeHead && run[j].reply
            == Reply::Commit(oid)
}

/// Whether a request to commit completes the operation in progress: with the tree of the
/// index, without conflicts, and with HEAD for a parent, and the commit that was being
/// merged for the second one in a merge. What is dropped is taken back to HEAD.
pub open spec fn completes(run: Seq<Exchange>, i: int, request: Request) -> bool {
    &&& request matches Request::CreateCommit { tree, parents, .. } ==> {
        &&& told(run, i, Reply::Tree(tree))
        &&& told(run, i, Reply::Conflicts(false))
        &&& 1 <= parents@.len() <= 2
        &&& head_was_at(run, i, parents@[0])
        &&& parents@.len() == 2 ==> merge_head_was_at(run, i, parents@[1])
    }
    &&& request matches Request::DropChanges { oid } ==> head_was_at(run, i, oid)
}

proof fn lemma_finish_step(run: Seq<Exchange>, i: int, inner: Finishing)
    requires
        0 < i < run.len(),
        run[i - 1].operation == Operation::Finish(inner),
        inner.expects(run[i - 1].reply),
        inner.leads_to(run[i - 1].reply, Step::Ask(run[i].operation, run[i].request)),
        finish_is_founded(run, i - 1, Operation::Finish(inner)),
    ensures
        finish_is_founded(run, i, run[i].operation),
        completes(run, i, run[i].request),
{
    lemma_told_later(run, i - 1);
    let reply = run[i - 1].reply;
    match inner {
        Finishing::Conflicts => {
            if !reply->Conflicts_0 {
                assert(reply == Reply::Conflicts(false));
            }
        },
        Finishing::MergeTree => {
            assert(reply == Reply::Tree(reply->Tree_0));
        },
        Finishing::OtherTree { .. } => {
            assert(reply == Reply::Tree(reply->Tree_0));
        },
        Finishing::MergeHead { .. } => {
            assert(run[i - 1].reply == Reply::Commit(reply->Commit_0));
            assert(head_was_at(run, i, reply->Commit_0));
        },
        Finishing::OtherHead { .. } => {
            assert(run[i - 1].reply == Reply::Commit(reply->Commit_0));
            assert(head_was_at(run, i, reply->Commit_0));
        },
        Finishing::SkipHead => {
            assert(run[i - 1].reply == Reply::Commit(reply->Commit_0));
            assert(head_was_at(run, i, reply->Commit_0));
        },
        Finishing::MergeOther { tree, head } => {
            assert(run[i - 1].reply == Reply::Commit(reply->Commit_0));
            assert(merge_head_was_at(run, i, reply->Commit_0));
        },
        _ => {},
    }
}

proof fn lemma_finish_rest(before: Operation, reply: Reply, next: Operation, request: Request)
    requires
        before is Replay || (before matches Operation::Plan(rest) && rest.steps@.len() == 0),
        before.expects(reply),
        before.leads_to(reply, Step::Ask(next, request)),
    ensures
        next is Replay,
        !(request is CreateCommit),
        !(request is DropChanges),
{
}

proof fn lemma_finish_founded(start: Step, run: Seq<Exchange>, end: Step, i: int)
    requires
        is_start(start),
        is_run(start, run, end),
        run.len() > 0,
        run[0].operation is Finish,
        0 <= i < run.len(),
    ensures
        finish_is_founded(run, i, run[i].operation),
        completes(run, i, run[i].request),
    decreases i,
{
    if i > 0 {
        lemma_finish_founded(start, run, end, i - 1);
        let before = run[i - 1];
        assert(before.operation.expects(before.reply));
        assert(before.operation.leads_to(
            before.reply,
            Step::Ask(run[i].operation, run[i].request),
        ));
        if let Operation::Finish(inner) = before.operation {
            lemma_finish_step(run, i, inner);
        } else {
            lemma_finish_rest(before.operation, before.reply, run[i].operation, run[i].request);
        }
    }
}

/// What completes an operation in progress rests on what was found in the same run.
pub proof fn completion_holds_what_was_found(start: Step, run: Seq<Exchange>, end: Step, i: int)
    requires
        is_start(start),
        is_run(start, run, end),
        run.len() > 0,
        run[0].operation is Finish,
        0 <= i < run.len(),
    ensures
        completes(run, i, run[i].request),
{
    lemma_finish_founded(start, run, end, i);
}

/// How an operation in progress goes on depends on which it is: a rebase is taken up again,
/// a merge becomes a commit with two parents, any other a commit with one, and where there is
/// none nothing happens. Conflicts stand in the way of all of them.
pub proof fn operations_go_on_by_their_state(state: Reply, step: Step)
    requires
        Operation::Finish(Finishing::State).expects(state),
        Operation::Finish(Finishing::State).leads_to(state, step),
    ensures
        state is State,
        ({
            let found = state->State_0;
            let rebasing = found is Rebase || found is RebaseMerge || found is RebaseInteractive;
            &&& rebasing <==> step is Ask && step->Ask_1 is OpenRebase
            &&& found is Merge <==> step is Ask && step->Ask_0 == Operation::Finish(
                Finishing::MergeTree,
            )
            &&& found is Clean <==> step is Finished
            &&& !rebasing && !(found is Clean) ==> step is Ask && step->Ask_1 is WriteTree
        }),
{
}

/// A merge is completed with two parents, any other operation with one.
pub proof fn only_merges_have_two_parents(operation: Finishing, reply: Reply, step: Step)
    requires
        Operation::Finish(operation).expects(reply),
        Operation::Finish(operation).leads_to(reply, step),
        step is Ask,
        step->Ask_1 is CreateCommit,
    ensures
        operation is MergeOther || operation is OtherHead,
        operation is MergeOther ==> step->Ask_1->CreateCommit_parents@.len() == 2,
        operation is OtherHead ==> step->Ask_1->CreateCommit_parents@.len() == 1,
{
}

/// Conflicts stand in the way of going on, and only a rebase can leave a step out.
pub proof fn going_on_refuses_for_a_reason(operation: Finishing, reply: Reply, step: Step)
    requires
        Operation::Finish(operation).expects(reply),
        Operation::Finish(operation).leads_to(reply, step),
    ensures
        step is Refused <==> reply == Reply::Conflicts(true) || (operation is SkipState && !(
        reply->State_0 is Rebase || reply->State_0 is RebaseMerge || reply->State_0
            is RebaseInteractive)),
{
}

/// Giving up a rebase lets git take it back. Giving up anything else takes the working tree
/// to HEAD and clears the state of the repository. Where nothing is in progress nothing
/// happens.
pub proof fn giving_up_takes_back_what_is_in_progress(reply: Reply, step: Step)
    requires
        Operation::Abort(Aborting::State).expects(reply),
        Operation::Abort(Aborting::State).leads_to(reply, step),
    ensures
        reply is State,
        ({
            let found = reply->State_0;
            let rebasing = found is Rebase || found is RebaseMerge || found is RebaseInteractive;
            &&& found is Clean <==> step is Finished
            &&& rebasing <==> step is Ask && step->Ask_1 is AbortRebase
            &&& !rebasing && !(found is Clean) ==> step == Step::Ask(
                Operation::Abort(Aborting::Head),
                Request::ReadHeadCommit,
            )
        }),
{
}

/// Giving up a merge goes to the commit that HEAD is at, and no further.
pub proof fn giving_up_goes_to_head(reply: Reply, step: Step)
    requires
        Operation::Abort(Aborting::Head).expects(reply),
        Operation::Abort(Aborting::Head).leads_to(reply, step),
    ensures
        reply is Commit,
        step matches Step::Ask(Operation::Plan(rest), Request::ResetHard { oid }) && oid
            == reply->Commit_0 && rest.steps@.len() == 1 && rest.steps@[0] is CleanUpState,
{
}

/// Without a file to name, all changes are staged; with files named, staging begins with the
/// first of them.
pub proof fn staging_begins_with_what_was_named(step: Step, paths: Vec<String>)
    requires
        begins_staging(step, paths),
    ensures
        step is Ask,
        paths@.len() == 0 ==> step->Ask_1 is StageAll && step->Ask_0 is Plan
            && step->Ask_0->Plan_0.steps@.len() == 1 && step->Ask_0->Plan_0.steps@[0]
            is WriteIndex,
        paths@.len() > 0 ==> step->Ask_1 == (Request::FindFile { path: paths@[0] }),
{
    assert(paths.len() == paths@.len());
}

/// A commit needs a message that holds anything but white space, and is made with that
/// message.
pub proof fn commits_need_a_message(step: Step, message: Seq<char>, amend: bool)
    requires
        begins_commit(step, message, amend),
    ensures
        step is Refused <==> forall|i: int|
            0 <= i < message.len() ==> is_white_space(#[trigger] message[i]),
        !(step is Refused) ==> (step matches Step::Ask(
            Operation::Commit(Committing::Identity { message: text, amend: same }),
            _,
        ) && text@ == message && same == amend),
{
}

/// Only files that are named are taken back, and all of them.
pub proof fn only_named_files_are_discarded(step: Step, paths: Vec<String>)
    requires
        discards(step, paths),
    ensures
        paths@.len() == 0 <==> step is Refused,
        paths@.len() > 0 ==> step is Ask && step->Ask_1 == (Request::RestoreFiles { paths })
            && step->Ask_0 is Plan && step->Ask_0->Plan_0.steps@.len() == 0,
{
}

/// Switching to a branch first updates the files and then goes over to the branch.
pub proof fn switching_goes_to_the_named_branch(step: Step, name: Seq<char>)
    requires
        checks_out(step, name),
    ensures
        step matches Step::Ask(Operation::Plan(rest), Request::CheckoutBranch { name: to }) && to@
            == name && rest.steps@.len() == 1 && (rest.steps@[0] matches Request::SetHead {
            reference,
        } && reference@ == "refs/heads/"@ + name),
{
}

/// A branch needs a name that holds anything but white space, be it new or another one, and
/// gets that name.
pub proof fn branches_need_a_name(new: Step, renamed: Step, name: Seq<char>, from: Seq<char>)
    requires
        begins_branch(new, name),
        renames(renamed, from, name),
    ensures
        new is Refused <==> forall|i: int|
            0 <= i < name.len() ==> is_white_space(#[trigger] name[i]),
        renamed is Refused <==> new is Refused,
        !(new is Refused) ==> (new matches Step::Ask(
            Operation::Branch(Branching::CreateHead { name: made }),
            Request::ReadHeadCommit,
        ) && made@ == name),
        !(renamed is Refused) ==> (renamed matches Step::Ask(
            Operation::Plan(rest),
            Request::RenameBranch { from: old_name, to },
        ) && old_name@ == from && to@ == name && rest.steps@.len() == 0),
{
}

/// The branch that is looked at before it is deleted is the one that was named.
pub proof fn named_branch_is_looked_at(step: Step, name: Seq<char>)
    requires
        begins_deleting(step, name),
    ensures
        step matches Step::Ask(
            Operation::Branch(Branching::DeleteFacts { name: deleted }),
            Request::ReadBranch { name: read },
        ) && deleted@ == name && read@ == name,
{
}

/// A branch is made to track what was named, once that was looked for, and to track nothing
/// where nothing was.
pub proof fn named_branch_is_followed(step: Step, name: Seq<char>, upstream: Option<Seq<char>>)
    requires
        begins_following(step, name, upstream),
    ensures
        upstream is None ==> (step matches Step::Ask(
            Operation::Plan(rest),
            Request::SetUpstream { name: set, onto },
        ) && set@ == name && onto is None && rest.steps@.len() == 0),
        upstream is Some ==> (step matches Step::Ask(
            Operation::Branch(Branching::UpstreamFound { name: set, upstream: onto }),
            Request::FindRemoteBranch { name: found },
        ) && set@ == name && onto@ == upstream->0 && found@ == upstream->0),
{
}

/// Changes are put away under the message, where it says anything.
pub proof fn changes_are_put_away_under_the_message(step: Step, message: Seq<char>)
    requires
        begins_stash(step, message),
    ensures
        step matches Step::Ask(Operation::Stash(Stashing::Identity { label }), _) && (!(forall|
            i: int,
        |
            0 <= i < message.len() ==> is_white_space(#[trigger] message[i])) ==> label@
            == message),
{
}

/// What is put away is named as it was meant to be.
pub proof fn label_is_kept(label: String, reply: Reply, step: Step)
    requires
        Operation::Stash(Stashing::Identity { label }).expects(reply),
        Operation::Stash(Stashing::Identity { label }).leads_to(reply, step),
    ensures
        step == Step::Ask(Operation::Stash(Stashing::Saved), Request::StashSave { label }),
{
}

/// The entry of the stash that is taken out or thrown away is the one that was named.
pub proof fn named_entry_is_taken(popped: Step, dropped: Step, index: usize)
    requires
        pops_stash(popped, index),
        drops_stash(dropped, index),
    ensures
        popped is Ask,
        popped->Ask_1 == (Request::StashPop { index }),
        dropped is Ask,
        dropped->Ask_1 == (Request::StashDrop { index }),
        popped->Ask_0->Plan_0.steps@.len() == 0,
        dropped->Ask_0->Plan_0.steps@.len() == 0,
{
}

/// The entries of the stash are numbered from zero, and each has its message.
pub proof fn stash_entries_are_numbered(
    entries: Seq<StashEntry>,
    messages: Seq<String>,
    i: int,
)
    requires
        lists_stashes(entries, messages),
    ensures
        entries.len() == messages.len(),
        0 <= i < entries.len() ==> entries[i].index == i && entries[i].message == messages[i],
{
}

/// One can go back to safety points only.
pub proof fn only_safety_points_are_gone_back_to(step: Step, reference: Seq<char>)
    requires
        begins_undo(step, reference),
    ensures
        step is Refused <==> !"refs/gitview/undo"@.is_prefix_of(reference),
        !(step is Refused) ==> (step matches Step::Ask(_, Request::ReadReference {
            reference: named,
        }) && named@ == reference),
{
}

/// As many safety points are kept as are to be kept, the first ones, and all others are
/// named.
pub proof fn points_beyond_the_kept_are_named(points: Seq<SafetyPoint>, keep: usize, i: int)
    ensures
        points.len() <= keep ==> names_beyond(points, keep).len() == 0,
        points.len() > keep ==> names_beyond(points, keep).len() + keep == points.len(),
        keep <= i < points.len() ==> names_beyond(points, keep)[i - keep] == points[i].reference@,
{
}

} // verus!
