//! What holds of every fetch.
use vstd::prelude::*;

use crate::fetch::{
    chosen_remote, is_classified, offered_name, CredentialAttempts, FetchFailure, GitClass,
    GitCode,
};

verus! {

/// A failure is of one kind only, and its message is kept. What SSH reports, and what has
/// the code of an authentication failure, is one of authentication; any other failure of the
/// net, of HTTP or of a certificate is one of the network; and nothing that libgit2 reports
/// is a missing remote.
pub proof fn failures_are_told_apart(
    r: FetchFailure,
    code: GitCode,
    class: GitClass,
    message: Seq<char>,
)
    requires
        is_classified(r, code, class, message),
    ensures
        !(r is NoRemote),
        r is Authentication <==> code == GitCode::Auth || class == GitClass::Ssh,
        r is Network <==> code != GitCode::Auth && (class == GitClass::Net || class
            == GitClass::Http || (class == GitClass::Other && code == GitCode::Certificate)),
        r matches FetchFailure::Authentication(detail) ==> detail@ == message,
        r matches FetchFailure::Network(detail) ==> detail@ == message,
        r matches FetchFailure::Other(detail) ==> detail@ == message,
{
}

/// Each kind of failure has a name of its own.
pub proof fn kinds_are_known_by_name(failure: FetchFailure)
    ensures
        failure.kind_name() == "no-remote"@ <==> failure is NoRemote,
        failure.kind_name() == "auth"@ <==> failure is Authentication,
        failure.kind_name() == "network"@ <==> failure is Network,
        failure.kind_name() == "other"@ <==> failure is Other,
{
    reveal_strlit("no-remote");
    reveal_strlit("auth");
    reveal_strlit("network");
    reveal_strlit("other");
    assert("no-remote"@.len() == 9 && "auth"@.len() == 4 && "network"@.len() == 7
        && "other"@.len() == 5);
}

/// What is said of a failure: which remote is missing, and whatever was reported where
/// nothing more is known.
pub proof fn headlines_tell_what_is_known(failure: FetchFailure, other: FetchFailure)
    ensures
        failure matches FetchFailure::Other(message) ==> failure.headline_text() == message@,
        failure matches FetchFailure::NoRemote(name) ==> exists|before: Seq<char>, after: Seq<char>|
            #[trigger] (before + name@ + after) == failure.headline_text() && before.len() > 0
                && after.len() > 0,
        failure is Authentication && other is Authentication ==> failure.headline_text()
            == other.headline_text(),
        failure is Network && other is Network ==> failure.headline_text()
            == other.headline_text(),
{
    reveal_strlit("找不到遠端「");
    reveal_strlit("」");
    if let FetchFailure::NoRemote(name) = failure {
        assert("找不到遠端「"@ + name@ + "」"@ == failure.headline_text());
    }
}

/// Only what a remote allows is offered, a key first and what the helper knows next, each of
/// them once. The user name alone is offered where nothing better is left, and nothing at
/// all where that is not allowed either.
pub proof fn credentials_are_offered_in_order(attempts: CredentialAttempts, allowed: u32)
    ensures
        attempts.offer(allowed) is Agent <==> allowed & 0x2 != 0 && !attempts.tried_agent,
        attempts.offer(allowed) is Helper <==> (allowed & 0x2 == 0 || attempts.tried_agent)
            && allowed & 0x1 != 0 && !attempts.tried_helper,
        attempts.offer(allowed) is Username || attempts.offer(allowed) is Nothing <==> (allowed
            & 0x2 == 0 || attempts.tried_agent) && (allowed & 0x1 == 0 || attempts.tried_helper),
        attempts.offer(allowed) is Username ==> allowed & 0x20 != 0,
        attempts.offer(allowed) is Nothing ==> allowed & 0x20 == 0,
{
}

/// The user name of the URL is offered; where the URL has none, it is `git`.
pub proof fn name_of_the_url_is_offered(name: Seq<char>)
    ensures
        offered_name(Some(name)) == name,
        offered_name(None) == "git"@,
{
}

/// The remote of the branch is taken before any other, then `origin`, then the first one.
/// One is found wherever there is one.
pub proof fn remote_of_the_branch_comes_first(
    of_branch: Option<Seq<char>>,
    names: Seq<Seq<char>>,
)
    ensures
        of_branch is Some ==> chosen_remote(of_branch, names) == of_branch,
        of_branch is None ==> (chosen_remote(of_branch, names) is None <==> names.len() == 0),
        of_branch is None && names.len() > 0 ==> names.contains(
            chosen_remote(of_branch, names)->0,
        ),
        of_branch is None && names.contains("origin"@) ==> chosen_remote(of_branch, names) == Some(
            "origin"@,
        ),
        of_branch is None && names.len() > 0 && !names.contains("origin"@) ==> chosen_remote(
            of_branch,
            names,
        ) == Some(names[0]),
{
    if of_branch is None && names.len() > 0 && !names.contains("origin"@) {
        assert(names.contains(names[0]));
    }
    if names.contains("origin"@) {
        assert(names.len() > 0);
    }
}

} // verus!
