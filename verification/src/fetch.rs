//! Fetching from a remote.
//!
//! A fetch updates remote-tracking branches and nothing else, so that it can run in the
//! background. Credentials come from what the system already has: an SSH agent or git's
//! credential helper. None are stored or asked for here.
use vstd::prelude::*;

use crate::text;

verus! {

/// A point in time.
///
/// Trusted: `std::time::SystemTime` is carried along and never looked into.
#[verifier::external_type_specification]
#[verifier::external_body]
pub struct ExSystemTime(std::time::SystemTime);

/// A failure reported by libgit2.
///
/// Trusted: `git2::Error` is only handed to the three functions that read it.
#[verifier::external_type_specification]
#[verifier::external_body]
pub struct ExGitError(git2::Error);

/// What a fetch brought.
#[derive(Debug)]
pub struct FetchReport {
    pub remote: String,
    /// The number of objects received; zero where everything was there already.
    pub received_objects: usize,
    pub at: std::time::SystemTime,
}

impl Clone for FetchReport {
    fn clone(&self) -> (r: Self)
        ensures
            r == *self,
    {
        FetchReport {
            remote: self.remote.clone(),
            received_objects: self.received_objects,
            at: self.at,
        }
    }
}

impl FetchReport {
    pub fn brought_anything(&self) -> (r: bool)
        ensures
            r == (self.received_objects > 0),
    {
        self.received_objects > 0
    }
}

/// Why a fetch failed. What a user can do about it differs from kind to kind.
#[derive(Debug, PartialEq, Eq)]
pub enum FetchFailure {
    /// There is no such remote.
    NoRemote(String),
    /// Most often an SSH key that is locked or not in the agent.
    Authentication(String),
    /// The remote host cannot be reached.
    Network(String),
    Other(String),
}

impl Clone for FetchFailure {
    fn clone(&self) -> (r: Self)
        ensures
            r == *self,
    {
        match self {
            FetchFailure::NoRemote(detail) => FetchFailure::NoRemote(detail.clone()),
            FetchFailure::Authentication(detail) => FetchFailure::Authentication(detail.clone()),
            FetchFailure::Network(detail) => FetchFailure::Network(detail.clone()),
            FetchFailure::Other(detail) => FetchFailure::Other(detail.clone()),
        }
    }
}

impl FetchFailure {
    /// A stable name of the kind.
    pub open spec fn kind_name(&self) -> Seq<char> {
        match self {
            FetchFailure::NoRemote(_) => "no-remote"@,
            FetchFailure::Authentication(_) => "auth"@,
            FetchFailure::Network(_) => "network"@,
            FetchFailure::Other(_) => "other"@,
        }
    }

    /// A stable name of the kind.
    pub fn as_str(&self) -> (r: &'static str)
        ensures
            r@ == self.kind_name(),
    {
        match self {
            FetchFailure::NoRemote(_) => "no-remote",
            FetchFailure::Authentication(_) => "auth",
            FetchFailure::Network(_) => "network",
            FetchFailure::Other(_) => "other",
        }
    }

    /// One sentence on what happened and what can be done.
    pub open spec fn headline_text(&self) -> Seq<char> {
        match self {
            FetchFailure::NoRemote(name) => "找不到遠端「"@ + name@ + "」"@,
            FetchFailure::Authentication(_) =>
            "認證失敗，請確認 SSH 金鑰已加入 ssh-agent 並已解鎖"@,
            FetchFailure::Network(_) => "無法連線到遠端主機"@,
            FetchFailure::Other(message) => message@,
        }
    }

    /// One sentence on what happened and what can be done.
    pub fn headline(&self) -> (r: String)
        ensures
            r@ == self.headline_text(),
    {
        match self {
            FetchFailure::NoRemote(name) => {
                let message = text::plus("找不到遠端「".to_owned(), name.as_str());
                text::plus(message, "」")
            }
            FetchFailure::Authentication(_) => {
                "認證失敗，請確認 SSH 金鑰已加入 ssh-agent 並已解鎖".to_owned()
            }
            FetchFailure::Network(_) => "無法連線到遠端主機".to_owned(),
            FetchFailure::Other(message) => message.clone(),
        }
    }

    /// The message underneath, for diagnosis.
    pub fn detail(&self) -> (r: &str)
        ensures
            r@ == match self {
                FetchFailure::NoRemote(detail) => detail@,
                FetchFailure::Authentication(detail) => detail@,
                FetchFailure::Network(detail) => detail@,
                FetchFailure::Other(detail) => detail@,
            },
    {
        match self {
            FetchFailure::NoRemote(detail) => detail.as_str(),
            FetchFailure::Authentication(detail) => detail.as_str(),
            FetchFailure::Network(detail) => detail.as_str(),
            FetchFailure::Other(detail) => detail.as_str(),
        }
    }
}

/// Which code a failure has, as far as it matters here.
#[derive(Debug, Clone, Copy, PartialEq, Eq, Structural)]
pub enum GitCode {
    Auth,
    Certificate,
    /// The change to be committed is there already.
    Applied,
    Other,
}

/// Which part a failure comes from, as far as it matters here.
#[derive(Debug, Clone, Copy, PartialEq, Eq, Structural)]
pub enum GitClass {
    Ssh,
    Net,
    Http,
    Other,
}

/// A failure, read.
#[derive(Debug)]
pub struct GitFailure {
    pub code: GitCode,
    pub class: GitClass,
    pub message: String,
}

/// The code of a failure. Named after what `git2::Error::code` returns.
pub uninterp spec fn failure_code(error: git2::Error) -> GitCode;

/// The code of a failure.
///
/// Trusted: `git2::Error::code` depends on the failure alone. It is read variant by
/// variant; what is not told apart here is `Other`.
#[verifier::external_body]
fn code_of(error: &git2::Error) -> (r: GitCode)
    ensures
        r == failure_code(*error),
{
    match error.code() {
        git2::ErrorCode::Auth => GitCode::Auth,
        git2::ErrorCode::Certificate => GitCode::Certificate,
        git2::ErrorCode::Applied => GitCode::Applied,
        _ => GitCode::Other,
    }
}

/// The class of a failure. Named after what `git2::Error::class` returns.
pub uninterp spec fn failure_class(error: git2::Error) -> GitClass;

/// The class of a failure.
///
/// Trusted: `git2::Error::class` depends on the failure alone. It is read variant by
/// variant; what is not told apart here is `Other`.
#[verifier::external_body]
fn class_of(error: &git2::Error) -> (r: GitClass)
    ensures
        r == failure_class(*error),
{
    match error.class() {
        git2::ErrorClass::Ssh => GitClass::Ssh,
        git2::ErrorClass::Net => GitClass::Net,
        git2::ErrorClass::Http => GitClass::Http,
        _ => GitClass::Other,
    }
}

/// The message of a failure. Named after what `git2::Error::message` returns.
pub uninterp spec fn failure_message(error: git2::Error) -> Seq<char>;

/// The message of a failure.
///
/// Trusted: `git2::Error::message` depends on the failure alone.
#[verifier::external_body]
fn message_of(error: &git2::Error) -> (r: String)
    ensures
        r@ == failure_message(*error),
{
    error.message().to_owned()
}

/// Reads a failure.
pub fn read_failure(error: &git2::Error) -> (r: GitFailure)
    ensures
        r.code == failure_code(*error),
        r.class == failure_class(*error),
        r.message@ == failure_message(*error),
{
    GitFailure { code: code_of(error), class: class_of(error), message: message_of(error) }
}

/// Of which kind a failed fetch is: an authentication problem by its code or because SSH
/// reported it, a network problem by where it comes from or by a bad certificate.
pub open spec fn is_classified(
    r: FetchFailure,
    code: GitCode,
    class: GitClass,
    message: Seq<char>,
) -> bool {
    if code is Auth || class is Ssh {
        r matches FetchFailure::Authentication(detail) && detail@ == message
    } else if class is Net || class is Http || code is Certificate {
        r matches FetchFailure::Network(detail) && detail@ == message
    } else {
        r matches FetchFailure::Other(detail) && detail@ == message
    }
}

/// Of which kind a failed fetch is.
pub fn classify_failure(failure: GitFailure) -> (r: FetchFailure)
    ensures
        is_classified(r, failure.code, failure.class, failure.message@),
{
    let detail = failure.message;
    match (failure.class, failure.code) {
        (_, GitCode::Auth) => FetchFailure::Authentication(detail),
        (GitClass::Ssh, _) => FetchFailure::Authentication(detail),
        (GitClass::Net, _) | (GitClass::Http, _) => FetchFailure::Network(detail),
        (_, GitCode::Certificate) => FetchFailure::Network(detail),
        _ => FetchFailure::Other(detail),
    }
}

/// Of which kind a failed fetch is.
pub fn classify(error: &git2::Error) -> (r: FetchFailure)
    ensures
        is_classified(r, failure_code(*error), failure_class(*error), failure_message(*error)),
{
    classify_failure(read_failure(error))
}

/// How the attempt to fetch from a remote went.
#[derive(Debug)]
pub enum FetchAttempt {
    /// There is no remote of that name.
    NoRemote,
    Failed(GitFailure),
    Received { objects: usize, at: std::time::SystemTime },
}

/// Whether this is what comes of an attempt to fetch from the remote of the given name.
pub open spec fn comes_of_attempt(
    r: Result<FetchReport, FetchFailure>,
    remote_name: Seq<char>,
    attempt: FetchAttempt,
) -> bool {
    match (attempt, r) {
        (FetchAttempt::NoRemote, Err(FetchFailure::NoRemote(name))) => name@ == remote_name,
        (FetchAttempt::Failed(failure), Err(r)) => is_classified(
            r,
            failure.code,
            failure.class,
            failure.message@,
        ),
        (FetchAttempt::Received { objects, at }, Ok(report)) => {
            &&& report.remote@ == remote_name
            &&& report.received_objects == objects
            &&& report.at == at
        },
        _ => false,
    }
}

/// What comes of fetching from the remote of the given name.
pub fn fetch(remote_name: &str, attempt: FetchAttempt) -> (r: Result<FetchReport, FetchFailure>)
    ensures
        comes_of_attempt(r, remote_name@, attempt),
{
    match attempt {
        FetchAttempt::NoRemote => Err(FetchFailure::NoRemote(remote_name.to_owned())),
        FetchAttempt::Failed(failure) => Err(classify_failure(failure)),
        FetchAttempt::Received { objects, at } => Ok(
            FetchReport { remote: remote_name.to_owned(), received_objects: objects, at },
        ),
    }
}

/// Whether an SSH key may be offered.
///
/// Trusted: `git2::CredentialType::contains` with `SSH_KEY` tests the bit of value 2.
#[verifier::external_body]
fn allows_ssh_key(allowed: u32) -> (r: bool)
    ensures
        r == (allowed & 0x2 != 0),
{
    git2::CredentialType::from_bits_retain(allowed).contains(git2::CredentialType::SSH_KEY)
}

/// Whether a user name with a password may be offered.
///
/// Trusted: `git2::CredentialType::contains` with `USER_PASS_PLAINTEXT` tests the lowest
/// bit.
#[verifier::external_body]
fn allows_password(allowed: u32) -> (r: bool)
    ensures
        r == (allowed & 0x1 != 0),
{
    git2::CredentialType::from_bits_retain(allowed).contains(git2::CredentialType::USER_PASS_PLAINTEXT)
}

/// Whether a user name may be offered.
///
/// Trusted: `git2::CredentialType::contains` with `USERNAME` tests the bit of value 32.
#[verifier::external_body]
fn allows_username(allowed: u32) -> (r: bool)
    ensures
        r == (allowed & 0x20 != 0),
{
    git2::CredentialType::from_bits_retain(allowed).contains(git2::CredentialType::USERNAME)
}

/// What to offer a remote that asks for credentials.
#[derive(Debug, Clone, Copy, PartialEq, Eq, Structural)]
pub enum CredentialOffer {
    /// A key of the SSH agent.
    Agent,
    /// What git's credential helper knows.
    Helper,
    /// The user name alone.
    Username,
    /// Nothing is left to try.
    Nothing,
}

/// What has been offered so far. A remote asks again until it is content, so that each
/// kind is offered once.
#[derive(Debug)]
pub struct CredentialAttempts {
    pub tried_agent: bool,
    pub tried_helper: bool,
}

impl CredentialAttempts {
    pub fn new() -> (r: Self)
        ensures
            !r.tried_agent,
            !r.tried_helper,
    {
        CredentialAttempts { tried_agent: false, tried_helper: false }
    }

    /// What to offer for the kinds that the remote allows.
    pub open spec fn offer(self, allowed: u32) -> CredentialOffer {
        if allowed & 0x2 != 0 && !self.tried_agent {
            CredentialOffer::Agent
        } else if allowed & 0x1 != 0 && !self.tried_helper {
            CredentialOffer::Helper
        } else if allowed & 0x20 != 0 {
            CredentialOffer::Username
        } else {
            CredentialOffer::Nothing
        }
    }

    /// Picks what to offer next and takes note of it.
    pub fn next(&mut self, allowed: u32) -> (r: CredentialOffer)
        ensures
            r == old(self).offer(allowed),
            final(self).tried_agent == (old(self).tried_agent || r is Agent),
            final(self).tried_helper == (old(self).tried_helper || r is Helper),
    {
        if allows_ssh_key(allowed) && !self.tried_agent {
            self.tried_agent = true;
            return CredentialOffer::Agent;
        }
        if allows_password(allowed) && !self.tried_helper {
            self.tried_helper = true;
            return CredentialOffer::Helper;
        }
        if allows_username(allowed) {
            return CredentialOffer::Username;
        }
        CredentialOffer::Nothing
    }
}

/// The user name to offer: the one in the URL, or else `git`.
pub open spec fn offered_name(from_url: Option<Seq<char>>) -> Seq<char> {
    match from_url {
        Some(name) => name,
        None => "git"@,
    }
}

/// The user name to offer.
pub fn username(from_url: Option<String>) -> (r: String)
    ensures
        r@ == offered_name(text::view_of(from_url)),
{
    match from_url {
        Some(name) => name,
        None => "git".to_owned(),
    }
}

/// No kind is offered twice but the bare user name: a key or the helper that has been
/// tried is never tried again.
pub proof fn no_credential_is_offered_twice(attempts: CredentialAttempts, allowed: u32)
    ensures
        attempts.tried_agent ==> !(attempts.offer(allowed) is Agent),
        attempts.tried_helper ==> !(attempts.offer(allowed) is Helper),
{
}

/// The remote to use: the one the current branch tracks, or else `origin`, or else the
/// first one.
pub open spec fn chosen_remote(
    of_branch: Option<Seq<char>>,
    names: Seq<Seq<char>>,
) -> Option<Seq<char>> {
    match of_branch {
        Some(name) => Some(name),
        None => if names.contains("origin"@) {
            Some("origin"@)
        } else if names.len() > 0 {
            Some(names[0])
        } else {
            None
        },
    }
}

/// The remote to use.
pub fn default_remote(of_branch: Option<String>, names: &Vec<String>) -> (r: Option<String>)
    ensures
        text::view_of(r) == chosen_remote(text::view_of(of_branch), text::views_of(names@)),
{
    if let Some(name) = of_branch {
        return Some(name);
    }
    let ghost views = text::views_of(names@);
    let mut index: usize = 0;
    while index < names.len()
        invariant
            index <= names@.len(),
            views == text::views_of(names@),
            of_branch is None,
            forall|i: int| 0 <= i < index ==> #[trigger] views[i] != "origin"@,
        decreases names@.len() - index,
    {
        if text::same(names[index].as_str(), "origin") {
            assert(views[index as int] == "origin"@);
            return Some("origin".to_owned());
        }
        index += 1;
    }
    assert(!views.contains("origin"@));
    if names.len() > 0 {
        Some(names[0].clone())
    } else {
        None
    }
}

} // verus!
