//! The vocabulary shared with git: object ids, repository states, flags and failures.
use vstd::prelude::*;

use crate::text;

verus! {

/// Whether a character is a hexadecimal digit.
pub open spec fn is_hex(c: char) -> bool {
    '0' <= c <= '9' || 'a' <= c <= 'f' || 'A' <= c <= 'F'
}

/// Whether a text can name an object: one to forty hexadecimal digits.
pub open spec fn is_oid(text: Seq<char>) -> bool {
    1 <= text.len() <= 40 && forall|i: int| 0 <= i < text.len() ==> is_hex(#[trigger] text[i])
}

/// Whether a text can name an object.
///
/// Trusted: `git2::Oid::from_str` accepts one to forty hexadecimal digits of either case
/// and nothing else.
#[verifier::external_body]
pub(crate) fn names_object(oid: &str) -> (r: bool)
    ensures
        r == is_oid(oid@),
{
    git2::Oid::from_str(oid).is_ok()
}

/// Which operation a repository is in the middle of.
#[derive(Debug, Clone, Copy, PartialEq, Eq, Structural)]
pub enum RepoState {
    Clean,
    Merge,
    Revert,
    RevertSequence,
    CherryPick,
    CherryPickSequence,
    Bisect,
    Rebase,
    RebaseInteractive,
    RebaseMerge,
    ApplyMailbox,
    ApplyMailboxOrRebase,
}

impl RepoState {
    /// Whether commits are being reapplied.
    pub open spec fn rebasing(self) -> bool {
        self is Rebase || self is RebaseInteractive || self is RebaseMerge
    }

    pub fn is_rebasing(self) -> (r: bool)
        ensures
            r == self.rebasing(),
    {
        match self {
            RepoState::Rebase | RepoState::RebaseInteractive | RepoState::RebaseMerge => true,
            _ => false,
        }
    }

    pub fn name(self) -> (r: &'static str)
        ensures
            r@ == state_name(self),
    {
        match self {
            RepoState::Clean => "Clean",
            RepoState::Merge => "Merge",
            RepoState::Revert => "Revert",
            RepoState::RevertSequence => "RevertSequence",
            RepoState::CherryPick => "CherryPick",
            RepoState::CherryPickSequence => "CherryPickSequence",
            RepoState::Bisect => "Bisect",
            RepoState::Rebase => "Rebase",
            RepoState::RebaseInteractive => "RebaseInteractive",
            RepoState::RebaseMerge => "RebaseMerge",
            RepoState::ApplyMailbox => "ApplyMailbox",
            RepoState::ApplyMailboxOrRebase => "ApplyMailboxOrRebase",
        }
    }
}

pub open spec fn state_name(state: RepoState) -> Seq<char> {
    match state {
        RepoState::Clean => "Clean"@,
        RepoState::Merge => "Merge"@,
        RepoState::Revert => "Revert"@,
        RepoState::RevertSequence => "RevertSequence"@,
        RepoState::CherryPick => "CherryPick"@,
        RepoState::CherryPickSequence => "CherryPickSequence"@,
        RepoState::Bisect => "Bisect"@,
        RepoState::Rebase => "Rebase"@,
        RepoState::RebaseInteractive => "RebaseInteractive"@,
        RepoState::RebaseMerge => "RebaseMerge"@,
        RepoState::ApplyMailbox => "ApplyMailbox"@,
        RepoState::ApplyMailboxOrRebase => "ApplyMailboxOrRebase"@,
    }
}

/// The short form of an object id: its first eight digits.
pub open spec fn short_oid(oid: Seq<char>) -> Seq<char> {
    text::head_of(oid, 8)
}

/// The short form of an object id.
pub fn short(oid: &str) -> (r: String)
    ensures
        r@ == short_oid(oid@),
{
    text::first_chars(oid, 8)
}

/// The status bit of a file that is new in the index.
///
/// Trusted: `git2::Status::is_index_new` tests the lowest bit.
#[verifier::external_body]
pub(crate) fn is_index_new(bits: u32) -> (r: bool)
    ensures
        r == (bits & 0x1 != 0),
{
    git2::Status::from_bits_retain(bits).is_index_new()
}

/// The status bit of a file that is modified in the index.
///
/// Trusted: `git2::Status::is_index_modified` tests the bit of value 2.
#[verifier::external_body]
pub(crate) fn is_index_modified(bits: u32) -> (r: bool)
    ensures
        r == (bits & 0x2 != 0),
{
    git2::Status::from_bits_retain(bits).is_index_modified()
}

/// The status bit of a file that is deleted in the index.
///
/// Trusted: `git2::Status::is_index_deleted` tests the bit of value 4.
#[verifier::external_body]
pub(crate) fn is_index_deleted(bits: u32) -> (r: bool)
    ensures
        r == (bits & 0x4 != 0),
{
    git2::Status::from_bits_retain(bits).is_index_deleted()
}

/// The status bit of a file that is renamed in the index.
///
/// Trusted: `git2::Status::is_index_renamed` tests the bit of value 8.
#[verifier::external_body]
pub(crate) fn is_index_renamed(bits: u32) -> (r: bool)
    ensures
        r == (bits & 0x8 != 0),
{
    git2::Status::from_bits_retain(bits).is_index_renamed()
}

/// The status bit of a file whose type is changed in the index.
///
/// Trusted: `git2::Status::is_index_typechange` tests the bit of value 16.
#[verifier::external_body]
pub(crate) fn is_index_typechange(bits: u32) -> (r: bool)
    ensures
        r == (bits & 0x10 != 0),
{
    git2::Status::from_bits_retain(bits).is_index_typechange()
}

/// The status bit of a file that is new in the working tree.
///
/// Trusted: `git2::Status::is_wt_new` tests the bit of value 128.
#[verifier::external_body]
pub(crate) fn is_wt_new(bits: u32) -> (r: bool)
    ensures
        r == (bits & 0x80 != 0),
{
    git2::Status::from_bits_retain(bits).is_wt_new()
}

/// The status bit of a file that is modified in the working tree.
///
/// Trusted: `git2::Status::is_wt_modified` tests the bit of value 256.
#[verifier::external_body]
pub(crate) fn is_wt_modified(bits: u32) -> (r: bool)
    ensures
        r == (bits & 0x100 != 0),
{
    git2::Status::from_bits_retain(bits).is_wt_modified()
}

/// The status bit of a file that is deleted in the working tree.
///
/// Trusted: `git2::Status::is_wt_deleted` tests the bit of value 512.
#[verifier::external_body]
pub(crate) fn is_wt_deleted(bits: u32) -> (r: bool)
    ensures
        r == (bits & 0x200 != 0),
{
    git2::Status::from_bits_retain(bits).is_wt_deleted()
}

/// The status bit of a file whose type is changed in the working tree.
///
/// Trusted: `git2::Status::is_wt_typechange` tests the bit of value 1024.
#[verifier::external_body]
pub(crate) fn is_wt_typechange(bits: u32) -> (r: bool)
    ensures
        r == (bits & 0x400 != 0),
{
    git2::Status::from_bits_retain(bits).is_wt_typechange()
}

/// The status bit of a file that is renamed in the working tree.
///
/// Trusted: `git2::Status::is_wt_renamed` tests the bit of value 2048.
#[verifier::external_body]
pub(crate) fn is_wt_renamed(bits: u32) -> (r: bool)
    ensures
        r == (bits & 0x800 != 0),
{
    git2::Status::from_bits_retain(bits).is_wt_renamed()
}

/// The status bit of a file with conflicts.
///
/// Trusted: `git2::Status::is_conflicted` tests the bit of value 32768.
#[verifier::external_body]
pub(crate) fn is_conflicted(bits: u32) -> (r: bool)
    ensures
        r == (bits & 0x8000 != 0),
{
    git2::Status::from_bits_retain(bits).is_conflicted()
}

} // verus!
