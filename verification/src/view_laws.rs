//! What a value holds is what stands in its fields: each field under its own name.
use vstd::prelude::*;

use crate::cli::Options;
use crate::conflict::{conflicts_view, ConflictFile, ConflictSide};
use crate::dag::Commit;
use crate::diff::{files_view, lines_view, sections_view, DiffLine, FileDiff, Hunk};
use crate::divergence::{infos_view, CommitInfo};
use crate::ops::{points_view, SafetyPoint};
use crate::search::{
    blame_view, hits_view, words_view, BlameLine, Candidate, SearchHit,
};
use crate::settings::Settings;
use crate::text::{view_of, views_of};
use crate::watcher::{notices_view, Notice};
use crate::workspace::{branches_view, changes_view, BranchInfo, FileChange};

verus! {

/// A list of texts holds the characters of each of them, in their order.
pub proof fn texts_hold_their_characters(texts: Seq<String>, text: Option<String>, i: int)
    ensures
        views_of(texts).len() == texts.len(),
        0 <= i < texts.len() ==> views_of(texts)[i] == texts[i]@,
        view_of(text) is Some <==> text is Some,
        text is Some ==> view_of(text)->0 == text->0@,
{
}

/// So does a list of words.
pub proof fn words_hold_their_characters(words: Seq<&'static str>, i: int)
    ensures
        words_view(words).len() == words.len(),
        0 <= i < words.len() ==> words_view(words)[i] == words[i]@,
{
}

/// A commit of a graph holds its fields.
pub proof fn commits_hold_their_fields(commit: Commit)
    ensures
        commit@.oid == commit.oid@,
        commit@.parents == commit.parents@,
        commit@.timestamp == commit.timestamp,
        commit@.author == commit.author@,
        commit@.summary == commit.summary@,
{
}

/// A commit that is listed holds its fields.
pub proof fn listed_commits_hold_their_fields(commits: Seq<CommitInfo>, i: int)
    requires
        0 <= i < commits.len(),
    ensures
        infos_view(commits).len() == commits.len(),
        infos_view(commits)[i].oid == commits[i].oid@,
        infos_view(commits)[i].short_oid == commits[i].short_oid@,
        infos_view(commits)[i].summary == commits[i].summary@,
        infos_view(commits)[i].author == commits[i].author@,
        infos_view(commits)[i].timestamp == commits[i].timestamp,
{
}

/// A line of a difference holds its fields.
pub proof fn lines_hold_their_fields(lines: Seq<DiffLine>, i: int)
    requires
        0 <= i < lines.len(),
    ensures
        lines_view(lines).len() == lines.len(),
        lines_view(lines)[i].kind == lines[i].kind,
        lines_view(lines)[i].content == lines[i].content@,
        lines_view(lines)[i].old_lineno == lines[i].old_lineno,
        lines_view(lines)[i].new_lineno == lines[i].new_lineno,
        lines_view(lines)[i].spans == lines[i].spans@,
        lines_view(lines)[i].whitespace_only == lines[i].whitespace_only,
        lines_view(lines)[i].pair == lines[i].pair,
{
}

/// A section of a difference holds its fields.
pub proof fn sections_hold_their_fields(hunks: Seq<Hunk>, i: int)
    requires
        0 <= i < hunks.len(),
    ensures
        sections_view(hunks).len() == hunks.len(),
        sections_view(hunks)[i].header == hunks[i].header@,
        sections_view(hunks)[i].old_start == hunks[i].old_start,
        sections_view(hunks)[i].old_lines == hunks[i].old_lines,
        sections_view(hunks)[i].new_start == hunks[i].new_start,
        sections_view(hunks)[i].new_lines == hunks[i].new_lines,
        sections_view(hunks)[i].lines == lines_view(hunks[i].lines@),
        sections_view(hunks)[i].collides_with_incoming == hunks[i].collides_with_incoming,
{
}

/// The difference of a file holds its fields.
pub proof fn differences_hold_their_fields(files: Seq<FileDiff>, i: int)
    requires
        0 <= i < files.len(),
    ensures
        files_view(files).len() == files.len(),
        files_view(files)[i].path == files[i].path@,
        files[i].old_path is Some <==> files_view(files)[i].old_path is Some,
        files[i].old_path is Some ==> files_view(files)[i].old_path->0 == files[i].old_path->0@,
        files_view(files)[i].sections == sections_view(files[i].hunks@),
        files_view(files)[i].is_binary == files[i].is_binary,
        files_view(files)[i].added == files[i].added,
        files_view(files)[i].removed == files[i].removed,
{
}

/// A hit of a search holds its fields.
pub proof fn hits_hold_their_fields(hits: Seq<SearchHit>, i: int)
    requires
        0 <= i < hits.len(),
    ensures
        hits_view(hits).len() == hits.len(),
        hits_view(hits)[i].oid == hits[i].oid@,
        hits_view(hits)[i].short_oid == hits[i].short_oid@,
        hits_view(hits)[i].summary == hits[i].summary@,
        hits_view(hits)[i].author == hits[i].author@,
        hits_view(hits)[i].timestamp == hits[i].timestamp,
        hits_view(hits)[i].matched == words_view(hits[i].matched@),
        hits_view(hits)[i].paths == views_of(hits[i].paths@),
{
}

/// A commit that is looked at holds its fields.
pub proof fn candidates_hold_their_fields(candidate: Candidate)
    ensures
        candidate@.oid == candidate.oid@,
        candidate@.author == candidate.author@,
        candidate@.message == candidate.message@,
        candidate@.timestamp == candidate.timestamp,
        candidate@.paths == views_of(candidate.paths@),
        candidate@.lower_author == candidate.lower_author@,
        candidate@.lower_message == candidate.lower_message@,
        candidate@.lower_paths == views_of(candidate.lower_paths@),
        candidate@.changes_content == candidate.changes_content,
{
}

/// A line whose source is told holds its fields.
pub proof fn blamed_lines_hold_their_fields(lines: Seq<BlameLine>, i: int)
    requires
        0 <= i < lines.len(),
    ensures
        blame_view(lines).len() == lines.len(),
        blame_view(lines)[i].line_number == lines[i].line_number,
        blame_view(lines)[i].content == lines[i].content@,
        blame_view(lines)[i].oid == lines[i].oid@,
        blame_view(lines)[i].short_oid == lines[i].short_oid@,
        blame_view(lines)[i].author == lines[i].author@,
        blame_view(lines)[i].summary == lines[i].summary@,
        blame_view(lines)[i].timestamp == lines[i].timestamp,
        blame_view(lines)[i].same_as_previous == lines[i].same_as_previous,
{
}

/// A file with changes holds its fields.
pub proof fn changes_hold_their_fields(changes: Seq<FileChange>, i: int)
    requires
        0 <= i < changes.len(),
    ensures
        changes_view(changes).len() == changes.len(),
        changes_view(changes)[i].path == changes[i].path@,
        changes_view(changes)[i].staged == changes[i].staged@,
        changes_view(changes)[i].unstaged == changes[i].unstaged@,
        changes_view(changes)[i].is_untracked == changes[i].is_untracked,
        changes_view(changes)[i].is_conflicted == changes[i].is_conflicted,
{
}

/// A branch holds its fields.
pub proof fn branches_hold_their_fields(branches: Seq<BranchInfo>, i: int)
    requires
        0 <= i < branches.len(),
    ensures
        branches_view(branches).len() == branches.len(),
        branches_view(branches)[i].name == branches[i].name@,
        branches_view(branches)[i].is_head == branches[i].is_head,
        branches_view(branches)[i].is_remote == branches[i].is_remote,
        branches_view(branches)[i].upstream is Some <==> branches[i].upstream is Some,
        branches[i].upstream is Some ==> branches_view(branches)[i].upstream->0
            == branches[i].upstream->0@,
{
}

/// Whether a version of a file in conflict holds its fields.
pub open spec fn side_holds_its_fields(side: ConflictSide) -> bool {
    &&& side@.exists == side.exists
    &&& side@.text is Some <==> side.text is Some
    &&& side.text is Some ==> side@.text->0 == side.text->0@
}

/// A file in conflict holds its fields, each version in its place.
pub proof fn conflicts_hold_their_fields(files: Seq<ConflictFile>, i: int)
    requires
        0 <= i < files.len(),
    ensures
        conflicts_view(files).len() == files.len(),
        conflicts_view(files)[i].path == files[i].path@,
        conflicts_view(files)[i].base == files[i].base@,
        conflicts_view(files)[i].ours == files[i].ours@,
        conflicts_view(files)[i].theirs == files[i].theirs@,
        side_holds_its_fields(files[i].base),
        side_holds_its_fields(files[i].ours),
        side_holds_its_fields(files[i].theirs),
        conflicts_view(files)[i].merged is Some <==> files[i].merged is Some,
        files[i].merged is Some ==> conflicts_view(files)[i].merged->0 == files[i].merged->0@,
        conflicts_view(files)[i].is_binary == files[i].is_binary,
{
}

/// A safety point holds its fields.
pub proof fn points_hold_their_fields(points: Seq<SafetyPoint>, i: int)
    requires
        0 <= i < points.len(),
    ensures
        points_view(points).len() == points.len(),
        points_view(points)[i].reference == points[i].reference@,
        points_view(points)[i].oid == points[i].oid@,
        points_view(points)[i].operation == points[i].operation@,
        points_view(points)[i].created_unix == points[i].created_unix,
{
}

/// Settings hold their fields.
pub proof fn settings_hold_their_fields(settings: Settings)
    ensures
        settings@.repos == views_of(settings.repos@),
        settings@.fetch_interval_secs == settings.fetch_interval_secs,
        settings@.notify_incoming == settings.notify_incoming,
        settings@.background_fetch == settings.background_fetch,
{
}

/// A notification holds its fields.
pub proof fn notices_hold_their_fields(notices: Seq<Notice>, i: int)
    requires
        0 <= i < notices.len(),
    ensures
        notices_view(notices).len() == notices.len(),
        notices_view(notices)[i].title == notices[i].title@,
        notices_view(notices)[i].body == notices[i].body@,
{
}

/// What was asked for on the command line holds its fields.
pub proof fn options_hold_their_fields(options: Options)
    ensures
        options@.path == options.path@,
        options@.limit == options.limit,
        options@.show_diff == options.show_diff,
{
}

} // verus!
