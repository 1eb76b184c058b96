//! Searching the history, and who last changed which line.
use vstd::prelude::*;

use crate::divergence::RawPaths;
use crate::git;
use crate::git::short_oid;
use crate::matching;
use crate::matching::{lower_case, occurrences, occurs, trimmed};
use crate::patch::RawLine;
use crate::text;
use crate::text::{lines_of, lossy_text};

verus! {

/// Where to look. At least one has to be set.
#[derive(Debug, Clone, Copy, PartialEq, Eq, Structural)]
pub struct SearchScope {
    pub message: bool,
    pub author: bool,
    pub path: bool,
    /// Look at what was changed. Every commit has to be compared with its parent for it,
    /// which takes far longer than the rest.
    pub content: bool,
}

impl Default for SearchScope {
    fn default() -> (r: Self)
        ensures
            r == (SearchScope { message: true, author: true, path: true, content: false }),
    {
        SearchScope { message: true, author: true, path: true, content: false }
    }
}

impl SearchScope {
    pub open spec fn looks(self) -> bool {
        self.message || self.author || self.path || self.content
    }

    pub fn any(&self) -> (r: bool)
        ensures
            r == self.looks(),
    {
        self.message || self.author || self.path || self.content
    }
}

/// A commit that was found.
#[derive(Debug)]
pub struct SearchHit {
    pub oid: String,
    pub short_oid: String,
    pub summary: String,
    pub author: String,
    pub timestamp: i64,
    /// Where: `message`, `author`, `path`, `content`.
    pub matched: Vec<&'static str>,
    /// The paths that match, a few at most.
    pub paths: Vec<String>,
}

/// What a [`SearchHit`] holds.
pub struct Hit {
    pub oid: Seq<char>,
    pub short_oid: Seq<char>,
    pub summary: Seq<char>,
    pub author: Seq<char>,
    pub timestamp: i64,
    pub matched: Seq<Seq<char>>,
    pub paths: Seq<Seq<char>>,
}

pub open spec fn words_view(words: Seq<&'static str>) -> Seq<Seq<char>> {
    words.map_values(|word: &'static str| word@)
}

impl View for SearchHit {
    type V = Hit;

    open spec fn view(&self) -> Hit {
        Hit {
            oid: self.oid@,
            short_oid: self.short_oid@,
            summary: self.summary@,
            author: self.author@,
            timestamp: self.timestamp,
            matched: words_view(self.matched@),
            paths: text::views_of(self.paths@),
        }
    }
}

/// A commit to look at, as it was read.
#[derive(Debug)]
pub struct RawHistoryCommit {
    pub oid: String,
    pub author: Vec<u8>,
    pub message: Vec<u8>,
    pub timestamp: i64,
    /// The files it changes. Read where paths are looked at.
    pub files: Vec<RawPaths>,
    /// The lines it adds and removes. Read where content is looked at.
    pub lines: Vec<RawLine>,
}

/// The path a changed file is listed under: the new one, or else the old one.
pub open spec fn touched_path(paths: RawPaths) -> Option<Seq<char>> {
    match (paths.new, paths.old) {
        (Some(new), _) => Some(lossy_text(new@)),
        (None, Some(old)) => Some(lossy_text(old@)),
        (None, None) => None,
    }
}

/// The paths of changed files.
pub open spec fn touched(files: Seq<RawPaths>) -> Seq<Seq<char>>
    decreases files.len(),
{
    if files.len() == 0 {
        Seq::empty()
    } else {
        let before = touched(files.drop_last());
        match touched_path(files.last()) {
            Some(path) => before.push(path),
            None => before,
        }
    }
}

/// The first `count` items, or all where there are fewer.
pub open spec fn at_most<T>(items: Seq<T>, count: nat) -> Seq<T> {
    if items.len() <= count {
        items
    } else {
        items.take(count as int)
    }
}

proof fn lemma_touched_grows(files: Seq<RawPaths>, k: int)
    requires
        0 <= k <= files.len(),
    ensures
        touched(files.take(k)).len() <= touched(files).len(),
        touched(files.take(k)) == touched(files).take(touched(files.take(k)).len() as int),
    decreases files.len(),
{
    if k < files.len() {
        lemma_touched_grows(files.drop_last(), k);
        assert(files.drop_last().take(k) =~= files.take(k));
        let n = touched(files.take(k)).len() as int;
        assert(touched(files).take(n) =~= touched(files.drop_last()).take(n));
    } else {
        assert(files.take(k) =~= files);
        assert(touched(files).take(touched(files).len() as int) =~= touched(files));
    }
}

/// The paths of the files a commit changes, `limit` at most.
pub fn touched_paths(files: &Vec<RawPaths>, limit: usize) -> (r: Vec<String>)
    ensures
        text::views_of(r@) == at_most(touched(files@), limit as nat),
{
    let mut paths: Vec<String> = Vec::new();
    let mut index: usize = 0;
    assert(text::views_of(paths@) =~= touched(files@.take(0)));
    while index < files.len() && paths.len() < limit
        invariant
            index <= files@.len(),
            paths@.len() <= limit,
            text::views_of(paths@) == touched(files@.take(index as int)),
        decreases files@.len() - index,
    {
        proof {
            let seen = files@.take(index + 1);
            assert(seen.drop_last() =~= files@.take(index as int));
            assert(seen.last() == files@[index as int]);
        }
        let ghost held = paths@;
        let file = &files[index];
        let path = match (&file.new, &file.old) {
            (Some(new), _) => Some(text::decode_lossy(new.as_slice())),
            (None, Some(old)) => Some(text::decode_lossy(old.as_slice())),
            (None, None) => None,
        };
        if let Some(path) = path {
            paths.push(path);
            assert(text::views_of(paths@) =~= text::views_of(held).push(path@));
        }
        index += 1;
    }
    proof {
        lemma_touched_grows(files@, index as int);
        if index == files@.len() {
            assert(files@.take(index as int) =~= files@);
        }
        assert(text::views_of(paths@).len() == paths@.len());
        assert(text::views_of(paths@) =~= at_most(touched(files@), limit as nat));
    }
    paths
}

/// How often `needle` occurs in the first `count` lines of the given origin.
pub open spec fn occurrences_in(
    lines: Seq<RawLine>,
    origin: char,
    needle: Seq<char>,
    count: nat,
) -> nat
    decreases count,
{
    if count == 0 {
        0
    } else {
        let line = lines[count - 1];
        occurrences_in(lines, origin, needle, (count - 1) as nat) + if line.origin == origin {
            occurrences(lossy_text(line.content@), needle, 0)
        } else {
            0
        }
    }
}

/// Whether a commit changes how often `needle` occurs: it is introduced or removed, not
/// merely there.
pub fn changes_occurrences(lines: &Vec<RawLine>, needle: &str) -> (r: bool)
    ensures
        r == (occurrences_in(lines@, '+', needle@, lines@.len()) != occurrences_in(
            lines@,
            '-',
            needle@,
            lines@.len(),
        )),
{
    let mut added: u128 = 0;
    let mut removed: u128 = 0;
    let mut index: usize = 0;
    while index < lines.len()
        invariant
            index <= lines@.len(),
            added == occurrences_in(lines@, '+', needle@, index as nat),
            removed == occurrences_in(lines@, '-', needle@, index as nat),
            added <= index * usize::MAX,
            removed <= index * usize::MAX,
        decreases lines@.len() - index,
    {
        let line = &lines[index];
        assert(index < lines.len());
        proof {
            assert(index * usize::MAX + usize::MAX <= u128::MAX) by (nonlinear_arith)
                requires
                    index < usize::MAX <= u64::MAX,
            ;
            assert((index + 1) * usize::MAX == index * usize::MAX + usize::MAX)
                by (nonlinear_arith);
        }
        if line.origin == '+' {
            let content = text::decode_lossy(line.content.as_slice());
            added += matching::count(content.as_str(), needle) as u128;
        } else if line.origin == '-' {
            let content = text::decode_lossy(line.content.as_slice());
            removed += matching::count(content.as_str(), needle) as u128;
        }
        index += 1;
    }
    added != removed
}

/// A commit with everything that is looked at, in lower case too.
#[derive(Debug)]
pub struct Candidate {
    pub oid: String,
    pub author: String,
    pub message: String,
    pub timestamp: i64,
    pub paths: Vec<String>,
    pub lower_author: String,
    pub lower_message: String,
    pub lower_paths: Vec<String>,
    /// Whether the commit changes how often the searched text occurs.
    pub changes_content: bool,
}

/// The paths whose lower-case forms hold the searched text, among the first `count`.
pub open spec fn matching_paths(
    paths: Seq<Seq<char>>,
    lower_paths: Seq<Seq<char>>,
    needle: Seq<char>,
    count: nat,
) -> Seq<Seq<char>>
    decreases count,
{
    if count == 0 {
        Seq::empty()
    } else {
        let before = matching_paths(paths, lower_paths, needle, (count - 1) as nat);
        if occurs(lower_paths[count - 1], needle) {
            before.push(paths[count - 1])
        } else {
            before
        }
    }
}

/// A word, if a condition holds.
pub open spec fn word_if(holds: bool, word: Seq<char>) -> Seq<Seq<char>> {
    if holds {
        seq![word]
    } else {
        Seq::empty()
    }
}

/// The first line of a message.
pub open spec fn first_line(message: Seq<char>) -> Seq<char> {
    if lines_of(message).len() > 0 {
        lines_of(message)[0]
    } else {
        Seq::empty()
    }
}

/// What a [`Candidate`] holds.
#[verifier::ext_equal]
pub struct Looked {
    pub oid: Seq<char>,
    pub author: Seq<char>,
    pub message: Seq<char>,
    pub timestamp: i64,
    pub paths: Seq<Seq<char>>,
    pub lower_author: Seq<char>,
    pub lower_message: Seq<char>,
    pub lower_paths: Seq<Seq<char>>,
    pub changes_content: bool,
}

impl View for Candidate {
    type V = Looked;

    open spec fn view(&self) -> Looked {
        Looked {
            oid: self.oid@,
            author: self.author@,
            message: self.message@,
            timestamp: self.timestamp,
            paths: text::views_of(self.paths@),
            lower_author: self.lower_author@,
            lower_message: self.lower_message@,
            lower_paths: text::views_of(self.lower_paths@),
            changes_content: self.changes_content,
        }
    }
}

/// What a candidate comes to, if it is a hit. `needle` is in lower case.
pub open spec fn hit_of(candidate: Looked, needle: Seq<char>, scope: SearchScope) -> Option<Hit> {
    let paths = matching_paths(
        candidate.paths,
        candidate.lower_paths,
        needle,
        candidate.paths.len(),
    );
    let in_path = scope.path && paths.len() > 0;
    let matched = word_if(scope.message && occurs(candidate.lower_message, needle), "message"@)
        + word_if(scope.author && occurs(candidate.lower_author, needle), "author"@) + word_if(
        in_path,
        "path"@,
    ) + word_if(scope.content && candidate.changes_content, "content"@);
    if matched.len() == 0 {
        None
    } else {
        Some(
            Hit {
                oid: candidate.oid,
                short_oid: short_oid(candidate.oid),
                summary: first_line(candidate.message),
                author: candidate.author,
                timestamp: candidate.timestamp,
                matched,
                paths: if in_path {
                    at_most(paths, 5)
                } else {
                    Seq::empty()
                },
            },
        )
    }
}

fn first_line_of(message: &str) -> (r: String)
    ensures
        r@ == first_line(message@),
{
    let lines = text::split_lines(message);
    assert(text::views_of(lines@).len() == lines@.len());
    if lines.len() > 0 {
        lines[0].clone()
    } else {
        String::new()
    }
}

fn find_paths(candidate: &Candidate, needle: &str) -> (r: Vec<String>)
    requires
        candidate.lower_paths@.len() == candidate.paths@.len(),
    ensures
        text::views_of(r@) == matching_paths(
            text::views_of(candidate.paths@),
            text::views_of(candidate.lower_paths@),
            needle@,
            candidate.paths@.len(),
        ),
{
    let ghost paths = text::views_of(candidate.paths@);
    let ghost lower = text::views_of(candidate.lower_paths@);
    let mut found: Vec<String> = Vec::new();
    let mut index: usize = 0;
    assert(text::views_of(found@) =~= Seq::empty());
    while index < candidate.paths.len()
        invariant
            index <= candidate.paths@.len(),
            candidate.lower_paths@.len() == candidate.paths@.len(),
            paths == text::views_of(candidate.paths@),
            lower == text::views_of(candidate.lower_paths@),
            text::views_of(found@) == matching_paths(paths, lower, needle@, index as nat),
        decreases candidate.paths@.len() - index,
    {
        let ghost held = found@;
        if matching::contains(candidate.lower_paths[index].as_str(), needle) {
            found.push(candidate.paths[index].clone());
            assert(text::views_of(found@) =~= text::views_of(held).push(paths[index as int]));
        }
        index += 1;
    }
    found
}

/// Looks at a candidate. `needle` is in lower case.
pub fn look_at(candidate: &Candidate, needle: &str, scope: SearchScope) -> (r: Option<SearchHit>)
    requires
        candidate.lower_paths@.len() == candidate.paths@.len(),
    ensures
        match r {
            Some(hit) => hit_of(candidate@, needle@, scope) == Some(hit@),
            None => hit_of(candidate@, needle@, scope) is None,
        },
{
    let mut matched: Vec<&'static str> = Vec::new();
    let mut paths: Vec<String> = Vec::new();
    let in_message = scope.message && matching::contains(candidate.lower_message.as_str(), needle);
    if in_message {
        matched.push("message");
    }
    let in_author = scope.author && matching::contains(candidate.lower_author.as_str(), needle);
    if in_author {
        matched.push("author");
    }
    let found = find_paths(candidate, needle);
    assert(text::views_of(found@).len() == found@.len());
    let in_path = scope.path && found.len() > 0;
    if in_path {
        matched.push("path");
        let mut index: usize = 0;
        while index < found.len() && index < 5
            invariant
                index <= found@.len(),
                index <= 5,
                text::views_of(paths@) == text::views_of(found@).take(index as int),
            decreases found@.len() - index,
        {
            let ghost held = paths@;
            paths.push(found[index].clone());
            index += 1;
            assert(text::views_of(paths@) =~= text::views_of(held).push(found@[index - 1]@));
            assert(text::views_of(found@).take(index as int) =~= text::views_of(found@).take(
                index - 1,
            ).push(found@[index - 1]@));
        }
        assert(text::views_of(paths@) =~= at_most(text::views_of(found@), 5));
    } else {
        assert(text::views_of(paths@) =~= Seq::empty());
    }
    let in_content = scope.content && candidate.changes_content;
    if in_content {
        matched.push("content");
    }
    assert(words_view(matched@) =~= word_if(in_message, "message"@) + word_if(
        in_author,
        "author"@,
    ) + word_if(in_path, "path"@) + word_if(in_content, "content"@));
    assert(words_view(matched@).len() == matched@.len());
    if matched.len() == 0 {
        return None;
    }
    Some(
        SearchHit {
            short_oid: git::short(candidate.oid.as_str()),
            oid: candidate.oid.clone(),
            summary: first_line_of(candidate.message.as_str()),
            author: candidate.author.clone(),
            timestamp: candidate.timestamp,
            matched,
            paths,
        },
    )
}

/// What is looked at in a commit. Paths and content are left out where they do not count.
pub open spec fn looked_at(
    commit: RawHistoryCommit,
    needle: Seq<char>,
    scope: SearchScope,
) -> Looked {
    let paths = if scope.path {
        at_most(touched(commit.files@), 32)
    } else {
        Seq::empty()
    };
    Looked {
        oid: commit.oid@,
        author: lossy_text(commit.author@),
        message: lossy_text(commit.message@),
        timestamp: commit.timestamp,
        paths,
        lower_author: lower_case(lossy_text(commit.author@)),
        lower_message: lower_case(lossy_text(commit.message@)),
        lower_paths: paths.map_values(|path: Seq<char>| lower_case(path)),
        changes_content: scope.content && occurrences_in(
            commit.lines@,
            '+',
            needle,
            commit.lines@.len(),
        ) != occurrences_in(commit.lines@, '-', needle, commit.lines@.len()),
    }
}

/// Gathers what is looked at in a commit.
pub fn prepare(commit: RawHistoryCommit, needle: &str, scope: SearchScope) -> (r: Candidate)
    ensures
        r@ == looked_at(commit, needle@, scope),
        r.lower_paths@.len() == r.paths@.len(),
{
    let author = text::decode_lossy(commit.author.as_slice());
    let message = text::decode_lossy(commit.message.as_slice());
    let paths = if scope.path {
        touched_paths(&commit.files, 32)
    } else {
        Vec::new()
    };
    let ghost views = text::views_of(paths@);
    let ghost lowered = views.map_values(|path: Seq<char>| lower_case(path));
    assert(!scope.path ==> views =~= Seq::empty());
    let mut lower_paths: Vec<String> = Vec::new();
    let mut index: usize = 0;
    assert(text::views_of(lower_paths@) =~= lowered.take(0));
    while index < paths.len()
        invariant
            index <= paths@.len(),
            views == text::views_of(paths@),
            lowered == views.map_values(|path: Seq<char>| lower_case(path)),
            lower_paths@.len() == index,
            text::views_of(lower_paths@) == lowered.take(index as int),
        decreases paths@.len() - index,
    {
        let ghost held = lower_paths@;
        let lower = matching::to_lower(paths[index].as_str());
        lower_paths.push(lower);
        index += 1;
        assert(text::views_of(lower_paths@) =~= text::views_of(held).push(lower@));
        assert(lowered.take(index as int) =~= lowered.take(index - 1).push(lower@));
    }
    assert(lowered.take(index as int) =~= lowered);
    let changes_content = scope.content && changes_occurrences(&commit.lines, needle);
    Candidate {
        lower_author: matching::to_lower(author.as_str()),
        lower_message: matching::to_lower(message.as_str()),
        oid: commit.oid,
        author,
        message,
        timestamp: commit.timestamp,
        paths,
        lower_paths,
        changes_content,
    }
}

/// A search under way: commits are handed to it one by one, the latest first.
#[derive(Debug)]
pub struct Search {
    pub needle: String,
    pub lowered: String,
    pub scope: SearchScope,
    /// The number of hits to stop at.
    pub limit: usize,
    /// The number of commits to stop at.
    pub scan_limit: usize,
    pub scanned: usize,
    pub hits: Vec<SearchHit>,
}

pub open spec fn hits_view(hits: Seq<SearchHit>) -> Seq<Hit> {
    hits.map_values(|hit: SearchHit| hit@)
}

/// What a commit comes to, if it is a hit.
pub open spec fn commit_hit(
    commit: RawHistoryCommit,
    needle: Seq<char>,
    scope: SearchScope,
) -> Option<Hit> {
    hit_of(looked_at(commit, needle, scope), lower_case(needle), scope)
}

/// The hits among commits. One that cannot be read is none.
pub open spec fn found_in(
    commits: Seq<Option<RawHistoryCommit>>,
    needle: Seq<char>,
    scope: SearchScope,
) -> Seq<Hit>
    decreases commits.len(),
{
    if commits.len() == 0 {
        Seq::empty()
    } else {
        with_hit_of(
            found_in(commits.drop_last(), needle, scope),
            commits.last(),
            needle,
            scope,
        )
    }
}

/// Hits, with that of one more commit if it is one.
pub open spec fn with_hit_of(
    hits: Seq<Hit>,
    commit: Option<RawHistoryCommit>,
    needle: Seq<char>,
    scope: SearchScope,
) -> Seq<Hit> {
    match commit {
        None => hits,
        Some(commit) => match commit_hit(commit, needle, scope) {
            Some(hit) => hits.push(hit),
            None => hits,
        },
    }
}

impl Search {
    /// Whether there is anything to search for.
    pub open spec fn searches(self) -> bool {
        self.needle@.len() > 0 && self.scope.looks()
    }

    /// Whether another commit is to be looked at.
    pub open spec fn goes_on(self) -> bool {
        self.searches() && self.hits@.len() < self.limit && self.scanned < self.scan_limit
    }

    pub fn new(needle: &str, scope: SearchScope, limit: usize, scan_limit: usize) -> (r: Self)
        ensures
            r.needle@ == trimmed(needle@),
            r.lowered@ == lower_case(r.needle@),
            r.scope == scope,
            r.limit == limit,
            r.scan_limit == scan_limit,
            r.scanned == 0,
            r.hits@.len() == 0,
    {
        let needle = matching::trim(needle);
        let lowered = matching::to_lower(needle.as_str());
        Search { needle, lowered, scope, limit, scan_limit, scanned: 0, hits: Vec::new() }
    }

    pub fn wants_more(&self) -> (r: bool)
        ensures
            r == self.goes_on(),
    {
        proof {
            text::empty_text_has_no_bytes(self.needle@);
        }
        self.needle.as_str().as_bytes().len() > 0 && self.scope.any() && self.hits.len() < self.limit
            && self.scanned < self.scan_limit
    }

    /// Looks at the next commit. One that cannot be read counts as looked at.
    pub fn offer(&mut self, commit: Option<RawHistoryCommit>)
        requires
            old(self).goes_on(),
            old(self).lowered@ == lower_case(old(self).needle@),
        ensures
            final(self).needle == old(self).needle,
            final(self).lowered == old(self).lowered,
            final(self).scope == old(self).scope,
            final(self).limit == old(self).limit,
            final(self).scan_limit == old(self).scan_limit,
            final(self).scanned == old(self).scanned + 1,
            hits_view(final(self).hits@) == with_hit_of(
                hits_view(old(self).hits@),
                commit,
                old(self).needle@,
                old(self).scope,
            ),
    {
        self.scanned = self.scanned + 1;
        if let Some(commit) = commit {
            let candidate = prepare(commit, self.needle.as_str(), self.scope);
            let found = look_at(&candidate, self.lowered.as_str(), self.scope);
            if let Some(found) = found {
                self.hits.push(found);
                assert(hits_view(self.hits@) =~= hits_view(old(self).hits@).push(found@));
            }
        }
    }
}

proof fn lemma_found_grows(
    commits: Seq<Option<RawHistoryCommit>>,
    needle: Seq<char>,
    scope: SearchScope,
    k: int,
)
    requires
        0 <= k <= commits.len(),
    ensures
        found_in(commits.take(k), needle, scope).len() <= found_in(commits, needle, scope).len(),
        found_in(commits.take(k), needle, scope) == found_in(commits, needle, scope).take(
            found_in(commits.take(k), needle, scope).len() as int,
        ),
    decreases commits.len(),
{
    let all = found_in(commits, needle, scope);
    if k < commits.len() {
        lemma_found_grows(commits.drop_last(), needle, scope, k);
        assert(commits.drop_last().take(k) =~= commits.take(k));
        let n = found_in(commits.take(k), needle, scope).len() as int;
        assert(all.take(n) =~= found_in(commits.drop_last(), needle, scope).take(n));
    } else {
        assert(commits.take(k) =~= commits);
        assert(all.take(all.len() as int) =~= all);
    }
}

/// Whether these are the hits of a search, as they come back.
pub open spec fn are_hits(
    hits: Seq<SearchHit>,
    commits: Seq<Option<RawHistoryCommit>>,
    needle: Seq<char>,
    scope: SearchScope,
    limit: usize,
    scan_limit: usize,
) -> bool {
    hits_view(hits) == if trimmed(needle).len() > 0 && scope.looks() {
        at_most(
            found_in(at_most(commits, scan_limit as nat), trimmed(needle), scope),
            limit as nat,
        )
    } else {
        Seq::empty()
    }
}

/// Searches a history, the latest commit first: at most `scan_limit` commits are looked
/// at, and at most `limit` hits come back.
pub fn search(
    commits: Vec<Option<RawHistoryCommit>>,
    needle: &str,
    scope: SearchScope,
    limit: usize,
    scan_limit: usize,
) -> (r: Vec<SearchHit>)
    ensures
        are_hits(r@, commits@, needle@, scope, limit, scan_limit),
{
    let mut search = Search::new(needle, scope, limit, scan_limit);
    let ghost all = commits@;
    let ghost wanted = search.needle@;
    let ghost searches = search.searches();
    let ghost mut count: int = 0;
    assert(hits_view(search.hits@) =~= Seq::empty());
    for commit in rest: commits
        invariant
            rest.seq() == all,
            0 <= count <= rest.index(),
            search.needle@ == wanted,
            search.lowered@ == lower_case(wanted),
            search.scope == scope,
            search.limit == limit,
            search.scan_limit == scan_limit,
            search.searches() == searches,
            search.scanned == count,
            count <= scan_limit,
            search.hits@.len() <= limit,
            hits_view(search.hits@) == found_in(all.take(count), wanted, scope),
            search.goes_on() ==> count == rest.index(),
            !searches ==> count == 0,
        decreases all.len() - rest.index(),
    {
        if search.wants_more() {
            proof {
                let seen = all.take(count + 1);
                assert(seen.drop_last() =~= all.take(count));
                assert(seen.last() == commit);
            }
            let ghost before = search.hits@;
            search.offer(commit);
            proof {
                assert(hits_view(before).len() == before.len());
                assert(hits_view(search.hits@).len() == search.hits@.len());
                count = count + 1;
            }
        }
    }
    proof {
        let looked = at_most(all, scan_limit as nat);
        assert(hits_view(search.hits@).len() == search.hits@.len());
        if searches {
            assert(looked.take(count) =~= all.take(count));
            lemma_found_grows(looked, wanted, scope, count);
            if count == all.len() || count == scan_limit {
                assert(looked.take(count) =~= looked);
            }
            assert(hits_view(search.hits@) =~= at_most(
                found_in(looked, wanted, scope),
                limit as nat,
            ));
        }
    }
    search.hits
}

/// A line and the commit that last changed it.
#[derive(Debug)]
pub struct BlameLine {
    pub line_number: usize,
    pub content: String,
    pub oid: String,
    pub short_oid: String,
    pub author: String,
    pub summary: String,
    pub timestamp: i64,
    /// Whether the line before it comes from the same commit, so that the source need be
    /// shown at the start of each block only.
    pub same_as_previous: bool,
}

/// What a [`BlameLine`] holds.
#[verifier::ext_equal]
pub struct Blamed {
    pub line_number: int,
    pub content: Seq<char>,
    pub oid: Seq<char>,
    pub short_oid: Seq<char>,
    pub author: Seq<char>,
    pub summary: Seq<char>,
    pub timestamp: i64,
    pub same_as_previous: bool,
}

impl View for BlameLine {
    type V = Blamed;

    open spec fn view(&self) -> Blamed {
        Blamed {
            line_number: self.line_number as int,
            content: self.content@,
            oid: self.oid@,
            short_oid: self.short_oid@,
            author: self.author@,
            summary: self.summary@,
            timestamp: self.timestamp,
            same_as_previous: self.same_as_previous,
        }
    }
}

pub open spec fn blame_view(lines: Seq<BlameLine>) -> Seq<Blamed> {
    lines.map_values(|line: BlameLine| line@)
}

/// Who wrote a commit, and when.
#[derive(Debug)]
pub struct RawAuthor {
    pub name: Vec<u8>,
    pub message: Vec<u8>,
    pub timestamp: i64,
}

/// Where a line comes from, as it was read.
#[derive(Debug)]
pub struct RawBlame {
    pub oid: String,
    /// The commit, if it could be read.
    pub commit: Option<RawAuthor>,
}

/// The source of the line at `index`, if one is known.
pub open spec fn source_of(sources: Seq<Option<RawBlame>>, index: int) -> Option<RawBlame> {
    if 0 <= index < sources.len() {
        sources[index]
    } else {
        None
    }
}

/// The first `count` lines with their sources. A line without a source is left out.
pub open spec fn blamed(
    lines: Seq<Seq<char>>,
    sources: Seq<Option<RawBlame>>,
    count: nat,
) -> Seq<Blamed>
    decreases count,
{
    if count == 0 {
        Seq::empty()
    } else {
        let before = blamed(lines, sources, (count - 1) as nat);
        match source_of(sources, count - 1) {
            None => before,
            Some(source) => before.push(
                Blamed {
                    line_number: count as int,
                    content: lines[count - 1],
                    oid: source.oid@,
                    short_oid: short_oid(source.oid@),
                    author: match source.commit {
                        Some(commit) => lossy_text(commit.name@),
                        None => Seq::empty(),
                    },
                    summary: match source.commit {
                        Some(commit) => first_line(lossy_text(commit.message@)),
                        None => Seq::empty(),
                    },
                    timestamp: match source.commit {
                        Some(commit) => commit.timestamp,
                        None => 0,
                    },
                    same_as_previous: before.len() > 0 && before.last().oid == source.oid@,
                },
            ),
        }
    }
}

/// Whether these are the lines of a file, each with the commit that last changed it.
pub open spec fn is_blame(
    lines: Seq<BlameLine>,
    content: Seq<u8>,
    sources: Seq<Option<RawBlame>>,
    limit: usize,
) -> bool {
    blame_view(lines) == blamed(
        lines_of(lossy_text(content)),
        sources,
        at_most(lines_of(lossy_text(content)), limit as nat).len(),
    )
}

/// Says of each line of a file, `limit` lines at most, which commit last changed it.
/// `sources` holds the source of each line in turn.
pub fn blame(content: &Vec<u8>, sources: &Vec<Option<RawBlame>>, limit: usize) -> (r: Vec<
    BlameLine,
>)
    ensures
        is_blame(r@, content@, sources@, limit),
{
    let decoded = text::decode_lossy(content.as_slice());
    let lines = text::split_lines(decoded.as_str());
    let ghost texts = lines_of(lossy_text(content@));
    assert(text::views_of(lines@).len() == lines@.len());
    let mut listed: Vec<BlameLine> = Vec::new();
    let mut index: usize = 0;
    assert(blame_view(listed@) =~= Seq::empty());
    while index < lines.len() && index < limit
        invariant
            index <= lines@.len(),
            index <= limit,
            texts == text::views_of(lines@),
            blame_view(listed@) == blamed(texts, sources@, index as nat),
        decreases lines@.len() - index,
    {
        let ghost held = listed@;
        assert(blame_view(held).len() == held.len());
        assert(index < lines.len());
        if index < sources.len() {
            if let Some(source) = &sources[index] {
                let (author, summary, timestamp) = match &source.commit {
                    Some(commit) => {
                        let message = text::decode_lossy(commit.message.as_slice());
                        (
                            text::decode_lossy(commit.name.as_slice()),
                            first_line_of(message.as_str()),
                            commit.timestamp,
                        )
                    },
                    None => (String::new(), String::new(), 0),
                };
                let same_as_previous = if listed.len() > 0 {
                    let last = listed.len() - 1;
                    assert(blame_view(held).last() == held[last as int]@);
                    text::same(listed[last].oid.as_str(), source.oid.as_str())
                } else {
                    false
                };
                let line = BlameLine {
                    line_number: index + 1,
                    content: lines[index].clone(),
                    short_oid: git::short(source.oid.as_str()),
                    oid: source.oid.clone(),
                    author,
                    summary,
                    timestamp,
                    same_as_previous,
                };
                listed.push(line);
                assert(author@ =~= match source.commit {
                    Some(commit) => lossy_text(commit.name@),
                    None => Seq::empty(),
                });
                assert(summary@ =~= match source.commit {
                    Some(commit) => first_line(lossy_text(commit.message@)),
                    None => Seq::empty(),
                });
                assert(blame_view(listed@) =~= blame_view(held).push(line@));
            }
        }
        index += 1;
    }
    listed
}

} // verus!
