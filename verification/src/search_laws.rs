//! What holds of every search of a history, and of telling who last changed which line.
use vstd::prelude::*;

use crate::divergence::RawPaths;
use crate::matching::{
    lower_case, occurrences, occurs, stands_at, trimmed, without_leading_space,
    without_trailing_space,
};
use crate::patch::RawLine;
use crate::search::{
    are_hits, at_most, blame_view, blamed, commit_hit, found_in, hits_view, is_blame, looked_at, matching_paths,
    occurrences_in, source_of, touched, BlameLine, RawBlame, RawHistoryCommit, Search,
    SearchHit, SearchScope,
};
use crate::text::{is_white_space, lines_of, lossy_text};

verus! {

/// Whether a text holds another somewhere.
pub open spec fn holds(text: Seq<char>, part: Seq<char>) -> bool {
    exists|before: Seq<char>, after: Seq<char>| text == #[trigger] (before + part + after)
}

proof fn lemma_holds(text: Seq<char>, part: Seq<char>)
    ensures
        occurs(text, part) <==> holds(text, part),
{
    if occurs(text, part) {
        let at = choose|at: int| #[trigger] stands_at(text, part, at);
        let (before, after) = (text.take(at), text.skip(at + part.len()));
        assert(text =~= before + part + after);
    }
    if holds(text, part) {
        let (before, after) = choose|before: Seq<char>, after: Seq<char>|
            text == #[trigger] (before + part + after);
        let at = before.len() as int;
        assert(text.subrange(at, at + part.len()) =~= part);
        assert(stands_at(text, part, at));
    }
}

/// The first items, no more than `count`.
pub open spec fn first_of<T>(items: Seq<T>, count: nat) -> Seq<T> {
    items.take(
        if items.len() < count {
            items.len() as int
        } else {
            count as int
        },
    )
}

proof fn lemma_first_of<T>(items: Seq<T>, count: nat)
    ensures
        at_most(items, count) == first_of(items, count),
{
    assert(items.take(items.len() as int) =~= items);
}

/// The path of a file: the new one, or else the old one.
pub open spec fn path_of(file: RawPaths) -> Seq<char> {
    if file.new is Some {
        lossy_text(file.new->0@)
    } else {
        lossy_text(file.old->0@)
    }
}

/// The paths of the files of a commit.
pub open spec fn paths_of(files: Seq<RawPaths>) -> Seq<Seq<char>> {
    files.filter(|file: RawPaths| file.new is Some || file.old is Some).map_values(
        |file: RawPaths| path_of(file),
    )
}

proof fn lemma_paths_of(files: Seq<RawPaths>)
    ensures
        touched(files) == paths_of(files),
    decreases files.len(),
{
    reveal(Seq::filter);
    let named = |file: RawPaths| file.new is Some || file.old is Some;
    let view = |file: RawPaths| path_of(file);
    if files.len() > 0 {
        lemma_paths_of(files.drop_last());
        let before = files.drop_last().filter(named);
        assert(before.push(files.last()).map_values(view) =~= before.map_values(view).push(
            view(files.last()),
        ));
    } else {
        assert(touched(files) =~= paths_of(files));
    }
}

proof fn lemma_matching_paths(paths: Seq<Seq<char>>, needle: Seq<char>, count: nat)
    requires
        count <= paths.len(),
    ensures
        matching_paths(
            paths,
            paths.map_values(|path: Seq<char>| lower_case(path)),
            needle,
            count,
        ) == paths.take(count as int).filter(|path: Seq<char>| holds(lower_case(path), needle)),
    decreases count,
{
    reveal(Seq::filter);
    if count > 0 {
        let less = (count - 1) as nat;
        lemma_matching_paths(paths, needle, less);
        lemma_holds(lower_case(paths[less as int]), needle);
        assert(paths.take(count as int).drop_last() =~= paths.take(less as int));
    }
}

/// The paths of the files of a commit that hold the searched text, of the files that are
/// looked at.
pub open spec fn paths_found(commit: RawHistoryCommit, needle: Seq<char>) -> Seq<Seq<char>> {
    first_of(paths_of(commit.files@), 32).filter(
        |path: Seq<char>| holds(lower_case(path), lower_case(needle)),
    )
}

/// Whether a commit puts the searched text in more often than it takes it out, or less
/// often.
pub open spec fn shifts_balance(commit: RawHistoryCommit, needle: Seq<char>) -> bool {
    occurrences_in(commit.lines@, '+', needle, commit.lines@.len()) != occurrences_in(
        commit.lines@,
        '-',
        needle,
        commit.lines@.len(),
    )
}

/// A word, where it applies.
pub open spec fn applies(holds: bool, word: Seq<char>) -> Seq<Seq<char>> {
    if holds {
        seq![word]
    } else {
        Seq::empty()
    }
}

/// A commit is found by any part of its message, by its author, by the path of one of its
/// files or by what it changes, as far as each is looked at, in whatever case; and the hit
/// says by which of them.
pub proof fn hits_say_where_they_match(
    commit: RawHistoryCommit,
    needle: Seq<char>,
    scope: SearchScope,
)
    ensures
        ({
            let wanted = lower_case(needle);
            let by_message = scope.message && holds(lower_case(lossy_text(commit.message@)), wanted);
            let by_author = scope.author && holds(lower_case(lossy_text(commit.author@)), wanted);
            let by_path = scope.path && paths_found(commit, needle).len() > 0;
            let by_content = scope.content && shifts_balance(commit, needle);
            &&& commit_hit(commit, needle, scope) is Some <==> by_message || by_author || by_path
                || by_content
            &&& commit_hit(commit, needle, scope) matches Some(hit) ==> {
                &&& hit.matched == applies(by_message, "message"@) + applies(by_author, "author"@)
                    + applies(by_path, "path"@) + applies(by_content, "content"@)
                &&& hit.paths == if by_path {
                    first_of(paths_found(commit, needle), 5)
                } else {
                    Seq::empty()
                }
            }
        }),
{
    let wanted = lower_case(needle);
    let looked = looked_at(commit, needle, scope);
    lemma_holds(lower_case(lossy_text(commit.message@)), wanted);
    lemma_holds(lower_case(lossy_text(commit.author@)), wanted);
    lemma_paths_of(commit.files@);
    lemma_first_of(touched(commit.files@), 32);
    let paths = first_of(paths_of(commit.files@), 32);
    lemma_matching_paths(paths, wanted, paths.len());
    assert(paths.take(paths.len() as int) =~= paths);
    lemma_first_of(paths_found(commit, needle), 5);
    let by_message = scope.message && occurs(looked.lower_message, wanted);
    let by_author = scope.author && occurs(looked.lower_author, wanted);
    let by_path = scope.path && paths_found(commit, needle).len() > 0;
    let by_content = scope.content && shifts_balance(commit, needle);
    if scope.path {
        assert(looked.paths == paths);
        assert(matching_paths(looked.paths, looked.lower_paths, wanted, looked.paths.len())
            == paths_found(commit, needle));
    }
    let words = applies(by_message, "message"@) + applies(by_author, "author"@) + applies(
        by_path,
        "path"@,
    ) + applies(by_content, "content"@);
    if by_message || by_author || by_path || by_content {
        assert(words.len() > 0);
    } else {
        assert(words.len() == 0);
    }
    if let Some(hit) = commit_hit(commit, needle, scope) {
        assert(hit.matched =~= words);
    }
}

/// A hit shows the commit: its id and the first eight characters of it, the first line of
/// its message, its author and its time.
pub proof fn hits_show_the_commit(commit: RawHistoryCommit, needle: Seq<char>, scope: SearchScope)
    ensures
        commit_hit(commit, needle, scope) matches Some(hit) ==> {
            let lines = lines_of(lossy_text(commit.message@));
            &&& hit.oid == commit.oid@
            &&& hit.short_oid == first_of(commit.oid@, 8)
            &&& hit.summary == if lines.len() > 0 {
                lines[0]
            } else {
                Seq::<char>::empty()
            }
            &&& hit.author == lossy_text(commit.author@)
            &&& hit.timestamp == commit.timestamp
        },
{
    assert(commit.oid@.take(commit.oid@.len() as int) =~= commit.oid@);
}

/// Each line counts by how often it holds the text, if it is of the wanted origin, and by
/// nothing else.
pub proof fn lines_count_by_what_they_hold(
    lines: Seq<RawLine>,
    line: RawLine,
    origin: char,
    needle: Seq<char>,
)
    ensures
        occurrences_in(lines.push(line), origin, needle, lines.len() + 1) == occurrences_in(
            lines,
            origin,
            needle,
            lines.len(),
        ) + if line.origin == origin {
            occurrences(lossy_text(line.content@), needle, 0)
        } else {
            0
        },
        occurrences_in(Seq::empty(), origin, needle, 0) == 0,
{
    lemma_occurrences_in_prefix(lines, line, origin, needle, lines.len());
}

proof fn lemma_occurrences_in_prefix(
    lines: Seq<RawLine>,
    line: RawLine,
    origin: char,
    needle: Seq<char>,
    count: nat,
)
    requires
        count <= lines.len(),
    ensures
        occurrences_in(lines.push(line), origin, needle, count) == occurrences_in(
            lines,
            origin,
            needle,
            count,
        ),
    decreases count,
{
    if count > 0 {
        lemma_occurrences_in_prefix(lines, line, origin, needle, (count - 1) as nat);
    }
}

proof fn lemma_occurrences_before(before: Seq<char>, text: Seq<char>, needle: Seq<char>, from: int)
    requires
        0 <= from <= text.len(),
        needle.len() > 0,
    ensures
        occurrences(before + text, needle, before.len() + from) == occurrences(text, needle, from),
    decreases text.len() - from,
{
    let all = before + text;
    let at = before.len() + from;
    if from + needle.len() <= text.len() {
        assert(all.subrange(at, at + needle.len()) =~= text.subrange(from, from + needle.len()));
        if stands_at(text, needle, from) {
            lemma_occurrences_before(before, text, needle, from + needle.len());
        } else {
            lemma_occurrences_before(before, text, needle, from + 1);
        }
    }
}

proof fn lemma_none_before(text: Seq<char>, needle: Seq<char>, from: int, to: int)
    requires
        0 <= from <= to <= text.len(),
        needle.len() > 0,
        forall|i: int| from <= i < to ==> !#[trigger] stands_at(text, needle, i),
    ensures
        occurrences(text, needle, from) == occurrences(text, needle, to),
    decreases to - from,
{
    if from < to {
        lemma_none_before(text, needle, from + 1, to);
        assert(!stands_at(text, needle, from));
    }
}

/// Counting goes from the left: behind the first place of a text the rest is counted anew,
/// and where there is no place there is nothing to count.
pub proof fn places_are_counted_from_the_left(
    before: Seq<char>,
    needle: Seq<char>,
    after: Seq<char>,
)
    requires
        needle.len() > 0,
        !holds((before + needle).drop_last(), needle),
    ensures
        occurrences(before + needle + after, needle, 0) == 1 + occurrences(after, needle, 0),
        !holds(after, needle) ==> occurrences(after, needle, 0) == 0,
{
    let all = before + needle + after;
    let at = before.len() as int;
    assert(all.subrange(at, at + needle.len()) =~= needle);
    assert forall|i: int| 0 <= i < at implies !#[trigger] stands_at(all, needle, i) by {
        if stands_at(all, needle, i) {
            let start = (before + needle).drop_last();
            assert(all.subrange(i, i + needle.len()) =~= start.subrange(i, i + needle.len()));
            assert(stands_at(start, needle, i));
            lemma_holds(start, needle);
        }
    }
    lemma_none_before(all, needle, 0, at);
    lemma_occurrences_before(before + needle, after, needle, 0);
    if !holds(after, needle) {
        lemma_holds(after, needle);
        assert forall|i: int| 0 <= i < after.len() implies !#[trigger] stands_at(
            after,
            needle,
            i,
        ) by {
            assert(!occurs(after, needle));
        }
        lemma_none_before(after, needle, 0, after.len() as int);
    }
}

/// What is searched for is taken without the white space round it.
pub proof fn white_space_round_the_needle_is_dropped(text: Seq<char>)
    ensures
        exists|before: Seq<char>, after: Seq<char>|
            text == #[trigger] (before + trimmed(text) + after) && (forall|i: int|
                0 <= i < before.len() ==> is_white_space(#[trigger] before[i])) && (forall|i: int|
                0 <= i < after.len() ==> is_white_space(#[trigger] after[i])),
        trimmed(text).len() > 0 ==> !is_white_space(trimmed(text)[0]) && !is_white_space(
            trimmed(text).last(),
        ),
{
    let middle = without_leading_space(text);
    let before = lemma_leading(text);
    let after = lemma_trailing(middle);
    assert(before + trimmed(text) + after =~= before + middle);
    if trimmed(text).len() > 0 {
        assert(trimmed(text)[0] == middle[0]);
    }
}

proof fn lemma_leading(text: Seq<char>) -> (before: Seq<char>)
    ensures
        text == before + without_leading_space(text),
        forall|i: int| 0 <= i < before.len() ==> is_white_space(#[trigger] before[i]),
        without_leading_space(text).len() > 0 ==> !is_white_space(without_leading_space(text)[0]),
    decreases text.len(),
{
    if text.len() > 0 && is_white_space(text[0]) {
        let rest = lemma_leading(text.drop_first());
        let before = seq![text[0]] + rest;
        assert(text =~= seq![text[0]] + text.drop_first());
        assert(before + without_leading_space(text) =~= seq![text[0]] + (rest
            + without_leading_space(text)));
        before
    } else {
        assert(text =~= Seq::<char>::empty() + text);
        Seq::empty()
    }
}

proof fn lemma_trailing(text: Seq<char>) -> (after: Seq<char>)
    ensures
        text == without_trailing_space(text) + after,
        forall|i: int| 0 <= i < after.len() ==> is_white_space(#[trigger] after[i]),
        without_trailing_space(text).len() > 0 ==> !is_white_space(
            without_trailing_space(text).last(),
        ),
    decreases text.len(),
{
    if text.len() > 0 && is_white_space(text.last()) {
        let rest = lemma_trailing(text.drop_last());
        let after = rest.push(text.last());
        assert(text =~= text.drop_last().push(text.last()));
        assert(without_trailing_space(text) + after =~= (without_trailing_space(text) + rest).push(
            text.last(),
        ));
        after
    } else {
        assert(text =~= text + Seq::<char>::empty());
        Seq::empty()
    }
}

/// Whether a commit could be read and is a hit.
pub open spec fn is_found(
    commit: Option<RawHistoryCommit>,
    needle: Seq<char>,
    scope: SearchScope,
) -> bool {
    commit is Some && commit_hit(commit->0, needle, scope) is Some
}

proof fn lemma_found_in(commits: Seq<Option<RawHistoryCommit>>, needle: Seq<char>, scope: SearchScope)
    ensures
        found_in(commits, needle, scope) == commits.filter(
            |commit: Option<RawHistoryCommit>| is_found(commit, needle, scope),
        ).map_values(
            |commit: Option<RawHistoryCommit>| commit_hit(commit->0, needle, scope)->0,
        ),
    decreases commits.len(),
{
    reveal(Seq::filter);
    let wanted = |commit: Option<RawHistoryCommit>| is_found(commit, needle, scope);
    let view = |commit: Option<RawHistoryCommit>| commit_hit(commit->0, needle, scope)->0;
    if commits.len() > 0 {
        lemma_found_in(commits.drop_last(), needle, scope);
        let before = commits.drop_last().filter(wanted);
        assert(before.push(commits.last()).map_values(view) =~= before.map_values(view).push(
            view(commits.last()),
        ));
    } else {
        assert(found_in(commits, needle, scope) =~= commits.filter(wanted).map_values(view));
    }
}

/// A search gives back the hits among the commits that are looked at, in the order of the
/// commits and as many as asked for. It gives nothing where there is nothing to search for
/// or nowhere to look.
pub proof fn searches_find_every_hit_in_order(
    hits: Seq<SearchHit>,
    commits: Seq<Option<RawHistoryCommit>>,
    needle: Seq<char>,
    scope: SearchScope,
    limit: usize,
    scan_limit: usize,
)
    requires
        are_hits(hits, commits, needle, scope, limit, scan_limit),
    ensures
        ({
            let found = first_of(commits, scan_limit as nat).filter(
                |commit: Option<RawHistoryCommit>| is_found(commit, trimmed(needle), scope),
            );
            let looks = scope.message || scope.author || scope.path || scope.content;
            &&& trimmed(needle).len() == 0 || !looks ==> hits.len() == 0
            &&& trimmed(needle).len() > 0 && looks ==> {
                &&& hits.len() == if found.len() < limit {
                    found.len()
                } else {
                    limit as nat
                }
                &&& forall|k: int|
                    0 <= k < hits.len() ==> is_found(found[k], trimmed(needle), scope) && (
                    #[trigger] hits[k])@ == commit_hit(found[k]->0, trimmed(needle), scope)->0
            }
        }),
{
    let wanted = trimmed(needle);
    lemma_first_of(commits, scan_limit as nat);
    let looked = first_of(commits, scan_limit as nat);
    lemma_found_in(looked, wanted, scope);
    lemma_first_of(found_in(looked, wanted, scope), limit as nat);
    let is_wanted = |commit: Option<RawHistoryCommit>| is_found(commit, wanted, scope);
    let found = looked.filter(is_wanted);
    assert(hits_view(hits).len() == hits.len());
    if wanted.len() > 0 && scope.looks() {
        assert forall|k: int| 0 <= k < hits.len() implies is_found(found[k], wanted, scope) && (
        #[trigger] hits[k])@ == commit_hit(found[k]->0, wanted, scope)->0 by {
            assert(hits_view(hits)[k] == hits[k]@);
            looked.lemma_filter_pred(is_wanted, k);
        }
    }
}

/// Every line whose source is known is told of, with its own text, the commit that it comes
/// from, and who wrote that commit: `r` holds what is told, `k` is one of its lines.
pub proof fn blame_tells_of_each_line(
    r: Seq<BlameLine>,
    content: Seq<u8>,
    sources: Seq<Option<RawBlame>>,
    limit: usize,
    k: int,
)
    requires
        is_blame(r, content, sources, limit),
        0 <= k < r.len(),
    ensures
        ({
            let lines = lines_of(lossy_text(content));
            let n = r[k].line_number - 1;
            &&& 0 <= n < lines.len()
            &&& n < limit
            &&& n < sources.len()
            &&& sources[n] is Some
            &&& r[k].content@ == lines[n]
            &&& r[k].oid@ == sources[n]->0.oid@
            &&& r[k].short_oid@ == first_of(sources[n]->0.oid@, 8)
            &&& sources[n]->0.commit matches Some(commit) ==> {
                let message = lines_of(lossy_text(commit.message@));
                &&& r[k].author@ == lossy_text(commit.name@)
                &&& r[k].summary@ == if message.len() > 0 {
                    message[0]
                } else {
                    Seq::<char>::empty()
                }
                &&& r[k].timestamp == commit.timestamp
            }
            &&& sources[n]->0.commit is None ==> r[k].author@.len() == 0 && r[k].summary@.len() == 0
                && r[k].timestamp == 0
        }),
        k == 0 ==> !r[k].same_as_previous,
        k > 0 ==> r[k - 1].line_number < r[k].line_number,
        k > 0 ==> (r[k].same_as_previous <==> r[k - 1].oid@ == r[k].oid@),
{
    let lines = lines_of(lossy_text(content));
    let count = at_most(lines, limit as nat).len();
    assert(blame_view(r).len() == r.len());
    lemma_blamed(lines, sources, count, k);
    assert(blame_view(r)[k] == r[k]@);
    if k > 0 {
        assert(blame_view(r)[k - 1] == r[k - 1]@);
    }
    let n = r[k].line_number - 1;
    let oid = sources[n]->0.oid@;
    assert(oid.take(oid.len() as int) =~= oid);
}

proof fn lemma_blamed(
    lines: Seq<Seq<char>>,
    sources: Seq<Option<RawBlame>>,
    count: nat,
    k: int,
)
    requires
        0 <= k < blamed(lines, sources, count).len(),
    ensures
        ({
            let told = blamed(lines, sources, count);
            let n = told[k].line_number - 1;
            &&& 0 <= n < count
            &&& source_of(sources, n) is Some
            &&& blamed(lines, sources, (n + 1) as nat).len() == k + 1
            &&& told[k] == blamed(lines, sources, (n + 1) as nat)[k]
            &&& k > 0 ==> told[k - 1].line_number < told[k].line_number
            &&& k > 0 ==> told[k - 1] == blamed(lines, sources, n as nat)[k - 1]
            &&& blamed(lines, sources, n as nat).len() == k
        }),
    decreases count,
{
    let less = (count - 1) as nat;
    let before = blamed(lines, sources, less);
    if k < before.len() {
        lemma_blamed(lines, sources, less, k);
    } else {
        if k > 0 {
            lemma_blamed(lines, sources, less, k - 1);
        }
    }
}

/// No line whose source is known is passed over.
pub proof fn blame_passes_over_no_line(
    r: Seq<BlameLine>,
    content: Seq<u8>,
    sources: Seq<Option<RawBlame>>,
    limit: usize,
    n: int,
)
    requires
        is_blame(r, content, sources, limit),
        0 <= n < lines_of(lossy_text(content)).len(),
        n < limit,
        n < sources.len(),
        sources[n] is Some,
    ensures
        exists|k: int| 0 <= k < r.len() && (#[trigger] r[k]).line_number == n + 1,
{
    let lines = lines_of(lossy_text(content));
    let count = at_most(lines, limit as nat).len();
    let k = lemma_line_is_told(lines, sources, count, n);
    assert(blame_view(r)[k] == r[k]@);
    assert(r[k].line_number == n + 1);
}

proof fn lemma_line_is_told(
    lines: Seq<Seq<char>>,
    sources: Seq<Option<RawBlame>>,
    count: nat,
    n: int,
) -> (k: int)
    requires
        0 <= n < count,
        source_of(sources, n) is Some,
    ensures
        0 <= k < blamed(lines, sources, count).len(),
        blamed(lines, sources, count)[k].line_number == n + 1,
    decreases count,
{
    if n == count - 1 {
        blamed(lines, sources, count).len() - 1
    } else {
        lemma_line_is_told(lines, sources, (count - 1) as nat, n)
    }
}

/// A search goes on exactly as long as there is something to look for and somewhere to look,
/// fewer hits were found than are wanted, and fewer commits were looked at than may be.
pub proof fn searches_stop_in_time(search: Search)
    ensures
        search.goes_on() <==> search.needle@.len() > 0 && (search.scope.message
            || search.scope.author || search.scope.path || search.scope.content)
            && search.hits@.len() < search.limit && search.scanned < search.scan_limit,
        search.searches() <==> search.needle@.len() > 0 && (search.scope.message
            || search.scope.author || search.scope.path || search.scope.content),
{
}

} // verus!
