//! The state of a branch and of its files, in lines of text.
use vstd::prelude::*;

use crate::cli::{push_line, say, say_on};
use crate::diff::{
    annotated, only_white_space, partner, partners_are_mutual, sections_view, DiffLine, FileDiff,
    Hunk, LineKind,
};
use crate::divergence::{recommendation_headline, CommitInfo, Divergence};
use crate::intraline::{spans_cover_the_change, spans_of, Span};
use crate::patch::{file_of, marked_file, plain_lines, RawDelta};
use crate::search::at_most;
use crate::text;
use crate::text::{byte_len, decimal_digits, encoding_of_concatenation};

verus! {

/// A line, if a condition holds.
pub open spec fn line_if(holds: bool, line: Seq<char>) -> Seq<Seq<char>> {
    if holds {
        seq![line]
    } else {
        Seq::empty()
    }
}

/// The first eight of the given paths, a line each.
pub open spec fn path_lines(paths: Seq<Seq<char>>) -> Seq<Seq<char>> {
    at_most(paths, 8).map_values(|path: Seq<char>| "    "@ + path)
}

fn push_paths(lines: &mut Vec<String>, paths: &Vec<String>)
    ensures
        text::views_of(final(lines)@) == text::views_of(old(lines)@) + path_lines(
            text::views_of(paths@),
        ),
{
    let ghost start = text::views_of(lines@);
    let ghost all = path_lines(text::views_of(paths@));
    assert(text::views_of(paths@).len() == paths@.len());
    let mut index: usize = 0;
    assert(text::views_of(lines@) =~= start + all.take(0));
    while index < paths.len() && index < 8
        invariant
            index <= paths@.len(),
            index <= 8,
            all == path_lines(text::views_of(paths@)),
            text::views_of(lines@) == start + all.take(index as int),
        decreases paths@.len() - index,
    {
        let line = text::plus("    ".to_owned(), paths[index].as_str());
        assert(text::views_of(paths@).len() == paths@.len());
        assert(line@ == all[index as int]);
        push_line(lines, line);
        assert((start + all.take(index as int)).push(all[index as int]) =~= start + all.take(
            index + 1,
        ));
        index += 1;
    }
    assert(all.take(index as int) =~= all);
}

pub open spec fn commit_line(label: Seq<char>, commit: CommitInfo) -> Seq<char> {
    "  "@ + label + "  "@ + commit.short_oid@ + "  "@ + commit.summary@
}

/// The first five of the given commits, a line each, and how many more there are.
pub open spec fn commit_lines(label: Seq<char>, commits: Seq<CommitInfo>) -> Seq<Seq<char>> {
    at_most(commits, 5).map_values(|commit: CommitInfo| commit_line(label, commit)) + line_if(
        commits.len() > 5,
        "  "@ + label + "  … 另有 "@ + decimal_digits((commits.len() - 5) as nat) + " 個"@,
    )
}

fn push_commits(lines: &mut Vec<String>, label: &str, commits: &Vec<CommitInfo>)
    ensures
        text::views_of(final(lines)@) == text::views_of(old(lines)@) + commit_lines(
            label@,
            commits@,
        ),
{
    let ghost start = text::views_of(lines@);
    let ghost listed = at_most(commits@, 5).map_values(
        |commit: CommitInfo| commit_line(label@, commit),
    );
    let mut index: usize = 0;
    assert(text::views_of(lines@) =~= start + listed.take(0));
    while index < commits.len() && index < 5
        invariant
            index <= commits@.len(),
            index <= 5,
            listed == at_most(commits@, 5).map_values(
                |commit: CommitInfo| commit_line(label@, commit),
            ),
            text::views_of(lines@) == start + listed.take(index as int),
        decreases commits@.len() - index,
    {
        let commit = &commits[index];
        let line = text::plus(text::plus("  ".to_owned(), label), "  ");
        let line = text::plus(text::plus(line, commit.short_oid.as_str()), "  ");
        let line = text::plus(line, commit.summary.as_str());
        assert(line@ == listed[index as int]);
        push_line(lines, line);
        assert((start + listed.take(index as int)).push(listed[index as int]) =~= start
            + listed.take(index + 1));
        index += 1;
    }
    assert(listed.take(index as int) =~= listed);
    if commits.len() > 5 {
        let line = text::plus(text::plus("  ".to_owned(), label), "  … 另有 ");
        push_line(lines, say_on(line, commits.len() - 5, " 個"));
    }
    assert(text::views_of(lines@) =~= start + commit_lines(label@, commits@));
}

/// The lines on the files that both sides change.
pub open spec fn overlap_lines(divergence: Divergence) -> Seq<Seq<char>> {
    let files = divergence.overlapping_files@;
    if files.len() == 0 {
        line_if(
            divergence.ahead@.len() > 0 && divergence.behind@.len() > 0,
            "  兩側沒有改到同一個檔案，可以確定不會衝突"@,
        )
    } else {
        seq![
            "  兩側都改到的檔案 "@ + decimal_digits(files.len()) + " 個（可能衝突，非必然）："@,
        ] + path_lines(text::views_of(files)) + line_if(
            files.len() > 8,
            "    … 另有 "@ + decimal_digits((files.len() - 8) as nat) + " 個"@,
        )
    }
}

/// The lines on the uncommitted files that incoming changes touch.
pub open spec fn warning_lines(divergence: Divergence) -> Seq<Seq<char>> {
    let files = divergence.uncommitted_overlap@;
    if files.len() == 0 {
        Seq::empty()
    } else {
        seq![
            "  警告："@ + decimal_digits(files.len())
                + " 個尚未提交的檔案會被進來的變更影響："@,
        ] + path_lines(text::views_of(files))
    }
}

/// The lines on how a branch and the remote branch it tracks differ.
pub open spec fn sync_lines(divergence: Divergence) -> Seq<Seq<char>> {
    let ahead = divergence.ahead@.len();
    let behind = divergence.behind@.len();
    match divergence.upstream {
        None => seq!["  同步狀態：沒有追蹤的遠端分支"@],
        Some(upstream) => seq![
            "\n同步狀態（對 "@ + upstream@ + "）："@ + recommendation_headline(
                divergence.recommendation,
            ),
            "  本機獨有 "@ + decimal_digits(ahead) + " 個 commit · 遠端獨有 "@ + decimal_digits(
                behind,
            ) + " 個 commit"@,
        ] + line_if(
            behind > 0,
            "  即將進來的變更觸及 "@ + decimal_digits(divergence.incoming_files@.len())
                + " 個檔案"@,
        ) + overlap_lines(divergence) + warning_lines(divergence) + line_if(
            ahead > 0 && behind > 0,
            "  rebase 之後主線 "@ + decimal_digits(behind + ahead) + " 個 commit；merge 之後 "@
                + decimal_digits(behind + ahead + 1) + " 個（多一個合併節點）"@,
        ) + commit_lines("即將進來"@, divergence.behind@) + commit_lines(
            "尚未推送"@,
            divergence.ahead@,
        ),
    }
}

fn push_overlap(lines: &mut Vec<String>, divergence: &Divergence)
    ensures
        text::views_of(final(lines)@) == text::views_of(old(lines)@) + overlap_lines(*divergence),
{
    let ghost start = text::views_of(lines@);
    let count = divergence.overlapping_files.len();
    if count == 0 {
        if divergence.is_diverged() {
            push_line(lines, "  兩側沒有改到同一個檔案，可以確定不會衝突".to_owned());
        }
    } else {
        push_line(lines, say("  兩側都改到的檔案 ", count, " 個（可能衝突，非必然）："));
        push_paths(lines, &divergence.overlapping_files);
        if count > 8 {
            push_line(lines, say("    … 另有 ", count - 8, " 個"));
        }
    }
    assert(text::views_of(lines@) =~= start + overlap_lines(*divergence));
}

fn push_warning(lines: &mut Vec<String>, divergence: &Divergence)
    ensures
        text::views_of(final(lines)@) == text::views_of(old(lines)@) + warning_lines(*divergence),
{
    let ghost start = text::views_of(lines@);
    let count = divergence.uncommitted_overlap.len();
    if count > 0 {
        let line = say("  警告：", count, " 個尚未提交的檔案會被進來的變更影響：");
        push_line(lines, line);
        push_paths(lines, &divergence.uncommitted_overlap);
    }
    assert(text::views_of(lines@) =~= start + warning_lines(*divergence));
}

/// Tells how a branch and the remote branch it tracks differ.
pub fn print_sync(divergence: &Divergence) -> (r: Vec<String>)
    requires
        divergence.behind@.len() + divergence.ahead@.len() + 1 <= usize::MAX,
    ensures
        text::views_of(r@) == sync_lines(*divergence),
{
    let mut lines: Vec<String> = Vec::new();
    let upstream = match &divergence.upstream {
        Some(upstream) => upstream,
        None => {
            push_line(&mut lines, "  同步狀態：沒有追蹤的遠端分支".to_owned());
            assert(text::views_of(lines@) =~= sync_lines(*divergence));
            return lines;
        },
    };
    let line = text::plus("\n同步狀態（對 ".to_owned(), upstream.as_str());
    let line = text::plus(text::plus(line, "）："), divergence.recommendation.headline());
    push_line(&mut lines, line);
    let line = say("  本機獨有 ", divergence.ahead.len(), " 個 commit · 遠端獨有 ");
    push_line(&mut lines, say_on(line, divergence.behind.len(), " 個 commit"));
    if divergence.behind.len() > 0 {
        let files = divergence.incoming_files.len();
        push_line(&mut lines, say("  即將進來的變更觸及 ", files, " 個檔案"));
    }
    push_overlap(&mut lines, divergence);
    push_warning(&mut lines, divergence);
    if divergence.is_diverged() {
        let line = say(
            "  rebase 之後主線 ",
            divergence.commits_after_rebase(),
            " 個 commit；merge 之後 ",
        );
        let line = say_on(line, divergence.commits_after_merge(), " 個（多一個合併節點）");
        push_line(&mut lines, line);
    }
    push_commits(&mut lines, "即將進來", &divergence.behind);
    push_commits(&mut lines, "尚未推送", &divergence.ahead);
    assert(text::views_of(lines@) =~= sync_lines(*divergence));
    lines
}

/// The position of the first character that starts at `offset` bytes or later.
pub open spec fn position_at(content: Seq<char>, offset: nat, from: int) -> int
    decreases content.len() - from,
{
    if 0 <= from < content.len() && byte_len(content.take(from)) < offset {
        position_at(content, offset, from + 1)
    } else {
        from
    }
}

/// The characters from the byte `from` up to the byte `to`.
pub open spec fn slice(content: Seq<char>, from: nat, to: nat) -> Seq<char> {
    content.subrange(position_at(content, from, 0), position_at(content, to, 0))
}

/// Whether a character starts at this byte, or the text ends there.
pub open spec fn is_boundary(content: Seq<char>, offset: nat) -> bool {
    exists|k: int| 0 <= k <= content.len() && #[trigger] byte_len(content.take(k)) == offset
}

/// An offset that is not beyond the end.
pub open spec fn within(content: Seq<char>, offset: usize) -> nat {
    if offset < byte_len(content) {
        offset as nat
    } else {
        byte_len(content)
    }
}

/// Whether a range is one of whole characters.
pub open spec fn is_range(content: Seq<char>, span: Span) -> bool {
    &&& span.start <= span.end
    &&& is_boundary(content, within(content, span.start))
    &&& is_boundary(content, within(content, span.end))
}

/// A text from the byte `cursor` on, with the ranges from number `index` on in brackets.
pub open spec fn bracketed(
    content: Seq<char>,
    spans: Seq<Span>,
    index: int,
    cursor: nat,
) -> Seq<char>
    decreases spans.len() - index,
{
    if 0 <= index < spans.len() {
        let start = within(content, spans[index].start);
        let end = within(content, spans[index].end);
        let skipped = if start > cursor {
            slice(content, cursor, start)
        } else {
            Seq::empty()
        };
        skipped + "["@ + slice(content, start, end) + "]"@ + bracketed(
            content,
            spans,
            index + 1,
            end,
        )
    } else if cursor < byte_len(content) {
        slice(content, cursor, byte_len(content))
    } else {
        Seq::empty()
    }
}

/// A line with its changed ranges in brackets.
pub open spec fn marked_text(content: Seq<char>, spans: Seq<Span>) -> Seq<char> {
    if spans.len() == 0 {
        content
    } else {
        bracketed(content, spans, 0, 0)
    }
}

proof fn lemma_take_grows(content: Seq<char>, i: int, j: int)
    requires
        0 <= i <= j <= content.len(),
    ensures
        byte_len(content.take(j)) >= byte_len(content.take(i)) + (j - i),
{
    let more = content.subrange(i, j);
    assert(content.take(i) + more =~= content.take(j));
    encoding_of_concatenation(content.take(i), more);
    lemma_bytes_of_chars(more);
}

proof fn lemma_bytes_of_chars(content: Seq<char>)
    ensures
        byte_len(content) >= content.len(),
    decreases content.len(),
{
    if content.len() > 0 {
        let first = seq![content[0]];
        assert(first + content.drop_first() =~= content);
        encoding_of_concatenation(first, content.drop_first());
        lemma_bytes_of_chars(content.drop_first());
        text::empty_text_has_no_bytes(first);
    }
}

proof fn lemma_position(content: Seq<char>, offset: nat, from: int)
    requires
        0 <= from <= content.len(),
    ensures
        from <= position_at(content, offset, from) <= content.len(),
        forall|k: int|
            from <= k < position_at(content, offset, from) ==> byte_len(
                #[trigger] content.take(k),
            ) < offset,
        position_at(content, offset, from) < content.len() ==> byte_len(
            content.take(position_at(content, offset, from)),
        ) >= offset,
    decreases content.len() - from,
{
    if from < content.len() && byte_len(content.take(from)) < offset {
        lemma_position(content, offset, from + 1);
    }
}

/// The position of a boundary is that of its character.
proof fn lemma_position_of_boundary(content: Seq<char>, k: int)
    requires
        0 <= k <= content.len(),
    ensures
        position_at(content, byte_len(content.take(k)), 0) == k,
{
    let offset = byte_len(content.take(k));
    lemma_position(content, offset, 0);
    let found = position_at(content, offset, 0);
    if found < k {
        lemma_take_grows(content, found, k);
    } else if found > k {
        assert(byte_len(content.take(k)) < offset);
    }
}

proof fn lemma_positions_are_ordered(content: Seq<char>, from: nat, to: nat)
    requires
        from <= to,
    ensures
        0 <= position_at(content, from, 0) <= position_at(content, to, 0) <= content.len(),
{
    lemma_position(content, from, 0);
    lemma_position(content, to, 0);
    let first = position_at(content, from, 0);
    let last = position_at(content, to, 0);
    if last < first {
        assert(byte_len(content.take(last)) < from);
    }
}

fn find_position(chars: &Vec<char>, offset: usize) -> (r: usize)
    requires
        byte_len(chars@) <= usize::MAX,
    ensures
        r == position_at(chars@, offset as nat, 0),
        r <= chars@.len(),
{
    let mut index: usize = 0;
    let mut bytes: usize = 0;
    proof {
        text::empty_text_has_no_bytes(chars@.take(0));
    }
    while index < chars.len() && bytes < offset
        invariant
            index <= chars@.len(),
            byte_len(chars@) <= usize::MAX,
            bytes == byte_len(chars@.take(index as int)),
            position_at(chars@, offset as nat, 0) == position_at(
                chars@,
                offset as nat,
                index as int,
            ),
        decreases chars@.len() - index,
    {
        proof {
            let one = seq![chars@[index as int]];
            assert(chars@.take(index as int) + one =~= chars@.take(index + 1));
            encoding_of_concatenation(chars@.take(index as int), one);
            assert(chars@.take(index + 1) + chars@.skip(index + 1) =~= chars@);
            encoding_of_concatenation(chars@.take(index + 1), chars@.skip(index + 1));
        }
        bytes += text::width(chars[index]);
        index += 1;
    }
    index
}

fn cut(chars: &Vec<char>, from: usize, to: usize) -> (r: String)
    requires
        byte_len(chars@) <= usize::MAX,
        from <= to,
    ensures
        r@ == slice(chars@, from as nat, to as nat),
{
    proof {
        lemma_positions_are_ordered(chars@, from as nat, to as nat);
    }
    let start = find_position(chars, from);
    let end = find_position(chars, to);
    text::text_of(chars, start, end)
}

/// Puts the changed ranges of a line in brackets.
pub fn mark_spans(content: &str, spans: &Vec<Span>) -> (r: String)
    requires
        forall|i: int| 0 <= i < spans@.len() ==> is_range(content@, #[trigger] spans@[i]),
    ensures
        r@ == marked_text(content@, spans@),
{
    if spans.len() == 0 {
        return content.to_owned();
    }
    let chars = text::chars_of(content);
    let length = content.as_bytes().len();
    let mut out = String::new();
    let mut cursor: usize = 0;
    let mut index: usize = 0;
    let ghost whole = bracketed(content@, spans@, 0, 0);
    assert(out@ + whole =~= whole);
    while index < spans.len()
        invariant
            index <= spans@.len(),
            chars@ == content@,
            length == byte_len(content@),
            cursor <= length,
            forall|i: int| 0 <= i < spans@.len() ==> is_range(content@, #[trigger] spans@[i]),
            whole == out@ + bracketed(content@, spans@, index as int, cursor as nat),
        decreases spans@.len() - index,
    {
        let span = spans[index];
        assert(is_range(content@, spans@[index as int]));
        let start = if span.start < length {
            span.start
        } else {
            length
        };
        let end = if span.end < length {
            span.end
        } else {
            length
        };
        let ghost held = out@;
        let ghost rest = bracketed(content@, spans@, index + 1, end as nat);
        let skipped = if start > cursor {
            cut(&chars, cursor, start)
        } else {
            String::new()
        };
        let range = cut(&chars, start, end);
        out = text::plus(text::plus(out, skipped.as_str()), "[");
        out = text::plus(text::plus(out, range.as_str()), "]");
        assert(skipped@ =~= if start > cursor {
            slice(content@, cursor as nat, start as nat)
        } else {
            Seq::empty()
        });
        assert(held + (skipped@ + "["@ + range@ + "]"@ + rest) =~= out@ + rest);
        cursor = end;
        index += 1;
    }
    if cursor < length {
        let rest = cut(&chars, cursor, length);
        out = text::plus(out, rest.as_str());
    }
    assert(out@ =~= whole);
    out
}

/// The brackets stand round what changed: the line is the text in common at the start, the
/// changed part in brackets and the text in common at the end.
pub proof fn brackets_enclose_the_change(old: Seq<char>, new: Seq<char>)
    requires
        byte_len(old) <= usize::MAX,
        byte_len(new) <= usize::MAX,
    ensures
        exists|start: Seq<char>, end: Seq<char>, a: Seq<char>, b: Seq<char>|
            old == #[trigger] (start + a + end) && new == #[trigger] (start + b + end)
                && marked_text(old, spans_of(old, new)) == (if a.len() == 0 {
                old
            } else {
                start + "["@ + a + "]"@ + end
            }),
{
    spans_cover_the_change(old, new);
    let (start, end, a, b) = choose|start: Seq<char>, end: Seq<char>, a: Seq<char>, b: Seq<char>|
        old == #[trigger] (start + a + end) && new == #[trigger] (start + b + end) && spans_of(
            old,
            new,
        ) == (if a.len() == 0 {
            Seq::empty()
        } else {
            seq![
                Span { start: byte_len(start) as usize, end: byte_len(start + a) as usize },
            ]
        });
    if a.len() > 0 {
        let spans = spans_of(old, new);
        let i = start.len() as int;
        let j = (start + a).len() as int;
        assert(old.take(i) =~= start);
        assert(old.take(j) =~= start + a);
        assert(old.take(old.len() as int) =~= old);
        assert(old.take(0) =~= Seq::<char>::empty());
        lemma_take_grows(old, 0, i);
        lemma_take_grows(old, i, j);
        lemma_take_grows(old, j, old.len() as int);
        lemma_position_of_boundary(old, 0);
        lemma_position_of_boundary(old, i);
        lemma_position_of_boundary(old, j);
        lemma_position_of_boundary(old, old.len() as int);
        text::empty_text_has_no_bytes(old.take(0));
        assert(old.subrange(0, i) =~= start);
        assert(old.subrange(i, j) =~= a);
        assert(old.subrange(j, old.len() as int) =~= end);
        reveal_with_fuel(bracketed, 3);
        text::empty_text_has_no_bytes(start);
        text::empty_text_has_no_bytes(end);
        encoding_of_concatenation(start + a, end);
        assert(marked_text(old, spans) =~= start + "["@ + a + "]"@ + end);
    }
    assert(old == start + a + end && new == start + b + end);
}

/// The changed ranges of a line are ranges of whole characters.
pub proof fn changes_are_ranges(old: Seq<char>, new: Seq<char>, i: int)
    requires
        byte_len(old) <= usize::MAX,
        byte_len(new) <= usize::MAX,
        0 <= i < spans_of(old, new).len(),
    ensures
        is_range(old, spans_of(old, new)[i]),
{
    spans_cover_the_change(old, new);
    let (start, end, a, b) = choose|start: Seq<char>, end: Seq<char>, a: Seq<char>, b: Seq<char>|
        old == #[trigger] (start + a + end) && new == #[trigger] (start + b + end) && spans_of(
            old,
            new,
        ) == (if a.len() == 0 {
            Seq::empty()
        } else {
            seq![
                Span { start: byte_len(start) as usize, end: byte_len(start + a) as usize },
            ]
        });
    let first = start.len() as int;
    let last = (start + a).len() as int;
    assert(old.take(first) =~= start);
    assert(old.take(last) =~= start + a);
    assert(old.take(old.len() as int) =~= old);
    lemma_take_grows(old, first, last);
    lemma_take_grows(old, last, old.len() as int);
    assert(byte_len(old.take(first)) == within(old, spans_of(old, new)[i].start));
    assert(byte_len(old.take(last)) == within(old, spans_of(old, new)[i].end));
}

pub open spec fn sign_of(kind: LineKind) -> char {
    match kind {
        LineKind::Added => '+',
        LineKind::Removed => '-',
        LineKind::Context => ' ',
    }
}

/// A line of a difference.
pub open spec fn diff_line(line: DiffLine) -> Seq<char> {
    "   "@.push(sign_of(line.kind)) + marked_text(line.content@, line.spans@)
}

/// The remarks behind the header of a section.
pub open spec fn remarks(hunk: Hunk) -> Seq<char> {
    let white = only_white_space(hunk.lines@);
    if hunk.collides_with_incoming && white {
        "← 即將進來的變更也會改到這一段"@ + " "@ + "（只有空白差異）"@
    } else if hunk.collides_with_incoming {
        "← 即將進來的變更也會改到這一段"@
    } else if white {
        "（只有空白差異）"@
    } else {
        ""@
    }
}

/// The lines of a section.
pub open spec fn hunk_lines(hunk: Hunk) -> Seq<Seq<char>> {
    seq!["   "@ + hunk.header@ + " "@ + remarks(hunk)] + hunk.lines@.map_values(
        |line: DiffLine| diff_line(line),
    )
}

/// The lines of the first `count` sections.
pub open spec fn sections_lines(hunks: Seq<Hunk>, count: nat) -> Seq<Seq<char>>
    decreases count,
{
    if count == 0 {
        Seq::empty()
    } else {
        sections_lines(hunks, (count - 1) as nat) + hunk_lines(hunks[count - 1])
    }
}

/// The lines of a file.
pub open spec fn file_lines(file: FileDiff) -> Seq<Seq<char>> {
    seq![
        "\n── "@ + file.path@ + "  +"@ + decimal_digits(file.added as nat) + " −"@
            + decimal_digits(file.removed as nat),
    ] + if file.is_binary {
        seq!["   （二進位檔案）"@]
    } else {
        sections_lines(file.hunks@, file.hunks@.len())
    }
}

/// The lines of the first `count` files.
pub open spec fn files_lines(files: Seq<FileDiff>, count: nat) -> Seq<Seq<char>>
    decreases count,
{
    if count == 0 {
        Seq::empty()
    } else {
        files_lines(files, (count - 1) as nat) + file_lines(files[count - 1])
    }
}

/// Whether the changed ranges of each line are ranges of whole characters.
pub open spec fn ranges_fit(file: FileDiff) -> bool {
    forall|h: int, l: int, s: int|
        0 <= h < file.hunks@.len() && 0 <= l < file.hunks@[h].lines@.len() && 0 <= s
            < file.hunks@[h].lines@[l].spans@.len() ==> is_range(
            file.hunks@[h].lines@[l].content@,
            #[trigger] file.hunks@[h].lines@[l].spans@[s],
        )
}

/// What is built from a comparison can be printed, marked with incoming changes or not.
pub proof fn built_differences_can_be_printed(
    file: FileDiff,
    delta: RawDelta,
    incoming: Option<Map<Seq<char>, Seq<(u32, u32)>>>,
)
    requires
        file@ == match incoming {
            Some(incoming) => marked_file(file_of(delta), incoming),
            None => file_of(delta),
        },
        forall|h: int, l: int|
            0 <= h < file.hunks@.len() && 0 <= l < file.hunks@[h].lines@.len() ==> byte_len(
                (#[trigger] file.hunks@[h].lines@[l]).content@,
            ) <= usize::MAX,
    ensures
        ranges_fit(file),
{
    assert forall|h: int, l: int, s: int|
        0 <= h < file.hunks@.len() && 0 <= l < file.hunks@[h].lines@.len() && 0 <= s
            < file.hunks@[h].lines@[l].spans@.len() implies is_range(
        file.hunks@[h].lines@[l].content@,
        #[trigger] file.hunks@[h].lines@[l].spans@[s],
    ) by {
        let hunk = file.hunks@[h];
        assert(sections_view(file.hunks@) == file@.sections);
        assert(file@.sections[h] == hunk@);
        let plain = plain_lines(delta.hunks->0@[h].lines@);
        assert(hunk@.lines.len() == plain.len());
        assert(hunk@.lines[l] == annotated(plain, l));
        assert(hunk@.lines[l] == hunk.lines@[l]@);
        assert(partner(plain, l) is Some);
        partners_are_mutual(plain, l);
        let other = partner(plain, l)->0;
        assert(hunk@.lines[other] == annotated(plain, other));
        assert(hunk@.lines[other] == hunk.lines@[other]@);
        assert(hunk.lines@[other].content@ == plain[other].content);
        changes_are_ranges(plain[l].content, plain[other].content, s);
    }
}

fn push_hunk(lines: &mut Vec<String>, hunk: &Hunk)
    requires
        forall|l: int, s: int|
            0 <= l < hunk.lines@.len() && 0 <= s < hunk.lines@[l].spans@.len() ==> is_range(
                hunk.lines@[l].content@,
                #[trigger] hunk.lines@[l].spans@[s],
            ),
    ensures
        text::views_of(final(lines)@) == text::views_of(old(lines)@) + hunk_lines(*hunk),
{
    let ghost start = text::views_of(lines@);
    let line = text::plus(text::plus("   ".to_owned(), hunk.header.as_str()), " ");
    let white = hunk.whitespace_only();
    let line = if hunk.collides_with_incoming && white {
        let line = text::plus(line, "← 即將進來的變更也會改到這一段");
        text::plus(text::plus(line, " "), "（只有空白差異）")
    } else if hunk.collides_with_incoming {
        text::plus(line, "← 即將進來的變更也會改到這一段")
    } else if white {
        text::plus(line, "（只有空白差異）")
    } else {
        text::plus(line, "")
    };
    assert(line@ =~= "   "@ + hunk.header@ + " "@ + remarks(*hunk));
    push_line(lines, line);
    let ghost header = seq![line@];
    let ghost all = hunk.lines@.map_values(|line: DiffLine| diff_line(line));
    let mut index: usize = 0;
    assert(text::views_of(lines@) =~= start + header + all.take(0));
    while index < hunk.lines.len()
        invariant
            index <= hunk.lines@.len(),
            all == hunk.lines@.map_values(|line: DiffLine| diff_line(line)),
            forall|l: int, s: int|
                0 <= l < hunk.lines@.len() && 0 <= s < hunk.lines@[l].spans@.len() ==> is_range(
                    hunk.lines@[l].content@,
                    #[trigger] hunk.lines@[l].spans@[s],
                ),
            text::views_of(lines@) == start + header + all.take(index as int),
        decreases hunk.lines@.len() - index,
    {
        let line = &hunk.lines[index];
        let mut shown = "   ".to_owned();
        shown.push(
            match line.kind {
                LineKind::Added => '+',
                LineKind::Removed => '-',
                LineKind::Context => ' ',
            },
        );
        assert(line.spans@ == hunk.lines@[index as int].spans@);
        let marked = mark_spans(line.content.as_str(), &line.spans);
        let shown = text::plus(shown, marked.as_str());
        assert(shown@ == all[index as int]);
        push_line(lines, shown);
        assert((start + header + all.take(index as int)).push(all[index as int]) =~= start + header
            + all.take(index + 1));
        index += 1;
    }
    assert(all.take(index as int) =~= all);
    assert(text::views_of(lines@) =~= start + hunk_lines(*hunk));
}

fn push_file(lines: &mut Vec<String>, file: &FileDiff)
    requires
        ranges_fit(*file),
    ensures
        text::views_of(final(lines)@) == text::views_of(old(lines)@) + file_lines(*file),
{
    let ghost start = text::views_of(lines@);
    let line = text::plus(text::plus("\n── ".to_owned(), file.path.as_str()), "  +");
    let line = text::plus(say_on(line, file.added, " −"), text::decimal(
        file.removed as u64,
    ).as_str());
    push_line(lines, line);
    let ghost header = seq![line@];
    if file.is_binary {
        push_line(lines, "   （二進位檔案）".to_owned());
        assert(text::views_of(lines@) =~= start + file_lines(*file));
        return;
    }
    let mut index: usize = 0;
    assert(text::views_of(lines@) =~= start + header + sections_lines(file.hunks@, 0));
    while index < file.hunks.len()
        invariant
            index <= file.hunks@.len(),
            ranges_fit(*file),
            text::views_of(lines@) == start + header + sections_lines(file.hunks@, index as nat),
        decreases file.hunks@.len() - index,
    {
        let hunk = &file.hunks[index];
        assert forall|l: int, s: int|
            0 <= l < hunk.lines@.len() && 0 <= s < hunk.lines@[l].spans@.len() implies is_range(
            hunk.lines@[l].content@,
            #[trigger] hunk.lines@[l].spans@[s],
        ) by {
            assert(hunk.lines@[l].spans@[s] == file.hunks@[index as int].lines@[l].spans@[s]);
        }
        push_hunk(lines, hunk);
        assert(start + header + sections_lines(file.hunks@, index as nat) + hunk_lines(*hunk)
            =~= start + header + sections_lines(file.hunks@, (index + 1) as nat));
        index += 1;
    }
    assert(text::views_of(lines@) =~= start + file_lines(*file));
}

/// The lines on the uncommitted changes.
pub open spec fn changes_lines(files: Seq<FileDiff>) -> Seq<Seq<char>> {
    if files.len() == 0 {
        seq!["沒有未提交的變更"@]
    } else {
        files_lines(files, files.len())
    }
}

/// Tells of the uncommitted changes: the changed part of a line in brackets, and a warning
/// where incoming changes touch the same lines.
pub fn print_diff(files: &Vec<FileDiff>) -> (r: Vec<String>)
    requires
        forall|i: int| 0 <= i < files@.len() ==> ranges_fit(#[trigger] files@[i]),
    ensures
        text::views_of(r@) == changes_lines(files@),
{
    let mut lines: Vec<String> = Vec::new();
    if files.len() == 0 {
        push_line(&mut lines, "沒有未提交的變更".to_owned());
        assert(text::views_of(lines@) =~= seq!["沒有未提交的變更"@]);
        return lines;
    }
    let mut index: usize = 0;
    assert(text::views_of(lines@) =~= files_lines(files@, 0));
    while index < files.len()
        invariant
            index <= files@.len(),
            forall|i: int| 0 <= i < files@.len() ==> ranges_fit(#[trigger] files@[i]),
            text::views_of(lines@) == files_lines(files@, index as nat),
        decreases files@.len() - index,
    {
        assert(ranges_fit(files@[index as int]));
        push_file(&mut lines, &files[index]);
        index += 1;
    }
    lines
}

/// A range of a line is shown in brackets, and the rest of the line round it as it is.
pub proof fn ranges_are_put_in_brackets(content: Seq<char>, i: int, j: int)
    requires
        0 <= i <= j <= content.len(),
        byte_len(content) <= usize::MAX,
    ensures
        marked_text(
            content,
            seq![
                Span {
                    start: byte_len(content.take(i)) as usize,
                    end: byte_len(content.take(j)) as usize,
                },
            ],
        ) == content.take(i) + "["@ + content.subrange(i, j) + "]"@ + content.skip(j),
{
    let spans = seq![
        Span { start: byte_len(content.take(i)) as usize, end: byte_len(content.take(j)) as usize },
    ];
    let length = content.len() as int;
    assert(content.take(length) =~= content);
    assert(content.take(0) =~= Seq::<char>::empty());
    lemma_take_grows(content, 0, i);
    lemma_take_grows(content, i, j);
    lemma_take_grows(content, j, length);
    lemma_position_of_boundary(content, 0);
    lemma_position_of_boundary(content, i);
    lemma_position_of_boundary(content, j);
    lemma_position_of_boundary(content, length);
    text::empty_text_has_no_bytes(content.take(0));
    assert(content.subrange(0, i) =~= content.take(i));
    assert(content.subrange(j, length) =~= content.skip(j));
    text::empty_text_has_no_bytes(content.take(i));
    text::empty_text_has_no_bytes(content.skip(j));
    assert(content.take(j) + content.skip(j) =~= content);
    encoding_of_concatenation(content.take(j), content.skip(j));
    reveal_with_fuel(bracketed, 3);
    assert(marked_text(content, spans) =~= content.take(i) + "["@ + content.subrange(i, j) + "]"@
        + content.skip(j));
}

} // verus!
