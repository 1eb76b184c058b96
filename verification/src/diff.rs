//! Differences as structured sections and lines.
//!
//! The structure serves three uses that a patch text does not: drawing the two sides
//! next to each other, picking single lines to stage, and marking the changed words
//! within a line. This module computes and writes nothing; [`crate::selection`] applies
//! a selection of lines.
use vstd::prelude::*;

use crate::intraline::{spans_of, without_white_space};
use crate::text;
use crate::text::is_white_space;

pub use crate::compare::{commit_diff, file_history, workspace_diff};
pub use crate::intraline::{changed_spans, is_whitespace_only_change, tokenize, Span};
pub use crate::patch::{
    build_file_diffs, incoming_line_ranges, mark_incoming_collisions, ranges_overlap,
};

verus! {

/// Which two versions are compared.
#[derive(Debug, Clone, Copy, PartialEq, Eq, Structural)]
pub enum DiffSource {
    /// The working tree against the index: what is not staged.
    Unstaged,
    /// The index against HEAD: what is staged.
    Staged,
    /// A commit against its first parent.
    Commit,
}

impl DiffSource {
    pub fn as_str(self) -> (r: &'static str)
        ensures
            r@ == match self {
                DiffSource::Unstaged => "unstaged"@,
                DiffSource::Staged => "staged"@,
                DiffSource::Commit => "commit"@,
            },
    {
        match self {
            DiffSource::Unstaged => "unstaged",
            DiffSource::Staged => "staged",
            DiffSource::Commit => "commit",
        }
    }
}

/// The role of a line.
#[derive(Debug, Clone, Copy, PartialEq, Eq, Structural)]
pub enum LineKind {
    Context,
    Added,
    Removed,
}

pub open spec fn line_kind_name(kind: LineKind) -> Seq<char> {
    match kind {
        LineKind::Context => "context"@,
        LineKind::Added => "added"@,
        LineKind::Removed => "removed"@,
    }
}

impl LineKind {
    pub fn as_str(self) -> (r: &'static str)
        ensures
            r@ == line_kind_name(self),
    {
        match self {
            LineKind::Context => "context",
            LineKind::Added => "added",
            LineKind::Removed => "removed",
        }
    }
}

/// One line of a difference.
#[derive(Debug)]
pub struct DiffLine {
    pub kind: LineKind,
    pub content: String,
    /// The line number in the old version, `None` for an added line.
    pub old_lineno: Option<u32>,
    /// The line number in the new version, `None` for a removed line.
    pub new_lineno: Option<u32>,
    /// The ranges within the line that changed. Only a line with a counterpart has any.
    pub spans: Vec<Span>,
    /// Whether the line differs from its counterpart in nothing but white space.
    pub whitespace_only: bool,
    /// The position in the section of the other version of the line.
    pub pair: Option<usize>,
}

/// What a [`DiffLine`] holds.
pub struct Line {
    pub kind: LineKind,
    pub content: Seq<char>,
    pub old_lineno: Option<u32>,
    pub new_lineno: Option<u32>,
    pub spans: Seq<Span>,
    pub whitespace_only: bool,
    pub pair: Option<usize>,
}

impl View for DiffLine {
    type V = Line;

    open spec fn view(&self) -> Line {
        Line {
            kind: self.kind,
            content: self.content@,
            old_lineno: self.old_lineno,
            new_lineno: self.new_lineno,
            spans: self.spans@,
            whitespace_only: self.whitespace_only,
            pair: self.pair,
        }
    }
}

pub open spec fn lines_view(lines: Seq<DiffLine>) -> Seq<Line> {
    Seq::new(lines.len(), |i: int| lines[i]@)
}

/// A run of changed lines with the lines around them.
#[derive(Debug)]
pub struct Hunk {
    pub header: String,
    pub old_start: u32,
    pub old_lines: u32,
    pub new_start: u32,
    pub new_lines: u32,
    pub lines: Vec<DiffLine>,
    /// Whether incoming changes of the remote touch the same lines: a warning that can
    /// be given before anything is committed or pulled.
    pub collides_with_incoming: bool,
}

/// What a [`Hunk`] holds.
pub struct Section {
    pub header: Seq<char>,
    pub old_start: u32,
    pub old_lines: u32,
    pub new_start: u32,
    pub new_lines: u32,
    pub lines: Seq<Line>,
    pub collides_with_incoming: bool,
}

impl View for Hunk {
    type V = Section;

    open spec fn view(&self) -> Section {
        Section {
            header: self.header@,
            old_start: self.old_start,
            old_lines: self.old_lines,
            new_start: self.new_start,
            new_lines: self.new_lines,
            lines: lines_view(self.lines@),
            collides_with_incoming: self.collides_with_incoming,
        }
    }
}

/// Whether some line is changed, and none of them in anything but white space.
pub open spec fn only_white_space(lines: Seq<DiffLine>) -> bool {
    &&& exists|i: int| 0 <= i < lines.len() && (#[trigger] lines[i]).kind != LineKind::Context
    &&& forall|i: int|
        0 <= i < lines.len() && (#[trigger] lines[i]).kind != LineKind::Context
            ==> lines[i].whitespace_only
}

impl Hunk {
    /// Whether the section changes something, but nothing other than white space. Such a
    /// section can be folded away.
    pub fn whitespace_only(&self) -> (r: bool)
        ensures
            r == only_white_space(self.lines@),
    {
        let mut changed = false;
        let mut index: usize = 0;
        while index < self.lines.len()
            invariant
                index <= self.lines@.len(),
                changed <==> exists|i: int|
                    0 <= i < index && (#[trigger] self.lines@[i]).kind != LineKind::Context,
                forall|i: int|
                    0 <= i < index && (#[trigger] self.lines@[i]).kind != LineKind::Context
                        ==> self.lines@[i].whitespace_only,
            decreases self.lines@.len() - index,
        {
            let line = &self.lines[index];
            if line.kind != LineKind::Context {
                assert(self.lines@[index as int].kind != LineKind::Context);
                if !line.whitespace_only {
                    return false;
                }
                changed = true;
            }
            index += 1;
        }
        changed
    }
}

/// The difference of one file.
#[derive(Debug)]
pub struct FileDiff {
    pub path: String,
    /// The old path of a renamed file.
    pub old_path: Option<String>,
    pub hunks: Vec<Hunk>,
    pub is_binary: bool,
    pub added: usize,
    pub removed: usize,
}

/// What a [`FileDiff`] holds.
pub struct ChangedFile {
    pub path: Seq<char>,
    pub old_path: Option<Seq<char>>,
    pub sections: Seq<Section>,
    pub is_binary: bool,
    pub added: nat,
    pub removed: nat,
}

pub open spec fn sections_view(hunks: Seq<Hunk>) -> Seq<Section> {
    Seq::new(hunks.len(), |i: int| hunks[i]@)
}

pub open spec fn files_view(files: Seq<FileDiff>) -> Seq<ChangedFile> {
    Seq::new(files.len(), |i: int| files[i]@)
}

impl View for FileDiff {
    type V = ChangedFile;

    open spec fn view(&self) -> ChangedFile {
        ChangedFile {
            path: self.path@,
            old_path: text::view_of(self.old_path),
            sections: sections_view(self.hunks@),
            is_binary: self.is_binary,
            added: self.added as nat,
            removed: self.removed as nat,
        }
    }
}

impl FileDiff {
    pub fn is_empty(&self) -> (r: bool)
        ensures
            r == (self.hunks@.len() == 0),
    {
        self.hunks.len() == 0
    }
}

/// Where the run of lines of one kind that holds position `i` starts.
pub open spec fn run_start(lines: Seq<Line>, i: int, kind: LineKind) -> int
    decreases i,
{
    if 0 < i <= lines.len() && lines[i - 1].kind == kind {
        run_start(lines, i - 1, kind)
    } else {
        i
    }
}

/// Where the run of lines of one kind that starts at `i` ends.
pub open spec fn run_end(lines: Seq<Line>, i: int, kind: LineKind) -> int
    decreases lines.len() - i,
{
    if 0 <= i < lines.len() && lines[i].kind == kind {
        run_end(lines, i + 1, kind)
    } else {
        i
    }
}

/// The other version of a changed line: in a run of removed lines that is followed by as
/// many added lines, the lines correspond one by one. A run of another length has been
/// replaced as a whole, and its lines have no counterparts.
pub open spec fn partner(lines: Seq<Line>, i: int) -> Option<int> {
    match lines[i].kind {
        LineKind::Context => None,
        LineKind::Removed => {
            let start = run_start(lines, i, LineKind::Removed);
            let middle = run_end(lines, i, LineKind::Removed);
            let end = run_end(lines, middle, LineKind::Added);
            if middle - start == end - middle {
                Some(middle + (i - start))
            } else {
                None
            }
        },
        LineKind::Added => {
            let middle = run_start(lines, i, LineKind::Added);
            let start = run_start(lines, middle, LineKind::Removed);
            let end = run_end(lines, i, LineKind::Added);
            if middle - start == end - middle {
                Some(start + (i - middle))
            } else {
                None
            }
        },
    }
}

/// A line with what sets it apart from its other version.
pub open spec fn annotated(lines: Seq<Line>, i: int) -> Line {
    match partner(lines, i) {
        Some(j) => Line {
            spans: spans_of(lines[i].content, lines[j].content),
            whitespace_only: without_white_space(lines[i].content) == without_white_space(
                lines[j].content,
            ),
            pair: Some(j as usize),
            ..lines[i]
        },
        None => lines[i],
    }
}

pub open spec fn all_annotated(lines: Seq<Line>) -> Seq<Line> {
    Seq::new(lines.len(), |i: int| annotated(lines, i))
}

proof fn lemma_run_start(lines: Seq<Line>, i: int, kind: LineKind)
    requires
        0 <= i <= lines.len(),
    ensures
        0 <= run_start(lines, i, kind) <= i,
        forall|k: int| run_start(lines, i, kind) <= k < i ==> (#[trigger] lines[k]).kind == kind,
        run_start(lines, i, kind) > 0 ==> lines[run_start(lines, i, kind) - 1].kind != kind,
    decreases i,
{
    if i > 0 && lines[i - 1].kind == kind {
        lemma_run_start(lines, i - 1, kind);
    }
}

proof fn lemma_run_end(lines: Seq<Line>, i: int, kind: LineKind)
    requires
        0 <= i <= lines.len(),
    ensures
        i <= run_end(lines, i, kind) <= lines.len(),
        forall|k: int| i <= k < run_end(lines, i, kind) ==> (#[trigger] lines[k]).kind == kind,
        run_end(lines, i, kind) < lines.len() ==> lines[run_end(lines, i, kind)].kind != kind,
    decreases lines.len() - i,
{
    if i < lines.len() && lines[i].kind == kind {
        lemma_run_end(lines, i + 1, kind);
    }
}

/// All positions of a run agree on where it starts and ends.
proof fn lemma_same_run(lines: Seq<Line>, start: int, end: int, i: int, kind: LineKind)
    requires
        0 <= start <= i <= end <= lines.len(),
        forall|k: int| start <= k < end ==> (#[trigger] lines[k]).kind == kind,
        start > 0 ==> lines[start - 1].kind != kind,
        end < lines.len() ==> lines[end].kind != kind,
    ensures
        run_start(lines, i, kind) == start,
        run_end(lines, i, kind) == end,
{
    lemma_run_start(lines, i, kind);
    lemma_run_end(lines, i, kind);
    let s = run_start(lines, i, kind);
    let e = run_end(lines, i, kind);
    if s > start {
        assert(lines[s - 1].kind == kind);
    }
    if s < start {
        assert(lines[start - 1].kind == kind);
    }
    if e < end {
        assert(lines[e].kind == kind);
    }
    if e > end {
        assert(lines[end].kind == kind);
    }
}

/// The partners within a run of removed lines and the added lines that follow it.
proof fn lemma_block(lines: Seq<Line>, start: int, middle: int, end: int, i: int)
    requires
        0 <= start < middle <= end <= lines.len(),
        forall|k: int| start <= k < middle ==> (#[trigger] lines[k]).kind == LineKind::Removed,
        forall|k: int| middle <= k < end ==> (#[trigger] lines[k]).kind == LineKind::Added,
        start > 0 ==> lines[start - 1].kind != LineKind::Removed,
        middle == end && middle < lines.len() ==> lines[middle].kind == LineKind::Context,
        end < lines.len() ==> lines[end].kind != LineKind::Added,
        start <= i < end,
    ensures
        partner(lines, i) == if middle - start != end - middle {
            None
        } else if i < middle {
            Some(middle + (i - start))
        } else {
            Some(start + (i - middle))
        },
{
    if middle < end {
        assert(lines[middle].kind == LineKind::Added);
    }
    assert(lines[middle - 1].kind == LineKind::Removed);
    lemma_same_run(lines, start, middle, middle, LineKind::Removed);
    lemma_same_run(lines, middle, end, middle, LineKind::Added);
    if i < middle {
        lemma_same_run(lines, start, middle, i, LineKind::Removed);
    } else {
        lemma_same_run(lines, middle, end, i, LineKind::Added);
    }
}

/// Counterparts are mutual, and one of the two is removed, the other added.
pub proof fn partners_are_mutual(lines: Seq<Line>, i: int)
    requires
        0 <= i < lines.len(),
        partner(lines, i) is Some,
    ensures
        0 <= partner(lines, i)->0 < lines.len(),
        partner(lines, partner(lines, i)->0) == Some(i),
        lines[i].kind == LineKind::Removed ==> lines[partner(lines, i)->0].kind == LineKind::Added,
        lines[i].kind == LineKind::Added ==> lines[partner(lines, i)->0].kind == LineKind::Removed,
{
    let j = partner(lines, i)->0;
    if lines[i].kind == LineKind::Removed {
        let start = run_start(lines, i, LineKind::Removed);
        let middle = run_end(lines, i, LineKind::Removed);
        let end = run_end(lines, middle, LineKind::Added);
        lemma_run_start(lines, i, LineKind::Removed);
        lemma_run_end(lines, i, LineKind::Removed);
        lemma_run_end(lines, middle, LineKind::Added);
        assert(lines[j].kind == LineKind::Added);
        lemma_block(lines, start, middle, end, j);
    } else {
        let middle = run_start(lines, i, LineKind::Added);
        let start = run_start(lines, middle, LineKind::Removed);
        let end = run_end(lines, i, LineKind::Added);
        lemma_run_start(lines, i, LineKind::Added);
        lemma_run_start(lines, middle, LineKind::Removed);
        lemma_run_end(lines, i, LineKind::Added);
        assert forall|k: int| middle <= k < end implies (#[trigger] lines[k]).kind
            == LineKind::Added by {
            if k < i {
            }
        }
        assert(lines[j].kind == LineKind::Removed);
        lemma_block(lines, start, middle, end, j);
    }
}

/// Where a run of removed lines is followed by as many added lines, the lines are paired one
/// by one, each pair with the ranges in which the two differ and whether they differ in
/// white space alone. Where there are more or fewer, none of them is paired.
pub proof fn lines_of_a_block_are_paired(
    lines: Seq<Line>,
    start: int,
    middle: int,
    end: int,
    i: int,
)
    requires
        0 <= start < middle <= end <= lines.len() <= usize::MAX,
        forall|k: int| start <= k < middle ==> (#[trigger] lines[k]).kind == LineKind::Removed,
        forall|k: int| middle <= k < end ==> (#[trigger] lines[k]).kind == LineKind::Added,
        start > 0 ==> lines[start - 1].kind != LineKind::Removed,
        middle == end && middle < lines.len() ==> lines[middle].kind == LineKind::Context,
        end < lines.len() ==> lines[end].kind != LineKind::Added,
        start <= i < end,
    ensures
        ({
            let r = all_annotated(lines);
            let other = if i < middle {
                middle + (i - start)
            } else {
                start + (i - middle)
            };
            &&& r.len() == lines.len()
            &&& r[i].kind == lines[i].kind
            &&& r[i].content == lines[i].content
            &&& r[i].old_lineno == lines[i].old_lineno
            &&& r[i].new_lineno == lines[i].new_lineno
            &&& middle - start != end - middle ==> r[i].pair == lines[i].pair && r[i].spans
                == lines[i].spans && r[i].whitespace_only == lines[i].whitespace_only
            &&& middle - start == end - middle ==> {
                &&& r[i].pair == Some(other as usize)
                &&& r[i].spans == spans_of(lines[i].content, lines[other].content)
                &&& r[i].whitespace_only == (lines[i].content.filter(|c: char| !is_white_space(c))
                    == lines[other].content.filter(|c: char| !is_white_space(c)))
            }
        }),
{
    lemma_block(lines, start, middle, end, i);
}

/// A line of the context is left as it is, and so is an added line in a run that no removed
/// line stands before.
pub proof fn other_lines_are_not_paired(lines: Seq<Line>, start: int, i: int)
    requires
        0 <= start <= i < lines.len(),
        lines[i].kind == LineKind::Context || ((forall|k: int|
            start <= k <= i ==> (#[trigger] lines[k]).kind == LineKind::Added) && (start == 0
            || lines[start - 1].kind == LineKind::Context)),
    ensures
        all_annotated(lines)[i] == lines[i],
{
    if lines[i].kind == LineKind::Added {
        lemma_run_start(lines, i, LineKind::Added);
        lemma_run_end(lines, i, LineKind::Added);
        lemma_run_end(lines, i + 1, LineKind::Added);
        let first = run_start(lines, i, LineKind::Added);
        assert(first == start) by {
            if first > start {
                assert(lines[first - 1].kind == LineKind::Added);
            }
            if first < start {
                assert(lines[start - 1].kind == LineKind::Added);
            }
        }
        assert(run_start(lines, start, LineKind::Removed) == start);
    }
}

/// A line that no run of removed lines leads up to has no counterpart.
proof fn lemma_lone_line(lines: Seq<Line>, i: int)
    requires
        0 <= i < lines.len(),
        lines[i].kind != LineKind::Removed,
        starts_block(lines, i),
    ensures
        partner(lines, i) is None,
        i + 1 < lines.len() ==> starts_block(lines, i + 1),
{
    if lines[i].kind == LineKind::Added {
        let middle = run_start(lines, i, LineKind::Added);
        lemma_run_start(lines, i, LineKind::Added);
        lemma_run_start(lines, middle, LineKind::Removed);
        lemma_run_end(lines, i, LineKind::Added);
        assert(run_end(lines, i, LineKind::Added) > i) by {
            lemma_run_end(lines, i + 1, LineKind::Added);
        }
    }
}

/// Whether no run of removed lines, with the added lines after it, reaches position `i`
/// from above.
spec fn starts_block(lines: Seq<Line>, i: int) -> bool {
    match lines[i].kind {
        LineKind::Removed => i == 0 || lines[i - 1].kind != LineKind::Removed,
        LineKind::Added => {
            let start = run_start(lines, i, LineKind::Added);
            start == 0 || lines[start - 1].kind != LineKind::Removed
        },
        LineKind::Context => true,
    }
}

/// Pairs removed and added lines of a section and marks what changed within them.
///
/// A difference is made of whole lines and does not know that two lines are versions of
/// one. Pairing them in the order in which they appear works well in practice: where a
/// line is edited, its removal and its addition are neighbours.
pub fn annotate_intra_line(lines: &mut Vec<DiffLine>)
    ensures
        lines_view(final(lines)@) == all_annotated(lines_view(old(lines)@)),
{
    let ghost before = lines_view(lines@);
    let count = lines.len();
    let mut index: usize = 0;
    while index < count
        invariant
            count == before.len(),
            lines@.len() == count,
            index <= count,
            index < count ==> starts_block(before, index as int),
            forall|i: int| 0 <= i < index ==> (#[trigger] lines@[i])@ == annotated(before, i),
            forall|i: int| index <= i < count ==> (#[trigger] lines@[i])@ == before[i],
        decreases count - index,
    {
        if lines[index].kind != LineKind::Removed {
            proof {
                lemma_lone_line(before, index as int);
            }
            index += 1;
            continue;
        }
        let start = index;
        while index < count && lines[index].kind == LineKind::Removed
            invariant
                count == before.len(),
                lines@.len() == count,
                start <= index <= count,
                start < count,
                before[start as int].kind == LineKind::Removed,
                forall|i: int| start <= i < count ==> (#[trigger] lines@[i])@ == before[i],
                forall|i: int| start <= i < index ==> (#[trigger] before[i]).kind == LineKind::Removed,
            decreases count - index,
        {
            assert(lines@[index as int]@ == before[index as int]);
            index += 1;
        }
        let middle = index;
        proof {
            assert(lines@[start as int]@ == before[start as int]);
            if middle < count {
                assert(lines@[middle as int]@ == before[middle as int]);
                assert(before[middle as int].kind != LineKind::Removed);
            }
        }
        while index < count && lines[index].kind == LineKind::Added
            invariant
                count == before.len(),
                lines@.len() == count,
                middle <= index <= count,
                forall|i: int| middle <= i < count ==> (#[trigger] lines@[i])@ == before[i],
                forall|i: int| middle <= i < index ==> (#[trigger] before[i]).kind == LineKind::Added,
            decreases count - index,
        {
            assert(lines@[index as int]@ == before[index as int]);
            index += 1;
        }
        let end = index;
        proof {
            if end < count {
                assert(lines@[end as int]@ == before[end as int]);
                assert(before[end as int].kind != LineKind::Added);
            }
            assert(middle > start);
            assert forall|i: int| start <= i < end implies #[trigger] partner(before, i) == if middle
                - start != end - middle {
                None::<int>
            } else if i < middle {
                Some(middle + (i - start))
            } else {
                Some(start + (i - middle))
            } by {
                lemma_block(before, start as int, middle as int, end as int, i);
            }
            if end < count {
                if end > middle {
                    assert(before[end - 1].kind == LineKind::Added);
                } else {
                    assert(before[end as int].kind == LineKind::Context);
                }
            }
        }
        if middle - start != end - middle {
            assert forall|i: int| start <= i < end implies (#[trigger] lines@[i])@ == annotated(
                before,
                i,
            ) by {
                assert(partner(before, i) is None);
            }
            continue;
        }
        let pairs = middle - start;
        let mut offset: usize = 0;
        while offset < pairs
            invariant
                count == before.len(),
                lines@.len() == count,
                start < middle < end <= count,
                pairs == middle - start,
                pairs == end - middle,
                offset <= pairs,
                forall|i: int|
                    start <= i < end ==> #[trigger] partner(before, i) == if i < middle {
                        Some(middle + (i - start))
                    } else {
                        Some(start + (i - middle))
                    },
                forall|i: int| start <= i < middle ==> (#[trigger] before[i]).kind == LineKind::Removed,
                forall|i: int| middle <= i < end ==> (#[trigger] before[i]).kind == LineKind::Added,
                forall|i: int| 0 <= i < start ==> (#[trigger] lines@[i])@ == annotated(before, i),
                forall|i: int|
                    start <= i < start + offset ==> (#[trigger] lines@[i])@ == annotated(before, i),
                forall|i: int|
                    middle <= i < middle + offset ==> (#[trigger] lines@[i])@ == annotated(before, i),
                forall|i: int| start + offset <= i < middle ==> (#[trigger] lines@[i])@ == before[i],
                forall|i: int| middle + offset <= i < count ==> (#[trigger] lines@[i])@ == before[i],
            decreases pairs - offset,
        {
            let removed = start + offset;
            let added = middle + offset;
            assert(lines@[removed as int]@ == before[removed as int]);
            assert(lines@[added as int]@ == before[added as int]);
            assert(partner(before, removed as int) == Some(added as int));
            assert(partner(before, added as int) == Some(removed as int));
            let (old_spans, new_spans) = changed_spans(
                lines[removed].content.as_str(),
                lines[added].content.as_str(),
            );
            let whitespace = is_whitespace_only_change(
                lines[removed].content.as_str(),
                lines[added].content.as_str(),
            );
            let ghost held = lines@;
            lines[removed].spans = old_spans;
            lines[removed].whitespace_only = whitespace;
            lines[removed].pair = Some(added);
            lines[added].spans = new_spans;
            lines[added].whitespace_only = whitespace;
            lines[added].pair = Some(removed);
            assert(lines@[removed as int]@ == annotated(before, removed as int));
            assert(lines@[added as int]@ == annotated(before, added as int));
            assert(forall|i: int|
                0 <= i < count && i != removed && i != added ==> #[trigger] lines@[i] == held[i]);
            offset += 1;
        }
    }
    assert(lines_view(lines@) =~= all_annotated(before));
}

} // verus!
