//! From the raw deltas of a comparison to the differences of its files.
use vstd::hash_map::StringHashMap;
use vstd::prelude::*;

use crate::diff::{
    all_annotated, annotate_intra_line, files_view, lines_view, sections_view, DiffLine,
    ChangedFile, FileDiff, Hunk, Line, LineKind, Section,
};
use crate::text;
use crate::text::{lossy_text, without_trailing};

verus! {

/// One line of a patch as it was read.
#[derive(Debug)]
pub struct RawLine {
    /// `+` for an added line, `-` for a removed one.
    pub origin: char,
    pub content: Vec<u8>,
    pub old_lineno: Option<u32>,
    pub new_lineno: Option<u32>,
}

/// One section of a patch as it was read.
#[derive(Debug)]
pub struct RawHunk {
    pub header: Vec<u8>,
    pub old_start: u32,
    pub old_lines: u32,
    pub new_start: u32,
    pub new_lines: u32,
    pub lines: Vec<RawLine>,
}

/// One file of a comparison as it was read. A binary file has no patch.
#[derive(Debug)]
pub struct RawDelta {
    pub old_path: Option<Vec<u8>>,
    pub new_path: Option<Vec<u8>>,
    pub hunks: Option<Vec<RawHunk>>,
}

pub open spec fn kind_of(origin: char) -> LineKind {
    if origin == '+' {
        LineKind::Added
    } else if origin == '-' {
        LineKind::Removed
    } else {
        LineKind::Context
    }
}

/// The text of a line without its line ends.
pub open spec fn line_text(bytes: Seq<u8>) -> Seq<char> {
    without_trailing(lossy_text(bytes), '\n')
}

/// A line before it is compared with its other version.
pub open spec fn plain_line(raw: RawLine) -> Line {
    Line {
        kind: kind_of(raw.origin),
        content: line_text(raw.content@),
        old_lineno: raw.old_lineno,
        new_lineno: raw.new_lineno,
        spans: Seq::empty(),
        whitespace_only: false,
        pair: None,
    }
}

pub open spec fn plain_lines(raw: Seq<RawLine>) -> Seq<Line> {
    Seq::new(raw.len(), |i: int| plain_line(raw[i]))
}

pub open spec fn section_of(raw: RawHunk) -> Section {
    Section {
        header: line_text(raw.header@),
        old_start: raw.old_start,
        old_lines: raw.old_lines,
        new_start: raw.new_start,
        new_lines: raw.new_lines,
        lines: all_annotated(plain_lines(raw.lines@)),
        collides_with_incoming: false,
    }
}

pub open spec fn sections_of(raw: Seq<RawHunk>) -> Seq<Section> {
    Seq::new(raw.len(), |i: int| section_of(raw[i]))
}

/// The number of lines with the given origin.
pub open spec fn count_lines(lines: Seq<RawLine>, origin: char) -> nat {
    lines.filter(|line: RawLine| line.origin == origin).len()
}

/// The number of lines with the given origin in the first `count` sections.
pub open spec fn count_in_sections(hunks: Seq<RawHunk>, origin: char, count: nat) -> nat
    decreases count,
{
    if count == 0 {
        0
    } else {
        count_in_sections(hunks, origin, (count - 1) as nat) + count_lines(
            hunks[count - 1].lines@,
            origin,
        )
    }
}

/// The path a file is listed under: the new one, or else the old one.
pub open spec fn listed_path(delta: RawDelta) -> Seq<char> {
    match delta.new_path {
        Some(path) => lossy_text(path@),
        None => match delta.old_path {
            Some(path) => lossy_text(path@),
            None => Seq::empty(),
        },
    }
}

/// The old path, where it is another one.
pub open spec fn former_path(delta: RawDelta) -> Option<Seq<char>> {
    match delta.old_path {
        Some(path) => if lossy_text(path@) != listed_path(delta) {
            Some(lossy_text(path@))
        } else {
            None
        },
        None => None,
    }
}

pub open spec fn file_of(delta: RawDelta) -> ChangedFile {
    match delta.hunks {
        Some(hunks) => ChangedFile {
            path: listed_path(delta),
            old_path: former_path(delta),
            sections: sections_of(hunks@),
            is_binary: false,
            added: count_in_sections(hunks@, '+', hunks@.len()),
            removed: count_in_sections(hunks@, '-', hunks@.len()),
        },
        None => ChangedFile {
            path: listed_path(delta),
            old_path: former_path(delta),
            sections: Seq::empty(),
            is_binary: true,
            added: 0,
            removed: 0,
        },
    }
}

pub open spec fn files_of(deltas: Seq<RawDelta>) -> Seq<ChangedFile> {
    Seq::new(deltas.len(), |i: int| file_of(deltas[i]))
}

/// The number of changed lines of a file fits a count.
pub open spec fn counts_fit(delta: RawDelta) -> bool {
    match delta.hunks {
        Some(hunks) => {
            &&& count_in_sections(hunks@, '+', hunks@.len()) <= usize::MAX
            &&& count_in_sections(hunks@, '-', hunks@.len()) <= usize::MAX
        },
        None => true,
    }
}

/// The text of a line of a patch: its bytes read as UTF-8, without the line ends.
pub fn read_line(bytes: &Vec<u8>) -> (r: String)
    ensures
        r@ == line_text(bytes@),
{
    text::trim_end_of(text::decode_lossy(bytes.as_slice()).as_str(), '\n')
}

/// The sections of a file, with the numbers of added and removed lines.
fn build_hunks(raw: &Vec<RawHunk>) -> (r: (Vec<Hunk>, usize, usize))
    requires
        count_in_sections(raw@, '+', raw@.len()) <= usize::MAX,
        count_in_sections(raw@, '-', raw@.len()) <= usize::MAX,
    ensures
        sections_view(r.0@) == sections_of(raw@),
        r.1 == count_in_sections(raw@, '+', raw@.len()),
        r.2 == count_in_sections(raw@, '-', raw@.len()),
{
    let mut hunks: Vec<Hunk> = Vec::new();
    let mut added: usize = 0;
    let mut removed: usize = 0;
    let mut index: usize = 0;
    while index < raw.len()
        invariant
            index <= raw@.len(),
            count_in_sections(raw@, '+', raw@.len()) <= usize::MAX,
            count_in_sections(raw@, '-', raw@.len()) <= usize::MAX,
            hunks@.len() == index,
            forall|i: int| 0 <= i < index ==> (#[trigger] hunks@[i])@ == section_of(raw@[i]),
            added == count_in_sections(raw@, '+', index as nat),
            removed == count_in_sections(raw@, '-', index as nat),
        decreases raw@.len() - index,
    {
        let hunk = &raw[index];
        let mut lines: Vec<DiffLine> = Vec::new();
        let ghost pluses = added;
        let ghost minuses = removed;
        let mut position: usize = 0;
        proof {
            lemma_count_grows(raw@, '+', (index + 1) as nat, raw@.len());
            lemma_count_grows(raw@, '-', (index + 1) as nat, raw@.len());
            reveal(Seq::filter);
        }
        while position < hunk.lines.len()
            invariant
                index < raw@.len(),
                hunk == raw@[index as int],
                position <= hunk.lines@.len(),
                lines@.len() == position,
                forall|i: int| 0 <= i < position ==> (#[trigger] lines@[i])@ == plain_line(hunk.lines@[i]),
                added == pluses + count_lines(hunk.lines@.take(position as int), '+'),
                removed == minuses + count_lines(hunk.lines@.take(position as int), '-'),
                pluses + count_lines(hunk.lines@, '+') <= usize::MAX,
                minuses + count_lines(hunk.lines@, '-') <= usize::MAX,
            decreases hunk.lines@.len() - position,
        {
            let line = &hunk.lines[position];
            proof {
                lemma_count_step(hunk.lines@, '+', position as int);
                lemma_count_step(hunk.lines@, '-', position as int);
            }
            let kind = if line.origin == '+' {
                LineKind::Added
            } else if line.origin == '-' {
                LineKind::Removed
            } else {
                LineKind::Context
            };
            match kind {
                LineKind::Added => {
                    added += 1;
                }
                LineKind::Removed => {
                    removed += 1;
                }
                LineKind::Context => {}
            }
            lines.push(
                DiffLine {
                    kind,
                    content: read_line(&line.content),
                    old_lineno: line.old_lineno,
                    new_lineno: line.new_lineno,
                    spans: Vec::new(),
                    whitespace_only: false,
                    pair: None,
                },
            );
            position += 1;
            assert(lines@[position - 1]@ =~= plain_line(hunk.lines@[position - 1]));
        }
        assert(lines_view(lines@) =~= plain_lines(hunk.lines@));
        assert(hunk.lines@.take(position as int) =~= hunk.lines@);
        annotate_intra_line(&mut lines);
        hunks.push(
            Hunk {
                header: read_line(&hunk.header),
                old_start: hunk.old_start,
                old_lines: hunk.old_lines,
                new_start: hunk.new_start,
                new_lines: hunk.new_lines,
                lines,
                collides_with_incoming: false,
            },
        );
        index += 1;
    }
    assert(sections_view(hunks@) =~= sections_of(raw@));
    (hunks, added, removed)
}

proof fn lemma_count_grows(hunks: Seq<RawHunk>, origin: char, a: nat, b: nat)
    requires
        a <= b <= hunks.len(),
    ensures
        count_in_sections(hunks, origin, a) <= count_in_sections(hunks, origin, b),
    decreases b,
{
    if a < b {
        lemma_count_grows(hunks, origin, a, (b - 1) as nat);
    }
}

proof fn lemma_count_step(lines: Seq<RawLine>, origin: char, i: int)
    requires
        0 <= i < lines.len(),
    ensures
        count_lines(lines.take(i + 1), origin) == count_lines(lines.take(i), origin)
            + if lines[i].origin == origin {
            1nat
        } else {
            0nat
        },
        count_lines(lines.take(i + 1), origin) <= count_lines(lines, origin),
{
    let wanted = |line: RawLine| line.origin == origin;
    reveal(Seq::filter);
    assert(lines.take(i + 1).drop_last() =~= lines.take(i));
    Seq::filter_distributes_over_add(lines.take(i + 1), lines.skip(i + 1), wanted);
    assert(lines.take(i + 1) + lines.skip(i + 1) =~= lines);
}

/// The paths of a file: the one it is listed under, and the old one where it differs.
fn paths_of(delta: &RawDelta) -> (r: (String, Option<String>))
    ensures
        r.0@ == listed_path(*delta),
        text::view_of(r.1) == former_path(*delta),
{
    let path = match &delta.new_path {
        Some(path) => text::decode_lossy(path.as_slice()),
        None => match &delta.old_path {
            Some(path) => text::decode_lossy(path.as_slice()),
            None => String::new(),
        },
    };
    assert(path@ =~= listed_path(*delta));
    let old_path = match &delta.old_path {
        Some(old) => {
            let old = text::decode_lossy(old.as_slice());
            if text::same(old.as_str(), path.as_str()) {
                None
            } else {
                Some(old)
            }
        }
        None => None,
    };
    (path, old_path)
}

/// The difference of each file of a comparison.
pub fn build_file_diffs(deltas: &Vec<RawDelta>) -> (r: Vec<FileDiff>)
    requires
        forall|i: int| 0 <= i < deltas@.len() ==> counts_fit(#[trigger] deltas@[i]),
    ensures
        files_view(r@) == files_of(deltas@),
{
    let mut files: Vec<FileDiff> = Vec::new();
    let mut index: usize = 0;
    while index < deltas.len()
        invariant
            index <= deltas@.len(),
            forall|i: int| 0 <= i < deltas@.len() ==> counts_fit(#[trigger] deltas@[i]),
            files@.len() == index,
            forall|i: int| 0 <= i < index ==> (#[trigger] files@[i])@ == file_of(deltas@[i]),
        decreases deltas@.len() - index,
    {
        let delta = &deltas[index];
        assert(counts_fit(deltas@[index as int]));
        let (path, old_path) = paths_of(delta);
        match &delta.hunks {
            None => {
                let file = FileDiff {
                    path,
                    old_path,
                    hunks: Vec::new(),
                    is_binary: true,
                    added: 0,
                    removed: 0,
                };
                assert(sections_view(file.hunks@) =~= Seq::empty());
                files.push(file);
            }
            Some(raw) => {
                let (hunks, added, removed) = build_hunks(raw);
                files.push(
                    FileDiff { path, old_path, hunks, is_binary: false, added, removed },
                );
            }
        }
        assert(files@[index as int]@ == file_of(deltas@[index as int]));
        index += 1;
    }
    assert(files_view(files@) =~= files_of(deltas@));
    files
}

/// The lines of each file that incoming changes touch, as first and last line numbers
/// of the old version.
pub struct IncomingRanges {
    entries: StringHashMap<Vec<(u32, u32)>>,
}

impl View for IncomingRanges {
    type V = Map<Seq<char>, Seq<(u32, u32)>>;

    closed spec fn view(&self) -> Map<Seq<char>, Seq<(u32, u32)>> {
        self.entries@.map_values(|ranges: Vec<(u32, u32)>| ranges@)
    }
}

impl IncomingRanges {
    pub fn new() -> (r: Self)
        ensures
            r@ == Map::<Seq<char>, Seq<(u32, u32)>>::empty(),
    {
        let r = IncomingRanges { entries: StringHashMap::new() };
        assert(r@ =~= Map::empty());
        r
    }

    /// Puts the ranges of a file in place of those it had.
    pub fn insert(&mut self, path: &str, ranges: Vec<(u32, u32)>)
        ensures
            final(self)@ == old(self)@.insert(path@, ranges@),
    {
        self.entries.insert(path.to_owned(), ranges);
        assert(self@ =~= old(self)@.insert(path@, ranges@));
    }

    pub fn get(&self, path: &str) -> (r: Option<&Vec<(u32, u32)>>)
        ensures
            match r {
                Some(ranges) => self@.dom().contains(path@) && ranges@ == self@[path@],
                None => !self@.dom().contains(path@),
            },
    {
        self.entries.get(path)
    }
}

/// The old line numbers of each section, from its first line to the line after its last.
pub open spec fn old_ranges(hunks: Seq<RawHunk>) -> Seq<(u32, u32)> {
    Seq::new(
        hunks.len(),
        |i: int| (hunks[i].old_start, (hunks[i].old_start + hunks[i].old_lines) as u32),
    )
}

/// The path incoming changes are listed under: the old one, or else the new one.
pub open spec fn incoming_path(delta: RawDelta) -> Option<Seq<char>> {
    match delta.old_path {
        Some(path) => Some(lossy_text(path@)),
        None => match delta.new_path {
            Some(path) => Some(lossy_text(path@)),
            None => None,
        },
    }
}

/// The lines that the first `count` files of a comparison touch.
pub open spec fn touched_lines(
    deltas: Seq<RawDelta>,
    count: nat,
) -> Map<Seq<char>, Seq<(u32, u32)>>
    decreases count,
{
    if count == 0 {
        Map::empty()
    } else {
        let before = touched_lines(deltas, (count - 1) as nat);
        let delta = deltas[count - 1];
        match (delta.hunks, incoming_path(delta)) {
            (Some(hunks), Some(path)) => before.insert(path, old_ranges(hunks@)),
            _ => before,
        }
    }
}

/// The old line numbers of all sections of a file fit.
pub open spec fn line_numbers_fit(delta: RawDelta) -> bool {
    match delta.hunks {
        Some(hunks) => forall|i: int|
            0 <= i < hunks@.len() ==> (#[trigger] hunks@[i]).old_start + hunks@[i].old_lines
                <= u32::MAX,
        None => true,
    }
}

/// Which lines of which files the incoming changes touch, from the comparison of HEAD
/// with its remote-tracking branch. The line numbers are those of HEAD, so that they can
/// be held against a difference of the working tree.
pub fn incoming_line_ranges(deltas: &Vec<RawDelta>) -> (r: IncomingRanges)
    requires
        forall|i: int| 0 <= i < deltas@.len() ==> line_numbers_fit(#[trigger] deltas@[i]),
    ensures
        r@ == touched_lines(deltas@, deltas@.len()),
{
    let mut result = IncomingRanges::new();
    let mut index: usize = 0;
    while index < deltas.len()
        invariant
            index <= deltas@.len(),
            forall|i: int| 0 <= i < deltas@.len() ==> line_numbers_fit(#[trigger] deltas@[i]),
            result@ == touched_lines(deltas@, index as nat),
        decreases deltas@.len() - index,
    {
        let delta = &deltas[index];
        assert(line_numbers_fit(deltas@[index as int]));
        let path = match &delta.old_path {
            Some(path) => Some(text::decode_lossy(path.as_slice())),
            None => match &delta.new_path {
                Some(path) => Some(text::decode_lossy(path.as_slice())),
                None => None,
            },
        };
        assert(text::view_of(path) == incoming_path(*delta));
        if let (Some(hunks), Some(path)) = (&delta.hunks, path) {
            let mut ranges: Vec<(u32, u32)> = Vec::new();
            let mut position: usize = 0;
            while position < hunks.len()
                invariant
                    position <= hunks@.len(),
                    forall|i: int|
                        0 <= i < hunks@.len() ==> (#[trigger] hunks@[i]).old_start
                            + hunks@[i].old_lines <= u32::MAX,
                    ranges@ == old_ranges(hunks@).take(position as int),
                decreases hunks@.len() - position,
            {
                let start = hunks[position].old_start;
                ranges.push((start, start + hunks[position].old_lines));
                position += 1;
                assert(ranges@ =~= old_ranges(hunks@).take(position as int));
            }
            assert(ranges@ =~= old_ranges(hunks@));
            result.insert(path.as_str(), ranges);
        }
        index += 1;
    }
    result
}

/// Whether two ranges of lines meet. Ranges that only touch count.
pub open spec fn overlap(left: (u32, u32), right: (u32, u32)) -> bool {
    left.0 <= right.1 && right.0 <= left.1
}

/// Whether two ranges of lines meet.
pub fn ranges_overlap(left: (u32, u32), right: (u32, u32)) -> (r: bool)
    ensures
        r == overlap(left, right),
{
    left.0 <= right.1 && right.0 <= left.1
}

/// Whether a section meets one of the given ranges.
pub open spec fn collides(section: Section, ranges: Seq<(u32, u32)>) -> bool {
    exists|i: int|
        0 <= i < ranges.len() && overlap(
            (section.old_start, (section.old_start + section.old_lines) as u32),
            #[trigger] ranges[i],
        )
}

/// A section of the file at `path` with its mark set.
pub open spec fn marked_section(
    section: Section,
    path: Seq<char>,
    incoming: Map<Seq<char>, Seq<(u32, u32)>>,
) -> Section {
    if incoming.dom().contains(path) {
        Section { collides_with_incoming: collides(section, incoming[path]), ..section }
    } else {
        section
    }
}

pub open spec fn marked_file(
    file: ChangedFile,
    incoming: Map<Seq<char>, Seq<(u32, u32)>>,
) -> ChangedFile {
    ChangedFile {
        sections: Seq::new(
            file.sections.len(),
            |i: int| marked_section(file.sections[i], file.path, incoming),
        ),
        ..file
    }
}

/// The old line numbers of the sections of a file fit, if they are looked at.
pub open spec fn sections_fit(
    file: ChangedFile,
    incoming: Map<Seq<char>, Seq<(u32, u32)>>,
) -> bool {
    incoming.dom().contains(file.path) ==> forall|i: int|
        0 <= i < file.sections.len() ==> (#[trigger] file.sections[i]).old_start
            + file.sections[i].old_lines <= u32::MAX
}

/// Marks the sections that incoming changes touch too.
///
/// Both comparisons start from HEAD, so that their line numbers can be held against each
/// other. Where the index differs from HEAD they are off: the mark is a hint at a risk,
/// not a promise.
pub fn mark_incoming_collisions(diffs: &mut Vec<FileDiff>, incoming: &IncomingRanges)
    requires
        forall|i: int|
            0 <= i < old(diffs)@.len() ==> sections_fit((#[trigger] old(diffs)@[i])@, incoming@),
    ensures
        files_view(final(diffs)@) == Seq::new(
            old(diffs)@.len(),
            |i: int| marked_file(old(diffs)@[i]@, incoming@),
        ),
{
    let ghost before = diffs@;
    let mut index: usize = 0;
    while index < diffs.len()
        invariant
            before == old(diffs)@,
            diffs@.len() == before.len(),
            index <= before.len(),
            forall|i: int|
                0 <= i < before.len() ==> sections_fit((#[trigger] before[i])@, incoming@),
            forall|i: int|
                0 <= i < index ==> (#[trigger] diffs@[i])@ == marked_file(before[i]@, incoming@),
            forall|i: int| index <= i < before.len() ==> #[trigger] diffs@[i] == before[i],
        decreases before.len() - index,
    {
        let ghost file = before[index as int];
        assert(diffs@[index as int] == file);
        assert(sections_fit(before[index as int]@, incoming@));
        if let Some(ranges) = incoming.get(diffs[index].path.as_str()) {
            let mut position: usize = 0;
            let count = diffs[index].hunks.len();
            while position < count
                invariant
                    incoming@.dom().contains(file.path@),
                    ranges@ == incoming@[file.path@],
                    sections_fit(file@, incoming@),
                    before.len() == diffs@.len(),
                    index < before.len(),
                    count == file.hunks@.len(),
                    position <= count,
                    diffs@[index as int].hunks@.len() == count,
                    diffs@[index as int].path == file.path,
                    diffs@[index as int].old_path == file.old_path,
                    diffs@[index as int].is_binary == file.is_binary,
                    diffs@[index as int].added == file.added,
                    diffs@[index as int].removed == file.removed,
                    forall|k: int|
                        0 <= k < position ==> (#[trigger] diffs@[index as int].hunks@[k])@
                            == marked_section(file.hunks@[k]@, file.path@, incoming@),
                    forall|k: int|
                        position <= k < count ==> #[trigger] diffs@[index as int].hunks@[k]
                            == file.hunks@[k],
                    forall|i: int| index < i < before.len() ==> #[trigger] diffs@[i] == before[i],
                    forall|i: int|
                        0 <= i < index ==> (#[trigger] diffs@[i])@ == marked_file(
                            before[i]@,
                            incoming@,
                        ),
                decreases count - position,
            {
                let ghost hunk = file.hunks@[position as int];
                assert(diffs@[index as int].hunks@[position as int] == hunk);
                assert(file@.sections[position as int] == hunk@);
                let start = diffs[index].hunks[position].old_start;
                let end = start + diffs[index].hunks[position].old_lines;
                let hit = meets_any((start, end), ranges);
                assert(hit == collides(hunk@, ranges@));
                diffs[index].hunks[position].collides_with_incoming = hit;
                assert(diffs@[index as int].hunks@[position as int]@ == marked_section(
                    hunk@,
                    file.path@,
                    incoming@,
                ));
                position += 1;
            }
        }
        assert(diffs@[index as int]@.sections =~= marked_file(file@, incoming@).sections);
        index += 1;
    }
    assert(files_view(diffs@) =~= Seq::new(
        before.len(),
        |i: int| marked_file(before[i]@, incoming@),
    ));
}

fn meets_any(span: (u32, u32), ranges: &Vec<(u32, u32)>) -> (r: bool)
    ensures
        r == exists|i: int| 0 <= i < ranges@.len() && overlap(span, #[trigger] ranges@[i]),
{
    let mut index: usize = 0;
    while index < ranges.len()
        invariant
            index <= ranges@.len(),
            forall|i: int| 0 <= i < index ==> !overlap(span, #[trigger] ranges@[i]),
        decreases ranges@.len() - index,
    {
        if ranges_overlap(span, ranges[index]) {
            assert(overlap(span, ranges@[index as int]));
            return true;
        }
        index += 1;
    }
    false
}

} // verus!
