//! Staging single lines.
//!
//! The lines picked from a difference are applied to the old version of a file; the
//! others are left out. The result goes to the index, and the working tree is not
//! touched.
use vstd::prelude::*;

use crate::diff::{
    files_view, sections_view, ChangedFile, DiffSource, FileDiff, Hunk, Line, LineKind, Section,
};
use crate::operation::{is_start, Operation, Plan, Reply, Request, Step};
use crate::ops;
use crate::ops::{refuses, OpOutcome};
use crate::patch::{build_file_diffs, counts_fit, files_of};
use crate::text;
use crate::text::{decimal_digits, ends_with, joined_lines, lines_of, lossy_text};

verus! {

/// A line of a difference: which section, and which line in it.
#[derive(Debug, Clone, Copy, PartialEq, Eq, Structural)]
pub struct LineRef {
    pub hunk: usize,
    pub line: usize,
}

/// The lines of a file, and whether the last of them ends with a line feed.
#[derive(Debug)]
pub struct Content {
    pub lines: Vec<String>,
    pub trailing_newline: bool,
}

/// The text of lines: line feeds between them, and one at the end of a text that is not
/// empty, if so wanted.
pub open spec fn rendered(lines: Seq<Seq<char>>, trailing_newline: bool) -> Seq<char> {
    let text = joined_lines(lines);
    if trailing_newline && text.len() > 0 {
        text.push('\n')
    } else {
        text
    }
}

impl Content {
    pub fn parse(text: &str) -> (r: Self)
        ensures
            text::views_of(r.lines@) == lines_of(text@),
            r.trailing_newline == ends_with(text@, '\n'),
    {
        let chars = text::chars_of(text);
        let trailing_newline = chars.len() > 0 && chars[chars.len() - 1] == '\n';
        Content { lines: text::split_lines(text), trailing_newline }
    }

    pub fn render(lines: &Vec<String>, trailing_newline: bool) -> (r: String)
        ensures
            r@ == rendered(text::views_of(lines@), trailing_newline),
    {
        let mut text = text::join_lines(lines);
        proof {
            text::empty_text_has_no_bytes(text@);
        }
        if trailing_newline && text.as_str().as_bytes().len() > 0 {
            text.push('\n');
        }
        text
    }
}

/// Whether a line is among those picked.
pub open spec fn picked(selected: Seq<LineRef>, hunk: int, line: int) -> bool {
    exists|i: int|
        0 <= i < selected.len() && (#[trigger] selected[i]).hunk == hunk && selected[i].line == line
}

/// The new version as far as it is made, and how much of the old one has been used.
pub struct Progress {
    pub lines: Seq<Seq<char>>,
    pub cursor: int,
}

/// Where a section starts in the old version. One that only inserts names the line before
/// it.
pub open spec fn section_start(section: Section) -> int {
    if section.old_lines == 0 || section.old_start == 0 {
        section.old_start as int
    } else {
        section.old_start - 1
    }
}

/// One line of the old version is taken over, if there is one left.
pub open spec fn keep_line(old: Seq<Seq<char>>, before: Progress) -> Progress {
    if before.cursor < old.len() {
        Progress { lines: before.lines.push(old[before.cursor]), cursor: before.cursor + 1 }
    } else {
        before
    }
}

/// All lines of the old version up to `end` are taken over.
pub open spec fn keep_until(old: Seq<Seq<char>>, before: Progress, end: int) -> Progress
    decreases end - before.cursor,
{
    if before.cursor < end && before.cursor < old.len() {
        keep_until(old, keep_line(old, before), end)
    } else {
        before
    }
}

/// A line of a difference: a removed line is dropped if picked and kept if not, an added
/// line is put in if picked.
pub open spec fn apply_line(
    old: Seq<Seq<char>>,
    before: Progress,
    line: Line,
    is_picked: bool,
) -> Progress {
    match line.kind {
        LineKind::Context => keep_line(old, before),
        LineKind::Removed => if is_picked {
            if before.cursor < old.len() {
                Progress { cursor: before.cursor + 1, ..before }
            } else {
                before
            }
        } else {
            keep_line(old, before)
        },
        LineKind::Added => if is_picked {
            Progress { lines: before.lines.push(line.content), ..before }
        } else {
            before
        },
    }
}

/// The first `count` lines of a section.
pub open spec fn apply_lines(
    old: Seq<Seq<char>>,
    before: Progress,
    lines: Seq<Line>,
    hunk: int,
    selected: Seq<LineRef>,
    count: nat,
) -> Progress
    decreases count,
{
    if count == 0 {
        before
    } else {
        apply_line(
            old,
            apply_lines(old, before, lines, hunk, selected, (count - 1) as nat),
            lines[count - 1],
            picked(selected, hunk, count - 1),
        )
    }
}

/// The first `count` sections.
pub open spec fn apply_sections(
    old: Seq<Seq<char>>,
    sections: Seq<Section>,
    selected: Seq<LineRef>,
    count: nat,
) -> Progress
    decreases count,
{
    if count == 0 {
        Progress { lines: Seq::empty(), cursor: 0 }
    } else {
        let section = sections[count - 1];
        let before = apply_sections(old, sections, selected, (count - 1) as nat);
        apply_lines(
            old,
            keep_until(old, before, section_start(section)),
            section.lines,
            count - 1,
            selected,
            section.lines.len(),
        )
    }
}

/// The old version with the picked changes and none of the others.
pub open spec fn selection_applied(
    old: Seq<Seq<char>>,
    sections: Seq<Section>,
    selected: Seq<LineRef>,
) -> Seq<Seq<char>> {
    let end = apply_sections(old, sections, selected, sections.len());
    end.lines + old.skip(end.cursor)
}

fn is_picked(selected: &Vec<LineRef>, hunk: usize, line: usize) -> (r: bool)
    ensures
        r == picked(selected@, hunk as int, line as int),
{
    let mut index: usize = 0;
    while index < selected.len()
        invariant
            index <= selected@.len(),
            forall|i: int|
                0 <= i < index ==> !((#[trigger] selected@[i]).hunk == hunk && selected@[i].line
                    == line),
        decreases selected@.len() - index,
    {
        if selected[index].hunk == hunk && selected[index].line == line {
            assert(selected@[index as int].hunk == hunk);
            return true;
        }
        index += 1;
    }
    false
}

proof fn lemma_keep_until(old: Seq<Seq<char>>, before: Progress, end: int)
    requires
        0 <= before.cursor <= old.len(),
    ensures
        before.cursor <= keep_until(old, before, end).cursor <= old.len(),
    decreases end - before.cursor,
{
    if before.cursor < end && before.cursor < old.len() {
        lemma_keep_until(old, keep_line(old, before), end);
    }
}

/// Applies the picked lines of a difference to the old version of a file.
pub fn apply_selection(old: &Content, hunks: &Vec<Hunk>, selected: &Vec<LineRef>) -> (r: String)
    ensures
        r@ == rendered(
            selection_applied(text::views_of(old.lines@), sections_view(hunks@), selected@),
            old.trailing_newline,
        ),
{
    let ghost lines = text::views_of(old.lines@);
    let ghost sections = sections_view(hunks@);
    let mut result: Vec<String> = Vec::new();
    let mut cursor: usize = 0;
    let mut index: usize = 0;
    assert(text::views_of(result@) =~= Seq::empty());
    while index < hunks.len()
        invariant
            index <= hunks@.len(),
            lines == text::views_of(old.lines@),
            sections == sections_view(hunks@),
            cursor <= old.lines@.len(),
            (Progress { lines: text::views_of(result@), cursor: cursor as int }) == apply_sections(
                lines,
                sections,
                selected@,
                index as nat,
            ),
        decreases hunks@.len() - index,
    {
        let hunk = &hunks[index];
        let ghost section = sections[index as int];
        assert(section == hunk@);
        let start = if hunk.old_lines == 0 || hunk.old_start == 0 {
            hunk.old_start as usize
        } else {
            (hunk.old_start - 1) as usize
        };
        let ghost entered = Progress { lines: text::views_of(result@), cursor: cursor as int };
        while cursor < start && cursor < old.lines.len()
            invariant
                lines == text::views_of(old.lines@),
                cursor <= old.lines@.len(),
                keep_until(lines, entered, start as int) == keep_until(
                    lines,
                    (Progress { lines: text::views_of(result@), cursor: cursor as int }),
                    start as int,
                ),
            decreases old.lines@.len() - cursor,
        {
            let ghost held = result@;
            result.push(old.lines[cursor].clone());
            assert(text::views_of(result@) =~= text::views_of(held).push(lines[cursor as int]));
            cursor += 1;
        }
        let ghost base = Progress { lines: text::views_of(result@), cursor: cursor as int };
        assert(base == keep_until(lines, entered, section_start(section)));
        let mut position: usize = 0;
        while position < hunk.lines.len()
            invariant
                lines == text::views_of(old.lines@),
                index < hunks@.len(),
                section == hunk@,
                position <= hunk.lines@.len(),
                cursor <= old.lines@.len(),
                (Progress { lines: text::views_of(result@), cursor: cursor as int })
                    == apply_lines(
                    lines,
                    base,
                    section.lines,
                    index as int,
                    selected@,
                    position as nat,
                ),
            decreases hunk.lines@.len() - position,
        {
            let line = &hunk.lines[position];
            assert(section.lines[position as int] == line@);
            let ghost held = result@;
            match line.kind {
                LineKind::Context => {
                    if cursor < old.lines.len() {
                        result.push(old.lines[cursor].clone());
                        cursor += 1;
                        assert(text::views_of(result@) =~= text::views_of(held).push(
                            lines[cursor - 1],
                        ));
                    }
                }
                LineKind::Removed => {
                    if is_picked(selected, index, position) {
                        if cursor < old.lines.len() {
                            cursor += 1;
                        }
                    } else if cursor < old.lines.len() {
                        result.push(old.lines[cursor].clone());
                        cursor += 1;
                        assert(text::views_of(result@) =~= text::views_of(held).push(
                            lines[cursor - 1],
                        ));
                    }
                }
                LineKind::Added => {
                    if is_picked(selected, index, position) {
                        result.push(line.content.clone());
                        assert(text::views_of(result@) =~= text::views_of(held).push(
                            line.content@,
                        ));
                    }
                }
            }
            position += 1;
        }
        index += 1;
    }
    let ghost end = apply_sections(lines, sections, selected@, sections.len());
    let ghost made = text::views_of(result@);
    assert(made + lines.subrange(cursor as int, cursor as int) =~= made);
    let ghost first = cursor as int;
    while cursor < old.lines.len()
        invariant
            lines == text::views_of(old.lines@),
            0 <= first <= cursor <= old.lines@.len(),
            text::views_of(result@) == made + lines.subrange(first, cursor as int),
        decreases old.lines@.len() - cursor,
    {
        let ghost held = result@;
        result.push(old.lines[cursor].clone());
        cursor += 1;
        assert(text::views_of(result@) =~= text::views_of(held).push(lines[cursor - 1]));
        assert(text::views_of(result@) =~= made + lines.subrange(first, cursor as int));
    }
    assert(lines.subrange(first, cursor as int) =~= lines.skip(first));
    Content::render(&result, old.trailing_newline)
}

/// The changed lines among the first `count` of a section that are not picked.
pub open spec fn rest_of_lines(
    lines: Seq<Line>,
    hunk: int,
    selected: Seq<LineRef>,
    count: nat,
) -> Seq<LineRef>
    decreases count,
{
    if count == 0 {
        Seq::empty()
    } else {
        let before = rest_of_lines(lines, hunk, selected, (count - 1) as nat);
        if lines[count - 1].kind != LineKind::Context && !picked(selected, hunk, count - 1) {
            before.push(LineRef { hunk: hunk as usize, line: (count - 1) as usize })
        } else {
            before
        }
    }
}

/// The changed lines of the first `count` sections that are not picked.
pub open spec fn rest_of(sections: Seq<Section>, selected: Seq<LineRef>, count: nat) -> Seq<LineRef>
    decreases count,
{
    if count == 0 {
        Seq::empty()
    } else {
        let lines = sections[count - 1].lines;
        rest_of(sections, selected, (count - 1) as nat) + rest_of_lines(
            lines,
            count - 1,
            selected,
            lines.len(),
        )
    }
}

/// The changed lines that are not picked.
pub fn unpicked(hunks: &Vec<Hunk>, selected: &Vec<LineRef>) -> (r: Vec<LineRef>)
    ensures
        r@ == rest_of(sections_view(hunks@), selected@, hunks@.len()),
{
    let ghost sections = sections_view(hunks@);
    let mut keep: Vec<LineRef> = Vec::new();
    let mut index: usize = 0;
    while index < hunks.len()
        invariant
            index <= hunks@.len(),
            sections == sections_view(hunks@),
            keep@ == rest_of(sections, selected@, index as nat),
        decreases hunks@.len() - index,
    {
        let hunk = &hunks[index];
        let ghost lines = sections[index as int].lines;
        let ghost held = keep@;
        let mut position: usize = 0;
        assert(held + rest_of_lines(lines, index as int, selected@, 0) =~= held);
        while position < hunk.lines.len()
            invariant
                index < hunks@.len(),
                lines == hunk@.lines,
                position <= hunk.lines@.len(),
                keep@ == held + rest_of_lines(lines, index as int, selected@, position as nat),
            decreases hunk.lines@.len() - position,
        {
            assert(lines[position as int] == hunk.lines@[position as int]@);
            let changed = hunk.lines[position].kind != LineKind::Context;
            if changed && !is_picked(selected, index, position) {
                keep.push(LineRef { hunk: index, line: position });
            }
            position += 1;
            assert(keep@ =~= held + rest_of_lines(lines, index as int, selected@, position as nat));
        }
        index += 1;
    }
    keep
}

/// Whether lines are put into the index or taken out of it.
#[derive(Debug, Clone, Copy, PartialEq, Eq, Structural)]
pub enum SelectKind {
    Stage,
    Unstage,
}

/// Staging or unstaging picked lines: which reply is awaited.
#[derive(Debug)]
pub enum Selecting {
    Deltas { kind: SelectKind, path: String, selected: Vec<LineRef> },
    File { kind: SelectKind, path: String, selected: Vec<LineRef>, hunks: Vec<Hunk> },
}

/// The first file listed under a path.
pub open spec fn file_at(files: Seq<ChangedFile>, path: Seq<char>) -> Option<ChangedFile>
    decreases files.len(),
{
    if files.len() == 0 {
        None
    } else if files[0].path == path {
        Some(files[0])
    } else {
        file_at(files.drop_first(), path)
    }
}

pub open spec fn no_changes_text(kind: SelectKind, path: Seq<char>) -> Seq<char> {
    match kind {
        SelectKind::Stage => path + " 沒有未暫存的變更"@,
        SelectKind::Unstage => path + " 沒有已暫存的變更"@,
    }
}

pub open spec fn binary_text(kind: SelectKind, path: Seq<char>) -> Seq<char> {
    match kind {
        SelectKind::Stage => path + " 是二進位檔案，只能整檔暫存"@,
        SelectKind::Unstage => path + " 是二進位檔案，只能整檔取消暫存"@,
    }
}

pub open spec fn selected_text(kind: SelectKind, path: Seq<char>, count: nat) -> Seq<char> {
    match kind {
        SelectKind::Stage => "已暫存 "@ + path + " 的 "@ + decimal_digits(count) + " 行"@,
        SelectKind::Unstage => "已取消暫存 "@ + path + " 的 "@ + decimal_digits(count) + " 行"@,
    }
}

/// The text of a file that may not be there.
pub open spec fn file_text(bytes: Option<Vec<u8>>) -> Seq<char> {
    match bytes {
        Some(bytes) => lossy_text(bytes@),
        None => Seq::empty(),
    }
}

/// What the index is to hold: the picked changes on top of what it has, or all changes
/// but the picked ones on top of what HEAD has.
pub open spec fn new_index_text(
    kind: SelectKind,
    old: Seq<char>,
    sections: Seq<Section>,
    selected: Seq<LineRef>,
) -> Seq<char> {
    rendered(
        selection_applied(
            lines_of(old),
            sections,
            match kind {
                SelectKind::Stage => selected,
                SelectKind::Unstage => rest_of(sections, selected, sections.len()),
            },
        ),
        ends_with(old, '\n'),
    )
}

/// Whether a step asks for the version of a file that lines are applied to.
pub open spec fn reads_old_version(
    step: Step,
    kind: SelectKind,
    path: String,
    selected: Vec<LineRef>,
    sections: Seq<Section>,
) -> bool {
    step matches Step::Ask(
        Operation::Select(Selecting::File { kind: next, path: named, selected: kept, hunks }),
        request,
    ) && next == kind && named == path && kept == selected && sections_view(hunks@) == sections
        && request == match kind {
        SelectKind::Stage => Request::ReadIndexFile { path },
        SelectKind::Unstage => Request::ReadHeadFile { path },
    }
}

/// Whether a step writes a file to the index and reports it.
pub open spec fn writes_index(
    step: Step,
    path: String,
    content: Seq<char>,
    message: Seq<char>,
) -> bool {
    step matches Step::Ask(Operation::Plan(rest), Request::WriteIndexFile {
        path: written,
        content: text,
    }) && written == path && text@ == content && rest.steps@.len() == 0 && rest.outcome.undo is None
        && rest.outcome.message@ == message
}

fn find_file(files: Vec<FileDiff>, path: &str) -> (r: Option<FileDiff>)
    ensures
        match r {
            Some(file) => file_at(files_view(files@), path@) == Some(file@),
            None => file_at(files_view(files@), path@) is None,
        },
{
    let ghost views = files_view(files@);
    assert(views.skip(0) =~= views);
    for file in rest: files
        invariant
            rest.seq() == files@,
            views == files_view(files@),
            file_at(views, path@) == file_at(views.skip(rest.index() as int), path@),
    {
        let ghost index = rest.index() as int;
        assert(views.skip(index)[0] == file@);
        if text::same(file.path.as_str(), path) {
            return Some(file);
        }
        assert(views.skip(index).drop_first() =~= views.skip(index + 1));
    }
    None
}

impl Selecting {
    /// Whether the reply answers the request that was made.
    pub open spec fn expects(self, reply: Reply) -> bool {
        match self {
            Selecting::Deltas { .. } => {
                &&& reply is Deltas
                &&& forall|i: int|
                    0 <= i < reply->Deltas_0@.len() ==> counts_fit(#[trigger] reply->Deltas_0@[i])
            },
            Selecting::File { .. } => reply is File,
        }
    }

    /// What follows a reply.
    pub open spec fn leads_to(self, reply: Reply, step: Step) -> bool {
        match (self, reply) {
            (Selecting::Deltas { kind, path, selected }, Reply::Deltas(deltas)) => {
                match file_at(files_of(deltas@), path@) {
                    None => refuses(step, no_changes_text(kind, path@)),
                    Some(file) => if file.is_binary {
                        refuses(step, binary_text(kind, path@))
                    } else {
                        reads_old_version(step, kind, path, selected, file.sections)
                    },
                }
            },
            (Selecting::File { kind, path, selected, hunks }, Reply::File(bytes)) => writes_index(
                step,
                path,
                new_index_text(kind, file_text(bytes), sections_view(hunks@), selected@),
                selected_text(kind, path@, selected@.len()),
            ),
            _ => true,
        }
    }

    pub fn advance(self, reply: Reply) -> (r: Step)
        requires
            self.expects(reply),
        ensures
            self.leads_to(reply, r),
    {
        match (self, reply) {
            (Selecting::Deltas { kind, path, selected }, Reply::Deltas(deltas)) => {
                let files = build_file_diffs(&deltas);
                match find_file(files, path.as_str()) {
                    None => {
                        let message = match kind {
                            SelectKind::Stage => " 沒有未暫存的變更",
                            SelectKind::Unstage => " 沒有已暫存的變更",
                        };
                        ops::refuse(text::plus(path, message).as_str())
                    }
                    Some(file) => {
                        if file.is_binary {
                            let message = match kind {
                                SelectKind::Stage => " 是二進位檔案，只能整檔暫存",
                                SelectKind::Unstage => " 是二進位檔案，只能整檔取消暫存",
                            };
                            return ops::refuse(text::plus(path, message).as_str());
                        }
                        let request = match kind {
                            SelectKind::Stage => Request::ReadIndexFile { path: path.clone() },
                            SelectKind::Unstage => Request::ReadHeadFile { path: path.clone() },
                        };
                        let next = Selecting::File { kind, path, selected, hunks: file.hunks };
                        Step::Ask(Operation::Select(next), request)
                    }
                }
            }
            (Selecting::File { kind, path, selected, hunks }, Reply::File(bytes)) => {
                let old = match &bytes {
                    Some(bytes) => text::decode_lossy(bytes.as_slice()),
                    None => String::new(),
                };
                assert(old@ =~= file_text(bytes));
                let content = Content::parse(old.as_str());
                let applied = match kind {
                    SelectKind::Stage => apply_selection(&content, &hunks, &selected),
                    SelectKind::Unstage => {
                        let keep = unpicked(&hunks, &selected);
                        apply_selection(&content, &hunks, &keep)
                    }
                };
                let verb = match kind {
                    SelectKind::Stage => "已暫存 ",
                    SelectKind::Unstage => "已取消暫存 ",
                };
                let message = text::plus(verb.to_owned(), path.as_str());
                let message = text::plus(message, " 的 ");
                let message = text::plus(message, text::decimal(selected.len() as u64).as_str());
                let message = text::plus(message, " 行");
                let outcome = OpOutcome { message, undo: None };
                Step::Ask(
                    Operation::Plan(Plan { steps: Vec::new(), outcome }),
                    Request::WriteIndexFile { path, content: applied },
                )
            }
            _ => vstd::pervasive::unreached(),
        }
    }
}

/// What staging or unstaging picked lines begins with.
pub open spec fn begins_selecting(
    step: Step,
    kind: SelectKind,
    path: Seq<char>,
    selected: Vec<LineRef>,
) -> bool {
    if selected@.len() == 0 {
        refuses(step, "沒有選取任何一行"@)
    } else {
        step matches Step::Ask(
            Operation::Select(Selecting::Deltas { kind: next, path: named, selected: kept }),
            Request::ReadDeltas { source },
        ) && next == kind && named@ == path && kept == selected && source == match kind {
            SelectKind::Stage => DiffSource::Unstaged,
            SelectKind::Unstage => DiffSource::Staged,
        }
    }
}

fn begin_selecting(kind: SelectKind, path: &str, selected: Vec<LineRef>) -> (r: Step)
    ensures
        begins_selecting(r, kind, path@, selected),
{
    if selected.len() == 0 {
        return ops::refuse("沒有選取任何一行");
    }
    let source = match kind {
        SelectKind::Stage => DiffSource::Unstaged,
        SelectKind::Unstage => DiffSource::Staged,
    };
    Step::Ask(
        Operation::Select(Selecting::Deltas { kind, path: path.to_owned(), selected }),
        Request::ReadDeltas { source },
    )
}

/// Stages the picked lines of a file.
pub fn stage_selection(path: &str, selected: Vec<LineRef>) -> (r: Step)
    ensures
        is_start(r),
        begins_selecting(r, SelectKind::Stage, path@, selected),
{
    begin_selecting(SelectKind::Stage, path, selected)
}

/// Takes the picked lines of a file out of the index.
pub fn unstage_selection(path: &str, selected: Vec<LineRef>) -> (r: Step)
    ensures
        is_start(r),
        begins_selecting(r, SelectKind::Unstage, path@, selected),
{
    begin_selecting(SelectKind::Unstage, path, selected)
}

} // verus!
