//! What holds of the differences that are built from a comparison.
use vstd::prelude::*;

use crate::diff::{all_annotated, ChangedFile};
use crate::patch::{
    collides, count_in_sections, file_of, files_of, marked_file, overlap, plain_lines,
    touched_lines, RawDelta, RawHunk, RawLine,
};
use crate::text::lossy_text;
use crate::text_laws::trimming_takes_the_whole_run;

verus! {

/// Whether a text is another without the run of line feeds at its end.
pub open spec fn loses_line_feeds(short: Seq<char>, long: Seq<char>) -> bool {
    &&& short.len() <= long.len()
    &&& short == long.take(short.len() as int)
    &&& forall|i: int| short.len() <= i < long.len() ==> #[trigger] long[i] == '\n'
    &&& short.len() > 0 ==> short.last() != '\n'
}

/// Each line of a difference is one that was read: added or removed by its sign, with its
/// text but for the line feeds, and with its numbers in both versions.
pub proof fn lines_are_those_that_were_read(delta: RawDelta, h: int, l: int)
    requires
        delta.hunks is Some,
        0 <= h < delta.hunks->0@.len(),
        0 <= l < delta.hunks->0@[h].lines@.len(),
    ensures
        ({
            let raw = delta.hunks->0@[h];
            let section = file_of(delta).sections[h];
            let line = section.lines[l];
            let read = raw.lines@[l];
            &&& file_of(delta).sections.len() == delta.hunks->0@.len()
            &&& section.lines.len() == raw.lines@.len()
            &&& section.old_start == raw.old_start
            &&& section.old_lines == raw.old_lines
            &&& section.new_start == raw.new_start
            &&& section.new_lines == raw.new_lines
            &&& !section.collides_with_incoming
            &&& loses_line_feeds(section.header, lossy_text(raw.header@))
            &&& loses_line_feeds(line.content, lossy_text(read.content@))
            &&& line.old_lineno == read.old_lineno
            &&& line.new_lineno == read.new_lineno
            &&& line.kind is Added <==> read.origin == '+'
            &&& line.kind is Removed <==> read.origin == '-'
            &&& section.lines == all_annotated(plain_lines(raw.lines@))
        }),
{
    let raw = delta.hunks->0@[h];
    trimming_takes_the_whole_run(lossy_text(raw.header@), '\n');
    trimming_takes_the_whole_run(lossy_text(raw.lines@[l].content@), '\n');
    assert(all_annotated(plain_lines(raw.lines@)).len() == raw.lines@.len());
}

/// Before lines are compared with each other, none has a counterpart or a marked range.
pub proof fn lines_start_out_unpaired(lines: Seq<RawLine>, l: int)
    requires
        0 <= l < lines.len(),
    ensures
        plain_lines(lines).len() == lines.len(),
        plain_lines(lines)[l].pair is None,
        plain_lines(lines)[l].spans.len() == 0,
        !plain_lines(lines)[l].whitespace_only,
        plain_lines(lines)[l].kind is Added <==> lines[l].origin == '+',
        plain_lines(lines)[l].kind is Removed <==> lines[l].origin == '-',
        loses_line_feeds(plain_lines(lines)[l].content, lossy_text(lines[l].content@)),
{
    trimming_takes_the_whole_run(lossy_text(lines[l].content@), '\n');
}

/// All lines of a file, section by section.
pub open spec fn all_lines(hunks: Seq<RawHunk>) -> Seq<RawLine> {
    hunks.map_values(|hunk: RawHunk| hunk.lines@).flatten()
}

proof fn lemma_count_in_sections(hunks: Seq<RawHunk>, origin: char, count: nat)
    requires
        count <= hunks.len(),
    ensures
        count_in_sections(hunks, origin, count) == all_lines(hunks.take(count as int)).filter(
            |line: RawLine| line.origin == origin,
        ).len(),
    decreases count,
{
    let wanted = |line: RawLine| line.origin == origin;
    let view = |hunk: RawHunk| hunk.lines@;
    let parts = hunks.take(count as int).map_values(view);
    parts.lemma_flatten_and_flatten_alt_are_equivalent();
    if count > 0 {
        let less = (count - 1) as nat;
        lemma_count_in_sections(hunks, origin, less);
        let fewer = hunks.take(less as int).map_values(view);
        fewer.lemma_flatten_and_flatten_alt_are_equivalent();
        assert(parts.drop_last() =~= fewer);
        assert(parts.last() == hunks[less as int].lines@);
        Seq::filter_distributes_over_add(fewer.flatten(), hunks[less as int].lines@, wanted);
        assert(parts.flatten() =~= fewer.flatten() + hunks[less as int].lines@);
    } else {
        reveal(Seq::filter);
        assert(parts =~= Seq::empty());
    }
}

/// A file is listed under its new path, or else under its old one, with the old one where it
/// is another. It counts all lines that were added and all that were removed; a binary file
/// counts none.
pub proof fn files_are_those_that_were_read(delta: RawDelta)
    ensures
        ({
            let file = file_of(delta);
            &&& delta.new_path matches Some(path) ==> file.path == lossy_text(path@)
            &&& delta.new_path is None && delta.old_path is Some ==> file.path == lossy_text(
                delta.old_path->0@,
            )
            &&& delta.new_path is None && delta.old_path is None ==> file.path.len() == 0
            &&& file.old_path is Some <==> delta.old_path is Some && lossy_text(delta.old_path->0@)
                != file.path
            &&& file.old_path matches Some(path) ==> path == lossy_text(delta.old_path->0@)
            &&& file.is_binary <==> delta.hunks is None
            &&& delta.hunks matches Some(hunks) ==> {
                &&& file.added == all_lines(hunks@).filter(|line: RawLine| line.origin == '+').len()
                &&& file.removed == all_lines(hunks@).filter(
                    |line: RawLine| line.origin == '-',
                ).len()
            }
            &&& delta.hunks is None ==> file.added == 0 && file.removed == 0 && file.sections.len()
                == 0
        }),
{
    if let Some(hunks) = delta.hunks {
        lemma_count_in_sections(hunks@, '+', hunks@.len());
        lemma_count_in_sections(hunks@, '-', hunks@.len());
        assert(hunks@.take(hunks@.len() as int) =~= hunks@);
    }
}

/// Every file of a comparison is shown, in the order in which they come.
pub proof fn every_file_is_shown(deltas: Seq<RawDelta>, i: int)
    requires
        0 <= i < deltas.len(),
    ensures
        files_of(deltas).len() == deltas.len(),
        files_of(deltas)[i] == file_of(deltas[i]),
{
}

/// A section is marked exactly if what comes in touches one of its lines, or one next to
/// them. Nothing else of a file changes by that, and a file that nothing comes in for is
/// left as it is.
pub proof fn marks_tell_of_common_lines(
    file: ChangedFile,
    incoming: Map<Seq<char>, Seq<(u32, u32)>>,
    h: int,
)
    requires
        0 <= h < file.sections.len(),
        file.sections[h].old_start + file.sections[h].old_lines <= u32::MAX,
    ensures
        ({
            let marked = marked_file(file, incoming);
            let (before, after) = (file.sections[h], marked.sections[h]);
            let first = before.old_start as int;
            let last = before.old_start + before.old_lines;
            &&& marked.path == file.path
            &&& marked.old_path == file.old_path
            &&& marked.is_binary == file.is_binary
            &&& marked.added == file.added
            &&& marked.removed == file.removed
            &&& marked.sections.len() == file.sections.len()
            &&& after.header == before.header
            &&& after.old_start == before.old_start
            &&& after.old_lines == before.old_lines
            &&& after.new_start == before.new_start
            &&& after.new_lines == before.new_lines
            &&& after.lines == before.lines
            &&& !incoming.dom().contains(file.path) ==> after == before
            &&& incoming.dom().contains(file.path) ==> (after.collides_with_incoming
                <==> exists|i: int|
                0 <= i < incoming[file.path].len() && first <= (#[trigger] incoming[file.path][i]).1
                    && incoming[file.path][i].0 <= last)
        }),
{
    let section = file.sections[h];
    if incoming.dom().contains(file.path) {
        let ranges = incoming[file.path];
        let span = (section.old_start, (section.old_start + section.old_lines) as u32);
        if collides(section, ranges) {
            let i = choose|i: int| 0 <= i < ranges.len() && overlap(span, #[trigger] ranges[i]);
            assert(section.old_start <= ranges[i].1 && ranges[i].0 <= span.1);
        }
        if exists|i: int|
            0 <= i < ranges.len() && section.old_start <= (#[trigger] ranges[i]).1 && ranges[i].0
                <= section.old_start + section.old_lines {
            let i = choose|i: int|
                0 <= i < ranges.len() && section.old_start <= (#[trigger] ranges[i]).1
                    && ranges[i].0 <= section.old_start + section.old_lines;
            assert(overlap(span, ranges[i]));
        }
    }
}

/// The path that incoming changes to a file go by: the old one, or else the new one.
pub open spec fn path_before(delta: RawDelta) -> Option<Seq<char>> {
    if delta.old_path is Some {
        Some(lossy_text(delta.old_path->0@))
    } else if delta.new_path is Some {
        Some(lossy_text(delta.new_path->0@))
    } else {
        None
    }
}

/// What comes in is known by files: each file with sections is there under the path that it
/// had, with the old line numbers of all its sections, and no other file is there. Where a
/// path comes twice, the later one counts.
pub proof fn incoming_lines_are_those_of_the_sections(
    deltas: Seq<RawDelta>,
    count: nat,
    path: Seq<char>,
)
    requires
        count <= deltas.len(),
    ensures
        touched_lines(deltas, count).dom().contains(path) <==> exists|i: int|
            #![trigger deltas[i]]
            0 <= i < count && deltas[i].hunks is Some && path_before(deltas[i]) == Some(path),
        forall|i: int|
            #![trigger deltas[i]]
            0 <= i < count && deltas[i].hunks is Some && path_before(deltas[i]) == Some(path) && (
            forall|j: int|
                #![trigger deltas[j]]
                i < j < count ==> deltas[j].hunks is None || path_before(deltas[j]) != Some(path))
                ==> {
                let (hunks, ranges) = (deltas[i].hunks->0@, touched_lines(deltas, count)[path]);
                &&& ranges.len() == hunks.len()
                &&& forall|h: int|
                    0 <= h < hunks.len() ==> (#[trigger] ranges[h]).0 == hunks[h].old_start && (
                    hunks[h].old_start + hunks[h].old_lines <= u32::MAX ==> ranges[h].1
                        == hunks[h].old_start + hunks[h].old_lines)
            },
    decreases count,
{
    if count > 0 {
        let less = (count - 1) as nat;
        incoming_lines_are_those_of_the_sections(deltas, less, path);
        let last = deltas[less as int];
        if last.hunks is Some && path_before(last) == Some(path) {
            assert(touched_lines(deltas, count).dom().contains(path));
        } else {
            assert(touched_lines(deltas, count).dom().contains(path) <==> touched_lines(
                deltas,
                less,
            ).dom().contains(path));
            assert forall|i: int|
                #![trigger deltas[i]]
                0 <= i < count && deltas[i].hunks is Some && path_before(deltas[i]) == Some(path)
                    && (forall|j: int|
                    #![trigger deltas[j]]
                    i < j < count ==> deltas[j].hunks is None || path_before(deltas[j]) != Some(
                        path,
                    )) implies {
                let (hunks, ranges) = (deltas[i].hunks->0@, touched_lines(deltas, count)[path]);
                &&& ranges.len() == hunks.len()
                &&& forall|h: int|
                    0 <= h < hunks.len() ==> (#[trigger] ranges[h]).0 == hunks[h].old_start && (
                    hunks[h].old_start + hunks[h].old_lines <= u32::MAX ==> ranges[h].1
                        == hunks[h].old_start + hunks[h].old_lines)
            } by {
                assert(i < less);
                assert(touched_lines(deltas, count)[path] == touched_lines(deltas, less)[path]);
            }
        }
    }
}

} // verus!
