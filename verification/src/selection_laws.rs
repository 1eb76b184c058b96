//! What holds of applying picked lines.
use vstd::prelude::*;

use crate::diff::{Line, LineKind, Section};
use crate::selection::{
    apply_lines, apply_sections, keep_line, keep_until, new_index_text, picked, rendered, rest_of,
    rest_of_lines, section_start, selection_applied, LineRef, Progress, SelectKind,
};
use crate::text::{
    ends_with, first_index, first_index_is_first, joined_lines, lines_of, without_return,
};

verus! {

/// Whether no changed line is picked.
pub open spec fn picks_no_change(sections: Seq<Section>, selected: Seq<LineRef>) -> bool {
    forall|hunk: int, line: int|
        #![trigger sections[hunk].lines[line]]
        0 <= hunk < sections.len() && 0 <= line < sections[hunk].lines.len()
            && sections[hunk].lines[line].kind != LineKind::Context ==> !picked(
            selected,
            hunk,
            line,
        )
}

/// Whether every changed line is picked.
pub open spec fn picks_every_change(sections: Seq<Section>, selected: Seq<LineRef>) -> bool {
    forall|hunk: int, line: int|
        #![trigger sections[hunk].lines[line]]
        0 <= hunk < sections.len() && 0 <= line < sections[hunk].lines.len()
            && sections[hunk].lines[line].kind != LineKind::Context ==> picked(
            selected,
            hunk,
            line,
        )
}

/// So far the old version has been copied.
spec fn is_copy(old: Seq<Seq<char>>, at: Progress) -> bool {
    0 <= at.cursor <= old.len() && at.lines == old.take(at.cursor)
}

proof fn lemma_keep_line_copies(old: Seq<Seq<char>>, at: Progress)
    requires
        is_copy(old, at),
    ensures
        is_copy(old, keep_line(old, at)),
{
    if at.cursor < old.len() {
        assert(old.take(at.cursor).push(old[at.cursor]) =~= old.take(at.cursor + 1));
    }
}

proof fn lemma_keep_until_copies(old: Seq<Seq<char>>, at: Progress, end: int)
    requires
        is_copy(old, at),
    ensures
        is_copy(old, keep_until(old, at, end)),
    decreases end - at.cursor,
{
    if at.cursor < end && at.cursor < old.len() {
        lemma_keep_line_copies(old, at);
        lemma_keep_until_copies(old, keep_line(old, at), end);
    }
}

proof fn lemma_lines_copy(
    old: Seq<Seq<char>>,
    at: Progress,
    sections: Seq<Section>,
    hunk: int,
    selected: Seq<LineRef>,
    count: nat,
)
    requires
        is_copy(old, at),
        picks_no_change(sections, selected),
        0 <= hunk < sections.len(),
        count <= sections[hunk].lines.len(),
    ensures
        is_copy(old, apply_lines(old, at, sections[hunk].lines, hunk, selected, count)),
    decreases count,
{
    if count > 0 {
        let less = (count - 1) as nat;
        let lines = sections[hunk].lines;
        lemma_lines_copy(old, at, sections, hunk, selected, less);
        let before = apply_lines(old, at, lines, hunk, selected, less);
        lemma_keep_line_copies(old, before);
        assert(sections[hunk].lines[less as int] == lines[less as int]);
    }
}

proof fn lemma_sections_copy(
    old: Seq<Seq<char>>,
    sections: Seq<Section>,
    selected: Seq<LineRef>,
    count: nat,
)
    requires
        picks_no_change(sections, selected),
        count <= sections.len(),
    ensures
        is_copy(old, apply_sections(old, sections, selected, count)),
    decreases count,
{
    if count > 0 {
        let less = (count - 1) as nat;
        lemma_sections_copy(old, sections, selected, less);
        let before = apply_sections(old, sections, selected, less);
        let section = sections[less as int];
        lemma_keep_until_copies(old, before, section_start(section));
        lemma_lines_copy(
            old,
            keep_until(old, before, section_start(section)),
            sections,
            less as int,
            selected,
            section.lines.len(),
        );
    } else {
        assert(old.take(0) =~= Seq::empty());
    }
}

/// Picking no change leaves the old version as it is, whatever the sections say.
pub proof fn picking_nothing_changes_nothing(
    old: Seq<Seq<char>>,
    sections: Seq<Section>,
    selected: Seq<LineRef>,
)
    requires
        picks_no_change(sections, selected),
    ensures
        selection_applied(old, sections, selected) == old,
{
    lemma_sections_copy(old, sections, selected, sections.len());
    let end = apply_sections(old, sections, selected, sections.len());
    assert(old.take(end.cursor) + old.skip(end.cursor) =~= old);
}

/// The lines of the old version that a section covers.
pub open spec fn old_side(lines: Seq<Line>, count: nat) -> Seq<Seq<char>>
    decreases count,
{
    if count == 0 {
        Seq::empty()
    } else {
        let before = old_side(lines, (count - 1) as nat);
        if lines[count - 1].kind is Added {
            before
        } else {
            before.push(lines[count - 1].content)
        }
    }
}

/// The lines of the new version that a section covers.
pub open spec fn new_side(lines: Seq<Line>, count: nat) -> Seq<Seq<char>>
    decreases count,
{
    if count == 0 {
        Seq::empty()
    } else {
        let before = new_side(lines, (count - 1) as nat);
        if lines[count - 1].kind is Removed {
            before
        } else {
            before.push(lines[count - 1].content)
        }
    }
}

/// Where the first `count` sections end, in the old version and in the new one.
pub open spec fn covered(sections: Seq<Section>, count: nat) -> (int, int)
    decreases count,
{
    if count == 0 {
        (0, 0)
    } else {
        let (old_end, new_end) = covered(sections, (count - 1) as nat);
        let section = sections[count - 1];
        let start = section_start(section);
        (
            start + old_side(section.lines, section.lines.len()).len(),
            new_end + (start - old_end) + new_side(section.lines, section.lines.len()).len(),
        )
    }
}

/// Whether section number `index` takes the old version to the new one: what comes before
/// it is the same in both, and its two sides are what the versions hold there.
pub open spec fn section_fits(
    old: Seq<Seq<char>>,
    new: Seq<Seq<char>>,
    sections: Seq<Section>,
    index: int,
) -> bool {
    let (old_from, new_from) = covered(sections, index as nat);
    let (old_to, new_to) = covered(sections, (index + 1) as nat);
    let section = sections[index];
    let start = section_start(section);
    let new_start = new_from + (start - old_from);
    &&& 0 <= old_from <= start
    &&& 0 <= new_from
    &&& old_to <= old.len()
    &&& new_to <= new.len()
    &&& old.subrange(old_from, start) == new.subrange(new_from, new_start)
    &&& old.subrange(start, old_to) == old_side(section.lines, section.lines.len())
    &&& new.subrange(new_start, new_to) == new_side(section.lines, section.lines.len())
}

/// Whether the sections are a difference of the two versions.
pub open spec fn is_difference(
    old: Seq<Seq<char>>,
    new: Seq<Seq<char>>,
    sections: Seq<Section>,
) -> bool {
    let (old_end, new_end) = covered(sections, sections.len());
    &&& forall|index: int| 0 <= index < sections.len() ==> #[trigger] section_fits(
        old,
        new,
        sections,
        index,
    )
    &&& old_end <= old.len()
    &&& new_end <= new.len()
    &&& old.skip(old_end) == new.skip(new_end)
}

proof fn lemma_keep_until(old: Seq<Seq<char>>, at: Progress, end: int)
    requires
        0 <= at.cursor <= end <= old.len(),
    ensures
        keep_until(old, at, end) == (Progress {
            lines: at.lines + old.subrange(at.cursor, end),
            cursor: end,
        }),
    decreases end - at.cursor,
{
    if at.cursor < end {
        let next = keep_line(old, at);
        lemma_keep_until(old, next, end);
        assert(next.lines + old.subrange(next.cursor, end) =~= at.lines + old.subrange(
            at.cursor,
            end,
        ));
    } else {
        assert(at.lines + old.subrange(at.cursor, end) =~= at.lines);
    }
}

proof fn lemma_old_side_grows(lines: Seq<Line>, a: nat, b: nat)
    requires
        a <= b,
    ensures
        old_side(lines, a).len() <= old_side(lines, b).len(),
        old_side(lines, a) == old_side(lines, b).take(old_side(lines, a).len() as int),
    decreases b,
{
    if a < b {
        lemma_old_side_grows(lines, a, (b - 1) as nat);
        let shorter = old_side(lines, (b - 1) as nat);
        let n = old_side(lines, a).len() as int;
        assert(old_side(lines, b).take(n) =~= shorter.take(n));
    } else {
        assert(old_side(lines, b).take(old_side(lines, b).len() as int) =~= old_side(lines, b));
    }
}

proof fn lemma_all_lines(
    old: Seq<Seq<char>>,
    at: Progress,
    sections: Seq<Section>,
    hunk: int,
    selected: Seq<LineRef>,
    count: nat,
)
    requires
        picks_every_change(sections, selected),
        0 <= hunk < sections.len(),
        count <= sections[hunk].lines.len(),
        0 <= at.cursor,
        at.cursor + old_side(sections[hunk].lines, sections[hunk].lines.len()).len() <= old.len(),
        old.subrange(
            at.cursor,
            at.cursor + old_side(sections[hunk].lines, sections[hunk].lines.len()).len(),
        ) == old_side(sections[hunk].lines, sections[hunk].lines.len()),
    ensures
        apply_lines(old, at, sections[hunk].lines, hunk, selected, count) == (Progress {
            lines: at.lines + new_side(sections[hunk].lines, count),
            cursor: at.cursor + old_side(sections[hunk].lines, count).len(),
        }),
    decreases count,
{
    let lines = sections[hunk].lines;
    let now = apply_lines(old, at, lines, hunk, selected, count);
    if count > 0 {
        let less = (count - 1) as nat;
        lemma_all_lines(old, at, sections, hunk, selected, less);
        let line = lines[less as int];
        assert(sections[hunk].lines[less as int] == line);
        let used = old_side(lines, less).len();
        let all = old_side(lines, lines.len());
        lemma_old_side_grows(lines, less, count);
        lemma_old_side_grows(lines, count, lines.len());
        if !(line.kind is Added) {
            assert(old_side(lines, count).len() == used + 1);
            assert(all[used as int] == old_side(lines, count)[used as int]);
            assert(old.subrange(at.cursor, at.cursor + all.len())[used as int] == old[at.cursor
                + used]);
            assert(old[at.cursor + used] == line.content);
        }
        assert(now.lines =~= at.lines + new_side(lines, count));
    } else {
        assert(at.lines + new_side(lines, 0) =~= at.lines);
    }
}

proof fn lemma_all_sections(
    old: Seq<Seq<char>>,
    new: Seq<Seq<char>>,
    sections: Seq<Section>,
    selected: Seq<LineRef>,
    count: nat,
)
    requires
        is_difference(old, new, sections),
        picks_every_change(sections, selected),
        count <= sections.len(),
    ensures
        0 <= covered(sections, count).0 <= old.len(),
        0 <= covered(sections, count).1 <= new.len(),
        apply_sections(old, sections, selected, count) == (Progress {
            lines: new.take(covered(sections, count).1),
            cursor: covered(sections, count).0,
        }),
    decreases count,
{
    if count > 0 {
        let less = (count - 1) as nat;
        lemma_all_sections(old, new, sections, selected, less);
        assert(section_fits(old, new, sections, less as int));
        let section = sections[less as int];
        let start = section_start(section);
        let (old_from, new_from) = covered(sections, less);
        let (old_to, new_to) = covered(sections, count);
        let new_start = new_from + (start - old_from);
        let before = apply_sections(old, sections, selected, less);
        lemma_keep_until(old, before, start);
        let at = keep_until(old, before, start);
        lemma_all_lines(old, at, sections, less as int, selected, section.lines.len());
        let end = apply_sections(old, sections, selected, count);
        assert(end.lines =~= new.take(new_to)) by {
            assert(new.take(new_to) =~= new.take(new_from) + new.subrange(new_from, new_start)
                + new.subrange(new_start, new_to));
        }
    } else {
        assert(new.take(0) =~= Seq::empty());
    }
}

/// Picking every change of a difference gives the new version.
pub proof fn picking_everything_gives_the_new_version(
    old: Seq<Seq<char>>,
    new: Seq<Seq<char>>,
    sections: Seq<Section>,
    selected: Seq<LineRef>,
)
    requires
        is_difference(old, new, sections),
        picks_every_change(sections, selected),
    ensures
        selection_applied(old, sections, selected) == new,
{
    lemma_all_sections(old, new, sections, selected, sections.len());
    let new_end = covered(sections, sections.len()).1;
    assert(new.take(new_end) + new.skip(new_end) =~= new);
}

proof fn lemma_picked_concat(a: Seq<LineRef>, b: Seq<LineRef>, hunk: int, line: int)
    ensures
        picked(a + b, hunk, line) == (picked(a, hunk, line) || picked(b, hunk, line)),
{
    let all = a + b;
    if picked(all, hunk, line) {
        let i = choose|i: int|
            0 <= i < all.len() && (#[trigger] all[i]).hunk == hunk && all[i].line == line;
        if i < a.len() {
            assert(a[i].hunk == hunk);
        } else {
            assert(b[i - a.len()].hunk == hunk);
        }
    }
    if picked(a, hunk, line) {
        let i = choose|i: int| 0 <= i < a.len() && (#[trigger] a[i]).hunk == hunk && a[i].line == line;
        assert(all[i].hunk == hunk);
    }
    if picked(b, hunk, line) {
        let i = choose|i: int| 0 <= i < b.len() && (#[trigger] b[i]).hunk == hunk && b[i].line == line;
        assert(all[a.len() + i].hunk == hunk);
    }
}

proof fn lemma_rest_of_lines(
    lines: Seq<Line>,
    at: int,
    selected: Seq<LineRef>,
    count: nat,
    hunk: int,
    line: int,
)
    requires
        0 <= at <= usize::MAX,
        count <= lines.len() <= usize::MAX,
    ensures
        picked(rest_of_lines(lines, at, selected, count), hunk, line) <==> hunk == at && 0 <= line
            < count && lines[line].kind != LineKind::Context && !picked(selected, hunk, line),
    decreases count,
{
    if count > 0 {
        let less = (count - 1) as nat;
        lemma_rest_of_lines(lines, at, selected, less, hunk, line);
        let before = rest_of_lines(lines, at, selected, less);
        let added = LineRef { hunk: at as usize, line: less as usize };
        lemma_picked_concat(before, seq![added], hunk, line);
        assert(before.push(added) =~= before + seq![added]);
        assert(picked(seq![added], hunk, line) <==> hunk == at && line == less) by {
            if hunk == at && line == less {
                assert(seq![added][0].hunk == hunk);
            }
        }
    }
}

proof fn lemma_rest_of(
    sections: Seq<Section>,
    selected: Seq<LineRef>,
    count: nat,
    hunk: int,
    line: int,
)
    requires
        count <= sections.len() <= usize::MAX,
        forall|i: int| 0 <= i < sections.len() ==> (#[trigger] sections[i]).lines.len() <= usize::MAX,
    ensures
        picked(rest_of(sections, selected, count), hunk, line) <==> 0 <= hunk < count && 0 <= line
            < sections[hunk].lines.len() && sections[hunk].lines[line].kind != LineKind::Context
            && !picked(selected, hunk, line),
    decreases count,
{
    if count > 0 {
        let less = (count - 1) as nat;
        lemma_rest_of(sections, selected, less, hunk, line);
        let lines = sections[less as int].lines;
        let own = rest_of_lines(lines, less as int, selected, lines.len());
        lemma_rest_of_lines(lines, less as int, selected, lines.len(), hunk, line);
        lemma_picked_concat(rest_of(sections, selected, less), own, hunk, line);
    }
}

/// The rest of a selection holds exactly the changed lines that are not picked.
pub proof fn rest_is_the_complement(
    sections: Seq<Section>,
    selected: Seq<LineRef>,
    hunk: int,
    line: int,
)
    requires
        sections.len() <= usize::MAX,
        forall|i: int| 0 <= i < sections.len() ==> (#[trigger] sections[i]).lines.len() <= usize::MAX,
        0 <= hunk < sections.len(),
        0 <= line < sections[hunk].lines.len(),
        sections[hunk].lines[line].kind != LineKind::Context,
    ensures
        picked(rest_of(sections, selected, sections.len()), hunk, line) == !picked(
            selected,
            hunk,
            line,
        ),
{
    lemma_rest_of(sections, selected, sections.len(), hunk, line);
}

/// A text without line ends of two characters.
pub open spec fn plain_line_ends(text: Seq<char>) -> bool {
    forall|i: int|
        #![trigger text[i]]
        0 <= i < text.len() - 1 && text[i] == '\r' ==> text[i + 1] != '\n'
}

proof fn lemma_joined_from_front(first: Seq<char>, rest: Seq<Seq<char>>)
    requires
        rest.len() > 0,
    ensures
        joined_lines(seq![first] + rest) == first + seq!['\n'] + joined_lines(rest),
    decreases rest.len(),
{
    let all = seq![first] + rest;
    assert(all.drop_last() =~= seq![first] + rest.drop_last());
    assert(all.last() == rest.last());
    if rest.len() == 1 {
        assert(all.drop_last() =~= seq![first]);
        assert(joined_lines(seq![first]) == first);
        assert(rest.last() == rest[0]);
        assert(joined_lines(all) =~= first + seq!['\n'] + joined_lines(rest));
    } else {
        lemma_joined_from_front(first, rest.drop_last());
        assert(joined_lines(all) =~= first + seq!['\n'] + joined_lines(rest));
    }
}

proof fn lemma_lines_joined(text: Seq<char>)
    requires
        plain_line_ends(text),
        text.len() > 0,
    ensures
        lines_of(text).len() > 0,
        text == if ends_with(text, '\n') {
            joined_lines(lines_of(text)).push('\n')
        } else {
            joined_lines(lines_of(text))
        },
    decreases text.len(),
{
    first_index_is_first(text, '\n', 0);
    let end = first_index(text, '\n', 0);
    if end < text.len() {
        let line = text.take(end);
        let rest = text.skip(end + 1);
        assert(without_return(line) == line) by {
            if line.len() > 0 && line.last() == '\r' {
                assert(text[end - 1] == '\r');
                assert(text[end] == '\n');
            }
        }
        if rest.len() == 0 {
            assert(lines_of(rest) =~= Seq::empty());
            assert(lines_of(text) =~= seq![line]);
            assert(joined_lines(seq![line]) == line);
            assert(text =~= line.push('\n'));
        } else {
            assert(plain_line_ends(rest)) by {
                assert forall|i: int|
                    #![trigger rest[i]]
                    0 <= i < rest.len() - 1 && rest[i] == '\r' implies rest[i + 1] != '\n' by {
                    assert(text[end + 1 + i] == '\r');
                }
            }
            lemma_lines_joined(rest);
            lemma_joined_from_front(line, lines_of(rest));
            assert(text.last() == rest.last());
            assert(text =~= line + seq!['\n'] + rest);
            assert(text =~= if ends_with(text, '\n') {
                joined_lines(lines_of(text)).push('\n')
            } else {
                joined_lines(lines_of(text))
            });
        }
    } else {
        assert(lines_of(text) =~= seq![text]);
        assert(text.last() != '\n');
    }
}

/// Cutting a text into lines and putting them together again gives the text back, unless
/// it has line ends of two characters or is one line feed and nothing else.
pub proof fn lines_render_to_the_text(text: Seq<char>)
    requires
        plain_line_ends(text),
        text != seq!['\n'],
    ensures
        rendered(lines_of(text), ends_with(text, '\n')) == text,
{
    if text.len() > 0 {
        lemma_lines_joined(text);
        if ends_with(text, '\n') && joined_lines(lines_of(text)).len() == 0 {
            assert(text =~= seq!['\n']);
        }
    } else {
        assert(lines_of(text) =~= Seq::empty());
        assert(rendered(lines_of(text), false) =~= text);
    }
}

/// Staging every change of a difference puts the new version into the index, and taking
/// every change out again puts the old version there.
pub proof fn staging_and_unstaging_everything(
    old: Seq<char>,
    new: Seq<char>,
    sections: Seq<Section>,
    selected: Seq<LineRef>,
)
    requires
        is_difference(lines_of(old), lines_of(new), sections),
        picks_every_change(sections, selected),
        sections.len() <= usize::MAX,
        forall|i: int| 0 <= i < sections.len() ==> (#[trigger] sections[i]).lines.len() <= usize::MAX,
        plain_line_ends(old),
        plain_line_ends(new),
        old != seq!['\n'],
        new != seq!['\n'],
        ends_with(old, '\n') == ends_with(new, '\n'),
    ensures
        new_index_text(SelectKind::Stage, old, sections, selected) == new,
        new_index_text(SelectKind::Unstage, old, sections, selected) == old,
{
    picking_everything_gives_the_new_version(lines_of(old), lines_of(new), sections, selected);
    lines_render_to_the_text(new);
    let rest = rest_of(sections, selected, sections.len());
    assert forall|hunk: int, line: int|
        #![trigger sections[hunk].lines[line]]
        0 <= hunk < sections.len() && 0 <= line < sections[hunk].lines.len()
            && sections[hunk].lines[line].kind != LineKind::Context implies !picked(
        rest,
        hunk,
        line,
    ) by {
        rest_is_the_complement(sections, selected, hunk, line);
    }
    picking_nothing_changes_nothing(lines_of(old), sections, rest);
    lines_render_to_the_text(old);
}

/// Whether a selection names a line of a section.
pub open spec fn names_line(selected: Seq<LineRef>, hunk: int, line: int) -> bool {
    exists|k: int|
        #![trigger selected[k]]
        0 <= k < selected.len() && selected[k].hunk == hunk && selected[k].line == line
}

/// What is left of the first `count` lines of a section where the given changes are taken:
/// every line of the context, every removed line that is not taken, and every added line
/// that is.
pub open spec fn left_of_section(
    lines: Seq<Line>,
    takes: spec_fn(int) -> bool,
    count: nat,
) -> Seq<Seq<char>> {
    Seq::new(count, |i: int| i).filter(
        |i: int|
            match lines[i].kind {
                LineKind::Context => true,
                LineKind::Removed => !takes(i),
                LineKind::Added => takes(i),
            },
    ).map_values(|i: int| lines[i].content)
}

/// The lines of the old version among the first `count` lines of a section.
pub open spec fn old_lines_of(lines: Seq<Line>, count: nat) -> Seq<Seq<char>> {
    Seq::new(count, |i: int| i).filter(|i: int| !(lines[i].kind is Added)).map_values(
        |i: int| lines[i].content,
    )
}

/// The number of lines of the old version before a section. A section that covers none of
/// them names the line before it.
pub open spec fn lines_before(section: Section) -> int {
    if section.old_lines > 0 && section.old_start > 0 {
        section.old_start - 1
    } else {
        section.old_start as int
    }
}

/// The number of lines of the old version up to the end of the first `count` sections.
pub open spec fn lines_up_to(sections: Seq<Section>, count: nat) -> int {
    if count == 0 {
        0
    } else {
        let section = sections[count - 1];
        lines_before(section) + old_lines_of(section.lines, section.lines.len()).len()
    }
}

/// Whether the sections stand one after the other in the old version, each of them over the
/// lines that it shows.
pub open spec fn lie_in(old: Seq<Seq<char>>, sections: Seq<Section>) -> bool {
    forall|h: int|
        #![trigger sections[h]]
        0 <= h < sections.len() ==> {
            let (from, to) = (lines_before(sections[h]), lines_up_to(sections, (h + 1) as nat));
            &&& 0 <= lines_up_to(sections, h as nat) <= from <= to <= old.len()
            &&& old.subrange(from, to) == old_lines_of(sections[h].lines, sections[h].lines.len())
        }
}

/// The old version up to the end of the first `count` sections, with the given changes
/// taken.
pub open spec fn changed_up_to(
    old: Seq<Seq<char>>,
    sections: Seq<Section>,
    takes: spec_fn(int, int) -> bool,
    count: nat,
) -> Seq<Seq<char>>
    decreases count,
{
    if count == 0 {
        Seq::empty()
    } else {
        let less = (count - 1) as nat;
        let section = sections[count - 1];
        changed_up_to(old, sections, takes, less) + old.subrange(
            lines_up_to(sections, less),
            lines_before(section),
        ) + left_of_section(section.lines, |line: int| takes(count - 1, line), section.lines.len())
    }
}

/// The old version with the given changes taken.
pub open spec fn with_changes(
    old: Seq<Seq<char>>,
    sections: Seq<Section>,
    takes: spec_fn(int, int) -> bool,
) -> Seq<Seq<char>> {
    changed_up_to(old, sections, takes, sections.len()) + old.skip(
        lines_up_to(sections, sections.len()),
    )
}

proof fn lemma_left_step(lines: Seq<Line>, takes: spec_fn(int) -> bool, count: nat)
    requires
        count > 0,
    ensures
        left_of_section(lines, takes, count) == {
            let less = left_of_section(lines, takes, (count - 1) as nat);
            let line = lines[count - 1];
            if line.kind is Context || (line.kind is Removed && !takes(count - 1)) || (line.kind
                is Added && takes(count - 1)) {
                less.push(line.content)
            } else {
                less
            }
        },
        old_lines_of(lines, count) == {
            let less = old_lines_of(lines, (count - 1) as nat);
            if lines[count - 1].kind is Added {
                less
            } else {
                less.push(lines[count - 1].content)
            }
        },
{
    reveal(Seq::filter);
    let all = Seq::new(count, |i: int| i);
    let fewer = Seq::new((count - 1) as nat, |i: int| i);
    assert(all.drop_last() =~= fewer);
    assert(all.last() == count - 1);
    let kept = |i: int|
        match lines[i].kind {
            LineKind::Context => true,
            LineKind::Removed => !takes(i),
            LineKind::Added => takes(i),
        };
    let was_there = |i: int| !(lines[i].kind is Added);
    let view = |i: int| lines[i].content;
    assert(fewer.filter(kept).push(count - 1).map_values(view) =~= fewer.filter(kept).map_values(
        view,
    ).push(lines[count - 1].content));
    assert(fewer.filter(was_there).push(count - 1).map_values(view) =~= fewer.filter(
        was_there,
    ).map_values(view).push(lines[count - 1].content));
}

proof fn lemma_old_lines_grow(lines: Seq<Line>, a: nat, b: nat)
    requires
        a <= b,
    ensures
        old_lines_of(lines, a).len() <= old_lines_of(lines, b).len(),
        old_lines_of(lines, a) == old_lines_of(lines, b).take(old_lines_of(lines, a).len() as int),
    decreases b,
{
    if a < b {
        lemma_old_lines_grow(lines, a, (b - 1) as nat);
        lemma_left_step(lines, |i: int| true, b);
        let n = old_lines_of(lines, a).len() as int;
        assert(old_lines_of(lines, b).take(n) =~= old_lines_of(lines, (b - 1) as nat).take(n));
    } else {
        let all = old_lines_of(lines, b);
        assert(all.take(all.len() as int) =~= all);
    }
}

proof fn lemma_section_with_changes(
    old: Seq<Seq<char>>,
    at: Progress,
    lines: Seq<Line>,
    hunk: int,
    selected: Seq<LineRef>,
    takes: spec_fn(int) -> bool,
    count: nat,
)
    requires
        count <= lines.len(),
        0 <= at.cursor,
        at.cursor + old_lines_of(lines, lines.len()).len() <= old.len(),
        old.subrange(at.cursor, at.cursor + old_lines_of(lines, lines.len()).len())
            == old_lines_of(lines, lines.len()),
        forall|line: int|
            #![trigger takes(line)]
            0 <= line < lines.len() && !(lines[line].kind is Context) ==> takes(line) == picked(
                selected,
                hunk,
                line,
            ),
    ensures
        apply_lines(old, at, lines, hunk, selected, count) == (Progress {
            lines: at.lines + left_of_section(lines, takes, count),
            cursor: at.cursor + old_lines_of(lines, count).len(),
        }),
    decreases count,
{
    reveal(Seq::filter);
    let now = apply_lines(old, at, lines, hunk, selected, count);
    if count > 0 {
        let less = (count - 1) as nat;
        lemma_section_with_changes(old, at, lines, hunk, selected, takes, less);
        lemma_left_step(lines, takes, count);
        let line = lines[less as int];
        let used = old_lines_of(lines, less).len();
        let all = old_lines_of(lines, lines.len());
        lemma_old_lines_grow(lines, less, count);
        lemma_old_lines_grow(lines, count, lines.len());
        if !(line.kind is Added) {
            assert(old_lines_of(lines, count).len() == used + 1);
            assert(all[used as int] == old_lines_of(lines, count)[used as int]);
            assert(old.subrange(at.cursor, at.cursor + all.len())[used as int] == old[at.cursor
                + used]);
            assert(old[at.cursor + used] == line.content);
        }
        if !(line.kind is Context) {
            assert(takes(less as int) == picked(selected, hunk, less as int));
        }
        assert(now.lines =~= at.lines + left_of_section(lines, takes, count));
    } else {
        assert(Seq::new(0, |i: int| i) =~= Seq::<int>::empty());
        assert(left_of_section(lines, takes, 0) =~= Seq::empty());
        assert(old_lines_of(lines, 0) =~= Seq::empty());
        assert(at.lines + left_of_section(lines, takes, 0) =~= at.lines);
    }
}

proof fn lemma_with_changes(
    old: Seq<Seq<char>>,
    sections: Seq<Section>,
    selected: Seq<LineRef>,
    takes: spec_fn(int, int) -> bool,
    count: nat,
)
    requires
        lie_in(old, sections),
        count <= sections.len(),
        forall|hunk: int, line: int|
            #![trigger takes(hunk, line)]
            0 <= hunk < sections.len() && 0 <= line < sections[hunk].lines.len() && !(
            sections[hunk].lines[line].kind is Context) ==> takes(hunk, line) == picked(
                selected,
                hunk,
                line,
            ),
    ensures
        0 <= lines_up_to(sections, count) <= old.len(),
        apply_sections(old, sections, selected, count) == (Progress {
            lines: changed_up_to(old, sections, takes, count),
            cursor: lines_up_to(sections, count),
        }),
    decreases count,
{
    if count > 0 {
        let less = (count - 1) as nat;
        let section = sections[less as int];
        lemma_with_changes(old, sections, selected, takes, less);
        let before = apply_sections(old, sections, selected, less);
        assert(section_start(section) == lines_before(section));
        lemma_keep_until(old, before, lines_before(section));
        let at = keep_until(old, before, section_start(section));
        let here = |line: int| takes(count - 1, line);
        assert forall|line: int|
            #![trigger here(line)]
            0 <= line < section.lines.len() && !(section.lines[line].kind is Context) implies here(
            line,
        ) == picked(selected, less as int, line) by {
            assert(takes(less as int, line) == picked(selected, less as int, line));
        }
        lemma_section_with_changes(
            old,
            at,
            section.lines,
            less as int,
            selected,
            here,
            section.lines.len(),
        );
    }
}

/// Applying a selection takes the picked changes and no others: of each section there are
/// left, in order, all lines of the context, the removed lines that are not picked and the
/// added lines that are. What stands between the sections stays.
pub proof fn picked_changes_alone_are_taken(
    old: Seq<Seq<char>>,
    sections: Seq<Section>,
    selected: Seq<LineRef>,
)
    requires
        lie_in(old, sections),
    ensures
        selection_applied(old, sections, selected) == with_changes(
            old,
            sections,
            |hunk: int, line: int| names_line(selected, hunk, line),
        ),
{
    let takes = |hunk: int, line: int| names_line(selected, hunk, line);
    lemma_with_changes(old, sections, selected, takes, sections.len());
}

/// Staging picked lines puts these changes into the index and no others; taking picked
/// lines out leaves all changes in it but these. The text ends with a line feed where the
/// version that it is made from does, unless it is empty.
pub proof fn index_holds_the_wanted_changes(
    kind: SelectKind,
    old: Seq<char>,
    sections: Seq<Section>,
    selected: Seq<LineRef>,
)
    requires
        lie_in(lines_of(old), sections),
        sections.len() <= usize::MAX,
        forall|i: int| 0 <= i < sections.len() ==> (#[trigger] sections[i]).lines.len() <= usize::MAX,
    ensures
        ({
            let lines = with_changes(
                lines_of(old),
                sections,
                |hunk: int, line: int| names_line(selected, hunk, line) == (kind is Stage),
            );
            let text = joined_lines(lines);
            new_index_text(kind, old, sections, selected) == if old.len() > 0 && old.last() == '\n'
                && text.len() > 0 {
                text.push('\n')
            } else {
                text
            }
        }),
{
    let takes = |hunk: int, line: int| names_line(selected, hunk, line) == (kind is Stage);
    let applied = match kind {
        SelectKind::Stage => selected,
        SelectKind::Unstage => rest_of(sections, selected, sections.len()),
    };
    assert forall|hunk: int, line: int|
        #![trigger takes(hunk, line)]
        0 <= hunk < sections.len() && 0 <= line < sections[hunk].lines.len() && !(
        sections[hunk].lines[line].kind is Context) implies takes(hunk, line) == picked(
        applied,
        hunk,
        line,
    ) by {
        rest_is_the_complement(sections, selected, hunk, line);
        assert(names_line(selected, hunk, line) == picked(selected, hunk, line));
    }
    lemma_with_changes(lines_of(old), sections, applied, takes, sections.len());
}

/// The number of changed lines of a kind among the first `count` lines of a section that
/// are taken.
pub open spec fn number_taken(
    lines: Seq<Line>,
    takes: spec_fn(int) -> bool,
    kind: LineKind,
    count: nat,
) -> nat {
    Seq::new(count, |i: int| i).filter(|i: int| lines[i].kind == kind && takes(i)).len()
}

/// Each added line that is taken makes a section one line longer, and each removed line
/// that is taken makes it one line shorter.
pub proof fn taken_lines_decide_the_length(lines: Seq<Line>, takes: spec_fn(int) -> bool, count: nat)
    ensures
        left_of_section(lines, takes, count).len() + number_taken(
            lines,
            takes,
            LineKind::Removed,
            count,
        ) == old_lines_of(lines, count).len() + number_taken(lines, takes, LineKind::Added, count),
    decreases count,
{
    reveal(Seq::filter);
    if count > 0 {
        let less = (count - 1) as nat;
        taken_lines_decide_the_length(lines, takes, less);
        lemma_left_step(lines, takes, count);
        assert(Seq::new(count, |i: int| i).drop_last() =~= Seq::new(less, |i: int| i));
    } else {
        assert(Seq::new(0, |i: int| i) =~= Seq::<int>::empty());
    }
}

/// Whether a line is an added line of the sections that was picked.
pub open spec fn is_picked_addition(
    sections: Seq<Section>,
    selected: Seq<LineRef>,
    line: Seq<char>,
) -> bool {
    exists|h: int, l: int|
        0 <= h < sections.len() && 0 <= l < sections[h].lines.len() && names_line(selected, h, l)
            && (#[trigger] sections[h].lines[l]).kind == LineKind::Added
            && sections[h].lines[l].content == line
}

/// Whether all lines that were made come from the old version or were picked.
spec fn comes_from(
    made: Progress,
    old: Seq<Seq<char>>,
    sections: Seq<Section>,
    selected: Seq<LineRef>,
) -> bool {
    &&& 0 <= made.cursor <= old.len()
    &&& forall|i: int|
        0 <= i < made.lines.len() ==> old.contains(#[trigger] made.lines[i]) || is_picked_addition(
            sections,
            selected,
            made.lines[i],
        )
}

/// Whether one sequence starts with another.
spec fn goes_on_from(longer: Seq<Seq<char>>, shorter: Seq<Seq<char>>) -> bool {
    shorter.len() <= longer.len() && forall|i: int|
        0 <= i < shorter.len() ==> #[trigger] longer[i] == shorter[i]
}

proof fn lemma_keep_comes_from(
    old: Seq<Seq<char>>,
    before: Progress,
    end: int,
    sections: Seq<Section>,
    selected: Seq<LineRef>,
)
    requires
        comes_from(before, old, sections, selected),
    ensures
        comes_from(keep_until(old, before, end), old, sections, selected),
        goes_on_from(keep_until(old, before, end).lines, before.lines),
        comes_from(keep_line(old, before), old, sections, selected),
        goes_on_from(keep_line(old, before).lines, before.lines),
    decreases end - before.cursor,
{
    if before.cursor < old.len() {
        let after = keep_line(old, before);
        assert(old.contains(old[before.cursor]));
        assert forall|i: int| 0 <= i < after.lines.len() implies old.contains(
            #[trigger] after.lines[i],
        ) || is_picked_addition(sections, selected, after.lines[i]) by {
            if i < before.lines.len() {
                assert(after.lines[i] == before.lines[i]);
            }
        }
        if before.cursor < end {
            lemma_keep_comes_from(old, after, end, sections, selected);
        }
    }
}

proof fn lemma_lines_come_from(
    old: Seq<Seq<char>>,
    before: Progress,
    sections: Seq<Section>,
    hunk: int,
    selected: Seq<LineRef>,
    count: nat,
)
    requires
        comes_from(before, old, sections, selected),
        0 <= hunk < sections.len(),
        count <= sections[hunk].lines.len(),
    ensures
        ({
            let lines = sections[hunk].lines;
            let after = apply_lines(old, before, lines, hunk, selected, count);
            &&& comes_from(after, old, sections, selected)
            &&& goes_on_from(after.lines, before.lines)
            &&& forall|l: int|
                0 <= l < count && names_line(selected, hunk, l) && (#[trigger] lines[l]).kind
                    == LineKind::Added ==> after.lines.contains(lines[l].content)
        }),
    decreases count,
{
    let lines = sections[hunk].lines;
    let after = apply_lines(old, before, lines, hunk, selected, count);
    if count > 0 {
        let less = (count - 1) as nat;
        let made = apply_lines(old, before, lines, hunk, selected, less);
        lemma_lines_come_from(old, before, sections, hunk, selected, less);
        lemma_keep_comes_from(old, made, 0, sections, selected);
        let line = lines[less as int];
        assert(picked(selected, hunk, less as int) <==> names_line(selected, hunk, less as int));
        if line.kind == LineKind::Added && picked(selected, hunk, less as int) {
            assert(sections[hunk].lines[less as int] == line);
            assert(is_picked_addition(sections, selected, line.content));
            assert(after.lines[made.lines.len() as int] == line.content);
            assert forall|i: int| 0 <= i < after.lines.len() implies old.contains(
                #[trigger] after.lines[i],
            ) || is_picked_addition(sections, selected, after.lines[i]) by {
                if i < made.lines.len() {
                    assert(after.lines[i] == made.lines[i]);
                }
            }
        }
        assert forall|l: int|
            0 <= l < count && names_line(selected, hunk, l) && (#[trigger] lines[l]).kind
                == LineKind::Added implies after.lines.contains(lines[l].content) by {
            if l < less {
                let i = choose|i: int|
                    0 <= i < made.lines.len() && made.lines[i] == lines[l].content;
                assert(after.lines[i] == made.lines[i]);
            }
        }
    }
}

proof fn lemma_sections_come_from(
    old: Seq<Seq<char>>,
    sections: Seq<Section>,
    selected: Seq<LineRef>,
    count: nat,
)
    requires
        count <= sections.len(),
    ensures
        ({
            let made = apply_sections(old, sections, selected, count);
            &&& comes_from(made, old, sections, selected)
            &&& forall|h: int, l: int|
                0 <= h < count && 0 <= l < sections[h].lines.len() && names_line(selected, h, l) && (
                #[trigger] sections[h].lines[l]).kind == LineKind::Added ==> made.lines.contains(
                    sections[h].lines[l].content,
                )
        }),
    decreases count,
{
    if count > 0 {
        let less = (count - 1) as nat;
        let section = sections[less as int];
        let before = apply_sections(old, sections, selected, less);
        lemma_sections_come_from(old, sections, selected, less);
        let start = section_start(section);
        lemma_keep_comes_from(old, before, start, sections, selected);
        let kept = keep_until(old, before, start);
        lemma_lines_come_from(old, kept, sections, less as int, selected, section.lines.len());
        let made = apply_sections(old, sections, selected, count);
        assert forall|h: int, l: int|
            0 <= h < count && 0 <= l < sections[h].lines.len() && names_line(selected, h, l) && (
            #[trigger] sections[h].lines[l]).kind == LineKind::Added implies made.lines.contains(
            sections[h].lines[l].content,
        ) by {
            let content = sections[h].lines[l].content;
            if h < less {
                let i = choose|i: int| 0 <= i < before.lines.len() && before.lines[i] == content;
                assert(kept.lines[i] == before.lines[i]);
                assert(made.lines[i] == kept.lines[i]);
            } else {
                assert(section.lines[l].kind == LineKind::Added);
            }
        }
    }
}

/// Whatever sections are applied to whatever version, nothing is made up and nothing that was
/// picked is lost: each line of the result is a line of the old version or an added line that
/// was picked, and each added line that was picked is there.
pub proof fn nothing_is_made_up_or_lost(
    old: Seq<Seq<char>>,
    sections: Seq<Section>,
    selected: Seq<LineRef>,
    i: int,
    h: int,
    l: int,
)
    ensures
        0 <= i < selection_applied(old, sections, selected).len() ==> old.contains(
            selection_applied(old, sections, selected)[i],
        ) || is_picked_addition(sections, selected, selection_applied(old, sections, selected)[i]),
        0 <= h < sections.len() && 0 <= l < sections[h].lines.len() && names_line(selected, h, l)
            && sections[h].lines[l].kind == LineKind::Added ==> selection_applied(
            old,
            sections,
            selected,
        ).contains(sections[h].lines[l].content),
{
    let made = apply_sections(old, sections, selected, sections.len());
    let all = selection_applied(old, sections, selected);
    lemma_sections_come_from(old, sections, selected, sections.len());
    assert(all == made.lines + old.skip(made.cursor));
    if 0 <= i < all.len() {
        if i < made.lines.len() {
            assert(all[i] == made.lines[i]);
        } else {
            assert(all[i] == old[made.cursor + (i - made.lines.len())]);
        }
    }
    if 0 <= h < sections.len() && 0 <= l < sections[h].lines.len() && names_line(selected, h, l)
        && sections[h].lines[l].kind == LineKind::Added {
        let content = sections[h].lines[l].content;
        let k = choose|k: int| 0 <= k < made.lines.len() && made.lines[k] == content;
        assert(all[k] == content);
    }
}

} // verus!
