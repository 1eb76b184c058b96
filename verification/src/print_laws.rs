//! What holds of everything that is asked for and told in text.
use vstd::prelude::*;

use crate::cli::{
    asked, asked_by, closing_lines, drawn_lanes, drawn_rows, history_lines, is_passed,
    limit_failure, limit_in, padded, passes, row_line, track, Asked,
};
use crate::dag::Node;
use crate::diff::{only_white_space, DiffLine, FileDiff, Hunk, LineKind};
use crate::divergence::{CommitInfo, Divergence};
use crate::layout::{Edge, Layout};
use crate::report::{
    changes_lines, commit_lines, diff_line, file_lines, files_lines, hunk_lines, marked_text, overlap_lines,
    path_lines, remarks, sections_lines, sync_lines, warning_lines,
};
use crate::search::at_most;
use crate::text;
use crate::text::{all_digits, decimal_digits, digits_value, is_digit, unsigned_part};

verus! {

proof fn lemma_asked_shifts(
    first: Seq<Seq<char>>,
    rest: Seq<Seq<char>>,
    from: int,
    path: Option<Seq<char>>,
    limit: usize,
    show_diff: bool,
)
    requires
        0 <= from <= rest.len(),
    ensures
        asked(first + rest, first.len() + from, path, limit, show_diff) == asked(
            rest,
            from,
            path,
            limit,
            show_diff,
        ),
    decreases rest.len() - from,
{
    let all = first + rest;
    if from < rest.len() {
        let arg = rest[from];
        assert(all[first.len() + from] == arg);
        if arg == "--limit"@ || arg == "-n"@ {
            if from + 1 < rest.len() {
                assert(all[first.len() + from + 1] == rest[from + 1]);
                if limit_in(rest[from + 1]) is Some {
                    lemma_asked_shifts(
                        first,
                        rest,
                        from + 2,
                        path,
                        limit_in(rest[from + 1])->0,
                        show_diff,
                    );
                }
            }
        } else {
            lemma_asked_shifts(first, rest, from + 1, path, limit, true);
            lemma_asked_shifts(first, rest, from + 1, Some(arg), limit, show_diff);
        }
    }
}

proof fn lemma_option_names()
    ensures
        "--limit"@ != "--diff"@,
        "--limit"@ != "-d"@,
        "-n"@ != "--diff"@,
        "-n"@ != "-d"@,
        "-"@.is_prefix_of("--limit"@),
        "-"@.is_prefix_of("-n"@),
        "-"@.is_prefix_of("--diff"@),
        "-"@.is_prefix_of("-d"@),
        "-"@ == seq!['-'],
{
    reveal_strlit("--limit");
    reveal_strlit("--diff");
    reveal_strlit("-n");
    reveal_strlit("-d");
    reveal_strlit("-");
    assert("--limit"@.len() == 7 && "--diff"@.len() == 6 && "-n"@.len() == 2 && "-d"@.len() == 2);
    assert("-n"@[1] == 'n' && "-d"@[1] == 'd');
    assert("-"@ =~= seq!['-']);
    assert("--limit"@.subrange(0, 1) =~= "-"@);
    assert("-n"@.subrange(0, 1) =~= "-"@);
    assert("--diff"@.subrange(0, 1) =~= "-"@);
    assert("-d"@.subrange(0, 1) =~= "-"@);
}

/// An option for the differences is taken, in either form, and what follows is read on.
pub proof fn option_for_differences_is_taken(
    rest: Seq<Seq<char>>,
    path: Option<Seq<char>>,
    limit: usize,
    show_diff: bool,
)
    ensures
        asked(seq!["--diff"@] + rest, 0, path, limit, show_diff) == asked(
            rest,
            0,
            path,
            limit,
            true,
        ),
        asked(seq!["-d"@] + rest, 0, path, limit, show_diff) == asked(rest, 0, path, limit, true),
{
    lemma_option_names();
    lemma_asked_shifts(seq!["--diff"@], rest, 0, path, limit, true);
    lemma_asked_shifts(seq!["-d"@], rest, 0, path, limit, true);
    assert((seq!["--diff"@] + rest)[0] == "--diff"@);
    assert((seq!["-d"@] + rest)[0] == "-d"@);
}

/// A limit is taken, in either form, and what follows is read on. A limit that is missing or
/// no number is refused.
pub proof fn option_for_the_limit_is_taken(
    value: Seq<char>,
    rest: Seq<Seq<char>>,
    path: Option<Seq<char>>,
    limit: usize,
    show_diff: bool,
)
    ensures
        limit_in(value) is Some ==> asked(
            seq!["--limit"@, value] + rest,
            0,
            path,
            limit,
            show_diff,
        ) == asked(rest, 0, path, limit_in(value)->0, show_diff),
        limit_in(value) is Some ==> asked(seq!["-n"@, value] + rest, 0, path, limit, show_diff)
            == asked(rest, 0, path, limit_in(value)->0, show_diff),
        limit_in(value) is None ==> asked(
            seq!["--limit"@, value] + rest,
            0,
            path,
            limit,
            show_diff,
        ) is Err,
        limit_in(value) is None ==> asked(seq!["-n"@, value] + rest, 0, path, limit, show_diff)
            is Err,
        asked(seq!["--limit"@], 0, path, limit, show_diff) is Err,
        asked(seq!["-n"@], 0, path, limit, show_diff) is Err,
{
    lemma_option_names();
    let long = seq!["--limit"@, value];
    let short = seq!["-n"@, value];
    if limit_in(value) is Some {
        lemma_asked_shifts(long, rest, 0, path, limit_in(value)->0, show_diff);
        lemma_asked_shifts(short, rest, 0, path, limit_in(value)->0, show_diff);
    }
    assert((long + rest)[0] == "--limit"@);
    assert((long + rest)[1] == value);
    assert((short + rest)[0] == "-n"@);
    assert((short + rest)[1] == value);
}

/// What does not begin with a hyphen is the path, and there can be one only. Any other option
/// is refused.
pub proof fn first_plain_argument_is_the_path(
    arg: Seq<char>,
    rest: Seq<Seq<char>>,
    other: Seq<char>,
    limit: usize,
    show_diff: bool,
)
    ensures
        arg.len() == 0 || arg[0] != '-' ==> asked(seq![arg] + rest, 0, None, limit, show_diff)
            == asked(rest, 0, Some(arg), limit, show_diff),
        arg.len() == 0 || arg[0] != '-' ==> asked(
            seq![arg] + rest,
            0,
            Some(other),
            limit,
            show_diff,
        ) is Err,
        arg.len() > 0 && arg[0] == '-' && arg != "--limit"@ && arg != "-n"@ && arg != "--diff"@
            && arg != "-d"@ ==> asked(seq![arg] + rest, 0, None, limit, show_diff) == Err::<
            Asked,
            Seq<char>,
        >("未知的選項："@ + arg),
{
    lemma_option_names();
    let all = seq![arg] + rest;
    assert(all[0] == arg);
    assert("-"@.is_prefix_of(arg) <==> arg.len() > 0 && arg[0] == '-') by {
        if arg.len() > 0 && arg[0] == '-' {
            assert(arg.subrange(0, 1) =~= "-"@);
        }
        if "-"@.is_prefix_of(arg) {
            assert(arg.subrange(0, 1)[0] == arg[0]);
            assert("-"@[0] == '-');
        }
    }
    reveal_strlit("--limit");
    reveal_strlit("--diff");
    reveal_strlit("-n");
    reveal_strlit("-d");
    lemma_asked_shifts(seq![arg], rest, 0, Some(arg), limit, show_diff);
}

/// Where nothing is asked for, it is the history of the current directory.
pub proof fn nothing_asked_is_the_current_directory(
    path: Option<Seq<char>>,
    limit: usize,
    show_diff: bool,
)
    ensures
        asked(Seq::empty(), 0, path, limit, show_diff) == Ok::<Asked, Seq<char>>(
            Asked {
                path: if path is Some {
                    path->0
                } else {
                    "."@
                },
                limit,
                show_diff,
            },
        ),
{
}

/// A limit is the number that its digits stand for.
pub proof fn limits_are_read_as_numbers(limit: usize)
    ensures
        limit as nat <= u64::MAX ==> limit_in(decimal_digits(limit as nat)) == Some(limit),
        limit_in(Seq::empty()) is None,
        limit_failure(Seq::empty()) == "cannot parse integer from empty string"@,
{
    if limit as nat <= u64::MAX {
        crate::text_laws::decimal_form_is_read_back(limit as u64);
    }
}

/// Whether a line of the drawing runs through a row in a lane, between the rows of its ends.
pub open spec fn runs_through(edge: Edge, row: int, lane: int) -> bool {
    &&& edge.parent_lane == lane
    &&& (edge.child_row < row && row < edge.parent_row) || (edge.parent_row < row && row
        < edge.child_row)
}

/// Every lane of a row that is drawn takes two characters: the commit where it stands, told
/// from a merge, a stroke where a line runs through, and nothing otherwise; and then a space.
pub proof fn lanes_are_drawn_side_by_side(
    layout: Layout,
    node: Node,
    row: int,
    lane: usize,
    columns: nat,
    column: int,
)
    requires
        0 <= column < columns,
    ensures
        ({
            let drawn = track(layout, node, row, lane, columns);
            let through = exists|i: int|
                0 <= i < layout.edges@.len() && runs_through(
                    #[trigger] layout.edges@[i],
                    row,
                    column,
                );
            &&& drawn.len() == 2 * columns
            &&& drawn[2 * column + 1] == ' '
            &&& column == lane && node.parents.len() > 1 ==> drawn[2 * column] == '◍'
            &&& column == lane && node.parents.len() <= 1 ==> drawn[2 * column] == '●'
            &&& column != lane && through ==> drawn[2 * column] == '│'
            &&& column != lane && !through ==> drawn[2 * column] == ' '
        }),
    decreases columns,
{
    lemma_track_len(layout, node, row, lane, columns);
    if column < columns - 1 {
        lanes_are_drawn_side_by_side(layout, node, row, lane, (columns - 1) as nat, column);
    } else {
        lemma_track_len(layout, node, row, lane, (columns - 1) as nat);
        let edges = layout.edges@;
        if is_passed(edges, edges.len() as int, row, column) {
            let i = choose|i: int| 0 <= i < edges.len() && passes(#[trigger] edges[i], row, column);
            assert(runs_through(edges[i], row, column));
        }
        if exists|i: int| 0 <= i < edges.len() && runs_through(#[trigger] edges[i], row, column) {
            let i = choose|i: int|
                0 <= i < edges.len() && runs_through(#[trigger] edges[i], row, column);
            assert(passes(edges[i], row, column));
        }
    }
}

proof fn lemma_track_len(layout: Layout, node: Node, row: int, lane: usize, columns: nat)
    ensures
        track(layout, node, row, lane, columns).len() == 2 * columns,
    decreases columns,
{
    if columns > 0 {
        lemma_track_len(layout, node, row, lane, (columns - 1) as nat);
    }
}

/// A row shows the lanes, then the number of a lane that is not drawn, then the short name of
/// the commit and the start of its summary.
pub proof fn rows_name_their_commits(layout: Layout, nodes: Seq<Node>, row: int)
    ensures
        ({
            let node = nodes[layout.order@[row] as int];
            let lane = layout.lane_of@[layout.order@[row] as int];
            let width = if layout.lane_count < 12 {
                layout.lane_count as nat
            } else {
                12
            };
            let short = if node.oid.len() < 8 {
                node.oid
            } else {
                node.oid.take(8)
            };
            let start = if node.summary.len() < 56 {
                node.summary
            } else {
                node.summary.take(56)
            };
            &&& drawn_lanes(layout) == width
            &&& lane < width ==> row_line(layout, nodes, row) == track(
                layout,
                node,
                row,
                lane,
                width,
            ) + "     "@ + short + "  "@ + start
            &&& lane >= width ==> row_line(layout, nodes, row) == track(
                layout,
                node,
                row,
                lane,
                width,
            ) + ("→"@ + padded(decimal_digits(lane as nat)) + " "@) + short + "  "@ + start
        }),
{
    let node = nodes[layout.order@[row] as int];
    assert(node.oid.take(node.oid.len() as int) =~= node.oid);
    assert(node.summary.take(node.summary.len() as int) =~= node.summary);
}

/// A number that is drawn takes three characters at least, with spaces behind it.
pub proof fn numbers_are_filled_up(number: Seq<char>, i: int)
    ensures
        padded(number).len() >= 3,
        padded(number).len() == 3 || padded(number) == number,
        padded(number).take(number.len() as int) == number,
        number.len() <= i < padded(number).len() ==> padded(number)[i] == ' ',
{
    reveal_strlit(" ");
    reveal_strlit("  ");
    reveal_strlit("   ");
    assert(padded(number).take(number.len() as int) =~= number);
}

/// As many rows are drawn as there are or as are wanted, and what is not drawn is counted.
pub proof fn what_is_not_drawn_is_counted(layout: Layout, limit: usize)
    ensures
        drawn_rows(layout, limit) <= limit,
        drawn_rows(layout, limit) <= layout.order@.len(),
        drawn_rows(layout, limit) == limit || drawn_rows(layout, limit) == layout.order@.len(),
        layout.lane_count <= 12 && layout.order@.len() <= limit ==> closing_lines(
            layout,
            limit,
        ).len() == 0,
        layout.order@.len() > limit ==> closing_lines(layout, limit).len() > 0 && closing_lines(
            layout,
            limit,
        ).last() == "… 其餘 "@ + decimal_digits((layout.order@.len() - limit) as nat)
            + " 個 commit 未顯示"@,
        layout.lane_count > 12 ==> closing_lines(layout, limit).len() > 0 && closing_lines(
            layout,
            limit,
        )[0] == "（僅繪製前 "@ + decimal_digits(12) + " 條線道，另有 "@ + decimal_digits(
            (layout.lane_count - 12) as nat,
        ) + " 條未繪製）"@,
{
}

/// The first eight paths are listed, or all of them where there are fewer, in their order.
pub proof fn first_paths_are_listed(paths: Seq<Seq<char>>, i: int)
    ensures
        path_lines(paths).len() <= 8,
        path_lines(paths).len() <= paths.len(),
        path_lines(paths).len() == 8 || path_lines(paths).len() == paths.len(),
        0 <= i < path_lines(paths).len() ==> path_lines(paths)[i] == "    "@ + paths[i],
{
}

/// The first five commits are listed, each by its short name and its summary, and the others
/// are counted.
pub proof fn first_commits_are_listed(label: Seq<char>, commits: Seq<CommitInfo>, i: int)
    ensures
        0 <= i < 5 && i < commits.len() ==> commit_lines(label, commits)[i] == "  "@ + label + "  "@
            + commits[i].short_oid@ + "  "@ + commits[i].summary@,
        commits.len() <= 5 ==> commit_lines(label, commits).len() == commits.len(),
        commits.len() > 5 ==> commit_lines(label, commits).len() == 6 && commit_lines(
            label,
            commits,
        )[5] == "  "@ + label + "  … 另有 "@ + decimal_digits((commits.len() - 5) as nat) + " 個"@,
{
}

/// What is told of the files that both sides change: the first eight, and how many more there
/// are. Where there are none and the branches went apart, it is said that they cannot
/// collide.
pub proof fn common_files_are_told_of(divergence: Divergence, i: int)
    ensures
        ({
            let files = divergence.overlapping_files@;
            let lines = overlap_lines(divergence);
            &&& files.len() == 0 && divergence.ahead@.len() > 0 && divergence.behind@.len() > 0
                ==> lines == seq!["  兩側沒有改到同一個檔案，可以確定不會衝突"@]
            &&& files.len() == 0 && (divergence.ahead@.len() == 0 || divergence.behind@.len() == 0)
                ==> lines.len() == 0
            &&& files.len() > 0 ==> lines[0] == "  兩側都改到的檔案 "@ + decimal_digits(files.len())
                + " 個（可能衝突，非必然）："@
            &&& 0 <= i < 8 && i < files.len() ==> lines[i + 1] == "    "@ + files[i]@
            &&& 0 < files.len() <= 8 ==> lines.len() == files.len() + 1
            &&& files.len() > 8 ==> lines.len() == 10 && lines[9] == "    … 另有 "@
                + decimal_digits((files.len() - 8) as nat) + " 個"@
        }),
{
    let files = divergence.overlapping_files@;
    let views = text::views_of(files);
    assert(views.len() == files.len());
    first_paths_are_listed(views, i);
    if 0 <= i < files.len() {
        assert(views[i] == files[i]@);
    }
}

/// What is told of uncommitted files that are at risk: how many there are, and the first
/// eight. Nothing is told where there are none.
pub proof fn files_at_risk_are_told_of(divergence: Divergence, i: int)
    ensures
        ({
            let files = divergence.uncommitted_overlap@;
            let lines = warning_lines(divergence);
            &&& files.len() == 0 <==> lines.len() == 0
            &&& files.len() > 0 ==> lines[0] == "  警告："@ + decimal_digits(files.len())
                + " 個尚未提交的檔案會被進來的變更影響："@
            &&& 0 <= i < 8 && i < files.len() ==> lines[i + 1] == "    "@ + files[i]@
            &&& files.len() > 8 ==> lines.len() == 9
            &&& 0 < files.len() <= 8 ==> lines.len() == files.len() + 1
        }),
{
    let files = divergence.uncommitted_overlap@;
    let views = text::views_of(files);
    assert(views.len() == files.len());
    first_paths_are_listed(views, i);
    if 0 <= i < files.len() {
        assert(views[i] == files[i]@);
    }
}

/// Where a branch tracks another, the numbers of commits on each side are told, and the
/// commits on each side are listed last: those to come first, then those to push.
pub proof fn both_sides_are_told_of(divergence: Divergence)
    ensures
        divergence.upstream is None ==> sync_lines(divergence).len() == 1,
        divergence.upstream is Some ==> ({
            let lines = sync_lines(divergence);
            let (ahead, behind) = (divergence.ahead@, divergence.behind@);
            let incoming = commit_lines("即將進來"@, behind);
            let outgoing = commit_lines("尚未推送"@, ahead);
            &&& lines.len() >= 2 + incoming.len() + outgoing.len()
            &&& lines[1] == "  本機獨有 "@ + decimal_digits(ahead.len()) + " 個 commit · 遠端獨有 "@
                + decimal_digits(behind.len()) + " 個 commit"@
            &&& behind.len() > 0 ==> lines[2] == "  即將進來的變更觸及 "@ + decimal_digits(
                divergence.incoming_files@.len(),
            ) + " 個檔案"@
            &&& lines.skip(lines.len() - outgoing.len()) == outgoing
            &&& lines.skip(lines.len() - outgoing.len() - incoming.len()).take(
                incoming.len() as int,
            ) == incoming
        }),
{
    if divergence.upstream is Some {
        let lines = sync_lines(divergence);
        let incoming = commit_lines("即將進來"@, divergence.behind@);
        let outgoing = commit_lines("尚未推送"@, divergence.ahead@);
        assert(lines.skip(lines.len() - outgoing.len()) =~= outgoing);
        assert(lines.skip(lines.len() - outgoing.len() - incoming.len()).take(
            incoming.len() as int,
        ) =~= incoming);
    }
}

/// A line of a difference shows its sign and its text with what changed in it.
pub proof fn lines_show_their_sign(line: DiffLine)
    ensures
        diff_line(line).len() >= 4,
        line.kind == LineKind::Added ==> diff_line(line)[3] == '+',
        line.kind == LineKind::Removed ==> diff_line(line)[3] == '-',
        line.kind == LineKind::Context ==> diff_line(line)[3] == ' ',
        diff_line(line).skip(4) == marked_text(line.content@, line.spans@),
        line.spans@.len() == 0 ==> diff_line(line).skip(4) == line.content@,
{
    reveal_strlit("   ");
    assert(diff_line(line).skip(4) =~= marked_text(line.content@, line.spans@));
}

/// A section is headed by its header, and remarked upon exactly if what comes in touches it
/// or if it is a matter of white space alone.
pub proof fn sections_are_remarked_upon(hunk: Hunk, i: int)
    ensures
        hunk_lines(hunk).len() == hunk.lines@.len() + 1,
        hunk_lines(hunk)[0] == "   "@ + hunk.header@ + " "@ + remarks(hunk),
        0 <= i < hunk.lines@.len() ==> hunk_lines(hunk)[i + 1] == diff_line(hunk.lines@[i]),
        remarks(hunk).len() == 0 <==> !hunk.collides_with_incoming && !only_white_space(
            hunk.lines@,
        ),
        hunk.collides_with_incoming ==> "← 即將進來的變更也會改到這一段"@.is_prefix_of(
            remarks(hunk),
        ),
        only_white_space(hunk.lines@) && !hunk.collides_with_incoming ==> remarks(hunk)
            == "（只有空白差異）"@,
        only_white_space(hunk.lines@) && hunk.collides_with_incoming ==> remarks(hunk)
            == "← 即將進來的變更也會改到這一段"@ + " "@ + "（只有空白差異）"@,
        !only_white_space(hunk.lines@) && hunk.collides_with_incoming ==> remarks(hunk)
            == "← 即將進來的變更也會改到這一段"@,
{
    reveal_strlit("← 即將進來的變更也會改到這一段");
    reveal_strlit("（只有空白差異）");
    reveal_strlit(" ");
    reveal_strlit("");
    let first = "← 即將進來的變更也會改到這一段"@;
    if hunk.collides_with_incoming {
        assert(first =~= remarks(hunk).subrange(0, first.len() as int));
    }
}

proof fn lemma_sections_lines(hunks: Seq<Hunk>, count: nat)
    requires
        count <= hunks.len(),
    ensures
        sections_lines(hunks, count) == hunks.take(count as int).map_values(
            |hunk: Hunk| hunk_lines(hunk),
        ).flatten(),
    decreases count,
{
    let parts = hunks.take(count as int).map_values(|hunk: Hunk| hunk_lines(hunk));
    parts.lemma_flatten_and_flatten_alt_are_equivalent();
    if count > 0 {
        let less = (count - 1) as nat;
        lemma_sections_lines(hunks, less);
        let fewer = hunks.take(less as int).map_values(|hunk: Hunk| hunk_lines(hunk));
        fewer.lemma_flatten_and_flatten_alt_are_equivalent();
        assert(parts.drop_last() =~= fewer);
        assert(parts.last() == hunk_lines(hunks[less as int]));
    } else {
        assert(parts =~= Seq::empty());
    }
}

/// A file shows its path, how many lines were added and removed, and all its sections, or
/// that it is binary.
pub proof fn files_show_all_their_sections(file: FileDiff)
    ensures
        file_lines(file).len() > 0,
        file_lines(file)[0] == "\n── "@ + file.path@ + "  +"@ + decimal_digits(file.added as nat)
            + " −"@ + decimal_digits(file.removed as nat),
        file.is_binary ==> file_lines(file).skip(1) == seq!["   （二進位檔案）"@],
        !file.is_binary ==> file_lines(file).skip(1) == file.hunks@.map_values(
            |hunk: Hunk| hunk_lines(hunk),
        ).flatten(),
{
    lemma_sections_lines(file.hunks@, file.hunks@.len());
    assert(file.hunks@.take(file.hunks@.len() as int) =~= file.hunks@);
    if file.is_binary {
        assert(file_lines(file).skip(1) =~= seq!["   （二進位檔案）"@]);
    } else {
        assert(file_lines(file).skip(1) =~= sections_lines(file.hunks@, file.hunks@.len()));
    }
}

/// All files are shown, one after the other.
pub proof fn all_files_are_shown(files: Seq<FileDiff>, count: nat)
    requires
        count <= files.len(),
    ensures
        files_lines(files, count) == files.take(count as int).map_values(
            |file: FileDiff| file_lines(file),
        ).flatten(),
    decreases count,
{
    let parts = files.take(count as int).map_values(|file: FileDiff| file_lines(file));
    parts.lemma_flatten_and_flatten_alt_are_equivalent();
    if count > 0 {
        let less = (count - 1) as nat;
        all_files_are_shown(files, less);
        let fewer = files.take(less as int).map_values(|file: FileDiff| file_lines(file));
        fewer.lemma_flatten_and_flatten_alt_are_equivalent();
        assert(parts.drop_last() =~= fewer);
        assert(parts.last() == file_lines(files[less as int]));
    } else {
        assert(parts =~= Seq::empty());
    }
}

/// At most so many items are taken, the first ones, and all where there are no more.
pub proof fn first_items_are_taken<T>(items: Seq<T>, count: nat, i: int)
    ensures
        at_most(items, count).len() <= count,
        at_most(items, count).len() <= items.len(),
        at_most(items, count).len() == count || at_most(items, count).len() == items.len(),
        0 <= i < at_most(items, count).len() ==> at_most(items, count)[i] == items[i],
{
}

/// What is wrong with a limit is told: that it is too large, where it is a number that is,
/// and otherwise that it is no number.
pub proof fn failures_of_limits_are_told_apart(value: Seq<char>)
    ensures
        value.len() > 0 && (forall|i: int|
            0 <= i < value.len() ==> '0' <= #[trigger] value[i] <= '9') && digits_value(value)
            > usize::MAX ==> limit_failure(value) == "number too large to fit in target type"@,
        value.len() > 0 && value[0] != '+' && !('0' <= value[0] <= '9') ==> limit_failure(value)
            == "invalid digit found in string"@,
        value == seq!['+'] ==> limit_failure(value) == "invalid digit found in string"@,
{
    let digits = unsigned_part(value);
    if value.len() > 0 && (forall|i: int|
        0 <= i < value.len() ==> '0' <= #[trigger] value[i] <= '9') && digits_value(value)
        > usize::MAX {
        assert('0' <= value[0] <= '9');
        assert(value.take(value.len() as int) =~= value);
        assert(all_digits(digits.take(digits.len() as int))) by {
            assert(digits == value);
            assert forall|i: int| 0 <= i < value.len() implies is_digit(#[trigger] value[i]) by {
                assert('0' <= value[i] <= '9');
            }
        }
    }
    if value.len() > 0 && value[0] != '+' && !('0' <= value[0] <= '9') {
        assert(digits == value);
        assert forall|k: int| 0 <= k <= digits.len() && all_digits(
            #[trigger] digits.take(k),
        ) implies digits_value(digits.take(k)) <= usize::MAX by {
            if k > 0 {
                assert(is_digit(digits.take(k)[0]));
            }
        }
    }
    if value == seq!['+'] {
        assert forall|k: int| 0 <= k <= digits.len() && all_digits(
            #[trigger] digits.take(k),
        ) implies digits_value(digits.take(k)) <= usize::MAX by {
            assert(digits.len() == 0);
        }
    }
}

/// A history is drawn row by row, from the first one on, and what is not drawn is told behind
/// the rows.
pub proof fn histories_are_drawn_row_by_row(
    layout: Layout,
    nodes: Seq<Node>,
    limit: usize,
    row: int,
)
    ensures
        ({
            let lines = history_lines(layout, nodes, limit);
            let rows = if limit < layout.order@.len() {
                limit as nat
            } else {
                layout.order@.len()
            };
            &&& lines.len() >= rows
            &&& 0 <= row < rows ==> lines[row] == row_line(layout, nodes, row)
            &&& lines.skip(rows as int) == closing_lines(layout, limit)
        }),
{
    let lines = history_lines(layout, nodes, limit);
    assert(lines.skip(drawn_rows(layout, limit) as int) =~= closing_lines(layout, limit));
}

/// Where there are no changes it is said so, and otherwise all of them are shown.
pub proof fn changes_are_all_shown(files: Seq<FileDiff>)
    ensures
        files.len() == 0 ==> changes_lines(files) == seq!["沒有未提交的變更"@],
        files.len() > 0 ==> changes_lines(files) == files.map_values(
            |file: FileDiff| file_lines(file),
        ).flatten(),
{
    all_files_are_shown(files, files.len());
    assert(files.take(files.len() as int) =~= files);
}

/// Without arguments forty rows of the history of the current directory are asked for, and a
/// path alone changes nothing else.
pub proof fn forty_rows_are_asked_for(path: Seq<char>)
    requires
        path.len() == 0 || path[0] != '-',
    ensures
        asked_by(Seq::empty()) == Ok::<Asked, Seq<char>>(
            Asked { path: "."@, limit: 40, show_diff: false },
        ),
        asked_by(seq![path]) == Ok::<Asked, Seq<char>>(
            Asked { path, limit: 40, show_diff: false },
        ),
{
    first_plain_argument_is_the_path(path, Seq::empty(), path, 40, false);
    assert(seq![path] + Seq::<Seq<char>>::empty() =~= seq![path]);
    nothing_asked_is_the_current_directory(Some(path), 40, false);
}

} // verus!
