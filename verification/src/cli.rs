//! The command line: its arguments, and the history drawn with characters.
use vstd::prelude::*;

use crate::dag::{CommitGraph, Node};
use crate::dto::can_draw;
use crate::git;
use crate::git::short_oid;
use crate::layout::{Edge, Layout};
use crate::repo::RepoSummary;
use crate::text;
use crate::text::{
    all_digits, decimal_digits, digits_value, digits_value_grows, head_of, is_digit, number_in,
    unsigned_part,
};

verus! {

/// The number of commits that are drawn, unless asked for otherwise.
pub const DEFAULT_LIMIT: usize = 40;

/// The number of lanes that are drawn at most. A real history may have hundreds.
pub const MAX_RENDERED_LANES: usize = 12;

/// What was asked for.
#[derive(Debug)]
pub struct Options {
    pub path: String,
    pub limit: usize,
    /// Show the uncommitted changes in place of the history.
    pub show_diff: bool,
}

/// What [`Options`] hold.
#[verifier::ext_equal]
pub struct Asked {
    pub path: Seq<char>,
    pub limit: usize,
    pub show_diff: bool,
}

impl View for Options {
    type V = Asked;

    open spec fn view(&self) -> Asked {
        Asked { path: self.path@, limit: self.limit, show_diff: self.show_diff }
    }
}

/// The number a limit stands for, if it is one.
pub open spec fn limit_in(value: Seq<char>) -> Option<usize> {
    match number_in(value) {
        Some(number) => if number <= usize::MAX {
            Some(number as usize)
        } else {
            None
        },
        None => None,
    }
}

/// Whether the digits from the start of a text on come to more than a limit can be.
pub open spec fn grows_too_large(digits: Seq<char>) -> bool {
    exists|k: int|
        0 <= k <= digits.len() && all_digits(#[trigger] digits.take(k)) && digits_value(
            digits.take(k),
        ) > usize::MAX
}

/// What is wrong with a text that is no limit.
pub open spec fn limit_failure(value: Seq<char>) -> Seq<char> {
    if value.len() == 0 {
        "cannot parse integer from empty string"@
    } else if grows_too_large(unsigned_part(value)) {
        "number too large to fit in target type"@
    } else {
        "invalid digit found in string"@
    }
}

fn parse_limit(value: &str) -> (r: Result<usize, &'static str>)
    ensures
        match r {
            Ok(limit) => limit_in(value@) == Some(limit),
            Err(failure) => limit_in(value@) is None && failure@ == limit_failure(value@),
        },
{
    let chars = text::chars_of(value);
    if chars.len() == 0 {
        return Err("cannot parse integer from empty string");
    }
    let start: usize = if chars[0] == '+' {
        1
    } else {
        0
    };
    let ghost digits = unsigned_part(value@);
    assert(value@.skip(0) =~= value@);
    assert(digits.take(0) =~= Seq::empty());
    let mut limit: usize = 0;
    let mut index: usize = start;
    while index < chars.len()
        invariant
            start <= index <= chars@.len(),
            chars@ == value@,
            value@.len() > 0,
            digits == value@.skip(start as int),
            digits == unsigned_part(value@),
            limit == digits_value(digits.take(index - start)),
            all_digits(digits.take(index - start)),
        decreases chars@.len() - index,
    {
        let c = chars[index];
        let ghost count = index - start;
        let ghost longer = digits.take(count + 1);
        proof {
            assert(digits[count] == c);
            assert(longer.drop_last() =~= digits.take(count));
            assert(longer.last() == c);
        }
        if c < '0' || '9' < c {
            proof {
                assert(!is_digit(digits[count]));
                assert forall|k: int| 0 <= k <= digits.len() && all_digits(
                    #[trigger] digits.take(k),
                ) implies digits_value(digits.take(k)) <= usize::MAX by {
                    if k > count {
                        assert(digits.take(k)[count] == c);
                    } else {
                        digits_value_grows(digits.take(count), k);
                        assert(digits.take(count).take(k) =~= digits.take(k));
                    }
                }
            }
            return Err("invalid digit found in string");
        }
        let unit = c as u128 - '0' as u128;
        let sum = 10 * limit as u128 + unit;
        proof {
            assert(digits_value(longer) == sum);
            assert forall|i: int| 0 <= i < longer.len() implies is_digit(#[trigger] longer[i]) by {
                if i < count {
                    assert(longer[i] == digits.take(count)[i]);
                }
            }
        }
        if sum > usize::MAX as u128 {
            proof {
                assert(all_digits(digits.take(count + 1)));
                digits_value_grows(digits, count + 1);
            }
            return Err("number too large to fit in target type");
        }
        limit = sum as usize;
        index += 1;
    }
    assert(digits.take(index - start) =~= digits);
    if start == chars.len() {
        proof {
            assert forall|k: int| 0 <= k <= digits.len() && all_digits(
                #[trigger] digits.take(k),
            ) implies digits_value(digits.take(k)) <= usize::MAX by {
                assert(digits.take(k) =~= digits);
            }
        }
        return Err("invalid digit found in string");
    }
    Ok(limit)
}

/// What the arguments from `from` on ask for, after those before asked for `path`, `limit`
/// and `show_diff`; or what is wrong with them.
pub open spec fn asked(
    args: Seq<Seq<char>>,
    from: int,
    path: Option<Seq<char>>,
    limit: usize,
    show_diff: bool,
) -> Result<Asked, Seq<char>>
    decreases args.len() - from,
{
    if from >= args.len() {
        Ok(
            Asked {
                path: match path {
                    Some(path) => path,
                    None => "."@,
                },
                limit,
                show_diff,
            },
        )
    } else {
        let arg = args[from];
        if arg == "--limit"@ || arg == "-n"@ {
            if from + 1 >= args.len() {
                Err("--limit 後面需要一個數字"@)
            } else {
                match limit_in(args[from + 1]) {
                    Some(limit) => asked(args, from + 2, path, limit, show_diff),
                    None => Err(
                        "--limit 的值不是有效數字："@ + args[from + 1] + ": "@ + limit_failure(
                            args[from + 1],
                        ),
                    ),
                }
            }
        } else if arg == "--diff"@ || arg == "-d"@ {
            asked(args, from + 1, path, limit, true)
        } else if "-"@.is_prefix_of(arg) {
            Err("未知的選項："@ + arg)
        } else if path is Some {
            Err("只能指定一個 repository 路徑"@)
        } else {
            asked(args, from + 1, Some(arg), limit, show_diff)
        }
    }
}

/// What a list of arguments asks for, or what is wrong with it.
pub open spec fn asked_by(args: Seq<Seq<char>>) -> Result<Asked, Seq<char>> {
    asked(args, 0, None, DEFAULT_LIMIT, false)
}

/// Reads the arguments.
pub fn parse_args(args: &Vec<String>) -> (r: Result<Options, String>)
    ensures
        match r {
            Ok(options) => asked_by(text::views_of(args@)) == Ok::<Asked, Seq<char>>(options@),
            Err(error) => asked_by(text::views_of(args@)) == Err::<Asked, Seq<char>>(error@),
        },
{
    let ghost texts = text::views_of(args@);
    let ghost all = asked(texts, 0, None, DEFAULT_LIMIT, false);
    let mut path: Option<String> = None;
    let mut limit: usize = DEFAULT_LIMIT;
    let mut show_diff = false;
    let mut index: usize = 0;
    while index < args.len()
        invariant
            index <= args@.len(),
            texts == text::views_of(args@),
            all == asked(texts, 0, None, DEFAULT_LIMIT, false),
            all == asked(texts, index as int, text::view_of(path), limit, show_diff),
        decreases args@.len() - index,
    {
        assert(index < args.len());
        let arg = args[index].as_str();
        assert(texts[index as int] == arg@);
        if text::same(arg, "--limit") || text::same(arg, "-n") {
            index += 1;
            if index >= args.len() {
                return Err("--limit 後面需要一個數字".to_owned());
            }
            assert(index < args.len());
            let value = args[index].as_str();
            assert(texts[index as int] == value@);
            match parse_limit(value) {
                Ok(number) => {
                    limit = number;
                },
                Err(failure) => {
                    let error = text::plus("--limit 的值不是有效數字：".to_owned(), value);
                    return Err(text::plus(text::plus(error, ": "), failure));
                },
            }
        } else if text::same(arg, "--diff") || text::same(arg, "-d") {
            show_diff = true;
        } else if text::starts_with(arg, "-") {
            return Err(text::plus("未知的選項：".to_owned(), arg));
        } else {
            if path.is_some() {
                return Err("只能指定一個 repository 路徑".to_owned());
            }
            path = Some(arg.to_owned());
        }
        index += 1;
    }
    let path = match path {
        Some(path) => path,
        None => ".".to_owned(),
    };
    Ok(Options { path, limit, show_diff })
}

/// Adds a line to a list of lines.
pub(crate) fn push_line(lines: &mut Vec<String>, line: String)
    ensures
        text::views_of(final(lines)@) == text::views_of(old(lines)@).push(line@),
{
    let ghost held = lines@;
    lines.push(line);
    assert(text::views_of(lines@) =~= text::views_of(held).push(line@));
}

/// A text with a number in it.
pub(crate) fn say(start: &str, number: usize, end: &str) -> (r: String)
    ensures
        r@ == start@ + decimal_digits(number as nat) + end@,
{
    let counted = text::plus(start.to_owned(), text::decimal(number as u64).as_str());
    text::plus(counted, end)
}

/// A text with the next number in it.
pub(crate) fn say_on(start: String, number: usize, end: &str) -> (r: String)
    ensures
        r@ == start@ + decimal_digits(number as nat) + end@,
{
    let counted = text::plus(start, text::decimal(number as u64).as_str());
    text::plus(counted, end)
}

/// The end at the top of a line.
pub open spec fn upper_row(edge: Edge) -> int {
    if edge.child_row < edge.parent_row {
        edge.child_row as int
    } else {
        edge.parent_row as int
    }
}

/// The end at the bottom of a line.
pub open spec fn lower_row(edge: Edge) -> int {
    if edge.child_row < edge.parent_row {
        edge.parent_row as int
    } else {
        edge.child_row as int
    }
}

/// Whether a line passes through a row in a lane. The rows of its ends do not count: there
/// stand the commits.
pub open spec fn passes(edge: Edge, row: int, lane: int) -> bool {
    edge.parent_lane == lane && upper_row(edge) < row < lower_row(edge)
}

/// Whether one of the first `count` lines passes through a row in a lane.
pub open spec fn is_passed(edges: Seq<Edge>, count: int, row: int, lane: int) -> bool {
    exists|i: int| 0 <= i < count && passes(#[trigger] edges[i], row, lane)
}

/// Whether each line ends at rows that there are.
pub open spec fn ends_in_rows(layout: Layout) -> bool {
    forall|i: int|
        0 <= i < layout.edges@.len() ==> (#[trigger] layout.edges@[i]).child_row
            < layout.order@.len() && layout.edges@[i].parent_row < layout.order@.len()
}

/// Whether a table says of the rows and lanes whether one of the first `count` lines passes
/// through them.
pub open spec fn tells_passing(
    table: Seq<Vec<bool>>,
    edges: Seq<Edge>,
    count: int,
    rows: nat,
    lanes: nat,
) -> bool {
    &&& table.len() == rows
    &&& forall|row: int| 0 <= row < rows ==> (#[trigger] table[row])@.len() == lanes
    &&& forall|row: int, lane: int|
        0 <= row < rows && 0 <= lane < lanes ==> #[trigger] table[row]@[lane] == is_passed(
            edges,
            count,
            row,
            lane,
        )
}

fn empty_rows(rows: usize, lanes: usize) -> (r: Vec<Vec<bool>>)
    ensures
        r@.len() == rows,
        forall|row: int| 0 <= row < rows ==> (#[trigger] r@[row])@.len() == lanes,
        forall|row: int, lane: int|
            0 <= row < rows && 0 <= lane < lanes ==> !#[trigger] r@[row]@[lane],
{
    let mut table: Vec<Vec<bool>> = Vec::new();
    let mut row: usize = 0;
    while row < rows
        invariant
            row <= rows,
            table@.len() == row,
            forall|i: int| 0 <= i < row ==> (#[trigger] table@[i])@.len() == lanes,
            forall|i: int, lane: int|
                0 <= i < row && 0 <= lane < lanes ==> !#[trigger] table@[i]@[lane],
        decreases rows - row,
    {
        table.push(vec![false; lanes]);
        row += 1;
    }
    table
}

/// Which lanes of which rows lines pass through.
pub fn passing_lanes(layout: &Layout) -> (r: Vec<Vec<bool>>)
    requires
        ends_in_rows(*layout),
    ensures
        tells_passing(
            r@,
            layout.edges@,
            layout.edges@.len() as int,
            layout.order@.len(),
            layout.lane_count as nat,
        ),
{
    let rows = layout.rows();
    let lanes = layout.lane_count;
    let mut busy = empty_rows(rows, lanes);
    let mut index: usize = 0;
    while index < layout.edges.len()
        invariant
            index <= layout.edges@.len(),
            rows == layout.order@.len(),
            lanes == layout.lane_count,
            ends_in_rows(*layout),
            tells_passing(busy@, layout.edges@, index as int, rows as nat, lanes as nat),
        decreases layout.edges@.len() - index,
    {
        let edge = layout.edges[index];
        let ghost edges = layout.edges@;
        assert(edges[index as int] == edge);
        let lane = edge.parent_lane;
        let ghost before = busy@;
        let upper = if edge.child_row < edge.parent_row {
            edge.child_row
        } else {
            edge.parent_row
        };
        let end = if edge.child_row < edge.parent_row {
            edge.parent_row
        } else {
            edge.child_row
        };
        if lane < lanes {
            let mut row: usize = upper + 1;
            while row < end
                invariant
                    upper < row,
                    end < rows,
                    lane < lanes,
                    busy@.len() == rows,
                    before.len() == rows,
                    forall|i: int| 0 <= i < rows ==> (#[trigger] busy@[i])@.len() == lanes,
                    forall|i: int, l: int|
                        0 <= i < rows && 0 <= l < lanes ==> #[trigger] busy@[i]@[l]
                            == (before[i]@[l] || (l == lane && upper < i < row && i < end)),
                decreases end - row,
            {
                let ghost held = busy@;
                busy[row][lane] = true;
                assert forall|i: int, l: int| 0 <= i < rows && 0 <= l < lanes implies #[trigger] busy@[i]@[l]
                    == (held[i]@[l] || (i == row && l == lane)) by {
                    if i != row {
                        assert(busy@[i] == held[i]);
                    }
                }
                row += 1;
            }
        }
        proof {
            assert forall|row: int, l: int|
                0 <= row < rows && 0 <= l < lanes implies #[trigger] busy@[row]@[l] == is_passed(
                edges,
                index + 1,
                row,
                l,
            ) by {
                assert(before[row]@[l] == is_passed(edges, index as int, row, l));
                if passes(edge, row, l) {
                    assert(passes(edges[index as int], row, l));
                }
                if is_passed(edges, index as int, row, l) {
                    let i = choose|i: int| 0 <= i < index && passes(#[trigger] edges[i], row, l);
                    assert(passes(edges[i], row, l));
                }
                if is_passed(edges, index + 1, row, l) && !passes(edge, row, l) {
                    let i = choose|i: int| 0 <= i < index + 1 && passes(#[trigger] edges[i], row, l);
                    assert(i != index);
                }
            }
        }
        index += 1;
    }
    busy
}

/// The character drawn in a lane.
pub open spec fn mark(node: Node, lane: usize, passed: bool, column: int) -> char {
    if column == lane {
        if node.parents.len() >= 2 {
            '◍'
        } else {
            '●'
        }
    } else if passed {
        '│'
    } else {
        ' '
    }
}

/// The lanes of a row, each followed by a space.
pub open spec fn track(
    layout: Layout,
    node: Node,
    row: int,
    lane: usize,
    columns: nat,
) -> Seq<char>
    decreases columns,
{
    if columns == 0 {
        Seq::empty()
    } else {
        let column = columns - 1;
        let passed = is_passed(layout.edges@, layout.edges@.len() as int, row, column);
        track(layout, node, row, lane, (columns - 1) as nat).push(
            mark(node, lane, passed, column),
        ).push(' ')
    }
}

/// A text with spaces behind it, so that it is at least three characters long.
pub open spec fn padded(number: Seq<char>) -> Seq<char> {
    if number.len() >= 3 {
        number
    } else if number.len() == 2 {
        number + " "@
    } else if number.len() == 1 {
        number + "  "@
    } else {
        number + "   "@
    }
}

fn pad(number: String) -> (r: String)
    ensures
        r@ == padded(number@),
{
    let length = text::chars_of(number.as_str()).len();
    if length >= 3 {
        number
    } else if length == 2 {
        text::plus(number, " ")
    } else if length == 1 {
        text::plus(number, "  ")
    } else {
        text::plus(number, "   ")
    }
}

/// The number of lanes that are drawn.
pub open spec fn drawn_lanes(layout: Layout) -> nat {
    if layout.lane_count < MAX_RENDERED_LANES {
        layout.lane_count as nat
    } else {
        MAX_RENDERED_LANES as nat
    }
}

/// What stands between the lanes and the commit: the lane, where it is not drawn, so that
/// no commit is lost.
pub open spec fn overflow_mark(lane: usize, width: nat) -> Seq<char> {
    if lane >= width {
        "→"@ + padded(decimal_digits(lane as nat)) + " "@
    } else {
        "     "@
    }
}

/// The line of a row.
pub open spec fn row_line(layout: Layout, nodes: Seq<Node>, row: int) -> Seq<char> {
    let node = nodes[layout.order@[row] as int];
    let lane = layout.lane_of@[layout.order@[row] as int];
    let width = drawn_lanes(layout);
    track(layout, node, row, lane, width) + overflow_mark(lane, width) + short_oid(node.oid)
        + "  "@ + head_of(node.summary, 56)
}

/// The number of rows that are drawn.
pub open spec fn drawn_rows(layout: Layout, limit: usize) -> nat {
    if limit < layout.order@.len() {
        limit as nat
    } else {
        layout.order@.len()
    }
}

/// The lines behind the drawing: what is not drawn.
pub open spec fn closing_lines(layout: Layout, limit: usize) -> Seq<Seq<char>> {
    let width = drawn_lanes(layout);
    let shown = drawn_rows(layout, limit);
    let lanes = if layout.lane_count > width {
        seq![
            "（僅繪製前 "@ + decimal_digits(width) + " 條線道，另有 "@ + decimal_digits(
                (layout.lane_count - width) as nat,
            ) + " 條未繪製）"@,
        ]
    } else {
        Seq::empty()
    };
    let rows = if layout.order@.len() > shown {
        seq![
            "… 其餘 "@ + decimal_digits((layout.order@.len() - shown) as nat)
                + " 個 commit 未顯示"@,
        ]
    } else {
        Seq::empty()
    };
    lanes + rows
}

fn draw_track(
    layout: &Layout,
    busy: &Vec<bool>,
    is_merge: bool,
    lane: usize,
    width: usize,
    Ghost(node): Ghost<Node>,
    Ghost(row): Ghost<int>,
) -> (r: String)
    requires
        is_merge == (node.parents.len() >= 2),
        width <= busy@.len(),
        forall|column: int|
            0 <= column < width ==> #[trigger] busy@[column] == is_passed(
                layout.edges@,
                layout.edges@.len() as int,
                row,
                column,
            ),
    ensures
        r@ == track(*layout, node, row, lane, width as nat),
{
    let mut out = String::new();
    let mut column: usize = 0;
    assert(out@ =~= Seq::empty());
    while column < width
        invariant
            column <= width,
            is_merge == (node.parents.len() >= 2),
            width <= busy@.len(),
            forall|column: int|
                0 <= column < width ==> #[trigger] busy@[column] == is_passed(
                    layout.edges@,
                    layout.edges@.len() as int,
                    row,
                    column,
                ),
            out@ == track(*layout, node, row, lane, column as nat),
        decreases width - column,
    {
        let drawn = if column == lane {
            if is_merge {
                '◍'
            } else {
                '●'
            }
        } else if busy[column] {
            '│'
        } else {
            ' '
        };
        out.push(drawn);
        out.push(' ');
        column += 1;
    }
    out
}

/// The lines of a history: one for each row that is drawn, and what is not drawn.
pub open spec fn history_lines(
    layout: Layout,
    nodes: Seq<Node>,
    limit: usize,
) -> Seq<Seq<char>> {
    Seq::new(drawn_rows(layout, limit), |row: int| row_line(layout, nodes, row)) + closing_lines(
        layout,
        limit,
    )
}

/// Draws the first `limit` rows of a history.
pub fn render(graph: &CommitGraph, layout: &Layout, limit: usize) -> (r: Vec<String>)
    requires
        can_draw(graph@, *layout),
        ends_in_rows(*layout),
    ensures
        text::views_of(r@) == history_lines(*layout, graph@, limit),
{
    let busy = passing_lanes(layout);
    let rows = layout.rows();
    let shown = if limit < rows {
        limit
    } else {
        rows
    };
    let width = if layout.lane_count < MAX_RENDERED_LANES {
        layout.lane_count
    } else {
        MAX_RENDERED_LANES
    };
    let ghost drawn = Seq::new(
        drawn_rows(*layout, limit),
        |row: int| row_line(*layout, graph@, row),
    );
    let mut lines: Vec<String> = Vec::new();
    let mut row: usize = 0;
    assert(text::views_of(lines@) =~= drawn.take(0));
    while row < shown
        invariant
            row <= shown,
            shown == drawn_rows(*layout, limit),
            shown <= layout.order@.len(),
            width == drawn_lanes(*layout),
            can_draw(graph@, *layout),
            tells_passing(
                busy@,
                layout.edges@,
                layout.edges@.len() as int,
                layout.order@.len(),
                layout.lane_count as nat,
            ),
            drawn == Seq::new(
                drawn_rows(*layout, limit),
                |row: int| row_line(*layout, graph@, row),
            ),
            text::views_of(lines@) == drawn.take(row as int),
        decreases shown - row,
    {
        let node = layout.order[row];
        let lane = layout.lane_of[node];
        let commit = graph.commit(node);
        assert(busy@[row as int]@.len() == layout.lane_count);
        let track = draw_track(
            layout,
            &busy[row],
            commit.is_merge(),
            lane,
            width,
            Ghost(commit@),
            Ghost(row as int),
        );
        let overflow = if lane >= width {
            let number = pad(text::decimal(lane as u64));
            text::plus(text::plus("→".to_owned(), number.as_str()), " ")
        } else {
            "     ".to_owned()
        };
        let line = text::plus(track, overflow.as_str());
        let line = text::plus(line, git::short(commit.oid.as_str()).as_str());
        let line = text::plus(line, "  ");
        let line = text::plus(line, text::first_chars(commit.summary.as_str(), 56).as_str());
        assert(line@ == drawn[row as int]);
        push_line(&mut lines, line);
        assert(drawn.take(row as int).push(drawn[row as int]) =~= drawn.take(row + 1));
        row += 1;
    }
    assert(drawn.take(shown as int) =~= drawn);
    if layout.lane_count > width {
        let line = say("（僅繪製前 ", width, " 條線道，另有 ");
        push_line(&mut lines, say_on(line, layout.lane_count - width, " 條未繪製）"));
    }
    if rows > shown {
        push_line(&mut lines, say("… 其餘 ", rows - shown, " 個 commit 未顯示"));
    }
    assert(text::views_of(lines@) =~= drawn + closing_lines(*layout, limit));
    lines
}

/// The line on the state of a repository.
pub open spec fn state_line(summary: RepoSummary) -> Seq<char> {
    "  分支 "@ + match summary.branch {
        Some(name) => name@,
        None => "(detached)"@,
    } + " · "@ + decimal_digits(summary.commit_count as nat) + " commits · "@ + decimal_digits(
        summary.merge_count as nat,
    ) + " merges · 工作目錄異動 "@ + decimal_digits(summary.dirty_files as nat) + " 個檔案"@
        + if summary.operation_in_progress {
        " · 有未完成的操作"@
    } else {
        ""@
    }
}

/// The line on the size of a drawing.
pub open spec fn size_line(layout: Layout) -> Seq<char> {
    "  佈局："@ + decimal_digits(layout.order@.len()) + " 列 · "@ + decimal_digits(
        layout.lane_count as nat,
    ) + " 條線道 · "@ + decimal_digits(
        layout.edges@.filter(|edge: Edge| edge.child_lane != edge.parent_lane).len(),
    ) + " 條需要跨線道"@
}

/// The lines above the drawing.
pub fn overview(summary: &RepoSummary, layout: &Layout) -> (r: Vec<String>)
    ensures
        text::views_of(r@) == seq![
            summary.path@,
            state_line(*summary),
            size_line(*layout),
            Seq::<char>::empty(),
        ],
{
    let mut lines: Vec<String> = Vec::new();
    push_line(&mut lines, summary.path.clone());
    let line = match &summary.branch {
        Some(name) => text::plus("  分支 ".to_owned(), name.as_str()),
        None => text::plus("  分支 ".to_owned(), "(detached)"),
    };
    let line = say_on(text::plus(line, " · "), summary.commit_count, " commits · ");
    let line = say_on(line, summary.merge_count, " merges · 工作目錄異動 ");
    let line = say_on(line, summary.dirty_files, " 個檔案");
    let line = if summary.operation_in_progress {
        text::plus(line, " · 有未完成的操作")
    } else {
        text::plus(line, "")
    };
    push_line(&mut lines, line);
    let line = say("  佈局：", layout.rows(), " 列 · ");
    let line = say_on(line, layout.lane_count, " 條線道 · ");
    push_line(&mut lines, say_on(line, layout.crossing_edges(), " 條需要跨線道"));
    push_line(&mut lines, String::new());
    assert(text::views_of(lines@) =~= seq![
        summary.path@,
        state_line(*summary),
        size_line(*layout),
        Seq::<char>::empty(),
    ]);
    lines
}

} // verus!
