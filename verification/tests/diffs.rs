//! Differences, the marks within lines, and partial selections.
use gitview::compare::{
    comparison, commit_options, file_history, Comparison, FileHistory, Visit,
};
use gitview::diff::{
    annotate_intra_line, build_file_diffs, changed_spans, commit_diff, incoming_line_ranges,
    is_whitespace_only_change, mark_incoming_collisions, ranges_overlap, tokenize, workspace_diff,
    DiffLine, DiffSource, FileDiff, Hunk, LineKind,
};
use gitview::patch::{IncomingRanges, RawDelta, RawHunk, RawLine};
use gitview::report::{mark_spans, print_diff};
use gitview::selection::{apply_selection, unpicked, Content, LineRef};

#[test]
fn tokenizer_keeps_identifiers_together() {
    let found = tokenize("let value_1 = 2;");
    let tokens: Vec<&str> = found.iter().map(|(_, t)| t.as_str()).collect();
    assert!(tokens.contains(&"value_1"));
    assert!(tokens.contains(&"let"));
    assert!(tokens.contains(&";"));
}

#[test]
fn tokenizer_does_not_split_multibyte_characters() {
    let found = tokenize("你好 world");
    let tokens: Vec<&str> = found.iter().map(|(_, t)| t.as_str()).collect();
    assert!(tokens.contains(&"你"));
    assert!(tokens.contains(&"好"));
    assert!(tokens.contains(&"world"));
}

#[test]
fn tokens_make_up_the_text() {
    let found = tokenize("a1 你_b\t");
    let offsets: Vec<usize> = found.iter().map(|(offset, _)| *offset).collect();
    assert_eq!(offsets, vec![0, 2, 3, 6, 8]);
    let text: String = found.iter().map(|(_, token)| token.as_str()).collect();
    assert_eq!(text, "a1 你_b\t");
    assert!(tokenize("").is_empty());
}

#[test]
fn intra_line_spans_cover_only_the_changed_part() {
    let (old_spans, new_spans) = changed_spans("let total = 1;", "let total = 42;");
    assert_eq!(old_spans.len(), 1);
    assert_eq!(new_spans.len(), 1);
    assert_eq!(&"let total = 1;"[old_spans[0].start..old_spans[0].end], "1");
    assert_eq!(
        &"let total = 42;"[new_spans[0].start..new_spans[0].end],
        "42"
    );
}

#[test]
fn identical_lines_have_no_spans() {
    let (old_spans, new_spans) = changed_spans("same", "same");
    assert!(old_spans.is_empty());
    assert!(new_spans.is_empty());
}

#[test]
fn an_insertion_marks_one_side_only() {
    let (old_spans, new_spans) = changed_spans("a b", "a x b");
    assert!(old_spans.is_empty());
    assert_eq!(new_spans.len(), 1);
    assert_eq!((new_spans[0].start, new_spans[0].end), (2, 4));
}

#[test]
fn whitespace_only_changes_are_detected() {
    assert!(is_whitespace_only_change("  let a = 1;", "\tlet a = 1;"));
    assert!(is_whitespace_only_change("a b", "a  b"));
    assert!(!is_whitespace_only_change("let a = 1;", "let a = 2;"));
}

#[test]
fn overlapping_ranges_are_detected() {
    assert!(ranges_overlap((10, 20), (15, 25)));
    assert!(ranges_overlap((10, 20), (20, 30)), "邊界相接視為重疊");
    assert!(!ranges_overlap((10, 20), (21, 30)));
    assert!(ranges_overlap((10, 20), (12, 14)), "完全包含也算");
}

#[test]
fn collisions_are_marked_only_on_overlapping_hunks() {
    let mut diffs = vec![FileDiff {
        path: "a.rs".to_owned(),
        old_path: None,
        is_binary: false,
        added: 0,
        removed: 0,
        hunks: vec![
            Hunk {
                header: String::new(),
                old_start: 10,
                old_lines: 5,
                new_start: 10,
                new_lines: 5,
                lines: Vec::new(),
                collides_with_incoming: false,
            },
            Hunk {
                header: String::new(),
                old_start: 100,
                old_lines: 2,
                new_start: 100,
                new_lines: 2,
                lines: Vec::new(),
                collides_with_incoming: false,
            },
        ],
    }];
    let mut incoming = IncomingRanges::new();
    incoming.insert("a.rs", vec![(12u32, 18u32)]);

    mark_incoming_collisions(&mut diffs, &incoming);
    assert!(diffs[0].hunks[0].collides_with_incoming, "第一段重疊");
    assert!(!diffs[0].hunks[1].collides_with_incoming, "第二段不重疊");
}

#[test]
fn files_without_incoming_changes_are_left_alone() {
    let mut diffs = vec![FileDiff {
        path: "b.rs".to_owned(),
        old_path: None,
        is_binary: false,
        added: 0,
        removed: 0,
        hunks: vec![Hunk {
            header: String::new(),
            old_start: 1,
            old_lines: 1,
            new_start: 1,
            new_lines: 1,
            lines: Vec::new(),
            collides_with_incoming: false,
        }],
    }];
    mark_incoming_collisions(&mut diffs, &IncomingRanges::new());
    assert!(!diffs[0].hunks[0].collides_with_incoming);
}

fn line(kind: LineKind, content: &str) -> DiffLine {
    DiffLine {
        kind,
        content: content.to_owned(),
        old_lineno: None,
        new_lineno: None,
        spans: Vec::new(),
        whitespace_only: false,
        pair: None,
    }
}

#[test]
fn paired_changes_get_intra_line_annotation() {
    let mut lines = vec![
        line(LineKind::Context, "unchanged"),
        line(LineKind::Removed, "let a = 1;"),
        line(LineKind::Added, "let a = 2;"),
    ];
    annotate_intra_line(&mut lines);
    assert!(!lines[1].spans.is_empty(), "刪除行應標出變動處");
    assert!(!lines[2].spans.is_empty(), "新增行應標出變動處");
    assert!(lines[0].spans.is_empty(), "未變更的行不應被標記");
}

#[test]
fn partners_point_at_each_other() {
    let mut lines = vec![
        line(LineKind::Removed, "one"),
        line(LineKind::Removed, "two"),
        line(LineKind::Added, "ONE"),
        line(LineKind::Added, "TWO"),
        line(LineKind::Context, "rest"),
    ];
    annotate_intra_line(&mut lines);
    let pairs: Vec<Option<usize>> = lines.iter().map(|line| line.pair).collect();
    assert_eq!(pairs, vec![Some(2), Some(3), Some(0), Some(1), None]);
}

#[test]
fn unpaired_changes_are_left_unannotated() {
    let mut lines = vec![
        line(LineKind::Removed, "old"),
        line(LineKind::Added, "new one"),
        line(LineKind::Added, "new two"),
        line(LineKind::Added, "new three"),
    ];
    annotate_intra_line(&mut lines);
    assert!(lines.iter().all(|line| line.spans.is_empty()));
}

#[test]
fn a_hunk_of_only_whitespace_changes_is_flagged() {
    let mut lines = vec![
        line(LineKind::Context, "fn main() {"),
        line(LineKind::Removed, "  let a = 1;"),
        line(LineKind::Added, "\tlet a = 1;"),
    ];
    annotate_intra_line(&mut lines);
    let hunk = Hunk {
        header: String::new(),
        old_start: 1,
        old_lines: 2,
        new_start: 1,
        new_lines: 2,
        lines,
        collides_with_incoming: false,
    };
    assert!(hunk.whitespace_only());
}

#[test]
fn a_hunk_with_real_changes_is_not_flagged_as_whitespace() {
    let mut lines = vec![
        line(LineKind::Removed, "let a = 1;"),
        line(LineKind::Added, "let a = 2;"),
    ];
    annotate_intra_line(&mut lines);
    let hunk = Hunk {
        header: String::new(),
        old_start: 1,
        old_lines: 1,
        new_start: 1,
        new_lines: 1,
        lines,
        collides_with_incoming: false,
    };
    assert!(!hunk.whitespace_only());
}

#[test]
fn an_all_context_hunk_is_not_whitespace_only() {
    let hunk = Hunk {
        header: String::new(),
        old_start: 1,
        old_lines: 1,
        new_start: 1,
        new_lines: 1,
        lines: vec![line(LineKind::Context, "unchanged")],
        collides_with_incoming: false,
    };
    assert!(!hunk.whitespace_only());
}

fn raw_line(origin: char, content: &str, old: Option<u32>, new: Option<u32>) -> RawLine {
    RawLine {
        origin,
        content: content.as_bytes().to_vec(),
        old_lineno: old,
        new_lineno: new,
    }
}

fn one_change(path: &str, old: &str, new: &str) -> RawDelta {
    RawDelta {
        old_path: Some(path.as_bytes().to_vec()),
        new_path: Some(path.as_bytes().to_vec()),
        hunks: Some(vec![RawHunk {
            header: b"@@ -1,2 +1,2 @@\n".to_vec(),
            old_start: 1,
            old_lines: 2,
            new_start: 1,
            new_lines: 2,
            lines: vec![
                raw_line(' ', "first\n", Some(1), Some(1)),
                raw_line('-', &format!("{old}\n"), Some(2), None),
                raw_line('+', &format!("{new}\n"), None, Some(2)),
            ],
        }]),
    }
}

#[test]
fn a_compared_file_has_paired_and_marked_lines() {
    let deltas = vec![one_change("a.rs", "let value = 1;", "let value = 42;")];
    let diffs = workspace_diff(DiffSource::Unstaged, &deltas).unwrap();
    assert_eq!(diffs.len(), 1);
    let file = &diffs[0];
    assert_eq!((file.path.as_str(), file.added, file.removed), ("a.rs", 1, 1));
    assert!(file.old_path.is_none());
    assert_eq!(file.hunks[0].header, "@@ -1,2 +1,2 @@");
    let added = file.hunks[0]
        .lines
        .iter()
        .find(|line| line.kind == LineKind::Added)
        .unwrap();
    assert_eq!(added.content, "let value = 42;");
    assert_eq!(&added.content[added.spans[0].start..added.spans[0].end], "42");
    assert_eq!(added.pair, Some(1));
}

#[test]
fn a_binary_file_has_no_sections() {
    let deltas = vec![RawDelta {
        old_path: Some(b"old.png".to_vec()),
        new_path: Some(b"new.png".to_vec()),
        hunks: None,
    }];
    let diffs = build_file_diffs(&deltas);
    assert!(diffs[0].is_binary);
    assert!(diffs[0].is_empty());
    assert_eq!(diffs[0].old_path.as_deref(), Some("old.png"));
}

#[test]
fn a_commit_is_not_compared_as_a_working_tree() {
    assert_eq!(comparison(DiffSource::Commit), None);
    let error = workspace_diff(DiffSource::Commit, &Vec::new()).unwrap_err();
    assert_eq!(error, "commit 的差異請改用 commit_diff");
    match comparison(DiffSource::Staged) {
        Some(Comparison::HeadToIndex(options)) => {
            assert!(options.include_untracked && options.show_untracked_content);
            assert_eq!(options.context_lines, 3);
        }
        other => panic!("{other:?}"),
    }
    assert!(matches!(
        comparison(DiffSource::Unstaged),
        Some(Comparison::IndexToWorkdir(_))
    ));
    assert!(!commit_options().include_untracked);
}

#[test]
fn a_history_holds_the_commits_that_touch_the_file() {
    let deltas = vec![one_change("a.txt", "one", "two")];
    let diffs = commit_diff("0123456789abcdef0123456789abcdef01234567", Some(&deltas)).unwrap();
    assert_eq!(diffs.len(), 1);
    assert_eq!(diffs[0].path, "a.txt");

    let visit = |oid: &str, touched: bool| Visit::Compared {
        oid: oid.to_owned(),
        touched,
    };
    let history = file_history(vec![visit("c", true), visit("b", false), visit("a", true)], 10);
    assert_eq!(history.unwrap(), vec!["c".to_owned(), "a".to_owned()]);
}

#[test]
fn a_bad_or_unknown_commit_is_reported() {
    assert_eq!(commit_diff("xyz", None).unwrap_err(), "commit 識別碼格式錯誤");
    assert_eq!(commit_diff("", None).unwrap_err(), "commit 識別碼格式錯誤");
    assert_eq!(commit_diff("abc123", None).unwrap_err(), "找不到該 commit");
    assert_eq!(
        commit_diff(&"a".repeat(41), None).unwrap_err(),
        "commit 識別碼格式錯誤"
    );
}

#[test]
fn file_history_stops_at_its_limit() {
    let visit = |oid: &str| Visit::Compared {
        oid: oid.to_owned(),
        touched: true,
    };
    let visits = vec![visit("c"), Visit::Unreadable, visit("b"), Visit::Failed("lost".to_owned())];
    assert_eq!(file_history(visits, 2).unwrap(), vec!["c".to_owned(), "b".to_owned()]);
    let visits = vec![visit("c"), Visit::Failed("lost".to_owned()), visit("b")];
    assert_eq!(file_history(visits, 2).unwrap_err(), "lost");
    assert!(!FileHistory::new(0).wants_more());
}

#[test]
fn incoming_ranges_start_from_the_old_lines() {
    let ranges = incoming_line_ranges(&vec![one_change("a.rs", "x", "y")]);
    assert_eq!(ranges.get("a.rs"), Some(&vec![(1, 3)]));
    assert!(ranges.get("b.rs").is_none());
}

#[test]
fn sections_on_the_same_old_lines_collide() {
    let mut diffs = build_file_diffs(&vec![one_change("a.rs", "x", "mine")]);
    let incoming = incoming_line_ranges(&vec![one_change("a.rs", "x", "theirs")]);
    mark_incoming_collisions(&mut diffs, &incoming);
    assert!(diffs[0].hunks.iter().any(|hunk| hunk.collides_with_incoming));
}

#[test]
fn ranges_are_put_in_brackets() {
    let (old_spans, new_spans) = changed_spans("let 值 = 1;", "let 值 = 42;");
    assert_eq!(mark_spans("let 值 = 1;", &old_spans), "let 值 = [1];");
    assert_eq!(mark_spans("let 值 = 42;", &new_spans), "let 值 = [42];");
    assert_eq!(mark_spans("same", &Vec::new()), "same");
}

#[test]
fn differences_are_told_line_by_line() {
    assert_eq!(print_diff(&Vec::new()), vec!["沒有未提交的變更".to_owned()]);
    let mut files = build_file_diffs(&vec![one_change("a.rs", "let a = 1;", "let a = 2;")]);
    files[0].hunks[0].collides_with_incoming = true;
    assert_eq!(
        print_diff(&files),
        vec![
            "\n── a.rs  +1 −1".to_owned(),
            "   @@ -1,2 +1,2 @@ ← 即將進來的變更也會改到這一段".to_owned(),
            "    first".to_owned(),
            "   -let a = [1];".to_owned(),
            "   +let a = [2];".to_owned(),
        ]
    );
    let binary = build_file_diffs(&vec![RawDelta {
        old_path: None,
        new_path: Some(b"x.png".to_vec()),
        hunks: None,
    }]);
    assert_eq!(print_diff(&binary)[1], "   （二進位檔案）");
}

fn hunk_of(lines: Vec<DiffLine>, old_start: u32, old_lines: u32) -> Hunk {
    Hunk {
        header: String::new(),
        old_start,
        old_lines,
        new_start: old_start,
        new_lines: old_lines,
        lines,
        collides_with_incoming: false,
    }
}

#[test]
fn picking_nothing_and_picking_everything() {
    let old = Content::parse("a\nb\nc\n");
    let mut lines = vec![
        line(LineKind::Context, "a"),
        line(LineKind::Removed, "b"),
        line(LineKind::Added, "B"),
        line(LineKind::Context, "c"),
    ];
    annotate_intra_line(&mut lines);
    let hunks = vec![hunk_of(lines, 1, 3)];
    assert_eq!(apply_selection(&old, &hunks, &Vec::new()), "a\nb\nc\n");
    let all = vec![LineRef { hunk: 0, line: 1 }, LineRef { hunk: 0, line: 2 }];
    assert_eq!(apply_selection(&old, &hunks, &all), "a\nB\nc\n");
    // The lines left over are those that change something and were not picked.
    assert!(unpicked(&hunks, &all).is_empty());
    assert_eq!(unpicked(&hunks, &Vec::new()).len(), 2);
}

#[test]
fn a_text_renders_back_from_its_lines() {
    for text in ["", "a", "a\n", "a\nb", "a\n\nb\n"] {
        let content = Content::parse(text);
        assert_eq!(Content::render(&content.lines, content.trailing_newline), text);
    }
}
