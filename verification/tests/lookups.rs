//! Searching, blame, and the command line.
use gitview::cli::{overview, parse_args, passing_lanes, render};
use gitview::dag::{CommitGraph, CommitGraphBuilder};
use gitview::divergence::{CommitInfo, ConflictRisk, Divergence, RawPaths, Recommendation};
use gitview::git::RepoState;
use gitview::lay_out;
use gitview::matching::{contains, count, trim};
use gitview::patch::RawLine;
use gitview::repo::{summarize, RawSummary};
use gitview::report::print_sync;
use gitview::search::{
    blame, changes_occurrences, look_at, search, touched_paths, Candidate, RawAuthor, RawBlame,
    RawHistoryCommit, Search, SearchScope,
};
use gitview::service::{blame_of, commit_detail_of, search_in, to_line_refs, RawDetail};

#[test]
fn an_empty_scope_matches_nothing() {
    let scope = SearchScope {
        message: false,
        author: false,
        path: false,
        content: false,
    };
    assert!(!scope.any());
}

#[test]
fn the_default_scope_excludes_content() {
    // Every commit would have to be compared for it.
    let scope = SearchScope::default();
    assert!(scope.message && scope.author && scope.path);
    assert!(!scope.content);
    assert!(scope.any());
}

fn file(path: &str) -> RawPaths {
    RawPaths {
        old: None,
        new: Some(path.as_bytes().to_vec()),
    }
}

fn added(text: &str) -> RawLine {
    RawLine {
        origin: '+',
        content: text.as_bytes().to_vec(),
        old_lineno: None,
        new_lineno: Some(1),
    }
}

fn removed(text: &str) -> RawLine {
    RawLine {
        origin: '-',
        ..added(text)
    }
}

fn commit(oid: &str, message: &str, path: &str, lines: Vec<RawLine>) -> Option<RawHistoryCommit> {
    Some(RawHistoryCommit {
        oid: oid.to_owned(),
        author: b"Test".to_vec(),
        message: message.as_bytes().to_vec(),
        timestamp: 7,
        files: vec![file(path)],
        lines,
    })
}

fn two_commits() -> Vec<Option<RawHistoryCommit>> {
    vec![
        commit("2222222222", "修正 beta 的問題", "beta.txt", Vec::new()),
        commit("1111111111", "加入 alpha 功能", "alpha.txt", Vec::new()),
    ]
}

#[test]
fn search_finds_commits_by_message_author_and_path() {
    let by_message = search(two_commits(), "alpha", SearchScope::default(), 20, 100);
    assert_eq!(by_message.len(), 1);
    assert!(by_message[0].matched.contains(&"message"));

    let by_path = search(two_commits(), "beta.txt", SearchScope::default(), 20, 100);
    assert_eq!(by_path.len(), 1);
    assert!(by_path[0].matched.contains(&"path"));

    let by_author = search(two_commits(), "Test", SearchScope::default(), 20, 100);
    assert_eq!(by_author.len(), 2, "兩個 commit 的作者都是 Test");
}

#[test]
fn case_and_surrounding_space_do_not_matter() {
    let hits = search(two_commits(), "  BETA ", SearchScope::default(), 20, 100);
    assert_eq!(hits.len(), 1);
    assert_eq!(hits[0].matched, vec!["message", "path"]);
    assert_eq!(hits[0].paths, vec!["beta.txt".to_owned()]);
    assert_eq!(hits[0].summary, "修正 beta 的問題");
    assert_eq!(hits[0].short_oid, "22222222");
    assert_eq!(hits[0].timestamp, 7);
}

#[test]
fn limits_and_empty_searches() {
    assert_eq!(search(two_commits(), "test", SearchScope::default(), 1, 100).len(), 1);
    assert_eq!(search(two_commits(), "alpha", SearchScope::default(), 20, 1).len(), 0);
    assert!(search(two_commits(), "   ", SearchScope::default(), 20, 100).is_empty());
    let nowhere = SearchScope {
        message: false,
        author: false,
        path: false,
        content: false,
    };
    assert!(search(two_commits(), "alpha", nowhere, 20, 100).is_empty());
    // A commit that cannot be read counts as looked at.
    let mut commits = two_commits();
    commits.insert(0, None);
    assert_eq!(search(commits, "test", SearchScope::default(), 20, 2).len(), 1);
}

#[test]
fn content_search_finds_the_commit_that_introduced_the_text() {
    let commits = vec![
        commit("3333333333", "無關的變更", "a.txt", vec![added("more\n")]),
        commit("2222222222", "引入標記", "a.txt", vec![added("MAGIC_TOKEN\n")]),
        commit("1111111111", "第一版", "a.txt", vec![added("hello\n")]),
    ];
    let scope = SearchScope {
        message: false,
        author: false,
        path: false,
        content: true,
    };
    let hits = search(commits, "MAGIC_TOKEN", scope, 20, 100);
    assert_eq!(
        hits.len(),
        1,
        "只有引入該文字的 commit 應命中，而非每個含有它的"
    );
    assert_eq!(hits[0].summary, "引入標記");
}

#[test]
fn only_a_changed_number_of_occurrences_counts() {
    assert!(!changes_occurrences(&vec![removed("a TOKEN"), added("TOKEN b")], "TOKEN"));
    assert!(changes_occurrences(&vec![removed("TOKEN"), added("TOKEN TOKEN")], "TOKEN"));
    assert!(changes_occurrences(&vec![removed("TOKEN")], "TOKEN"));
    assert!(!changes_occurrences(&vec![added("other")], "TOKEN"));
}

#[test]
fn texts_are_found_in_texts() {
    assert!(contains("alphabet", "bet"));
    assert!(contains("alphabet", ""));
    assert!(!contains("bet", "alphabet"));
    assert_eq!(count("aaaa", "aa"), 2);
    assert_eq!(count("abc", ""), 0);
    assert_eq!(trim("\u{3000} a b \n"), "a b");
}

#[test]
fn a_candidate_matches_by_its_lower_case_forms() {
    let candidate = Candidate {
        oid: "abcdef0123".to_owned(),
        author: "Ann".to_owned(),
        message: "Fix\nbody".to_owned(),
        timestamp: 1,
        paths: (0..7).map(|index| format!("SRC/{index}.rs")).collect(),
        lower_author: "ann".to_owned(),
        lower_message: "fix\nbody".to_owned(),
        lower_paths: (0..7).map(|index| format!("src/{index}.rs")).collect(),
        changes_content: true,
    };
    let scope = SearchScope {
        content: true,
        ..SearchScope::default()
    };
    let hit = look_at(&candidate, "src", scope).unwrap();
    assert_eq!(hit.matched, vec!["path", "content"]);
    assert_eq!(hit.paths.len(), 5);
    assert_eq!(hit.paths[0], "SRC/0.rs");
    assert!(look_at(&candidate, "zzz", SearchScope::default()).is_none());
    assert_eq!(look_at(&candidate, "ann", SearchScope::default()).unwrap().matched, vec!["author"]);
}

#[test]
fn a_search_takes_commits_until_it_has_enough() {
    let mut running = Search::new("test", SearchScope::default(), 1, 100);
    let mut offered = 0;
    for commit in two_commits() {
        if running.wants_more() {
            running.offer(commit);
            offered += 1;
        }
    }
    assert_eq!(offered, 1);
    assert_eq!(running.hits[0].oid, "2222222222");
    assert_eq!(running.scanned, 1);
}

#[test]
fn touched_files_are_listed_up_to_a_limit() {
    let old = RawPaths {
        old: Some(b"gone.txt".to_vec()),
        new: None,
    };
    let neither = RawPaths {
        old: None,
        new: None,
    };
    let files = vec![file("a"), neither, old, file("b")];
    assert_eq!(touched_paths(&files, 10), vec!["a", "gone.txt", "b"]);
    assert_eq!(touched_paths(&files, 2), vec!["a", "gone.txt"]);
}

#[test]
fn hits_are_shown_as_they_are() {
    let shown = search_in(two_commits(), "alpha", false);
    assert_eq!(shown.len(), 1);
    assert_eq!(shown[0].matched, vec!["message".to_owned(), "path".to_owned()]);
    assert_eq!(shown[0].author, "Test");
}

fn source(oid: &str, message: &str) -> Option<RawBlame> {
    Some(RawBlame {
        oid: oid.to_owned(),
        commit: Some(RawAuthor {
            name: b"Test".to_vec(),
            message: message.as_bytes().to_vec(),
            timestamp: 5,
        }),
    })
}

#[test]
fn blame_attributes_each_line_to_its_last_change() {
    let first = "1111111111";
    let second = "2222222222";
    let sources = vec![source(first, "建立檔案"), source(second, "改第二行")];
    let lines = blame(&b"line one\nCHANGED\n".to_vec(), &sources, 100);
    assert_eq!(lines.len(), 2);
    assert_eq!(lines[0].content, "line one");
    assert_eq!(lines[0].oid, first, "第一行仍屬於原本的 commit");
    assert_eq!(lines[1].content, "CHANGED");
    assert_eq!(lines[1].oid, second, "第二行屬於後來的 commit");
    assert!(!lines[1].same_as_previous, "兩行來自不同 commit");
}

#[test]
fn blame_passes_over_lines_without_a_source() {
    let unread = Some(RawBlame {
        oid: "1111111111".to_owned(),
        commit: None,
    });
    let sources = vec![source("1111111111", "a\nb"), None, unread];
    let lines = blame(&b"x\ny\nz\nw".to_vec(), &sources, 100);
    assert_eq!(lines.len(), 2);
    assert_eq!(lines[0].summary, "a");
    assert_eq!(lines[1].line_number, 3);
    assert_eq!(lines[1].author, "");
    assert!(lines[1].same_as_previous);
    assert_eq!(blame(&b"x\ny\n".to_vec(), &sources, 1).len(), 1);
    assert_eq!(blame_of(&b"x\n".to_vec(), &sources)[0].short_oid, "11111111");
}

fn detail() -> RawDetail {
    RawDetail {
        author: b"J\xf6rg".to_vec(),
        email: b"j@example.com".to_vec(),
        summary: Some(b"caf\xe9".to_vec()),
        body: Some(b"more".to_vec()),
        timestamp: 3,
        parents: vec!["p".to_owned()],
        deltas: Vec::new(),
    }
}

#[test]
fn a_commit_is_shown_in_full() {
    let shown = commit_detail_of("0123456789", Some(detail())).unwrap();
    assert_eq!(shown.short_oid, "01234567");
    assert_eq!(shown.author, "J\u{fffd}rg");
    assert_eq!(shown.email, "j@example.com");
    // A summary that is not UTF-8 is left out.
    assert_eq!(shown.summary, "");
    assert_eq!(shown.body, "more");
    assert_eq!(shown.parents, vec!["p".to_owned()]);
    assert!(shown.files.is_empty());
    assert_eq!(commit_detail_of("no", Some(detail())).unwrap_err(), "commit 識別碼格式錯誤");
    assert_eq!(commit_detail_of("ab", None).unwrap_err(), "找不到該 commit");
}

#[test]
fn selections_name_sections_and_lines() {
    let refs = to_line_refs(&vec![(0, 2), (1, 0)]);
    assert_eq!(refs.len(), 2);
    assert_eq!((refs[0].hunk, refs[0].line), (0, 2));
    assert_eq!((refs[1].hunk, refs[1].line), (1, 0));
}

fn args(words: &[&str]) -> Vec<String> {
    words.iter().map(|word| (*word).to_owned()).collect()
}

#[test]
fn arguments_have_defaults() {
    let options = parse_args(&args(&[])).unwrap();
    assert_eq!((options.path.as_str(), options.limit, options.show_diff), (".", 40, false));
    let options = parse_args(&args(&["-n", "7", "/srv/demo", "--diff"])).unwrap();
    assert_eq!((options.path.as_str(), options.limit, options.show_diff), ("/srv/demo", 7, true));
    let options = parse_args(&args(&["--limit", "+3", "-d"])).unwrap();
    assert_eq!((options.limit, options.show_diff), (3, true));
}

#[test]
fn wrong_arguments_are_told() {
    let error = |words: &[&str]| parse_args(&args(words)).unwrap_err();
    assert_eq!(error(&["--limit"]), "--limit 後面需要一個數字");
    assert_eq!(error(&["-n", "x"]), "--limit 的值不是有效數字：x: invalid digit found in string");
    assert_eq!(
        error(&["-n", "99999999999999999999"]),
        "--limit 的值不是有效數字：99999999999999999999: number too large to fit in target type"
    );
    assert_eq!(
        error(&["-n", ""]),
        "--limit 的值不是有效數字：: cannot parse integer from empty string"
    );
    assert_eq!(error(&["--what"]), "未知的選項：--what");
    assert_eq!(error(&["a", "b"]), "只能指定一個 repository 路徑");
}

#[test]
fn limits_are_numbers_as_the_standard_library_reads_them() {
    let values = [
        "0", "007", "+12", "18446744073709551615", "18446744073709551616", "", "+", "-", "-1", "+-1",
        "++1", "1 ", " 1", "1_000", "x", "12x", "99999999999999999999x", "1844674407370955161x", "９",
        "00000000000000000000000001", "18446744073709551616x", "1x8446744073709551616",
    ];
    for value in values {
        let parsed = parse_args(&args(&["--limit", value]));
        match value.parse::<usize>() {
            Ok(limit) => assert_eq!(parsed.unwrap().limit, limit),
            Err(cause) => {
                assert_eq!(parsed.unwrap_err(), format!("--limit 的值不是有效數字：{value}: {cause}"));
            }
        }
    }
}

fn merged_history() -> CommitGraph {
    let mut builder = CommitGraphBuilder::new();
    builder.push("mmmmmmmmmm", vec!["aaaaaaaaaa".to_owned(), "ffffffffff".to_owned()], 500, "dev", "merge");
    builder.push("aaaaaaaaaa", vec!["bbbbbbbbbb".to_owned()], 400, "dev", "main work");
    builder.push("ffffffffff", vec!["bbbbbbbbbb".to_owned()], 300, "dev", "side work");
    builder.push("bbbbbbbbbb", Vec::new(), 200, "dev", "base");
    builder.build()
}

#[test]
fn a_history_is_drawn_with_characters() {
    let graph = merged_history();
    let layout = lay_out(&graph).unwrap();
    let lines = render(&graph, &layout, 10);
    assert_eq!(
        lines,
        vec![
            "◍        mmmmmmmm  merge".to_owned(),
            "● │      aaaaaaaa  main work".to_owned(),
            "│ ●      ffffffff  side work".to_owned(),
            "●        bbbbbbbb  base".to_owned(),
        ]
    );
    let short = render(&graph, &layout, 1);
    assert_eq!(short.len(), 2);
    assert_eq!(short[1], "… 其餘 3 個 commit 未顯示");
    let busy = passing_lanes(&layout);
    assert_eq!(busy[1], vec![false, true]);
    assert_eq!(busy[2], vec![true, false]);
}

#[test]
fn lanes_that_do_not_fit_are_counted() {
    let mut builder = CommitGraphBuilder::new();
    let mut parents = Vec::new();
    for index in 0..13 {
        let oid = format!("p{index:09}");
        builder.push(&oid, Vec::new(), index, "dev", "root");
        parents.push(oid);
    }
    builder.push("mmmmmmmmmm", parents, 100, "dev", "merge");
    let graph = builder.build();
    let layout = lay_out(&graph).unwrap();
    assert_eq!(layout.lane_count, 13);
    let lines = render(&graph, &layout, 100);
    assert!(lines.iter().any(|line| line.contains("→12  ")));
    assert_eq!(lines.last().unwrap(), "（僅繪製前 12 條線道，另有 1 條未繪製）");
}

#[test]
fn the_overview_sums_up_the_repository() {
    let graph = merged_history();
    let layout = lay_out(&graph).unwrap();
    let raw = RawSummary {
        workdir: Some(b"/srv/demo/".to_vec()),
        git_dir: Vec::new(),
        branch: None,
        is_bare: false,
        changed_files: 2,
        state: RepoState::Merge,
    };
    assert_eq!(
        overview(&summarize(raw, &graph), &layout),
        vec![
            "/srv/demo/".to_owned(),
            "  分支 (detached) · 4 commits · 1 merges · 工作目錄異動 2 個檔案 · 有未完成的操作".to_owned(),
            format!("  佈局：4 列 · 2 條線道 · {} 條需要跨線道", layout.crossing_edges()),
            String::new(),
        ]
    );
}

fn info(oid: &str) -> CommitInfo {
    CommitInfo {
        oid: oid.to_owned(),
        short_oid: oid.to_owned(),
        summary: "work".to_owned(),
        author: String::new(),
        timestamp: 0,
    }
}

fn difference() -> Divergence {
    Divergence {
        branch: Some("main".to_owned()),
        upstream: Some("origin/main".to_owned()),
        ahead: vec![info("a")],
        behind: (0..6).map(|index| info(&format!("b{index}"))).collect(),
        local_files: vec!["x".to_owned()],
        incoming_files: vec!["y".to_owned()],
        overlapping_files: Vec::new(),
        uncommitted_overlap: vec!["y".to_owned()],
        recommendation: Recommendation::Rebase(ConflictRisk::Absent),
    }
}

#[test]
fn the_difference_from_the_remote_is_told() {
    let lines = print_sync(&difference());
    assert_eq!(lines[0], "\n同步狀態（對 origin/main）：建議 rebase，不會衝突");
    assert_eq!(lines[1], "  本機獨有 1 個 commit · 遠端獨有 6 個 commit");
    assert_eq!(lines[2], "  即將進來的變更觸及 1 個檔案");
    assert_eq!(lines[3], "  兩側沒有改到同一個檔案，可以確定不會衝突");
    assert_eq!(lines[4], "  警告：1 個尚未提交的檔案會被進來的變更影響：");
    assert_eq!(lines[5], "    y");
    assert_eq!(lines[6], "  rebase 之後主線 7 個 commit；merge 之後 8 個（多一個合併節點）");
    assert_eq!(lines[7], "  即將進來  b0  work");
    assert_eq!(lines[12], "  即將進來  … 另有 1 個");
    assert_eq!(lines[13], "  尚未推送  a  work");
    assert_eq!(lines.len(), 14);
}

#[test]
fn many_common_files_are_cut_short() {
    let lines = print_sync(&Divergence {
        overlapping_files: (0..9).map(|index| format!("f{index}")).collect(),
        ..difference()
    });
    assert_eq!(lines[3], "  兩側都改到的檔案 9 個（可能衝突，非必然）：");
    assert_eq!(lines[11], "    f7");
    assert_eq!(lines[12], "    … 另有 1 個");
    let alone = print_sync(&Divergence {
        upstream: None,
        ..difference()
    });
    assert_eq!(alone, vec!["  同步狀態：沒有追蹤的遠端分支".to_owned()]);
}
