//! The commit graph and its layout.
use gitview::dag::{CommitGraph, CommitGraphBuilder};
use gitview::layout::{assign_lanes, lay_out, topo_time_order, Layout, LayoutError};
use gitview::repo::{load_graph, ref_labels, summarize, RawHistory, RawLabel, RawSummary};
use gitview::git::RepoState;

fn graph_from(spec: &[(&str, &[&str])]) -> CommitGraph {
    let mut builder = CommitGraphBuilder::with_capacity(spec.len());
    for (position, (oid, parents)) in spec.iter().enumerate() {
        builder.push(
            oid,
            parents.iter().map(|parent| (*parent).to_string()).collect(),
            1_000_000 - position as i64 * 3_600,
            "dev",
            &format!("work on {oid}"),
        );
    }
    builder.build()
}

fn graph_with_times(spec: &[(&str, &[&str], i64)]) -> CommitGraph {
    let mut builder = CommitGraphBuilder::with_capacity(spec.len());
    for (oid, parents, timestamp) in spec {
        builder.push(
            oid,
            parents.iter().map(|parent| (*parent).to_string()).collect(),
            *timestamp,
            "dev",
            &format!("work on {oid}"),
        );
    }
    builder.build()
}

fn oids_in_order(graph: &CommitGraph, layout: &Layout) -> Vec<String> {
    layout
        .order
        .iter()
        .map(|node| graph.commit(*node).oid.clone())
        .collect()
}

#[test]
fn resolves_parents_to_indices() {
    let graph = graph_from(&[("b", &["a"]), ("a", &[])]);
    let b = graph.index_of("b").expect("b 應存在");
    let a = graph.index_of("a").expect("a 應存在");
    assert_eq!(graph.parents(b), &[a]);
    assert!(graph.parents(a).is_empty());
}

#[test]
fn records_children_in_both_directions() {
    let graph = graph_from(&[("m", &["x", "y"]), ("x", &["r"]), ("y", &["r"]), ("r", &[])]);
    let m = graph.index_of("m").unwrap();
    let x = graph.index_of("x").unwrap();
    let r = graph.index_of("r").unwrap();
    assert_eq!(graph.children(x), &[m]);
    assert_eq!(graph.children(r).len(), 2);
    assert!(graph.commit(m).is_merge());
    assert!(graph.commit(r).is_root());
}

#[test]
fn skips_parents_outside_the_graph() {
    // A shallow clone: the parent of b is not among the commits.
    let graph = graph_from(&[("b", &["missing"])]);
    let b = graph.index_of("b").unwrap();
    assert!(graph.parents(b).is_empty());
    assert!(graph.commit(b).is_root());
}

#[test]
fn ignores_duplicate_oids() {
    let mut builder = CommitGraphBuilder::new();
    builder.push("a", Vec::new(), 10, "dev", "first");
    builder.push("a", Vec::new(), 20, "dev", "second");
    let graph = builder.build();
    assert_eq!(graph.len(), 1);
    assert_eq!(graph.commit(0).summary, "first");
}

#[test]
fn empty_graph_is_usable() {
    let graph = CommitGraphBuilder::new().build();
    assert!(graph.is_empty());
    assert_eq!(graph.len(), 0);
    assert_eq!(graph.indices().count(), 0);
}

#[test]
fn defaults_are_empty() {
    assert!(CommitGraph::default().is_empty());
    assert!(CommitGraphBuilder::default().is_empty());
    let layout = Layout::default();
    assert_eq!(layout.rows(), 0);
    assert_eq!(layout.lane_count, 0);
}

#[test]
fn an_unknown_oid_has_no_index() {
    let graph = graph_from(&[("b", &["a"]), ("a", &[])]);
    assert_eq!(graph.index_of("c"), None);
    assert_eq!(graph.merge_count(), 0);
}

#[test]
fn a_parent_named_twice_counts_twice() {
    let graph = graph_from(&[("m", &["a", "a"]), ("a", &[])]);
    let a = graph.index_of("a").unwrap();
    assert_eq!(graph.children(a).len(), 2);
    assert_eq!(graph.merge_count(), 1);
    assert_eq!(lay_out(&graph).unwrap().rows(), 2);
}

#[test]
fn parents_never_precede_children() {
    let graph = graph_from(&[
        ("m", &["a", "f"]),
        ("a", &["b"]),
        ("f", &["b"]),
        ("b", &["c"]),
        ("c", &[]),
    ]);
    let layout = lay_out(&graph).unwrap();
    for edge in &layout.edges {
        assert!(edge.child_row < edge.parent_row, "邊必須由上往下：{edge:?}");
    }
}

#[test]
fn order_does_not_depend_on_insertion_order() {
    let forward = graph_with_times(&[
        ("m", &["a", "f"], 500),
        ("a", &["b"], 400),
        ("f", &["b"], 300),
        ("b", &["c"], 200),
        ("c", &[], 100),
    ]);
    let reversed = graph_with_times(&[
        ("c", &[], 100),
        ("b", &["c"], 200),
        ("f", &["b"], 300),
        ("a", &["b"], 400),
        ("m", &["a", "f"], 500),
    ]);

    let first = lay_out(&forward).unwrap();
    let second = lay_out(&reversed).unwrap();
    assert_eq!(
        oids_in_order(&forward, &first),
        oids_in_order(&reversed, &second)
    );
}

#[test]
fn lanes_do_not_depend_on_insertion_order() {
    let forward = graph_with_times(&[
        ("m", &["a", "f"], 500),
        ("a", &["b"], 400),
        ("f", &["b"], 300),
        ("b", &[], 200),
    ]);
    let reversed = graph_with_times(&[
        ("b", &[], 200),
        ("f", &["b"], 300),
        ("a", &["b"], 400),
        ("m", &["a", "f"], 500),
    ]);
    let first = lay_out(&forward).unwrap();
    let second = lay_out(&reversed).unwrap();
    assert_eq!(first.lane_count, second.lane_count);
    assert_eq!(first.edges, second.edges);
    for oid in ["m", "a", "f", "b"] {
        let one = forward.index_of(oid).unwrap();
        let other = reversed.index_of(oid).unwrap();
        assert_eq!(first.lane_of[one], second.lane_of[other]);
        assert_eq!(first.row_of[one], second.row_of[other]);
    }
}

#[test]
fn equal_timestamps_break_ties_by_oid() {
    let mut builder = CommitGraphBuilder::new();
    builder.push("x", vec!["z".to_string()], 500, "dev", "x");
    builder.push("y", vec!["z".to_string()], 500, "dev", "y");
    builder.push("z", Vec::new(), 500, "dev", "z");
    let graph = builder.build();
    let layout = lay_out(&graph).unwrap();
    // Of two commits of the same time the one with the smaller oid comes first.
    assert_eq!(oids_in_order(&graph, &layout), vec!["x", "y", "z"]);
}

#[test]
fn the_newest_candidate_comes_next() {
    let graph = graph_with_times(&[
        ("old", &["r"], 100),
        ("new", &["r"], 300),
        ("mid", &["r"], 200),
        ("r", &[], 999),
    ]);
    let layout = lay_out(&graph).unwrap();
    assert_eq!(oids_in_order(&graph, &layout), vec!["new", "mid", "old", "r"]);
}

#[test]
fn linear_history_uses_one_lane() {
    let graph = graph_from(&[("c", &["b"]), ("b", &["a"]), ("a", &[])]);
    let layout = lay_out(&graph).unwrap();
    assert_eq!(layout.lane_count, 1);
    assert_eq!(layout.crossing_edges(), 0);
    assert!(layout.lane_of.iter().all(|lane| *lane == 0));
}

#[test]
fn first_parent_keeps_the_lane() {
    let graph = graph_from(&[("m", &["a", "f"]), ("a", &["b"]), ("f", &["b"]), ("b", &[])]);
    let layout = lay_out(&graph).unwrap();
    let m = graph.index_of("m").unwrap();
    let a = graph.index_of("a").unwrap();
    let f = graph.index_of("f").unwrap();
    assert_eq!(
        layout.lane_of[m], layout.lane_of[a],
        "第一個父節點應沿用線道"
    );
    assert_ne!(layout.lane_of[m], layout.lane_of[f], "其餘父節點應另配線道");
}

#[test]
fn lanes_are_reused_after_release() {
    let graph = graph_from(&[
        ("e", &["d", "s2"]),
        ("d", &["c"]),
        ("s2", &["c"]),
        ("c", &["b", "s1"]),
        ("b", &["a"]),
        ("s1", &["a"]),
        ("a", &[]),
    ]);
    let layout = lay_out(&graph).unwrap();
    assert_eq!(layout.lane_count, 2, "側分支未重疊時只需兩條線道");
}

#[test]
fn every_node_is_placed_exactly_once() {
    let graph = graph_from(&[("m", &["a", "f"]), ("a", &["b"]), ("f", &["b"]), ("b", &[])]);
    let layout = lay_out(&graph).unwrap();
    assert_eq!(layout.rows(), graph.len());
    let mut rows: Vec<usize> = layout.row_of.clone();
    rows.sort_unstable();
    assert_eq!(rows, (0..graph.len()).collect::<Vec<_>>());
}

#[test]
fn every_parent_is_connected_once() {
    let graph = graph_from(&[("m", &["a", "f"]), ("a", &["b"]), ("f", &["b"]), ("b", &[])]);
    let layout = lay_out(&graph).unwrap();
    assert_eq!(layout.edges.len(), 4);
    assert_eq!(layout.crossing_edges(), layout.edges.iter().filter(|edge| edge.spans_lanes()).count());
}

#[test]
fn multiple_roots_are_supported() {
    let graph = graph_from(&[("a", &["b"]), ("b", &[]), ("x", &["y"]), ("y", &[])]);
    let layout = lay_out(&graph).unwrap();
    assert_eq!(layout.rows(), 4);
    assert!(graph.indices().all(|node| layout.is_placed(node)));
}

#[test]
fn empty_graph_produces_empty_layout() {
    let graph = CommitGraphBuilder::new().build();
    let layout = lay_out(&graph).unwrap();
    assert_eq!(layout.rows(), 0);
    assert_eq!(layout.lane_count, 0);
    assert!(layout.edges.is_empty());
}

#[test]
fn single_commit_is_placed() {
    let graph = graph_from(&[("only", &[])]);
    let layout = lay_out(&graph).unwrap();
    assert_eq!(layout.rows(), 1);
    assert_eq!(layout.lane_count, 1);
    assert!(layout.edges.is_empty());
}

#[test]
fn cycles_are_reported_rather_than_hanging() {
    let mut builder = CommitGraphBuilder::new();
    builder.push("a", vec!["b".to_string()], 10, "dev", "a");
    builder.push("b", vec!["a".to_string()], 20, "dev", "b");
    let graph = builder.build();
    assert!(topo_time_order(&graph).is_err());
}

#[test]
fn a_cycle_tells_how_far_it_got() {
    let graph = graph_from(&[("top", &["a"]), ("a", &["b"]), ("b", &["a"])]);
    let error = lay_out(&graph).unwrap_err();
    assert_eq!(error, LayoutError::Cyclic { ordered: 1, total: 3 });
    assert_eq!(
        error.describe(),
        "commit 圖含有環或資料不一致：排入 1 個節點，實際有 3 個"
    );
}

#[test]
fn a_partial_order_leaves_the_rest_unplaced() {
    let graph = graph_from(&[("c", &["b"]), ("b", &["a"]), ("a", &[])]);
    let c = graph.index_of("c").unwrap();
    let a = graph.index_of("a").unwrap();
    let layout = assign_lanes(&graph, &[c]);
    assert!(layout.is_placed(c));
    assert!(!layout.is_placed(a));
    assert_eq!(layout.lane_of[a], Layout::UNPLACED);
    assert!(layout.edges.is_empty());
}

fn read(oid: &str, parents: &[&str], timestamp: i64, author: &[u8], summary: &[u8]) -> Option<RawHistory> {
    Some(RawHistory {
        oid: oid.to_owned(),
        parents: parents.iter().map(|parent| (*parent).to_owned()).collect(),
        timestamp,
        author: author.to_vec(),
        summary: Some(summary.to_vec()),
    })
}

#[test]
fn reads_a_linear_history() {
    let graph = load_graph(vec![
        read("3", &["2"], 300, b"Test", b"third"),
        read("2", &["1"], 200, b"Test", b"second"),
        read("1", &[], 100, b"Test", b"first"),
    ]);
    assert_eq!(graph.len(), 3);
    assert_eq!(graph.merge_count(), 0);

    let layout = lay_out(&graph).expect("佈局失敗");
    assert_eq!(layout.rows(), 3);
    assert_eq!(layout.lane_count, 1, "線性歷史只需要一條線道");
    assert_eq!(layout.crossing_edges(), 0);
}

#[test]
fn reads_a_branch_and_merge() {
    let graph = load_graph(vec![
        read("merge", &["main", "topic"], 400, b"Test", b"merge topic"),
        read("main", &["base"], 300, b"Test", b"main work"),
        read("topic", &["base"], 200, b"Test", b"topic work"),
        read("base", &[], 100, b"Test", b"base"),
    ]);
    assert_eq!(graph.len(), 4, "base、topic、main、merge 共四個");
    assert_eq!(graph.merge_count(), 1);

    let layout = lay_out(&graph).expect("佈局失敗");
    assert_eq!(layout.rows(), 4);
    assert_eq!(layout.lane_count, 2, "一條側分支只需要第二條線道");

    let merge_index = graph
        .indices()
        .find(|index| graph.commit(*index).is_merge())
        .expect("應該有合併節點");
    let first_parent = graph.parents(merge_index)[0];
    assert_eq!(
        layout.lane_of[merge_index], layout.lane_of[first_parent],
        "第一個父節點應沿用線道，分支才會是直線"
    );
}

fn clean_summary(changed_files: usize) -> RawSummary {
    RawSummary {
        workdir: Some(b"/srv/demo/".to_vec()),
        git_dir: b"/srv/demo/.git/".to_vec(),
        branch: Some("main".to_owned()),
        is_bare: false,
        changed_files,
        state: RepoState::Clean,
    }
}

#[test]
fn summarizes_working_directory_state() {
    let graph = load_graph(vec![read("1", &[], 100, b"Test", b"only commit")]);
    let summary = summarize(clean_summary(1), &graph);
    assert_eq!(summary.commit_count, 1);
    assert_eq!(summary.merge_count, 0);
    assert_eq!(summary.dirty_files, 1, "未追蹤的檔案應計入");
    assert!(!summary.operation_in_progress);
    assert!(summary.branch.is_some(), "一般狀態下應有分支名稱");
    assert_eq!(summary.path, "/srv/demo/");
}

#[test]
fn a_bare_repository_has_no_changes() {
    let graph = CommitGraph::default();
    let raw = RawSummary {
        workdir: None,
        is_bare: true,
        state: RepoState::Merge,
        ..clean_summary(7)
    };
    let summary = summarize(raw, &graph);
    assert_eq!(summary.path, "/srv/demo/.git/");
    assert_eq!(summary.dirty_files, 0);
    assert!(summary.operation_in_progress);
}

#[test]
fn handles_an_empty_repository() {
    let graph = load_graph(Vec::new());
    assert_eq!(graph.len(), 0);

    let layout = lay_out(&graph).expect("空圖也要能佈局");
    assert_eq!(layout.rows(), 0);

    let summary = summarize(clean_summary(0), &graph);
    assert_eq!(summary.commit_count, 0);
    assert!(summary.branch.is_none() || summary.commit_count == 0);
}

#[test]
fn commits_that_cannot_be_read_are_passed_over() {
    let graph = load_graph(vec![
        read("2", &["1"], 200, b"J\xf6rg", b"caf\xe9"),
        None,
        Some(RawHistory {
            oid: "0".to_owned(),
            parents: Vec::new(),
            timestamp: 0,
            author: Vec::new(),
            summary: None,
        }),
    ]);
    assert_eq!(graph.len(), 2);
    let commit = graph.commit(0);
    assert_eq!(commit.author, "J\u{fffd}rg");
    assert_eq!(commit.summary, "caf\u{fffd}");
    assert!(commit.is_root());
    assert_eq!(graph.commit(1).summary, "");
}

#[test]
fn labels_gather_at_their_commits() {
    let label = |name: &str, oid: Option<&str>| RawLabel {
        name: name.as_bytes().to_vec(),
        oid: oid.map(str::to_owned),
    };
    let labels = ref_labels(&vec![
        label("main", Some("a")),
        label("topic", Some("b")),
        label("broken", None),
        label("origin/main", Some("a")),
    ]);
    assert_eq!(labels.names("a"), vec!["main".to_owned(), "origin/main".to_owned()]);
    assert_eq!(labels.names("b"), vec!["topic".to_owned()]);
    assert!(labels.names("c").is_empty());
}
