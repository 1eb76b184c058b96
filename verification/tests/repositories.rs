//! The state of repositories: divergence, status, fetching, settings, what is shown.
use std::time::SystemTime;

use gitview::conflict::{side_labels, ConflictSide, Side};
use gitview::dag::CommitGraphBuilder;
use gitview::divergence::{
    analyse, recommend, CommitInfo, ConflictRisk, Divergence, RawCommit, RawDivergence, RawPaths,
    Recommendation,
};
use gitview::dto::{DivergenceDto, GraphDto, RepoStatusDto, WorkingTreeDto, LANE_COLOURS};
use gitview::fetch::{
    classify, classify_failure, default_remote, fetch, username, CredentialAttempts,
    CredentialOffer, FetchAttempt, FetchFailure, FetchReport, GitClass, GitCode, GitFailure,
};
use gitview::git::RepoState;
use gitview::lay_out;
use gitview::ops::UNDO_NAMESPACE;
use gitview::repo::RefLabels;
use gitview::service::{
    add_repo, all_statuses, attention_rank, fetch_repo, graph_of, remove_repo, status_of, AppState,
    FetchTry, ReadStatus, SettingsChange,
};
use gitview::settings::{
    load, Settings, DEFAULT_FETCH_INTERVAL_SECS, MIN_FETCH_INTERVAL_SECS,
};
use gitview::status::{
    classify as classify_status, describe_state, display_path, repo_name, status,
    working_tree_counts, Attention, RawRepo, WorkingTree,
};
use gitview::watcher::{
    notice_of, notify_if_needed, should_notify, LastSeen, Schedule, TICK_SECS,
};
use gitview::workspace::{changes, staged_kind, unstaged_kind, RawStatus};

#[test]
fn a_missing_side_is_marked_as_not_existing() {
    let side = ConflictSide::missing();
    assert!(!side.exists);
    assert!(side.text.is_none());
}

#[test]
fn sides_are_distinct() {
    assert_ne!(Side::Ours, Side::Theirs);
}

#[test]
fn the_sides_are_named_after_the_operation() {
    assert!(side_labels(RepoState::RebaseMerge).ours.contains("遠端"));
    assert_eq!(side_labels(RepoState::Merge).ours, "你目前的分支");
    assert_eq!(side_labels(RepoState::CherryPick).note, "");
}

#[test]
fn missing_upstream_is_reported_before_anything_else() {
    assert_eq!(
        recommend(3, 2, false, ConflictRisk::Possible, true),
        Recommendation::NoUpstream
    );
}

#[test]
fn uncommitted_overlap_blocks_the_operation() {
    assert_eq!(
        recommend(1, 1, true, ConflictRisk::Absent, true),
        Recommendation::ResolveWorkingTreeFirst
    );
    // With nothing to come in, uncommitted changes are in nobody's way.
    assert_eq!(
        recommend(1, 0, true, ConflictRisk::Absent, true),
        Recommendation::Push
    );
}

#[test]
fn single_sided_differences_have_simple_answers() {
    assert_eq!(
        recommend(0, 0, true, ConflictRisk::Absent, false),
        Recommendation::UpToDate
    );
    assert_eq!(
        recommend(2, 0, true, ConflictRisk::Absent, false),
        Recommendation::Push
    );
    assert_eq!(
        recommend(0, 2, true, ConflictRisk::Absent, false),
        Recommendation::FastForward
    );
}

#[test]
fn divergence_recommends_rebase_and_carries_the_risk() {
    assert_eq!(
        recommend(1, 1, true, ConflictRisk::Absent, false),
        Recommendation::Rebase(ConflictRisk::Absent)
    );
    assert_eq!(
        recommend(1, 1, true, ConflictRisk::Possible, false),
        Recommendation::Rebase(ConflictRisk::Possible)
    );
}

#[test]
fn headlines_distinguish_the_two_risk_levels() {
    assert_ne!(
        Recommendation::Rebase(ConflictRisk::Absent).headline(),
        Recommendation::Rebase(ConflictRisk::Possible).headline()
    );
}

#[test]
fn resulting_commit_counts_account_for_the_merge_node() {
    let divergence = Divergence {
        branch: None,
        upstream: None,
        ahead: vec![sample("a"), sample("b")],
        behind: vec![sample("c")],
        local_files: Vec::new(),
        incoming_files: Vec::new(),
        overlapping_files: Vec::new(),
        uncommitted_overlap: Vec::new(),
        recommendation: Recommendation::UpToDate,
    };
    assert!(divergence.is_diverged());
    assert_eq!(divergence.commits_after_rebase(), 3);
    assert_eq!(divergence.commits_after_merge(), 4);
    assert_eq!(divergence.risk(), ConflictRisk::Absent);
}

fn sample(oid: &str) -> CommitInfo {
    CommitInfo {
        oid: oid.to_owned(),
        short_oid: oid.to_owned(),
        summary: String::new(),
        author: String::new(),
        timestamp: 0,
    }
}

#[test]
fn authentication_errors_are_distinguished_from_network_errors() {
    let auth = git2::Error::new(git2::ErrorCode::Auth, git2::ErrorClass::Http, "denied");
    assert!(matches!(classify(&auth), FetchFailure::Authentication(_)));

    let network = git2::Error::new(
        git2::ErrorCode::GenericError,
        git2::ErrorClass::Net,
        "unreachable",
    );
    assert!(matches!(classify(&network), FetchFailure::Network(_)));
}

#[test]
fn ssh_failures_are_treated_as_authentication_problems() {
    let ssh = git2::Error::new(
        git2::ErrorCode::GenericError,
        git2::ErrorClass::Ssh,
        "no key",
    );
    assert!(matches!(classify(&ssh), FetchFailure::Authentication(_)));
}

#[test]
fn unknown_failures_keep_their_message() {
    let other = git2::Error::new(
        git2::ErrorCode::GenericError,
        git2::ErrorClass::Repository,
        "broken",
    );
    let failure = classify(&other);
    assert_eq!(failure.as_str(), "other");
    assert_eq!(failure.detail(), "broken");
}

#[test]
fn a_bad_certificate_is_a_network_problem() {
    let certificate = git2::Error::new(
        git2::ErrorCode::Certificate,
        git2::ErrorClass::Os,
        "expired",
    );
    assert_eq!(classify(&certificate), FetchFailure::Network("expired".to_owned()));
    let failure = GitFailure {
        code: GitCode::Auth,
        class: GitClass::Ssh,
        message: "denied".to_owned(),
    };
    assert_eq!(classify_failure(failure).as_str(), "auth");
}

#[test]
fn authentication_headline_tells_the_user_what_to_do() {
    let failure = FetchFailure::Authentication("denied".to_owned());
    assert!(failure.headline().contains("ssh-agent"));
    // The message underneath is kept for diagnosis.
    assert_eq!(failure.detail(), "denied");
}

#[test]
fn a_report_knows_whether_anything_arrived() {
    let empty = FetchReport {
        remote: "origin".to_owned(),
        received_objects: 0,
        at: SystemTime::now(),
    };
    assert!(!empty.brought_anything());
    assert!(FetchReport {
        received_objects: 3,
        ..empty.clone()
    }
    .brought_anything());
}

#[test]
fn a_fetch_comes_to_a_report_or_a_reason() {
    let missing = fetch("origin", FetchAttempt::NoRemote).unwrap_err();
    assert_eq!(missing.as_str(), "no-remote");
    assert_eq!(missing.headline(), "找不到遠端「origin」");
    let at = SystemTime::now();
    let report = fetch("origin", FetchAttempt::Received { objects: 7, at }).unwrap();
    assert_eq!((report.remote.as_str(), report.received_objects, report.at), ("origin", 7, at));
    let failed = FetchAttempt::Failed(GitFailure {
        code: GitCode::Other,
        class: GitClass::Net,
        message: "gone".to_owned(),
    });
    let failure = fetch("origin", failed).unwrap_err();
    assert_eq!(failure, FetchFailure::Network("gone".to_owned()));
    assert_eq!(failure.headline(), "無法連線到遠端主機");
}

#[test]
fn the_tracked_remote_comes_before_origin() {
    let names = vec!["fork".to_owned(), "origin".to_owned()];
    assert_eq!(default_remote(Some("fork".to_owned()), &names).as_deref(), Some("fork"));
    assert_eq!(default_remote(None, &names).as_deref(), Some("origin"));
    assert_eq!(default_remote(None, &vec!["fork".to_owned()]).as_deref(), Some("fork"));
    assert_eq!(default_remote(None, &Vec::new()), None);
}

#[test]
fn each_credential_is_offered_once() {
    let key = git2::CredentialType::SSH_KEY.bits();
    let password = git2::CredentialType::USER_PASS_PLAINTEXT.bits();
    let name = git2::CredentialType::USERNAME.bits();
    let mut attempts = CredentialAttempts::new();
    assert!(matches!(attempts.next(key | password), CredentialOffer::Agent));
    assert!(matches!(attempts.next(key | password), CredentialOffer::Helper));
    assert!(matches!(attempts.next(key | password), CredentialOffer::Nothing));
    assert!(matches!(attempts.next(key | name), CredentialOffer::Username));
    assert!(matches!(attempts.next(key | name), CredentialOffer::Username));
    assert_eq!(username(None), "git");
    assert_eq!(username(Some("me".to_owned())), "me");
}

#[test]
fn undo_namespace_is_outside_the_branch_list() {
    // Under refs/heads a safety point would be listed and pushed as a branch.
    assert!(UNDO_NAMESPACE.starts_with("refs/gitview/"));
    assert!(!UNDO_NAMESPACE.starts_with("refs/heads"));
}

#[test]
fn undo_rejects_references_outside_its_namespace() {
    let outside = "refs/heads/main";
    assert!(!outside.starts_with(UNDO_NAMESPACE));
}

#[test]
fn classification_prioritises_unfinished_operations() {
    let dirty = WorkingTree {
        staged: 1,
        ..WorkingTree::default()
    };
    assert_eq!(
        classify_status(3, 2, &dirty, &Some("rebase 中".to_owned())),
        Attention::NeedsAttention
    );
}

#[test]
fn divergence_outranks_single_sided_differences() {
    let clean = WorkingTree::default();
    assert_eq!(classify_status(1, 1, &clean, &None), Attention::Diverged);
    assert_eq!(classify_status(0, 1, &clean, &None), Attention::Incoming);
    assert_eq!(classify_status(1, 0, &clean, &None), Attention::Unpushed);
}

#[test]
fn clean_repository_needs_no_attention() {
    assert_eq!(
        classify_status(0, 0, &WorkingTree::default(), &None),
        Attention::Clean
    );
}

#[test]
fn uncommitted_changes_are_reported_when_synchronised() {
    let dirty = WorkingTree {
        untracked: 2,
        ..WorkingTree::default()
    };
    assert_eq!(classify_status(0, 0, &dirty, &None), Attention::Uncommitted);
}

#[test]
fn conflicts_always_need_attention() {
    let conflicted = WorkingTree {
        conflicted: 1,
        ..WorkingTree::default()
    };
    assert_eq!(
        classify_status(0, 0, &conflicted, &None),
        Attention::NeedsAttention
    );
}

#[test]
fn working_tree_totals_every_category() {
    let tree = WorkingTree {
        staged: 1,
        unstaged: 2,
        untracked: 3,
        conflicted: 4,
    };
    assert_eq!(tree.total(), 10);
    assert!(!tree.is_clean());
    assert!(WorkingTree::default().is_clean());
}

#[test]
fn repository_name_comes_from_the_final_path_segment() {
    assert_eq!(repo_name("/srv/projects/gitview"), "gitview");
    assert_eq!(repo_name("gitview"), "gitview");
}

#[test]
fn paths_are_shown_without_a_slash_at_the_end() {
    assert_eq!(display_path(&b"/srv/projects/gitview/".to_vec()), "/srv/projects/gitview");
    assert_eq!(describe_state(RepoState::Clean), None);
    assert_eq!(describe_state(RepoState::Merge).as_deref(), Some("合併中"));
}

#[test]
fn status_flags_map_to_stable_labels() {
    assert_eq!(staged_kind(git2::Status::INDEX_NEW.bits()), "new");
    assert_eq!(staged_kind(git2::Status::INDEX_MODIFIED.bits()), "modified");
    assert_eq!(staged_kind(git2::Status::INDEX_DELETED.bits()), "deleted");
    assert_eq!(staged_kind(git2::Status::WT_MODIFIED.bits()), "none");

    assert_eq!(unstaged_kind(git2::Status::WT_NEW.bits()), "new");
    assert_eq!(unstaged_kind(git2::Status::WT_MODIFIED.bits()), "modified");
    assert_eq!(unstaged_kind(git2::Status::WT_DELETED.bits()), "deleted");
    assert_eq!(unstaged_kind(git2::Status::INDEX_MODIFIED.bits()), "none");
}

#[test]
fn renames_and_type_changes_have_one_label() {
    assert_eq!(staged_kind(git2::Status::INDEX_RENAMED.bits()), "renamed");
    assert_eq!(staged_kind(git2::Status::INDEX_TYPECHANGE.bits()), "renamed");
    assert_eq!(unstaged_kind(git2::Status::WT_RENAMED.bits()), "renamed");
    assert_eq!(unstaged_kind(git2::Status::WT_TYPECHANGE.bits()), "renamed");
}

#[test]
fn changes_are_listed_by_path() {
    let raw = vec![
        RawStatus {
            path: b"b.txt".to_vec(),
            bits: git2::Status::WT_NEW.bits(),
        },
        RawStatus {
            path: b"a.txt".to_vec(),
            bits: git2::Status::CONFLICTED.bits(),
        },
    ];
    let listed = changes(false, &raw);
    assert_eq!(listed[0].path, "a.txt");
    assert!(listed[0].is_conflicted);
    assert!(listed[1].is_untracked);
    assert!(changes(true, &raw).is_empty());
}

#[test]
fn a_file_can_count_as_staged_and_unstaged() {
    let both = git2::Status::INDEX_MODIFIED.bits() | git2::Status::WT_MODIFIED.bits();
    let new = git2::Status::WT_NEW.bits();
    let conflicted = git2::Status::CONFLICTED.bits();
    let counts = working_tree_counts(false, &vec![both, new, conflicted]);
    assert_eq!(counts.staged, 1);
    assert_eq!(counts.unstaged, 1);
    assert_eq!(counts.untracked, 1);
    assert_eq!(counts.conflicted, 1);
    assert!(working_tree_counts(true, &vec![both]).is_clean());
}

fn raw_commit(oid: &str) -> RawCommit {
    RawCommit {
        oid: oid.to_owned(),
        author: b"Test".to_vec(),
        summary: Some(b"work".to_vec()),
        timestamp: 1,
    }
}

fn touched(path: &str) -> Vec<RawPaths> {
    vec![RawPaths {
        old: Some(path.as_bytes().to_vec()),
        new: Some(path.as_bytes().to_vec()),
    }]
}

fn diverged(local: &str, remote: &str) -> RawDivergence {
    RawDivergence {
        branch: Some(b"main".to_vec()),
        upstream: Some("origin/main".to_owned()),
        ahead: vec![raw_commit("1111111111")],
        behind: vec![raw_commit("2222222222")],
        local_changes: touched(local),
        incoming_changes: touched(remote),
        is_bare: false,
        uncommitted: Vec::new(),
    }
}

#[test]
fn detects_divergence_and_recommends_rebase() {
    let result = analyse(diverged("local.txt", "remote.txt"));

    assert!(result.is_diverged(), "兩側各有一個 commit，應判定為分岔");
    assert_eq!(result.ahead.len(), 1);
    assert_eq!(result.behind.len(), 1);
    assert!(result.upstream.is_some(), "clone 出來的分支應有追蹤對象");

    assert!(result.overlapping_files.is_empty());
    assert_eq!(result.risk(), ConflictRisk::Absent);
    assert_eq!(
        result.recommendation,
        Recommendation::Rebase(ConflictRisk::Absent)
    );

    assert!(result.local_files.contains(&"local.txt".to_owned()));
    assert!(result.incoming_files.contains(&"remote.txt".to_owned()));
}

#[test]
fn overlapping_files_raise_the_risk() {
    let result = analyse(diverged("shared.txt", "shared.txt"));

    assert!(result.is_diverged());
    assert_eq!(
        result.overlapping_files,
        vec!["shared.txt".to_owned()],
        "兩側都改到的檔案應被列出"
    );
    assert_eq!(result.risk(), ConflictRisk::Possible);
    assert_eq!(
        result.recommendation,
        Recommendation::Rebase(ConflictRisk::Possible)
    );
}

#[test]
fn uncommitted_changes_to_incoming_files_block_the_operation() {
    let result = analyse(RawDivergence {
        uncommitted: vec![b"remote.txt".to_vec()],
        ..diverged("local.txt", "remote.txt")
    });
    assert_eq!(
        result.uncommitted_overlap,
        vec!["remote.txt".to_owned()],
        "未提交且會被影響的檔案應被列出"
    );
    assert_eq!(
        result.recommendation,
        Recommendation::ResolveWorkingTreeFirst
    );
}

#[test]
fn a_repository_without_upstream_is_reported_as_such() {
    let result = analyse(RawDivergence {
        upstream: None,
        ahead: Vec::new(),
        behind: Vec::new(),
        local_changes: Vec::new(),
        incoming_changes: Vec::new(),
        ..diverged("a.txt", "a.txt")
    });
    assert_eq!(result.recommendation, Recommendation::NoUpstream);
    assert!(result.ahead.is_empty());
    assert!(result.behind.is_empty());
}

fn raw_repo(path: &str) -> RawRepo {
    RawRepo {
        path: path.as_bytes().to_vec(),
        branch: Some(b"main".to_vec()),
        upstream: Some("origin/main".to_owned()),
        distance: Some((0, 0)),
        is_bare: false,
        flags: Vec::new(),
        state: RepoState::Clean,
        last_fetch: None,
    }
}

#[test]
fn status_reports_divergence_and_counts() {
    let state = status(RawRepo {
        distance: Some((1, 1)),
        last_fetch: Some(SystemTime::now()),
        ..raw_repo("/srv/demo/")
    });
    assert_eq!(state.ahead, 1);
    assert_eq!(state.behind, 1);
    assert!(state.is_diverged());
    assert_eq!(state.attention, Attention::Diverged);
    assert!(state.upstream.is_some());
    assert!(state.working_tree.is_clean(), "剛提交完應該是乾淨的");
    assert!(state.last_fetch.is_some(), "fetch 過應該有時間戳記");
}

#[test]
fn status_counts_untracked_and_staged_separately() {
    let state = status(RawRepo {
        flags: vec![
            git2::Status::WT_NEW.bits(),
            git2::Status::INDEX_MODIFIED.bits(),
        ],
        ..raw_repo("/srv/demo")
    });
    assert_eq!(state.working_tree.untracked, 1);
    assert_eq!(state.working_tree.staged, 1);
    assert_eq!(state.attention, Attention::Uncommitted);
}

#[test]
fn interval_below_the_minimum_is_raised() {
    let mut settings = Settings {
        fetch_interval_secs: 5,
        ..Settings::default()
    };
    settings.normalise();
    assert_eq!(settings.fetch_interval_secs, MIN_FETCH_INTERVAL_SECS);
}

#[test]
fn duplicate_repositories_are_removed() {
    let mut settings = Settings {
        repos: vec!["/b".into(), "/a".into(), "/a".into()],
        ..Settings::default()
    };
    settings.normalise();
    assert_eq!(settings.repos, vec!["/a".to_owned(), "/b".to_owned()]);
    // Once in order, they stay as they are.
    settings.normalise();
    assert_eq!(settings.repos, vec!["/a".to_owned(), "/b".to_owned()]);
}

#[test]
fn adding_an_existing_repository_reports_no_change() {
    let mut settings = Settings::default();
    assert!(settings.add_repo("/a".into()));
    assert!(!settings.add_repo("/a".into()));
    assert_eq!(settings.repos.len(), 1);
}

#[test]
fn removing_reports_whether_anything_changed() {
    let mut settings = Settings::default();
    settings.add_repo("/a".into());
    assert!(settings.remove_repo("/a"));
    assert!(!settings.remove_repo("/a"));
}

#[test]
fn removing_takes_back_what_was_added() {
    let mut settings = Settings::default();
    settings.add_repo("/b".into());
    settings.add_repo("/a".into());
    assert_eq!(settings.repos, vec!["/a".to_owned(), "/b".to_owned()]);
    settings.add_repo("/c".into());
    settings.remove_repo("/c");
    assert_eq!(settings.repos, vec!["/a".to_owned(), "/b".to_owned()]);
}

#[test]
fn a_missing_file_yields_defaults() {
    let settings = load(None);
    assert!(settings.repos.is_empty());
    assert_eq!(settings.fetch_interval_secs, DEFAULT_FETCH_INTERVAL_SECS);
}

#[test]
fn settings_that_were_read_are_put_right() {
    let read = Settings {
        fetch_interval_secs: 1,
        notify_incoming: false,
        ..Settings::default()
    };
    let settings = load(Some(read));
    assert_eq!(settings.fetch_interval_secs, 60);
    assert!(!settings.notify_incoming);
    assert!(settings.background_fetch);
}

#[test]
fn attention_ordering_puts_problems_first() {
    assert!(attention_rank("attention") > attention_rank("diverged"));
    assert!(attention_rank("diverged") > attention_rank("incoming"));
    assert!(attention_rank("incoming") > attention_rank("unpushed"));
    assert!(attention_rank("unpushed") > attention_rank("uncommitted"));
    assert!(attention_rank("uncommitted") > attention_rank("clean"));
}

#[test]
fn unknown_attention_sorts_last() {
    assert_eq!(attention_rank("something-else"), 0);
}

#[test]
fn graph_truncation_drops_edges_that_leave_the_window() {
    let mut builder = CommitGraphBuilder::new();
    builder.push("c", vec!["b".to_owned()], 300, "dev", "third");
    builder.push("b", vec!["a".to_owned()], 200, "dev", "second");
    builder.push("a", Vec::new(), 100, "dev", "first");
    let graph = builder.build();
    let layout = lay_out(&graph).unwrap();

    let dto = GraphDto::from_layout(&graph, &layout, &RefLabels::new(), 2);
    assert_eq!(dto.commits.len(), 2);
    assert!(dto.truncated);
    assert_eq!(dto.total_commits, 3);
    assert_eq!(dto.edges.len(), 1);
}

#[test]
fn labels_are_attached_to_the_matching_commit() {
    let mut builder = CommitGraphBuilder::new();
    builder.push("aaa", Vec::new(), 100, "dev", "only");
    let graph = builder.build();
    let layout = lay_out(&graph).unwrap();

    let mut labels = RefLabels::new();
    labels.insert("aaa", vec!["main".to_owned()]);

    let dto = GraphDto::from_layout(&graph, &layout, &labels, 10);
    assert_eq!(dto.commits[0].refs, vec!["main".to_owned()]);
    assert!(!dto.truncated);
}

#[test]
fn colours_stay_within_the_palette() {
    let mut builder = CommitGraphBuilder::new();
    for index in 0..30 {
        builder.push(&format!("c{index}"), Vec::new(), index as i64, "dev", "x");
    }
    let graph = builder.build();
    let layout = lay_out(&graph).unwrap();
    let dto = GraphDto::from_layout(&graph, &layout, &RefLabels::new(), 100);
    assert!(dto
        .commits
        .iter()
        .all(|commit| commit.colour < LANE_COLOURS));
}

#[test]
fn unreadable_repositories_still_produce_an_entry() {
    let dto = RepoStatusDto::unreadable("/srv/projects/missing", "不存在".to_owned());
    assert_eq!(dto.name, "missing");
    assert_eq!(dto.attention, "attention");
    assert_eq!(dto.error.as_deref(), Some("不存在"));
}

#[test]
fn graph_data_matches_the_repository() {
    let mut builder = CommitGraphBuilder::new();
    builder.push("2222222222", vec!["1111111111".to_owned()], 200, "Test", "second");
    builder.push("1111111111", Vec::new(), 100, "Test", "first");
    let mut labels = RefLabels::new();
    labels.insert("2222222222", vec!["master".to_owned()]);

    let graph = graph_of(&builder.build(), &labels, 100).expect("無法讀取圖");
    assert_eq!(graph.total_commits, 2);
    assert_eq!(graph.commits.len(), 2);
    assert!(!graph.truncated);
    assert_eq!(graph.lane_count, 1, "線性歷史只需要一條線道");

    // The interface works out the y coordinates from the rows.
    assert_eq!(graph.commits[0].row, 0);
    assert_eq!(graph.commits[1].row, 1);
    assert_eq!(graph.commits[0].short_oid, "22222222");
    assert!(
        !graph.commits[0].refs.is_empty(),
        "最新的 commit 應帶有分支標籤"
    );
}

#[test]
fn graph_limit_truncates_and_reports_it() {
    let mut builder = CommitGraphBuilder::new();
    builder.push("2222222222", vec!["1111111111".to_owned()], 200, "Test", "second");
    builder.push("1111111111", Vec::new(), 100, "Test", "first");
    let graph = graph_of(&builder.build(), &RefLabels::new(), 1).expect("無法讀取圖");
    assert_eq!(graph.commits.len(), 1);
    assert!(graph.truncated);
    assert_eq!(graph.total_commits, 2);
    assert!(graph.edges.is_empty());
}

#[test]
fn a_graph_with_a_cycle_is_not_shown() {
    let mut builder = CommitGraphBuilder::new();
    builder.push("a", vec!["a".to_owned()], 1, "dev", "x");
    let error = graph_of(&builder.build(), &RefLabels::new(), 1).unwrap_err();
    assert_eq!(
        error,
        "無法計算佈局：commit 圖含有環或資料不一致：排入 0 個節點，實際有 1 個"
    );
}

#[test]
fn divergence_data_is_available_for_a_solo_repository() {
    let divergence = DivergenceDto::from(&analyse(RawDivergence {
        upstream: None,
        ahead: Vec::new(),
        behind: Vec::new(),
        ..diverged("a.txt", "b.txt")
    }));
    assert_eq!(divergence.recommendation, "no-upstream");
    assert!(!divergence.recommendation_headline.is_empty());
    assert!(!divergence.is_diverged);
    assert_eq!(divergence.risk, "none");
    assert_eq!(divergence.commits_after_merge, 1);
}

fn read(path: &str, flags: Vec<u32>) -> Result<ReadStatus, String> {
    Ok(ReadStatus {
        status: status(RawRepo {
            flags,
            ..raw_repo(path)
        }),
        last_fetch_millis: Some(1_000),
    })
}

#[test]
fn adding_a_repository_persists_it_to_settings() {
    let mut state = AppState::new(None);
    let stored = add_repo(&mut state, Ok(b"/srv/demo/".to_vec())).expect("加入失敗");
    assert!(stored.ends_with("demo"));

    let kept = state.snapshot_settings();
    assert_eq!(kept.repos.len(), 1);
    assert!(kept.repos[0].ends_with("demo"));
}

#[test]
fn adding_the_same_repository_twice_is_rejected() {
    let mut state = AppState::new(None);
    add_repo(&mut state, Ok(b"/srv/demo/".to_vec())).expect("第一次應成功");
    let second = add_repo(&mut state, Ok(b"/srv/demo".to_vec()));
    assert_eq!(second.unwrap_err(), "這個 repository 已經在清單中");
    assert_eq!(state.snapshot_settings().repos.len(), 1);
}

#[test]
fn adding_a_non_repository_fails_with_a_message() {
    let mut state = AppState::new(None);
    let result = add_repo(&mut state, Err("could not find repository".to_owned()));
    assert!(result.is_err());
    assert!(result.unwrap_err().contains("無法開啟"));
    assert!(state.snapshot_settings().repos.is_empty());
}

#[test]
fn status_list_reports_working_tree_changes() {
    let mut state = AppState::new(None);
    add_repo(&mut state, Ok(b"/srv/demo/".to_vec())).expect("加入失敗");

    let statuses = all_statuses(&state, vec![read("/srv/demo/", vec![git2::Status::WT_NEW.bits()])]);
    assert_eq!(statuses.len(), 1);
    assert_eq!(statuses[0].working_tree.untracked, 1);
    assert_eq!(statuses[0].working_tree.total, 1);
    assert_eq!(statuses[0].attention, "uncommitted");
    assert!(statuses[0].error.is_none());
    assert_eq!(statuses[0].last_fetch_millis, Some(1_000));
}

#[test]
fn missing_repositories_still_appear_with_an_explanation() {
    let mut state = AppState::new(None);
    add_repo(&mut state, Ok(b"/srv/demo/".to_vec())).expect("加入失敗");

    let statuses = all_statuses(&state, vec![Err("gone".to_owned())]);
    assert_eq!(statuses.len(), 1, "路徑消失時仍應列出，才能讓使用者移除它");
    assert!(statuses[0].error.is_some());
    assert_eq!(statuses[0].attention, "attention");
}

#[test]
fn repositories_needing_attention_sort_first() {
    let mut state = AppState::new(None);
    add_repo(&mut state, Ok(b"/srv/aaa-clean/".to_vec())).expect("加入失敗");
    add_repo(&mut state, Ok(b"/srv/zzz-dirty/".to_vec())).expect("加入失敗");

    let reads = vec![
        read("/srv/aaa-clean/", Vec::new()),
        read("/srv/zzz-dirty/", vec![git2::Status::WT_NEW.bits()]),
    ];
    let statuses = all_statuses(&state, reads);
    assert_eq!(statuses.len(), 2);
    assert_eq!(statuses[0].name, "zzz-dirty");
    assert_eq!(statuses[1].name, "aaa-clean");
}

#[test]
fn removing_a_repository_clears_it_from_the_list() {
    let mut state = AppState::new(None);
    let stored = add_repo(&mut state, Ok(b"/srv/demo/".to_vec())).expect("加入失敗");
    fetch_repo(&mut state, &stored, FetchTry::NoRemote, None, read("/srv/demo", Vec::new()));
    assert!(state.fetch_state(&stored).is_some());

    remove_repo(&mut state, &stored);
    assert!(all_statuses(&state, Vec::new()).is_empty());
    assert!(state.snapshot_settings().repos.is_empty(), "移除必須寫回設定檔");
    assert!(state.fetch_state(&stored).is_none());
}

#[test]
fn fetching_is_remembered_and_shown() {
    let mut state = AppState::new(None);
    let report = |received_objects| {
        FetchTry::Done(Ok(FetchReport {
            remote: "origin".to_owned(),
            received_objects,
            at: SystemTime::now(),
        }))
    };
    let dto = fetch_repo(&mut state, "/a", report(3), Some(9), read("/a", Vec::new()));
    let kept = dto.fetch_state.unwrap();
    assert!(kept.ok);
    assert_eq!(kept.message, "已取得 3 個新物件");
    assert_eq!(kept.at_millis, Some(9));
    let dto = fetch_repo(&mut state, "/a", report(0), None, read("/a", Vec::new()));
    assert_eq!(dto.fetch_state.unwrap().message, "已是最新");
    let failed = FetchTry::Done(Err(FetchFailure::Network("x".to_owned())));
    let dto = fetch_repo(&mut state, "/a", failed, None, read("/a", Vec::new()));
    let kept = dto.fetch_state.unwrap();
    assert!(!kept.ok);
    assert_eq!(kept.kind.as_deref(), Some("network"));
    assert_eq!(kept.message, "無法連線到遠端主機");
    let failures = [
        (FetchFailure::NoRemote("up".to_owned()), "no-remote", "找不到遠端「up」"),
        (
            FetchFailure::Authentication("x".to_owned()),
            "auth",
            "認證失敗，請確認 SSH 金鑰已加入 ssh-agent 並已解鎖",
        ),
        (FetchFailure::Other("y".to_owned()), "other", "y"),
    ];
    for (failure, kind, message) in failures {
        let tried = FetchTry::Done(Err(failure));
        let dto = fetch_repo(&mut state, "/a", tried, None, read("/a", Vec::new()));
        let kept = dto.fetch_state.unwrap();
        assert!(!kept.ok);
        assert_eq!(kept.kind.as_deref(), Some(kind));
        assert_eq!(kept.message, message);
    }
    let unopened = FetchTry::Unopened("x".to_owned());
    fetch_repo(&mut state, "/a", unopened, None, Err("x".to_owned()));
    assert_eq!(state.fetch_state("/a").unwrap().message, "無法開啟 repository：x");
    assert_eq!(state.fetch_state("/a").unwrap().kind.as_deref(), Some("other"));
    fetch_repo(&mut state, "/a", FetchTry::NoRemote, None, Err("x".to_owned()));
    assert_eq!(
        status_of(&state, "/a", read("/a", Vec::new())).fetch_state.unwrap().message,
        "這個 repository 沒有設定遠端"
    );
    assert_eq!(state.fetch_state("/a").unwrap().kind.as_deref(), Some("no-remote"));
}

#[test]
fn settings_are_changed_and_put_right() {
    let mut state = AppState::new(None);
    let (written, found) = state.mutate_settings(SettingsChange::Update {
        fetch_interval_secs: Some(5),
        notify_incoming: Some(false),
        background_fetch: None,
    });
    assert!(!found);
    assert_eq!(written.fetch_interval_secs, 60);
    assert!(!written.notify_incoming);
    assert!(written.background_fetch);
    let (_, found) = state.mutate_settings(SettingsChange::Remove("/none".to_owned()));
    assert!(!found);
}

fn shown(path: &str, behind: usize, dirty: usize) -> RepoStatusDto {
    RepoStatusDto {
        path: path.to_owned(),
        name: path.to_owned(),
        branch: Some("main".to_owned()),
        upstream: Some("origin/main".to_owned()),
        ahead: 0,
        behind,
        working_tree: WorkingTreeDto {
            staged: 0,
            unstaged: dirty,
            untracked: 0,
            conflicted: 0,
            total: dirty,
        },
        operation: None,
        attention: "incoming".to_owned(),
        last_fetch_millis: None,
        error: None,
        fetch_state: None,
    }
}

#[test]
fn repeated_checks_do_not_repeat_the_same_notification() {
    assert!(should_notify(0, 3, 0, true));
    assert!(!should_notify(3, 3, 0, true));
}

#[test]
fn further_commits_trigger_a_new_notification() {
    assert!(should_notify(3, 5, 0, true));
}

#[test]
fn nothing_to_pull_means_no_notification() {
    assert!(!should_notify(0, 0, 0, true));
}

#[test]
fn dirty_working_tree_notifies_even_when_switched_off() {
    assert!(!should_notify(0, 2, 0, false));
    assert!(should_notify(0, 2, 1, false));
}

#[test]
fn previous_values_are_recorded_for_every_repository() {
    let mut previous = LastSeen::new();
    let statuses = vec![shown("/a", 2, 0), shown("/b", 0, 0)];
    for entry in &statuses {
        previous.insert(&entry.path, entry.behind);
    }
    assert_eq!(previous.get("/a"), Some(2));
    assert_eq!(previous.get("/b"), Some(0));
}

#[test]
fn a_second_look_is_silent() {
    let mut seen = LastSeen::new();
    let statuses = vec![shown("/a", 2, 0), shown("/b", 0, 0), shown("/c", 1, 4)];
    let notices = notify_if_needed(&statuses, &mut seen, false);
    assert_eq!(notices.len(), 1);
    assert_eq!(notices[0].title, "/c：有 1 個新 commit");
    assert_eq!(
        notices[0].body,
        "分支 main。本機有 4 個未提交的變更，拉取前建議先檢視。"
    );
    assert!(notify_if_needed(&statuses, &mut seen, true).is_empty());
    let mut more = shown("/a", 5, 0);
    more.branch = None;
    let notice = notice_of(&more, 2, true).unwrap();
    assert_eq!(notice.title, "/a：有 3 個新 commit");
    assert_eq!(notice.body, "分支 (未知)");
}

#[test]
fn the_remotes_are_looked_at_when_the_interval_is_over() {
    let mut settings = Settings {
        repos: vec!["/a".to_owned()],
        fetch_interval_secs: 60,
        ..Settings::default()
    };
    let mut schedule = Schedule::new();
    let due: Vec<bool> = (0..5).map(|_| schedule.tick(&settings)).collect();
    assert_eq!(due, vec![false, false, false, true, false]);
    assert_eq!(schedule.elapsed, TICK_SECS as u128);
    settings.background_fetch = false;
    assert!(!schedule.tick(&settings));
    assert_eq!(schedule.elapsed, 0);
}
