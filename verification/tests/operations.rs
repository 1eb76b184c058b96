//! Operations, run to their end on real repositories.
use std::path::Path;
use std::time::{SystemTime, UNIX_EPOCH};

use git2::build::CheckoutBuilder;
use git2::{
    BranchType, Diff, DiffOptions, IndexAddOption, Oid, Patch, Repository, ResetType, Signature,
    StatusOptions,
};

use gitview::compare::{self, CompareOptions, Comparison, FileHistory, Visit};
use gitview::conflict::{self, ConflictFile, RawBlob, RawConflict, RawSide, Side};
use gitview::diff::{self, DiffSource, FileDiff, LineKind};
use gitview::fetch::read_failure;
use gitview::git::RepoState;
use gitview::operation::{
    BranchFacts, RebaseStep, RemoteHead, Reply, Request, SafetyFacts, Step,
};
use gitview::ops::{self, OpOutcome, RawReference, SafetyPoint, UNDO_NAMESPACE};
use gitview::patch::{RawDelta, RawHunk, RawLine};
use gitview::selection::{self, LineRef};
use gitview::workspace::{self, BranchInfo, FileChange, RawBranch, RawStatus, StashEntry};

// Running operations.

/// Why an operation did not complete.
#[derive(Debug)]
enum Failure {
    Refused(String),
    Git(git2::Error),
}

impl From<git2::Error> for Failure {
    fn from(error: git2::Error) -> Self {
        Failure::Git(error)
    }
}

type Outcome = Result<OpOutcome, Failure>;

fn run(repo: &mut Repository, first: Step) -> Outcome {
    let mut step = first;
    loop {
        step = match step {
            Step::Ask(operation, request) => operation.advance(perform(repo, request)?),
            Step::Finished(outcome) => return Ok(outcome),
            Step::Refused(reason) => return Err(Failure::Refused(reason)),
        };
    }
}

/// The text with which an operation was refused.
fn refusal(outcome: Outcome) -> String {
    match outcome {
        Err(Failure::Refused(reason)) => reason,
        other => panic!("not refused: {other:?}"),
    }
}

fn state_of(repo: &Repository) -> RepoState {
    match repo.state() {
        git2::RepositoryState::Clean => RepoState::Clean,
        git2::RepositoryState::Merge => RepoState::Merge,
        git2::RepositoryState::Rebase => RepoState::Rebase,
        git2::RepositoryState::RebaseInteractive => RepoState::RebaseInteractive,
        git2::RepositoryState::RebaseMerge => RepoState::RebaseMerge,
        other => panic!("not expected here: {other:?}"),
    }
}

fn head_commit(repo: &Repository) -> Result<git2::Commit<'_>, git2::Error> {
    repo.head()?.peel_to_commit()
}

fn find_commit<'repo>(repo: &'repo Repository, oid: &str) -> Result<git2::Commit<'repo>, git2::Error> {
    repo.find_commit(Oid::from_str(oid)?)
}

fn safety_facts(repo: &Repository) -> Result<SafetyFacts, git2::Error> {
    Ok(SafetyFacts {
        head: head_commit(repo)?.id().to_string(),
        now: SystemTime::now().duration_since(UNIX_EPOCH).unwrap().as_secs(),
    })
}

fn diff_options(options: CompareOptions) -> DiffOptions {
    let mut built = DiffOptions::new();
    built
        .include_untracked(options.include_untracked)
        .recurse_untracked_dirs(options.recurse_untracked_dirs)
        .show_untracked_content(options.show_untracked_content)
        .context_lines(options.context_lines);
    built
}

fn raw_hunk(patch: &Patch<'_>, index: usize) -> Result<RawHunk, git2::Error> {
    let (hunk, count) = patch.hunk(index)?;
    let mut lines = Vec::new();
    for line_index in 0..count {
        let line = patch.line_in_hunk(index, line_index)?;
        lines.push(RawLine {
            origin: line.origin(),
            content: line.content().to_vec(),
            old_lineno: line.old_lineno(),
            new_lineno: line.new_lineno(),
        });
    }
    Ok(RawHunk {
        header: hunk.header().to_vec(),
        old_start: hunk.old_start(),
        old_lines: hunk.old_lines(),
        new_start: hunk.new_start(),
        new_lines: hunk.new_lines(),
        lines,
    })
}

fn raw_deltas(diff: &Diff<'_>) -> Result<Vec<RawDelta>, git2::Error> {
    let mut deltas = Vec::new();
    for index in 0..diff.deltas().len() {
        let delta = diff.get_delta(index).unwrap();
        let hunks = match Patch::from_diff(diff, index)? {
            None => None,
            Some(patch) => {
                let mut hunks = Vec::new();
                for hunk in 0..patch.num_hunks() {
                    hunks.push(raw_hunk(&patch, hunk)?);
                }
                Some(hunks)
            }
        };
        deltas.push(RawDelta {
            old_path: delta.old_file().path_bytes().map(<[u8]>::to_vec),
            new_path: delta.new_file().path_bytes().map(<[u8]>::to_vec),
            hunks,
        });
    }
    Ok(deltas)
}

fn deltas(repo: &Repository, source: DiffSource) -> Result<Vec<RawDelta>, git2::Error> {
    let diff = match compare::comparison(source) {
        Some(Comparison::IndexToWorkdir(options)) => {
            repo.diff_index_to_workdir(None, Some(&mut diff_options(options)))?
        }
        Some(Comparison::HeadToIndex(options)) => {
            let tree = repo.head().ok().and_then(|head| head.peel_to_tree().ok());
            repo.diff_tree_to_index(tree.as_ref(), None, Some(&mut diff_options(options)))?
        }
        None => return Ok(Vec::new()),
    };
    raw_deltas(&diff)
}

fn remotes(repo: &Repository) -> Result<Reply, git2::Error> {
    let head = repo.head()?;
    let of_branch = repo
        .branch_upstream_remote(head.name()?)
        .ok()
        .and_then(|buffer| buffer.as_str().ok().map(str::to_owned));
    let mut names = Vec::new();
    for name in repo.remotes()?.iter() {
        names.extend(name?.map(str::to_owned));
    }
    Ok(Reply::Remotes { of_branch, names })
}

fn list_remote(repo: &Repository, name: &str) -> Result<Vec<RemoteHead>, git2::Error> {
    let mut remote = repo.find_remote(name)?;
    let connection = remote.connect_auth(git2::Direction::Fetch, None, None)?;
    let heads = connection
        .list()?
        .iter()
        .map(|head| RemoteHead {
            name: head.name().to_owned(),
            oid: head.oid().to_string(),
        })
        .collect();
    Ok(heads)
}

fn branch_facts(repo: &Repository, name: &str) -> Result<BranchFacts, git2::Error> {
    let branch = repo.find_branch(name, BranchType::Local)?;
    let tip = branch.get().peel_to_commit()?.id();
    let head = head_commit(repo)?.id();
    Ok(BranchFacts {
        tip: tip.to_string(),
        is_head: branch.is_head(),
        merged: head == tip || repo.graph_descendant_of(head, tip)?,
    })
}

fn read(repo: &Repository, request: Request) -> Result<Reply, git2::Error> {
    Ok(match request {
        Request::ReadState => Reply::State(state_of(repo)),
        Request::ReadHead => {
            let head = repo.head()?;
            Reply::Head {
                is_branch: head.is_branch(),
                name: head.shorthand().ok().map(str::to_owned),
            }
        }
        Request::ReadUpstream { branch } => {
            let upstream = repo.find_branch(&branch, BranchType::Local)?.upstream()?;
            Reply::Upstream {
                target: upstream.get().target().map(|oid| oid.to_string()),
            }
        }
        Request::ReadHeadCommit => Reply::Commit(head_commit(repo)?.id().to_string()),
        Request::FindHeadCommit => {
            Reply::MaybeCommit(head_commit(repo).ok().map(|commit| commit.id().to_string()))
        }
        Request::FindHeadName => Reply::Name(
            repo.head()
                .ok()
                .and_then(|head| head.shorthand().ok().map(str::to_owned)),
        ),
        Request::ReadMergeHead => {
            let merged = repo.find_reference("MERGE_HEAD")?.peel_to_commit()?;
            Reply::Commit(merged.id().to_string())
        }
        Request::ReadReference { reference } => {
            let target = repo.find_reference(&reference)?.peel_to_commit()?;
            Reply::Commit(target.id().to_string())
        }
        Request::Compare { local, upstream } => {
            let local = find_commit(repo, &local)?.id();
            let (ahead, behind) =
                repo.graph_ahead_behind(local, find_commit(repo, &upstream)?.id())?;
            Reply::Distance { ahead, behind }
        }
        Request::ReadWorkTree => {
            let mut options = StatusOptions::new();
            options.include_untracked(false).include_ignored(false);
            Reply::WorkTree {
                is_bare: repo.is_bare(),
                has_changes: !repo.statuses(Some(&mut options))?.is_empty(),
            }
        }
        Request::ReadConflicts => Reply::Conflicts(repo.index()?.has_conflicts()),
        Request::ReadIdentity => {
            repo.signature()?;
            Reply::Done
        }
        Request::ReadSafetyFacts => Reply::Facts(safety_facts(repo)?),
        Request::FindSafetyFacts => Reply::MaybeFacts(safety_facts(repo).ok()),
        Request::ReadRemotes => remotes(repo)?,
        Request::ListRemote { remote } => Reply::RemoteHeads(list_remote(repo, &remote)?),
        Request::FindFile { path } => Reply::Found(repo.workdir().unwrap().join(path).exists()),
        Request::ReadBranch { name } => Reply::Branch(branch_facts(repo, &name)?),
        Request::FindRemoteBranch { name } => {
            Reply::Found(repo.find_branch(&name, BranchType::Remote).is_ok())
        }
        Request::ReadDeltas { source } => Reply::Deltas(deltas(repo, source)?),
        Request::ReadIndexFile { path } => {
            let entry = repo.index()?.get_path(Path::new(&path), 0);
            Reply::File(match entry {
                Some(entry) => Some(repo.find_blob(entry.id)?.content().to_vec()),
                None => None,
            })
        }
        Request::ReadHeadFile { path } => {
            let tree = repo.head().ok().and_then(|head| head.peel_to_tree().ok());
            let entry = tree.and_then(|tree| tree.get_path(Path::new(&path)).ok());
            Reply::File(match entry {
                Some(entry) => Some(repo.find_blob(entry.id())?.content().to_vec()),
                None => None,
            })
        }
        other => panic!("cannot answer {other:?}"),
    })
}

fn create_commit(
    repo: &Repository,
    message: &str,
    tree: &str,
    parents: &[String],
) -> Result<Oid, git2::Error> {
    let tree = repo.find_tree(Oid::from_str(tree)?)?;
    let mut commits = Vec::new();
    for parent in parents {
        commits.push(find_commit(repo, parent)?);
    }
    let commits: Vec<&git2::Commit<'_>> = commits.iter().collect();
    let by = repo.signature()?;
    repo.commit(Some("HEAD"), &by, &by, message, &tree, &commits)
}

/// Carries out a request that comes to nothing but its effect.
fn change(repo: &Repository, request: Request) -> Result<(), git2::Error> {
    match request {
        Request::WriteSafetyPoint { point, log } => {
            repo.reference(&point.reference, Oid::from_str(&point.oid)?, true, &log)?;
        }
        Request::CheckoutCommit { oid } => {
            let target = find_commit(repo, &oid)?;
            repo.checkout_tree(target.as_object(), Some(CheckoutBuilder::new().safe()))?;
        }
        Request::MoveHead { oid, log } => {
            repo.head()?.set_target(find_commit(repo, &oid)?.id(), &log)?;
        }
        Request::StartRebase { upstream } => {
            let onto = repo.find_annotated_commit(find_commit(repo, &upstream)?.id())?;
            let head = repo.reference_to_annotated_commit(&repo.head()?)?;
            repo.rebase(Some(&head), Some(&onto), None, None)?;
        }
        Request::OpenRebase => {
            repo.open_rebase(None)?;
        }
        Request::FinishRebase => repo.open_rebase(None)?.finish(Some(&repo.signature()?))?,
        Request::AbortRebase => repo.open_rebase(None)?.abort()?,
        Request::StartMerge { upstream } => {
            let merged = repo.find_annotated_commit(find_commit(repo, &upstream)?.id())?;
            repo.merge(&[&merged], None, Some(CheckoutBuilder::new().safe()))?;
        }
        Request::AmendCommit { oid, message, tree } => {
            let tree = repo.find_tree(Oid::from_str(&tree)?)?;
            find_commit(repo, &oid)?
                .amend(Some("HEAD"), None, None, None, Some(&message), Some(&tree))?;
        }
        Request::CleanUpState => repo.cleanup_state()?,
        Request::ResetHard { oid } => {
            repo.reset(find_commit(repo, &oid)?.as_object(), ResetType::Hard, None)?
        }
        Request::DropChanges { oid } => {
            let target = find_commit(repo, &oid)?;
            repo.checkout_tree(target.as_object(), Some(CheckoutBuilder::new().force()))?;
            let mut index = repo.index()?;
            index.read_tree(&target.tree()?)?;
            index.write()?;
        }
        Request::ResetMixed { oid } => {
            repo.reset(find_commit(repo, &oid)?.as_object(), ResetType::Mixed, None)?
        }
        Request::ResetPaths { oid, paths } => {
            repo.reset_default(Some(find_commit(repo, &oid)?.as_object()), paths.iter())?
        }
        Request::CheckoutBranch { name } => {
            let tree = repo.find_branch(&name, BranchType::Local)?.get().peel_to_tree()?;
            repo.checkout_tree(tree.as_object(), Some(CheckoutBuilder::new().safe()))?;
        }
        Request::SetHead { reference } => repo.set_head(&reference)?,
        Request::CreateBranch { name, oid } => {
            repo.branch(&name, &find_commit(repo, &oid)?, false)?;
        }
        Request::DeleteBranch { name } => repo.find_branch(&name, BranchType::Local)?.delete()?,
        Request::RenameBranch { from, to } => {
            repo.find_branch(&from, BranchType::Local)?.rename(&to, false)?;
        }
        Request::SetUpstream { name, onto } => repo
            .find_branch(&name, BranchType::Local)?
            .set_upstream(onto.as_deref())?,
        Request::Push { remote, refspec } => {
            repo.find_remote(&remote)?.push(&[refspec.as_str()], None)?
        }
        Request::ClearIndex => repo.index()?.clear()?,
        Request::StageAll => repo.index()?.add_all(["*"].iter(), IndexAddOption::DEFAULT, None)?,
        Request::StageFile { path } => repo.index()?.add_path(Path::new(&path))?,
        Request::StageRemoval { path } => repo.index()?.remove_path(Path::new(&path))?,
        Request::WriteIndex => repo.index()?.write()?,
        Request::RestoreFiles { paths } => {
            let mut checkout = CheckoutBuilder::new();
            checkout.force();
            for path in paths {
                checkout.path(path);
            }
            repo.checkout_head(Some(&mut checkout))?;
        }
        Request::WriteFile { path, content } => write_file(repo, &path, &content),
        Request::MarkResolved { path } => {
            let mut index = repo.index()?;
            index.add_path(Path::new(&path))?;
            index.write()?;
        }
        Request::RemoveFromIndex { path } => {
            let mut index = repo.index()?;
            index.remove_path(Path::new(&path))?;
            index.write()?;
        }
        Request::WriteIndexFile { path, content } => {
            let mut index = repo.index()?;
            let mut entry = index.get_path(Path::new(&path), 0).unwrap();
            entry.id = repo.blob(content.as_bytes())?;
            entry.file_size = content.len() as u32;
            index.add(&entry)?;
            index.write()?;
        }
        other => panic!("cannot carry out {other:?}"),
    }
    Ok(())
}

fn perform(repo: &mut Repository, request: Request) -> Result<Reply, git2::Error> {
    match request {
        Request::StashSave { label } => {
            let by = repo.signature()?;
            let oid = repo.stash_save(&by, &label, Some(git2::StashFlags::INCLUDE_UNTRACKED))?;
            Ok(Reply::Commit(oid.to_string()))
        }
        Request::StashPop { index } => repo.stash_pop(index, None).map(|_| Reply::Done),
        Request::StashDrop { index } => repo.stash_drop(index).map(|_| Reply::Done),
        Request::TrySafetyPoint { point, log } => {
            let kept = change(repo, Request::WriteSafetyPoint { point, log });
            Ok(Reply::Kept(kept.is_ok()))
        }
        Request::NextRebaseStep => {
            let mut rebase = repo.open_rebase(None)?;
            match rebase.next() {
                None => Ok(Reply::Step(RebaseStep::End)),
                Some(step) => {
                    step?;
                    Ok(Reply::Step(if repo.index()?.has_conflicts() {
                        RebaseStep::Conflicted
                    } else {
                        RebaseStep::Applied
                    }))
                }
            }
        }
        Request::CommitRebaseStep { allow_empty } => {
            let result = repo.open_rebase(None)?.commit(None, &repo.signature()?, None);
            if !allow_empty {
                return result.map(|_| Reply::Committed { empty: false });
            }
            let result = result.map(|_| ()).map_err(|error| read_failure(&error));
            let created = conflict::commit_step(result).unwrap();
            Ok(Reply::Committed { empty: !created })
        }
        Request::WriteTree => Ok(Reply::Tree(repo.index()?.write_tree()?.to_string())),
        Request::CreateCommit {
            message,
            tree,
            parents,
        } => Ok(Reply::Commit(
            create_commit(repo, &message, &tree, &parents)?.to_string(),
        )),
        other if reads(&other) => read(repo, other),
        other => change(repo, other).map(|_| Reply::Done),
    }
}

fn reads(request: &Request) -> bool {
    matches!(
        request,
        Request::ReadState
            | Request::ReadHead
            | Request::ReadUpstream { .. }
            | Request::ReadHeadCommit
            | Request::FindHeadCommit
            | Request::FindHeadName
            | Request::ReadMergeHead
            | Request::ReadReference { .. }
            | Request::Compare { .. }
            | Request::ReadWorkTree
            | Request::ReadConflicts
            | Request::ReadIdentity
            | Request::ReadSafetyFacts
            | Request::FindSafetyFacts
            | Request::ReadRemotes
            | Request::ListRemote { .. }
            | Request::FindFile { .. }
            | Request::ReadBranch { .. }
            | Request::FindRemoteBranch { .. }
            | Request::ReadDeltas { .. }
            | Request::ReadIndexFile { .. }
            | Request::ReadHeadFile { .. }
    )
}

// Looking at repositories.

fn changes(repo: &Repository) -> Vec<FileChange> {
    let mut options = StatusOptions::new();
    options
        .include_untracked(true)
        .include_ignored(false)
        .renames_head_to_index(true)
        .renames_index_to_workdir(true);
    let raw = repo
        .statuses(Some(&mut options))
        .unwrap()
        .iter()
        .map(|entry| RawStatus {
            path: entry.path_bytes().to_vec(),
            bits: entry.status().bits(),
        })
        .collect();
    workspace::changes(repo.is_bare(), &raw)
}

fn branches(repo: &Repository) -> Vec<BranchInfo> {
    let mut raw = Vec::new();
    for (branch, kind) in repo.branches(None).unwrap().flatten() {
        raw.push(RawBranch {
            name: branch.name().ok().flatten().map(str::to_owned),
            is_head: branch.is_head(),
            is_remote: kind == BranchType::Remote,
            upstream: None,
        });
    }
    workspace::branches(raw)
}

fn stashes(repo: &mut Repository) -> Vec<StashEntry> {
    let mut messages = Vec::new();
    repo.stash_foreach(|_, message, _| {
        messages.push(message.to_owned());
        true
    })
    .unwrap();
    workspace::stashes(messages)
}

fn conflict_side(repo: &Repository, entry: Option<git2::IndexEntry>) -> Option<RawSide> {
    entry.map(|entry| RawSide {
        blob: repo.find_blob(entry.id).ok().map(|blob| RawBlob {
            bytes: blob.content().to_vec(),
            is_binary: blob.is_binary(),
        }),
        path: entry.path,
    })
}

fn conflicts(repo: &Repository) -> Vec<ConflictFile> {
    let mut raw = Vec::new();
    for entry in repo.index().unwrap().conflicts().unwrap() {
        let entry = entry.unwrap();
        let name = String::from_utf8(entry.our.as_ref().unwrap().path.clone()).unwrap();
        raw.push(RawConflict {
            ancestor: conflict_side(repo, entry.ancestor),
            our: conflict_side(repo, entry.our),
            their: conflict_side(repo, entry.their),
            merged: Some(read_file(repo, &name).into_bytes()),
        });
    }
    conflict::conflicts(raw).unwrap()
}

fn all_resolved(repo: &Repository) -> bool {
    conflict::all_resolved(repo.index().unwrap().has_conflicts())
}

fn safety_points(repo: &Repository) -> Vec<SafetyPoint> {
    let raw = repo
        .references_glob(&format!("{UNDO_NAMESPACE}/*"))
        .unwrap()
        .flatten()
        .map(|reference| RawReference {
            name: reference.name().ok().map(str::to_owned),
            target: reference.target().map(|oid| oid.to_string()),
        })
        .collect();
    ops::list_safety_points(raw)
}

fn workspace_diff(repo: &Repository, source: DiffSource) -> Vec<FileDiff> {
    diff::workspace_diff(source, &deltas(repo, source).unwrap()).unwrap()
}

fn head_id(repo: &Repository) -> Oid {
    head_commit(repo).unwrap().id()
}

fn branch_name(repo: &Repository) -> String {
    repo.head().unwrap().shorthand().unwrap().to_owned()
}

// Making repositories.

/// A place for the repositories of a test.
fn playground(label: &str) -> String {
    let now = SystemTime::now().duration_since(UNIX_EPOCH).unwrap();
    format!("/tmp/gitview-ops-{label}-{}", now.as_nanos())
}

fn identify(repo: &Repository) {
    let mut config = repo.config().unwrap();
    config.set_str("user.name", "Test").unwrap();
    config.set_str("user.email", "test@example.com").unwrap();
}

fn solo(label: &str) -> Repository {
    let repo = Repository::init(format!("{}/solo", playground(label))).expect("無法初始化");
    identify(&repo);
    repo
}

/// Writes a file to the working tree and leaves the index as it is.
fn write_file(repo: &Repository, name: &str, content: &str) {
    let blob = repo.blob(content.as_bytes()).unwrap();
    let mut builder = repo.treebuilder(None).unwrap();
    builder.insert(name, blob, 0o100644).unwrap();
    let tree = repo.find_tree(builder.write().unwrap()).unwrap();
    let mut checkout = CheckoutBuilder::new();
    checkout.force().update_index(false).path(name);
    repo.checkout_tree(tree.as_object(), Some(&mut checkout)).unwrap();
    assert_eq!(read_file(repo, name), content);
}

fn read_file(repo: &Repository, name: &str) -> String {
    let blob = repo.blob_path(&repo.workdir().unwrap().join(name)).unwrap();
    String::from_utf8(repo.find_blob(blob).unwrap().content().to_vec()).unwrap()
}

fn write_commit(repo: &Repository, name: &str, content: &str, message: &str) -> Oid {
    write_file(repo, name, content);
    let mut index = repo.index().expect("無法取得索引");
    index.add_path(Path::new(name)).expect("無法加入索引");
    index.write().expect("無法寫入索引");
    let tree_id = index.write_tree().expect("無法寫出 tree");
    let tree = repo.find_tree(tree_id).expect("找不到 tree");
    let parents: Vec<git2::Commit> = match repo.head() {
        Ok(head) => vec![head.peel_to_commit().expect("HEAD 不是 commit")],
        Err(_) => Vec::new(),
    };
    let refs: Vec<&git2::Commit> = parents.iter().collect();
    let by = Signature::now("Test", "test@example.com").expect("無法建立簽章");
    repo.commit(Some("HEAD"), &by, &by, message, &tree, &refs)
        .expect("無法建立 commit")
}

fn push_branch(repo: &Repository) {
    let branch = branch_name(repo);
    let mut remote = repo.find_remote("origin").expect("找不到 origin");
    remote
        .push(&[format!("refs/heads/{branch}:refs/heads/{branch}")], None)
        .expect("推送失敗");
}

/// A repository whose remote is ahead of it. With `local_change` it has a commit of its
/// own too.
fn scenario(
    label: &str,
    remote_file: &str,
    remote_content: &str,
    local_change: Option<(&str, &str)>,
) -> Repository {
    let root = playground(label);
    let origin = format!("{root}/origin.git");
    Repository::init_bare(&origin).expect("無法建立裸 repository");
    let url = format!("file://{origin}");

    let seed = Repository::clone(&url, format!("{root}/seed")).expect("無法 clone");
    identify(&seed);
    write_commit(&seed, "shared.txt", "base\n", "base");
    push_branch(&seed);

    let other = Repository::clone(&url, format!("{root}/other")).expect("無法 clone");
    write_commit(&other, remote_file, remote_content, "remote work");
    push_branch(&other);

    if let Some((name, content)) = local_change {
        write_commit(&seed, name, content, "local work");
    }
    seed.find_remote("origin")
        .expect("找不到 origin")
        .fetch(&[] as &[&str], None, None)
        .expect("fetch 失敗");
    seed
}

#[test]
fn fast_forward_advances_the_branch_and_records_an_undo_point() {
    let mut repo = scenario("ff", "remote.txt", "remote\n", None);

    let before = head_id(&repo);
    let outcome = run(&mut repo, ops::fast_forward()).expect("快轉失敗");
    let after = head_id(&repo);

    assert_ne!(before, after, "分支應該前進");
    assert!(repo.workdir().unwrap().join("remote.txt").exists());
    let point = outcome.undo.expect("應該建立還原點");
    assert_eq!(point.oid, before.to_string());
    assert_eq!(point.operation, "fast-forward");
}

#[test]
fn fast_forward_refuses_when_the_branch_has_diverged() {
    let mut repo = scenario("ff-diverged", "remote.txt", "remote\n", Some(("local.txt", "local\n")));
    let before = head_id(&repo);

    let error = refusal(run(&mut repo, ops::fast_forward()));
    assert!(error.contains("無法快轉"));
    assert_eq!(head_id(&repo), before);
    assert!(safety_points(&repo).is_empty());
}

#[test]
fn fast_forward_refuses_with_uncommitted_changes() {
    let mut repo = scenario("ff-dirty", "remote.txt", "remote\n", None);
    write_file(&repo, "shared.txt", "edited\n");

    let error = refusal(run(&mut repo, ops::fast_forward()));
    assert!(error.contains("未提交"));
}

#[test]
fn rebase_produces_linear_history_and_can_be_undone() {
    let mut repo = scenario("rebase", "remote.txt", "remote\n", Some(("local.txt", "local\n")));
    let before = head_id(&repo);

    let outcome = run(&mut repo, ops::rebase_onto_upstream()).expect("rebase 失敗");
    assert!(outcome.message.contains("重新套用"));

    let head = repo.head().unwrap().target().unwrap();
    let upstream = repo
        .find_branch("master", BranchType::Local)
        .or_else(|_| repo.find_branch("main", BranchType::Local))
        .unwrap()
        .upstream()
        .unwrap()
        .get()
        .target()
        .unwrap();
    let (ahead, behind) = repo.graph_ahead_behind(head, upstream).unwrap();
    assert_eq!((ahead, behind), (1, 0), "rebase 後應只領先，不落後");

    let point = outcome.undo.expect("應該建立還原點");
    run(&mut repo, ops::undo_to(&point.reference)).expect("還原失敗");
    assert_eq!(head_id(&repo), before, "還原後應回到操作前的位置");
}

#[test]
fn rebase_refuses_with_uncommitted_changes() {
    let mut repo = scenario("rebase-dirty", "remote.txt", "remote\n", Some(("local.txt", "local\n")));
    write_file(&repo, "shared.txt", "edited\n");

    let error = refusal(run(&mut repo, ops::rebase_onto_upstream()));
    assert!(error.contains("未提交"));
}

#[test]
fn merge_creates_a_merge_commit() {
    let mut repo = scenario("merge", "remote.txt", "remote\n", Some(("local.txt", "local\n")));

    run(&mut repo, ops::merge_upstream()).expect("合併失敗");
    let head = head_commit(&repo).unwrap();
    assert_eq!(head.parent_count(), 2, "應該產生一個有兩個父節點的合併");
}

#[test]
fn a_conflicting_merge_stops_and_can_be_concluded() {
    let mut repo = scenario(
        "merge-conflict",
        "shared.txt",
        "remote version\n",
        Some(("shared.txt", "local version\n")),
    );
    let outcome = run(&mut repo, ops::merge_upstream()).unwrap();
    assert!(outcome.message.contains("衝突"));
    assert_eq!(repo.state(), git2::RepositoryState::Merge);
    assert!(refusal(run(&mut repo, conflict::continue_operation())).contains("衝突"));

    let files = conflicts(&repo);
    run(&mut repo, conflict::resolve_using(&files, "shared.txt", Side::Theirs)).unwrap();
    run(&mut repo, conflict::continue_operation()).unwrap();
    assert_eq!(repo.state(), git2::RepositoryState::Clean);
    assert_eq!(head_commit(&repo).unwrap().parent_count(), 2);
    assert_eq!(read_file(&repo, "shared.txt"), "remote version\n");
}

#[test]
fn safety_points_are_listed_and_pruned() {
    let mut repo = scenario("points", "remote.txt", "remote\n", None);

    for index in 0..5 {
        let facts = safety_facts(&repo).unwrap();
        let (point, log) = ops::create_safety_point(facts, &format!("test{index}"));
        perform(&mut repo, Request::WriteSafetyPoint { point, log }).expect("無法建立還原點");
    }
    let points = safety_points(&repo);
    assert!(points.len() >= 5);

    let removed = ops::prune_safety_points(&points, 2);
    for name in &removed {
        repo.find_reference(name).unwrap().delete().unwrap();
    }
    assert!(removed.len() >= 3);
    assert_eq!(safety_points(&repo).len(), 2);
}

#[test]
fn undo_rejects_references_outside_its_own_namespace() {
    let mut repo = scenario("undo-guard", "remote.txt", "remote\n", None);

    let error = refusal(run(&mut repo, ops::undo_to("refs/heads/master")));
    assert!(error.contains("只能還原"));
}

#[test]
fn conflicting_rebase_stops_and_can_be_resolved_then_continued() {
    let mut repo = scenario(
        "conflict",
        "shared.txt",
        "remote version\n",
        Some(("shared.txt", "local version\n")),
    );

    let outcome = run(&mut repo, ops::rebase_onto_upstream()).expect("rebase 應停在衝突而非失敗");
    assert!(outcome.message.contains("衝突"), "應回報遇到衝突");

    let files = conflicts(&repo);
    assert_eq!(files.len(), 1);
    assert_eq!(files[0].path, "shared.txt");
    assert!(files[0].ours.exists && files[0].theirs.exists);
    assert!(files[0].merged.is_some(), "工作目錄應有含衝突標記的內容");
    assert!(!all_resolved(&repo));

    run(&mut repo, conflict::resolve_using(&files, "shared.txt", Side::Theirs)).expect("解決失敗");
    assert!(all_resolved(&repo));

    let done = run(&mut repo, conflict::continue_operation()).expect("繼續失敗");
    assert!(done.message.contains("完成"));
    assert_eq!(repo.state(), git2::RepositoryState::Clean);
}

#[test]
fn a_conflicted_operation_can_be_aborted() {
    let mut repo = scenario(
        "abort",
        "shared.txt",
        "remote version\n",
        Some(("shared.txt", "local version\n")),
    );
    let before = head_id(&repo);

    run(&mut repo, ops::rebase_onto_upstream()).expect("應停在衝突");
    assert_ne!(repo.state(), git2::RepositoryState::Clean);

    run(&mut repo, ops::abort_operation()).expect("中止失敗");
    assert_eq!(repo.state(), git2::RepositoryState::Clean);
    assert_eq!(head_id(&repo), before, "中止後應回到操作前");
}

#[test]
fn with_nothing_in_progress_there_is_nothing_to_abort() {
    let mut repo = solo("abort-nothing");
    write_commit(&repo, "a.txt", "one\n", "first");
    let before = head_id(&repo);
    let aborted = run(&mut repo, ops::abort_operation()).unwrap();
    assert_eq!(aborted.message, "沒有進行中的操作");
    let continued = run(&mut repo, conflict::continue_operation()).unwrap();
    assert_eq!(continued.message, "沒有進行中的操作");
    let error = refusal(run(&mut repo, conflict::skip_current_step()));
    assert_eq!(error, "只有 rebase 可以略過單一步驟");
    assert_eq!(head_id(&repo), before);
}

#[test]
fn resolving_with_edited_content_is_accepted() {
    let mut repo = scenario(
        "resolve-edit",
        "shared.txt",
        "remote version\n",
        Some(("shared.txt", "local version\n")),
    );
    run(&mut repo, ops::rebase_onto_upstream()).expect("應停在衝突");

    run(&mut repo, conflict::resolve_with_content("shared.txt", "手動合併的結果\n")).expect("解決失敗");
    assert!(all_resolved(&repo));
    run(&mut repo, conflict::continue_operation()).expect("繼續失敗");

    assert_eq!(read_file(&repo, "shared.txt"), "手動合併的結果\n");
}

#[test]
fn staging_committing_and_unstaging_work() {
    let mut repo = solo("commit");
    write_commit(&repo, "a.txt", "one\n", "first");

    write_file(&repo, "b.txt", "two\n");
    let found = changes(&repo);
    assert_eq!(found.len(), 1);
    assert!(found[0].is_untracked);

    run(&mut repo, workspace::stage(vec!["b.txt".to_owned()])).expect("暫存失敗");
    assert_eq!(changes(&repo)[0].staged, "new");

    run(&mut repo, workspace::unstage(vec!["b.txt".to_owned()])).expect("取消暫存失敗");
    assert_eq!(changes(&repo)[0].staged, "none");
    assert!(
        repo.workdir().unwrap().join("b.txt").exists(),
        "取消暫存不得刪除工作目錄的檔案"
    );

    run(&mut repo, workspace::stage(Vec::new())).expect("暫存全部失敗");
    run(&mut repo, workspace::commit("第二個 commit", false)).expect("提交失敗");
    assert_eq!(
        head_commit(&repo).unwrap().summary().unwrap().unwrap(),
        "第二個 commit"
    );
    assert!(changes(&repo).is_empty());

    run(&mut repo, workspace::commit("改寫的 commit", true)).expect("提交失敗");
    let head = head_commit(&repo).unwrap();
    assert_eq!(head.summary().unwrap().unwrap(), "改寫的 commit");
    assert_eq!(head.parent(0).unwrap().summary().unwrap().unwrap(), "first");
}

#[test]
fn committing_without_a_message_is_rejected() {
    let mut repo = solo("empty-msg");
    write_commit(&repo, "a.txt", "one\n", "first");
    write_file(&repo, "b.txt", "two\n");
    run(&mut repo, workspace::stage(Vec::new())).unwrap();

    let error = refusal(run(&mut repo, workspace::commit("   ", false)));
    assert!(error.contains("不能是空的"));
}

#[test]
fn branches_can_be_created_listed_and_switched() {
    let mut repo = solo("branch");
    write_commit(&repo, "a.txt", "one\n", "first");
    let original = branch_name(&repo);

    run(&mut repo, workspace::create_branch("feature/x")).expect("建立分支失敗");
    assert_eq!(branch_name(&repo), "feature/x");

    let list = branches(&repo);
    assert!(list.iter().any(|b| b.name == "feature/x" && b.is_head));
    assert!(list.iter().any(|b| b.name == original));

    run(&mut repo, workspace::checkout_branch(&original)).expect("切換失敗");
    assert_eq!(branch_name(&repo), original);
}

#[test]
fn stash_round_trip_preserves_changes() {
    let mut repo = solo("stash");
    write_commit(&repo, "a.txt", "one\n", "first");

    write_file(&repo, "a.txt", "edited\n");
    run(&mut repo, workspace::stash_save("測試暫存")).expect("暫存失敗");
    assert_eq!(
        read_file(&repo, "a.txt"),
        "one\n",
        "暫存後工作目錄應回到乾淨狀態"
    );
    assert_eq!(stashes(&mut repo).len(), 1);

    run(&mut repo, workspace::stash_pop(0)).expect("取出失敗");
    assert_eq!(read_file(&repo, "a.txt"), "edited\n", "取出後應恢復原本的編輯");
    assert!(stashes(&mut repo).is_empty());
}

#[test]
fn discard_reverts_a_file_and_refuses_an_empty_list() {
    let mut repo = solo("discard");
    write_commit(&repo, "a.txt", "one\n", "first");
    write_file(&repo, "a.txt", "edited\n");

    let error = refusal(run(&mut repo, workspace::discard(Vec::new())));
    assert!(error.contains("必須指定"));

    run(&mut repo, workspace::discard(vec!["a.txt".to_owned()])).expect("丟棄失敗");
    assert_eq!(read_file(&repo, "a.txt"), "one\n");
}

#[test]
fn diff_reports_hunks_and_intra_line_changes() {
    let repo = solo("diff");
    write_commit(&repo, "a.txt", "one\ntwo\nthree\n", "first");
    write_file(&repo, "a.txt", "one\nTWO\nthree\n");

    let diffs = workspace_diff(&repo, DiffSource::Unstaged);
    assert_eq!(diffs.len(), 1);
    assert_eq!(diffs[0].path, "a.txt");
    assert_eq!(diffs[0].added, 1);
    assert_eq!(diffs[0].removed, 1);

    let lines = &diffs[0].hunks[0].lines;
    let removed = lines.iter().find(|l| l.kind == LineKind::Removed).unwrap();
    let added = lines.iter().find(|l| l.kind == LineKind::Added).unwrap();
    assert_eq!(removed.content, "two");
    assert_eq!(added.content, "TWO");
    assert!(!removed.spans.is_empty(), "應標出行內變動處");
}

/// The changed lines of a file that hold one of the given texts.
fn pick(file: &FileDiff, texts: [&str; 2]) -> Vec<LineRef> {
    let mut selection = Vec::new();
    for (hunk_index, hunk) in file.hunks.iter().enumerate() {
        for (line_index, line) in hunk.lines.iter().enumerate() {
            if texts.contains(&line.content.as_str()) && line.kind != LineKind::Context {
                selection.push(LineRef {
                    hunk: hunk_index,
                    line: line_index,
                });
            }
        }
    }
    selection
}

fn added_lines(file: &FileDiff) -> Vec<&str> {
    file.hunks
        .iter()
        .flat_map(|hunk| hunk.lines.iter())
        .filter(|line| line.kind == LineKind::Added)
        .map(|line| line.content.as_str())
        .collect()
}

#[test]
fn staging_a_single_line_leaves_the_rest_unstaged() {
    let mut repo = solo("partial");
    write_commit(&repo, "a.txt", "one\ntwo\nthree\nfour\nfive\n", "first");
    write_file(&repo, "a.txt", "ONE\ntwo\nthree\nfour\nFIVE\n");

    let selected = pick(&workspace_diff(&repo, DiffSource::Unstaged)[0], ["ONE", "one"]);
    assert_eq!(selected.len(), 2, "應選到一個刪除行與一個新增行");
    run(&mut repo, selection::stage_selection("a.txt", selected)).expect("部分暫存失敗");

    let staged = workspace_diff(&repo, DiffSource::Staged);
    assert_eq!(added_lines(&staged[0]), vec!["ONE"], "只有選取的那一行應進入索引");

    assert_eq!(read_file(&repo, "a.txt"), "ONE\ntwo\nthree\nfour\nFIVE\n");

    let remaining = workspace_diff(&repo, DiffSource::Unstaged);
    assert_eq!(added_lines(&remaining[0]), vec!["FIVE"]);
}

#[test]
fn unstaging_a_single_line_returns_it_to_unstaged() {
    let mut repo = solo("partial-unstage");
    write_commit(&repo, "a.txt", "one\ntwo\nthree\nfour\nfive\n", "first");
    write_file(&repo, "a.txt", "ONE\ntwo\nthree\nfour\nFIVE\n");
    run(&mut repo, workspace::stage(vec!["a.txt".to_owned()])).expect("暫存失敗");

    let selected = pick(&workspace_diff(&repo, DiffSource::Staged)[0], ["FIVE", "five"]);
    assert_eq!(selected.len(), 2);
    run(&mut repo, selection::unstage_selection("a.txt", selected)).expect("部分取消暫存失敗");

    let still_staged = workspace_diff(&repo, DiffSource::Staged);
    assert_eq!(
        added_lines(&still_staged[0]),
        vec!["ONE"],
        "只有未被取消的那一行應留在索引"
    );
}

#[test]
fn commit_diff_and_file_history_read_real_history() {
    let repo = solo("history");
    write_commit(&repo, "a.txt", "one\n", "first");
    write_commit(&repo, "b.txt", "other\n", "unrelated");
    let target = write_commit(&repo, "a.txt", "one\ntwo\n", "extend a");

    let commit = repo.find_commit(target).unwrap();
    let old = commit.parent(0).unwrap().tree().unwrap();
    let mut options = diff_options(compare::commit_options());
    let compared = repo
        .diff_tree_to_tree(Some(&old), Some(&commit.tree().unwrap()), Some(&mut options))
        .unwrap();
    let files = diff::commit_diff(&target.to_string(), Some(&raw_deltas(&compared).unwrap()))
        .expect("無法讀取 commit 差異");
    assert_eq!(files.len(), 1, "該 commit 只動到一個檔案");
    assert_eq!(files[0].path, "a.txt");
    assert_eq!(files[0].added, 1);

    let mut walk = repo.revwalk().unwrap();
    walk.push_head().unwrap();
    walk.set_sorting(git2::Sort::TOPOLOGICAL).unwrap();
    let mut history = FileHistory::new(10);
    for oid in walk {
        let oid = oid.unwrap();
        let commit = repo.find_commit(oid).unwrap();
        let old = commit.parent(0).ok().and_then(|parent| parent.tree().ok());
        let mut options = DiffOptions::new();
        options.pathspec("a.txt");
        let compared = repo
            .diff_tree_to_tree(old.as_ref(), Some(&commit.tree().unwrap()), Some(&mut options))
            .unwrap();
        let failed = history.offer(Visit::Compared {
            oid: oid.to_string(),
            touched: compared.deltas().len() > 0,
        });
        assert!(failed.is_none());
    }
    let history = history.oids;
    assert_eq!(history.len(), 2, "a.txt 被兩個 commit 動過");
    assert_eq!(history[0], target.to_string(), "最新的排最前");
}

#[test]
fn incoming_collisions_are_marked_on_the_working_diff() {
    let repo = scenario("collide", "shared.txt", "base\nremote change\n", None);
    write_file(&repo, "shared.txt", "base\nlocal edit\n");

    let mut diffs = workspace_diff(&repo, DiffSource::Unstaged);
    let upstream = repo
        .find_branch(&branch_name(&repo), BranchType::Local)
        .unwrap()
        .upstream()
        .unwrap();
    let mut options = DiffOptions::new();
    options.context_lines(0);
    let compared = repo
        .diff_tree_to_tree(
            Some(&repo.head().unwrap().peel_to_tree().unwrap()),
            Some(&upstream.get().peel_to_tree().unwrap()),
            Some(&mut options),
        )
        .unwrap();
    let incoming = diff::incoming_line_ranges(&raw_deltas(&compared).unwrap());
    diff::mark_incoming_collisions(&mut diffs, &incoming);

    let file = diffs
        .iter()
        .find(|f| f.path == "shared.txt")
        .expect("應有差異");
    assert!(
        file.hunks.iter().any(|hunk| hunk.collides_with_incoming),
        "本機改的位置與即將進來的變更重疊，應被標記"
    );
}

#[test]
fn paired_lines_are_linked_so_the_interface_can_select_them_together() {
    let repo = solo("pairing");
    write_commit(&repo, "a.txt", "one\ntwo\nthree\n", "first");
    write_file(&repo, "a.txt", "one\nTWO\nthree\n");

    let diffs = workspace_diff(&repo, DiffSource::Unstaged);
    let hunk = &diffs[0].hunks[0];

    let removed = hunk
        .lines
        .iter()
        .position(|line| line.kind == LineKind::Removed)
        .expect("應有刪除行");
    let added = hunk
        .lines
        .iter()
        .position(|line| line.kind == LineKind::Added)
        .expect("應有新增行");

    assert_eq!(hunk.lines[removed].pair, Some(added));
    assert_eq!(hunk.lines[added].pair, Some(removed));
}

#[test]
fn staging_only_one_side_of_a_pair_produces_both_lines() {
    let mut repo = solo("half-pair");
    write_commit(&repo, "a.txt", "one\ntwo\nthree\n", "first");
    write_file(&repo, "a.txt", "one\nTWO\nthree\n");

    let diffs = workspace_diff(&repo, DiffSource::Unstaged);
    let added = diffs[0].hunks[0]
        .lines
        .iter()
        .position(|line| line.kind == LineKind::Added)
        .unwrap();

    // Without the removed line the index keeps the old line beside the new one.
    let selected = vec![LineRef {
        hunk: 0,
        line: added,
    }];
    run(&mut repo, selection::stage_selection("a.txt", selected)).expect("暫存失敗");

    let staged = workspace_diff(&repo, DiffSource::Staged);
    assert_eq!(
        added_lines(&staged[0]),
        vec!["TWO"],
        "索引會同時含有 two 與 TWO —— 這正是只選一邊的後果"
    );
    let reply = read(&repo, Request::ReadIndexFile { path: "a.txt".to_owned() }).unwrap();
    match reply {
        Reply::File(Some(content)) => {
            let text = String::from_utf8(content).unwrap();
            assert!(text.contains("two\n") && text.contains("TWO\n"));
        }
        other => panic!("no file: {other:?}"),
    }
}

#[test]
fn resolving_by_taking_theirs_skips_the_now_empty_commit() {
    let mut repo = scenario(
        "empty-step",
        "shared.txt",
        "remote version\n",
        Some(("shared.txt", "local version\n")),
    );

    run(&mut repo, ops::rebase_onto_upstream()).expect("應停在衝突");

    // During a rebase "ours" is the side that is built upon, so that nothing is left of
    // the local commit.
    let files = conflicts(&repo);
    run(&mut repo, conflict::resolve_using(&files, "shared.txt", Side::Ours)).expect("解決失敗");

    let outcome = run(&mut repo, conflict::continue_operation()).expect("應能完成而非報錯");
    assert!(
        outcome.message.contains("略過"),
        "應說明有步驟因為變成空的而被略過，實際訊息：{}",
        outcome.message
    );
    assert_eq!(
        repo.state(),
        git2::RepositoryState::Clean,
        "rebase 應已結束"
    );

    assert_eq!(read_file(&repo, "shared.txt"), "remote version\n");
}

#[test]
fn a_conflicting_step_can_be_skipped() {
    let mut repo = scenario(
        "skip",
        "shared.txt",
        "remote version\n",
        Some(("shared.txt", "local version\n")),
    );
    run(&mut repo, ops::rebase_onto_upstream()).expect("應停在衝突");
    let outcome = run(&mut repo, conflict::skip_current_step()).expect("略過失敗");
    assert_eq!(outcome.message, "已略過該 commit，其餘 0 個已套用");
    assert_eq!(repo.state(), git2::RepositoryState::Clean);
    assert_eq!(read_file(&repo, "shared.txt"), "remote version\n");
}

#[test]
fn during_rebase_ours_is_the_upstream_side() {
    let mut repo = scenario(
        "side-meaning",
        "shared.txt",
        "remote version\n",
        Some(("shared.txt", "local version\n")),
    );
    run(&mut repo, ops::rebase_onto_upstream()).expect("應停在衝突");

    let files = conflicts(&repo);
    let file = &files[0];
    assert_eq!(
        file.ours.text.as_deref(),
        Some("remote version\n"),
        "rebase 時 ours 應為遠端的內容"
    );
    assert_eq!(
        file.theirs.text.as_deref(),
        Some("local version\n"),
        "rebase 時 theirs 應為本機的內容"
    );
}

#[test]
fn branch_can_be_renamed_and_deleted_with_recovery() {
    let mut repo = solo("branch-ops");
    write_commit(&repo, "a.txt", "one\n", "first");
    let main = branch_name(&repo);

    run(&mut repo, workspace::create_branch("feature/old")).expect("建立失敗");
    write_commit(&repo, "b.txt", "work\n", "分支上的工作");
    let tip = repo.head().unwrap().target().unwrap();
    run(&mut repo, workspace::checkout_branch(&main)).expect("切換失敗");

    run(&mut repo, workspace::rename_branch("feature/old", "feature/new")).expect("改名失敗");
    let names: Vec<String> = branches(&repo).into_iter().map(|b| b.name).collect();
    assert!(names.contains(&"feature/new".to_owned()));
    assert!(!names.contains(&"feature/old".to_owned()));

    let outcome = run(&mut repo, workspace::delete_branch("feature/new")).expect("刪除失敗");
    assert!(outcome.message.contains("尚未合併"), "訊息應提醒內容未合併");
    let point = outcome.undo.expect("刪除分支必須留下還原點");
    assert_eq!(point.oid, tip.to_string(), "還原點應指向分支原本的位置");

    assert!(repo.find_commit(tip).is_ok(), "還原點在，commit 就不會消失");
    assert_eq!(repo.find_reference(&point.reference).unwrap().target(), Some(tip));
}

#[test]
fn the_current_branch_cannot_be_deleted() {
    let mut repo = solo("branch-guard");
    write_commit(&repo, "a.txt", "one\n", "first");
    let current = branch_name(&repo);

    let error = refusal(run(&mut repo, workspace::delete_branch(&current)));
    assert!(error.contains("目前所在的分支"));
}

#[test]
fn upstream_can_be_set_and_cleared() {
    let mut repo = scenario("upstream", "remote.txt", "remote\n", None);
    let branch = branch_name(&repo);

    run(&mut repo, workspace::set_upstream(&branch, None)).expect("取消追蹤失敗");
    assert!(
        repo.find_branch(&branch, BranchType::Local)
            .unwrap()
            .upstream()
            .is_err(),
        "取消後不應有追蹤對象"
    );

    let remote_branch = format!("origin/{branch}");
    run(&mut repo, workspace::set_upstream(&branch, Some(&remote_branch))).expect("設定追蹤失敗");
    assert!(repo
        .find_branch(&branch, BranchType::Local)
        .unwrap()
        .upstream()
        .is_ok());
}

#[test]
fn setting_a_nonexistent_upstream_is_rejected() {
    let mut repo = scenario("upstream-guard", "remote.txt", "remote\n", None);
    let branch = branch_name(&repo);

    let error = refusal(run(&mut repo, workspace::set_upstream(&branch, Some("origin/nope"))));
    assert!(error.contains("找不到遠端分支"));
}

#[test]
fn a_push_sends_the_branch() {
    let mut repo = scenario("push", "remote.txt", "remote\n", None);
    run(&mut repo, ops::fast_forward()).unwrap();
    let tip = write_commit(&repo, "local.txt", "local\n", "local work");
    run(&mut repo, ops::push(false)).unwrap();
    let heads = list_remote(&repo, "origin").unwrap();
    let name = format!("refs/heads/{}", branch_name(&repo));
    assert!(heads.iter().any(|head| head.name == name && head.oid == tip.to_string()));
}

#[test]
fn a_forced_push_needs_the_remote_to_be_as_it_was_last_seen() {
    let mut repo = scenario("push-force", "remote.txt", "remote\n", Some(("local.txt", "local\n")));
    let other = Repository::open(repo.workdir().unwrap().join("../other")).unwrap();
    write_commit(&other, "later.txt", "later\n", "later work");
    push_branch(&other);

    refusal(run(&mut repo, ops::push(true)));
    repo.find_remote("origin")
        .unwrap()
        .fetch(&[] as &[&str], None, None)
        .unwrap();
    run(&mut repo, ops::push(true)).unwrap();
    let heads = list_remote(&repo, "origin").unwrap();
    let tip = head_id(&repo).to_string();
    assert!(heads.iter().any(|head| head.oid == tip));
}
