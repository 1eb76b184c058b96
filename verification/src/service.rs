//! What the interface asks for.
//!
//! Reading a repository and changing it is left to the application around the library:
//! what was read comes in as plain data, and what is shown of it goes out.
use vstd::prelude::*;
use vstd::utf8::{decode_utf8, valid_utf8};

use crate::compare;
use crate::conflict;
use crate::conflict::{conflicts_view, resolves_with, takes_side, ConflictFile, Side};
use crate::dag::{CommitGraph, Node};
use crate::diff::{files_view, DiffSource, FileDiff};
use crate::dto::{
    each, shows_blame, shows_branch, shows_change, shows_conflict, shows_files, shows_graph,
    shows_hit, shows_labels, shows_outcome, shows_point, shows_stash, BlameLineDto, BranchDto,
    CommitDetailDto, ConflictFileDto, FileChangeDto, FileDiffDto, GraphDto, OpOutcomeDto,
    SafetyPointDto, SearchHitDto, SideLabelsDto, StashDto, WorkspaceDto,
};
use crate::git;
use crate::git::{is_oid, RepoState};
use crate::layout::{is_layout_of, lay_out, layout_failure, reports_cycle, Layout, LayoutError};
use crate::layout_laws::{lanes_fit_the_width, places_all};
use crate::matching::{lower_case, trimmed};
use crate::operation::{is_start, Step};
use crate::ops::{names_beyond, prune_safety_points, refuse, refuses, OpOutcome, SafetyPoint};
use crate::order::newest_first;
use crate::order_laws::nodes_are_placed_once;
use crate::patch;
use crate::patch::{counts_fit, files_of, marked_file, sections_fit, IncomingRanges, RawDelta};
use crate::repo::RefLabels;
use crate::search;
use crate::search::{
    are_hits, is_blame, BlameLine, RawBlame, RawHistoryCommit, Search, SearchHit, SearchScope,
};
use crate::selection::LineRef;
use crate::status::{describe_state, state_label};
use crate::text;
use crate::text::lossy_text;
use crate::workspace::{BranchInfo, FileChange, StashEntry};

pub use crate::state::{
    add_repo, all_statuses, attention_rank, fetch_repo, remove_repo, status_of, AppState, FetchTry,
    ReadStatus, SettingsChange,
};

verus! {

/// The number of rows of a history that are loaded, unless asked for otherwise.
pub const DEFAULT_GRAPH_LIMIT: usize = 500;

/// The number of safety points that are kept. They keep what was thrown away from being
/// collected, so that without a limit it would pile up.
pub const KEEP_UNDO_POINTS: usize = 20;

/// The number of hits a search comes back with at most.
pub const SEARCH_LIMIT: usize = 100;

/// The number of commits a search looks at.
pub const SEARCH_SCAN_LIMIT: usize = 5_000;

/// The number of lines of a file whose sources are told.
pub const BLAME_LIMIT: usize = 5_000;

/// Whether this is what is shown of the first `limit` rows of a history: all of its
/// commits are laid out, the newest first.
pub open spec fn shows_history(
    dto: GraphDto,
    nodes: Seq<Node>,
    labels: Map<Seq<char>, Seq<Seq<char>>>,
    limit: usize,
) -> bool {
    exists|layout: Layout| #[trigger]
        shows_graph(dto, nodes, layout, labels, limit) && layout.order@.len() == nodes.len()
            && newest_first(nodes, layout.order@) && is_layout_of(layout, nodes, layout.order@)
}

/// The first rows of a history, laid out.
pub fn graph_of(graph: &CommitGraph, labels: &RefLabels, limit: usize) -> (r: Result<
    GraphDto,
    String,
>)
    ensures
        match r {
            Ok(dto) => shows_history(dto, graph@, labels@, limit),
            Err(message) => exists|error: LayoutError| #[trigger]
                reports_cycle(error, graph@) && message@ == "無法計算佈局："@ + layout_failure(
                    error,
                ),
        },
{
    match lay_out(graph) {
        Ok(layout) => {
            proof {
                use_type_invariant(graph);
                graph.lemma_wf();
                assert(places_all(layout, graph@));
                nodes_are_placed_once(graph@, layout.order@);
                if graph@.len() > 0 {
                    lanes_fit_the_width(layout, graph@, 0);
                }
            }
            let dto = GraphDto::from_layout(graph, &layout, labels, limit);
            assert(shows_graph(dto, graph@, layout, labels@, limit));
            assert(shows_history(dto, graph@, labels@, limit));
            Ok(dto)
        },
        Err(error) => Err(text::plus("無法計算佈局：".to_owned(), error.describe().as_str())),
    }
}

/// Whether this is what is shown of a working tree.
pub open spec fn shows_workspace(
    dto: WorkspaceDto,
    changes: Seq<FileChange>,
    branches: Seq<BranchInfo>,
    stashes: Seq<StashEntry>,
    conflicts: Seq<ConflictFile>,
    points: Seq<SafetyPoint>,
) -> bool {
    &&& dto.changes@.len() == changes.len()
    &&& forall|i: int|
        0 <= i < changes.len() ==> shows_change(#[trigger] dto.changes@[i], changes[i])
    &&& dto.branches@.len() == branches.len()
    &&& forall|i: int|
        0 <= i < branches.len() ==> shows_branch(#[trigger] dto.branches@[i], branches[i])
    &&& dto.stashes@.len() == stashes.len()
    &&& forall|i: int|
        0 <= i < stashes.len() ==> shows_stash(#[trigger] dto.stashes@[i], stashes[i])
    &&& dto.conflicts@.len() == conflicts.len()
    &&& forall|i: int|
        0 <= i < conflicts.len() ==> shows_conflict(#[trigger] dto.conflicts@[i], conflicts[i])
    &&& dto.undo_points@.len() == points.len()
    &&& forall|i: int|
        0 <= i < points.len() ==> shows_point(#[trigger] dto.undo_points@[i], points[i])
}

/// All that is shown of a working tree.
pub fn workspace_of(
    changes: &Vec<FileChange>,
    branches: &Vec<BranchInfo>,
    stashes: &Vec<StashEntry>,
    conflicts: &Vec<ConflictFile>,
    points: &Vec<SafetyPoint>,
    state: RepoState,
) -> (r: WorkspaceDto)
    ensures
        shows_workspace(r, changes@, branches@, stashes@, conflicts@, points@),
        text::view_of(r.operation) == state_label(state),
        exists|labels: conflict::SideLabels| #[trigger]
            shows_labels(r.side_labels, labels) && conflict::labels_sides(labels, state),
{
    let labels = conflict::side_labels(state);
    let ghost named = labels;
    let side_labels = SideLabelsDto::from(labels);
    let shown = WorkspaceDto {
        changes: each(changes, FileChangeDto::from),
        branches: each(branches, BranchDto::from),
        stashes: each(stashes, StashDto::from),
        conflicts: each(conflicts, ConflictFileDto::from),
        operation: describe_state(state),
        undo_points: each(points, SafetyPointDto::from),
        side_labels,
    };
    assert(shows_labels(shown.side_labels, named));
    shown
}

/// What is shown of an operation that is complete, and the references of the safety points
/// that are to be removed after it. `points` are those there are, the latest first.
pub fn run_op(outcome: OpOutcome, points: &Vec<SafetyPoint>) -> (r: (OpOutcomeDto, Vec<String>))
    ensures
        shows_outcome(r.0, outcome),
        text::views_of(r.1@) == names_beyond(points@, KEEP_UNDO_POINTS),
{
    let names = prune_safety_points(points, KEEP_UNDO_POINTS);
    (OpOutcomeDto::from(outcome), names)
}

/// Which side is meant, if one is named.
pub open spec fn side_named(side: Option<Seq<char>>) -> Option<Side> {
    if side == Some("ours"@) {
        Some(Side::Ours)
    } else if side == Some("theirs"@) {
        Some(Side::Theirs)
    } else {
        None
    }
}

/// Which side is meant, if one is named.
pub fn parse_side(side: &Option<String>) -> (r: Option<Side>)
    ensures
        r == side_named(text::view_of(*side)),
{
    proof {
        reveal_strlit("ours");
        reveal_strlit("theirs");
        assert("ours"@.len() != "theirs"@.len());
    }
    match side {
        Some(name) => if text::same(name.as_str(), "ours") {
            Some(Side::Ours)
        } else if text::same(name.as_str(), "theirs") {
            Some(Side::Theirs)
        } else {
            None
        },
        None => None,
    }
}

/// Whether a step resolves a file as it was asked for.
pub open spec fn resolves_as_asked(
    step: Step,
    files: Seq<ConflictFile>,
    file: Seq<char>,
    side: Option<Seq<char>>,
    content: Option<Seq<char>>,
) -> bool {
    match (side_named(side), content) {
        (Some(side), _) => takes_side(step, conflicts_view(files), file, side),
        (None, Some(content)) => resolves_with(step, file, content),
        (None, None) => refuses(step, "必須指定採用哪一方，或提供合併後的內容"@),
    }
}

/// Resolves a file: by one side, if one is named, or else with the content that is given.
pub fn resolve_conflict(
    files: &Vec<ConflictFile>,
    file: &str,
    side: &Option<String>,
    content: &Option<String>,
) -> (r: Step)
    ensures
        is_start(r),
        resolves_as_asked(r, files@, file@, text::view_of(*side), text::view_of(*content)),
{
    match (parse_side(side), content) {
        (Some(side), _) => conflict::resolve_using(files, file, side),
        (None, Some(content)) => conflict::resolve_with_content(file, content.as_str()),
        (None, None) => refuse("必須指定採用哪一方，或提供合併後的內容"),
    }
}

pub open spec fn source_named(source: Seq<char>) -> DiffSource {
    if source == "staged"@ {
        DiffSource::Staged
    } else {
        DiffSource::Unstaged
    }
}

/// Which difference is asked for.
pub fn diff_source(source: &str) -> (r: DiffSource)
    ensures
        r == source_named(source@),
{
    if text::same(source, "staged") {
        DiffSource::Staged
    } else {
        DiffSource::Unstaged
    }
}

/// The differences of the files of a comparison, marked where incoming changes are known.
pub open spec fn marked_files(
    deltas: Seq<RawDelta>,
    incoming: Option<&IncomingRanges>,
) -> Seq<crate::diff::ChangedFile> {
    match incoming {
        Some(incoming) => Seq::new(
            deltas.len(),
            |i: int| marked_file(files_of(deltas)[i], incoming@),
        ),
        None => files_of(deltas),
    }
}

/// Whether this is what is shown of the difference of a working tree or an index.
pub open spec fn shows_difference(
    dtos: Seq<FileDiffDto>,
    source: Seq<char>,
    deltas: Seq<RawDelta>,
    incoming: Option<&IncomingRanges>,
) -> bool {
    exists|files: Seq<FileDiff>| #[trigger]
        shows_files(dtos, files) && files_view(files) == if source_named(source)
            == DiffSource::Unstaged {
            marked_files(deltas, incoming)
        } else {
            files_of(deltas)
        }
}

/// The difference of a working tree or an index, from what comparing gave. What is not
/// staged is marked where incoming changes touch it, as far as they are known: that is
/// what can still be changed.
pub fn diff_of(source: &str, deltas: &Vec<RawDelta>, incoming: Option<&IncomingRanges>) -> (r: Vec<
    FileDiffDto,
>)
    requires
        forall|i: int| 0 <= i < deltas@.len() ==> counts_fit(#[trigger] deltas@[i]),
        incoming matches Some(incoming) ==> forall|i: int|
            0 <= i < deltas@.len() ==> sections_fit(#[trigger] files_of(deltas@)[i], incoming@),
    ensures
        shows_difference(r@, source@, deltas@, incoming),
{
    let mut files = patch::build_file_diffs(deltas);
    if diff_source(source) == DiffSource::Unstaged {
        if let Some(incoming) = incoming {
            proof {
                assert(files_view(files@).len() == files@.len());
                assert forall|i: int| 0 <= i < files@.len() implies sections_fit(
                    (#[trigger] files@[i])@,
                    incoming@,
                ) by {
                    assert(files_view(files@)[i] == files@[i]@);
                    assert(sections_fit(files_of(deltas@)[i], incoming@));
                }
            }
            let ghost built = files@;
            patch::mark_incoming_collisions(&mut files, incoming);
            assert(files_view(files@) =~= marked_files(deltas@, Some(incoming))) by {
                assert forall|i: int| 0 <= i < built.len() implies #[trigger] files_of(deltas@)[i]
                    == built[i]@ by {
                    assert(files_view(built)[i] == built[i]@);
                }
            }
        }
    }
    let shown = each(&files, FileDiffDto::from);
    assert(shows_files(shown@, files@));
    shown
}

/// A commit as it was read, for all that is shown of it.
#[derive(Debug)]
pub struct RawDetail {
    pub author: Vec<u8>,
    pub email: Vec<u8>,
    pub summary: Option<Vec<u8>>,
    pub body: Option<Vec<u8>>,
    pub timestamp: i64,
    pub parents: Vec<String>,
    /// What comparing it with its first parent gave.
    pub deltas: Vec<RawDelta>,
}

/// A text that is shown only where it is UTF-8.
pub open spec fn text_if_utf8(bytes: Option<Vec<u8>>) -> Seq<char> {
    match bytes {
        Some(bytes) => if valid_utf8(bytes@) {
            decode_utf8(bytes@)
        } else {
            Seq::empty()
        },
        None => Seq::empty(),
    }
}

fn read_if_utf8(bytes: Option<Vec<u8>>) -> (r: String)
    ensures
        r@ == text_if_utf8(bytes),
{
    match bytes {
        Some(bytes) => match text::decode(bytes) {
            Some(decoded) => decoded,
            None => String::new(),
        },
        None => String::new(),
    }
}

/// Whether this is what is shown of a commit.
pub open spec fn shows_detail(dto: CommitDetailDto, oid: Seq<char>, commit: RawDetail) -> bool {
    &&& dto.oid@ == oid
    &&& dto.short_oid@ == git::short_oid(oid)
    &&& dto.summary@ == text_if_utf8(commit.summary)
    &&& dto.body@ == text_if_utf8(commit.body)
    &&& dto.author@ == lossy_text(commit.author@)
    &&& dto.email@ == lossy_text(commit.email@)
    &&& dto.timestamp == commit.timestamp
    &&& dto.parents == commit.parents
    &&& exists|files: Seq<FileDiff>| #[trigger]
        shows_files(dto.files@, files) && files_view(files) == files_of(commit.deltas@)
}

/// Whether this is what comes of asking for a commit.
pub open spec fn comes_of_asking(
    r: Result<CommitDetailDto, String>,
    oid: Seq<char>,
    commit: Option<RawDetail>,
) -> bool {
    match r {
        Ok(dto) => is_oid(oid) && commit is Some && shows_detail(dto, oid, commit->0),
        Err(error) => if is_oid(oid) {
            commit is None && error@ == "找不到該 commit"@
        } else {
            error@ == "commit 識別碼格式錯誤"@
        },
    }
}

/// A commit and the files it changes. `commit` is `None` where there is no such commit.
pub fn commit_detail_of(oid: &str, commit: Option<RawDetail>) -> (r: Result<
    CommitDetailDto,
    String,
>)
    requires
        commit matches Some(commit) ==> forall|i: int|
            0 <= i < commit.deltas@.len() ==> counts_fit(#[trigger] commit.deltas@[i]),
    ensures
        comes_of_asking(r, oid@, commit),
{
    let deltas = match &commit {
        Some(commit) => Some(&commit.deltas),
        None => None,
    };
    let files = match compare::commit_diff(oid, deltas) {
        Ok(files) => files,
        Err(error) => {
            return Err(error);
        },
    };
    match commit {
        Some(commit) => {
            let shown = each(&files, FileDiffDto::from);
            assert(shows_files(shown@, files@));
            let ghost read = commit;
            let dto = CommitDetailDto {
                short_oid: git::short(oid),
                oid: oid.to_owned(),
                summary: read_if_utf8(commit.summary),
                body: read_if_utf8(commit.body),
                author: text::decode_lossy(commit.author.as_slice()),
                email: text::decode_lossy(commit.email.as_slice()),
                timestamp: commit.timestamp,
                parents: commit.parents,
                files: shown,
            };
            assert(shows_files(dto.files@, files@));
            assert(shows_detail(dto, oid@, read));
            Ok(dto)
        },
        None => Err("找不到該 commit".to_owned()),
    }
}

/// Lines that were picked, from their sections and positions.
pub fn to_line_refs(selection: &Vec<(usize, usize)>) -> (r: Vec<LineRef>)
    ensures
        r@.len() == selection@.len(),
        forall|i: int|
            0 <= i < r@.len() ==> #[trigger] r@[i] == (LineRef {
                hunk: selection@[i].0,
                line: selection@[i].1,
            }),
{
    let mut refs: Vec<LineRef> = Vec::new();
    let mut index: usize = 0;
    while index < selection.len()
        invariant
            index <= selection@.len(),
            refs@.len() == index,
            forall|i: int|
                0 <= i < index ==> #[trigger] refs@[i] == (LineRef {
                    hunk: selection@[i].0,
                    line: selection@[i].1,
                }),
        decreases selection@.len() - index,
    {
        let (hunk, line) = selection[index];
        refs.push(LineRef { hunk, line });
        index += 1;
    }
    refs
}

pub open spec fn search_scope(include_content: bool) -> SearchScope {
    SearchScope { message: true, author: true, path: true, content: include_content }
}

/// A search of a history, to which the commits are to be handed. Content is looked at
/// only where asked for, as it takes long.
pub fn start_search(needle: &str, include_content: bool) -> (r: Search)
    ensures
        r.needle@ == trimmed(needle@),
        r.lowered@ == lower_case(r.needle@),
        r.scope == search_scope(include_content),
        r.limit == SEARCH_LIMIT,
        r.scan_limit == SEARCH_SCAN_LIMIT,
        r.scanned == 0,
        r.hits@.len() == 0,
{
    let scope = SearchScope { content: include_content, ..SearchScope::default() };
    Search::new(needle, scope, SEARCH_LIMIT, SEARCH_SCAN_LIMIT)
}

/// Whether these are what is shown of the given hits.
pub open spec fn shows_hits(dtos: Seq<SearchHitDto>, hits: Seq<SearchHit>) -> bool {
    &&& dtos.len() == hits.len()
    &&& forall|i: int| 0 <= i < dtos.len() ==> shows_hit(#[trigger] dtos[i], hits[i])
}

/// What is shown of the given hits.
pub fn show_hits(hits: &Vec<SearchHit>) -> (r: Vec<SearchHitDto>)
    ensures
        shows_hits(r@, hits@),
{
    each(hits, SearchHitDto::from)
}

/// Whether these are what is shown of the hits of a search.
pub open spec fn shows_search(
    dtos: Seq<SearchHitDto>,
    commits: Seq<Option<RawHistoryCommit>>,
    needle: Seq<char>,
    include_content: bool,
) -> bool {
    exists|hits: Seq<SearchHit>| #[trigger]
        shows_hits(dtos, hits) && are_hits(
            hits,
            commits,
            needle,
            search_scope(include_content),
            SEARCH_LIMIT,
            SEARCH_SCAN_LIMIT,
        )
}

/// Searches a history, the latest commit first.
pub fn search_in(
    commits: Vec<Option<RawHistoryCommit>>,
    needle: &str,
    include_content: bool,
) -> (r: Vec<SearchHitDto>)
    ensures
        shows_search(r@, commits@, needle@, include_content),
{
    let scope = SearchScope { content: include_content, ..SearchScope::default() };
    let hits = search::search(commits, needle, scope, SEARCH_LIMIT, SEARCH_SCAN_LIMIT);
    let shown = show_hits(&hits);
    assert(shows_hits(shown@, hits@));
    shown
}

/// Whether these are what is shown of the given lines.
pub open spec fn shows_blames(dtos: Seq<BlameLineDto>, lines: Seq<BlameLine>) -> bool {
    &&& dtos.len() == lines.len()
    &&& forall|i: int| 0 <= i < dtos.len() ==> shows_blame(#[trigger] dtos[i], lines[i])
}

/// Whether this is what is shown of the lines of a file.
pub open spec fn shows_sources(
    dtos: Seq<BlameLineDto>,
    content: Seq<u8>,
    sources: Seq<Option<RawBlame>>,
) -> bool {
    exists|lines: Seq<BlameLine>| #[trigger]
        shows_blames(dtos, lines) && is_blame(lines, content, sources, BLAME_LIMIT)
}

/// Says of each line of a file which commit last changed it.
pub fn blame_of(content: &Vec<u8>, sources: &Vec<Option<RawBlame>>) -> (r: Vec<BlameLineDto>)
    ensures
        shows_sources(r@, content@, sources@),
{
    let lines = search::blame(content, sources, BLAME_LIMIT);
    let shown = each(&lines, BlameLineDto::from);
    assert(shows_blames(shown@, lines@));
    shown
}

} // verus!
