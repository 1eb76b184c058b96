//! The repositories that are watched, and what is known of each.
use vstd::hash_map::StringHashMap;
use vstd::prelude::*;

use crate::dto::{shows_status, shows_unreadable, FetchStateDto, RepoStatusDto};
use crate::fetch::{FetchFailure, FetchReport};
use crate::settings;
use crate::settings::{
    default_settings, puts_right, updated, with_repo, without, Preferences, Settings,
};
use crate::sorting::{in_order, is_order, sorted, sorting_puts_in_order, stable_sort};
use crate::status::{display_path, shown_path, RepoStatus};
use crate::text;
use crate::text::{decimal_digits, precedes, precedes_is_total, precedes_is_transitive};

verus! {

/// A change of the settings.
#[derive(Debug)]
pub enum SettingsChange {
    /// Watch another repository.
    Add(String),
    /// No longer watch a repository.
    Remove(String),
    /// Set what is given and leave the rest.
    Update {
        fetch_interval_secs: Option<u64>,
        notify_incoming: Option<bool>,
        background_fetch: Option<bool>,
    },
}

/// Settings after a change, before they are put right.
pub open spec fn changed(settings: Preferences, change: SettingsChange) -> Preferences {
    match change {
        SettingsChange::Add(path) => with_repo(settings, path@),
        SettingsChange::Remove(path) => Preferences {
            repos: without(settings.repos, path@),
            ..settings
        },
        SettingsChange::Update { fetch_interval_secs, notify_incoming, background_fetch } => updated(
            settings,
            fetch_interval_secs,
            notify_incoming,
            background_fetch,
        ),
    }
}

/// The state of the application.
pub struct AppState {
    settings: Settings,
    /// What came of the last fetch of each repository.
    fetch_states: StringHashMap<FetchStateDto>,
}

impl AppState {
    pub closed spec fn preferences(&self) -> Preferences {
        self.settings@
    }

    /// What came of the last fetch of each repository.
    pub closed spec fn fetched(&self) -> Map<Seq<char>, FetchStateDto> {
        self.fetch_states@
    }

    /// `read` is what the settings file holds, `None` where there is none or it makes no
    /// sense.
    pub fn new(read: Option<Settings>) -> (r: Self)
        ensures
            puts_right(
                r.preferences(),
                match read {
                    Some(settings) => settings@,
                    None => default_settings(),
                },
            ),
            r.fetched() == Map::<Seq<char>, FetchStateDto>::empty(),
    {
        AppState { settings: settings::load(read), fetch_states: StringHashMap::new() }
    }

    pub fn snapshot_settings(&self) -> (r: Settings)
        ensures
            r@ == self.preferences(),
    {
        self.settings.clone()
    }

    /// Changes the settings, puts them right and hands them out to be written down. Tells
    /// whether the change had a repository to add or to remove.
    pub fn mutate_settings(&mut self, change: SettingsChange) -> (r: (Settings, bool))
        ensures
            puts_right(final(self).preferences(), changed(old(self).preferences(), change)),
            final(self).fetched() == old(self).fetched(),
            r.0@ == final(self).preferences(),
            r.1 == match change {
                SettingsChange::Add(path) => !old(self).preferences().repos.contains(path@),
                SettingsChange::Remove(path) => old(self).preferences().repos.contains(path@),
                SettingsChange::Update { .. } => false,
            },
    {
        let mut settings = self.settings.clone();
        let found = match change {
            SettingsChange::Add(path) => settings.add_repo(path),
            SettingsChange::Remove(path) => settings.remove_repo(path.as_str()),
            SettingsChange::Update { fetch_interval_secs, notify_incoming, background_fetch } => {
                settings.update(fetch_interval_secs, notify_incoming, background_fetch);
                false
            },
        };
        settings.normalise();
        let written = settings.clone();
        self.settings = settings;
        (written, found)
    }

    /// What came of the last fetch of a repository, if there was one.
    pub fn fetch_state(&self, path: &str) -> (r: Option<FetchStateDto>)
        ensures
            r == fetch_state_of(self.fetched(), path@),
    {
        match self.fetch_states.get(path) {
            Some(state) => Some(state.clone()),
            None => None,
        }
    }

    /// Keeps what came of fetching a repository.
    pub fn record_fetch_state(&mut self, path: &str, state: FetchStateDto)
        ensures
            final(self).preferences() == old(self).preferences(),
            final(self).fetched() == old(self).fetched().insert(path@, state),
    {
        self.fetch_states.insert(path.to_owned(), state);
    }

    /// Forgets what came of fetching a repository.
    pub fn forget_fetch_state(&mut self, path: &str)
        ensures
            final(self).preferences() == old(self).preferences(),
            final(self).fetched() == old(self).fetched().remove(path@),
    {
        self.fetch_states.remove(path);
    }
}

pub open spec fn fetch_state_of(
    fetched: Map<Seq<char>, FetchStateDto>,
    path: Seq<char>,
) -> Option<FetchStateDto> {
    if fetched.dom().contains(path) {
        Some(fetched[path])
    } else {
        None
    }
}

/// The state of a repository as it was read.
#[derive(Debug)]
pub struct ReadStatus {
    pub status: RepoStatus,
    /// The time of the last fetch in Unix milliseconds, if it has one.
    pub last_fetch_millis: Option<u64>,
}

/// The numbers of files add up.
pub open spec fn adds_up(read: Result<ReadStatus, String>) -> bool {
    read matches Ok(read) ==> read.status.working_tree.sum() <= usize::MAX
}

/// Whether this is what is shown of the repository at a path.
pub open spec fn shows_repo(
    dto: RepoStatusDto,
    fetched: Map<Seq<char>, FetchStateDto>,
    path: Seq<char>,
    read: Result<ReadStatus, String>,
) -> bool {
    match read {
        Ok(read) => shows_status(
            dto,
            read.status,
            read.last_fetch_millis,
            fetch_state_of(fetched, path),
        ),
        Err(error) => shows_unreadable(dto, path, error),
    }
}

/// What is shown of the repository at a path. One that could not be read is still shown,
/// with the reason.
pub fn status_of(state: &AppState, path: &str, read: Result<ReadStatus, String>) -> (r:
    RepoStatusDto)
    requires
        adds_up(read),
    ensures
        shows_repo(r, state.fetched(), path@, read),
{
    match read {
        Ok(read) => RepoStatusDto::from_status(
            &read.status,
            read.last_fetch_millis,
            state.fetch_state(path),
        ),
        Err(error) => RepoStatusDto::unreadable(path, error),
    }
}

/// How much attention a state needs: more for a larger number.
pub open spec fn rank_of(attention: Seq<char>) -> u8 {
    if attention == "attention"@ {
        5
    } else if attention == "diverged"@ {
        4
    } else if attention == "incoming"@ {
        3
    } else if attention == "unpushed"@ {
        2
    } else if attention == "uncommitted"@ {
        1
    } else {
        0
    }
}

/// How much attention a state needs.
pub fn attention_rank(attention: &str) -> (r: u8)
    ensures
        r == rank_of(attention@),
{
    if text::same(attention, "attention") {
        5
    } else if text::same(attention, "diverged") {
        4
    } else if text::same(attention, "incoming") {
        3
    } else if text::same(attention, "unpushed") {
        2
    } else if text::same(attention, "uncommitted") {
        1
    } else {
        0
    }
}

/// The order of the list: what needs most attention first, and by name among equals.
pub open spec fn needs_first(a: RepoStatusDto, b: RepoStatusDto) -> bool {
    ||| rank_of(a.attention@) > rank_of(b.attention@)
    ||| rank_of(a.attention@) == rank_of(b.attention@) && precedes(a.name@, b.name@)
}

pub open spec fn status_order() -> spec_fn(RepoStatusDto, RepoStatusDto) -> bool {
    |a: RepoStatusDto, b: RepoStatusDto| needs_first(a, b)
}

fn goes_above(a: &RepoStatusDto, b: &RepoStatusDto) -> (r: bool)
    ensures
        r == needs_first(*a, *b),
{
    let left = attention_rank(a.attention.as_str());
    let right = attention_rank(b.attention.as_str());
    left > right || left == right && text::less(a.name.as_str(), b.name.as_str())
}

/// Whether these are what is shown of the repositories that are watched, in their order.
pub open spec fn shows_repos(
    dtos: Seq<RepoStatusDto>,
    fetched: Map<Seq<char>, FetchStateDto>,
    repos: Seq<Seq<char>>,
    reads: Seq<Result<ReadStatus, String>>,
) -> bool {
    &&& dtos.len() == repos.len()
    &&& forall|i: int|
        0 <= i < dtos.len() ==> shows_repo(#[trigger] dtos[i], fetched, repos[i], reads[i])
}

/// Whether these are what is shown of all repositories that are watched, in the order in
/// which they are listed.
pub open spec fn lists_repos(
    r: Seq<RepoStatusDto>,
    fetched: Map<Seq<char>, FetchStateDto>,
    repos: Seq<Seq<char>>,
    reads: Seq<Result<ReadStatus, String>>,
) -> bool {
    exists|dtos: Seq<RepoStatusDto>| #[trigger]
        shows_repos(dtos, fetched, repos, reads) && r == sorted(dtos, status_order())
}

/// What is shown of all repositories that are watched, the ones that need attention
/// first. `reads` holds what was read of each.
pub fn all_statuses(state: &AppState, reads: Vec<Result<ReadStatus, String>>) -> (r: Vec<
    RepoStatusDto,
>)
    requires
        reads@.len() == state.preferences().repos.len(),
        forall|i: int| 0 <= i < reads@.len() ==> adds_up(#[trigger] reads@[i]),
    ensures
        lists_repos(r@, state.fetched(), state.preferences().repos, reads@),
{
    let mut statuses: Vec<RepoStatusDto> = Vec::new();
    for read in rest: reads
        invariant
            rest.seq() == reads@,
            reads@.len() == state.preferences().repos.len(),
            forall|i: int| 0 <= i < reads@.len() ==> adds_up(#[trigger] reads@[i]),
            statuses@.len() == rest.index(),
            forall|i: int|
                0 <= i < statuses@.len() ==> shows_repo(
                    #[trigger] statuses@[i],
                    state.fetched(),
                    state.preferences().repos[i],
                    reads@[i],
                ),
    {
        assert(adds_up(reads@[rest.index() as int]));
        let index = statuses.len();
        assert(text::views_of(state.settings.repos@).len() == state.settings.repos@.len());
        statuses.push(status_of(state, state.settings.repos[index].as_str(), read));
    }
    assert(shows_repos(statuses@, state.fetched(), state.preferences().repos, reads@));
    stable_sort(statuses, goes_above, Ghost(status_order()))
}

proof fn lemma_status_order()
    ensures
        is_order(status_order()),
{
    let before = status_order();
    assert forall|a: RepoStatusDto, b: RepoStatusDto| #[trigger] before(a, b) implies !before(
        b,
        a,
    ) by {
        precedes_is_total(a.name@, b.name@);
    }
    assert forall|a: RepoStatusDto, b: RepoStatusDto, c: RepoStatusDto|
        #![trigger before(a, b), before(c, b)]
        before(a, b) && !before(c, b) implies before(a, c) by {
        precedes_is_total(a.name@, b.name@);
        precedes_is_total(c.name@, b.name@);
        if precedes(a.name@, b.name@) && precedes(b.name@, c.name@) {
            precedes_is_transitive(a.name@, b.name@, c.name@);
        }
    }
}

/// In the list nothing stands below what needs less attention, and repositories that need
/// as much stand by their names.
pub proof fn problems_come_first(dtos: Seq<RepoStatusDto>, i: int, j: int)
    requires
        0 <= i < j < sorted(dtos, status_order()).len(),
    ensures
        ({
            let above = sorted(dtos, status_order())[i];
            let below = sorted(dtos, status_order())[j];
            &&& rank_of(above.attention@) >= rank_of(below.attention@)
            &&& rank_of(above.attention@) == rank_of(below.attention@) ==> !precedes(
                below.name@,
                above.name@,
            )
        }),
{
    lemma_status_order();
    sorting_puts_in_order(dtos, status_order());
    let list = sorted(dtos, status_order());
    assert(in_order(list, status_order()));
    assert(!status_order()(list[j], list[i]));
}

/// Whether this is what comes of watching another repository.
pub open spec fn comes_of_adding(
    r: Result<String, String>,
    before: Preferences,
    after: Preferences,
    opened: Result<Vec<u8>, String>,
) -> bool {
    match opened {
        Err(error) => {
            &&& r matches Err(message) && message@ == "無法開啟 repository："@ + error@
            &&& after == before
        },
        Ok(path) => {
            let shown = shown_path(path@);
            &&& puts_right(after, with_repo(before, shown))
            &&& if before.repos.contains(shown) {
                r matches Err(message) && message@ == "這個 repository 已經在清單中"@
            } else {
                r matches Ok(added) && added@ == shown
            }
        },
    }
}

/// Watches another repository. `opened` is where it lies, or why it could not be opened.
/// It is kept by the path of its working tree, so that it is not added twice under
/// different paths.
pub fn add_repo(state: &mut AppState, opened: Result<Vec<u8>, String>) -> (r: Result<
    String,
    String,
>)
    ensures
        final(state).fetched() == old(state).fetched(),
        comes_of_adding(r, old(state).preferences(), final(state).preferences(), opened),
{
    match opened {
        Err(error) => Err(text::plus("無法開啟 repository：".to_owned(), error.as_str())),
        Ok(path) => {
            let shown = display_path(&path);
            let (_, added) = state.mutate_settings(SettingsChange::Add(shown.clone()));
            if added {
                Ok(shown)
            } else {
                Err("這個 repository 已經在清單中".to_owned())
            }
        },
    }
}

/// No longer watches a repository. The repository itself is left alone.
pub fn remove_repo(state: &mut AppState, path: &str)
    ensures
        puts_right(
            final(state).preferences(),
            (Preferences {
                repos: without(old(state).preferences().repos, path@),
                ..old(state).preferences()
            }),
        ),
        final(state).fetched() == old(state).fetched().remove(path@),
{
    let _ = state.mutate_settings(SettingsChange::Remove(path.to_owned()));
    state.forget_fetch_state(path);
}

/// How a fetch of a repository went.
#[derive(Debug)]
pub enum FetchTry {
    /// The repository could not be opened, with the reason.
    Unopened(String),
    /// The repository has no remote.
    NoRemote,
    Done(Result<FetchReport, FetchFailure>),
}

/// Whether this is what is kept of a fetch: how it went in one sentence and, where it
/// failed, the stable name of the kind of failure.
pub open spec fn keeps_try(state: FetchStateDto, tried: FetchTry, now: Option<u64>) -> bool {
    &&& state.at_millis == now
    &&& match tried {
        FetchTry::Unopened(reason) => {
            &&& !state.ok
            &&& state.kind matches Some(kind) && kind@ == "other"@
            &&& state.message@ == "無法開啟 repository："@ + reason@
        },
        FetchTry::NoRemote => {
            &&& !state.ok
            &&& state.kind matches Some(kind) && kind@ == "no-remote"@
            &&& state.message@ == "這個 repository 沒有設定遠端"@
        },
        FetchTry::Done(Err(failure)) => {
            &&& !state.ok
            &&& state.kind matches Some(kind) && kind@ == failure.kind_name()
            &&& state.message@ == failure.headline_text()
        },
        FetchTry::Done(Ok(report)) => {
            &&& state.ok
            &&& state.kind is None
            &&& state.message@ == if report.received_objects > 0 {
                "已取得 "@ + decimal_digits(report.received_objects as nat) + " 個新物件"@
            } else {
                "已是最新"@
            }
        },
    }
}

/// What is kept of a fetch.
pub fn fetch_result(tried: FetchTry, now: Option<u64>) -> (r: FetchStateDto)
    ensures
        keeps_try(r, tried, now),
{
    let (kind, message) = match tried {
        FetchTry::Done(Ok(report)) => {
            let message = if report.received_objects > 0 {
                let count = text::decimal(report.received_objects as u64);
                let start = text::plus("已取得 ".to_owned(), count.as_str());
                text::plus(start, " 個新物件")
            } else {
                "已是最新".to_owned()
            };
            return FetchStateDto { ok: true, message, kind: None, at_millis: now };
        },
        FetchTry::Unopened(reason) => (
            "other",
            text::plus("無法開啟 repository：".to_owned(), reason.as_str()),
        ),
        FetchTry::NoRemote => ("no-remote", "這個 repository 沒有設定遠端".to_owned()),
        FetchTry::Done(Err(failure)) => (failure.as_str(), failure.headline()),
    };
    FetchStateDto { ok: false, message, kind: Some(kind.to_owned()), at_millis: now }
}

/// Keeps how a fetch went and shows the repository as it is after it.
pub fn fetch_repo(
    state: &mut AppState,
    path: &str,
    tried: FetchTry,
    now: Option<u64>,
    read: Result<ReadStatus, String>,
) -> (r: RepoStatusDto)
    requires
        adds_up(read),
    ensures
        final(state).preferences() == old(state).preferences(),
        final(state).fetched().dom() == old(state).fetched().dom().insert(path@),
        keeps_try(final(state).fetched()[path@], tried, now),
        final(state).fetched() == old(state).fetched().insert(
            path@,
            final(state).fetched()[path@],
        ),
        shows_repo(r, final(state).fetched(), path@, read),
{
    let kept = fetch_result(tried, now);
    state.record_fetch_state(path, kept);
    assert(state.fetched().dom() =~= old(state).fetched().dom().insert(path@));
    status_of(state, path, read)
}

} // verus!
