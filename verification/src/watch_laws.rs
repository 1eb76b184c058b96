//! What holds of everything that is set, watched and told of.
use vstd::prelude::*;

use crate::dto::{FetchStateDto, RepoStatusDto};
use crate::fetch::FetchFailure;
use crate::settings::{default_settings, puts_right, with_repo, Preferences};
use crate::sorting::{sorted, sorting_keeps_items};
use crate::state::{
    changed, comes_of_adding, fetch_state_of, keeps_try, lists_repos, rank_of, shows_repo,
    shows_repos, status_order, FetchTry, ReadStatus, SettingsChange,
};
use crate::text::{decimal_digits, precedes};
use crate::watcher::{behind_before, elapsed_after, is_due, said_of, said_of_all, seen_after, tells};
use crate::workspace_laws::lemma_same_members;

verus! {

/// Settings that were put right look at the remotes once a minute at most, and otherwise as
/// often as was set. They list what was listed, each repository once, by its path, and keep
/// the switches.
pub proof fn settings_are_kept_within_bounds(right: Preferences, settings: Preferences, i: int, j: int)
    requires
        puts_right(right, settings),
    ensures
        right.fetch_interval_secs >= 60,
        settings.fetch_interval_secs >= 60 ==> right.fetch_interval_secs
            == settings.fetch_interval_secs,
        settings.fetch_interval_secs < 60 ==> right.fetch_interval_secs == 60,
        right.notify_incoming == settings.notify_incoming,
        right.background_fetch == settings.background_fetch,
        0 <= i < j < right.repos.len() ==> precedes(right.repos[i], right.repos[j]),
        0 <= i < right.repos.len() ==> settings.repos.contains(right.repos[i]),
        0 <= i < settings.repos.len() ==> right.repos.contains(settings.repos[i]),
{
    if 0 <= i < right.repos.len() {
        assert(right.repos.contains(right.repos[i]));
        assert(settings.repos.to_set().contains(right.repos[i]));
    }
    if 0 <= i < settings.repos.len() {
        assert(settings.repos.contains(settings.repos[i]));
        assert(settings.repos.to_set().contains(settings.repos[i]));
    }
}

/// Until something is set, no repository is watched, and the remotes are to be looked at
/// every quarter of an hour and told of.
pub proof fn settings_start_out_plain()
    ensures
        default_settings().repos.len() == 0,
        default_settings().fetch_interval_secs == 900,
        default_settings().notify_incoming,
        default_settings().background_fetch,
{
}

/// Setting one thing leaves the others as they are.
pub proof fn only_what_is_given_is_set(
    settings: Preferences,
    interval: Option<u64>,
    notify: Option<bool>,
    background: Option<bool>,
)
    ensures
        ({
            let r = changed(
                settings,
                SettingsChange::Update {
                    fetch_interval_secs: interval,
                    notify_incoming: notify,
                    background_fetch: background,
                },
            );
            &&& r.repos == settings.repos
            &&& interval is None ==> r.fetch_interval_secs == settings.fetch_interval_secs
            &&& notify is None ==> r.notify_incoming == settings.notify_incoming
            &&& background is None ==> r.background_fetch == settings.background_fetch
            &&& interval is Some ==> r.fetch_interval_secs == interval->0
            &&& notify is Some ==> r.notify_incoming == notify->0
            &&& background is Some ==> r.background_fetch == background->0
        }),
{
}

/// Adding or removing a repository changes the list of repositories and nothing else.
pub proof fn lists_change_alone(settings: Preferences, path: String, other: Seq<char>)
    ensures
        ({
            let added = changed(settings, SettingsChange::Add(path));
            let removed = changed(settings, SettingsChange::Remove(path));
            &&& added.fetch_interval_secs == settings.fetch_interval_secs
            &&& added.notify_incoming == settings.notify_incoming
            &&& added.background_fetch == settings.background_fetch
            &&& removed.fetch_interval_secs == settings.fetch_interval_secs
            &&& removed.notify_incoming == settings.notify_incoming
            &&& removed.background_fetch == settings.background_fetch
            &&& added.repos.contains(other) <==> settings.repos.contains(other) || other == path@
            &&& removed.repos.contains(other) <==> settings.repos.contains(other) && other != path@
        }),
{
    let added = with_repo(settings, path@).repos;
    crate::settings::removed_repository_is_gone(settings.repos, path@, other);
    if !settings.repos.contains(path@) {
        let pushed = settings.repos.push(path@);
        sorting_keeps_items(pushed, crate::settings::path_order());
        if added.contains(other) {
            lemma_same_members(added, pushed, other);
            let i = choose|i: int| 0 <= i < pushed.len() && pushed[i] == other;
            if i < settings.repos.len() {
                assert(settings.repos[i] == other);
            }
        }
        if settings.repos.contains(other) || other == path@ {
            assert(pushed.contains(other)) by {
                if settings.repos.contains(other) {
                    let i = choose|i: int|
                        0 <= i < settings.repos.len() && settings.repos[i] == other;
                    assert(pushed[i] == other);
                } else {
                    assert(pushed[settings.repos.len() as int] == other);
                }
            }
            lemma_same_members(pushed, added, other);
        }
    }
}

/// The remotes are looked at exactly if that is switched on, there is a repository to look
/// at, and the interval is over. The time then starts anew, as it does while there is nothing
/// to look at, and otherwise runs on.
pub proof fn remotes_are_looked_at_in_time(settings: Preferences, elapsed: int)
    ensures
        is_due(settings, elapsed) <==> settings.background_fetch && settings.repos.len() > 0
            && elapsed >= settings.fetch_interval_secs,
        is_due(settings, elapsed) ==> elapsed_after(settings, elapsed) == 0,
        !settings.background_fetch || settings.repos.len() == 0 ==> elapsed_after(settings, elapsed)
            == 0,
        settings.background_fetch && settings.repos.len() > 0 && elapsed
            < settings.fetch_interval_secs ==> elapsed_after(settings, elapsed) == elapsed,
{
}

/// News are told of where they come upon uncommitted changes, or where the user wants to be
/// told of all. What was seen before, or has gone, is no news.
pub proof fn news_are_told_of(before: usize, now: usize, dirty: usize, notify: bool)
    ensures
        now <= before ==> !tells(before, now, dirty, notify),
        now > before && dirty > 0 ==> tells(before, now, dirty, notify),
        now > before && dirty == 0 ==> tells(before, now, dirty, notify) == notify,
{
}

/// What is said of a repository names it, the number of commits that are new, the branch and
/// the number of uncommitted changes, where there are any.
pub proof fn notices_say_what_came(status: RepoStatusDto, before: usize)
    requires
        before <= status.behind,
    ensures
        ({
            let branch = if status.branch is Some {
                status.branch->0@
            } else {
                "(未知)"@
            };
            &&& said_of(status, before).title == status.name@ + "：有 "@ + decimal_digits(
                (status.behind - before) as nat,
            ) + " 個新 commit"@
            &&& status.working_tree.total == 0 ==> said_of(status, before).body == "分支 "@ + branch
            &&& status.working_tree.total > 0 ==> said_of(status, before).body == "分支 "@ + branch
                + "。本機有 "@ + decimal_digits(status.working_tree.total as nat)
                + " 個未提交的變更，拉取前建議先檢視。"@
        }),
{
}

/// How far behind a repository was when it was last looked at.
pub open spec fn was_behind(seen: Map<Seq<char>, usize>, path: Seq<char>) -> usize {
    if seen.dom().contains(path) {
        seen[path]
    } else {
        0
    }
}

/// Whether a repository is to be told of after a look at all of them: it has more commits to
/// come than when it was last looked at, and there are uncommitted changes or all news are
/// wanted.
pub open spec fn has_news(
    status: RepoStatusDto,
    seen: Map<Seq<char>, usize>,
    notify: bool,
) -> bool {
    &&& status.behind > was_behind(seen, status.path@)
    &&& notify || status.working_tree.total > 0
}

proof fn lemma_not_seen_yet(
    statuses: Seq<RepoStatusDto>,
    seen: Map<Seq<char>, usize>,
    count: nat,
    path: Seq<char>,
)
    requires
        count <= statuses.len(),
        forall|i: int| 0 <= i < count ==> (#[trigger] statuses[i]).path@ != path,
    ensures
        behind_before(seen_after(statuses, seen, count), path) == was_behind(seen, path),
    decreases count,
{
    if count > 0 {
        lemma_not_seen_yet(statuses, seen, (count - 1) as nat, path);
        assert(statuses[count - 1].path@ != path);
    }
}

/// Each repository with news is told of once, in their order, and no other is.
pub proof fn every_repository_with_news_is_told_of(
    statuses: Seq<RepoStatusDto>,
    seen: Map<Seq<char>, usize>,
    notify: bool,
    count: nat,
)
    requires
        count <= statuses.len(),
        forall|a: int, b: int|
            #![trigger statuses[a].path, statuses[b].path]
            0 <= a < b < statuses.len() ==> statuses[a].path@ != statuses[b].path@,
    ensures
        said_of_all(statuses, seen, notify, count) == statuses.take(count as int).filter(
            |status: RepoStatusDto| has_news(status, seen, notify),
        ).map_values(
            |status: RepoStatusDto| said_of(status, was_behind(seen, status.path@)),
        ),
    decreases count,
{
    reveal(Seq::filter);
    let news = |status: RepoStatusDto| has_news(status, seen, notify);
    let said = |status: RepoStatusDto| said_of(status, was_behind(seen, status.path@));
    if count > 0 {
        let last = (count - 1) as nat;
        every_repository_with_news_is_told_of(statuses, seen, notify, last);
        assert forall|i: int| 0 <= i < last implies (#[trigger] statuses[i]).path@
            != statuses[last as int].path@ by {
            assert(statuses[i].path@ != statuses[last as int].path@);
        }
        lemma_not_seen_yet(statuses, seen, last, statuses[last as int].path@);
        assert(statuses.take(count as int).drop_last() =~= statuses.take(last as int));
        assert(statuses.take(count as int).last() == statuses[last as int]);
    }
    assert(said_of_all(statuses, seen, notify, count) =~= statuses.take(count as int).filter(
        news,
    ).map_values(said));
}

/// After a look at all repositories each is remembered as it was found, and what was known of
/// others stays.
pub proof fn what_was_found_is_remembered(
    statuses: Seq<RepoStatusDto>,
    seen: Map<Seq<char>, usize>,
    count: nat,
    path: Seq<char>,
)
    requires
        count <= statuses.len(),
    ensures
        forall|i: int|
            #![trigger statuses[i]]
            0 <= i < count && statuses[i].path@ == path && (forall|j: int|
                i < j < count ==> (#[trigger] statuses[j]).path@ != path) ==> seen_after(
                statuses,
                seen,
                count,
            ).dom().contains(path) && seen_after(statuses, seen, count)[path] == statuses[i].behind,
        (forall|i: int| 0 <= i < count ==> (#[trigger] statuses[i]).path@ != path) ==> (seen_after(
            statuses,
            seen,
            count,
        ).dom().contains(path) <==> seen.dom().contains(path)) && (seen.dom().contains(path)
            ==> seen_after(statuses, seen, count)[path] == seen[path]),
    decreases count,
{
    if count > 0 {
        let last = (count - 1) as nat;
        what_was_found_is_remembered(statuses, seen, last, path);
        if statuses[last as int].path@ != path {
            assert forall|i: int|
                #![trigger statuses[i]]
                0 <= i < count && statuses[i].path@ == path && (forall|j: int|
                    i < j < count ==> (#[trigger] statuses[j]).path@ != path) implies seen_after(
                statuses,
                seen,
                count,
            ).dom().contains(path) && seen_after(statuses, seen, count)[path]
                == statuses[i].behind by {
                assert(i < last);
            }
        }
    }
}

/// Of two states, the one that calls for more comes first: what needs attention, then
/// branches that went apart, then what came in, then what was not pushed, then what was not
/// committed, then all the rest.
pub proof fn states_rank_by_what_they_call_for(other: Seq<char>)
    ensures
        rank_of("attention"@) > rank_of("diverged"@),
        rank_of("diverged"@) > rank_of("incoming"@),
        rank_of("incoming"@) > rank_of("unpushed"@),
        rank_of("unpushed"@) > rank_of("uncommitted"@),
        other != "attention"@ && other != "diverged"@ && other != "incoming"@ && other
            != "unpushed"@ && other != "uncommitted"@ ==> rank_of("uncommitted"@) > rank_of(other)
            && rank_of(other) == rank_of("clean"@),
{
    reveal_strlit("attention");
    reveal_strlit("diverged");
    reveal_strlit("incoming");
    reveal_strlit("unpushed");
    reveal_strlit("uncommitted");
    reveal_strlit("clean");
    assert("attention"@.len() == 9 && "uncommitted"@.len() == 11 && "clean"@.len() == 5);
    assert("diverged"@.len() == 8 && "incoming"@.len() == 8 && "unpushed"@.len() == 8);
    assert("diverged"@[0] == 'd' && "incoming"@[0] == 'i' && "unpushed"@[0] == 'u');
}

/// The list goes by rank, and by name among those of the same rank.
pub proof fn list_goes_by_rank_and_name(a: RepoStatusDto, b: RepoStatusDto)
    ensures
        status_order()(a, b) <==> rank_of(a.attention@) > rank_of(b.attention@) || (rank_of(
            a.attention@,
        ) == rank_of(b.attention@) && precedes(a.name@, b.name@)),
{
}

/// Every repository that is watched is in the list, and nothing else is.
pub proof fn every_watched_repository_is_listed(
    r: Seq<RepoStatusDto>,
    fetched: Map<Seq<char>, FetchStateDto>,
    repos: Seq<Seq<char>>,
    reads: Seq<Result<ReadStatus, String>>,
    i: int,
)
    requires
        lists_repos(r, fetched, repos, reads),
    ensures
        r.len() == repos.len(),
        0 <= i < repos.len() ==> exists|k: int|
            0 <= k < r.len() && shows_repo(#[trigger] r[k], fetched, repos[i], reads[i]),
        0 <= i < r.len() ==> exists|k: int|
            0 <= k < repos.len() && shows_repo(r[i], fetched, #[trigger] repos[k], reads[k]),
{
    let dtos = choose|dtos: Seq<RepoStatusDto>| #[trigger]
        shows_repos(dtos, fetched, repos, reads) && r == sorted(dtos, status_order());
    sorting_keeps_items(dtos, status_order());
    if 0 <= i < repos.len() {
        assert(shows_repo(dtos[i], fetched, repos[i], reads[i]));
        assert(dtos.contains(dtos[i]));
        lemma_same_members(dtos, r, dtos[i]);
        let k = choose|k: int| 0 <= k < r.len() && r[k] == dtos[i];
        assert(shows_repo(r[k], fetched, repos[i], reads[i]));
    }
    if 0 <= i < r.len() {
        assert(r.contains(r[i]));
        lemma_same_members(r, dtos, r[i]);
        let k = choose|k: int| 0 <= k < dtos.len() && dtos[k] == r[i];
        assert(shows_repo(dtos[k], fetched, repos[k], reads[k]));
    }
}

/// What is kept of a fetch is when it was, whether it went well, and of what kind a failure
/// is. One that went well is of no kind.
pub proof fn fetches_are_kept_as_they_went(state: FetchStateDto, tried: FetchTry, now: Option<u64>)
    requires
        keeps_try(state, tried, now),
    ensures
        state.at_millis == now,
        state.ok <==> tried is Done && tried->Done_0 is Ok,
        state.kind is None <==> state.ok,
        tried is NoRemote ==> state.kind->0@ == "no-remote"@,
        tried is Unopened ==> state.kind->0@ == "other"@,
        tried matches FetchTry::Done(Err(FetchFailure::NoRemote(_))) ==> state.kind->0@
            == "no-remote"@,
        tried matches FetchTry::Done(Err(FetchFailure::Authentication(_))) ==> state.kind->0@
            == "auth"@,
        tried matches FetchTry::Done(Err(FetchFailure::Network(_))) ==> state.kind->0@
            == "network"@,
        tried matches FetchTry::Done(Err(FetchFailure::Other(_))) ==> state.kind->0@ == "other"@,
        tried matches FetchTry::Done(Err(FetchFailure::Other(message))) ==> state.message@
            == message@,
        tried matches FetchTry::Done(Ok(report)) ==> (report.received_objects == 0
            ==> state.message@ == "已是最新"@) && (report.received_objects > 0 ==> state.message@
            == "已取得 "@ + decimal_digits(report.received_objects as nat) + " 個新物件"@),
{
}

/// What came of the last fetch of a repository is what was kept for its path.
pub proof fn last_fetch_is_that_of_the_path(
    fetched: Map<Seq<char>, FetchStateDto>,
    path: Seq<char>,
    other: Seq<char>,
    state: FetchStateDto,
)
    ensures
        fetch_state_of(fetched.insert(path, state), path) == Some(state),
        fetch_state_of(fetched.remove(path), path) is None,
        other != path ==> fetch_state_of(fetched.insert(path, state), other) == fetch_state_of(
            fetched,
            other,
        ),
        other != path ==> fetch_state_of(fetched.remove(path), other) == fetch_state_of(
            fetched,
            other,
        ),
{
}

/// A repository that can be opened and was not watched yet is watched from then on, under its
/// path without slashes behind it. One that was is not watched twice, and one that cannot be
/// opened changes nothing.
pub proof fn repositories_are_added_once(
    r: Result<String, String>,
    before: Preferences,
    after: Preferences,
    opened: Result<Vec<u8>, String>,
    other: Seq<char>,
)
    requires
        comes_of_adding(r, before, after, opened),
    ensures
        opened is Err ==> r is Err && after == before && r->Err_0@ == "無法開啟 repository："@
            + opened->Err_0@,
        r is Ok ==> opened is Ok && !before.repos.contains(r->Ok_0@) && after.repos.contains(
            r->Ok_0@,
        ),
        r is Ok ==> (after.repos.contains(other) <==> before.repos.contains(other) || other
            == r->Ok_0@),
        r is Err ==> (after.repos.contains(other) <==> before.repos.contains(other)),
{
    if let Ok(path) = opened {
        let shown = crate::status::shown_path(path@);
        crate::settings::added_repository_is_listed(before, shown, after, other);
        crate::settings::added_repository_is_listed(before, shown, after, shown);
    }
}

} // verus!
