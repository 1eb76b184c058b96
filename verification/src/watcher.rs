//! When to look at the remotes in the background, and when to say so.
//!
//! Notifying of everything soon becomes noise. New commits on a remote are shown, and are
//! notified of only where the user wants it; new commits while there are uncommitted
//! changes are always notified of, as that is where things go wrong.
use vstd::hash_map::StringHashMap;
use vstd::prelude::*;

use crate::dto::RepoStatusDto;
use crate::settings::{Preferences, Settings};
use crate::text;
use crate::text::decimal_digits;

verus! {

/// The event by which the interface learns of new states.
pub const REPOS_UPDATED_EVENT: &'static str = "repos-updated";

/// The seconds between two ticks. Changed settings take effect with the next one.
pub const TICK_SECS: u64 = 15;

/// The time since the remotes were last looked at.
#[derive(Debug, Clone, Copy, PartialEq, Eq, Structural)]
pub struct Schedule {
    /// In seconds.
    pub elapsed: u128,
}

/// Whether there is nothing to look at in the background.
pub open spec fn idle(settings: Preferences) -> bool {
    !settings.background_fetch || settings.repos.len() == 0
}

/// Whether the remotes are to be looked at with the tick that comes `elapsed` seconds
/// after they last were.
pub open spec fn is_due(settings: Preferences, elapsed: int) -> bool {
    !idle(settings) && elapsed >= settings.fetch_interval_secs
}

/// The time that counts after that tick.
pub open spec fn elapsed_after(settings: Preferences, elapsed: int) -> int {
    if idle(settings) || is_due(settings, elapsed) {
        0
    } else {
        elapsed
    }
}

impl Schedule {
    /// The time stays in bounds.
    pub open spec fn wf(&self) -> bool {
        self.elapsed <= u64::MAX
    }

    pub fn new() -> (r: Self)
        ensures
            r.wf(),
            r.elapsed == 0,
    {
        Schedule { elapsed: 0 }
    }

    /// Lets one tick pass and tells whether the remotes are to be looked at now.
    pub fn tick(&mut self, settings: &Settings) -> (r: bool)
        requires
            old(self).wf(),
        ensures
            final(self).wf(),
            r == is_due(settings@, old(self).elapsed + TICK_SECS),
            final(self).elapsed == elapsed_after(settings@, old(self).elapsed + TICK_SECS),
    {
        let elapsed = self.elapsed + TICK_SECS as u128;
        assert(text::views_of(settings.repos@).len() == settings.repos@.len());
        if !settings.background_fetch || settings.repos.len() == 0 {
            self.elapsed = 0;
            return false;
        }
        if elapsed < settings.fetch_interval_secs as u128 {
            self.elapsed = elapsed;
            return false;
        }
        self.elapsed = 0;
        true
    }
}

/// The time that counts after a number of ticks, from a look at the remotes on.
pub open spec fn elapsed_after_ticks(settings: Preferences, ticks: nat) -> int
    decreases ticks,
{
    if ticks == 0 {
        0
    } else {
        elapsed_after(settings, elapsed_after_ticks(settings, (ticks - 1) as nat) + TICK_SECS)
    }
}

/// While the settings stay as they are, the remotes are looked at with the first tick at
/// which the interval is over, and with none before it.
pub proof fn fetches_once_the_interval_is_over(settings: Preferences, ticks: nat)
    requires
        !idle(settings),
        ticks * TICK_SECS < settings.fetch_interval_secs,
    ensures
        elapsed_after_ticks(settings, ticks) == ticks * TICK_SECS,
        is_due(settings, elapsed_after_ticks(settings, ticks) + TICK_SECS) <==> (ticks + 1)
            * TICK_SECS >= settings.fetch_interval_secs,
    decreases ticks,
{
    assert((ticks + 1) * TICK_SECS == ticks * TICK_SECS + TICK_SECS) by (nonlinear_arith);
    if ticks > 0 {
        let before = (ticks - 1) as nat;
        assert(ticks * TICK_SECS == before * TICK_SECS + TICK_SECS) by (nonlinear_arith)
            requires
                ticks == before + 1,
        ;
        fetches_once_the_interval_is_over(settings, before);
    }
}

/// Whether to notify of a repository that was `before` commits behind its remote and is
/// `now` commits behind it, with `dirty` uncommitted changes: only where new commits have
/// come, as the same ones are not told of twice, and only where the user wants it or
/// there are uncommitted changes.
pub open spec fn tells(before: usize, now: usize, dirty: usize, notify_incoming: bool) -> bool {
    now > before && (notify_incoming || dirty > 0)
}

/// Whether to notify of a repository.
pub fn should_notify(before: usize, now: usize, dirty: usize, notify_incoming: bool) -> (r: bool)
    ensures
        r == tells(before, now, dirty, notify_incoming),
{
    if now == 0 || now <= before {
        return false;
    }
    notify_incoming || dirty > 0
}

/// A notification.
#[derive(Debug)]
pub struct Notice {
    pub title: String,
    pub body: String,
}

/// What a [`Notice`] says.
#[verifier::ext_equal]
pub struct Said {
    pub title: Seq<char>,
    pub body: Seq<char>,
}

impl View for Notice {
    type V = Said;

    open spec fn view(&self) -> Said {
        Said { title: self.title@, body: self.body@ }
    }
}

pub open spec fn notices_view(notices: Seq<Notice>) -> Seq<Said> {
    notices.map_values(|notice: Notice| notice@)
}

pub open spec fn branch_text(branch: Option<String>) -> Seq<char> {
    match branch {
        Some(name) => name@,
        None => "(未知)"@,
    }
}

/// What is said of a repository that was `before` commits behind its remote.
pub open spec fn said_of(status: RepoStatusDto, before: usize) -> Said {
    let branch = "分支 "@ + branch_text(status.branch);
    Said {
        title: status.name@ + "：有 "@ + decimal_digits((status.behind - before) as nat)
            + " 個新 commit"@,
        body: if status.working_tree.total > 0 {
            branch + "。本機有 "@ + decimal_digits(status.working_tree.total as nat)
                + " 個未提交的變更，拉取前建議先檢視。"@
        } else {
            branch
        },
    }
}

/// Whether a repository that was `before` commits behind its remote is told of.
pub open spec fn is_told_of(status: RepoStatusDto, before: usize, notify_incoming: bool) -> bool {
    tells(before, status.behind, status.working_tree.total, notify_incoming)
}

/// The notification of a repository, if there is one.
pub fn notice_of(status: &RepoStatusDto, before: usize, notify_incoming: bool) -> (r: Option<
    Notice,
>)
    ensures
        match r {
            Some(notice) => is_told_of(*status, before, notify_incoming) && notice@ == said_of(
                *status,
                before,
            ),
            None => !is_told_of(*status, before, notify_incoming),
        },
{
    if !should_notify(before, status.behind, status.working_tree.total, notify_incoming) {
        return None;
    }
    let arrived = status.behind - before;
    let title = text::plus(status.name.clone(), "：有 ");
    let title = text::plus(title, text::decimal(arrived as u64).as_str());
    let title = text::plus(title, " 個新 commit");
    let branch = match &status.branch {
        Some(name) => text::plus("分支 ".to_owned(), name.as_str()),
        None => text::plus("分支 ".to_owned(), "(未知)"),
    };
    let body = if status.working_tree.total > 0 {
        let start = text::plus(branch, "。本機有 ");
        let count = text::decimal(status.working_tree.total as u64);
        text::plus(text::plus(start, count.as_str()), " 個未提交的變更，拉取前建議先檢視。")
    } else {
        branch
    };
    Some(Notice { title, body })
}

/// How many commits each repository was behind its remote when it was last looked at.
pub struct LastSeen {
    behind: StringHashMap<usize>,
}

impl View for LastSeen {
    type V = Map<Seq<char>, usize>;

    closed spec fn view(&self) -> Map<Seq<char>, usize> {
        self.behind@
    }
}

/// How many commits a repository was behind; none where it was not looked at yet.
pub open spec fn behind_before(seen: Map<Seq<char>, usize>, path: Seq<char>) -> usize {
    if seen.dom().contains(path) {
        seen[path]
    } else {
        0
    }
}

impl LastSeen {
    pub fn new() -> (r: Self)
        ensures
            r@ == Map::<Seq<char>, usize>::empty(),
    {
        LastSeen { behind: StringHashMap::new() }
    }

    pub fn get(&self, path: &str) -> (r: Option<usize>)
        ensures
            match r {
                Some(behind) => self@.dom().contains(path@) && behind == self@[path@],
                None => !self@.dom().contains(path@),
            },
    {
        match self.behind.get(path) {
            Some(behind) => Some(*behind),
            None => None,
        }
    }

    /// Keeps how many commits a repository is behind and tells how many it was before.
    pub fn insert(&mut self, path: &str, behind: usize) -> (r: usize)
        ensures
            r == behind_before(old(self)@, path@),
            final(self)@ == old(self)@.insert(path@, behind),
    {
        let before = match self.behind.get(path) {
            Some(before) => *before,
            None => 0,
        };
        self.behind.insert(path.to_owned(), behind);
        before
    }
}

/// What is known of the repositories after the first `count` of them were looked at.
pub open spec fn seen_after(
    statuses: Seq<RepoStatusDto>,
    seen: Map<Seq<char>, usize>,
    count: nat,
) -> Map<Seq<char>, usize>
    decreases count,
{
    if count == 0 {
        seen
    } else {
        let status = statuses[count - 1];
        seen_after(statuses, seen, (count - 1) as nat).insert(status.path@, status.behind)
    }
}

/// What is said of the first `count` repositories.
pub open spec fn said_of_all(
    statuses: Seq<RepoStatusDto>,
    seen: Map<Seq<char>, usize>,
    notify_incoming: bool,
    count: nat,
) -> Seq<Said>
    decreases count,
{
    if count == 0 {
        Seq::empty()
    } else {
        let last = (count - 1) as nat;
        let said = said_of_all(statuses, seen, notify_incoming, last);
        let before = behind_before(seen_after(statuses, seen, last), statuses[last as int].path@);
        if is_told_of(statuses[last as int], before, notify_incoming) {
            said.push(said_of(statuses[last as int], before))
        } else {
            said
        }
    }
}

/// The notifications of all repositories, after a look at their remotes.
pub fn notify_if_needed(
    statuses: &Vec<RepoStatusDto>,
    seen: &mut LastSeen,
    notify_incoming: bool,
) -> (r: Vec<Notice>)
    ensures
        notices_view(r@) == said_of_all(statuses@, old(seen)@, notify_incoming, statuses@.len()),
        final(seen)@ == seen_after(statuses@, old(seen)@, statuses@.len()),
{
    let mut notices: Vec<Notice> = Vec::new();
    let mut index: usize = 0;
    assert(notices_view(notices@) =~= Seq::empty());
    while index < statuses.len()
        invariant
            index <= statuses@.len(),
            notices_view(notices@) == said_of_all(
                statuses@,
                old(seen)@,
                notify_incoming,
                index as nat,
            ),
            seen@ == seen_after(statuses@, old(seen)@, index as nat),
        decreases statuses@.len() - index,
    {
        let status = &statuses[index];
        let ghost held = notices@;
        let before = seen.insert(status.path.as_str(), status.behind);
        if let Some(notice) = notice_of(status, before, notify_incoming) {
            notices.push(notice);
            assert(notices_view(notices@) =~= notices_view(held).push(notice@));
        }
        index += 1;
    }
    notices
}

proof fn lemma_seen(
    statuses: Seq<RepoStatusDto>,
    seen: Map<Seq<char>, usize>,
    count: nat,
    i: int,
)
    requires
        0 <= i < count <= statuses.len(),
        forall|a: int, b: int|
            #![trigger statuses[a].path, statuses[b].path]
            0 <= a < b < statuses.len() ==> statuses[a].path@ != statuses[b].path@,
    ensures
        behind_before(seen_after(statuses, seen, count), statuses[i].path@) == statuses[i].behind,
    decreases count,
{
    if i < count - 1 {
        lemma_seen(statuses, seen, (count - 1) as nat, i);
        assert(statuses[i].path@ != statuses[count - 1].path@);
    }
}

proof fn lemma_silent(
    statuses: Seq<RepoStatusDto>,
    seen: Map<Seq<char>, usize>,
    notify_incoming: bool,
    count: nat,
)
    requires
        count <= statuses.len(),
        forall|i: int|
            0 <= i < statuses.len() ==> behind_before(seen, (#[trigger] statuses[i]).path@)
                == statuses[i].behind,
    ensures
        said_of_all(statuses, seen, notify_incoming, count) == Seq::<Said>::empty(),
        forall|i: int|
            0 <= i < statuses.len() ==> behind_before(
                seen_after(statuses, seen, count),
                (#[trigger] statuses[i]).path@,
            ) == statuses[i].behind,
    decreases count,
{
    if count > 0 {
        let last = (count - 1) as nat;
        lemma_silent(statuses, seen, notify_incoming, last);
        let before = seen_after(statuses, seen, last);
        let status = statuses[last as int];
        assert(behind_before(before, status.path@) == status.behind);
        assert forall|i: int| 0 <= i < statuses.len() implies behind_before(
            seen_after(statuses, seen, count),
            (#[trigger] statuses[i]).path@,
        ) == statuses[i].behind by {
            assert(behind_before(before, statuses[i].path@) == statuses[i].behind);
        }
    }
}

/// A second look that finds the repositories as they were says nothing again.
pub proof fn same_news_are_not_told_twice(
    statuses: Seq<RepoStatusDto>,
    seen: Map<Seq<char>, usize>,
    notify_incoming: bool,
)
    requires
        forall|a: int, b: int|
            #![trigger statuses[a].path, statuses[b].path]
            0 <= a < b < statuses.len() ==> statuses[a].path@ != statuses[b].path@,
    ensures
        said_of_all(
            statuses,
            seen_after(statuses, seen, statuses.len()),
            notify_incoming,
            statuses.len(),
        ) == Seq::<Said>::empty(),
{
    let after = seen_after(statuses, seen, statuses.len());
    assert forall|i: int| 0 <= i < statuses.len() implies behind_before(
        after,
        (#[trigger] statuses[i]).path@,
    ) == statuses[i].behind by {
        lemma_seen(statuses, seen, statuses.len(), i);
    }
    lemma_silent(statuses, after, notify_incoming, statuses.len());
}

} // verus!
