//! What the user has set.
//!
//! Settings stay on this machine and hold no credentials: those are left to the ssh agent
//! and to git's credential helpers.
use vstd::prelude::*;

use crate::pathset::{list_is_determined, lists, PathSet};
use crate::sorting::{sorted, sorting_keeps_items, sorting_of_views, stable_sort};
use crate::text;
use crate::text::precedes;

verus! {

/// How often the remotes are looked at, unless set otherwise.
pub const DEFAULT_FETCH_INTERVAL_SECS: u64 = 900;

/// The shortest interval that can be set, so as not to burden the remotes.
pub const MIN_FETCH_INTERVAL_SECS: u64 = 60;

/// The name of the file that the settings are kept in.
pub const SETTINGS_FILE: &'static str = "settings.json";

#[derive(Debug)]
pub struct Settings {
    /// The paths of the repositories that are watched.
    pub repos: Vec<String>,
    /// The seconds between two looks at the remotes.
    pub fetch_interval_secs: u64,
    /// Whether to notify when something new has come in.
    pub notify_incoming: bool,
    /// Whether to look at the remotes in the background.
    pub background_fetch: bool,
}

/// What [`Settings`] hold.
#[verifier::ext_equal]
pub struct Preferences {
    pub repos: Seq<Seq<char>>,
    pub fetch_interval_secs: u64,
    pub notify_incoming: bool,
    pub background_fetch: bool,
}

impl View for Settings {
    type V = Preferences;

    open spec fn view(&self) -> Preferences {
        Preferences {
            repos: text::views_of(self.repos@),
            fetch_interval_secs: self.fetch_interval_secs,
            notify_incoming: self.notify_incoming,
            background_fetch: self.background_fetch,
        }
    }
}

pub open spec fn default_settings() -> Preferences {
    Preferences {
        repos: Seq::empty(),
        fetch_interval_secs: DEFAULT_FETCH_INTERVAL_SECS,
        notify_incoming: true,
        background_fetch: true,
    }
}

impl Default for Settings {
    fn default() -> (r: Self)
        ensures
            r@ == default_settings(),
    {
        let r = Settings {
            repos: Vec::new(),
            fetch_interval_secs: DEFAULT_FETCH_INTERVAL_SECS,
            notify_incoming: true,
            background_fetch: true,
        };
        assert(r@ =~= default_settings());
        r
    }
}

impl Clone for Settings {
    fn clone(&self) -> (r: Self)
        ensures
            r@ == self@,
    {
        Settings {
            repos: text::copies(&self.repos),
            fetch_interval_secs: self.fetch_interval_secs,
            notify_incoming: self.notify_incoming,
            background_fetch: self.background_fetch,
        }
    }
}

/// Whether these are settings put right: the interval is not too short, and each
/// repository is listed once, in order.
pub open spec fn puts_right(right: Preferences, settings: Preferences) -> bool {
    &&& lists(right.repos, settings.repos.to_set())
    &&& right.fetch_interval_secs == if settings.fetch_interval_secs < MIN_FETCH_INTERVAL_SECS {
        MIN_FETCH_INTERVAL_SECS
    } else {
        settings.fetch_interval_secs
    }
    &&& right.notify_incoming == settings.notify_incoming
    &&& right.background_fetch == settings.background_fetch
}

/// The order of the repositories.
pub open spec fn path_order() -> spec_fn(Seq<char>, Seq<char>) -> bool {
    |a: Seq<char>, b: Seq<char>| precedes(a, b)
}

fn comes_first(a: &String, b: &String) -> (r: bool)
    ensures
        r == precedes(a@, b@),
{
    text::less(a.as_str(), b.as_str())
}

pub open spec fn other_than(path: Seq<char>) -> spec_fn(Seq<char>) -> bool {
    |repo: Seq<char>| repo != path
}

/// A list without the given path.
pub open spec fn without(repos: Seq<Seq<char>>, path: Seq<char>) -> Seq<Seq<char>> {
    repos.filter(other_than(path))
}

impl Settings {
    /// Puts right what is out of bounds.
    pub fn normalise(&mut self)
        ensures
            puts_right(final(self)@, old(self)@),
    {
        if self.fetch_interval_secs < MIN_FETCH_INTERVAL_SECS {
            self.fetch_interval_secs = MIN_FETCH_INTERVAL_SECS;
        }
        let ghost all = self@.repos;
        let mut set = PathSet::new();
        let mut index: usize = 0;
        assert(all.take(0).to_set() =~= Set::empty());
        while index < self.repos.len()
            invariant
                index <= self.repos@.len(),
                all == text::views_of(self.repos@),
                set.wf(),
                set@ == all.take(index as int).to_set(),
            decreases self.repos@.len() - index,
        {
            proof {
                let seen = all.take(index + 1);
                let path = all[index as int];
                assert(seen =~= all.take(index as int).push(path));
                assert forall|other: Seq<char>| seen.to_set().contains(other) <==> all.take(
                    index as int,
                ).to_set().insert(path).contains(other) by {
                    let before = all.take(index as int);
                    if before.contains(other) {
                        let i = choose|i: int| 0 <= i < before.len() && before[i] == other;
                        assert(seen[i] == other);
                    }
                    assert(seen[index as int] == path);
                }
                assert(seen.to_set() =~= all.take(index as int).to_set().insert(path));
            }
            set.insert(self.repos[index].clone());
            index += 1;
        }
        assert(all.take(index as int) =~= all);
        self.repos = set.into_vec();
    }

    /// Adds a repository and tells whether it was new.
    pub fn add_repo(&mut self, path: String) -> (r: bool)
        ensures
            r == !old(self)@.repos.contains(path@),
            final(self)@ == with_repo(old(self)@, path@),
    {
        let ghost all = self@.repos;
        let mut index: usize = 0;
        while index < self.repos.len()
            invariant
                index <= self.repos@.len(),
                *self == *old(self),
                all == text::views_of(self.repos@),
                forall|i: int| 0 <= i < index ==> #[trigger] all[i] != path@,
            decreases self.repos@.len() - index,
        {
            if text::same(self.repos[index].as_str(), path.as_str()) {
                assert(all[index as int] == path@);
                return false;
            }
            index += 1;
        }
        let ghost added = path@;
        let mut repos = text::copies(&self.repos);
        repos.push(path);
        let ghost before = |a: String, b: String| precedes(a@, b@);
        let ghost view = |repo: String| repo@;
        proof {
            assert(repos@.map_values(view) =~= all.push(added));
            sorting_of_views(repos@, before, view, path_order());
        }
        self.repos = stable_sort(repos, comes_first, Ghost(before));
        assert(text::views_of(self.repos@) =~= self.repos@.map_values(view));
        true
    }

    /// Removes a repository and tells whether it was there.
    pub fn remove_repo(&mut self, path: &str) -> (r: bool)
        ensures
            r == old(self)@.repos.contains(path@),
            final(self)@ == (Preferences {
                repos: without(old(self)@.repos, path@),
                ..old(self)@
            }),
    {
        let ghost all = self@.repos;
        let ghost other = other_than(path@);
        let mut kept: Vec<String> = Vec::new();
        let mut removed = false;
        let mut index: usize = 0;
        proof {
            reveal(Seq::filter);
            assert(text::views_of(kept@) =~= all.take(0).filter(other));
        }
        while index < self.repos.len()
            invariant
                index <= self.repos@.len(),
                all == text::views_of(self.repos@),
                other == other_than(path@),
                removed == all.take(index as int).contains(path@),
                text::views_of(kept@) == all.take(index as int).filter(other),
            decreases self.repos@.len() - index,
        {
            let ghost held = text::views_of(kept@);
            let ghost repo = all[index as int];
            proof {
                reveal(Seq::filter);
                let before = all.take(index as int);
                let seen = all.take(index + 1);
                assert(seen =~= before.push(repo));
                assert(seen.drop_last() =~= before);
                if before.contains(path@) {
                    let i = choose|i: int| 0 <= i < before.len() && before[i] == path@;
                    assert(seen[i] == path@);
                }
                if repo == path@ {
                    assert(seen[index as int] == path@);
                }
                if seen.contains(path@) && repo != path@ {
                    let i = choose|i: int| 0 <= i < seen.len() && seen[i] == path@;
                    assert(before[i] == path@);
                }
            }
            if text::same(self.repos[index].as_str(), path) {
                removed = true;
            } else {
                kept.push(self.repos[index].clone());
                assert(text::views_of(kept@) =~= held.push(repo));
            }
            index += 1;
        }
        assert(all.take(index as int) =~= all);
        self.repos = kept;
        removed
    }

    /// Sets what is given and leaves the rest.
    pub fn update(
        &mut self,
        fetch_interval_secs: Option<u64>,
        notify_incoming: Option<bool>,
        background_fetch: Option<bool>,
    )
        ensures
            final(self)@ == updated(
                old(self)@,
                fetch_interval_secs,
                notify_incoming,
                background_fetch,
            ),
    {
        if let Some(interval) = fetch_interval_secs {
            self.fetch_interval_secs = interval;
        }
        if let Some(notify) = notify_incoming {
            self.notify_incoming = notify;
        }
        if let Some(enabled) = background_fetch {
            self.background_fetch = enabled;
        }
    }
}

/// Settings with those changed that are given.
pub open spec fn updated(
    settings: Preferences,
    fetch_interval_secs: Option<u64>,
    notify_incoming: Option<bool>,
    background_fetch: Option<bool>,
) -> Preferences {
    Preferences {
        repos: settings.repos,
        fetch_interval_secs: match fetch_interval_secs {
            Some(interval) => interval,
            None => settings.fetch_interval_secs,
        },
        notify_incoming: match notify_incoming {
            Some(notify) => notify,
            None => settings.notify_incoming,
        },
        background_fetch: match background_fetch {
            Some(enabled) => enabled,
            None => settings.background_fetch,
        },
    }
}

/// The settings to start with, from what was read of the file. Without a file, or with
/// one that makes no sense, they are the default ones.
pub fn load(read: Option<Settings>) -> (r: Settings)
    ensures
        puts_right(
            r@,
            match read {
                Some(settings) => settings@,
                None => default_settings(),
            },
        ),
{
    let mut settings = match read {
        Some(settings) => settings,
        None => Settings::default(),
    };
    settings.normalise();
    settings
}

/// Settings are put right in one way only.
pub proof fn normalising_is_determined(a: Preferences, b: Preferences, settings: Preferences)
    requires
        puts_right(a, settings),
        puts_right(b, settings),
    ensures
        a == b,
{
    list_is_determined(a.repos, b.repos, settings.repos.to_set());
}

/// What was put right stays as it is.
pub proof fn normalising_twice_changes_nothing(
    settings: Preferences,
    once: Preferences,
    twice: Preferences,
)
    requires
        puts_right(once, settings),
        puts_right(twice, once),
    ensures
        twice == once,
{
    assert(once.repos.to_set() =~= settings.repos.to_set()) by {
        assert forall|path: Seq<char>| once.repos.to_set().contains(path)
            <==> settings.repos.to_set().contains(path) by {
            assert(once.repos.contains(path) <==> settings.repos.to_set().contains(path));
        }
    }
    list_is_determined(twice.repos, once.repos, settings.repos.to_set());
}

/// A repository that was removed is no longer listed, and all others still are.
pub proof fn removed_repository_is_gone(repos: Seq<Seq<char>>, path: Seq<char>, other: Seq<char>)
    ensures
        !without(repos, path).contains(path),
        other != path ==> (without(repos, path).contains(other) <==> repos.contains(other)),
{
    let kept = other_than(path);
    let rest = without(repos, path);
    if rest.contains(path) {
        let i = choose|i: int| 0 <= i < rest.len() && rest[i] == path;
        repos.lemma_filter_pred(kept, i);
    }
    if rest.contains(other) {
        repos.lemma_filter_contains_rev(kept, other);
    }
    if repos.contains(other) && other != path {
        let i = choose|i: int| 0 <= i < repos.len() && repos[i] == other;
        repos.lemma_filter_contains(kept, i);
    }
}

/// The settings with a repository added, before they are put right.
pub open spec fn with_repo(settings: Preferences, path: Seq<char>) -> Preferences {
    if settings.repos.contains(path) {
        settings
    } else {
        Preferences { repos: sorted(settings.repos.push(path), path_order()), ..settings }
    }
}

/// A repository that was added is listed, and so is what was listed before and nothing
/// else.
pub proof fn added_repository_is_listed(
    settings: Preferences,
    path: Seq<char>,
    added: Preferences,
    other: Seq<char>,
)
    requires
        puts_right(added, with_repo(settings, path)),
    ensures
        added.repos.contains(other) <==> settings.repos.contains(other) || other == path,
{
    broadcast use vstd::seq_lib::group_to_multiset_ensures;

    let longer = with_repo(settings, path).repos;
    assert(added.repos.contains(other) <==> longer.to_set().contains(other));
    if !settings.repos.contains(path) {
        let pushed = settings.repos.push(path);
        sorting_keeps_items(pushed, path_order());
        assert(longer.to_multiset().count(other) == pushed.to_multiset().count(other));
        assert(longer.contains(other) <==> pushed.contains(other));
        if settings.repos.contains(other) {
            let i = choose|i: int| 0 <= i < settings.repos.len() && settings.repos[i] == other;
            assert(pushed[i] == other);
        }
        assert(pushed[settings.repos.len() as int] == path);
    }
}

/// Removing a repository undoes adding it, where it was not listed before and the
/// settings were in order.
pub proof fn removing_undoes_adding(
    settings: Preferences,
    path: Seq<char>,
    added: Preferences,
    removed: Preferences,
)
    requires
        puts_right(settings, settings),
        !settings.repos.contains(path),
        puts_right(added, with_repo(settings, path)),
        puts_right(removed, (Preferences { repos: without(added.repos, path), ..added })),
    ensures
        removed == settings,
{
    let set = settings.repos.to_set();
    assert forall|other: Seq<char>| #[trigger] removed.repos.contains(other) <==> set.contains(
        other,
    ) by {
        added_repository_is_listed(settings, path, added, other);
        removed_repository_is_gone(added.repos, path, other);
        assert(removed.repos.contains(other) <==> without(added.repos, path).to_set().contains(
            other,
        ));
    }
    list_is_determined(removed.repos, settings.repos, set);
}

} // verus!
