//! Sets of paths, kept in order.
use vstd::prelude::*;

use crate::text;
use crate::text::{precedes, precedes_is_total, precedes_is_transitive};

verus! {

/// Whether each text comes before the next: in order, and none twice.
pub open spec fn ascending(list: Seq<Seq<char>>) -> bool {
    forall|i: int, j: int| 0 <= i < j < list.len() ==> precedes(#[trigger] list[i], #[trigger] list[j])
}

/// Whether a list holds the members of a set, in order.
pub open spec fn lists(list: Seq<Seq<char>>, set: Set<Seq<char>>) -> bool {
    &&& ascending(list)
    &&& forall|path: Seq<char>| #[trigger] list.contains(path) <==> set.contains(path)
}

/// A set has one list: the list is determined by the set.
pub proof fn list_is_determined(a: Seq<Seq<char>>, b: Seq<Seq<char>>, set: Set<Seq<char>>)
    requires
        lists(a, set),
        lists(b, set),
    ensures
        a == b,
    decreases a.len(),
{
    if a.len() == 0 {
        if b.len() > 0 {
            assert(b.contains(b[0]));
            assert(a.contains(b[0]));
        }
        assert(a =~= b);
    } else {
        assert(a.contains(a[0]));
        assert(b.contains(a[0]));
        let i = choose|i: int| 0 <= i < b.len() && b[i] == a[0];
        assert(b.contains(b[0]));
        assert(a.contains(b[0]));
        let j = choose|j: int| 0 <= j < a.len() && a[j] == b[0];
        precedes_is_total(a[0], b[0]);
        assert(a[0] == b[0]) by {
            if i > 0 {
                assert(precedes(b[0], b[i]));
            }
            if j > 0 {
                assert(precedes(a[0], a[j]));
            }
        }
        let rest = set.remove(a[0]);
        lemma_list_of_rest(a, set);
        lemma_list_of_rest(b, set);
        list_is_determined(a.drop_first(), b.drop_first(), rest);
        assert(a =~= seq![a[0]] + a.drop_first());
        assert(b =~= seq![b[0]] + b.drop_first());
    }
}

proof fn lemma_list_of_rest(list: Seq<Seq<char>>, set: Set<Seq<char>>)
    requires
        lists(list, set),
        list.len() > 0,
    ensures
        lists(list.drop_first(), set.remove(list[0])),
{
    let rest = list.drop_first();
    assert forall|path: Seq<char>| #[trigger] rest.contains(path) <==> set.remove(list[0]).contains(
        path,
    ) by {
        if rest.contains(path) {
            let i = choose|i: int| 0 <= i < rest.len() && rest[i] == path;
            assert(list[i + 1] == path);
            assert(list.contains(path));
            assert(precedes(list[0], list[i + 1]));
            precedes_is_total(list[0], list[0]);
        }
        if set.contains(path) && path != list[0] {
            assert(list.contains(path));
            let i = choose|i: int| 0 <= i < list.len() && list[i] == path;
            assert(rest[i - 1] == path);
        }
    }
}

/// A set of paths.
#[derive(Debug)]
pub struct PathSet {
    paths: Vec<String>,
}

impl View for PathSet {
    type V = Set<Seq<char>>;

    closed spec fn view(&self) -> Set<Seq<char>> {
        text::views_of(self.paths@).to_set()
    }
}

impl PathSet {
    /// The paths are in order.
    pub closed spec fn wf(&self) -> bool {
        ascending(text::views_of(self.paths@))
    }

    pub fn new() -> (r: Self)
        ensures
            r.wf(),
            r@ == Set::<Seq<char>>::empty(),
    {
        let r = PathSet { paths: Vec::new() };
        assert(r@ =~= Set::empty());
        r
    }

    /// Adds a path, unless it is there already.
    pub fn insert(&mut self, path: String)
        requires
            old(self).wf(),
        ensures
            final(self).wf(),
            final(self)@ == old(self)@.insert(path@),
    {
        let ghost before = text::views_of(self.paths@);
        let mut place: usize = 0;
        while place < self.paths.len() && text::less(self.paths[place].as_str(), path.as_str())
            invariant
                place <= self.paths@.len(),
                before == text::views_of(self.paths@),
                forall|i: int| 0 <= i < place ==> precedes(#[trigger] before[i], path@),
            decreases self.paths@.len() - place,
        {
            assert(before[place as int] == self.paths@[place as int]@);
            place += 1;
        }
        if place < self.paths.len() && text::same(self.paths[place].as_str(), path.as_str()) {
            assert(before[place as int] == path@);
            assert(before.contains(path@));
            assert(self@ =~= old(self)@.insert(path@));
            return;
        }
        let ghost inserted = path@;
        self.paths.insert(place, path);
        proof {
            let after = text::views_of(self.paths@);
            assert(after =~= before.insert(place as int, inserted));
            assert forall|i: int, j: int| 0 <= i < j < after.len() implies precedes(
                #[trigger] after[i],
                #[trigger] after[j],
            ) by {
                if i < place && j > place {
                    assert(after[i] == before[i]);
                    assert(after[j] == before[j - 1]);
                } else if i < place && j < place {
                    assert(after[i] == before[i]);
                    assert(after[j] == before[j]);
                } else if i > place {
                    assert(after[i] == before[i - 1]);
                    assert(after[j] == before[j - 1]);
                } else if i == place {
                    assert(after[j] == before[j - 1]);
                    let next = before[place as int];
                    precedes_is_total(next, inserted);
                    assert(precedes(inserted, next));
                    if j - 1 > place {
                        assert(precedes(next, before[j - 1]));
                        precedes_is_transitive(inserted, next, before[j - 1]);
                    }
                } else {
                    assert(after[i] == before[i]);
                }
            }
            assert forall|path: Seq<char>| after.to_set().contains(path) <==> before.to_set().insert(
                inserted,
            ).contains(path) by {
                if after.contains(path) {
                    let i = choose|i: int| 0 <= i < after.len() && after[i] == path;
                    if i < place {
                        assert(before[i] == path);
                    } else if i > place {
                        assert(before[i - 1] == path);
                    }
                }
                if before.contains(path) {
                    let i = choose|i: int| 0 <= i < before.len() && before[i] == path;
                    if i < place {
                        assert(after[i] == path);
                    } else {
                        assert(after[i + 1] == path);
                    }
                }
                assert(after[place as int] == inserted);
            }
            assert(self@ =~= old(self)@.insert(inserted));
        }
    }

    /// Whether a path is in the set.
    pub fn contains(&self, path: &str) -> (r: bool)
        ensures
            r == self@.contains(path@),
    {
        let ghost views = text::views_of(self.paths@);
        let mut index: usize = 0;
        while index < self.paths.len()
            invariant
                index <= self.paths@.len(),
                views == text::views_of(self.paths@),
                forall|i: int| 0 <= i < index ==> #[trigger] views[i] != path@,
            decreases self.paths@.len() - index,
        {
            if text::same(self.paths[index].as_str(), path) {
                assert(views[index as int] == path@);
                return true;
            }
            index += 1;
        }
        false
    }

    /// The paths that are in both sets, in order.
    pub fn intersection(&self, other: &PathSet) -> (r: Vec<String>)
        requires
            self.wf(),
        ensures
            lists(text::views_of(r@), self@.intersect(other@)),
    {
        let ghost views = text::views_of(self.paths@);
        let mut out: Vec<String> = Vec::new();
        let mut index: usize = 0;
        while index < self.paths.len()
            invariant
                index <= self.paths@.len(),
                views == text::views_of(self.paths@),
                ascending(views),
                ascending(text::views_of(out@)),
                forall|i: int, k: int|
                    0 <= i < out@.len() && index <= k < views.len() ==> precedes(
                        #[trigger] text::views_of(out@)[i],
                        #[trigger] views[k],
                    ),
                forall|path: Seq<char>| #[trigger]
                    text::views_of(out@).contains(path) <==> views.take(index as int).contains(path)
                        && other@.contains(path),
            decreases self.paths@.len() - index,
        {
            let ghost held = text::views_of(out@);
            let ghost path = views[index as int];
            assert(path == self.paths@[index as int]@);
            let ghost seen = views.take(index + 1);
            assert(seen =~= views.take(index as int).push(path));
            if other.contains(self.paths[index].as_str()) {
                out.push(self.paths[index].clone());
                assert(text::views_of(out@) =~= held.push(path));
            }
            proof {
                let now = text::views_of(out@);
                assert forall|other_path: Seq<char>| #[trigger] now.contains(other_path)
                    <==> seen.contains(other_path) && other@.contains(other_path) by {
                    lemma_push_contains(views.take(index as int), path, other_path);
                    lemma_push_contains(held, path, other_path);
                }
            }
            index += 1;
        }
        assert(views.take(index as int) =~= views);
        out
    }

    /// The paths, in order.
    pub fn into_vec(self) -> (r: Vec<String>)
        requires
            self.wf(),
        ensures
            lists(text::views_of(r@), self@),
    {
        self.paths
    }
}

proof fn lemma_push_contains(list: Seq<Seq<char>>, path: Seq<char>, other: Seq<char>)
    ensures
        list.push(path).contains(other) <==> list.contains(other) || other == path,
{
    let longer = list.push(path);
    if list.contains(other) {
        let i = choose|i: int| 0 <= i < list.len() && list[i] == other;
        assert(longer[i] == other);
    }
    assert(longer[list.len() as int] == path);
}

} // verus!
