use vstd::prelude::*;
use crate::text::{eq_str, views};

verus! {

broadcast use vstd::string::group_string_axioms;

/// How many favorites the launcher keeps.
pub const MAX_FAVORITES: usize = 5;

/// The favorite applications, by desktop id, in the order they are shown.
#[derive(Clone, Debug, PartialEq, Eq)]
pub struct Favorites {
    pub items: Vec<String>,
}

/// `s` without the occurrences of `x`.
pub open spec fn without(s: Seq<Seq<char>>, x: Seq<char>) -> Seq<Seq<char>>
    decreases s.len(),
{
    if s.len() == 0 {
        seq![]
    } else if s.last() == x {
        without(s.drop_last(), x)
    } else {
        without(s.drop_last(), x).push(s.last())
    }
}

/// The elements of `s` that are in `keep`, in order.
pub open spec fn kept(s: Seq<Seq<char>>, keep: Seq<Seq<char>>) -> Seq<Seq<char>>
    decreases s.len(),
{
    if s.len() == 0 {
        seq![]
    } else if keep.contains(s.last()) {
        kept(s.drop_last(), keep).push(s.last())
    } else {
        kept(s.drop_last(), keep)
    }
}

/// The views of a sequence of string slices.
pub open spec fn str_views(v: Seq<&str>) -> Seq<Seq<char>> {
    v.map_values(|t: &str| t@)
}

/// Whether `add` takes `id`: it is new and there is room.
pub open spec fn can_add_spec(ids: Seq<Seq<char>>, id: Seq<char>) -> bool {
    !ids.contains(id) && ids.len() < MAX_FAVORITES
}

/// The favorites after `add(id)`, and its result.
pub open spec fn add_spec(ids: Seq<Seq<char>>, id: Seq<char>) -> (Seq<Seq<char>>, bool) {
    if can_add_spec(ids, id) {
        (ids.push(id), true)
    } else {
        (ids, false)
    }
}

/// The favorites after `remove(id)`, and its result.
pub open spec fn remove_spec(ids: Seq<Seq<char>>, id: Seq<char>) -> (Seq<Seq<char>>, bool) {
    (without(ids, id), ids.contains(id))
}

/// The favorites after `toggle(id)`, and its result.
pub open spec fn toggle_spec(ids: Seq<Seq<char>>, id: Seq<char>) -> (Seq<Seq<char>>, bool) {
    if ids.contains(id) {
        (without(ids, id), false)
    } else {
        add_spec(ids, id)
    }
}

/// The favorites after `reorder(from, to)`, and its result.
pub open spec fn reorder_spec(ids: Seq<Seq<char>>, from: int, to: int) -> (Seq<Seq<char>>, bool) {
    if from >= ids.len() || to >= ids.len() || from == to {
        (ids, false)
    } else {
        (ids.remove(from).insert(to, ids[from]), true)
    }
}

pub proof fn lemma_without_facts(s: Seq<Seq<char>>, x: Seq<char>)
    ensures
        !without(s, x).contains(x),
        forall|y: Seq<char>| y != x ==> (#[trigger] without(s, x).contains(y) <==> s.contains(y)),
        s.contains(x) ==> without(s, x).len() < s.len(),
        !s.contains(x) ==> without(s, x) == s,
        without(s, x).len() <= s.len(),
        s.no_duplicates() ==> without(s, x).no_duplicates(),
    decreases s.len(),
{
    if s.len() > 0 {
        lemma_without_facts(s.drop_last(), x);
        assert(s == s.drop_last().push(s.last()));
        assert forall|y: Seq<char>| y != x implies (#[trigger] without(s, x).contains(y)
            <==> s.contains(y)) by {
            lemma_push_contains(s.drop_last(), s.last(), y);
            if s.last() != x {
                lemma_push_contains(without(s.drop_last(), x), s.last(), y);
            }
        }
        if s.last() != x {
            assert(!without(s, x).contains(x)) by {
                if without(s, x).contains(x) {
                    let i = choose|i: int| 0 <= i < without(s, x).len() && without(s, x)[i] == x;
                    assert(without(s.drop_last(), x)[i] == x);
                }
            }
            if s.contains(x) {
                let i = choose|i: int| 0 <= i < s.len() && s[i] == x;
                assert(s.drop_last()[i] == x);
            }
            if s.no_duplicates() {
                assert(s.drop_last().no_duplicates());
                assert(!s.drop_last().contains(s.last())) by {
                    if s.drop_last().contains(s.last()) {
                        let i = choose|i: int| 0 <= i < s.drop_last().len() && s.drop_last()[i]
                            == s.last();
                        assert(s[i] == s[s.len() - 1]);
                    }
                }
                assert(!without(s.drop_last(), x).contains(s.last()));
            }
        } else {
            if s.no_duplicates() {
                assert(s.drop_last().no_duplicates());
            }
            if !s.contains(x) {
                assert(s[s.len() - 1] == x);
            }
        }
    }
}

/// At most `MAX_FAVORITES` ids, none twice.
pub open spec fn bounded_unique(ids: Seq<Seq<char>>) -> bool {
    ids.len() <= MAX_FAVORITES && ids.no_duplicates()
}

/// Adding to a full list of favorites fails and changes nothing.
pub proof fn law_add_to_full_list_fails(ids: Seq<Seq<char>>, id: Seq<char>)
    requires
        ids.len() >= MAX_FAVORITES,
    ensures
        add_spec(ids, id) == (ids, false),
{
}

/// Toggling an id that is not a favorite adds it when there is room, and
/// toggling it again gives back the list as it was.
pub proof fn law_toggle_twice_restores(ids: Seq<Seq<char>>, id: Seq<char>)
    requires
        !ids.contains(id),
        ids.len() < MAX_FAVORITES,
    ensures
        toggle_spec(ids, id) == (ids.push(id), true),
        toggle_spec(ids.push(id), id) == (ids, false),
{
    lemma_without_facts(ids, id);
    lemma_push_contains(ids, id, id);
    assert(ids.push(id).drop_last() == ids);
}

/// Removing a favorite that was just added gives back the list as it was.
pub proof fn law_remove_undoes_add(ids: Seq<Seq<char>>, id: Seq<char>)
    requires
        can_add_spec(ids, id),
    ensures
        add_spec(ids, id) == (ids.push(id), true),
        remove_spec(add_spec(ids, id).0, id) == (ids, true),
{
    law_toggle_twice_restores(ids, id);
    lemma_push_contains(ids, id, id);
}

/// Every operation keeps the favorites within the limit and free of duplicates.
pub proof fn law_operations_keep_bounds(ids: Seq<Seq<char>>, id: Seq<char>, from: int, to: int)
    requires
        bounded_unique(ids),
        0 <= from,
        0 <= to,
    ensures
        bounded_unique(add_spec(ids, id).0),
        bounded_unique(remove_spec(ids, id).0),
        bounded_unique(toggle_spec(ids, id).0),
        bounded_unique(reorder_spec(ids, from, to).0),
{
    lemma_without_facts(ids, id);
    if can_add_spec(ids, id) {
        let n = ids.push(id);
        assert forall|a: int, b: int| 0 <= a < b < n.len() implies n[a] != n[b] by {
            if b == ids.len() {
                assert(ids[a] == n[a]);
            }
        }
    }
    if from < ids.len() && to < ids.len() && from != to {
        lemma_reorder_permutes(ids, from, to);
    }
}

/// The visible favorites are exactly the favorites that are available.
pub proof fn law_visible_are_available_favorites(ids: Seq<Seq<char>>, available: Seq<Seq<char>>)
    ensures
        forall|x: Seq<char>| #[trigger] kept(ids, available).contains(x) <==> (ids.contains(x)
            && available.contains(x)),
    decreases ids.len(),
{
    if ids.len() > 0 {
        law_visible_are_available_favorites(ids.drop_last(), available);
        assert forall|x: Seq<char>| #[trigger] kept(ids, available).contains(x) <==> (ids.contains(
            x,
        ) && available.contains(x)) by {
            lemma_push_contains(ids.drop_last(), ids.last(), x);
            assert(ids.drop_last().push(ids.last()) == ids);
            if available.contains(ids.last()) {
                lemma_push_contains(kept(ids.drop_last(), available), ids.last(), x);
            }
        }
    }
}

impl Favorites {
    /// The favorite ids.
    pub open spec fn ids(&self) -> Seq<Seq<char>> {
        views(self.items@)
    }

    /// At most `MAX_FAVORITES` favorites, none twice.
    pub open spec fn wf(&self) -> bool {
        bounded_unique(self.ids())
    }

    /// No favorites.
    pub fn new() -> (f: Self)
        ensures
            f.ids() == Seq::<Seq<char>>::empty(),
    {
        let f = Favorites { items: Vec::new() };
        assert(f.ids() =~= Seq::<Seq<char>>::empty());
        f
    }

    /// Whether `app_id` is a favorite.
    pub fn contains(&self, app_id: &str) -> (r: bool)
        ensures
            r == self.ids().contains(app_id@),
    {
        let mut i: usize = 0;
        while i < self.items.len()
            invariant
                i <= self.items@.len(),
                forall|j: int| 0 <= j < i ==> self.ids()[j] != app_id@,
            decreases self.items.len() - i,
        {
            if eq_str(self.items[i].as_str(), app_id) {
                assert(self.ids()[i as int] == app_id@);
                return true;
            }
            i = i + 1;
        }
        false
    }

    /// Whether `app_id` is a favorite or could be added as one.
    pub fn can_add(&self, app_id: &str) -> (r: bool)
        ensures
            r == (self.ids().contains(app_id@) || self.ids().len() < MAX_FAVORITES),
    {
        self.contains(app_id) || self.items.len() < MAX_FAVORITES
    }

    /// Adds `app_id` at the end, unless it is a favorite already or there is no room.
    pub fn add(&mut self, app_id: &str) -> (r: bool)
        ensures
            (final(self).ids(), r) == add_spec(old(self).ids(), app_id@),
            old(self).wf() ==> final(self).wf(),
    {
        if self.contains(app_id) || self.items.len() >= MAX_FAVORITES {
            return false;
        }
        let ghost before = self.ids();
        self.items.push(app_id.to_string());
        assert(self.ids() == before.push(app_id@));
        proof {
            if before.no_duplicates() {
                assert(self.ids().no_duplicates()) by {
                    assert forall|a: int, b: int|
                        0 <= a < b < self.ids().len() implies self.ids()[a] != self.ids()[b] by {
                        if b == before.len() {
                            assert(before[a] == self.ids()[a]);
                        }
                    }
                }
            }
        }
        true
    }

    /// Removes every occurrence of `app_id`; `true` when one was there.
    pub fn remove(&mut self, app_id: &str) -> (r: bool)
        ensures
            (final(self).ids(), r) == remove_spec(old(self).ids(), app_id@),
            old(self).wf() ==> final(self).wf(),
    {
        let ghost before = self.ids();
        let mut kept_items: Vec<String> = Vec::new();
        let mut found = false;
        let mut i: usize = 0;
        while i < self.items.len()
            invariant
                i <= self.items@.len(),
                before == self.ids(),
                views(kept_items@) == without(before.take(i as int), app_id@),
                found == before.take(i as int).contains(app_id@),
            decreases self.items.len() - i,
        {
            assert(before.take(i + 1).drop_last() == before.take(i as int));
            assert(before.take(i + 1).last() == before[i as int]);
            proof {
                if before.take(i + 1).contains(app_id@) && before[i as int] != app_id@ {
                    let k = choose|k: int| 0 <= k < i + 1 && #[trigger] before.take(i + 1)[k] == app_id@;
                    assert(before.take(i as int)[k] == app_id@);
                }
                if before.take(i as int).contains(app_id@) {
                    let k = choose|k: int| 0 <= k < i && #[trigger] before.take(i as int)[k] == app_id@;
                    assert(before.take(i + 1)[k] == app_id@);
                }
            }
            if eq_str(self.items[i].as_str(), app_id) {
                found = true;
            } else {
                let ghost prev = views(kept_items@);
                kept_items.push(self.items[i].clone());
                assert(views(kept_items@) == prev.push(before[i as int]));
            }
            i = i + 1;
        }
        assert(before.take(before.len() as int) == before);
        self.items = kept_items;
        proof {
            lemma_without_facts(before, app_id@);
        }
        found
    }

    /// Removes `app_id` if it is a favorite and adds it otherwise; `true` when
    /// it was added.
    pub fn toggle(&mut self, app_id: &str) -> (r: bool)
        ensures
            (final(self).ids(), r) == toggle_spec(old(self).ids(), app_id@),
            old(self).wf() ==> final(self).wf(),
    {
        if self.remove(app_id) {
            return false;
        }
        proof {
            lemma_without_facts(old(self).ids(), app_id@);
        }
        self.add(app_id)
    }

    /// Moves the favorite at `from` to position `to`; `false`, with nothing
    /// changed, when either position is out of range or they are equal.
    pub fn reorder(&mut self, from: usize, to: usize) -> (r: bool)
        ensures
            (final(self).ids(), r) == reorder_spec(old(self).ids(), from as int, to as int),
            final(self).ids().to_multiset() == old(self).ids().to_multiset(),
            old(self).wf() ==> final(self).wf(),
    {
        if from >= self.items.len() || to >= self.items.len() || from == to {
            return false;
        }
        let ghost before = self.ids();
        let item = self.items.remove(from);
        let ghost middle = self.ids();
        assert(middle == before.remove(from as int));
        self.items.insert(to, item);
        assert(self.ids() == middle.insert(to as int, before[from as int]));
        proof {
            lemma_reorder_permutes(before, from as int, to as int);
        }
        true
    }

    /// The favorites whose ids are in `available_ids`, in order. The
    /// favorites themselves are left as they are.
    pub fn visible_items<'a>(&'a self, available_ids: &[&str]) -> (r: Vec<&'a str>)
        ensures
            str_views(r@) == kept(self.ids(), str_views(available_ids@)),
    {
        let ghost keep = str_views(available_ids@);
        let mut visible: Vec<&'a str> = Vec::new();
        let mut i: usize = 0;
        while i < self.items.len()
            invariant
                i <= self.items@.len(),
                keep == str_views(available_ids@),
                str_views(visible@) == kept(self.ids().take(i as int), keep),
            decreases self.items.len() - i,
        {
            assert(self.ids().take(i + 1).drop_last() == self.ids().take(i as int));
            let id = self.items[i].as_str();
            let mut found = false;
            let mut j: usize = 0;
            while j < available_ids.len()
                invariant
                    j <= available_ids@.len(),
                    keep == str_views(available_ids@),
                    id@ == self.ids()[i as int],
                    found == (exists|k: int| 0 <= k < j && keep[k] == id@),
                decreases available_ids.len() - j,
            {
                if eq_str(available_ids[j], id) {
                    assert(keep[j as int] == id@);
                    found = true;
                }
                j = j + 1;
            }
            assert(found == keep.contains(id@));
            if found {
                let ghost prev = str_views(visible@);
                visible.push(id);
                assert(str_views(visible@) == prev.push(id@));
            }
            i = i + 1;
        }
        assert(self.ids().take(self.ids().len() as int) == self.ids());
        visible
    }
}

impl Default for Favorites {
    fn default() -> (f: Self)
        ensures
            f.ids() == Seq::<Seq<char>>::empty(),
    {
        Favorites::new()
    }
}

proof fn lemma_push_contains(s: Seq<Seq<char>>, l: Seq<char>, y: Seq<char>)
    ensures
        s.push(l).contains(y) <==> (s.contains(y) || y == l),
{
    if s.contains(y) {
        let i = choose|i: int| 0 <= i < s.len() && s[i] == y;
        assert(s.push(l)[i] == y);
    }
    if y == l {
        assert(s.push(l)[s.len() as int] == y);
    }
    if s.push(l).contains(y) && y != l {
        let i = choose|i: int| 0 <= i < s.push(l).len() && s.push(l)[i] == y;
        assert(s[i] == y);
    }
}

proof fn lemma_reorder_permutes(s: Seq<Seq<char>>, from: int, to: int)
    requires
        0 <= from < s.len(),
        0 <= to < s.len(),
    ensures
        s.remove(from).insert(to, s[from]).to_multiset() == s.to_multiset(),
        s.no_duplicates() ==> s.remove(from).insert(to, s[from]).no_duplicates(),
        s.remove(from).insert(to, s[from]).len() == s.len(),
{
    broadcast use vstd::seq_lib::group_to_multiset_ensures;

    let m = s.remove(from);
    assert(s == s.take(from) + seq![s[from]] + s.skip(from + 1));
    assert(m == s.take(from) + s.skip(from + 1));
    assert(m.insert(to, s[from]) == m.take(to) + seq![s[from]] + m.skip(to));
    assert(m.to_multiset() == s.to_multiset().remove(s[from])) by {
        s.remove_ensures(from);
    }
    assert(m.insert(to, s[from]).to_multiset() == m.to_multiset().insert(s[from])) by {
        m.insert_ensures(to, s[from]);
    }
    if s.no_duplicates() {
        let r = m.insert(to, s[from]);
        assert forall|a: int, b: int| 0 <= a < b < r.len() implies r[a] != r[b] by {
            let ia = if a < to {
                if a < from { a } else { a + 1 }
            } else if a == to {
                from
            } else {
                if a - 1 < from { a - 1 } else { a }
            };
            let ib = if b < to {
                if b < from { b } else { b + 1 }
            } else if b == to {
                from
            } else {
                if b - 1 < from { b - 1 } else { b }
            };
            assert(r[a] == s[ia]);
            assert(r[b] == s[ib]);
        }
    }
}

} // verus!
