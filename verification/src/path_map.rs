//! A small map from paths to values, in the order in which the paths first
//! arrived. Paths are keys by their components, as `PathBuf` keys are: each
//! place occurs once, and a path that names a place already present updates
//! that entry and keeps its first spelling.
use vstd::prelude::*;
use crate::path::{is_same_path, same_path};

verus! {

/// A path and its value.
#[derive(Clone, Debug, PartialEq, Eq)]
pub struct PathEntry<V> {
    pub path: String,
    pub value: V,
}

/// Values that run out at some time.
pub trait Expiring: Copy {
    /// Whether the value has run out at `now`.
    spec fn expired_at(&self, now: u64) -> bool;

    /// Whether the value has run out at `now`.
    fn is_expired(&self, now: u64) -> (b: bool)
        ensures
            b == self.expired_at(now),
    ;
}

/// No place occurs twice.
pub open spec fn distinct_places<V>(entries: Seq<PathEntry<V>>) -> bool {
    forall|i: int, j: int|
        0 <= i < j < entries.len() ==> !same_path(
            (#[trigger] entries[i]).path@,
            (#[trigger] entries[j]).path@,
        )
}

/// Whether some entry names the same place as `path`.
pub open spec fn has_place<V>(entries: Seq<PathEntry<V>>, path: Seq<char>) -> bool {
    exists|i: int| 0 <= i < entries.len() && same_path((#[trigger] entries[i]).path@, path)
}

/// The position of the entry that names the same place as `path`.
pub open spec fn place_index<V>(entries: Seq<PathEntry<V>>, path: Seq<char>) -> Option<int> {
    if has_place(entries, path) {
        Some(choose|i: int| 0 <= i < entries.len() && same_path((#[trigger] entries[i]).path@, path))
    } else {
        None
    }
}

/// The entries after `path` is given `value`.
pub open spec fn with_value<V>(entries: Seq<PathEntry<V>>, path: String, value: V) -> Seq<PathEntry<V>> {
    match place_index(entries, path@) {
        Some(i) => entries.update(i, PathEntry { path: entries[i].path, value }),
        None => entries.push(PathEntry { path, value }),
    }
}

/// The test that takes an entry out at `now`.
pub open spec fn expired_entry<V: Expiring>(now: u64) -> spec_fn(PathEntry<V>) -> bool {
    |e: PathEntry<V>| e.value.expired_at(now)
}

/// The test that keeps an entry at `now`.
pub open spec fn live_entry<V: Expiring>(now: u64) -> spec_fn(PathEntry<V>) -> bool {
    |e: PathEntry<V>| !e.value.expired_at(now)
}

/// Paths with values, each place once, in order of arrival.
pub struct PathMap<V: Copy> {
    entries: Vec<PathEntry<V>>,
}

impl<V: Copy> View for PathMap<V> {
    type V = Seq<PathEntry<V>>;

    closed spec fn view(&self) -> Seq<PathEntry<V>> {
        self.entries@
    }
}

impl<V: Copy> PathMap<V> {
    #[verifier::type_invariant]
    closed spec fn places_are_distinct(&self) -> bool {
        distinct_places(self.entries@)
    }

    /// An empty map.
    pub fn new() -> (m: PathMap<V>)
        ensures
            m@ == Seq::<PathEntry<V>>::empty(),
    {
        PathMap { entries: Vec::new() }
    }

    /// How many places the map holds.
    pub fn len(&self) -> (n: usize)
        ensures
            n == self@.len(),
    {
        self.entries.len()
    }

    /// The entries, in order.
    pub fn entries(&self) -> (entries: &Vec<PathEntry<V>>)
        ensures
            entries@ == self@,
            distinct_places(self@),
    {
        proof {
            use_type_invariant(self);
        }
        &self.entries
    }

    /// The position of the entry that names the same place as `path`.
    fn find(&self, path: &str) -> (found: Option<usize>)
        ensures
            match found {
                Some(i) => place_index(self@, path@) == Some(i as int) && i < self@.len(),
                None => !has_place(self@, path@),
            },
    {
        proof {
            use_type_invariant(self);
        }
        let mut i: usize = 0;
        while i < self.entries.len()
            invariant
                i <= self.entries@.len(),
                distinct_places(self.entries@),
                forall|j: int| 0 <= j < i ==> !same_path((#[trigger] self.entries@[j]).path@, path@),
            decreases self.entries.len() - i,
        {
            if is_same_path(self.entries[i].path.as_str(), path) {
                proof {
                    lemma_unique_place(self.entries@, i as int, path@);
                }
                return Some(i);
            }
            i = i + 1;
        }
        None
    }

    /// Whether some entry names the same place as `path`.
    pub fn contains(&self, path: &str) -> (b: bool)
        ensures
            b == has_place(self@, path@),
    {
        self.find(path).is_some()
    }

    /// The value for the place that `path` names.
    pub fn get(&self, path: &str) -> (v: Option<V>)
        ensures
            match v {
                Some(x) => place_index(self@, path@) matches Some(i) && x == self@[i].value,
                None => !has_place(self@, path@),
            },
    {
        match self.find(path) {
            Some(i) => Some(self.entries[i].value),
            None => None,
        }
    }

    /// Gives the place that `path` names the value `value`: an entry already
    /// there keeps its spelling and position, a new one goes to the end.
    pub fn insert(&mut self, path: String, value: V)
        ensures
            final(self)@ == with_value(old(self)@, path, value),
    {
        proof {
            use_type_invariant(&*self);
        }
        let ghost before = self.entries@;
        match self.find(path.as_str()) {
            Some(i) => {
                let kept = self.entries[i].path.clone();
                let mut entries: Vec<PathEntry<V>> = Vec::new();
                std::mem::swap(&mut entries, &mut self.entries);
                entries.set(i, PathEntry { path: kept, value });
                assert(distinct_places(entries@)) by {
                    assert forall|a: int, b: int|
                        0 <= a < b < entries@.len() implies !same_path(
                        (#[trigger] entries@[a]).path@,
                        (#[trigger] entries@[b]).path@,
                    ) by {
                        assert(entries@[a].path == before[a].path);
                        assert(entries@[b].path == before[b].path);
                    }
                }
                self.entries = entries;
            },
            None => {
                let mut entries: Vec<PathEntry<V>> = Vec::new();
                std::mem::swap(&mut entries, &mut self.entries);
                entries.push(PathEntry { path, value });
                assert(distinct_places(entries@)) by {
                    assert forall|a: int, b: int|
                        0 <= a < b < entries@.len() implies !same_path(
                        (#[trigger] entries@[a]).path@,
                        (#[trigger] entries@[b]).path@,
                    ) by {
                        if b == entries@.len() - 1 {
                            assert(!same_path(before[a].path@, path@));
                        } else {
                            assert(!same_path(before[a].path@, before[b].path@));
                        }
                    }
                }
                self.entries = entries;
            },
        }
    }
}

impl<V: Expiring> PathMap<V> {
    /// Takes out the entries whose value has run out at `now` and returns
    /// them; both parts keep their order.
    pub fn take_expired(&mut self, now: u64) -> (expired: Vec<PathEntry<V>>)
        ensures
            expired@ == old(self)@.filter(expired_entry(now)),
            final(self)@ == old(self)@.filter(live_entry(now)),
    {
        proof {
            use_type_invariant(&*self);
        }
        let ghost start = self.entries@;
        let mut kept: Vec<PathEntry<V>> = Vec::new();
        let mut expired: Vec<PathEntry<V>> = Vec::new();
        let mut i: usize = 0;
        assert(start.take(0) =~= Seq::<PathEntry<V>>::empty());
        proof {
            reveal(Seq::filter);
        }
        while i < self.entries.len()
            invariant
                self.entries@ == start,
                i <= start.len(),
                kept@ == start.take(i as int).filter(live_entry(now)),
                expired@ == start.take(i as int).filter(expired_entry(now)),
            decreases self.entries.len() - i,
        {
            let e = PathEntry { path: self.entries[i].path.clone(), value: self.entries[i].value };
            assert(e == start[i as int]);
            assert(start.take(i + 1).drop_last() =~= start.take(i as int));
            assert(start.take(i + 1).last() == e);
            proof {
                reveal(Seq::filter);
            }
            if e.value.is_expired(now) {
                expired.push(e);
            } else {
                kept.push(e);
            }
            i = i + 1;
        }
        assert(start.take(i as int) =~= start);
        proof {
            lemma_filter_keeps_distinct(start, live_entry(now));
        }
        self.entries = kept;
        expired
    }
}

proof fn lemma_unique_place<V>(entries: Seq<PathEntry<V>>, i: int, path: Seq<char>)
    requires
        distinct_places(entries),
        0 <= i < entries.len(),
        same_path(entries[i].path@, path),
    ensures
        place_index(entries, path) == Some(i),
{
    let j = choose|j: int| 0 <= j < entries.len() && same_path((#[trigger] entries[j]).path@, path);
    if j != i {
        if j < i {
            assert(!same_path(entries[j].path@, entries[i].path@));
        } else {
            assert(!same_path(entries[i].path@, entries[j].path@));
        }
    }
}

/// Keeping some of the entries keeps the places distinct.
pub proof fn lemma_filter_keeps_distinct<V>(s: Seq<PathEntry<V>>, p: spec_fn(PathEntry<V>) -> bool)
    requires
        distinct_places(s),
    ensures
        distinct_places(s.filter(p)),
        forall|k: int| 0 <= k < s.filter(p).len() ==> s.contains(#[trigger] s.filter(p)[k]),
    decreases s.len(),
{
    reveal(Seq::filter);
    broadcast use vstd::seq_lib::group_filter_ensures;
    if s.len() > 0 {
        let init = s.drop_last();
        assert forall|i: int, j: int|
            0 <= i < j < init.len() implies !same_path(
            (#[trigger] init[i]).path@,
            (#[trigger] init[j]).path@,
        ) by {
            assert(s[i] == init[i] && s[j] == init[j]);
        }
        lemma_filter_keeps_distinct(init, p);
        let f = init.filter(p);
        assert forall|k: int| 0 <= k < f.len() implies s.contains(#[trigger] f[k]) by {
            let m = choose|m: int| 0 <= m < init.len() && init[m] == f[k];
            assert(s[m] == init[m]);
        }
        if p(s.last()) {
            let g = f.push(s.last());
            assert forall|i: int, j: int|
                0 <= i < j < g.len() implies !same_path(
                (#[trigger] g[i]).path@,
                (#[trigger] g[j]).path@,
            ) by {
                if j == g.len() - 1 {
                    let m = choose|m: int| 0 <= m < init.len() && init[m] == f[i];
                    assert(s[m] == init[m]);
                    assert(!same_path(s[m].path@, s[s.len() - 1].path@));
                } else {
                    assert(g[i] == f[i] && g[j] == f[j]);
                }
            }
            assert forall|k: int| 0 <= k < g.len() implies s.contains(#[trigger] g[k]) by {
                if k == g.len() - 1 {
                    assert(s[s.len() - 1] == g[k]);
                } else {
                    assert(g[k] == f[k]);
                }
            }
        }
    }
}

/// Taking out the expired entries splits the map: every entry is either
/// taken or stays, what is taken has run out and what stays has not.
pub proof fn lemma_take_expired_partitions<V: Expiring>(entries: Seq<PathEntry<V>>, now: u64)
    ensures
        entries.filter(expired_entry(now)).len() + entries.filter(live_entry(now)).len()
            == entries.len(),
        forall|k: int|
            0 <= k < entries.filter(expired_entry(now)).len() ==> (#[trigger] entries.filter(
                expired_entry(now),
            )[k]).value.expired_at(now),
        forall|k: int|
            0 <= k < entries.filter(live_entry(now)).len() ==> !(#[trigger] entries.filter(
                live_entry(now),
            )[k]).value.expired_at(now),
    decreases entries.len(),
{
    broadcast use vstd::seq_lib::group_filter_ensures;
    reveal(Seq::filter);
    if entries.len() > 0 {
        lemma_take_expired_partitions(entries.drop_last(), now);
    }
    assert forall|k: int| 0 <= k < entries.filter(expired_entry(now)).len() implies (
    #[trigger] entries.filter(expired_entry(now))[k]).value.expired_at(now) by {
        assert(expired_entry(now)(entries.filter(expired_entry(now))[k]));
    }
    assert forall|k: int| 0 <= k < entries.filter(live_entry(now)).len() implies !(
    #[trigger] entries.filter(live_entry(now))[k]).value.expired_at(now) by {
        assert(live_entry(now)(entries.filter(live_entry(now))[k]));
    }
}

/// Giving a place a value and then asking for it gives that value back.
pub proof fn lemma_insert_then_get<V>(entries: Seq<PathEntry<V>>, path: String, value: V)
    requires
        distinct_places(entries),
    ensures
        has_place(with_value(entries, path, value), path@),
        place_index(with_value(entries, path, value), path@) matches Some(i) && with_value(
            entries,
            path,
            value,
        )[i].value == value,
        with_value(entries, path, value).len() == entries.len() + if has_place(entries, path@) {
            0int
        } else {
            1int
        },
{
    let w = with_value(entries, path, value);
    match place_index(entries, path@) {
        Some(i) => {
            assert(same_path(w[i].path@, path@));
            assert(distinct_places(w)) by {
                assert forall|a: int, b: int|
                    0 <= a < b < w.len() implies !same_path(
                    (#[trigger] w[a]).path@,
                    (#[trigger] w[b]).path@,
                ) by {
                    assert(w[a].path == entries[a].path && w[b].path == entries[b].path);
                }
            }
            lemma_unique_place(w, i, path@);
        },
        None => {
            let n = entries.len() as int;
            assert(w[n].path@ == path@);
            assert(same_path(w[n].path@, path@));
            assert(distinct_places(w)) by {
                assert forall|a: int, b: int|
                    0 <= a < b < w.len() implies !same_path(
                    (#[trigger] w[a]).path@,
                    (#[trigger] w[b]).path@,
                ) by {
                    if b == n {
                        assert(!same_path(entries[a].path@, path@));
                    } else {
                        assert(!same_path(entries[a].path@, entries[b].path@));
                    }
                }
            }
            lemma_unique_place(w, n, path@);
        },
    }
}

} // verus!
