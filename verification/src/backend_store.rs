//! Backend configuration store (the `providers` list of the leader).
use vstd::prelude::*;
use crate::backend::{opt_view, BackendEntry};
use crate::rules::strings_view;
use crate::text::clone_strings;
use crate::sort::{is_stable_order_str, stable_order_str};
use crate::text::{chars_of, seq_lt, str_eq};

verus! {

/// Routing key of an entry: `id`, else `provider`.
pub open spec fn entry_id(e: BackendEntry) -> Seq<char> {
    match e.id {
        Some(i) => i@,
        None => e.provider@,
    }
}

/// Keys of a list of entries.
pub open spec fn entry_ids(v: Seq<BackendEntry>) -> Seq<Seq<char>> {
    v.map_values(|e: BackendEntry| entry_id(e))
}

/// Some entry of `v` has routing key `id`.
pub open spec fn has_id(v: Seq<BackendEntry>, id: Seq<char>) -> bool {
    exists|i: int| 0 <= i < v.len() && entry_id(#[trigger] v[i]) == id
}

/// The loaded entries followed by each initial entry whose key is not there yet.
pub open spec fn fill_missing(loaded: Seq<BackendEntry>, initial: Seq<BackendEntry>) -> Seq<BackendEntry>
    decreases initial.len(),
{
    if initial.len() == 0 {
        loaded
    } else {
        let before = fill_missing(loaded, initial.drop_last());
        if has_id(before, entry_id(initial.last())) {
            before
        } else {
            before.push(initial.last())
        }
    }
}

/// The entries without key `id`, in order.
pub open spec fn without_id(v: Seq<BackendEntry>, id: Seq<char>) -> Seq<BackendEntry>
    decreases v.len(),
{
    if v.len() == 0 {
        v
    } else {
        let rest = without_id(v.drop_last(), id);
        if entry_id(v.last()) == id {
            rest
        } else {
            rest.push(v.last())
        }
    }
}

/// First position of key `id`.
pub open spec fn first_with_id(v: Seq<BackendEntry>, id: Seq<char>, i: int) -> bool {
    0 <= i < v.len() && entry_id(v[i]) == id && forall|j: int| 0 <= j < i ==> entry_id(#[trigger] v[j]) != id
}

/// No two entries share a routing key.
pub open spec fn ids_distinct(v: Seq<BackendEntry>) -> bool {
    forall|i: int, j: int| 0 <= i < j < v.len() ==> entry_id(#[trigger] v[i]) != entry_id(#[trigger] v[j])
}

/// `w` is `v` after upserting `e`: the first entry with `e`'s key is
/// replaced, or `e` is appended when no entry has that key.
pub open spec fn upserted(v: Seq<BackendEntry>, e: BackendEntry, w: Seq<BackendEntry>) -> bool {
    &&& has_id(v, entry_id(e)) ==> exists|i: int| first_with_id(v, entry_id(e), i) && w == v.update(i, e)
    &&& !has_id(v, entry_id(e)) ==> w == v.push(e)
}

/// Two entries hold the same values.
pub open spec fn same_entry(a: BackendEntry, b: BackendEntry) -> bool {
    &&& a.provider@ == b.provider@
    &&& opt_view(a.id) == opt_view(b.id)
    &&& opt_view(a.api_key) == opt_view(b.api_key)
    &&& opt_view(a.api_key_env) == opt_view(b.api_key_env)
    &&& opt_view(a.model) == opt_view(b.model)
    &&& strings_view(a.models@) == strings_view(b.models@)
    &&& opt_view(a.base_url) == opt_view(b.base_url)
}

/// `r` lists the entries of `v` in the order `p`.
pub open spec fn listed_in(v: Seq<BackendEntry>, r: Seq<BackendEntry>, p: Seq<usize>) -> bool {
    &&& is_stable_order_str(entry_ids(v), p)
    &&& r.len() == p.len()
    &&& forall|i: int| 0 <= i < r.len() ==> same_entry(#[trigger] r[i], v[p[i] as int])
}

fn clone_opt(s: &Option<String>) -> (r: Option<String>)
    ensures
        opt_view(r) == opt_view(*s),
{
    match s {
        Some(x) => Some(x.clone()),
        None => None,
    }
}

/// A copy of an entry.
pub fn duplicate_entry(e: &BackendEntry) -> (r: BackendEntry)
    ensures
        same_entry(r, *e),
        entry_id(r) == entry_id(*e),
{
    BackendEntry {
        provider: e.provider.clone(),
        id: clone_opt(&e.id),
        api_key: clone_opt(&e.api_key),
        api_key_env: clone_opt(&e.api_key_env),
        model: clone_opt(&e.model),
        models: clone_strings(&e.models),
        base_url: clone_opt(&e.base_url),
    }
}

/// Backend store: file path and entries (kept in memory; the caller saves).
pub struct BackendStore {
    path: String,
    entries: Vec<BackendEntry>,
}

impl BackendStore {
    /// The stored entries, in insertion order.
    pub closed spec fn entries_view(&self) -> Seq<BackendEntry> {
        self.entries@
    }

    pub closed spec fn path_view(&self) -> Seq<char> {
        self.path@
    }

    /// Opens the store from the entries read from `path`; `initial` entries
    /// (from the command line or environment) only fill in keys not present.
    pub fn new(path: String, loaded: Vec<BackendEntry>, initial: Vec<BackendEntry>) -> (s: Self)
        ensures
            s.path_view() == path@,
            s.entries_view() == fill_missing(loaded@, initial@),
    {
        let mut entries = loaded;
        let ghost lv = entries@;
        let ghost all = initial@;
        let mut rest = initial;
        let mut k: usize = 0;
        assert(all.take(0) =~= Seq::<BackendEntry>::empty());
        assert(rest@ =~= all.skip(0));
        assert(all.len() == rest.len());
        while rest.len() > 0
            invariant
                k <= all.len(),
                rest@ == all.skip(k as int),
                rest@.len() + k == all.len(),
                all.len() <= usize::MAX,
                entries@ == fill_missing(lv, all.take(k as int)),
            decreases rest.len(),
        {
            assert(all.take(k + 1).drop_last() =~= all.take(k as int));
            let e = rest.remove(0);
            assert(e == all[k as int]);
            assert(rest@ =~= all.skip(k + 1));
            let id = e.backend_id();
            if !Self::contains_id(&entries, id.as_str()) {
                entries.push(e);
            }
            k = k + 1;
        }
        assert(all.take(all.len() as int) =~= all);
        BackendStore { path, entries }
    }

    fn contains_id(v: &Vec<BackendEntry>, id: &str) -> (r: bool)
        ensures
            r == has_id(v@, id@),
    {
        Self::position(v, id).is_some()
    }

    fn position(v: &Vec<BackendEntry>, id: &str) -> (r: Option<usize>)
        ensures
            r matches Some(i) ==> first_with_id(v@, id@, i as int),
            r is None ==> !has_id(v@, id@),
    {
        let mut i: usize = 0;
        while i < v.len()
            invariant
                i <= v.len(),
                forall|j: int| 0 <= j < i ==> entry_id(#[trigger] v@[j]) != id@,
            decreases v.len() - i,
        {
            let bid = v[i].backend_id();
            if str_eq(bid.as_str(), id) {
                return Some(i);
            }
            i = i + 1;
        }
        None
    }

    /// All entries, by ascending key (entries with equal keys keep their order).
    pub fn list(&self) -> (r: Vec<BackendEntry>)
        ensures
            exists|p: Seq<usize>| #[trigger] listed_in(self.entries_view(), r@, p),
    {
        let mut keys: Vec<Vec<char>> = Vec::new();
        let mut i: usize = 0;
        while i < self.entries.len()
            invariant
                i <= self.entries.len(),
                keys@.len() == i,
                forall|j: int| 0 <= j < i ==> #[trigger] keys@[j]@ == entry_id(self.entries@[j]),
            decreases self.entries.len() - i,
        {
            let id = self.entries[i].backend_id();
            keys.push(chars_of(id.as_str()));
            i = i + 1;
        }
        assert(keys@.map_values(|k: Vec<char>| k@) =~= entry_ids(self.entries@));
        let p = stable_order_str(&keys);
        let mut r: Vec<BackendEntry> = Vec::new();
        let mut a: usize = 0;
        while a < p.len()
            invariant
                is_stable_order_str(entry_ids(self.entries@), p@),
                a <= p.len(),
                r@.len() == a,
                forall|b: int| 0 <= b < a ==> same_entry(#[trigger] r@[b], self.entries@[p@[b] as int]),
            decreases p.len() - a,
        {
            r.push(duplicate_entry(&self.entries[p[a]]));
            a = a + 1;
        }
        assert(listed_in(self.entries_view(), r@, p@));
        r
    }

    /// Adds an entry, or replaces the first one with the same key (nothing is saved).
    pub fn upsert(&mut self, e: BackendEntry)
        ensures
            final(self).path_view() == old(self).path_view(),
            upserted(old(self).entries_view(), e, final(self).entries_view()),
    {
        let id = e.backend_id();
        match Self::position(&self.entries, id.as_str()) {
            Some(i) => {
                self.entries.set(i, e);
            },
            None => {
                self.entries.push(e);
            },
        }
    }

    /// Deletes the entries with key `id`; tells whether there was one.
    pub fn remove(&mut self, id: &str) -> (r: bool)
        ensures
            final(self).path_view() == old(self).path_view(),
            final(self).entries_view() == without_id(old(self).entries_view(), id@),
            r == has_id(old(self).entries_view(), id@),
    {
        let ghost old_v = self.entries@;
        let mut out: Vec<BackendEntry> = Vec::new();
        let mut rest: Vec<BackendEntry> = Vec::new();
        std::mem::swap(&mut rest, &mut self.entries);
        assert(rest@ == old_v);
        let mut k: usize = 0;
        let mut hit = false;
        assert(old_v.take(0) =~= Seq::<BackendEntry>::empty());
        assert(rest@ =~= old_v.skip(0));
        assert(old_v.len() == rest.len());
        while rest.len() > 0
            invariant
                k <= old_v.len(),
                old_v.len() <= usize::MAX,
                rest@.len() + k == old_v.len(),
                rest@ == old_v.skip(k as int),
                out@ == without_id(old_v.take(k as int), id@),
                hit == has_id(old_v.take(k as int), id@),
            decreases rest.len(),
        {
            assert(old_v.take(k + 1).drop_last() =~= old_v.take(k as int));
            let e = rest.remove(0);
            assert(e == old_v[k as int]);
            assert(rest@ =~= old_v.skip(k + 1));
            let eid = e.backend_id();
            proof {
                if has_id(old_v.take(k as int), id@) {
                    let j = choose|j: int| 0 <= j < old_v.take(k as int).len() && entry_id(#[trigger] old_v.take(k as int)[j]) == id@;
                    assert(old_v.take(k + 1)[j] == old_v.take(k as int)[j]);
                }
                if has_id(old_v.take(k + 1), id@) && !has_id(old_v.take(k as int), id@) {
                    let j = choose|j: int| 0 <= j < old_v.take(k + 1).len() && entry_id(#[trigger] old_v.take(k + 1)[j]) == id@;
                    if j < k {
                        assert(old_v.take(k as int)[j] == old_v.take(k + 1)[j]);
                    }
                }
                if entry_id(e) == id@ {
                    assert(old_v.take(k + 1)[k as int] == e);
                }
            }
            if str_eq(eid.as_str(), id) {
                hit = true;
            } else {
                out.push(e);
            }
            k = k + 1;
        }
        assert(old_v.take(old_v.len() as int) =~= old_v);
        self.entries = out;
        hit
    }

    /// The path of the configuration file.
    pub fn path(&self) -> (p: &str)
        ensures
            p@ == self.path_view(),
    {
        self.path.as_str()
    }
}

/// Filling in the initial entries never makes two entries share a key, and
/// every loaded entry stays where it was.
pub proof fn law_fill_missing_keeps_ids_distinct(loaded: Seq<BackendEntry>, initial: Seq<BackendEntry>)
    requires
        ids_distinct(loaded),
    ensures
        ids_distinct(fill_missing(loaded, initial)),
        fill_missing(loaded, initial).len() >= loaded.len(),
        forall|i: int| 0 <= i < loaded.len() ==> #[trigger] fill_missing(loaded, initial)[i] == loaded[i],
    decreases initial.len(),
{
    if initial.len() > 0 {
        let before = fill_missing(loaded, initial.drop_last());
        law_fill_missing_keeps_ids_distinct(loaded, initial.drop_last());
        let e = initial.last();
        if !has_id(before, entry_id(e)) {
            let w = before.push(e);
            assert forall|a: int, b: int| 0 <= a < b < w.len() implies entry_id(#[trigger] w[a]) != entry_id(#[trigger] w[b]) by {
                if b == before.len() {
                    assert(w[a] == before[a]);
                }
            }
            assert forall|i: int| 0 <= i < loaded.len() implies #[trigger] w[i] == loaded[i] by {
                assert(w[i] == before[i]);
            }
        }
    }
}

/// Upserting keeps the count when the key was there and adds one when it
/// was not; afterwards the key is present.
pub proof fn law_upsert_count(v: Seq<BackendEntry>, e: BackendEntry, w: Seq<BackendEntry>)
    requires
        upserted(v, e, w),
    ensures
        w.len() == (if has_id(v, entry_id(e)) { v.len() } else { v.len() + 1 }),
        has_id(w, entry_id(e)),
{
    if has_id(v, entry_id(e)) {
        let i = choose|i: int| first_with_id(v, entry_id(e), i) && w == v.update(i, e);
        assert(w[i] == e);
    } else {
        assert(w[v.len() as int] == e);
    }
}

/// Upserting never makes two entries share a key.
pub proof fn law_upsert_keeps_ids_distinct(v: Seq<BackendEntry>, e: BackendEntry, w: Seq<BackendEntry>)
    requires
        upserted(v, e, w),
        ids_distinct(v),
    ensures
        ids_distinct(w),
{
    if has_id(v, entry_id(e)) {
        let i = choose|i: int| first_with_id(v, entry_id(e), i) && w == v.update(i, e);
        assert forall|a: int, b: int| 0 <= a < b < w.len() implies entry_id(#[trigger] w[a]) != entry_id(#[trigger] w[b]) by {
            if a == i {
                assert(entry_id(v[i]) != entry_id(v[b]));
            } else if b == i {
                assert(entry_id(v[a]) != entry_id(v[i]));
            }
        }
    } else {
        assert forall|a: int, b: int| 0 <= a < b < w.len() implies entry_id(#[trigger] w[a]) != entry_id(#[trigger] w[b]) by {
            if b == v.len() {
                assert(w[a] == v[a]);
            }
        }
    }
}

/// Removing a key leaves no entry with it and keeps the other entries in
/// order; with distinct keys exactly one entry goes when the key was there.
pub proof fn law_remove_drops_key(v: Seq<BackendEntry>, id: Seq<char>)
    ensures
        !has_id(without_id(v, id), id),
        ids_distinct(v) ==> ids_distinct(without_id(v, id)),
        ids_distinct(v) ==> without_id(v, id).len() == (if has_id(v, id) { v.len() - 1 } else { v.len() as int }),
    decreases v.len(),
{
    if v.len() > 0 {
        let t = v.drop_last();
        law_remove_drops_key(t, id);
        lemma_without_id_members(t, id);
        let rest = without_id(t, id);
        if has_id(without_id(v, id), id) {
            let j = choose|j: int| 0 <= j < without_id(v, id).len() && entry_id(#[trigger] without_id(v, id)[j]) == id;
            if entry_id(v.last()) != id && j == rest.len() {
            } else {
                assert(rest[j] == without_id(v, id)[j]);
            }
        }
        if ids_distinct(v) {
            assert(ids_distinct(t));
            if entry_id(v.last()) != id {
                assert forall|a: int, b: int| 0 <= a < b < without_id(v, id).len() implies entry_id(#[trigger] without_id(v, id)[a]) != entry_id(#[trigger] without_id(v, id)[b]) by {
                    if b == rest.len() {
                        let k = choose|k: int| 0 <= k < t.len() && t[k] == rest[a];
                        assert(entry_id(v[k]) != entry_id(v[v.len() - 1]));
                    } else {
                        assert(without_id(v, id)[a] == rest[a]);
                    }
                }
                if has_id(v, id) {
                    let k = choose|k: int| 0 <= k < v.len() && entry_id(#[trigger] v[k]) == id;
                    assert(k < t.len());
                    assert(t[k] == v[k]);
                } else {
                    assert forall|k: int| 0 <= k < t.len() implies entry_id(#[trigger] t[k]) != id by {
                        assert(t[k] == v[k]);
                    }
                }
            } else {
                assert(has_id(v, id)) by {
                    assert(entry_id(v[v.len() - 1]) == id);
                }
                assert forall|k: int| 0 <= k < t.len() implies entry_id(#[trigger] t[k]) != id by {
                    assert(entry_id(v[k]) != entry_id(v[v.len() - 1]));
                }
            }
        }
    }
}

/// Every entry left after removing a key was an entry before.
proof fn lemma_without_id_members(v: Seq<BackendEntry>, id: Seq<char>)
    ensures
        forall|a: int| 0 <= a < without_id(v, id).len() ==> exists|k: int| 0 <= k < v.len() && v[k] == #[trigger] without_id(v, id)[a],
    decreases v.len(),
{
    if v.len() > 0 {
        let t = v.drop_last();
        lemma_without_id_members(t, id);
        let rest = without_id(t, id);
        assert forall|a: int| 0 <= a < without_id(v, id).len() implies exists|k: int| 0 <= k < v.len() && v[k] == #[trigger] without_id(v, id)[a] by {
            if a < rest.len() {
                assert(without_id(v, id)[a] == rest[a]);
                let k = choose|k: int| 0 <= k < t.len() && t[k] == #[trigger] rest[a];
                assert(v[k] == t[k]);
            } else {
                assert(v[v.len() - 1] == without_id(v, id)[a]);
            }
        }
    }
}

/// With distinct keys, the listing is in strictly ascending key order.
pub proof fn law_list_strictly_ascending(v: Seq<BackendEntry>, r: Seq<BackendEntry>, p: Seq<usize>)
    requires
        listed_in(v, r, p),
        ids_distinct(v),
    ensures
        forall|a: int, b: int| 0 <= a < b < r.len() ==> seq_lt(entry_id(#[trigger] r[a]), entry_id(#[trigger] r[b])),
{
    assert forall|a: int, b: int| 0 <= a < b < r.len() implies seq_lt(entry_id(#[trigger] r[a]), entry_id(#[trigger] r[b])) by {
        let x = p[a] as int;
        let y = p[b] as int;
        assert(same_entry(r[a], v[x]));
        assert(same_entry(r[b], v[y]));
        assert(crate::sort::before_str(entry_ids(v), x, y));
        assert(x != y);
        if x < y {
            assert(entry_id(v[x]) != entry_id(v[y]));
        } else {
            assert(entry_id(v[y]) != entry_id(v[x]));
        }
    }
}

} // verus!
