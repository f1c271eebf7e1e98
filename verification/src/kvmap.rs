//! Finite maps kept as sequences of key/value pairs with distinct keys.
use vstd::prelude::*;

verus! {

/// The map that a sequence of pairs describes (a later pair wins over an earlier one).
pub open spec fn map_of<K, V>(s: Seq<(K, V)>) -> Map<K, V>
    decreases s.len(),
{
    if s.len() == 0 {
        Map::empty()
    } else {
        map_of(s.drop_last()).insert(s.last().0, s.last().1)
    }
}

/// No key occurs twice.
pub open spec fn keys_distinct<K, V>(s: Seq<(K, V)>) -> bool {
    forall|a: int, b: int| 0 <= a < b < s.len() ==> s[a].0 != s[b].0
}

/// The position of key `k`, when it occurs.
pub open spec fn key_at<K, V>(s: Seq<(K, V)>, k: K, i: int) -> bool {
    0 <= i < s.len() && s[i].0 == k
}

/// A key is in the map exactly when some pair carries it.
pub proof fn lemma_map_of_dom<K, V>(s: Seq<(K, V)>, k: K)
    ensures
        map_of(s).contains_key(k) <==> exists|i: int| key_at(s, k, i),
    decreases s.len(),
{
    if s.len() > 0 {
        let t = s.drop_last();
        lemma_map_of_dom(t, k);
        if s.last().0 == k {
            assert(key_at(s, k, s.len() - 1));
        }
        if exists|i: int| key_at(t, k, i) {
            let i = choose|i: int| key_at(t, k, i);
            assert(key_at(s, k, i));
        }
        if exists|i: int| key_at(s, k, i) {
            let i = choose|i: int| key_at(s, k, i);
            if i < s.len() - 1 {
                assert(key_at(t, k, i));
            }
        }
    }
}

/// With distinct keys, the map gives each pair's value at its key.
pub proof fn lemma_map_of_value<K, V>(s: Seq<(K, V)>, i: int)
    requires
        keys_distinct(s),
        0 <= i < s.len(),
    ensures
        map_of(s).contains_key(s[i].0),
        map_of(s)[s[i].0] == s[i].1,
    decreases s.len(),
{
    let t = s.drop_last();
    if i < s.len() - 1 {
        assert(keys_distinct(t));
        lemma_map_of_value(t, i);
        assert(s[i].0 != s.last().0);
    }
}

/// A key that no pair carries is not in the map.
pub proof fn lemma_map_of_absent<K, V>(s: Seq<(K, V)>, k: K)
    requires
        forall|i: int| 0 <= i < s.len() ==> s[i].0 != k,
    ensures
        !map_of(s).contains_key(k),
{
    lemma_map_of_dom(s, k);
}

/// Appending a pair with a new key inserts it.
pub proof fn lemma_map_of_push<K, V>(s: Seq<(K, V)>, k: K, v: V)
    ensures
        map_of(s.push((k, v))) == map_of(s).insert(k, v),
{
    assert(s.push((k, v)).drop_last() =~= s);
}

/// Replacing the value of the pair at `i` updates the map at its key.
pub proof fn lemma_map_of_update<K, V>(s: Seq<(K, V)>, i: int, v: V)
    requires
        keys_distinct(s),
        0 <= i < s.len(),
    ensures
        map_of(s.update(i, (s[i].0, v))) == map_of(s).insert(s[i].0, v),
        keys_distinct(s.update(i, (s[i].0, v))),
{
    let u = s.update(i, (s[i].0, v));
    let k = s[i].0;
    assert forall|x: K| #[trigger] map_of(u).contains_key(x) <==> map_of(s).insert(k, v).contains_key(x) by {
        lemma_map_of_dom(u, x);
        lemma_map_of_dom(s, x);
        assert(key_at(u, k, i));
        if exists|j: int| key_at(s, x, j) {
            let j = choose|j: int| key_at(s, x, j);
            assert(key_at(u, x, j));
        }
        if exists|j: int| key_at(u, x, j) {
            let j = choose|j: int| key_at(u, x, j);
            assert(key_at(s, x, j));
        }
    }
    assert forall|x: K| #[trigger] map_of(u).contains_key(x) implies map_of(u)[x] == map_of(s).insert(k, v)[x] by {
        lemma_map_of_dom(u, x);
        let j = choose|j: int| key_at(u, x, j);
        lemma_map_of_value(u, j);
        if j != i {
            lemma_map_of_value(s, j);
        }
    }
    assert(map_of(u) =~= map_of(s).insert(k, v));
}

/// Removing the pair at `i` removes its key.
pub proof fn lemma_map_of_remove<K, V>(s: Seq<(K, V)>, i: int)
    requires
        keys_distinct(s),
        0 <= i < s.len(),
    ensures
        map_of(s.remove(i)) == map_of(s).remove(s[i].0),
        keys_distinct(s.remove(i)),
{
    let u = s.remove(i);
    let k = s[i].0;
    assert(keys_distinct(u)) by {
        assert forall|a: int, b: int| 0 <= a < b < u.len() implies u[a].0 != u[b].0 by {
            let a2 = if a < i { a } else { a + 1 };
            let b2 = if b < i { b } else { b + 1 };
            assert(u[a] == s[a2] && u[b] == s[b2]);
        }
    }
    assert forall|x: K| #[trigger] map_of(u).contains_key(x) <==> map_of(s).remove(k).contains_key(x) by {
        lemma_map_of_dom(u, x);
        lemma_map_of_dom(s, x);
        if exists|j: int| key_at(s, x, j) && x != k {
            let j = choose|j: int| key_at(s, x, j);
            if j < i {
                assert(key_at(u, x, j));
            } else {
                assert(key_at(u, x, j - 1));
            }
        }
        if exists|j: int| key_at(u, x, j) {
            let j = choose|j: int| key_at(u, x, j);
            let j2 = if j < i { j } else { j + 1 };
            assert(key_at(s, x, j2));
        }
    }
    assert forall|x: K| #[trigger] map_of(u).contains_key(x) implies map_of(u)[x] == map_of(s).remove(k)[x] by {
        lemma_map_of_dom(u, x);
        let j = choose|j: int| key_at(u, x, j);
        lemma_map_of_value(u, j);
        let j2 = if j < i { j } else { j + 1 };
        assert(u[j] == s[j2]);
        lemma_map_of_value(s, j2);
    }
    assert(map_of(u) =~= map_of(s).remove(k));
}

/// Pushing a pair whose key is new keeps keys distinct.
pub proof fn lemma_keys_distinct_push<K, V>(s: Seq<(K, V)>, k: K, v: V)
    requires
        keys_distinct(s),
        forall|i: int| 0 <= i < s.len() ==> s[i].0 != k,
    ensures
        keys_distinct(s.push((k, v))),
{
    let u = s.push((k, v));
    assert forall|a: int, b: int| 0 <= a < b < u.len() implies u[a].0 != u[b].0 by {
        if b == s.len() {
            assert(u[a] == s[a]);
        } else {
            assert(u[a] == s[a] && u[b] == s[b]);
        }
    }
}

} // verus!

verus! {

/// With distinct keys the map has as many keys as there are pairs.
pub proof fn lemma_map_of_len<K, V>(s: Seq<(K, V)>)
    requires
        keys_distinct(s),
    ensures
        map_of(s).dom().finite(),
        map_of(s).len() == s.len(),
    decreases s.len(),
{
    if s.len() > 0 {
        let t = s.drop_last();
        assert(keys_distinct(t));
        lemma_map_of_len(t);
        lemma_map_of_dom(t, s.last().0);
        if map_of(t).contains_key(s.last().0) {
            let i = choose|i: int| key_at(t, s.last().0, i);
            assert(s[i].0 == s[s.len() - 1].0);
        }
        assert(map_of(s).dom() =~= map_of(t).dom().insert(s.last().0));
    }
}

} // verus!

verus! {

/// Pairs keyed by the character sequence of a `String` key.
pub open spec fn string_pairs<V>(v: Seq<(String, V)>) -> Seq<(Seq<char>, V)> {
    v.map_values(|e: (String, V)| (e.0@, e.1))
}

/// Position of key `k`, if present.
pub fn find_key<V>(v: &Vec<(String, V)>, k: &str) -> (r: Option<usize>)
    ensures
        r matches Some(i) ==> i < v.len() && v@[i as int].0@ == k@,
        r matches Some(i) ==> forall|j: int| 0 <= j < i ==> v@[j].0@ != k@,
        r is None ==> forall|i: int| 0 <= i < v.len() ==> v@[i].0@ != k@,
{
    let mut i: usize = 0;
    while i < v.len()
        invariant
            i <= v.len(),
            forall|j: int| 0 <= j < i ==> v@[j].0@ != k@,
        decreases v.len() - i,
    {
        if crate::text::str_eq(v[i].0.as_str(), k) {
            return Some(i);
        }
        i = i + 1;
    }
    None
}

/// Looking a key up in a string-keyed pair list.
pub proof fn lemma_string_pairs_lookup<V>(v: Seq<(String, V)>, k: Seq<char>, r: Option<usize>)
    requires
        keys_distinct(string_pairs(v)),
        r matches Some(i) ==> i < v.len() && v[i as int].0@ == k,
        r is None ==> forall|i: int| 0 <= i < v.len() ==> v[i].0@ != k,
    ensures
        map_of(string_pairs(v)).contains_key(k) == (r is Some),
        r matches Some(i) ==> map_of(string_pairs(v))[k] == v[i as int].1,
{
    match r {
        Some(i) => {
            lemma_map_of_value(string_pairs(v), i as int);
        },
        None => {
            lemma_map_of_absent(string_pairs(v), k);
        },
    }
}

} // verus!

verus! {

/// The map a string-keyed pair list stands for.
pub open spec fn smap<V>(v: Seq<(String, V)>) -> Map<Seq<char>, V> {
    map_of(string_pairs(v))
}

/// The pair list has distinct keys.
pub open spec fn swf<V>(v: Seq<(String, V)>) -> bool {
    keys_distinct(string_pairs(v))
}

/// Sets the value of key `k`.
pub fn put<V>(v: &mut Vec<(String, V)>, k: String, val: V)
    requires
        swf(old(v)@),
    ensures
        swf(final(v)@),
        smap(final(v)@) == smap(old(v)@).insert(k@, val),
{
    let ghost ps = string_pairs(v@);
    match find_key(v, k.as_str()) {
        Some(i) => {
            let ghost kv = k@;
            v.set(i, (k, val));
            proof {
                assert(string_pairs(v@) =~= ps.update(i as int, (ps[i as int].0, val)));
                lemma_map_of_update(ps, i as int, val);
            }
        },
        None => {
            let ghost kv = k@;
            v.push((k, val));
            proof {
                assert(string_pairs(v@) =~= ps.push((kv, val)));
                lemma_keys_distinct_push(ps, kv, val);
                lemma_map_of_push(ps, kv, val);
            }
        },
    }
}

/// Removes key `k`, handing back its value if it was present.
pub fn take_key<V>(v: &mut Vec<(String, V)>, k: &str) -> (r: Option<V>)
    requires
        swf(old(v)@),
    ensures
        swf(final(v)@),
        smap(final(v)@) == smap(old(v)@).remove(k@),
        r is Some == smap(old(v)@).contains_key(k@),
        r matches Some(x) ==> x == smap(old(v)@)[k@],
{
    let ghost ps = string_pairs(v@);
    let found = find_key(v, k);
    proof {
        lemma_string_pairs_lookup(v@, k@, found);
    }
    match found {
        Some(i) => {
            let (_, x) = v.remove(i);
            proof {
                assert(string_pairs(v@) =~= ps.remove(i as int));
                lemma_map_of_remove(ps, i as int);
            }
            Some(x)
        },
        None => {
            proof {
                assert(smap(v@) =~= smap(v@).remove(k@));
            }
            None
        },
    }
}

/// The value of key `k`, if present.
pub fn get_key<'a, V>(v: &'a Vec<(String, V)>, k: &str) -> (r: Option<&'a V>)
    requires
        swf(v@),
    ensures
        r is Some == smap(v@).contains_key(k@),
        r matches Some(x) ==> *x == smap(v@)[k@],
{
    let found = find_key(v, k);
    proof {
        lemma_string_pairs_lookup(v@, k@, found);
    }
    match found {
        Some(i) => Some(&v[i].1),
        None => None,
    }
}

/// Number of keys.
pub proof fn lemma_smap_len<V>(v: Seq<(String, V)>)
    requires
        swf(v),
    ensures
        smap(v).dom().finite(),
        smap(v).len() == v.len(),
{
    lemma_map_of_len(string_pairs(v));
}

} // verus!

verus! {

/// Positions of the pairs in strictly ascending key order.
pub fn key_order<V>(v: &Vec<(String, V)>) -> (p: Vec<usize>)
    requires
        swf(v@),
    ensures
        crate::sort::is_index_perm(p@, v.len() as nat),
        forall|a: int, b: int|
            0 <= a < b < p.len() ==> crate::text::seq_lt(
                #[trigger] v@[p@[a] as int].0@,
                #[trigger] v@[p@[b] as int].0@,
            ),
{
    let mut keys: Vec<Vec<char>> = Vec::new();
    let mut i: usize = 0;
    while i < v.len()
        invariant
            i <= v.len(),
            keys@.len() == i,
            forall|j: int| 0 <= j < i ==> #[trigger] keys@[j]@ == v@[j].0@,
        decreases v.len() - i,
    {
        keys.push(crate::text::chars_of(v[i].0.as_str()));
        i = i + 1;
    }
    let ghost ks = keys@.map_values(|k: Vec<char>| k@);
    let p = crate::sort::stable_order_str(&keys);
    proof {
        assert forall|a: int, b: int| 0 <= a < b < p.len() implies crate::text::seq_lt(
            #[trigger] v@[p@[a] as int].0@,
            #[trigger] v@[p@[b] as int].0@,
        ) by {
            let x = p@[a] as int;
            let y = p@[b] as int;
            assert(crate::sort::before_str(ks, x, y));
            assert(ks[x] == v@[x].0@ && ks[y] == v@[y].0@);
            assert(string_pairs(v@)[x].0 == v@[x].0@);
            assert(string_pairs(v@)[y].0 == v@[y].0@);
            if ks[x] == ks[y] {
                if x < y {
                    assert(string_pairs(v@)[x].0 != string_pairs(v@)[y].0);
                } else {
                    assert(string_pairs(v@)[y].0 != string_pairs(v@)[x].0);
                }
            }
        }
    }
    p
}

/// Every key of the map sits at some position of a permutation of the pairs.
pub proof fn lemma_key_order_covers<V>(v: Seq<(String, V)>, p: Seq<usize>, k: Seq<char>)
    requires
        swf(v),
        crate::sort::is_index_perm(p, v.len() as nat),
        smap(v).contains_key(k),
    ensures
        exists|a: int| 0 <= a < p.len() && v[p[a] as int].0@ == k && v[p[a] as int].1 == smap(v)[k],
{
    lemma_map_of_dom(string_pairs(v), k);
    let m = choose|m: int| key_at(string_pairs(v), k, m);
    lemma_map_of_value(string_pairs(v), m);
    assert(crate::sort::occurs_in(p, m));
    let a = choose|a: int| 0 <= a < p.len() && p[a] == m;
    assert(v[p[a] as int].0@ == k);
}

/// The value of each pair is the map's value at its key.
pub proof fn lemma_smap_at<V>(v: Seq<(String, V)>, i: int)
    requires
        swf(v),
        0 <= i < v.len(),
    ensures
        smap(v).contains_key(v[i].0@),
        smap(v)[v[i].0@] == v[i].1,
{
    lemma_map_of_value(string_pairs(v), i);
}

} // verus!

verus! {

/// Transforming every value of a pair list position by position transforms the map.
pub proof fn lemma_map_of_pointwise<K, V, W>(s: Seq<(K, V)>, t: Seq<(K, W)>, f: spec_fn(V) -> W)
    requires
        keys_distinct(s),
        t.len() == s.len(),
        forall|i: int| 0 <= i < s.len() ==> (#[trigger] t[i]).0 == s[i].0 && t[i].1 == f(s[i].1),
    ensures
        keys_distinct(t),
        map_of(t).dom() == map_of(s).dom(),
        forall|k: K| #[trigger] map_of(t).contains_key(k) ==> map_of(t)[k] == f(map_of(s)[k]),
{
    assert(keys_distinct(t)) by {
        assert forall|a: int, b: int| 0 <= a < b < t.len() implies t[a].0 != t[b].0 by {
            assert(t[a].0 == s[a].0 && t[b].0 == s[b].0);
        }
    }
    assert forall|k: K| map_of(t).dom().contains(k) <==> map_of(s).dom().contains(k) by {
        lemma_map_of_dom(s, k);
        lemma_map_of_dom(t, k);
        if exists|i: int| key_at(s, k, i) {
            let i = choose|i: int| key_at(s, k, i);
            assert(key_at(t, k, i));
        }
        if exists|i: int| key_at(t, k, i) {
            let i = choose|i: int| key_at(t, k, i);
            assert(key_at(s, k, i));
        }
    }
    assert(map_of(t).dom() =~= map_of(s).dom());
    assert forall|k: K| #[trigger] map_of(t).contains_key(k) implies map_of(t)[k] == f(map_of(s)[k]) by {
        lemma_map_of_dom(t, k);
        let i = choose|i: int| key_at(t, k, i);
        lemma_map_of_value(t, i);
        lemma_map_of_value(s, i);
    }
}

/// Position-by-position transformation of a string-keyed pair list.
pub proof fn lemma_smap_pointwise<V, W>(s: Seq<(String, V)>, t: Seq<(String, W)>, f: spec_fn(V) -> W)
    requires
        swf(s),
        t.len() == s.len(),
        forall|i: int| 0 <= i < s.len() ==> (#[trigger] t[i]).0@ == s[i].0@ && t[i].1 == f(s[i].1),
    ensures
        swf(t),
        smap(t).dom() == smap(s).dom(),
        forall|k: Seq<char>| #[trigger] smap(t).contains_key(k) ==> smap(t)[k] == f(smap(s)[k]),
{
    assert forall|i: int| 0 <= i < string_pairs(s).len() implies (#[trigger] string_pairs(t)[i]).0 == string_pairs(s)[i].0
        && string_pairs(t)[i].1 == f(string_pairs(s)[i].1) by {
        assert(t[i].0@ == s[i].0@);
    }
    lemma_map_of_pointwise(string_pairs(s), string_pairs(t), f);
}

} // verus!

verus! {

/// The pairs of `s` whose value satisfies `p`, in order.
pub open spec fn keep<K, V>(s: Seq<(K, V)>, p: spec_fn(V) -> bool) -> Seq<(K, V)>
    decreases s.len(),
{
    if s.len() == 0 {
        Seq::empty()
    } else {
        let rest = keep(s.drop_last(), p);
        if p(s.last().1) {
            rest.push(s.last())
        } else {
            rest
        }
    }
}

/// Every kept pair is a pair of `s`.
pub proof fn lemma_keep_from<K, V>(s: Seq<(K, V)>, p: spec_fn(V) -> bool, a: int)
    requires
        0 <= a < keep(s, p).len(),
    ensures
        exists|i: int| 0 <= i < s.len() && s[i] == keep(s, p)[a] && p(s[i].1),
    decreases s.len(),
{
    let rest = keep(s.drop_last(), p);
    if p(s.last().1) && a == rest.len() {
        assert(s[s.len() - 1] == keep(s, p)[a]);
    } else {
        lemma_keep_from(s.drop_last(), p, a);
        let i = choose|i: int| 0 <= i < s.drop_last().len() && s.drop_last()[i] == rest[a] && p(s.drop_last()[i].1);
        assert(s[i] == keep(s, p)[a]);
    }
}

/// Every pair of `s` that satisfies `p` is kept.
pub proof fn lemma_keep_has<K, V>(s: Seq<(K, V)>, p: spec_fn(V) -> bool, i: int)
    requires
        0 <= i < s.len(),
        p(s[i].1),
    ensures
        exists|a: int| 0 <= a < keep(s, p).len() && keep(s, p)[a] == s[i],
    decreases s.len(),
{
    let rest = keep(s.drop_last(), p);
    if i == s.len() - 1 {
        assert(keep(s, p)[rest.len() as int] == s[i]);
    } else {
        lemma_keep_has(s.drop_last(), p, i);
        let a = choose|a: int| 0 <= a < rest.len() && rest[a] == s.drop_last()[i];
        assert(keep(s, p)[a] == s[i]);
    }
}

/// Keeping pairs keeps keys distinct, and the map of the kept pairs is the
/// map restricted to the entries whose value satisfies `p`.
pub proof fn lemma_map_of_keep<K, V>(s: Seq<(K, V)>, p: spec_fn(V) -> bool)
    requires
        keys_distinct(s),
    ensures
        keys_distinct(keep(s, p)),
        forall|k: K| #[trigger] map_of(keep(s, p)).contains_key(k) <==> (map_of(s).contains_key(k) && p(map_of(s)[k])),
        forall|k: K| #[trigger] map_of(keep(s, p)).contains_key(k) ==> map_of(keep(s, p))[k] == map_of(s)[k],
    decreases s.len(),
{
    let t = keep(s, p);
    assert(keys_distinct(t)) by {
        assert forall|a: int, b: int| 0 <= a < b < t.len() implies t[a].0 != t[b].0 by {
            lemma_keep_order(s, p, a, b);
        }
    }
    assert forall|k: K| #[trigger] map_of(t).contains_key(k) <==> (map_of(s).contains_key(k) && p(map_of(s)[k])) by {
        lemma_map_of_dom(t, k);
        lemma_map_of_dom(s, k);
        if map_of(t).contains_key(k) {
            let a = choose|a: int| key_at(t, k, a);
            lemma_keep_from(s, p, a);
            let i = choose|i: int| 0 <= i < s.len() && s[i] == t[a] && p(s[i].1);
            lemma_map_of_value(s, i);
        }
        if map_of(s).contains_key(k) && p(map_of(s)[k]) {
            let i = choose|i: int| key_at(s, k, i);
            lemma_map_of_value(s, i);
            lemma_keep_has(s, p, i);
            let a = choose|a: int| 0 <= a < t.len() && t[a] == s[i];
            assert(key_at(t, k, a));
        }
    }
    assert forall|k: K| #[trigger] map_of(t).contains_key(k) implies map_of(t)[k] == map_of(s)[k] by {
        lemma_map_of_dom(t, k);
        let a = choose|a: int| key_at(t, k, a);
        lemma_map_of_value(t, a);
        lemma_keep_from(s, p, a);
        let i = choose|i: int| 0 <= i < s.len() && s[i] == t[a] && p(s[i].1);
        lemma_map_of_value(s, i);
    }
}

/// Kept pairs keep their relative order.
pub proof fn lemma_keep_order<K, V>(s: Seq<(K, V)>, p: spec_fn(V) -> bool, a: int, b: int)
    requires
        keys_distinct(s),
        0 <= a < b < keep(s, p).len(),
    ensures
        keep(s, p)[a].0 != keep(s, p)[b].0,
    decreases s.len(),
{
    let rest = keep(s.drop_last(), p);
    assert(keys_distinct(s.drop_last()));
    if p(s.last().1) && b == rest.len() {
        lemma_keep_from(s.drop_last(), p, a);
        let i = choose|i: int| 0 <= i < s.drop_last().len() && s.drop_last()[i] == rest[a] && p(s.drop_last()[i].1);
        assert(s[i].0 != s[s.len() - 1].0);
    } else {
        lemma_keep_order(s.drop_last(), p, a, b);
    }
}

/// Keeps the pairs whose value satisfies the predicate (string keys).
pub proof fn lemma_smap_keep<V>(s: Seq<(String, V)>, p: spec_fn(V) -> bool)
    requires
        swf(s),
    ensures
        swf(keep(s, p)),
        forall|k: Seq<char>| #[trigger] smap(keep(s, p)).contains_key(k) <==> (smap(s).contains_key(k) && p(smap(s)[k])),
        forall|k: Seq<char>| #[trigger] smap(keep(s, p)).contains_key(k) ==> smap(keep(s, p))[k] == smap(s)[k],
{
    lemma_string_pairs_keep(s, p);
    lemma_map_of_keep(string_pairs(s), p);
}

/// Keeping commutes with viewing the keys.
pub proof fn lemma_string_pairs_keep<V>(s: Seq<(String, V)>, p: spec_fn(V) -> bool)
    ensures
        string_pairs(keep(s, p)) == keep(string_pairs(s), p),
    decreases s.len(),
{
    if s.len() > 0 {
        lemma_string_pairs_keep(s.drop_last(), p);
        assert(string_pairs(s).drop_last() =~= string_pairs(s.drop_last()));
        if p(s.last().1) {
            assert(string_pairs(keep(s, p)) =~= string_pairs(keep(s.drop_last(), p)).push((s.last().0@, s.last().1)));
        }
    } else {
        assert(string_pairs(keep(s, p)) =~= keep(string_pairs(s), p));
    }
}

} // verus!
