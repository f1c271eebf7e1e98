//! Module assembly: the module table, the boot order (dependencies first) and
//! what each module's outcome makes of a boot.
use vstd::prelude::*;
use crate::error::RuntimeError;
use crate::kvmap::{get_key, lemma_smap_at, lemma_smap_len, put, smap, swf};
use crate::text::{concat, str_eq};
use crate::events::Host;
use crate::json::{jarr, jget, lemma_view_items, view_items, Json, JsonView};
use crate::settings::{deep_merge, merged};

verus! {

/// The text of each string.
pub open spec fn names(v: Seq<String>) -> Seq<Seq<char>> {
    v.map_values(|s: String| s@)
}

/// What assembly reads of a module: its name, the modules it needs first,
/// and whether a failure only skips it.
#[derive(Debug, Clone)]
pub struct ModuleSpec {
    pub name: String,
    pub requires: Vec<String>,
    pub optional: bool,
}

/// The dependencies a module declares.
pub open spec fn deps_of(s: ModuleSpec) -> Seq<Seq<char>> {
    names(s.requires@)
}

/// The modules a boot asks for, as a set.
pub open spec fn wanted(want: Seq<String>) -> Set<Seq<char>> {
    names(want).to_set()
}

/// Within the wanted modules, `u` needs `v` first.
pub open spec fn depends(t: Map<Seq<char>, ModuleSpec>, want: Set<Seq<char>>, u: Seq<char>, v: Seq<char>) -> bool {
    &&& want.contains(u)
    &&& want.contains(v)
    &&& t.contains_key(u)
    &&& deps_of(t[u]).contains(v)
}

/// Each module of `p` needs the next one.
pub open spec fn is_dep_path(t: Map<Seq<char>, ModuleSpec>, want: Set<Seq<char>>, p: Seq<Seq<char>>) -> bool {
    forall|i: int, j: int| 0 <= i && j == i + 1 && j < p.len() ==> #[trigger] depends(t, want, p[i], p[j])
}

/// A dependency chain that comes back to where it started.
pub open spec fn is_dep_cycle(t: Map<Seq<char>, ModuleSpec>, want: Set<Seq<char>>, p: Seq<Seq<char>>) -> bool {
    &&& p.len() >= 2
    &&& p[0] == p[p.len() - 1]
    &&& is_dep_path(t, want, p)
}

/// The wanted modules depend on each other in a circle.
pub open spec fn has_dep_cycle(t: Map<Seq<char>, ModuleSpec>, want: Set<Seq<char>>) -> bool {
    exists|p: Seq<Seq<char>>| #[trigger] is_dep_cycle(t, want, p)
}

/// Every module of `o` comes after the wanted modules it needs.
pub open spec fn deps_first(t: Map<Seq<char>, ModuleSpec>, want: Set<Seq<char>>, o: Seq<Seq<char>>) -> bool {
    forall|i: int, d: Seq<char>|
        0 <= i < o.len() && #[trigger] depends(t, want, o[i], d) ==> exists|j: int| 0 <= j < i && o[j] == d
}

/// A boot order for `want`: each wanted module once, dependencies first.
pub open spec fn is_boot_order(t: Map<Seq<char>, ModuleSpec>, want: Seq<String>, o: Seq<Seq<char>>) -> bool {
    &&& o.no_duplicates()
    &&& o.to_set() == wanted(want)
    &&& deps_first(t, wanted(want), o)
}

/// Every wanted module is registered.
pub open spec fn all_registered(t: Map<Seq<char>, ModuleSpec>, want: Seq<String>) -> bool {
    forall|i: int| 0 <= i < want.len() ==> t.contains_key(#[trigger] want[i]@)
}

/// The error a dependency circle gives: it names a wanted module on it.
pub open spec fn is_cycle_error(e: RuntimeError, want: Seq<String>) -> bool {
    e matches RuntimeError::DependencyCycle(m) && exists|x: Seq<char>| wanted(want).contains(x) && m@ == "cycle at "@ + x
}

fn contains_name(v: &Vec<String>, x: &str) -> (r: bool)
    ensures
        r == names(v@).contains(x@),
{
    let mut i: usize = 0;
    while i < v.len()
        invariant
            i <= v.len(),
            forall|j: int| 0 <= j < i ==> v@[j]@ != x@,
        decreases v.len() - i,
    {
        if str_eq(v[i].as_str(), x) {
            assert(names(v@)[i as int] == x@);
            return true;
        }
        i = i + 1;
    }
    proof {
        if names(v@).contains(x@) {
            let j = choose|j: int| 0 <= j < names(v@).len() && names(v@)[j] == x@;
            assert(v@[j]@ == x@);
        }
    }
    false
}

/// Pushing onto a list of strings pushes its text.
proof fn lemma_names_push(v: Seq<String>, s: String)
    ensures
        names(v.push(s)) == names(v).push(s@),
{
    assert(names(v.push(s)) =~= names(v).push(s@));
}

/// A boot order has no dependency circle among the wanted modules.
pub proof fn lemma_boot_order_acyclic(t: Map<Seq<char>, ModuleSpec>, want: Seq<String>, o: Seq<Seq<char>>)
    requires
        is_boot_order(t, want, o),
    ensures
        !has_dep_cycle(t, wanted(want)),
{
    if has_dep_cycle(t, wanted(want)) {
        let p = choose|p: Seq<Seq<char>>| #[trigger] is_dep_cycle(t, wanted(want), p);
        lemma_positions_fall(t, want, o, p, p.len() - 1);
        let a = choose|a: int| 0 <= a < o.len() && o[a] == p[0];
        let b = choose|b: int| 0 <= b < o.len() && o[b] == p[p.len() - 1];
        assert(a == b);
    }
}

/// Along a dependency chain, positions in a boot order fall strictly.
proof fn lemma_positions_fall(t: Map<Seq<char>, ModuleSpec>, want: Seq<String>, o: Seq<Seq<char>>, p: Seq<Seq<char>>, k: int)
    requires
        is_boot_order(t, want, o),
        p.len() >= 2,
        is_dep_path(t, wanted(want), p),
        1 <= k < p.len(),
    ensures
        exists|a: int, b: int| 0 <= b < a < o.len() && o[a] == p[0] && o[b] == p[k],
    decreases k,
{
    let w = wanted(want);
    assert(depends(t, w, p[k - 1], p[k]));
    assert(o.to_set().contains(p[k - 1]));
    let c = choose|c: int| 0 <= c < o.len() && o[c] == p[k - 1];
    let b = choose|b: int| 0 <= b < c && o[b] == p[k];
    if k == 1 {
        assert(0 <= b < c < o.len() && o[c] == p[0] && o[b] == p[k]);
    } else {
        lemma_positions_fall(t, want, o, p, k - 1);
        let (a2, c2) = choose|a: int, b: int| 0 <= b < a < o.len() && o[a] == p[0] && o[b] == p[k - 1];
        assert(c2 == c);
        assert(0 <= b < a2 < o.len() && o[a2] == p[0] && o[b] == p[k]);
    }
}

/// The registered modules, by name.
pub struct ModuleTable {
    modules: Vec<(String, ModuleSpec)>,
}

impl View for ModuleTable {
    type V = Map<Seq<char>, ModuleSpec>;

    closed spec fn view(&self) -> Map<Seq<char>, ModuleSpec> {
        smap(self.modules@)
    }
}

impl ModuleTable {
    pub closed spec fn wf(&self) -> bool {
        &&& swf(self.modules@)
        &&& forall|i: int| 0 <= i < self.modules@.len() ==> (#[trigger] self.modules@[i]).0@ == self.modules@[i].1.name@
    }

    /// A module is filed under its own name.
    pub proof fn lemma_filed_by_name(&self, k: Seq<char>)
        requires
            self.wf(),
            self@.contains_key(k),
        ensures
            self@[k].name@ == k,
    {
        crate::kvmap::lemma_map_of_dom(crate::kvmap::string_pairs(self.modules@), k);
        let m = choose|m: int| crate::kvmap::key_at(crate::kvmap::string_pairs(self.modules@), k, m);
        lemma_smap_at(self.modules@, m);
    }

    pub fn new() -> (r: Self)
        ensures
            r.wf(),
            r@ == Map::<Seq<char>, ModuleSpec>::empty(),
    {
        let r = ModuleTable { modules: Vec::new() };
        assert(smap(r.modules@) =~= Map::empty());
        r
    }

    /// Registers a module; a name already taken is refused.
    pub fn register(&mut self, m: ModuleSpec) -> (r: Result<(), RuntimeError>)
        requires
            old(self).wf(),
        ensures
            final(self).wf(),
            old(self)@.contains_key(m.name@) ==> final(self)@ == old(self)@ && (r matches Err(
                RuntimeError::DuplicateModule(n),
            ) && n@ == m.name@),
            !old(self)@.contains_key(m.name@) ==> final(self)@ == old(self)@.insert(m.name@, m) && r is Ok,
    {
        if get_key(&self.modules, m.name.as_str()).is_some() {
            return Err(RuntimeError::DuplicateModule(m.name.clone()));
        }
        let ghost before = self.modules@;
        let key = m.name.clone();
        put(&mut self.modules, key, m);
        proof {
            assert forall|i: int| 0 <= i < self.modules@.len() implies (#[trigger] self.modules@[i]).0@ == self.modules@[i].1.name@ by {
                lemma_smap_at(self.modules@, i);
                let k = self.modules@[i].0@;
                if k != m.name@ {
                    crate::kvmap::lemma_map_of_dom(crate::kvmap::string_pairs(before), k);
                    let j = choose|j: int| crate::kvmap::key_at(crate::kvmap::string_pairs(before), k, j);
                    lemma_smap_at(before, j);
                }
            }
        }
        Ok(())
    }

    /// The module registered under `name`.
    pub fn get(&self, name: &str) -> (r: Option<&ModuleSpec>)
        requires
            self.wf(),
        ensures
            r is Some == self@.contains_key(name@),
            r matches Some(m) ==> *m == self@[name@],
    {
        get_key(&self.modules, name)
    }

    /// Names of the registered modules.
    pub fn names(&self) -> (r: Vec<String>)
        requires
            self.wf(),
        ensures
            r@.len() == self@.len(),
            forall|i: int| 0 <= i < r@.len() ==> self@.contains_key(#[trigger] r@[i]@),
            forall|k: Seq<char>| #[trigger] self@.contains_key(k) ==> names(r@).contains(k),
    {
        let mut r: Vec<String> = Vec::new();
        let mut i: usize = 0;
        while i < self.modules.len()
            invariant
                i <= self.modules.len(),
                r@.len() == i,
                forall|j: int| 0 <= j < i ==> (#[trigger] r@[j])@ == self.modules@[j].0@,
            decreases self.modules.len() - i,
        {
            r.push(self.modules[i].0.clone());
            i = i + 1;
        }
        proof {
            lemma_smap_len(self.modules@);
            assert forall|j: int| 0 <= j < r@.len() implies self@.contains_key(#[trigger] r@[j]@) by {
                lemma_smap_at(self.modules@, j);
            }
            assert forall|k: Seq<char>| #[trigger] self@.contains_key(k) implies names(r@).contains(k) by {
                crate::kvmap::lemma_map_of_dom(crate::kvmap::string_pairs(self.modules@), k);
                let j = choose|j: int| crate::kvmap::key_at(crate::kvmap::string_pairs(self.modules@), k, j);
                assert(names(r@)[j] == k);
            }
        }
        r
    }

    /// Number of registered modules.
    pub fn len(&self) -> (n: usize)
        requires
            self.wf(),
        ensures
            n == self@.len(),
    {
        proof {
            lemma_smap_len(self.modules@);
        }
        self.modules.len()
    }

    pub fn is_empty(&self) -> (b: bool)
        requires
            self.wf(),
        ensures
            b == (self@.len() == 0),
    {
        self.len() == 0
    }

    /// Depth-first: boots `name` after the wanted modules it needs.
    fn visit(&self, name: &str, want: &Vec<String>, visiting: &mut Vec<String>, order: &mut Vec<String>) -> (r: Result<(), RuntimeError>)
        requires
            self.wf(),
            all_registered(self@, want@),
            names(want@).contains(name@),
            is_dep_path(self@, wanted(want@), names(old(visiting)@)),
            names(old(visiting)@).no_duplicates(),
            forall|i: int| 0 <= i < old(visiting)@.len() ==> wanted(want@).contains(#[trigger] names(old(visiting)@)[i]),
            old(visiting)@.len() > 0 ==> depends(self@, wanted(want@), names(old(visiting)@).last(), name@),
            names(old(order)@).no_duplicates(),
            forall|i: int| 0 <= i < old(order)@.len() ==> wanted(want@).contains(#[trigger] names(old(order)@)[i]),
            forall|x: Seq<char>| #[trigger] names(old(order)@).contains(x) ==> !names(old(visiting)@).contains(x),
            deps_first(self@, wanted(want@), names(old(order)@)),
        ensures
            r matches Err(e) ==> is_cycle_error(e, want@) && has_dep_cycle(self@, wanted(want@)),
            r is Ok ==> {
                &&& final(visiting)@ == old(visiting)@
                &&& old(order)@.len() <= final(order)@.len()
                &&& final(order)@.subrange(0, old(order)@.len() as int) == old(order)@
                &&& names(final(order)@).no_duplicates()
                &&& names(final(order)@).contains(name@)
                &&& forall|i: int| 0 <= i < final(order)@.len() ==> wanted(want@).contains(#[trigger] names(final(order)@)[i])
                &&& forall|i: int| old(order)@.len() <= i < final(order)@.len() ==> !names(old(visiting)@).contains(#[trigger] names(final(order)@)[i])
                &&& deps_first(self@, wanted(want@), names(final(order)@))
            },
        decreases wanted(want@).len() - old(visiting)@.len(),
    {
        let ghost w = wanted(want@);
        if contains_name(order, name) {
            assert(order@.subrange(0, order@.len() as int) =~= order@);
            return Ok(());
        }
        if contains_name(visiting, name) {
            proof {
                let s = names(visiting@);
                let k = choose|k: int| 0 <= k < s.len() && s[k] == name@;
                let p = s.subrange(k, s.len() as int).push(name@);
                assert forall|i: int, j: int| 0 <= i && j == i + 1 && j < p.len() implies #[trigger] depends(self@, w, p[i], p[j]) by {
                    if j < p.len() - 1 {
                        assert(p[i] == s[k + i] && p[j] == s[k + j]);
                        assert(depends(self@, w, s[k + i], s[k + j]));
                    } else {
                        assert(p[i] == s.last());
                    }
                }
                assert(is_dep_cycle(self@, w, p));
                assert(w.contains(name@));
            }
            let msg = concat("cycle at ", name);
            return Err(RuntimeError::DependencyCycle(msg));
        }
        proof {
            assert(w.contains(name@));
            let wi = choose|i: int| 0 <= i < names(want@).len() && names(want@)[i] == name@;
            assert(self@.contains_key(want@[wi]@));
        }
        let spec = match self.get(name) {
            Some(s) => s,
            None => {
                assert(false);
                return Ok(());
            },
        };
        let ghost vis0 = visiting@;
        let ghost ord0 = order@;
        visiting.push(name.to_owned());
        proof {
            lemma_names_push(vis0, visiting@.last());
            let s1 = names(visiting@);
            assert(s1 == names(vis0).push(name@));
            assert forall|i: int, j: int| 0 <= i && j == i + 1 && j < s1.len() implies #[trigger] depends(self@, w, s1[i], s1[j]) by {
                if j < s1.len() - 1 {
                    assert(depends(self@, w, names(vis0)[i], names(vis0)[j]));
                }
            }
            assert(s1.no_duplicates()) by {
                assert forall|a: int, b: int| 0 <= a < b < s1.len() implies s1[a] != s1[b] by {
                    if b == s1.len() - 1 {
                        assert(s1[a] == names(vis0)[a]);
                        if s1[a] == name@ {
                            assert(names(vis0).contains(name@));
                        }
                    }
                }
            }
            // the set of what is being visited fits inside the wanted set
            vstd::seq_lib::seq_to_set_is_finite(names(want@));
            assert(s1.to_set().subset_of(w));
            vstd::set_lib::lemma_len_subset(s1.to_set(), w);
            s1.unique_seq_to_set();
        }
        let mut i: usize = 0;
        while i < spec.requires.len()
            invariant
                self.wf(),
                all_registered(self@, want@),
                w == wanted(want@),
                *spec == self@[name@],
                self@.contains_key(name@),
                w.contains(name@),
                names(visiting@) == names(vis0).push(name@),
                !names(vis0).contains(name@),
                vis0 == old(visiting)@,
                visiting@ == vis0.push(visiting@.last()),
                visiting@.len() == vis0.len() + 1,
                is_dep_path(self@, w, names(visiting@)),
                names(visiting@).no_duplicates(),
                forall|a: int| 0 <= a < visiting@.len() ==> w.contains(#[trigger] names(visiting@)[a]),
                visiting@.len() <= w.len(),
                i <= spec.requires.len(),
                ord0.len() <= order@.len(),
                order@.subrange(0, ord0.len() as int) == ord0,
                names(order@).no_duplicates(),
                forall|a: int| 0 <= a < order@.len() ==> w.contains(#[trigger] names(order@)[a]),
                forall|a: int| ord0.len() <= a < order@.len() ==> !names(visiting@).contains(#[trigger] names(order@)[a]),
                forall|x: Seq<char>| #[trigger] names(order@).contains(x) ==> !names(visiting@).contains(x),
                deps_first(self@, w, names(order@)),
                forall|j: int| 0 <= j < i ==> w.contains(#[trigger] deps_of(*spec)[j]) ==> names(order@).contains(deps_of(*spec)[j]),
            decreases spec.requires.len() - i,
        {
            let dep = spec.requires[i].as_str();
            if contains_name(want, dep) {
                let ghost ord1 = order@;
                proof {
                    assert(deps_of(*spec)[i as int] == dep@);
                    assert(names(visiting@).last() == name@);
                    assert(deps_of(self@[name@]).contains(dep@));
                    assert(depends(self@, w, name@, dep@));
                    assert(vis0 == old(visiting)@);
                    assert(wanted(want@).len() - visiting@.len() < wanted(want@).len() - old(visiting)@.len());
                }
                match self.visit(dep, want, visiting, order) {
                    Ok(()) => {},
                    Err(e) => {
                        return Err(e);
                    },
                }
                proof {
                    assert(order@.subrange(0, ord1.len() as int) == ord1);
                    assert(order@.subrange(0, ord0.len() as int) =~= ord0) by {
                        assert forall|a: int| 0 <= a < ord0.len() implies order@[a] == ord0[a] by {
                            assert(order@[a] == order@.subrange(0, ord1.len() as int)[a]);
                            assert(ord1[a] == ord1.subrange(0, ord0.len() as int)[a]);
                        }
                    }
                    assert forall|a: int| ord0.len() <= a < order@.len() implies !names(visiting@).contains(#[trigger] names(order@)[a]) by {
                        if a < ord1.len() {
                            assert(names(order@)[a] == names(ord1)[a]);
                        }
                    }
                    assert forall|x: Seq<char>| #[trigger] names(order@).contains(x) implies !names(visiting@).contains(x) by {
                        let a = choose|a: int| 0 <= a < names(order@).len() && names(order@)[a] == x;
                        if a < ord1.len() {
                            assert(names(ord1)[a] == x);
                            assert(names(ord1).contains(x));
                        }
                    }
                    assert forall|j: int| 0 <= j < i + 1 implies w.contains(#[trigger] deps_of(*spec)[j]) ==> names(order@).contains(deps_of(*spec)[j]) by {
                        if j < i && w.contains(deps_of(*spec)[j]) {
                            assert(names(ord1).contains(deps_of(*spec)[j]));
                            let a = choose|a: int| 0 <= a < names(ord1).len() && names(ord1)[a] == deps_of(*spec)[j];
                            assert(names(order@)[a] == names(ord1)[a]);
                        }
                    }
                }
            } else {
                proof {
                    assert(deps_of(*spec)[i as int] == dep@);
                    if w.contains(dep@) {
                        let wi = choose|a: int| 0 <= a < names(want@).len() && names(want@)[a] == dep@;
                        assert(names(want@).contains(dep@));
                    }
                }
            }
            i = i + 1;
        }
        proof {
            let last = (names(visiting@).len() - 1) as int;
            assert(names(visiting@)[last] == name@);
            assert(names(visiting@).contains(name@));
            assert(!names(order@).contains(name@));
        }
        visiting.pop();
        let ghost ord2 = order@;
        order.push(name.to_owned());
        proof {
            assert(visiting@ =~= vis0);
            lemma_names_push(ord2, order@.last());
            let o = names(order@);
            assert(o == names(ord2).push(name@));
            assert(!names(ord2).contains(name@));
            assert(o.no_duplicates()) by {
                assert forall|a: int, b: int| 0 <= a < b < o.len() implies o[a] != o[b] by {
                    if b == o.len() - 1 {
                        assert(o[a] == names(ord2)[a]);
                    }
                }
            }
            assert(o[o.len() - 1] == name@);
            assert(order@.subrange(0, ord0.len() as int) =~= ord0) by {
                assert forall|a: int| 0 <= a < ord0.len() implies order@[a] == ord0[a] by {
                    assert(ord2[a] == ord2.subrange(0, ord0.len() as int)[a]);
                }
            }
            assert forall|a: int| 0 <= a < order@.len() implies w.contains(#[trigger] names(order@)[a]) by {
                if a < ord2.len() {
                    assert(names(order@)[a] == names(ord2)[a]);
                }
            }
            assert forall|a: int| ord0.len() <= a < order@.len() implies !names(vis0).contains(#[trigger] names(order@)[a]) by {
                if a < ord2.len() {
                    let x = names(ord2)[a];
                    assert(names(order@)[a] == x);
                    assert(!names(vis0).push(name@).contains(x));
                    if names(vis0).contains(x) {
                        let c = choose|c: int| 0 <= c < names(vis0).len() && names(vis0)[c] == x;
                        assert(names(vis0).push(name@)[c] == x);
                    }
                }
            }
            assert forall|q: int, d: Seq<char>| 0 <= q < o.len() && #[trigger] depends(self@, w, o[q], d) implies exists|j: int| 0 <= j < q && o[j] == d by {
                if q < o.len() - 1 {
                    assert(o[q] == names(ord2)[q]);
                    assert(depends(self@, w, names(ord2)[q], d));
                    let j = choose|j: int| 0 <= j < q && names(ord2)[j] == d;
                    assert(o[j] == d);
                } else {
                    assert(o[q] == name@);
                    let j = choose|j: int| 0 <= j < deps_of(*spec).len() && deps_of(*spec)[j] == d;
                    assert(w.contains(deps_of(*spec)[j]));
                    assert(names(ord2).contains(d));
                    let c = choose|c: int| 0 <= c < names(ord2).len() && names(ord2)[c] == d;
                    assert(o[c] == d);
                }
            }
        }
        Ok(())
    }

    /// The order to boot `want` in: each wanted module once, every module
    /// after the wanted modules it requires; a dependency circle is refused.
    pub fn topo_order(&self, want: &Vec<String>) -> (r: Result<Vec<String>, RuntimeError>)
        requires
            self.wf(),
            all_registered(self@, want@),
        ensures
            r is Err <==> has_dep_cycle(self@, wanted(want@)),
            r matches Err(e) ==> is_cycle_error(e, want@),
            r matches Ok(o) ==> is_boot_order(self@, want@, names(o@)),
    {
        let ghost w = wanted(want@);
        let mut visiting: Vec<String> = Vec::new();
        let mut order: Vec<String> = Vec::new();
        let mut i: usize = 0;
        proof {
            assert(names(visiting@) =~= Seq::<Seq<char>>::empty());
            assert(names(order@) =~= Seq::<Seq<char>>::empty());
        }
        while i < want.len()
            invariant
                self.wf(),
                all_registered(self@, want@),
                w == wanted(want@),
                i <= want.len(),
                visiting@ == Seq::<String>::empty(),
                names(order@).no_duplicates(),
                forall|a: int| 0 <= a < order@.len() ==> w.contains(#[trigger] names(order@)[a]),
                deps_first(self@, w, names(order@)),
                forall|j: int| 0 <= j < i ==> names(order@).contains(#[trigger] names(want@)[j]),
            decreases want.len() - i,
        {
            let ghost ord1 = order@;
            proof {
                assert(names(want@).contains(names(want@)[i as int]));
                assert(names(want@)[i as int] == want@[i as int]@);
                assert(names(visiting@) =~= Seq::<Seq<char>>::empty());
            }
            match self.visit(want[i].as_str(), want, &mut visiting, &mut order) {
                Ok(()) => {},
                Err(e) => {
                    return Err(e);
                },
            }
            proof {
                assert forall|j: int| 0 <= j < i + 1 implies names(order@).contains(#[trigger] names(want@)[j]) by {
                    if j < i {
                        let a = choose|a: int| 0 <= a < names(ord1).len() && names(ord1)[a] == names(want@)[j];
                        assert(order@[a] == order@.subrange(0, ord1.len() as int)[a]);
                        assert(names(order@)[a] == names(want@)[j]);
                    }
                }
            }
            i = i + 1;
        }
        proof {
            assert(names(order@).to_set() =~= w) by {
                assert forall|x: Seq<char>| w.contains(x) implies names(order@).to_set().contains(x) by {
                    let j = choose|j: int| 0 <= j < names(want@).len() && names(want@)[j] == x;
                    assert(names(order@).contains(names(want@)[j]));
                }
                assert forall|x: Seq<char>| names(order@).to_set().contains(x) implies w.contains(x) by {
                    let a = choose|a: int| 0 <= a < names(order@).len() && names(order@)[a] == x;
                }
            }
            assert(is_boot_order(self@, want@, names(order@)));
            lemma_boot_order_acyclic(self@, want@, names(order@));
        }
        Ok(order)
    }

    /// The boot order for `want`: the first wanted module that is not
    /// registered is reported missing; otherwise `topo_order`.
    pub fn boot_order(&self, want: &Vec<String>) -> (r: Result<Vec<String>, RuntimeError>)
        requires
            self.wf(),
        ensures
            !all_registered(self@, want@) ==> exists|i: int|
                0 <= i < want@.len() && !self@.contains_key(#[trigger] want@[i]@) && all_registered(self@, want@.take(i))
                    && (r matches Err(RuntimeError::MissingModule(m)) && m@ == want@[i]@),
            all_registered(self@, want@) ==> {
                &&& r is Err <==> has_dep_cycle(self@, wanted(want@))
                &&& r matches Err(e) ==> is_cycle_error(e, want@)
                &&& r matches Ok(o) ==> is_boot_order(self@, want@, names(o@))
            },
    {
        let mut i: usize = 0;
        while i < want.len()
            invariant
                self.wf(),
                i <= want.len(),
                all_registered(self@, want@.take(i as int)),
            decreases want.len() - i,
        {
            if self.get(want[i].as_str()).is_none() {
                proof {
                    assert(!self@.contains_key(want@[i as int]@));
                }
                return Err(RuntimeError::MissingModule(want[i].clone()));
            }
            proof {
                assert forall|j: int| 0 <= j < i + 1 implies self@.contains_key(#[trigger] want@.take(i + 1)[j]@) by {
                    if j < i {
                        assert(want@.take(i + 1)[j] == want@.take(i as int)[j]);
                    }
                }
            }
            i = i + 1;
        }
        proof {
            assert(want@.take(want@.len() as int) =~= want@);
        }
        self.topo_order(want)
    }
}

} // verus!

verus! {

/// Module names: leader side.
pub const MOD_LAN_SHARE_SERVER: &'static str = "lan-share-server";
pub const MOD_LAN_AUTH: &'static str = "lan-auth";
pub const MOD_LAN_MEMBER_REGISTRY: &'static str = "lan-member-registry";
pub const MOD_LAN_USAGE: &'static str = "lan-usage";
pub const MOD_LAN_DISCOVERY_BROADCAST: &'static str = "lan-discovery-broadcast";
pub const MOD_LAN_WEB_CONSOLE: &'static str = "lan-web-console";

/// Module names: member side.
pub const MOD_LAN_DISCOVERY_CLIENT: &'static str = "lan-discovery-client";
pub const MOD_LAN_SHARE_CLIENT: &'static str = "lan-share-client";
pub const MOD_LAN_IDENTITY: &'static str = "lan-identity";
pub const MOD_LAN_USAGE_VIEW: &'static str = "lan-usage-view";

/// Module names: coordination-server client (cross-network links, telemetry).
pub const MOD_COORD_CLIENT: &'static str = "coord-client";
pub const MOD_COORD_ACCOUNT: &'static str = "coord-account";

/// Module name: tray.
pub const MOD_LAN_TRAY: &'static str = "lan-tray";

/// Project home page.
pub const GITHUB_URL: &'static str = "https://github.com/aipowerlink/aipowergateway";

/// Built-in roles.
#[derive(Debug, Clone, Copy, PartialEq, Eq)]
pub enum Role {
    /// Leader (serves the group).
    Server,
    /// Member (uses the group).
    Client,
    /// A role defined in a role file, by id.
    Custom(&'static str),
}

/// A role's name.
pub open spec fn role_name(r: Role) -> Seq<char> {
    match r {
        Role::Server => "server"@,
        Role::Client => "client"@,
        Role::Custom(id) => id@,
    }
}

/// The modules a built-in role boots (a custom role lists its own).
pub open spec fn role_modules(r: Role) -> Seq<Seq<char>> {
    match r {
        Role::Server => seq![
            "lan-share-server"@,
            "lan-auth"@,
            "lan-member-registry"@,
            "lan-usage"@,
            "lan-discovery-broadcast"@,
            "lan-web-console"@,
        ],
        Role::Client => seq!["lan-discovery-client"@, "lan-share-client"@, "lan-identity"@, "lan-usage-view"@],
        Role::Custom(_) => Seq::empty(),
    }
}

impl Role {
    /// The role's name.
    pub fn name(&self) -> (s: &str)
        ensures
            s@ == role_name(*self),
    {
        match self {
            Role::Server => "server",
            Role::Client => "client",
            Role::Custom(id) => id,
        }
    }

    /// The built-in role's default modules.
    pub fn default_modules(&self) -> (v: Vec<&'static str>)
        ensures
            v@.map_values(|s: &'static str| s@) == role_modules(*self),
    {
        let v: Vec<&'static str> = match self {
            Role::Server => vec![
                MOD_LAN_SHARE_SERVER,
                MOD_LAN_AUTH,
                MOD_LAN_MEMBER_REGISTRY,
                MOD_LAN_USAGE,
                MOD_LAN_DISCOVERY_BROADCAST,
                MOD_LAN_WEB_CONSOLE,
            ],
            Role::Client => vec![MOD_LAN_DISCOVERY_CLIENT, MOD_LAN_SHARE_CLIENT, MOD_LAN_IDENTITY, MOD_LAN_USAGE_VIEW],
            Role::Custom(_) => Vec::new(),
        };
        assert(v@.map_values(|s: &'static str| s@) =~= role_modules(*self));
        v
    }
}

/// The modules a boot asks for: a built-in role's defaults, or a custom
/// role's own list (`listed`: the `modules` array of its settings).
pub open spec fn wanted_for(r: Role, listed: Option<Seq<Seq<char>>>) -> Result<Seq<Seq<char>>, Seq<char>> {
    match r {
        Role::Custom(id) => match listed {
            Some(l) => Ok(l),
            None => Err("custom role "@ + id@ + ": missing modules list"@),
        },
        _ => Ok(role_modules(r)),
    }
}

/// Picks the modules to boot for a role; a custom role without a list is a
/// configuration error.
pub fn wanted_modules(role: &Role, listed: Option<Vec<String>>) -> (r: Result<Vec<String>, RuntimeError>)
    ensures
        r matches Ok(v) ==> wanted_for(*role, match listed { Some(l) => Some(names(l@)), None => None }) == Ok::<Seq<Seq<char>>, Seq<char>>(names(v@)),
        r matches Err(e) ==> e matches RuntimeError::ConfigError(m) && wanted_for(*role, match listed { Some(l) => Some(names(l@)), None => None }) == Err::<Seq<Seq<char>>, Seq<char>>(m@),
        r is Ok <==> (role is Custom ==> listed is Some),
{
    match role {
        Role::Custom(id) => match listed {
            Some(l) => Ok(l),
            None => {
                let a = concat("custom role ", id);
                let m = concat(a.as_str(), ": missing modules list");
                Err(RuntimeError::ConfigError(m))
            },
        },
        _ => {
            let d = role.default_modules();
            let mut v: Vec<String> = Vec::new();
            let mut i: usize = 0;
            while i < d.len()
                invariant
                    i <= d.len(),
                    names(v@) == d@.map_values(|s: &'static str| s@).take(i as int),
            decreases d.len() - i,
            {
                let ghost prev = v@;
                v.push(d[i].to_string());
                proof {
                    lemma_names_push(prev, v@.last());
                    assert(d@.map_values(|s: &'static str| s@).take(i + 1) =~= d@.map_values(|s: &'static str| s@).take(i as int).push(d@[i as int]@));
                }
                i = i + 1;
            }
            assert(d@.map_values(|s: &'static str| s@).take(d.len() as int) =~= d@.map_values(|s: &'static str| s@));
            Ok(v)
        },
    }
}

/// What a boot has done so far: the modules booted in order, and the optional
/// ones skipped with the reason.
pub struct BootResult<S, H> {
    host: Host<S, H>,
    booted: Vec<String>,
    skipped: Vec<(String, String)>,
}

impl<S, H> BootResult<S, H> {
    /// The host the modules were applied to.
    pub closed spec fn host_of(&self) -> Host<S, H> {
        self.host
    }

    pub closed spec fn booted_view(&self) -> Seq<Seq<char>> {
        names(self.booted@)
    }

    pub closed spec fn skipped_view(&self) -> Seq<(Seq<char>, Seq<char>)> {
        self.skipped@.map_values(|p: (String, String)| (p.0@, p.1@))
    }

    /// Nothing booted yet, on this host.
    pub fn new(host: Host<S, H>) -> (r: Self)
        ensures
            r.host_of() == host,
            r.booted_view() == Seq::<Seq<char>>::empty(),
            r.skipped_view() == Seq::<(Seq<char>, Seq<char>)>::empty(),
    {
        let r = BootResult { host, booted: Vec::new(), skipped: Vec::new() };
        assert(r.booted_view() =~= Seq::<Seq<char>>::empty());
        assert(r.skipped_view() =~= Seq::<(Seq<char>, Seq<char>)>::empty());
        r
    }

    /// Takes in the outcome of applying module `name`: booted on success; an
    /// optional module that failed is skipped with the error's text; a
    /// required module's failure ends the boot with that error.
    pub fn record(&mut self, name: &str, optional: bool, outcome: Result<(), RuntimeError>) -> (r: Result<(), RuntimeError>)
        ensures
            final(self).host_of() == old(self).host_of(),
            outcome is Ok ==> r is Ok && final(self).booted_view() == old(self).booted_view().push(name@)
                && final(self).skipped_view() == old(self).skipped_view(),
            outcome matches Err(e) ==> optional ==> r is Ok && final(self).booted_view() == old(self).booted_view()
                && final(self).skipped_view() == old(self).skipped_view().push((name@, crate::error::error_text(e))),
            outcome matches Err(e) ==> !optional ==> r == Err::<(), RuntimeError>(e)
                && final(self).booted_view() == old(self).booted_view()
                && final(self).skipped_view() == old(self).skipped_view(),
    {
        match outcome {
            Ok(()) => {
                let ghost prev = self.booted@;
                self.booted.push(name.to_owned());
                proof {
                    lemma_names_push(prev, self.booted@.last());
                }
                Ok(())
            },
            Err(e) => {
                if optional {
                    let msg = e.message();
                    let ghost prev = self.skipped@;
                    self.skipped.push((name.to_owned(), msg));
                    assert(self.skipped_view() =~= prev.map_values(|p: (String, String)| (p.0@, p.1@)).push((name@, crate::error::error_text(e))));
                    Ok(())
                } else {
                    Err(e)
                }
            },
        }
    }

    /// The host the modules were applied to.
    pub fn host(&self) -> (r: &Host<S, H>)
        ensures
            *r == self.host_of(),
    {
        &self.host
    }

    /// The modules booted, in boot order.
    pub fn booted(&self) -> (r: &[String])
        ensures
            names(r@) == self.booted_view(),
    {
        self.booted.as_slice()
    }

    /// The optional modules skipped, with the reason.
    pub fn skipped(&self) -> (r: &[(String, String)])
        ensures
            r@.map_values(|p: (String, String)| (p.0@, p.1@)) == self.skipped_view(),
    {
        self.skipped.as_slice()
    }
}

} // verus!

verus! {

/// The string items of a list, in order.
pub open spec fn str_items(a: Seq<JsonView>) -> Seq<Seq<char>>
    decreases a.len(),
{
    if a.len() == 0 {
        Seq::empty()
    } else {
        str_items(a.drop_last()) + match a.last() {
            JsonView::Str(s) => seq![s],
            _ => Seq::empty(),
        }
    }
}

/// The module list of a custom role's settings: the strings of `modules`,
/// when it is a list.
pub fn modules_listed(overrides: &Json) -> (r: Option<Vec<String>>)
    ensures
        r is Some <==> jarr(overrides.view_of(), "modules"@) is Some,
        r matches Some(v) ==> names(v@) == str_items(jarr(overrides.view_of(), "modules"@)->0),
{
    match overrides.get_array("modules") {
        Some(a) => {
            proof {
                lemma_view_items(a@);
            }
            let mut v: Vec<String> = Vec::new();
            let mut i: usize = 0;
            while i < a.len()
                invariant
                    i <= a.len(),
                    view_items(a@).len() == a@.len(),
                    forall|k: int| 0 <= k < a@.len() ==> #[trigger] view_items(a@)[k] == a@[k].view_of(),
                    names(v@) == str_items(view_items(a@).take(i as int)),
                decreases a.len() - i,
            {
                assert(view_items(a@).take(i + 1).drop_last() =~= view_items(a@).take(i as int));
                let ghost before = v@;
                match a[i].as_str() {
                    Some(s) => {
                        v.push(s.to_string());
                        proof {
                            lemma_names_push(before, v@.last());
                        }
                    },
                    None => {},
                }
                assert(names(v@) =~= str_items(view_items(a@).take(i + 1)));
                i = i + 1;
            }
            assert(view_items(a@).take(a.len() as int) =~= view_items(a@));
            Some(v)
        },
        None => None,
    }
}

/// A module's settings: its defaults with the role's overrides for that
/// module (`overrides[module]`, nothing when absent) deep-merged on top.
pub fn merge_module_config(default: Json, overrides: &Json, module: &str) -> (r: Json)
    ensures
        r.view_of() == merged(default.view_of(), match jget(overrides.view_of(), module@) {
            Some(o) => o,
            None => JsonView::Obj(Seq::empty()),
        }),
{
    let mut out = default;
    match overrides.get(module) {
        Some(o) => deep_merge(&mut out, o),
        None => deep_merge(&mut out, &Json::Object(Vec::new())),
    }
    out
}

} // verus!
