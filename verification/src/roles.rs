//! Role profiles: a role is a named set of modules to boot. Built-in roles are
//! read-only (system trust); user roles are editable (user trust). The role
//! files are read and written by the caller; this module keeps the roles and
//! decides what each operation makes of them.
use vstd::prelude::*;
use crate::boot::{names, role_modules, Role};
use crate::error::RuntimeError;
use crate::kvmap::{get_key, key_order, lemma_key_order_covers, lemma_smap_at, put, smap, swf, take_key};
use crate::text::{concat, seq_lt, str_eq};

verus! {

/// Pattern role ids must match.
pub const ROLE_ID_RE: &'static str = "^[a-z0-9][a-z0-9-]*$";

/// A module's free-form settings (a JSON value).
#[verifier::external_type_specification]
#[verifier::external_body]
pub struct ExJsonValue(serde_json::Value);

/// An empty JSON object (`{}`).
#[verifier::external_body]
fn empty_config() -> serde_json::Value {
    serde_json::Value::Object(serde_json::Map::new())
}

/// A copy of a JSON value (`serde_json::Value`'s derived `Clone`, which
/// copies the tree): the copy is the same value.
#[verifier::external_body]
fn copy_config(v: &serde_json::Value) -> (r: serde_json::Value)
    ensures
        r == *v,
{
    v.clone()
}

/// Trust level.
#[derive(Debug, Clone, Copy, PartialEq, Eq, Structural)]
pub enum Trust {
    /// Built in (shipped, read-only).
    System,
    /// The user's (editable).
    User,
}

/// One module of a role.
#[derive(Debug)]
pub struct ModuleEntry {
    /// Whether it boots.
    pub enabled: bool,
    /// Settings overriding the module's defaults.
    pub config: serde_json::Value,
}

impl ModuleEntry {
    /// An enabled module with empty settings.
    pub fn enabled_default() -> (e: Self)
        ensures
            e.enabled,
    {
        ModuleEntry { enabled: true, config: empty_config() }
    }

    /// A copy (the settings are copied as they are).
    pub fn duplicate(&self) -> (e: Self)
        ensures
            e.enabled == self.enabled,
            e.config == self.config,
    {
        ModuleEntry { enabled: self.enabled, config: copy_config(&self.config) }
    }
}

/// A role file.
#[derive(Debug)]
pub struct RoleProfile {
    /// Role id (its directory name).
    pub id: String,
    /// Display name.
    pub name: Option<String>,
    /// Modules by name (a later entry of a name wins).
    pub modules: Vec<(String, ModuleEntry)>,
    /// Role it extends (such as `server` or `client`).
    pub base: Option<String>,
}

/// A role's module entries, by name (switch and settings).
pub open spec fn modules_of(p: RoleProfile) -> Map<Seq<char>, ModuleEntry> {
    smap(p.modules@)
}

/// Two module lists with the same names and entries, position by position,
/// describe the same modules.
proof fn lemma_modules_same(a: Seq<(String, ModuleEntry)>, b: Seq<(String, ModuleEntry)>)
    requires
        a.len() == b.len(),
        forall|i: int| 0 <= i < a.len() ==> (#[trigger] a[i]).0@ == b[i].0@ && a[i].1 == b[i].1,
    ensures
        smap(a) == smap(b),
{
    assert(crate::kvmap::string_pairs(a) =~= crate::kvmap::string_pairs(b));
}

/// Which modules a role switches on or off, by name.
pub open spec fn enabled_map(p: RoleProfile) -> Map<Seq<char>, bool> {
    switches(smap(p.modules@))
}

/// The on/off switch of each module.
pub open spec fn switches(m: Map<Seq<char>, ModuleEntry>) -> Map<Seq<char>, bool> {
    m.map_values(|e: ModuleEntry| e.enabled)
}

/// Two module lists with the same names and switches, position by position,
/// switch the same modules.
proof fn lemma_enabled_same(a: Seq<(String, ModuleEntry)>, b: Seq<(String, ModuleEntry)>)
    requires
        a.len() == b.len(),
        forall|i: int| 0 <= i < a.len() ==> (#[trigger] a[i]).0@ == b[i].0@ && a[i].1.enabled == b[i].1.enabled,
    ensures
        switches(smap(a)) == switches(smap(b)),
    decreases a.len(),
{
    if a.len() > 0 {
        let a0 = a.drop_last();
        let b0 = b.drop_last();
        assert forall|i: int| 0 <= i < a0.len() implies (#[trigger] a0[i]).0@ == b0[i].0@ && a0[i].1.enabled == b0[i].1.enabled by {
            assert(a0[i] == a[i] && b0[i] == b[i]);
        }
        lemma_enabled_same(a0, b0);
        assert(crate::kvmap::string_pairs(a).drop_last() =~= crate::kvmap::string_pairs(a0));
        assert(crate::kvmap::string_pairs(b).drop_last() =~= crate::kvmap::string_pairs(b0));
        assert(smap(a) == smap(a0).insert(a.last().0@, a.last().1));
        assert(smap(b) == smap(b0).insert(b.last().0@, b.last().1));
        assert(a[a.len() - 1].0@ == b[b.len() - 1].0@ && a[a.len() - 1].1.enabled == b[b.len() - 1].1.enabled);
        lemma_switches_insert(smap(a0), a.last().0@, a.last().1);
        lemma_switches_insert(smap(b0), b.last().0@, b.last().1);
        assert(switches(smap(a)) =~= switches(smap(b)));
    }
}

/// Setting a module's entry sets its switch.
proof fn lemma_switches_insert(m: Map<Seq<char>, ModuleEntry>, k: Seq<char>, e: ModuleEntry)
    ensures
        switches(m.insert(k, e)) == switches(m).insert(k, e.enabled),
{
    assert(switches(m.insert(k, e)) =~= switches(m).insert(k, e.enabled));
}

/// A role id: not empty, a small letter or digit first, then small letters,
/// digits and dashes.
pub open spec fn valid_role_id(id: Seq<char>) -> bool {
    &&& id.len() > 0
    &&& (('a' <= id[0] && id[0] <= 'z') || ('0' <= id[0] && id[0] <= '9'))
    &&& forall|i: int| 0 <= i < id.len() ==> #[trigger] id_char(id[i])
}

/// A character allowed in a role id.
pub open spec fn id_char(c: char) -> bool {
    ('a' <= c && c <= 'z') || ('0' <= c && c <= '9') || c == '-'
}

/// Display name of a built-in role.
pub open spec fn builtin_display(r: Role) -> Seq<char> {
    match r {
        Role::Server => "内置组长"@,
        _ => "内置组员"@,
    }
}

/// `p` is the built-in profile of role `r`: its id and name, no base, and
/// exactly the role's default modules, all enabled.
pub open spec fn is_builtin_profile(p: RoleProfile, r: Role) -> bool {
    &&& p.id@ == crate::boot::role_name(r)
    &&& (p.name matches Some(n) && n@ == builtin_display(r))
    &&& p.base is None
    &&& enabled_map(p) == Map::new(|m: Seq<char>| role_modules(r).contains(m), |m: Seq<char>| true)
}

fn builtin_profile(r: Role) -> (p: RoleProfile)
    requires
        r == Role::Server || r == Role::Client,
    ensures
        is_builtin_profile(p, r),
{
    let defaults = r.default_modules();
    let mut modules: Vec<(String, ModuleEntry)> = Vec::new();
    let ghost ds = defaults@.map_values(|s: &'static str| s@);
    let mut i: usize = 0;
    assert(switches(smap(modules@)) =~= Map::new(|m: Seq<char>| ds.take(0).contains(m), |m: Seq<char>| true));
    while i < defaults.len()
        invariant
            i <= defaults.len(),
            ds == defaults@.map_values(|s: &'static str| s@),
            switches(smap(modules@)) == Map::new(|m: Seq<char>| ds.take(i as int).contains(m), |m: Seq<char>| true),
        decreases defaults.len() - i,
    {
        let ghost prev = modules@;
        modules.push((defaults[i].to_string(), ModuleEntry::enabled_default()));
        proof {
            let t1 = ds.take(i + 1);
            let t0 = ds.take(i as int);
            assert(modules@ == prev.push(modules@.last()));
            assert(crate::kvmap::string_pairs(modules@).drop_last() =~= crate::kvmap::string_pairs(prev));
            assert(modules@.last().0@ == ds[i as int]);
            assert(smap(modules@) == smap(prev).insert(ds[i as int], modules@.last().1));
            assert forall|m: Seq<char>| t1.contains(m) <==> (t0.contains(m) || m == ds[i as int]) by {
                if t1.contains(m) {
                    let a = choose|a: int| 0 <= a < t1.len() && t1[a] == m;
                    if a < i {
                        assert(t0[a] == m);
                    }
                }
                if t0.contains(m) {
                    let a = choose|a: int| 0 <= a < t0.len() && t0[a] == m;
                    assert(t1[a] == m);
                }
                if m == ds[i as int] {
                    assert(t1[i as int] == m);
                }
            }
            lemma_switches_insert(smap(prev), ds[i as int], modules@.last().1);
            assert(switches(smap(modules@)) =~= Map::new(|m: Seq<char>| t1.contains(m), |m: Seq<char>| true));
        }
        i = i + 1;
    }
    assert(ds.take(defaults.len() as int) =~= ds);
    assert(ds == role_modules(r));
    let (id, name) = match r {
        Role::Server => ("server", "内置组长"),
        _ => ("client", "内置组员"),
    };
    RoleProfile { id: id.to_string(), name: Some(name.to_string()), modules, base: None }
}

impl RoleProfile {
    /// The built-in leader role.
    pub fn builtin_server() -> (p: Self)
        ensures
            is_builtin_profile(p, Role::Server),
    {
        builtin_profile(Role::Server)
    }

    /// The built-in member role.
    pub fn builtin_client() -> (p: Self)
        ensures
            is_builtin_profile(p, Role::Client),
    {
        builtin_profile(Role::Client)
    }

    /// Whether `id` is a valid role id (`^[a-z0-9][a-z0-9-]*$`).
    pub fn validate_id(id: &str) -> (b: bool)
        ensures
            b == valid_role_id(id@),
    {
        Regex::new(ROLE_ID_RE).is_match(id)
    }

    /// A copy (module settings copied as they are).
    pub fn duplicate(&self) -> (p: Self)
        ensures
            p.id == self.id,
            p.name == self.name,
            p.base == self.base,
            enabled_map(p) == enabled_map(*self),
            modules_of(p) == modules_of(*self),
    {
        let mut modules: Vec<(String, ModuleEntry)> = Vec::new();
        let mut i: usize = 0;
        while i < self.modules.len()
            invariant
                i <= self.modules.len(),
                modules@.len() == i,
                forall|j: int| 0 <= j < i ==> (#[trigger] modules@[j]).0 == self.modules@[j].0 && modules@[j].1.enabled == self.modules@[j].1.enabled
                    && modules@[j].1 == self.modules@[j].1,
            decreases self.modules.len() - i,
        {
            modules.push((self.modules[i].0.clone(), self.modules[i].1.duplicate()));
            i = i + 1;
        }
        let p = RoleProfile { id: self.id.clone(), name: self.name.clone(), modules, base: self.base.clone() };
        proof {
            lemma_enabled_same(self.modules@, p.modules@);
            lemma_modules_same(self.modules@, p.modules@);
        }
        p
    }
}

/// A character check standing for the role-id pattern.
#[derive(Debug, Clone)]
pub struct Regex {
    pattern: String,
}

impl Regex {
    /// The checker for `p` (only the role-id pattern is supported).
    pub fn new(p: &str) -> (r: Self)
        ensures
            r.pattern_view() == p@,
    {
        Regex { pattern: p.to_string() }
    }

    pub closed spec fn pattern_view(&self) -> Seq<char> {
        self.pattern@
    }

    /// Whether `s` is a role id (`^[a-z0-9][a-z0-9-]*$`).
    pub fn is_match(&self, s: &str) -> (b: bool)
        ensures
            b == valid_role_id(s@),
    {
        let v = crate::text::chars_of(s);
        if v.len() == 0 {
            return false;
        }
        let c0 = v[0];
        if !(('a' <= c0 && c0 <= 'z') || ('0' <= c0 && c0 <= '9')) {
            return false;
        }
        let mut i: usize = 0;
        while i < v.len()
            invariant
                v@ == s@,
                i <= v.len(),
                forall|j: int| 0 <= j < i ==> #[trigger] id_char(v@[j]),
            decreases v.len() - i,
        {
            let c = v[i];
            if !(('a' <= c && c <= 'z') || ('0' <= c && c <= '9') || c == '-') {
                assert(!id_char(v@[i as int]));
                return false;
            }
            i = i + 1;
        }
        true
    }

    /// The pattern.
    pub fn _pattern(&self) -> (p: &str)
        ensures
            p@ == self.pattern_view(),
    {
        self.pattern.as_str()
    }
}

} // verus!

verus! {

/// The role `find` gives for `id`: the user's role of that id, else the
/// built-in one.
pub open spec fn found(user: Map<Seq<char>, RoleProfile>, id: Seq<char>) -> Option<Trust> {
    if user.contains_key(id) {
        Some(Trust::User)
    } else if id == "server"@ || id == "client"@ {
        Some(Trust::System)
    } else {
        None
    }
}

/// The built-in role of an id (server or client).
pub open spec fn builtin_role_of(id: Seq<char>) -> Role {
    if id == "server"@ {
        Role::Server
    } else {
        Role::Client
    }
}

/// `p` is what `find` gives for `id` with trust `t`.
pub open spec fn is_found(user: Map<Seq<char>, RoleProfile>, id: Seq<char>, p: RoleProfile, t: Trust) -> bool {
    &&& found(user, id) == Some(t)
    &&& t == Trust::User ==> p.id == user[id].id && p.name == user[id].name && p.base == user[id].base && enabled_map(p) == enabled_map(user[id])
        && modules_of(p) == modules_of(user[id])
    &&& t == Trust::System ==> is_builtin_profile(p, builtin_role_of(id))
}

/// `RoleError` with text `m`.
pub open spec fn role_error(e: RuntimeError, m: Seq<char>) -> bool {
    e matches RuntimeError::RoleError(x) && x@ == m
}

/// Modules a role boots, by switch: its base's switches overridden by its own.
pub open spec fn merged_switches(base: Option<Map<Seq<char>, bool>>, own: Map<Seq<char>, bool>) -> Map<Seq<char>, bool> {
    match base {
        Some(b) => b.union_prefer_right(own),
        None => own,
    }
}

/// Role manager: the built-in roles and the user's (kept by id).
pub struct RoleManager {
    user_roles_dir: String,
    user: Vec<(String, RoleProfile)>,
}

impl RoleManager {
    pub closed spec fn wf(&self) -> bool {
        &&& swf(self.user@)
        &&& forall|i: int| 0 <= i < self.user@.len() ==> (#[trigger] self.user@[i]).0@ == self.user@[i].1.id@
    }

    /// The user's roles, by id.
    pub closed spec fn user_view(&self) -> Map<Seq<char>, RoleProfile> {
        smap(self.user@)
    }

    pub closed spec fn dir_view(&self) -> Seq<char> {
        self.user_roles_dir@
    }

    /// A manager whose user roles live under `data_dir/roles` (none known yet).
    pub fn new(data_dir: &str) -> (m: Self)
        ensures
            m.wf(),
            m.dir_view() == crate::data_dir::join(data_dir@, "roles"@),
            m.user_view() == Map::<Seq<char>, RoleProfile>::empty(),
    {
        let m = RoleManager { user_roles_dir: crate::data_dir::roles_dir(data_dir), user: Vec::new() };
        assert(smap(m.user@) =~= Map::<Seq<char>, RoleProfile>::empty());
        m
    }

    /// Directory of the user's roles.
    pub fn user_roles_dir(&self) -> (d: &str)
        ensures
            d@ == self.dir_view(),
    {
        self.user_roles_dir.as_str()
    }

    /// The built-in roles (system trust, read-only).
    pub fn builtin_roles(&self) -> (v: Vec<RoleProfile>)
        ensures
            v@.len() == 2,
            is_builtin_profile(v@[0], Role::Server),
            is_builtin_profile(v@[1], Role::Client),
    {
        let mut v: Vec<RoleProfile> = Vec::new();
        v.push(RoleProfile::builtin_server());
        v.push(RoleProfile::builtin_client());
        v
    }

    /// Files a user role (what saving its file makes known), replacing one of
    /// the same id.
    pub fn save_user_role(&mut self, profile: RoleProfile)
        requires
            old(self).wf(),
        ensures
            final(self).wf(),
            final(self).dir_view() == old(self).dir_view(),
            final(self).user_view() == old(self).user_view().insert(profile.id@, profile),
    {
        let ghost before = self.user@;
        let ghost p = profile;
        let id = profile.id.clone();
        put(&mut self.user, id, profile);
        proof {
            assert forall|i: int| 0 <= i < self.user@.len() implies (#[trigger] self.user@[i]).0@ == self.user@[i].1.id@ by {
                lemma_smap_at(self.user@, i);
                let k = self.user@[i].0@;
                if k != p.id@ {
                    crate::kvmap::lemma_map_of_dom(crate::kvmap::string_pairs(before), k);
                    let m = choose|m: int| crate::kvmap::key_at(crate::kvmap::string_pairs(before), k, m);
                    lemma_smap_at(before, m);
                }
            }
        }
    }

    /// Takes in the user roles read from disk (a later one of an id wins).
    pub fn load_user_roles(&mut self, roles: Vec<RoleProfile>)
        requires
            old(self).wf(),
        ensures
            final(self).wf(),
            final(self).dir_view() == old(self).dir_view(),
            forall|k: Seq<char>| #[trigger] final(self).user_view().contains_key(k) <==> (old(self).user_view().contains_key(k)
                || exists|i: int| 0 <= i < roles@.len() && roles@[i].id@ == k),
    {
        let mut rest = roles;
        let ghost all = rest@;
        let ghost start = self.user_view();
        while rest.len() > 0
            invariant
                self.wf(),
                self.dir_view() == old(self).dir_view(),
                rest@.len() <= all.len(),
                rest@ == all.skip(all.len() - rest@.len()),
                forall|k: Seq<char>| #[trigger] self.user_view().contains_key(k) <==> (start.contains_key(k)
                    || exists|i: int| 0 <= i < all.len() - rest@.len() && all[i].id@ == k),
            decreases rest@.len(),
        {
            let ghost n = all.len() - rest@.len();
            let ghost before = self.user_view();
            let p = rest.remove(0);
            proof {
                assert(p == all[n]);
                assert(rest@ =~= all.skip(n + 1));
            }
            self.save_user_role(p);
            proof {
                assert forall|k: Seq<char>| #[trigger] self.user_view().contains_key(k) <==> (start.contains_key(k)
                    || exists|i: int| 0 <= i < n + 1 && all[i].id@ == k) by {
                    if k == all[n].id@ {
                        assert(0 <= n < n + 1 && all[n].id@ == k);
                    } else if exists|i: int| 0 <= i < n + 1 && all[i].id@ == k {
                        let i = choose|i: int| 0 <= i < n + 1 && all[i].id@ == k;
                        assert(before.contains_key(k));
                    } else if self.user_view().contains_key(k) {
                        assert(before.contains_key(k));
                    }
                }
            }
        }
    }

    /// The user's roles, by ascending id.
    pub fn user_roles(&self) -> (v: Vec<RoleProfile>)
        requires
            self.wf(),
        ensures
            v@.len() == self.user_view().len(),
            forall|i: int| 0 <= i < v@.len() ==> #[trigger] self.user_view().contains_key(v@[i].id@),
            forall|i: int| 0 <= i < v@.len() ==> (#[trigger] v@[i]).name == self.user_view()[v@[i].id@].name
                && v@[i].base == self.user_view()[v@[i].id@].base && enabled_map(v@[i]) == enabled_map(self.user_view()[v@[i].id@])
                && modules_of(v@[i]) == modules_of(self.user_view()[v@[i].id@]),
            forall|i: int, j: int| 0 <= i < j < v@.len() ==> seq_lt((#[trigger] v@[i]).id@, (#[trigger] v@[j]).id@),
    {
        let p = key_order(&self.user);
        let mut v: Vec<RoleProfile> = Vec::new();
        let mut a: usize = 0;
        while a < p.len()
            invariant
                self.wf(),
                crate::sort::is_index_perm(p@, self.user.len() as nat),
                a <= p.len(),
                v@.len() == a,
                forall|b: int| 0 <= b < a ==> (#[trigger] v@[b]).id == self.user@[p@[b] as int].1.id && v@[b].name == self.user@[p@[b] as int].1.name
                    && v@[b].base == self.user@[p@[b] as int].1.base && enabled_map(v@[b]) == enabled_map(self.user@[p@[b] as int].1)
                    && modules_of(v@[b]) == modules_of(self.user@[p@[b] as int].1),
            decreases p.len() - a,
        {
            v.push(self.user[p[a]].1.duplicate());
            a = a + 1;
        }
        proof {
            crate::kvmap::lemma_smap_len(self.user@);
            assert forall|i: int| 0 <= i < v@.len() implies #[trigger] self.user_view().contains_key(v@[i].id@) by {
                lemma_smap_at(self.user@, p@[i] as int);
            }
            assert forall|i: int| 0 <= i < v@.len() implies (#[trigger] v@[i]).name == self.user_view()[v@[i].id@].name
                && v@[i].base == self.user_view()[v@[i].id@].base && enabled_map(v@[i]) == enabled_map(self.user_view()[v@[i].id@])
                && modules_of(v@[i]) == modules_of(self.user_view()[v@[i].id@]) by {
                lemma_smap_at(self.user@, p@[i] as int);
            }
            assert forall|i: int, j: int| 0 <= i < j < v@.len() implies seq_lt((#[trigger] v@[i]).id@, (#[trigger] v@[j]).id@) by {
                assert(seq_lt(self.user@[p@[i] as int].0@, self.user@[p@[j] as int].0@));
            }
        }
        v
    }

    /// Finds a role: the user's first, then the built-in one.
    pub fn find(&self, id: &str) -> (r: Option<(RoleProfile, Trust)>)
        requires
            self.wf(),
        ensures
            r is None <==> found(self.user_view(), id@) is None,
            r matches Some((p, t)) ==> is_found(self.user_view(), id@, p, t),
    {
        proof {
            reveal_strlit("server");
            reveal_strlit("client");
        }
        match get_key(&self.user, id) {
            Some(p) => return Some((p.duplicate(), Trust::User)),
            None => {},
        }
        if str_eq(id, "server") {
            Some((RoleProfile::builtin_server(), Trust::System))
        } else if str_eq(id, "client") {
            Some((RoleProfile::builtin_client(), Trust::System))
        } else {
            None
        }
    }

    /// Copies a role as a user role `to` extending `from`: `to` must be a
    /// valid id and `from` must exist; it is named after the built-in role it
    /// copies (or `to`), and filed.
    pub fn clone_role(&mut self, from: &str, to: &str) -> (r: Result<RoleProfile, RuntimeError>)
        requires
            old(self).wf(),
        ensures
            final(self).wf(),
            final(self).dir_view() == old(self).dir_view(),
            !valid_role_id(to@) ==> final(self).user_view() == old(self).user_view() && (r matches Err(e) && role_error(
                e,
                "invalid role id: "@ + to@ + " (must match ^[a-z0-9][a-z0-9-]*$)"@,
            )),
            valid_role_id(to@) && found(old(self).user_view(), from@) is None ==> final(self).user_view() == old(self).user_view()
                && (r matches Err(e) && role_error(e, "source role not found: "@ + from@)),
            valid_role_id(to@) && found(old(self).user_view(), from@) is Some ==> (r matches Ok(p) && {
                &&& p.id@ == to@
                &&& (p.base matches Some(b) && b@ == from@)
                &&& (p.name matches Some(n) && n@ == (if from@ == "server"@ { "自定义组长"@ } else if from@ == "client"@ { "自定义组员"@ } else { to@ }))
                &&& enabled_map(p) == (if found(old(self).user_view(), from@) == Some(Trust::User) {
                    enabled_map(old(self).user_view()[from@])
                } else {
                    enabled_map_of_builtin(builtin_role_of(from@))
                })
                &&& final(self).user_view().contains_key(to@)
                &&& final(self).user_view().remove(to@) == old(self).user_view().remove(to@)
                &&& final(self).user_view()[to@].id == p.id && final(self).user_view()[to@].name == p.name
                &&& final(self).user_view()[to@].base == p.base && enabled_map(final(self).user_view()[to@]) == enabled_map(p)
                &&& modules_of(final(self).user_view()[to@]) == modules_of(p)
                &&& found(old(self).user_view(), from@) == Some(Trust::User) ==> modules_of(p) == modules_of(old(self).user_view()[from@])
            }),
    {
        if !RoleProfile::validate_id(to) {
            let a = concat("invalid role id: ", to);
            let m = concat(a.as_str(), " (must match ^[a-z0-9][a-z0-9-]*$)");
            return Err(RuntimeError::RoleError(m));
        }
        let src = match self.find(from) {
            Some((p, _)) => p,
            None => {
                return Err(RuntimeError::RoleError(concat("source role not found: ", from)));
            },
        };
        proof {
            reveal_strlit("server");
            reveal_strlit("client");
        }
        let name = if str_eq(from, "server") {
            "自定义组长".to_string()
        } else if str_eq(from, "client") {
            "自定义组员".to_string()
        } else {
            to.to_string()
        };
        let profile = RoleProfile { id: to.to_string(), name: Some(name), modules: src.modules, base: Some(from.to_string()) };
        let copy = profile.duplicate();
        self.save_user_role(profile);
        proof {
            assert(self.user_view().remove(to@) =~= old(self).user_view().remove(to@));
        }
        Ok(copy)
    }

    /// A new empty user role: a valid id that no role has yet.
    pub fn new_role(&mut self, id: &str) -> (r: Result<RoleProfile, RuntimeError>)
        requires
            old(self).wf(),
        ensures
            final(self).wf(),
            final(self).dir_view() == old(self).dir_view(),
            !valid_role_id(id@) ==> final(self).user_view() == old(self).user_view() && (r matches Err(e) && role_error(
                e,
                "invalid role id: "@ + id@ + " (must match ^[a-z0-9][a-z0-9-]*$)"@,
            )),
            valid_role_id(id@) && found(old(self).user_view(), id@) is Some ==> final(self).user_view() == old(self).user_view()
                && (r matches Err(e) && role_error(e, "role already exists: "@ + id@)),
            valid_role_id(id@) && found(old(self).user_view(), id@) is None ==> (r matches Ok(p) && {
                &&& p.id@ == id@
                &&& (p.name matches Some(n) && n@ == id@)
                &&& p.base is None
                &&& enabled_map(p) == Map::<Seq<char>, bool>::empty()
                &&& final(self).user_view().contains_key(id@)
                &&& final(self).user_view().remove(id@) == old(self).user_view()
                &&& enabled_map(final(self).user_view()[id@]) == Map::<Seq<char>, bool>::empty()
            }),
    {
        if !RoleProfile::validate_id(id) {
            let a = concat("invalid role id: ", id);
            let m = concat(a.as_str(), " (must match ^[a-z0-9][a-z0-9-]*$)");
            return Err(RuntimeError::RoleError(m));
        }
        if self.find(id).is_some() {
            return Err(RuntimeError::RoleError(concat("role already exists: ", id)));
        }
        let profile = RoleProfile { id: id.to_string(), name: Some(id.to_string()), modules: Vec::new(), base: None };
        assert(enabled_map(profile) =~= Map::<Seq<char>, bool>::empty());
        let copy = profile.duplicate();
        self.save_user_role(profile);
        proof {
            assert(self.user_view().remove(id@) =~= old(self).user_view());
        }
        Ok(copy)
    }

    /// Deletes a user role; a built-in one is read-only.
    pub fn delete_role(&mut self, id: &str) -> (r: Result<(), RuntimeError>)
        requires
            old(self).wf(),
        ensures
            final(self).wf(),
            final(self).dir_view() == old(self).dir_view(),
            found(old(self).user_view(), id@) == Some(Trust::System) ==> final(self).user_view() == old(self).user_view()
                && (r matches Err(e) && role_error(e, "builtin role "@ + id@ + " is read-only; clone it to customize"@)),
            found(old(self).user_view(), id@) != Some(Trust::System) ==> r is Ok && final(self).user_view() == old(self).user_view().remove(id@),
    {
        match self.find(id) {
            Some((_, Trust::System)) => {
                let a = concat("builtin role ", id);
                return Err(RuntimeError::RoleError(concat(a.as_str(), " is read-only; clone it to customize")));
            },
            _ => {},
        }
        let ghost before = self.user@;
        let _ = take_key(&mut self.user, id);
        proof {
            assert forall|i: int| 0 <= i < self.user@.len() implies (#[trigger] self.user@[i]).0@ == self.user@[i].1.id@ by {
                lemma_smap_at(self.user@, i);
                let k = self.user@[i].0@;
                crate::kvmap::lemma_map_of_dom(crate::kvmap::string_pairs(before), k);
                let m = choose|m: int| crate::kvmap::key_at(crate::kvmap::string_pairs(before), k, m);
                lemma_smap_at(before, m);
            }
        }
        Ok(())
    }

    /// Replaces the modules of a user role; a built-in one is read-only.
    pub fn edit_role(&mut self, id: &str, modules: Vec<(String, ModuleEntry)>) -> (r: Result<RoleProfile, RuntimeError>)
        requires
            old(self).wf(),
        ensures
            final(self).wf(),
            final(self).dir_view() == old(self).dir_view(),
            found(old(self).user_view(), id@) is None ==> final(self).user_view() == old(self).user_view()
                && (r matches Err(e) && role_error(e, "role not found: "@ + id@)),
            found(old(self).user_view(), id@) == Some(Trust::System) ==> final(self).user_view() == old(self).user_view()
                && (r matches Err(e) && role_error(e, "builtin role "@ + id@ + " is read-only; clone it to customize"@)),
            found(old(self).user_view(), id@) == Some(Trust::User) ==> (r matches Ok(p) && {
                &&& p.id@ == id@
                &&& p.name == old(self).user_view()[id@].name
                &&& p.base == old(self).user_view()[id@].base
                &&& enabled_map(p) == switches(smap(modules@))
                &&& final(self).user_view().contains_key(id@)
                &&& final(self).user_view().remove(id@) == old(self).user_view().remove(id@)
                &&& enabled_map(final(self).user_view()[id@]) == switches(smap(modules@))
            }),
    {
        let (profile, trust) = match self.find(id) {
            Some(x) => x,
            None => {
                return Err(RuntimeError::RoleError(concat("role not found: ", id)));
            },
        };
        if trust == Trust::System {
            let a = concat("builtin role ", id);
            return Err(RuntimeError::RoleError(concat(a.as_str(), " is read-only; clone it to customize")));
        }
        proof {
            self.lemma_user_id(id@);
        }
        let edited = RoleProfile { id: profile.id, name: profile.name, modules, base: profile.base };
        let copy = edited.duplicate();
        self.save_user_role(edited);
        proof {
            assert(self.user_view().remove(id@) =~= old(self).user_view().remove(id@));
        }
        Ok(copy)
    }

    /// A user role is filed under its own id.
    pub proof fn lemma_user_id(&self, k: Seq<char>)
        requires
            self.wf(),
            self.user_view().contains_key(k),
        ensures
            self.user_view()[k].id@ == k,
    {
        crate::kvmap::lemma_map_of_dom(crate::kvmap::string_pairs(self.user@), k);
        let m = choose|m: int| crate::kvmap::key_at(crate::kvmap::string_pairs(self.user@), k, m);
        lemma_smap_at(self.user@, m);
    }
}

/// The switches of the role `find` gives for `id`.
pub open spec fn found_switches(user: Map<Seq<char>, RoleProfile>, id: Seq<char>) -> Map<Seq<char>, bool> {
    if user.contains_key(id) {
        enabled_map(user[id])
    } else {
        enabled_map_of_builtin(builtin_role_of(id))
    }
}

/// The switches a role boots with: those of its base (when it has one that
/// exists), overridden by its own.
pub open spec fn role_switches(user: Map<Seq<char>, RoleProfile>, id: Seq<char>) -> Map<Seq<char>, bool> {
    let base = if user.contains_key(id) { user[id].base } else { None };
    let base_sw = match base {
        Some(b) => if found(user, b@) is Some { Some(found_switches(user, b@)) } else { None },
        None => None,
    };
    merged_switches(base_sw, found_switches(user, id))
}

/// Switches a module list's entries on top of `acc`.
fn put_switches(acc: &mut Vec<(String, bool)>, mods: &Vec<(String, ModuleEntry)>)
    requires
        swf(old(acc)@),
    ensures
        swf(final(acc)@),
        smap(final(acc)@) == smap(old(acc)@).union_prefer_right(switches(smap(mods@))),
{
    let ghost start = smap(acc@);
    let mut j: usize = 0;
    assert(switches(smap(mods@.take(0))) =~= Map::<Seq<char>, bool>::empty());
    assert(start.union_prefer_right(Map::<Seq<char>, bool>::empty()) =~= start);
    while j < mods.len()
        invariant
            swf(acc@),
            j <= mods.len(),
            smap(acc@) == start.union_prefer_right(switches(smap(mods@.take(j as int)))),
        decreases mods.len() - j,
    {
        put(acc, mods[j].0.clone(), mods[j].1.enabled);
        proof {
            let t1 = mods@.take(j + 1);
            let t0 = mods@.take(j as int);
            assert(crate::kvmap::string_pairs(t1).drop_last() =~= crate::kvmap::string_pairs(t0));
            assert(smap(t1) == smap(t0).insert(mods@[j as int].0@, mods@[j as int].1));
            lemma_switches_insert(smap(t0), mods@[j as int].0@, mods@[j as int].1);
            assert(smap(acc@) =~= start.union_prefer_right(switches(smap(t1))));
        }
        j = j + 1;
    }
    assert(mods@.take(mods.len() as int) =~= mods@);
}

impl RoleManager {
    /// The modules a role boots, ascending: its base's switches overridden by
    /// its own, the ones switched on; a built-in role with none on boots its
    /// default modules.
    pub fn enabled_modules(&self, id: &str) -> (r: Result<Vec<String>, RuntimeError>)
        requires
            self.wf(),
        ensures
            found(self.user_view(), id@) is None ==> (r matches Err(e) && role_error(e, "role not found: "@ + id@)),
            found(self.user_view(), id@) is Some ==> (r matches Ok(v) && {
                let sw = role_switches(self.user_view(), id@);
                if (exists|m: Seq<char>| sw.contains_key(m) && sw[m]) {
                    &&& forall|i: int, j: int| 0 <= i < j < v@.len() ==> seq_lt((#[trigger] v@[i])@, (#[trigger] v@[j])@)
                    &&& forall|m: Seq<char>| #[trigger] names(v@).contains(m) <==> (sw.contains_key(m) && sw[m])
                } else if found(self.user_view(), id@) == Some(Trust::System) {
                    names(v@) == role_modules(builtin_role_of(id@))
                } else {
                    v@.len() == 0
                }
            }),
    {
        let (profile, trust) = match self.find(id) {
            Some(x) => x,
            None => {
                return Err(RuntimeError::RoleError(concat("role not found: ", id)));
            },
        };
        let ghost uv = self.user_view();
        let mut merged: Vec<(String, bool)> = Vec::new();
        assert(smap(merged@) =~= Map::<Seq<char>, bool>::empty());
        let ghost mut base_sw: Option<Map<Seq<char>, bool>> = None;
        proof {
            if uv.contains_key(id@) {
                self.lemma_user_id(id@);
            }
        }
        match &profile.base {
            Some(b) => {
                match self.find(b.as_str()) {
                    Some((bp, _)) => {
                        put_switches(&mut merged, &bp.modules);
                        proof {
                            base_sw = Some(found_switches(uv, b@));
                            if uv.contains_key(b@) {
                            }
                            assert(Map::<Seq<char>, bool>::empty().union_prefer_right(switches(smap(bp.modules@))) =~= found_switches(uv, b@));
                        }
                    },
                    None => {},
                }
            },
            None => {},
        }
        let ghost base_map = smap(merged@);
        put_switches(&mut merged, &profile.modules);
        let ghost sw = role_switches(uv, id@);
        proof {
            assert(enabled_map(profile) == found_switches(uv, id@));
            match base_sw {
                Some(bm) => {
                    assert(base_map == bm);
                    assert(smap(merged@) == sw);
                },
                None => {
                    assert(smap(merged@) =~= sw);
                },
            }
            assert(smap(merged@) == sw);
        }
        let p = key_order(&merged);
        let mut out: Vec<String> = Vec::new();
        let ghost mut idx: Seq<int> = Seq::empty();
        let mut a: usize = 0;
        while a < p.len()
            invariant
                swf(merged@),
                crate::sort::is_index_perm(p@, merged.len() as nat),
                forall|x: int, y: int|
                    0 <= x < y < p.len() ==> seq_lt(#[trigger] merged@[p@[x] as int].0@, #[trigger] merged@[p@[y] as int].0@),
                a <= p.len(),
                idx.len() == out@.len(),
                forall|i: int| 0 <= i < idx.len() ==> 0 <= #[trigger] idx[i] < a,
                forall|i: int, j: int| 0 <= i < j < idx.len() ==> #[trigger] idx[i] < #[trigger] idx[j],
                forall|i: int| 0 <= i < idx.len() ==> (#[trigger] out@[i])@ == merged@[p@[idx[i]] as int].0@ && merged@[p@[idx[i]] as int].1,
                forall|x: int| 0 <= x < a && #[trigger] merged@[p@[x] as int].1 ==> exists|i: int| 0 <= i < idx.len() && idx[i] == x,
            decreases p.len() - a,
        {
            if merged[p[a]].1 {
                out.push(merged[p[a]].0.clone());
                proof {
                    let old_idx = idx;
                    idx = idx.push(a as int);
                    assert forall|x: int| 0 <= x < a + 1 && #[trigger] merged@[p@[x] as int].1 implies exists|i: int| 0 <= i < idx.len() && idx[i] == x by {
                        if x < a {
                            let i = choose|i: int| 0 <= i < old_idx.len() && old_idx[i] == x;
                            assert(idx[i] == x);
                        } else {
                            assert(idx[old_idx.len() as int] == x);
                        }
                    }
                }
            }
            a = a + 1;
        }
        proof {
            assert forall|i: int, j: int| 0 <= i < j < out@.len() implies seq_lt((#[trigger] out@[i])@, (#[trigger] out@[j])@) by {
                assert(idx[i] < idx[j]);
                assert(seq_lt(merged@[p@[idx[i]] as int].0@, merged@[p@[idx[j]] as int].0@));
            }
        }
        proof {
            let sw = smap(merged@);
            assert forall|m: Seq<char>| #[trigger] names(out@).contains(m) <==> (sw.contains_key(m) && sw[m]) by {
                if names(out@).contains(m) {
                    let i = choose|i: int| 0 <= i < names(out@).len() && names(out@)[i] == m;
                    assert(out@[i]@ == m);
                    lemma_smap_at(merged@, p@[idx[i]] as int);
                }
                if sw.contains_key(m) && sw[m] {
                    lemma_key_order_covers(merged@, p@, m);
                    let x = choose|x: int| 0 <= x < p@.len() && merged@[p@[x] as int].0@ == m && merged@[p@[x] as int].1 == sw[m];
                    assert(merged@[p@[x] as int].1);
                    let i = choose|i: int| 0 <= i < idx.len() && idx[i] == x;
                    assert(names(out@)[i] == m);
                }
            }
        }
        if out.len() == 0 && trust == Trust::System {
            let role = if str_eq(id, "server") { Role::Server } else { Role::Client };
            proof {
                reveal_strlit("server");
                assert(!(exists|m: Seq<char>| smap(merged@).contains_key(m) && smap(merged@)[m])) by {
                    if exists|m: Seq<char>| smap(merged@).contains_key(m) && smap(merged@)[m] {
                        let m = choose|m: Seq<char>| smap(merged@).contains_key(m) && smap(merged@)[m];
                        assert(names(out@).contains(m));
                    }
                }
            }
            let defaults = role.default_modules();
            let mut v: Vec<String> = Vec::new();
            let mut i: usize = 0;
            while i < defaults.len()
                invariant
                    i <= defaults.len(),
                    names(v@) == defaults@.map_values(|s: &'static str| s@).take(i as int),
                decreases defaults.len() - i,
            {
                let ghost prev = v@;
                v.push(defaults[i].to_string());
                proof {
                    assert(names(v@) =~= names(prev).push(defaults@[i as int]@));
                    assert(defaults@.map_values(|s: &'static str| s@).take(i + 1) =~= defaults@.map_values(|s: &'static str| s@).take(i as int).push(defaults@[i as int]@));
                }
                i = i + 1;
            }
            assert(defaults@.map_values(|s: &'static str| s@).take(defaults.len() as int) =~= defaults@.map_values(|s: &'static str| s@));
            return Ok(v);
        }
        proof {
            if out@.len() == 0 {
                assert(!(exists|m: Seq<char>| smap(merged@).contains_key(m) && smap(merged@)[m])) by {
                    if exists|m: Seq<char>| smap(merged@).contains_key(m) && smap(merged@)[m] {
                        let m = choose|m: Seq<char>| smap(merged@).contains_key(m) && smap(merged@)[m];
                        assert(names(out@).contains(m));
                    }
                }
            } else {
                let m = out@[0]@;
                assert(names(out@)[0] == m);
                assert(names(out@).contains(m));
                assert(smap(merged@).contains_key(m) && smap(merged@)[m]);
            }
            assert(smap(merged@) == role_switches(self.user_view(), id@));
            assert(found(self.user_view(), id@) == Some(trust));
        }
        Ok(out)
    }
}

/// The switches of a built-in role: its default modules, all on.
pub open spec fn enabled_map_of_builtin(r: Role) -> Map<Seq<char>, bool> {
    Map::new(|m: Seq<char>| role_modules(r).contains(m), |m: Seq<char>| true)
}

} // verus!
