//! Backend registry: which backend serves a model name (exact name first,
//! then the longest built-in prefix, then the only backend), and the model
//! catalog. The backends themselves are the caller's; the registry routes by
//! what it reads of them: name, provider and models.
use vstd::prelude::*;
use crate::json::{jnum, jtext, view_fields, view_items, Json, JsonView};
use crate::protocol::{new_arr, new_obj, num, put_field, put_item};
use crate::text::string_views;
use crate::backend::{filled, opt_view, provider_default_model, provider_from_name, BackendEntry, KeyEnv, OpenAICompatConfig, Provider};
use crate::kvmap::{find_key, get_key, key_order, lemma_key_order_covers, lemma_map_of_dom, lemma_smap_at, lemma_smap_len, lemma_string_pairs_lookup, put, smap, string_pairs, key_at, swf};
use crate::rules::{nonempty, strings_view};
use crate::text::{blank, concat, has_prefix, is_blank, seq_lt, starts_with, str_lt};

verus! {

/// The model-name prefix a built-in provider routes by (`None`: exact names only).
pub open spec fn route_prefix(p: Provider) -> Option<Seq<char>> {
    match p {
        Provider::DeepSeek => Some("deepseek-"@),
        Provider::Kimi => Some("kimi-"@),
        Provider::Zhipu => Some("glm-"@),
        Provider::Mock => Some("mock-"@),
        _ => None,
    }
}

/// Routing prefix of a provider: deepseek-*, kimi-*, glm-* (Zhipu), mock-*.
pub fn prefix_for(p: Provider) -> (r: Option<&'static str>)
    ensures
        match r {
            Some(s) => route_prefix(p) == Some(s@),
            None => route_prefix(p) is None,
        },
{
    match p {
        Provider::DeepSeek => Some("deepseek-"),
        Provider::Kimi => Some("kimi-"),
        Provider::Zhipu => Some("glm-"),
        Provider::Mock => Some("mock-"),
        _ => None,
    }
}

/// What routing reads of a backend.
#[derive(Debug, Clone)]
pub struct BackendInfo {
    pub name: String,
    pub provider: Provider,
    pub models: Vec<String>,
}

impl BackendInfo {
    pub fn duplicate(&self) -> (r: BackendInfo)
        ensures
            r.name == self.name,
            r.provider == self.provider,
            r.models@ == self.models@,
    {
        let mut models: Vec<String> = Vec::new();
        let mut i: usize = 0;
        while i < self.models.len()
            invariant
                i <= self.models.len(),
                models@ == self.models@.take(i as int),
            decreases self.models.len() - i,
        {
            models.push(self.models[i].clone());
            assert(self.models@.take(i + 1) =~= self.models@.take(i as int).push(self.models@[i as int]));
            i = i + 1;
        }
        assert(self.models@.take(self.models.len() as int) =~= self.models@);
        BackendInfo { name: self.name.clone(), provider: self.provider, models }
    }
}

/// The models an OpenAI-compatible backend serves: its non-empty configured
/// models; else the single model when non-empty; else the provider's defaults.
pub open spec fn served_models(c: OpenAICompatConfig) -> Seq<Seq<char>> {
    if nonempty(strings_view(c.models@)).len() > 0 {
        nonempty(strings_view(c.models@))
    } else if filled(opt_view(c.model)) {
        seq![opt_view(c.model)->0]
    } else {
        crate::backend::provider_default_models(c.provider)
    }
}

/// A built backend: the mock, or an OpenAI-compatible one.
#[derive(Debug, Clone)]
pub enum BuiltBackend {
    Mock,
    Compat(OpenAICompatConfig),
}

/// The models an OpenAI-compatible backend serves.
pub fn compat_models(c: &OpenAICompatConfig) -> (r: Vec<String>)
    ensures
        strings_view(r@) == served_models(*c),
{
    let mut list: Vec<String> = Vec::new();
    crate::rules::push_nonempty(&mut list, &c.models);
    assert(strings_view(list@) =~= nonempty(strings_view(c.models@)));
    if list.len() > 0 {
        return list;
    }
    let mut out: Vec<String> = Vec::new();
    match &c.model {
        Some(m) => {
            if crate::text::char_count(m.as_str()) > 0 {
                out.push(m.clone());
                assert(strings_view(out@) =~= seq![opt_view(c.model)->0]);
                return out;
            }
        },
        None => {},
    }
    let d = c.provider.default_models();
    let mut i: usize = 0;
    while i < d.len()
        invariant
            i <= d.len(),
            strings_view(out@) == d@.map_values(|s: &'static str| s@).take(i as int),
        decreases d.len() - i,
    {
        let ghost prev = out@;
        out.push(d[i].to_string());
        proof {
            assert(strings_view(out@) =~= strings_view(prev).push(d@[i as int]@));
            assert(d@.map_values(|s: &'static str| s@).take(i + 1) =~= d@.map_values(|s: &'static str| s@).take(i as int).push(d@[i as int]@));
        }
        i = i + 1;
    }
    assert(d@.map_values(|s: &'static str| s@).take(d.len() as int) =~= d@.map_values(|s: &'static str| s@));
    out
}

/// The routing name of a backend: its display name, else the provider's name.
pub open spec fn built_name(b: BuiltBackend) -> Seq<char> {
    match b {
        BuiltBackend::Mock => "mock"@,
        BuiltBackend::Compat(c) => match c.name {
            Some(n) => n@,
            None => crate::backend::provider_name(c.provider),
        },
    }
}

/// What routing reads of a built backend.
pub fn info_of(b: &BuiltBackend) -> (i: BackendInfo)
    ensures
        i.name@ == built_name(*b),
        match b {
            BuiltBackend::Mock => i.provider == Provider::Mock && strings_view(i.models@) == seq!["mock-7b"@],
            BuiltBackend::Compat(c) => i.provider == c.provider && strings_view(i.models@) == served_models(*c),
        },
{
    match b {
        BuiltBackend::Mock => {
            let mut models: Vec<String> = Vec::new();
            models.push("mock-7b".to_string());
            assert(strings_view(models@) =~= seq!["mock-7b"@]);
            BackendInfo { name: "mock".to_string(), provider: Provider::Mock, models }
        },
        BuiltBackend::Compat(c) => {
            let name = match &c.name {
                Some(n) => n.clone(),
                None => c.provider.name().to_string(),
            };
            BackendInfo { name, provider: c.provider, models: compat_models(c) }
        },
    }
}

/// The message refusing a custom provider entry: `custom provider '<id>' requires <what>`.
pub open spec fn entry_error(id: Seq<char>, what: Seq<char>) -> Seq<char> {
    "custom provider '"@ + id + "' requires "@ + what
}

fn entry_error_text(id: &str, what: &str) -> (s: String)
    ensures
        s@ == entry_error(id@, what@),
{
    let a = concat("custom provider '", id);
    let b = concat(a.as_str(), "' requires ");
    let s = concat(b.as_str(), what);
    assert(s@ =~= entry_error(id@, what@));
    s
}

/// The routing key of an entry: its id, else its provider.
pub open spec fn entry_id(e: BackendEntry) -> Seq<char> {
    match e.id {
        Some(i) => i@,
        None => e.provider@,
    }
}

/// Why a configuration entry cannot be built (`None`: it can): a custom
/// provider needs a non-blank base URL and at least one model.
pub open spec fn entry_refusal(e: BackendEntry) -> Option<Seq<char>> {
    if provider_from_name(e.provider@) != Provider::Custom {
        None
    } else if e.base_url is None || blank(opt_view(e.base_url)->0) {
        Some(entry_error(entry_id(e), "base_url"@))
    } else if crate::backend::spec_effective_models(e).len() == 0 {
        Some(entry_error(entry_id(e), "at least one model"@))
    } else {
        None
    }
}

/// The routing name the backend built from an entry gets.
pub open spec fn entry_route_name(e: BackendEntry) -> Seq<char> {
    if provider_from_name(e.provider@) == Provider::Mock {
        "mock"@
    } else {
        entry_id(e)
    }
}

/// Builds a backend from a configuration entry: the mock as is; otherwise an
/// OpenAI-compatible backend named after the entry, refused as `entry_refusal` says.
pub fn backend_from_entry(entry: &BackendEntry, env: &KeyEnv) -> (r: Result<BuiltBackend, String>)
    ensures
        r is Err <==> entry_refusal(*entry) is Some,
        r matches Err(m) ==> entry_refusal(*entry) == Some(m@),
        provider_from_name(entry.provider@) == Provider::Mock ==> r matches Ok(BuiltBackend::Mock),
        r matches Ok(b) ==> built_name(b) == entry_route_name(*entry),
        r matches Ok(BuiltBackend::Compat(c)) ==> {
            &&& provider_from_name(entry.provider@) != Provider::Mock
            &&& c.provider == provider_from_name(entry.provider@)
            &&& c.api_key@ == match crate::backend::spec_api_key(*entry, *env) {
                Some(k) => k,
                None => Seq::<char>::empty(),
            }
            &&& opt_view(c.model) == (if filled(opt_view(entry.model)) { opt_view(entry.model) } else { None })
            &&& strings_view(c.models@) == crate::backend::spec_effective_models(*entry)
            &&& opt_view(c.base_url) == opt_view(entry.base_url)
            &&& c.timeout_secs == 60
            &&& opt_view(c.name) == Some(entry_id(*entry))
        },
{
    let provider = Provider::from_str(entry.provider.as_str());
    if provider == Provider::Mock {
        return Ok(BuiltBackend::Mock);
    }
    let builtin = provider.is_builtin();
    if !builtin {
        let missing = match &entry.base_url {
            Some(u) => is_blank(u.as_str()),
            None => true,
        };
        if missing {
            let id = entry.backend_id();
            return Err(entry_error_text(id.as_str(), "base_url"));
        }
    }
    let models = entry.effective_models();
    if !builtin && models.len() == 0 {
        let id = entry.backend_id();
        return Err(entry_error_text(id.as_str(), "at least one model"));
    }
    let api_key = match entry.resolve_api_key(env) {
        Some(k) => k,
        None => String::new(),
    };
    let model = match &entry.model {
        Some(m) => if crate::text::char_count(m.as_str()) > 0 { Some(m.clone()) } else { None },
        None => None,
    };
    let base_url = match &entry.base_url {
        Some(u) => Some(u.clone()),
        None => None,
    };
    Ok(BuiltBackend::Compat(OpenAICompatConfig {
        provider,
        api_key,
        model,
        models,
        base_url,
        timeout_secs: 60,
        name: Some(entry.backend_id()),
    }))
}

/// The exact-name table after a backend named `name` serving `models` joins.
pub open spec fn with_models(exact: Map<Seq<char>, String>, models: Seq<Seq<char>>, name: String) -> Map<Seq<char>, String> {
    Map::new(
        |k: Seq<char>| exact.contains_key(k) || models.contains(k),
        |k: Seq<char>| if models.contains(k) { name } else { exact[k] },
    )
}

/// The prefix table after `info` joins a registry that had backends or not.
pub open spec fn with_prefix(prefixes: Map<Seq<char>, String>, info: BackendInfo, had_backends: bool) -> Map<Seq<char>, String> {
    match route_prefix(info.provider) {
        Some(p) => if info.provider != Provider::Mock || !had_backends {
            prefixes.insert(p, info.name)
        } else {
            prefixes
        },
        None => prefixes,
    }
}

/// The three tables (backends, prefixes, exact names) after registering
/// `infos` in order into an empty registry.
pub open spec fn tables_after(infos: Seq<BackendInfo>) -> (Map<Seq<char>, BackendInfo>, Map<Seq<char>, String>, Map<Seq<char>, String>)
    decreases infos.len(),
{
    if infos.len() == 0 {
        (Map::empty(), Map::empty(), Map::empty())
    } else {
        let t = tables_after(infos.drop_last());
        let x = infos.last();
        (t.0.insert(x.name@, x), with_prefix(t.1, x, t.0.len() > 0), with_models(t.2, strings_view(x.models@), x.name))
    }
}

/// A prefix that routes `model`: registered, a prefix of it, and pointing at
/// a registered backend.
pub open spec fn prefix_hit(bk: Map<Seq<char>, BackendInfo>, px: Map<Seq<char>, String>, model: Seq<char>, p: Seq<char>) -> bool {
    &&& px.contains_key(p)
    &&& has_prefix(model, p)
    &&& bk.contains_key(px[p]@)
}

/// `model` is registered by exact name, to a registered backend.
pub open spec fn exact_hit(bk: Map<Seq<char>, BackendInfo>, ex: Map<Seq<char>, String>, model: Seq<char>) -> bool {
    ex.contains_key(model) && bk.contains_key(ex[model]@)
}

/// Where `model` goes: the exact entry; else the backend of the longest
/// routing prefix; else the only backend; else nowhere.
pub open spec fn routes_to(
    bk: Map<Seq<char>, BackendInfo>,
    px: Map<Seq<char>, String>,
    ex: Map<Seq<char>, String>,
    model: Seq<char>,
    r: Option<Seq<char>>,
) -> bool {
    if exact_hit(bk, ex, model) {
        r == Some(ex[model]@)
    } else if exists|p: Seq<char>| #[trigger] prefix_hit(bk, px, model, p) {
        exists|p: Seq<char>|
            #[trigger] prefix_hit(bk, px, model, p) && (forall|q: Seq<char>| #[trigger] prefix_hit(bk, px, model, q) ==> q.len() <= p.len())
                && r == Some(px[p]@)
    } else if bk.len() == 1 {
        r matches Some(n) && bk.contains_key(n)
    } else {
        r is None
    }
}

/// Routing is a function of the tables: one model goes to one backend.
pub proof fn law_route_unique(
    bk: Map<Seq<char>, BackendInfo>,
    px: Map<Seq<char>, String>,
    ex: Map<Seq<char>, String>,
    model: Seq<char>,
    r1: Option<Seq<char>>,
    r2: Option<Seq<char>>,
)
    requires
        bk.dom().finite(),
        routes_to(bk, px, ex, model, r1),
        routes_to(bk, px, ex, model, r2),
    ensures
        r1 == r2,
{
    if exact_hit(bk, ex, model) {
    } else if exists|p: Seq<char>| #[trigger] prefix_hit(bk, px, model, p) {
        let p1 = choose|p: Seq<char>|
            #[trigger] prefix_hit(bk, px, model, p) && (forall|q: Seq<char>| #[trigger] prefix_hit(bk, px, model, q) ==> q.len() <= p.len())
                && r1 == Some(px[p]@);
        let p2 = choose|p: Seq<char>|
            #[trigger] prefix_hit(bk, px, model, p) && (forall|q: Seq<char>| #[trigger] prefix_hit(bk, px, model, q) ==> q.len() <= p.len())
                && r2 == Some(px[p]@);
        assert(p1.len() == p2.len());
        assert(p1 =~= p2) by {
            assert(p1 == model.subrange(0, p1.len() as int));
            assert(p2 == model.subrange(0, p2.len() as int));
        }
    } else if bk.len() == 1 {
        let n1 = r1->0;
        let n2 = r2->0;
        if n1 != n2 {
            assert(bk.dom().remove(n1).contains(n2));
            assert(bk.dom().remove(n1).len() == 0);
            assert(bk.dom().remove(n1) =~= Set::<Seq<char>>::empty()) by {
                vstd::set_lib::lemma_set_empty_equivalency_len(bk.dom().remove(n1));
            }
        }
    }
}

/// Backend `n` serves model `m`.
pub open spec fn serves(bk: Map<Seq<char>, BackendInfo>, n: Seq<char>, m: Seq<char>) -> bool {
    bk.contains_key(n) && strings_view(bk[n].models@).contains(m)
}

/// `(m, n)` is a catalog line: `n` serves `m` and no backend serving `m` has
/// a smaller name.
pub open spec fn catalog_entry(bk: Map<Seq<char>, BackendInfo>, m: Seq<char>, n: Seq<char>) -> bool {
    &&& serves(bk, n, m)
    &&& forall|n2: Seq<char>| #[trigger] serves(bk, n2, m) ==> n2 == n || seq_lt(n, n2)
}

/// Model `b` of backend `a` has been looked at, the backends being taken in
/// order and their models in order, up to model `j` of backend `i`.
spec fn done(bs: Seq<(String, BackendInfo)>, i: int, j: int, a: int, b: int) -> bool {
    &&& 0 <= a < bs.len()
    &&& 0 <= b < bs[a].1.models@.len()
    &&& (a < i || (a == i && b < j))
}

spec fn model_at(bs: Seq<(String, BackendInfo)>, a: int, b: int) -> Seq<char> {
    bs[a].1.models@[b]@
}

/// The catalog so far lists `m`, with a name no greater than `n`.
spec fn best_so_far(acc: Map<Seq<char>, String>, m: Seq<char>, n: Seq<char>) -> bool {
    acc.contains_key(m) && (acc[m]@ == n || seq_lt(acc[m]@, n))
}

/// Multi-backend registry.
pub struct BackendRegistry {
    backends: Vec<(String, BackendInfo)>,
    prefixes: Vec<(String, String)>,
    exact: Vec<(String, String)>,
}

impl BackendRegistry {
    pub closed spec fn wf(&self) -> bool {
        &&& swf(self.backends@)
        &&& swf(self.prefixes@)
        &&& swf(self.exact@)
        &&& forall|i: int| 0 <= i < self.backends@.len() ==> (#[trigger] self.backends@[i]).0@ == self.backends@[i].1.name@
    }

    /// Backends by name.
    pub closed spec fn backends_view(&self) -> Map<Seq<char>, BackendInfo> {
        smap(self.backends@)
    }

    /// Routing prefixes, each to a backend name.
    pub closed spec fn prefixes_view(&self) -> Map<Seq<char>, String> {
        smap(self.prefixes@)
    }

    /// Exact model names, each to a backend name.
    pub closed spec fn exact_view(&self) -> Map<Seq<char>, String> {
        smap(self.exact@)
    }

    pub fn new() -> (r: Self)
        ensures
            r.wf(),
            r.backends_view() == Map::<Seq<char>, BackendInfo>::empty(),
            r.prefixes_view() == Map::<Seq<char>, String>::empty(),
            r.exact_view() == Map::<Seq<char>, String>::empty(),
    {
        let r = BackendRegistry { backends: Vec::new(), prefixes: Vec::new(), exact: Vec::new() };
        assert(smap(r.backends@) =~= Map::empty());
        assert(smap(r.prefixes@) =~= Map::empty());
        assert(smap(r.exact@) =~= Map::empty());
        r
    }

    /// The registered backends form a finite table.
    pub proof fn lemma_finite(&self)
        requires
            self.wf(),
        ensures
            self.backends_view().dom().finite(),
    {
        lemma_smap_len(self.backends@);
    }

    /// Registers a backend: a built-in provider claims its prefix (the mock
    /// only when it is the first backend), its models route to it by exact
    /// name, and it replaces a backend of the same name.
    pub fn register(&mut self, info: BackendInfo)
        requires
            old(self).wf(),
        ensures
            final(self).wf(),
            final(self).backends_view() == old(self).backends_view().insert(info.name@, info),
            final(self).prefixes_view() == with_prefix(old(self).prefixes_view(), info, old(self).backends_view().len() > 0),
            final(self).exact_view() == with_models(old(self).exact_view(), strings_view(info.models@), info.name),
    {
        proof {
            lemma_smap_len(self.backends@);
        }
        let had = self.backends.len() > 0;
        match prefix_for(info.provider) {
            Some(p) => {
                if info.provider != Provider::Mock || !had {
                    put(&mut self.prefixes, p.to_string(), info.name.clone());
                }
            },
            None => {},
        }
        let ghost ex0 = smap(self.exact@);
        let ghost ms = strings_view(info.models@);
        let ghost px1 = self.prefixes@;
        let mut j: usize = 0;
        while j < info.models.len()
            invariant
                swf(self.exact@),
                self.prefixes@ == px1,
                self.backends@ == old(self).backends@,
                old(self).wf(),
                j <= info.models.len(),
                ms == strings_view(info.models@),
                smap(self.exact@) == with_models(ex0, ms.take(j as int), info.name),
            decreases info.models.len() - j,
        {
            put(&mut self.exact, info.models[j].clone(), info.name.clone());
            proof {
                let t1 = ms.take(j + 1);
                let t0 = ms.take(j as int);
                assert(t1 == t0.push(ms[j as int]));
                assert forall|k: Seq<char>| t1.contains(k) <==> (t0.contains(k) || k == ms[j as int]) by {
                    if t1.contains(k) {
                        let a = choose|a: int| 0 <= a < t1.len() && t1[a] == k;
                        if a < j {
                            assert(t0[a] == k);
                        }
                    }
                    if t0.contains(k) {
                        let a = choose|a: int| 0 <= a < t0.len() && t0[a] == k;
                        assert(t1[a] == k);
                    }
                    if k == ms[j as int] {
                        assert(t1[j as int] == k);
                    }
                }
                assert(smap(self.exact@) =~= with_models(ex0, ms.take(j + 1), info.name));
            }
            j = j + 1;
        }
        assert(ms.take(info.models.len() as int) =~= ms);
        let ghost bk0 = self.backends@;
        let ghost added = info;
        put(&mut self.backends, info.name.clone(), info);
        proof {
            assert forall|i: int| 0 <= i < self.backends@.len() implies (#[trigger] self.backends@[i]).0@ == self.backends@[i].1.name@ by {
                lemma_smap_at(self.backends@, i);
                let k = self.backends@[i].0@;
                if k != added.name@ {
                    lemma_map_of_dom(string_pairs(bk0), k);
                    let m = choose|m: int| key_at(string_pairs(bk0), k, m);
                    lemma_smap_at(bk0, m);
                }
            }
        }
    }

    /// Replaces everything with these backends, registered in order into an
    /// empty registry.
    pub fn replace_all(&mut self, backends: Vec<BackendInfo>)
        requires
            old(self).wf(),
        ensures
            final(self).wf(),
            (final(self).backends_view(), final(self).prefixes_view(), final(self).exact_view()) == tables_after(backends@),
    {
        let mut fresh = BackendRegistry::new();
        let ghost all = backends@;
        let mut rest = backends;
        while rest.len() > 0
            invariant
                fresh.wf(),
                rest@.len() <= all.len(),
                rest@ == all.skip(all.len() - rest@.len()),
                (fresh.backends_view(), fresh.prefixes_view(), fresh.exact_view()) == tables_after(all.take(all.len() - rest@.len())),
            decreases rest@.len(),
        {
            let ghost k = all.len() - rest@.len();
            let b = rest.remove(0);
            proof {
                assert(b == all[k]);
                assert(rest@ =~= all.skip(k + 1));
                assert(all.take(k + 1).drop_last() =~= all.take(k));
                assert(all.take(k + 1).last() == b);
            }
            fresh.register(b);
        }
        assert(all.take(all.len() as int) =~= all);
        *self = fresh;
    }

    /// The backend serving `model`, by name.
    pub fn route(&self, model: &str) -> (r: Option<String>)
        requires
            self.wf(),
        ensures
            routes_to(self.backends_view(), self.prefixes_view(), self.exact_view(), model@, opt_view(r)),
    {
        let bk = &self.backends;
        match get_key(&self.exact, model) {
            Some(name) => {
                if get_key(bk, name.as_str()).is_some() {
                    return Some(name.clone());
                }
            },
            None => {},
        }
        let mut best: Option<usize> = None;
        let mut best_len: usize = 0;
        let mut i: usize = 0;
        while i < self.prefixes.len()
            invariant
                self.wf(),
                i <= self.prefixes.len(),
                match best {
                    Some(b) => b < i && has_prefix(model@, self.prefixes@[b as int].0@)
                        && smap(self.backends@).contains_key(self.prefixes@[b as int].1@)
                        && best_len == self.prefixes@[b as int].0@.len()
                        && forall|a: int| 0 <= a < i && has_prefix(model@, #[trigger] self.prefixes@[a].0@)
                            && smap(self.backends@).contains_key(self.prefixes@[a].1@) ==> self.prefixes@[a].0@.len() <= best_len,
                    None => forall|a: int| 0 <= a < i ==> !(has_prefix(model@, #[trigger] self.prefixes@[a].0@)
                        && smap(self.backends@).contains_key(self.prefixes@[a].1@)),
                },
            decreases self.prefixes.len() - i,
        {
            let p = self.prefixes[i].0.as_str();
            let n = self.prefixes[i].1.as_str();
            if starts_with(model, p) && get_key(&self.backends, n).is_some() {
                let len = crate::text::char_count(p);
                let better = match best {
                    Some(_) => len > best_len,
                    None => true,
                };
                if better {
                    best = Some(i);
                    best_len = len;
                }
            }
            i = i + 1;
        }
        let ghost bv = smap(self.backends@);
        proof {
            lemma_smap_len(self.backends@);
        }
        match best {
            Some(b) => {
                proof {
                    lemma_smap_at(self.prefixes@, b as int);
                    let pb = self.prefixes@[b as int].0@;
                    assert(prefix_hit(bv, smap(self.prefixes@), model@, pb));
                    assert forall|q: Seq<char>| #[trigger] prefix_hit(bv, smap(self.prefixes@), model@, q) implies q.len() <= pb.len() by {
                        lemma_map_of_dom(string_pairs(self.prefixes@), q);
                        let m = choose|m: int| key_at(string_pairs(self.prefixes@), q, m);
                        lemma_smap_at(self.prefixes@, m);
                        assert(has_prefix(model@, self.prefixes@[m].0@));
                    }
                }
                Some(self.prefixes[b].1.clone())
            },
            None => {
                proof {
                    assert forall|q: Seq<char>| !#[trigger] prefix_hit(bv, smap(self.prefixes@), model@, q) by {
                        if prefix_hit(bv, smap(self.prefixes@), model@, q) {
                            lemma_map_of_dom(string_pairs(self.prefixes@), q);
                            let m = choose|m: int| key_at(string_pairs(self.prefixes@), q, m);
                            lemma_smap_at(self.prefixes@, m);
                            assert(has_prefix(model@, self.prefixes@[m].0@));
                        }
                    }
                }
                if self.backends.len() == 1 {
                    proof {
                        lemma_smap_at(self.backends@, 0);
                    }
                    Some(self.backends[0].0.clone())
                } else {
                    None
                }
            },
        }
    }

    /// Number of backends.
    pub fn backend_count(&self) -> (n: usize)
        requires
            self.wf(),
        ensures
            n == self.backends_view().len(),
    {
        proof {
            lemma_smap_len(self.backends@);
        }
        self.backends.len()
    }

    /// Backend names, ascending.
    pub fn backend_names(&self) -> (r: Vec<String>)
        requires
            self.wf(),
        ensures
            r@.len() == self.backends_view().len(),
            forall|i: int| 0 <= i < r@.len() ==> self.backends_view().contains_key(#[trigger] r@[i]@),
            forall|i: int, j: int| 0 <= i < j < r@.len() ==> seq_lt((#[trigger] r@[i])@, (#[trigger] r@[j])@),
    {
        let p = key_order(&self.backends);
        let mut r: Vec<String> = Vec::new();
        let mut a: usize = 0;
        while a < p.len()
            invariant
                self.wf(),
                crate::sort::is_index_perm(p@, self.backends.len() as nat),
                forall|x: int, y: int|
                    0 <= x < y < p.len() ==> seq_lt(#[trigger] self.backends@[p@[x] as int].0@, #[trigger] self.backends@[p@[y] as int].0@),
                a <= p.len(),
                r@.len() == a,
                forall|b: int| 0 <= b < a ==> (#[trigger] r@[b])@ == self.backends@[p@[b] as int].0@,
            decreases p.len() - a,
        {
            r.push(self.backends[p[a]].0.clone());
            a = a + 1;
        }
        proof {
            lemma_smap_len(self.backends@);
            assert forall|i: int| 0 <= i < r@.len() implies self.backends_view().contains_key(#[trigger] r@[i]@) by {
                lemma_smap_at(self.backends@, p@[i] as int);
            }
            assert forall|i: int, j: int| 0 <= i < j < r@.len() implies seq_lt((#[trigger] r@[i])@, (#[trigger] r@[j])@) by {
                assert(seq_lt(self.backends@[p@[i] as int].0@, self.backends@[p@[j] as int].0@));
            }
        }
        r
    }

    /// The model catalog: every model some backend serves, once, ascending,
    /// each with the least backend name (in string order) among those serving it.
    pub fn models_catalog(&self) -> (r: Vec<(String, String)>)
        requires
            self.wf(),
        ensures
            forall|x: int| 0 <= x < r@.len() ==> #[trigger] catalog_entry(self.backends_view(), r@[x].0@, r@[x].1@),
            forall|x: int, y: int| 0 <= x < y < r@.len() ==> seq_lt((#[trigger] r@[x]).0@, (#[trigger] r@[y]).0@),
            forall|n: Seq<char>, m: Seq<char>| #[trigger] serves(self.backends_view(), n, m) ==> exists|x: int| 0 <= x < r@.len() && r@[x].0@ == m,
    {
        let ghost bs = self.backends@;
        let mut acc: Vec<(String, String)> = Vec::new();
        assert(smap(acc@) =~= Map::<Seq<char>, String>::empty());
        let mut i: usize = 0;
        while i < self.backends.len()
            invariant
                self.wf(),
                bs == self.backends@,
                i <= bs.len(),
                swf(acc@),
                forall|a: int, b: int| #[trigger] done(bs, i as int, 0, a, b) ==> best_so_far(smap(acc@), model_at(bs, a, b), bs[a].0@),
                forall|k: Seq<char>| #[trigger] smap(acc@).contains_key(k) ==> exists|a: int, b: int|
                    done(bs, i as int, 0, a, b) && model_at(bs, a, b) == k && smap(acc@)[k]@ == bs[a].0@,
            decreases bs.len() - i,
        {
            let info = &self.backends[i].1;
            let name = &self.backends[i].0;
            let mut j: usize = 0;
            while j < info.models.len()
                invariant
                    self.wf(),
                    bs == self.backends@,
                    i < bs.len(),
                    *info == bs[i as int].1,
                    *name == bs[i as int].0,
                    j <= info.models.len(),
                    swf(acc@),
                    forall|a: int, b: int| #[trigger] done(bs, i as int, j as int, a, b) ==> best_so_far(smap(acc@), model_at(bs, a, b), bs[a].0@),
                    forall|k: Seq<char>| #[trigger] smap(acc@).contains_key(k) ==> exists|a: int, b: int|
                        done(bs, i as int, j as int, a, b) && model_at(bs, a, b) == k && smap(acc@)[k]@ == bs[a].0@,
                decreases info.models.len() - j,
            {
                let m = info.models[j].as_str();
                let ghost acc0 = smap(acc@);
                let ghost mv = m@;
                let ghost nv = name@;
                assert(model_at(bs, i as int, j as int) == mv);
                let replace = match get_key(&acc, m) {
                    Some(best) => str_lt(name.as_str(), best.as_str()),
                    None => true,
                };
                if replace {
                    put(&mut acc, m.to_string(), name.clone());
                }
                proof {
                    let accn = smap(acc@);
                    assert(accn.contains_key(mv));
                    assert(accn[mv]@ == nv || (acc0.contains_key(mv) && accn[mv] == acc0[mv] && !seq_lt(nv, acc0[mv]@)));
                    assert forall|k: Seq<char>| k != mv implies (#[trigger] accn.contains_key(k)) == acc0.contains_key(k) && (acc0.contains_key(k) ==> accn[k] == acc0[k]) by {}
                    assert forall|a: int, b: int| #[trigger] done(bs, i as int, j + 1, a, b) implies best_so_far(accn, model_at(bs, a, b), bs[a].0@) by {
                        let k = model_at(bs, a, b);
                        if a == i && b == j {
                            if accn[mv]@ != nv {
                                crate::text::lemma_seq_lt_total(nv, accn[mv]@);
                            }
                        } else {
                            assert(done(bs, i as int, j as int, a, b));
                            if k == mv && replace && acc0.contains_key(mv) {
                                assert(seq_lt(nv, acc0[mv]@));
                                if acc0[mv]@ != bs[a].0@ {
                                    crate::text::lemma_seq_lt_transitive(nv, acc0[mv]@, bs[a].0@);
                                }
                            }
                        }
                    }
                    assert forall|k: Seq<char>| #[trigger] accn.contains_key(k) implies exists|a: int, b: int|
                        done(bs, i as int, j + 1, a, b) && model_at(bs, a, b) == k && accn[k]@ == bs[a].0@ by {
                        if k == mv && accn[mv]@ == nv {
                            assert(done(bs, i as int, j + 1, i as int, j as int));
                        } else {
                            let (a, b) = choose|a: int, b: int| done(bs, i as int, j as int, a, b) && model_at(bs, a, b) == k && acc0[k]@ == bs[a].0@;
                            assert(done(bs, i as int, j + 1, a, b));
                        }
                    }
                }
                j = j + 1;
            }
            proof {
                assert forall|a: int, b: int| done(bs, i + 1, 0, a, b) == done(bs, i as int, j as int, a, b) by {}
                assert forall|a: int, b: int| #[trigger] done(bs, i + 1, 0, a, b) implies best_so_far(smap(acc@), model_at(bs, a, b), bs[a].0@) by {
                    assert(done(bs, i as int, j as int, a, b));
                }
                assert forall|k: Seq<char>| #[trigger] smap(acc@).contains_key(k) implies exists|a: int, b: int|
                    done(bs, i + 1, 0, a, b) && model_at(bs, a, b) == k && smap(acc@)[k]@ == bs[a].0@ by {
                    let (a, b) = choose|a: int, b: int| done(bs, i as int, j as int, a, b) && model_at(bs, a, b) == k && smap(acc@)[k]@ == bs[a].0@;
                    assert(done(bs, i + 1, 0, a, b));
                }
            }
            i = i + 1;
        }
        let p = key_order(&acc);
        let mut out: Vec<(String, String)> = Vec::new();
        let mut x: usize = 0;
        while x < p.len()
            invariant
                swf(acc@),
                crate::sort::is_index_perm(p@, acc.len() as nat),
                x <= p.len(),
                out@.len() == x,
                forall|y: int| 0 <= y < x ==> (#[trigger] out@[y]).0@ == acc@[p@[y] as int].0@ && out@[y].1@ == acc@[p@[y] as int].1@,
            decreases p.len() - x,
        {
            let e = &acc[p[x]];
            out.push((e.0.clone(), e.1.clone()));
            x = x + 1;
        }
        proof {
            let bv = smap(bs);
            let am = smap(acc@);
            assert forall|x: int| 0 <= x < out@.len() implies #[trigger] catalog_entry(bv, out@[x].0@, out@[x].1@) by {
                let q = p@[x] as int;
                lemma_smap_at(acc@, q);
                let k = acc@[q].0@;
                let (a, b) = choose|a: int, b: int| done(bs, bs.len() as int, 0, a, b) && model_at(bs, a, b) == k && am[k]@ == bs[a].0@;
                lemma_smap_at(bs, a);
                assert(strings_view(bv[bs[a].0@].models@)[b] == k);
                assert(serves(bv, out@[x].1@, out@[x].0@));
                assert forall|n: Seq<char>| #[trigger] serves(bv, n, k) implies n == am[k]@ || seq_lt(am[k]@, n) by {
                    lemma_map_of_dom(string_pairs(bs), n);
                    let a2 = choose|a2: int| key_at(string_pairs(bs), n, a2);
                    lemma_smap_at(bs, a2);
                    let b2 = choose|b2: int| 0 <= b2 < strings_view(bv[n].models@).len() && strings_view(bv[n].models@)[b2] == k;
                    assert(done(bs, bs.len() as int, 0, a2, b2));
                }
            }
            assert forall|x: int, y: int| 0 <= x < y < out@.len() implies seq_lt((#[trigger] out@[x]).0@, (#[trigger] out@[y]).0@) by {
                assert(seq_lt(acc@[p@[x] as int].0@, acc@[p@[y] as int].0@));
            }
            assert forall|n: Seq<char>, m: Seq<char>| #[trigger] serves(bv, n, m) implies exists|x: int| 0 <= x < out@.len() && out@[x].0@ == m by {
                lemma_map_of_dom(string_pairs(bs), n);
                let a2 = choose|a2: int| key_at(string_pairs(bs), n, a2);
                lemma_smap_at(bs, a2);
                let b2 = choose|b2: int| 0 <= b2 < strings_view(bv[n].models@).len() && strings_view(bv[n].models@)[b2] == m;
                assert(done(bs, bs.len() as int, 0, a2, b2));
                assert(am.contains_key(m));
                lemma_key_order_covers(acc@, p@, m);
                let x = choose|x: int| 0 <= x < p@.len() && acc@[p@[x] as int].0@ == m && acc@[p@[x] as int].1 == am[m];
                assert(out@[x].0@ == m);
            }
        }
        out
    }
}

} // verus!

verus! {

/// The backends after registering a list are exactly the names in it.
pub proof fn lemma_tables_after_keys(infos: Seq<BackendInfo>)
    ensures
        forall|k: Seq<char>| #[trigger] tables_after(infos).0.contains_key(k) <==> exists|i: int| 0 <= i < infos.len() && infos[i].name@ == k,
    decreases infos.len(),
{
    if infos.len() > 0 {
        let init = infos.drop_last();
        lemma_tables_after_keys(init);
        assert forall|k: Seq<char>| #[trigger] tables_after(infos).0.contains_key(k) <==> exists|i: int| 0 <= i < infos.len() && infos[i].name@ == k by {
            let t0 = tables_after(init).0;
            assert(tables_after(infos).0 == t0.insert(infos.last().name@, infos.last()));
            if tables_after(infos).0.contains_key(k) && k != infos.last().name@ {
                assert(t0.contains_key(k));
                let i = choose|i: int| 0 <= i < init.len() && init[i].name@ == k;
                assert(infos[i].name@ == k);
            }
            if k == infos.last().name@ {
                assert(infos[infos.len() - 1].name@ == k);
            }
            if exists|i: int| 0 <= i < infos.len() && infos[i].name@ == k {
                let i = choose|i: int| 0 <= i < infos.len() && infos[i].name@ == k;
                if i < infos.len() - 1 {
                    assert(init[i].name@ == k);
                    assert(t0.contains_key(k));
                }
            }
        }
    }
}

/// Builds the registry from configuration entries, in order (`envs[i]` holds
/// what the environment gives the i-th); the first entry that cannot be built
/// refuses the whole list.
pub fn registry_from_entries(entries: &Vec<BackendEntry>, envs: &Vec<KeyEnv>) -> (r: Result<BackendRegistry, String>)
    requires
        entries.len() == envs.len(),
    ensures
        r matches Err(m) ==> exists|i: int| 0 <= i < entries@.len() && entry_refusal(#[trigger] entries@[i]) == Some(m@)
            && forall|j: int| 0 <= j < i ==> entry_refusal(#[trigger] entries@[j]) is None,
        r is Ok <==> forall|i: int| 0 <= i < entries@.len() ==> entry_refusal(#[trigger] entries@[i]) is None,
        r matches Ok(reg) ==> reg.wf() && forall|k: Seq<char>| #[trigger] reg.backends_view().contains_key(k) <==> exists|i: int|
            0 <= i < entries@.len() && entry_route_name(entries@[i]) == k,
        r matches Ok(reg) ==> exists|infos: Seq<BackendInfo>|
            (reg.backends_view(), reg.prefixes_view(), reg.exact_view()) == #[trigger] tables_after(infos) && infos.len() == entries@.len(),
{
    let mut built: Vec<BackendInfo> = Vec::new();
    let mut i: usize = 0;
    while i < entries.len()
        invariant
            i <= entries.len(),
            entries.len() == envs.len(),
            built@.len() == i,
            forall|j: int| 0 <= j < i ==> entry_refusal(#[trigger] entries@[j]) is None,
            forall|j: int| 0 <= j < i ==> (#[trigger] built@[j]).name@ == entry_route_name(entries@[j]),
        decreases entries.len() - i,
    {
        match backend_from_entry(&entries[i], &envs[i]) {
            Ok(b) => {
                built.push(info_of(&b));
            },
            Err(m) => {
                return Err(m);
            },
        }
        i = i + 1;
    }
    let mut reg = BackendRegistry::new();
    let ghost infos = built@;
    reg.replace_all(built);
    proof {
        lemma_tables_after_keys(infos);
        assert(reg.backends_view() == tables_after(infos).0);
        assert forall|k: Seq<char>| #[trigger] reg.backends_view().contains_key(k) <==> exists|i: int|
            0 <= i < entries@.len() && entry_route_name(entries@[i]) == k by {
            if reg.backends_view().contains_key(k) {
                assert(tables_after(infos).0.contains_key(k));
                let a = choose|a: int| 0 <= a < infos.len() && infos[a].name@ == k;
                assert(entry_route_name(entries@[a]) == k);
            }
            if exists|i: int| 0 <= i < entries@.len() && entry_route_name(entries@[i]) == k {
                let a = choose|a: int| 0 <= a < entries@.len() && entry_route_name(entries@[a]) == k;
                assert(infos[a].name@ == k);
                assert(tables_after(infos).0.contains_key(k));
            }
        }
    }
    Ok(reg)
}

} // verus!

verus! {

/// Some backend serves model `m`.
pub open spec fn served(bk: Map<Seq<char>, BackendInfo>, m: Seq<char>) -> bool {
    exists|n: Seq<char>| #[trigger] serves(bk, n, m)
}

/// `c` lists the served models once each, ascending.
pub open spec fn is_catalog(bk: Map<Seq<char>, BackendInfo>, c: Seq<Seq<char>>) -> bool {
    &&& forall|x: int| 0 <= x < c.len() ==> served(bk, #[trigger] c[x])
    &&& forall|x: int, y: int| 0 <= x < y < c.len() ==> seq_lt(#[trigger] c[x], #[trigger] c[y])
    &&& forall|n: Seq<char>, m: Seq<char>| #[trigger] serves(bk, n, m) ==> c.contains(m)
}

/// A model in an OpenAI `/v1/models` answer.
pub open spec fn openai_model_entry(m: Seq<char>) -> JsonView {
    JsonView::Obj(seq![
        ("id"@, JsonView::Str(m)),
        ("object"@, JsonView::Str("model"@)),
        ("created"@, num(0)),
        ("owned_by"@, JsonView::Str("aipowerlink"@)),
    ])
}

/// A model in an Anthropic `/v1/models` answer.
pub open spec fn anthropic_model_entry(m: Seq<char>) -> JsonView {
    JsonView::Obj(seq![
        ("id"@, JsonView::Str(m)),
        ("type"@, JsonView::Str("model"@)),
        ("display_name"@, JsonView::Str(m)),
        ("created_at"@, JsonView::Str("2026-01-01T00:00:00Z"@)),
    ])
}

impl BackendRegistry {
    /// The served model ids, once each, ascending.
    pub fn catalog_models(&self) -> (r: Vec<String>)
        requires
            self.wf(),
        ensures
            is_catalog(self.backends_view(), string_views(r@)),
    {
        let cat = self.models_catalog();
        let mut r: Vec<String> = Vec::new();
        let mut i: usize = 0;
        while i < cat.len()
            invariant
                i <= cat.len(),
                r@.len() == i,
                forall|x: int| 0 <= x < i ==> (#[trigger] r@[x])@ == cat@[x].0@,
            decreases cat.len() - i,
        {
            r.push(cat[i].0.clone());
            i = i + 1;
        }
        proof {
            let c = string_views(r@);
            assert forall|x: int| 0 <= x < c.len() implies served(self.backends_view(), #[trigger] c[x]) by {
                assert(catalog_entry(self.backends_view(), cat@[x].0@, cat@[x].1@));
                assert(serves(self.backends_view(), cat@[x].1@, c[x]));
            }
            assert forall|x: int, y: int| 0 <= x < y < c.len() implies seq_lt(#[trigger] c[x], #[trigger] c[y]) by {
                assert(seq_lt(cat@[x].0@, cat@[y].0@));
            }
            assert forall|n: Seq<char>, m: Seq<char>| #[trigger] serves(self.backends_view(), n, m) implies c.contains(m) by {
                let x = choose|x: int| 0 <= x < cat@.len() && cat@[x].0@ == m;
                assert(c[x] == m);
            }
        }
        r
    }

    /// The OpenAI `/v1/models` answer: every served model once, ascending.
    pub fn openai_models_response(&self) -> (j: Json)
        requires
            self.wf(),
        ensures
            exists|c: Seq<Seq<char>>| #[trigger] is_catalog(self.backends_view(), c) && j.view_of() == JsonView::Obj(seq![
                ("object"@, JsonView::Str("list"@)),
                ("data"@, JsonView::Arr(c.map_values(|m: Seq<char>| openai_model_entry(m)))),
            ]),
    {
        let models = self.catalog_models();
        let ghost c = string_views(models@);
        let mut data = new_arr();
        let mut i: usize = 0;
        while i < models.len()
            invariant
                i <= models.len(),
                c == string_views(models@),
                view_items(data@) == c.take(i as int).map_values(|m: Seq<char>| openai_model_entry(m)),
            decreases models.len() - i,
        {
            let mut o = new_obj();
            put_field(&mut o, "id", jtext(models[i].as_str()));
            put_field(&mut o, "object", jtext("model"));
            put_field(&mut o, "created", jnum(0));
            put_field(&mut o, "owned_by", jtext("aipowerlink"));
            assert(view_fields(o@) =~= openai_model_entry(models@[i as int]@)->Obj_0);
            put_item(&mut data, Json::Object(o));
            assert(view_items(data@) =~= c.take(i + 1).map_values(|m: Seq<char>| openai_model_entry(m)));
            i = i + 1;
        }
        assert(c.take(models.len() as int) =~= c);
        let ghost dv = view_items(data@);
        let mut out = new_obj();
        put_field(&mut out, "object", jtext("list"));
        put_field(&mut out, "data", Json::Array(data));
        assert(view_fields(out@) =~= seq![("object"@, JsonView::Str("list"@)), ("data"@, JsonView::Arr(dv))]);
        Json::Object(out)
    }

    /// The Anthropic `/v1/models` answer: every served model once,
    /// ascending, with the first and last ids (`null` when there is none).
    pub fn anthropic_models_response(&self) -> (j: Json)
        requires
            self.wf(),
        ensures
            exists|c: Seq<Seq<char>>| #[trigger] is_catalog(self.backends_view(), c) && j.view_of() == JsonView::Obj(seq![
                ("data"@, JsonView::Arr(c.map_values(|m: Seq<char>| anthropic_model_entry(m)))),
                ("has_more"@, JsonView::Bool(false)),
                ("first_id"@, if c.len() > 0 { JsonView::Str(c[0]) } else { JsonView::Null }),
                ("last_id"@, if c.len() > 0 { JsonView::Str(c.last()) } else { JsonView::Null }),
            ]),
    {
        let models = self.catalog_models();
        let ghost c = string_views(models@);
        let mut data = new_arr();
        let mut i: usize = 0;
        while i < models.len()
            invariant
                i <= models.len(),
                c == string_views(models@),
                view_items(data@) == c.take(i as int).map_values(|m: Seq<char>| anthropic_model_entry(m)),
            decreases models.len() - i,
        {
            let mut o = new_obj();
            put_field(&mut o, "id", jtext(models[i].as_str()));
            put_field(&mut o, "type", jtext("model"));
            put_field(&mut o, "display_name", jtext(models[i].as_str()));
            put_field(&mut o, "created_at", jtext("2026-01-01T00:00:00Z"));
            assert(view_fields(o@) =~= anthropic_model_entry(models@[i as int]@)->Obj_0);
            put_item(&mut data, Json::Object(o));
            assert(view_items(data@) =~= c.take(i + 1).map_values(|m: Seq<char>| anthropic_model_entry(m)));
            i = i + 1;
        }
        assert(c.take(models.len() as int) =~= c);
        let first = if models.len() > 0 { jtext(models[0].as_str()) } else { Json::Null };
        let last = if models.len() > 0 { jtext(models[models.len() - 1].as_str()) } else { Json::Null };
        let ghost dv = view_items(data@);
        let ghost fv = first.view_of();
        let ghost lv = last.view_of();
        let mut out = new_obj();
        put_field(&mut out, "data", Json::Array(data));
        put_field(&mut out, "has_more", Json::Bool(false));
        put_field(&mut out, "first_id", first);
        put_field(&mut out, "last_id", last);
        assert(view_fields(out@) =~= seq![
            ("data"@, JsonView::Arr(dv)),
            ("has_more"@, JsonView::Bool(false)),
            ("first_id"@, fv),
            ("last_id"@, lv),
        ]);
        Json::Object(out)
    }
}

} // verus!
