//! Request and reply parsing of the HTTP API: the caller's token, a backend
//! entry from a form body, and the model list of an upstream `/models` reply.
use vstd::prelude::*;
use crate::backend::{opt_view, spec_effective_models, spec_key_source, spec_masked_key, BackendEntry, KeyEnv};
use crate::kvmap::{get_key, put, smap, swf, take_key};
use crate::protocol::{new_arr, new_obj, num, put_field, put_item};
use crate::json::{jnum, jtext, view_fields};
use crate::backend_store::{entry_id, first_with_id, has_id, BackendStore};
use crate::json::{jarr, jstr, lemma_view_items, view_items, Json, JsonView};
use crate::strset::{set_contains, set_of};
use crate::text::{char_count, concat, decimal, first_chars, has_prefix, starts_with, string_views, trim, trim_ws, u64_decimal};

verus! {

/// The texts in order, each kept at its first occurrence only.
pub open spec fn dedup(s: Seq<Seq<char>>) -> Seq<Seq<char>>
    decreases s.len(),
{
    if s.len() == 0 {
        Seq::empty()
    } else {
        let d = dedup(s.drop_last());
        if d.contains(s.last()) {
            d
        } else {
            d.push(s.last())
        }
    }
}

/// Drops repeated texts, keeping the first of each.
pub fn dedup_texts(v: &Vec<String>) -> (r: Vec<String>)
    ensures
        string_views(r@) == dedup(string_views(v@)),
{
    let mut r: Vec<String> = Vec::new();
    let mut i: usize = 0;
    while i < v.len()
        invariant
            i <= v.len(),
            string_views(r@) == dedup(string_views(v@.take(i as int))),
        decreases v.len() - i,
    {
        let ghost pre = string_views(v@.take(i as int));
        let ghost post = string_views(v@.take(i + 1));
        assert(post.drop_last() =~= pre);
        assert(post.last() == v@[i as int]@);
        let seen = set_contains(&r, v[i].as_str());
        proof {
            let d = string_views(r@);
            if d.contains(v@[i as int]@) {
                let k = choose|k: int| 0 <= k < d.len() && d[k] == v@[i as int]@;
                assert(r@[k]@ == v@[i as int]@);
            }
            if set_of(r@).contains(v@[i as int]@) {
                let k = choose|k: int| 0 <= k < r@.len() && r@[k]@ == v@[i as int]@;
                assert(d[k] == v@[i as int]@);
            }
            assert(seen == d.contains(v@[i as int]@));
        }
        if !seen {
            let ghost before = string_views(r@);
            r.push(v[i].clone());
            assert(string_views(r@) =~= before.push(v@[i as int]@));
        }
        i = i + 1;
    }
    assert(v@.take(v.len() as int) =~= v@);
    r
}

/// The trimmed, non-empty `id` of each listed model.
pub open spec fn model_ids(a: Seq<JsonView>) -> Seq<Seq<char>>
    decreases a.len(),
{
    if a.len() == 0 {
        Seq::empty()
    } else {
        model_ids(a.drop_last()) + match jstr(a.last(), "id"@) {
            Some(s) => if trim_ws(s).len() > 0 {
                seq![trim_ws(s)]
            } else {
                Seq::empty()
            },
            None => Seq::empty(),
        }
    }
}

/// The model ids of an OpenAI-compatible `/models` reply: `data[].id`,
/// trimmed, empty ones and repeats dropped, at most 200.
pub open spec fn reply_models(v: JsonView) -> Seq<Seq<char>> {
    let d = dedup(match jarr(v, "data"@) {
        Some(a) => model_ids(a),
        None => Seq::empty(),
    });
    if d.len() > 200 {
        d.take(200)
    } else {
        d
    }
}

/// The model ids of an upstream `/models` reply.
pub fn parse_models_from_response(v: &Json) -> (r: Vec<String>)
    ensures
        string_views(r@) == reply_models(v.view_of()),
{
    let mut ids: Vec<String> = Vec::new();
    match v.get_array("data") {
        Some(a) => {
            proof {
                lemma_view_items(a@);
            }
            let mut i: usize = 0;
            while i < a.len()
                invariant
                    i <= a.len(),
                    view_items(a@).len() == a@.len(),
                    forall|k: int| 0 <= k < a@.len() ==> #[trigger] view_items(a@)[k] == a@[k].view_of(),
                    string_views(ids@) == model_ids(view_items(a@).take(i as int)),
                decreases a.len() - i,
            {
                assert(view_items(a@).take(i + 1).drop_last() =~= view_items(a@).take(i as int));
                let ghost before = string_views(ids@);
                match a[i].get_str("id") {
                    Some(s) => {
                        let t = trim(s);
                        if char_count(t.as_str()) > 0 {
                            ids.push(t);
                            assert(string_views(ids@) =~= before + seq![trim_ws(s@)]);
                        }
                    },
                    None => {},
                }
                assert(string_views(ids@) =~= model_ids(view_items(a@).take(i + 1)));
                i = i + 1;
            }
            assert(view_items(a@).take(a.len() as int) =~= view_items(a@));
        },
        None => {},
    }
    let mut d = dedup_texts(&ids);
    if d.len() > 200 {
        d.truncate(200);
        assert(string_views(d@) =~= dedup(string_views(ids@)).take(200));
    }
    d
}

/// A text field of a form body: the string trimmed, when it is not empty.
pub open spec fn body_text(body: JsonView, key: Seq<char>) -> Option<Seq<char>> {
    match jstr(body, key) {
        Some(s) => if trim_ws(s).len() > 0 {
            Some(trim_ws(s))
        } else {
            None
        },
        None => None,
    }
}

/// The trimmed, non-empty strings of a list.
pub open spec fn listed_texts(a: Seq<JsonView>) -> Seq<Seq<char>>
    decreases a.len(),
{
    if a.len() == 0 {
        Seq::empty()
    } else {
        listed_texts(a.drop_last()) + match a.last() {
            JsonView::Str(s) => if trim_ws(s).len() > 0 {
                seq![trim_ws(s)]
            } else {
                Seq::empty()
            },
            _ => Seq::empty(),
        }
    }
}

/// The models of a form body: the `models` list, or else the single
/// `model`, without repeats.
pub open spec fn body_models(body: JsonView) -> Seq<Seq<char>> {
    let listed = match jarr(body, "models"@) {
        Some(a) => listed_texts(a),
        None => Seq::empty(),
    };
    dedup(if listed.len() > 0 {
        listed
    } else {
        match body_text(body, "model"@) {
            Some(m) => seq![m],
            None => Seq::empty(),
        }
    })
}

fn body_text_of(body: &Json, key: &str) -> (r: Option<String>)
    ensures
        opt_view(r) == body_text(body.view_of(), key@),
{
    match body.get_str(key) {
        Some(s) => {
            let t = trim(s);
            if char_count(t.as_str()) > 0 {
                Some(t)
            } else {
                None
            }
        },
        None => None,
    }
}

/// A backend entry from a form body: `provider` is required; `id`,
/// `apiKey`, `apiKeyEnv` and `baseUrl` are taken trimmed when not empty; the
/// models are the `models` list or else the single `model`, without repeats.
pub fn entry_from_body(body: &Json) -> (r: Result<BackendEntry, String>)
    ensures
        r is Err <==> body_text(body.view_of(), "provider"@) is None,
        r matches Err(m) ==> m@ == "provider required"@,
        r matches Ok(e) ==> {
            &&& Some(e.provider@) == body_text(body.view_of(), "provider"@)
            &&& opt_view(e.id) == body_text(body.view_of(), "id"@)
            &&& opt_view(e.api_key) == body_text(body.view_of(), "apiKey"@)
            &&& opt_view(e.api_key_env) == body_text(body.view_of(), "apiKeyEnv"@)
            &&& e.model is None
            &&& string_views(e.models@) == body_models(body.view_of())
            &&& opt_view(e.base_url) == body_text(body.view_of(), "baseUrl"@)
        },
{
    let provider = match body_text_of(body, "provider") {
        Some(p) => p,
        None => return Err("provider required".to_string()),
    };
    let mut listed: Vec<String> = Vec::new();
    match body.get_array("models") {
        Some(a) => {
            proof {
                lemma_view_items(a@);
            }
            let mut i: usize = 0;
            while i < a.len()
                invariant
                    i <= a.len(),
                    view_items(a@).len() == a@.len(),
                    forall|k: int| 0 <= k < a@.len() ==> #[trigger] view_items(a@)[k] == a@[k].view_of(),
                    string_views(listed@) == listed_texts(view_items(a@).take(i as int)),
                decreases a.len() - i,
            {
                assert(view_items(a@).take(i + 1).drop_last() =~= view_items(a@).take(i as int));
                let ghost before = string_views(listed@);
                match a[i].as_str() {
                    Some(s) => {
                        let t = trim(s);
                        if char_count(t.as_str()) > 0 {
                            listed.push(t);
                            assert(string_views(listed@) =~= before + seq![trim_ws(s@)]);
                        }
                    },
                    None => {},
                }
                assert(string_views(listed@) =~= listed_texts(view_items(a@).take(i + 1)));
                i = i + 1;
            }
            assert(view_items(a@).take(a.len() as int) =~= view_items(a@));
        },
        None => {},
    }
    if listed.len() == 0 {
        match body_text_of(body, "model") {
            Some(m) => {
                listed.push(m);
            },
            None => {},
        }
    }
    assert(string_views(listed@) =~= (if listed_texts(match jarr(body.view_of(), "models"@) {
        Some(a) => a,
        None => Seq::empty(),
    }).len() > 0 {
        listed_texts(match jarr(body.view_of(), "models"@) {
            Some(a) => a,
            None => Seq::empty(),
        })
    } else {
        match body_text(body.view_of(), "model"@) {
            Some(m) => seq![m],
            None => Seq::empty(),
        }
    }));
    let models = dedup_texts(&listed);
    Ok(BackendEntry {
        provider,
        id: body_text_of(body, "id"),
        api_key: body_text_of(body, "apiKey"),
        api_key_env: body_text_of(body, "apiKeyEnv"),
        model: None,
        models,
        base_url: body_text_of(body, "baseUrl"),
    })
}

/// The caller's token: an `Authorization: Bearer <token>` header first, else
/// an `x-api-key` header, trimmed (a header is given as its text, `None` when
/// absent or not readable as text).
pub open spec fn token_of(authorization: Option<Seq<char>>, x_api_key: Option<Seq<char>>) -> Option<Seq<char>> {
    match authorization {
        Some(a) if has_prefix(a, "Bearer "@) => Some(trim_ws(a.subrange(7, a.len() as int))),
        _ => match x_api_key {
            Some(k) => Some(trim_ws(k)),
            None => None,
        },
    }
}

/// The caller's token from the `Authorization` and `x-api-key` headers.
pub fn bearer_token(authorization: Option<&str>, x_api_key: Option<&str>) -> (r: Option<String>)
    ensures
        opt_view(r) == token_of(
            match authorization {
                Some(a) => Some(a@),
                None => None,
            },
            match x_api_key {
                Some(k) => Some(k@),
                None => None,
            },
        ),
{
    proof {
        reveal_strlit("Bearer ");
    }
    match authorization {
        Some(a) => {
            if starts_with(a, "Bearer ") {
                let rest = crate::text::last_chars(a, char_count(a) - 7);
                assert(rest@ =~= a@.subrange(7, a@.len() as int));
                return Some(trim(rest.as_str()));
            }
        },
        None => {},
    }
    match x_api_key {
        Some(k) => Some(trim(k)),
        None => None,
    }
}

/// `s`, or its first `max` characters followed by `…` when it is longer.
pub open spec fn clipped(s: Seq<char>, max: nat) -> Seq<char> {
    if s.len() <= max {
        s
    } else {
        s.take(max as int) + "…"@
    }
}

/// Clips `s` to `max` characters, marking a cut with `…`.
pub fn clip(s: &str, max: usize) -> (r: String)
    ensures
        r@ == clipped(s@, max as nat),
{
    let head = first_chars(s, max);
    if char_count(s) <= max {
        head
    } else {
        concat(head.as_str(), "…")
    }
}

/// The hint added to a failed connection test for a status code.
pub open spec fn status_hint(code: u16) -> Seq<char> {
    if code == 401 {
        "（API 密钥无效或已过期）"@
    } else if code == 403 {
        "（无权限，请检查密钥/账号）"@
    } else if code == 429 {
        "（请求过快或余额不足）"@
    } else {
        ""@
    }
}

/// The error of a connection test answered with a non-success status: code,
/// reason and hint, then the start of the reply body.
pub open spec fn status_failure(code: u16, reason: Seq<char>, body: Seq<char>) -> Seq<char> {
    clipped("HTTP "@ + decimal(code as nat) + " "@ + reason + status_hint(code) + ": "@ + clipped(body, 120), 220)
}

/// The error of a connection test that reached no server.
pub open spec fn connect_failure(err: Seq<char>) -> Seq<char> {
    clipped("连接失败（connection failed: "@ + err + "）"@, 160)
}

fn hint_of(code: u16) -> (r: &'static str)
    ensures
        r@ == status_hint(code),
{
    if code == 401 {
        "（API 密钥无效或已过期）"
    } else if code == 403 {
        "（无权限，请检查密钥/账号）"
    } else if code == 429 {
        "（请求过快或余额不足）"
    } else {
        ""
    }
}

/// The error text of a connection test answered with status `code`
/// (`reason` is the status's reason phrase, `body` the reply's text).
pub fn probe_status_failure(code: u16, reason: &str, body: &str) -> (r: String)
    ensures
        r@ == status_failure(code, reason@, body@),
{
    let detail = clip(body, 120);
    let mut m = concat("HTTP ", u64_decimal(code as u64).as_str());
    m = concat(m.as_str(), " ");
    m = concat(m.as_str(), reason);
    m = concat(m.as_str(), hint_of(code));
    m = concat(m.as_str(), ": ");
    m = concat(m.as_str(), detail.as_str());
    clip(m.as_str(), 220)
}

/// The error text of a connection test whose request failed with `err`.
pub fn probe_connect_failure(err: &str) -> (r: String)
    ensures
        r@ == connect_failure(err@),
{
    let m = concat(concat("连接失败（connection failed: ", err).as_str(), "）");
    clip(m.as_str(), 160)
}

/// `e` names no key of its own (neither `apiKey` nor `apiKeyEnv`).
pub open spec fn keyless(e: BackendEntry) -> bool {
    e.api_key is None && e.api_key_env is None
}

/// The saved entry that a keyless form entry takes its key from: the first
/// saved one with the same id.
pub open spec fn key_donor(saved: Seq<BackendEntry>, e: BackendEntry, i: int) -> bool {
    keyless(e) && first_with_id(saved, entry_id(e), i)
}

fn clone_opt(s: &Option<String>) -> (r: Option<String>)
    ensures
        opt_view(r) == opt_view(*s),
{
    match s {
        Some(x) => Some(x.clone()),
        None => None,
    }
}

fn find_saved(saved: &Vec<BackendEntry>, id: &str) -> (r: Option<usize>)
    ensures
        r matches Some(i) ==> first_with_id(saved@, id@, i as int),
        r is None ==> forall|j: int| 0 <= j < saved@.len() ==> entry_id(#[trigger] saved@[j]) != id@,
{
    let mut i: usize = 0;
    while i < saved.len()
        invariant
            i <= saved.len(),
            forall|j: int| 0 <= j < i ==> entry_id(#[trigger] saved@[j]) != id@,
        decreases saved.len() - i,
    {
        let sid = saved[i].backend_id();
        if crate::text::str_eq(sid.as_str(), id) {
            return Some(i);
        }
        i = i + 1;
    }
    None
}

/// A form entry that names no key keeps the key settings of the saved entry
/// with its id (so that changing only models or the address keeps the key).
pub fn inherit_key(entry: &mut BackendEntry, saved: &Vec<BackendEntry>)
    ensures
        final(entry).provider@ == old(entry).provider@,
        opt_view(final(entry).id) == opt_view(old(entry).id),
        opt_view(final(entry).model) == opt_view(old(entry).model),
        string_views(final(entry).models@) == string_views(old(entry).models@),
        opt_view(final(entry).base_url) == opt_view(old(entry).base_url),
        forall|i: int| key_donor(saved@, *old(entry), i) ==> {
            &&& opt_view(final(entry).api_key) == opt_view(#[trigger] saved@[i].api_key)
            &&& opt_view(final(entry).api_key_env) == opt_view(saved@[i].api_key_env)
        },
        (forall|i: int| !key_donor(saved@, *old(entry), i)) ==> {
            &&& opt_view(final(entry).api_key) == opt_view(old(entry).api_key)
            &&& opt_view(final(entry).api_key_env) == opt_view(old(entry).api_key_env)
        },
{
    if entry.api_key.is_none() && entry.api_key_env.is_none() {
        let id = entry.backend_id();
        match find_saved(saved, id.as_str()) {
            Some(i) => {
                entry.api_key = clone_opt(&saved[i].api_key);
                entry.api_key_env = clone_opt(&saved[i].api_key_env);
                assert(key_donor(saved@, *old(entry), i as int));
                assert forall|j: int| key_donor(saved@, *old(entry), j) implies j == i by {
                    if j < i {
                        assert(entry_id(saved@[j]) != id@);
                    } else if j > i {
                        assert(entry_id(saved@[i as int]) != id@);
                    }
                }
            },
            None => {},
        }
    }
}

/// For a connection test, a form entry that names no key takes the key
/// settings of the saved entry with its id, and its address and models too
/// where the form left them out.
pub fn inherit_for_test(entry: &mut BackendEntry, saved: &Vec<BackendEntry>)
    ensures
        final(entry).provider@ == old(entry).provider@,
        opt_view(final(entry).id) == opt_view(old(entry).id),
        opt_view(final(entry).model) == opt_view(old(entry).model),
        forall|i: int| key_donor(saved@, *old(entry), i) ==> {
            &&& opt_view(final(entry).api_key) == opt_view(#[trigger] saved@[i].api_key)
            &&& opt_view(final(entry).api_key_env) == opt_view(saved@[i].api_key_env)
            &&& opt_view(final(entry).base_url) == if old(entry).base_url is None {
                opt_view(saved@[i].base_url)
            } else {
                opt_view(old(entry).base_url)
            }
            &&& string_views(final(entry).models@) == if old(entry).models@.len() == 0 {
                string_views(saved@[i].models@)
            } else {
                string_views(old(entry).models@)
            }
        },
        (forall|i: int| !key_donor(saved@, *old(entry), i)) ==> {
            &&& opt_view(final(entry).api_key) == opt_view(old(entry).api_key)
            &&& opt_view(final(entry).api_key_env) == opt_view(old(entry).api_key_env)
            &&& opt_view(final(entry).base_url) == opt_view(old(entry).base_url)
            &&& string_views(final(entry).models@) == string_views(old(entry).models@)
        },
{
    if entry.api_key.is_none() && entry.api_key_env.is_none() {
        let id = entry.backend_id();
        match find_saved(saved, id.as_str()) {
            Some(i) => {
                entry.api_key = clone_opt(&saved[i].api_key);
                entry.api_key_env = clone_opt(&saved[i].api_key_env);
                if entry.base_url.is_none() {
                    entry.base_url = clone_opt(&saved[i].base_url);
                }
                if entry.models.len() == 0 {
                    entry.models = crate::text::clone_strings(&saved[i].models);
                }
                assert(key_donor(saved@, *old(entry), i as int));
                assert forall|j: int| key_donor(saved@, *old(entry), j) implies j == i by {
                    if j < i {
                        assert(entry_id(saved@[j]) != id@);
                    } else if j > i {
                        assert(entry_id(saved@[i as int]) != id@);
                    }
                }
            },
            None => {},
        }
    }
}

/// The last connection test of a backend.
pub enum TestStatus {
    /// Reached, with this latency in milliseconds.
    Passed(u64),
    /// Failed with this error.
    Failed(String),
}

/// A test status as the backend list shows it.
pub open spec fn status_json(s: Option<TestStatus>) -> JsonView {
    match s {
        Some(TestStatus::Passed(ms)) => JsonView::Obj(seq![("status"@, JsonView::Str("ok"@)), ("latencyMs"@, num(ms))]),
        Some(TestStatus::Failed(e)) => JsonView::Obj(seq![("status"@, JsonView::Str("fail"@)), ("error"@, JsonView::Str(e@))]),
        None => JsonView::Obj(seq![("status"@, JsonView::Str("untested"@))]),
    }
}

/// A test status as a test answers it: `{"ok":true,"latencyMs":…}` or
/// `{"ok":false,"error":…}`.
pub open spec fn test_json(s: TestStatus) -> JsonView {
    match s {
        TestStatus::Passed(ms) => JsonView::Obj(seq![("ok"@, JsonView::Bool(true)), ("latencyMs"@, num(ms))]),
        TestStatus::Failed(e) => JsonView::Obj(seq![("ok"@, JsonView::Bool(false)), ("error"@, JsonView::Str(e@))]),
    }
}

/// The last connection test of each backend, by backend id.
pub struct TestBoard {
    results: Vec<(String, TestStatus)>,
}

impl View for TestBoard {
    type V = Map<Seq<char>, TestStatus>;

    closed spec fn view(&self) -> Map<Seq<char>, TestStatus> {
        smap(self.results@)
    }
}

impl TestBoard {
    pub closed spec fn wf(&self) -> bool {
        swf(self.results@)
    }

    pub fn new() -> (b: Self)
        ensures
            b.wf(),
            b@ == Map::<Seq<char>, TestStatus>::empty(),
    {
        let b = TestBoard { results: Vec::new() };
        assert(b@ =~= Map::<Seq<char>, TestStatus>::empty());
        b
    }

    /// Records the result of a test of backend `id`.
    pub fn record(&mut self, id: &str, status: TestStatus)
        requires
            old(self).wf(),
        ensures
            final(self).wf(),
            final(self)@ == old(self)@.insert(id@, status),
    {
        put(&mut self.results, id.to_string(), status);
    }

    /// Forgets the result of backend `id` (the backend was removed).
    pub fn forget(&mut self, id: &str)
        requires
            old(self).wf(),
        ensures
            final(self).wf(),
            final(self)@ == old(self)@.remove(id@),
    {
        let _ = take_key(&mut self.results, id);
    }

    /// The last result of backend `id`.
    pub fn get(&self, id: &str) -> (r: Option<&TestStatus>)
        requires
            self.wf(),
        ensures
            r is Some == self@.contains_key(id@),
            r matches Some(s) ==> *s == self@[id@],
    {
        get_key(&self.results, id)
    }
}

/// One row of the backend list (the key only masked).
pub open spec fn backend_row(e: BackendEntry, env: KeyEnv, registered: bool, st: Option<TestStatus>) -> JsonView {
    let models = spec_effective_models(e);
    JsonView::Obj(seq![
        ("id"@, JsonView::Str(entry_id(e))),
        ("provider"@, JsonView::Str(e.provider@)),
        ("model"@, JsonView::Str(if models.len() > 0 { models[0] } else { Seq::empty() })),
        ("models"@, JsonView::Arr(models.map_values(|m: Seq<char>| JsonView::Str(m)))),
        ("baseUrl"@, JsonView::Str(match opt_view(e.base_url) {
            Some(b) => b,
            None => Seq::empty(),
        })),
        ("keySource"@, JsonView::Str(spec_key_source(e, env))),
        ("maskedKey"@, JsonView::Str(spec_masked_key(e, env))),
        ("registered"@, JsonView::Bool(registered)),
        ("testStatus"@, status_json(st)),
    ])
}

/// The status of `id` on the board, if tested.
pub open spec fn board_status(b: Map<Seq<char>, TestStatus>, id: Seq<char>) -> Option<TestStatus> {
    if b.contains_key(id) {
        Some(b[id])
    } else {
        None
    }
}

fn texts_array(v: &Vec<String>) -> (r: Json)
    ensures
        r.view_of() == JsonView::Arr(crate::rules::strings_view(v@).map_values(|m: Seq<char>| JsonView::Str(m))),
{
    let mut a = new_arr();
    let mut i: usize = 0;
    while i < v.len()
        invariant
            i <= v.len(),
            view_items(a@) == crate::rules::strings_view(v@).take(i as int).map_values(|m: Seq<char>| JsonView::Str(m)),
        decreases v.len() - i,
    {
        put_item(&mut a, jtext(v[i].as_str()));
        assert(crate::rules::strings_view(v@).take(i + 1) =~= crate::rules::strings_view(v@).take(i as int).push(v@[i as int]@));
        assert(view_items(a@) =~= crate::rules::strings_view(v@).take(i + 1).map_values(|m: Seq<char>| JsonView::Str(m)));
        i = i + 1;
    }
    assert(crate::rules::strings_view(v@).take(v.len() as int) =~= crate::rules::strings_view(v@));
    Json::Array(a)
}

/// The backend list: `{"backends":[…]}`, a row per entry; `envs[i]` holds what
/// the environment gives the i-th entry, `registered` the names the registry
/// serves, `board` the last connection tests.
pub fn backends_reply(entries: &Vec<BackendEntry>, envs: &Vec<KeyEnv>, registered: &Vec<String>, board: &TestBoard) -> (r: Json)
    requires
        entries.len() == envs.len(),
        board.wf(),
    ensures
        r.view_of() == JsonView::Obj(seq![("backends"@, JsonView::Arr(Seq::new(entries@.len(), |i: int| backend_row(
            entries@[i],
            envs@[i],
            crate::strset::set_of(registered@).contains(entry_id(entries@[i])),
            board_status(board@, entry_id(entries@[i])),
        ))))]),
{
    let ghost want = Seq::new(entries@.len(), |i: int| backend_row(
        entries@[i],
        envs@[i],
        crate::strset::set_of(registered@).contains(entry_id(entries@[i])),
        board_status(board@, entry_id(entries@[i])),
    ));
    let mut rows = new_arr();
    let mut i: usize = 0;
    while i < entries.len()
        invariant
            i <= entries.len(),
            entries.len() == envs.len(),
            board.wf(),
            want.len() == entries@.len(),
            forall|k: int| 0 <= k < entries@.len() ==> #[trigger] want[k] == backend_row(
                entries@[k],
                envs@[k],
                crate::strset::set_of(registered@).contains(entry_id(entries@[k])),
                board_status(board@, entry_id(entries@[k])),
            ),
            view_items(rows@) == want.take(i as int),
        decreases entries.len() - i,
    {
        let e = &entries[i];
        let env = &envs[i];
        let id = e.backend_id();
        let models = e.effective_models();
        let first: String = if models.len() > 0 { models[0].clone() } else { String::new() };
        let base: String = match &e.base_url {
            Some(b) => b.clone(),
            None => String::new(),
        };
        let mut st = new_obj();
        match board.get(id.as_str()) {
            Some(TestStatus::Passed(ms)) => {
                put_field(&mut st, "status", jtext("ok"));
                put_field(&mut st, "latencyMs", jnum(*ms));
            },
            Some(TestStatus::Failed(err)) => {
                put_field(&mut st, "status", jtext("fail"));
                put_field(&mut st, "error", jtext(err.as_str()));
            },
            None => {
                put_field(&mut st, "status", jtext("untested"));
            },
        }
        assert(view_fields(st@) =~= status_json(board_status(board@, entry_id(*e)))->Obj_0);
        let mut o = new_obj();
        put_field(&mut o, "id", jtext(id.as_str()));
        put_field(&mut o, "provider", jtext(e.provider.as_str()));
        put_field(&mut o, "model", jtext(first.as_str()));
        put_field(&mut o, "models", texts_array(&models));
        put_field(&mut o, "baseUrl", jtext(base.as_str()));
        put_field(&mut o, "keySource", jtext(e.key_source(env)));
        put_field(&mut o, "maskedKey", jtext(e.masked_key(env).as_str()));
        put_field(&mut o, "registered", Json::Bool(crate::strset::set_contains(registered, id.as_str())));
        put_field(&mut o, "testStatus", Json::Object(st));
        assert(view_fields(o@) =~= want[i as int]->Obj_0);
        put_item(&mut rows, Json::Object(o));
        assert(view_items(rows@) =~= want.take(i + 1));
        i = i + 1;
    }
    assert(want.take(entries.len() as int) =~= want);
    let mut body = new_obj();
    put_field(&mut body, "backends", Json::Array(rows));
    assert(view_fields(body@) =~= seq![("backends"@, JsonView::Arr(want))]);
    Json::Object(body)
}

/// The answer of a connection test: `{"ok":true,"latencyMs":…,"models":[…]}`
/// when it passed (`models` as the server listed them), else
/// `{"ok":false,"error":…}`.
pub fn test_reply(status: &TestStatus, models: &Vec<String>) -> (r: Json)
    ensures
        r.view_of() == match *status {
            TestStatus::Passed(ms) => JsonView::Obj(seq![
                ("ok"@, JsonView::Bool(true)),
                ("latencyMs"@, num(ms)),
                ("models"@, JsonView::Arr(crate::rules::strings_view(models@).map_values(|m: Seq<char>| JsonView::Str(m)))),
            ]),
            TestStatus::Failed(e) => test_json(TestStatus::Failed(e)),
        },
{
    let mut o = new_obj();
    match status {
        TestStatus::Passed(ms) => {
            put_field(&mut o, "ok", Json::Bool(true));
            put_field(&mut o, "latencyMs", jnum(*ms));
            put_field(&mut o, "models", texts_array(models));
            assert(view_fields(o@) =~= seq![
                ("ok"@, JsonView::Bool(true)),
                ("latencyMs"@, num(*ms)),
                ("models"@, JsonView::Arr(crate::rules::strings_view(models@).map_values(|m: Seq<char>| JsonView::Str(m)))),
            ]);
        },
        TestStatus::Failed(e) => {
            put_field(&mut o, "ok", Json::Bool(false));
            put_field(&mut o, "error", jtext(e.as_str()));
            assert(view_fields(o@) =~= test_json(TestStatus::Failed(*e))->Obj_0);
        },
    }
    Json::Object(o)
}

/// Takes a form entry into the store: one that cannot be built is refused
/// with `invalid backend: <why>` and the store left as it is; otherwise it
/// replaces the first saved entry with its id, or is added (nothing is saved
/// to disk).
pub fn accept_backend(store: &mut BackendStore, entry: BackendEntry) -> (r: Result<(), String>)
    ensures
        final(store).path_view() == old(store).path_view(),
        r is Err <==> crate::registry::entry_refusal(entry) is Some,
        r matches Err(m) ==> m@ == "invalid backend: "@ + crate::registry::entry_refusal(entry)->0
            && final(store).entries_view() == old(store).entries_view(),
        r is Ok && has_id(old(store).entries_view(), entry_id(entry)) ==> exists|i: int|
            first_with_id(old(store).entries_view(), entry_id(entry), i) && final(store).entries_view()
                == old(store).entries_view().update(i, entry),
        r is Ok && !has_id(old(store).entries_view(), entry_id(entry)) ==> final(store).entries_view()
            == old(store).entries_view().push(entry),
{
    match crate::registry::backend_from_entry(&entry, &KeyEnv::none()) {
        Err(m) => Err(concat("invalid backend: ", m.as_str())),
        Ok(_) => {
            store.upsert(entry);
            Ok(())
        },
    }
}

} // verus!
