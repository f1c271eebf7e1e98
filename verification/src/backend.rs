//! Execution backends: providers, their defaults, and the configuration
//! entries the leader shares (keys directly or by environment reference).
use vstd::prelude::*;
use crate::text::{blank, char_count, concat, first_chars, is_blank, last_chars, str_eq, to_upper, trim_end, trim_end_char, uppercase};
use crate::json::{jarr, jnum, jstr, jtext, json_parse, json_parse_of, lemma_view_items, or_text, view_fields, view_items, Json, JsonView};
use crate::protocol::{new_arr, new_obj, num, put_field, put_item};

verus! {

/// Version of this gateway (sent in the CodeBuddy user agent).
pub const VERSION: &'static str = "0.3.0";

/// Official model providers (all OpenAI-compatible).
#[derive(Debug, Clone, Copy, PartialEq, Eq, Structural)]
pub enum Provider {
    /// Local mock.
    Mock,
    DeepSeek,
    /// Kimi (Moonshot).
    Kimi,
    /// Zhipu GLM.
    Zhipu,
    /// CodeBuddy (Tencent Copilot).
    CodeBuddy,
    /// A custom OpenAI-compatible endpoint.
    Custom,
}

pub open spec fn provider_name(p: Provider) -> Seq<char> {
    match p {
        Provider::Mock => "mock"@,
        Provider::DeepSeek => "deepseek"@,
        Provider::Kimi => "kimi"@,
        Provider::Zhipu => "zhipu"@,
        Provider::CodeBuddy => "codebuddy"@,
        Provider::Custom => "custom"@,
    }
}

pub open spec fn provider_base_url(p: Provider) -> Option<Seq<char>> {
    match p {
        Provider::Mock => None,
        Provider::DeepSeek => Some("https://api.deepseek.com"@),
        Provider::Kimi => Some("https://api.moonshot.cn/v1"@),
        Provider::Zhipu => Some("https://open.bigmodel.cn/api/paas/v4"@),
        Provider::CodeBuddy => Some("https://copilot.tencent.com/v2"@),
        Provider::Custom => None,
    }
}

pub open spec fn provider_default_model(p: Provider) -> Seq<char> {
    match p {
        Provider::Mock => "mock-7b"@,
        Provider::DeepSeek => "deepseek-chat"@,
        Provider::Kimi => "moonshot-v1-8k"@,
        Provider::Zhipu => "glm-4-flash"@,
        Provider::CodeBuddy => "deepseek-v4-flash"@,
        Provider::Custom => "custom"@,
    }
}

pub open spec fn provider_from_name(s: Seq<char>) -> Provider {
    if s == "mock"@ {
        Provider::Mock
    } else if s == "deepseek"@ {
        Provider::DeepSeek
    } else if s == "kimi"@ {
        Provider::Kimi
    } else if s == "zhipu"@ {
        Provider::Zhipu
    } else if s == "codebuddy"@ {
        Provider::CodeBuddy
    } else {
        Provider::Custom
    }
}

/// A provider's built-in model catalogue.
pub open spec fn provider_default_models(p: Provider) -> Seq<Seq<char>> {
    if p == Provider::CodeBuddy {
        seq!["hy4-preview"@, "deepseek-v4-flash"@]
    } else {
        seq![provider_default_model(p)]
    }
}

pub open spec fn opt_view(s: Option<String>) -> Option<Seq<char>> {
    match s {
        Some(x) => Some(x@),
        None => None,
    }
}

impl Provider {
    pub fn name(&self) -> (r: &'static str)
        ensures
            r@ == provider_name(*self),
    {
        match self {
            Provider::Mock => "mock",
            Provider::DeepSeek => "deepseek",
            Provider::Kimi => "kimi",
            Provider::Zhipu => "zhipu",
            Provider::CodeBuddy => "codebuddy",
            Provider::Custom => "custom",
        }
    }

    /// Official API base URL.
    pub fn base_url(&self) -> (r: Option<&'static str>)
        ensures
            r is Some == provider_base_url(*self) is Some,
            r matches Some(u) ==> u@ == provider_base_url(*self)->0,
    {
        match self {
            Provider::Mock => None,
            Provider::DeepSeek => Some("https://api.deepseek.com"),
            Provider::Kimi => Some("https://api.moonshot.cn/v1"),
            Provider::Zhipu => Some("https://open.bigmodel.cn/api/paas/v4"),
            Provider::CodeBuddy => Some("https://copilot.tencent.com/v2"),
            Provider::Custom => None,
        }
    }

    /// Default model.
    pub fn default_model(&self) -> (r: &'static str)
        ensures
            r@ == provider_default_model(*self),
    {
        match self {
            Provider::Mock => "mock-7b",
            Provider::DeepSeek => "deepseek-chat",
            Provider::Kimi => "moonshot-v1-8k",
            Provider::Zhipu => "glm-4-flash",
            Provider::CodeBuddy => "deepseek-v4-flash",
            Provider::Custom => "custom",
        }
    }

    /// Built-in model catalogue (CodeBuddy has no `/models` endpoint, so its
    /// catalogue is the official list; the others list their default model).
    pub fn default_models(&self) -> (r: Vec<&'static str>)
        ensures
            r@.map_values(|s: &str| s@) == provider_default_models(*self),
    {
        match self {
            Provider::CodeBuddy => {
                let v = vec!["hy4-preview", "deepseek-v4-flash"];
                assert(v@.map_values(|s: &str| s@) =~= seq!["hy4-preview"@, "deepseek-v4-flash"@]);
                v
            },
            _ => {
                let v = vec![self.default_model()];
                assert(v@.map_values(|s: &str| s@) =~= seq![provider_default_model(*self)]);
                v
            },
        }
    }

    /// User agent sent upstream (only CodeBuddy's gateway requires one).
    pub fn user_agent(&self) -> (r: Option<String>)
        ensures
            *self == Provider::CodeBuddy ==> r is Some && r->0@ == "aipowergateway/"@ + VERSION@,
            *self != Provider::CodeBuddy ==> r is None,
    {
        match self {
            Provider::CodeBuddy => Some(concat("aipowergateway/", VERSION)),
            _ => None,
        }
    }

    /// Parses a provider string (unknown names are custom endpoints).
    pub fn from_str(s: &str) -> (p: Provider)
        ensures
            p == provider_from_name(s@),
    {
        if str_eq(s, "mock") {
            Provider::Mock
        } else if str_eq(s, "deepseek") {
            Provider::DeepSeek
        } else if str_eq(s, "kimi") {
            Provider::Kimi
        } else if str_eq(s, "zhipu") {
            Provider::Zhipu
        } else if str_eq(s, "codebuddy") {
            Provider::CodeBuddy
        } else {
            Provider::Custom
        }
    }

    /// Built-in provider (anything but a custom endpoint).
    pub fn is_builtin(&self) -> (b: bool)
        ensures
            b == (*self != Provider::Custom),
    {
        !matches!(self, Provider::Custom)
    }
}

/// Mock backend (local check of the whole path).
pub struct MockBackend {
    pub model: &'static str,
}

impl Default for MockBackend {
    fn default() -> (m: Self)
        ensures
            m.model@ == "mock-7b"@,
    {
        MockBackend { model: "mock-7b" }
    }
}

impl MockBackend {
    /// The mock reply to a user message and its token counts (half the
    /// characters, at least 1): `("mock reply to: " + first 80 chars, prompt, completion)`.
    pub fn reply(user_msg: &str) -> (r: (String, u64, u64))
        ensures
            r.0@ == "mock reply to: "@ + (if user_msg@.len() <= 80 { user_msg@ } else { user_msg@.take(80) }),
            r.1 == (if user_msg@.len() / 2 >= 1 { user_msg@.len() / 2 } else { 1 }),
            r.2 == (if r.0@.len() / 2 >= 1 { r.0@.len() / 2 } else { 1 }),
    {
        let head = first_chars(user_msg, 80);
        let reply = concat("mock reply to: ", head.as_str());
        let rc = char_count(reply.as_str()) / 2;
        let pc = char_count(user_msg) / 2;
        let completion = if rc >= 1 { rc as u64 } else { 1 };
        let prompt = if pc >= 1 { pc as u64 } else { 1 };
        (reply, prompt, completion)
    }
}

/// OpenAI-compatible backend configuration.
#[derive(Debug, Clone)]
pub struct OpenAICompatConfig {
    pub provider: Provider,
    /// API key.
    pub api_key: String,
    /// Model (single value, older configurations).
    pub model: Option<String>,
    /// Models served (one provider, several models).
    pub models: Vec<String>,
    /// Base URL overriding the provider's.
    pub base_url: Option<String>,
    /// Request timeout (seconds).
    pub timeout_secs: u64,
    /// Display name (routing key; defaults to the provider name).
    pub name: Option<String>,
}

/// The base an endpoint URL is built on: the configured one, else the provider's, else empty.
pub open spec fn effective_base(base_url: Option<Seq<char>>, p: Provider) -> Seq<char> {
    match base_url {
        Some(b) => b,
        None => match provider_base_url(p) {
            Some(u) => u,
            None => Seq::empty(),
        },
    }
}

impl OpenAICompatConfig {
    /// Full request URL: base (trailing slashes dropped) + `/chat/completions`.
    pub fn completions_url(&self) -> (u: String)
        ensures
            u@ == trim_end(effective_base(opt_view(self.base_url), self.provider), '/') + "/chat/completions"@,
    {
        let base: String = match &self.base_url {
            Some(b) => b.clone(),
            None => match self.provider.base_url() {
                Some(u) => u.to_owned(),
                None => String::new(),
            },
        };
        let trimmed = trim_end_char(base.as_str(), '/');
        concat(trimmed.as_str(), "/chat/completions")
    }

    /// Effective model: the configured one, else the provider default.
    pub fn effective_model(&self) -> (m: String)
        ensures
            m@ == match self.model {
                Some(x) => x@,
                None => provider_default_model(self.provider),
            },
    {
        match &self.model {
            Some(m) => m.clone(),
            None => self.provider.default_model().to_owned(),
        }
    }
}

/// Backend entry of the configuration file (`providers` list).
#[derive(Debug, Clone)]
pub struct BackendEntry {
    /// Provider: mock / deepseek / kimi / zhipu / codebuddy or a custom name.
    pub provider: String,
    /// Display name (routing key; defaults to `provider`).
    pub id: Option<String>,
    /// API key written in the file.
    pub api_key: Option<String>,
    /// Name of an environment variable holding the API key.
    pub api_key_env: Option<String>,
    /// Model (older configurations).
    pub model: Option<String>,
    /// Model list.
    pub models: Vec<String>,
    /// Base URL (required for custom providers).
    pub base_url: Option<String>,
}

impl Default for BackendEntry {
    fn default() -> (e: Self)
        ensures
            e.provider@ == Seq::<char>::empty(),
            e.id is None,
            e.api_key is None,
            e.api_key_env is None,
            e.model is None,
            e.models@.len() == 0,
            e.base_url is None,
    {
        BackendEntry {
            provider: String::new(),
            id: None,
            api_key: None,
            api_key_env: None,
            model: None,
            models: Vec::new(),
            base_url: None,
        }
    }
}

/// The values of the environment variables an entry's key may come from
/// (`None` = variable not set).
#[derive(Debug, Clone)]
pub struct KeyEnv {
    /// The variable named by `api_key_env`.
    pub referenced: Option<String>,
    /// `AIPOWERLINK_<PROVIDER>_API_KEY`.
    pub official: Option<String>,
    /// `CODEBUDDY_API_KEY`.
    pub codebuddy: Option<String>,
    /// `AIPOWERLINK_API_KEY`.
    pub global: Option<String>,
}

impl KeyEnv {
    /// An environment where none of the variables is set.
    pub fn none() -> (e: KeyEnv)
        ensures
            e.referenced is None && e.official is None && e.codebuddy is None && e.global is None,
    {
        KeyEnv { referenced: None, official: None, codebuddy: None, global: None }
    }
}

/// A set, non-empty value.
/// An entry's models: the non-empty names of `models`; if none, the single
/// `model` when non-empty; else nothing.
pub open spec fn spec_effective_models(e: BackendEntry) -> Seq<Seq<char>> {
    if crate::rules::nonempty(crate::rules::strings_view(e.models@)).len() > 0 {
        crate::rules::nonempty(crate::rules::strings_view(e.models@))
    } else if filled(opt_view(e.model)) {
        seq![opt_view(e.model)->0]
    } else {
        Seq::empty()
    }
}

/// Where an entry's key comes from: `file`, `env` or `none`.
pub open spec fn spec_key_source(e: BackendEntry, env: KeyEnv) -> Seq<char> {
    if filled(opt_view(e.api_key)) {
        "file"@
    } else if filled(opt_view(e.api_key_env)) && filled(opt_view(env.referenced)) {
        "env"@
    } else if filled(opt_view(env.official)) || filled(opt_view(env.global)) {
        "env"@
    } else {
        "none"@
    }
}

/// The head of a key kept when it is masked: up to and including its first
/// `-` when that is among its first four characters (`sk-`, `pk-`), else
/// nothing.
pub open spec fn key_prefix(k: Seq<char>) -> Seq<char> {
    if k.len() > 0 && k[0] == '-' {
        k.take(1)
    } else if k.len() > 1 && k[1] == '-' {
        k.take(2)
    } else if k.len() > 2 && k[2] == '-' {
        k.take(3)
    } else if k.len() > 3 && k[3] == '-' {
        k.take(4)
    } else {
        Seq::empty()
    }
}

/// The head of a key kept when it is masked.
fn prefix_of(k: &str) -> (r: String)
    ensures
        r@ == key_prefix(k@),
{
    let v = crate::text::chars_of(k);
    let mut n: usize = 0;
    if v.len() > 0 && v[0] == '-' {
        n = 1;
    } else if v.len() > 1 && v[1] == '-' {
        n = 2;
    } else if v.len() > 2 && v[2] == '-' {
        n = 3;
    } else if v.len() > 3 && v[3] == '-' {
        n = 4;
    }
    first_chars(k, n)
}

/// An entry's key as the panel shows it: the key's prefix, `***` and its
/// last four characters (just `***` for a key of seven characters or fewer),
/// else `env:NAME` of the variable it comes from, else empty.
pub open spec fn spec_masked_key(e: BackendEntry, env: KeyEnv) -> Seq<char> {
    if filled(opt_view(e.api_key)) {
        let k = opt_view(e.api_key)->0;
        if k.len() > 7 { key_prefix(k) + "***"@ + k.subrange(k.len() - 4, k.len() as int) } else { "***"@ }
    } else if filled(opt_view(e.api_key_env)) {
        "env:"@ + opt_view(e.api_key_env)->0
    } else if env.official is Some {
        "env:"@ + ("AIPOWERLINK_"@ + uppercase(e.provider@) + "_API_KEY"@)
    } else if env.global is Some {
        "env:AIPOWERLINK_API_KEY"@
    } else {
        Seq::empty()
    }
}

pub open spec fn filled(s: Option<Seq<char>>) -> bool {
    s matches Some(x) && x.len() > 0
}

/// The effective API key: the key in the file, else the referenced variable,
/// else the provider's official variable, else (for CodeBuddy) its own
/// variable, else the global variable; empty values do not count.
pub open spec fn spec_api_key(e: BackendEntry, env: KeyEnv) -> Option<Seq<char>> {
    if filled(opt_view(e.api_key)) {
        opt_view(e.api_key)
    } else if filled(opt_view(e.api_key_env)) && filled(opt_view(env.referenced)) {
        opt_view(env.referenced)
    } else if filled(opt_view(env.official)) {
        opt_view(env.official)
    } else if e.provider@ == "codebuddy"@ && filled(opt_view(env.codebuddy)) {
        opt_view(env.codebuddy)
    } else if filled(opt_view(env.global)) {
        opt_view(env.global)
    } else {
        None
    }
}

/// Tells whether an optional string is set and non-empty.
fn is_filled(s: &Option<String>) -> (b: bool)
    ensures
        b == filled(opt_view(*s)),
{
    match s {
        Some(x) => char_count(x.as_str()) > 0,
        None => false,
    }
}

fn clone_opt(s: &Option<String>) -> (r: Option<String>)
    ensures
        opt_view(r) == opt_view(*s),
{
    match s {
        Some(x) => Some(x.clone()),
        None => None,
    }
}

impl BackendEntry {
    /// Routing key: `id`, else `provider`.
    pub fn backend_id(&self) -> (r: String)
        ensures
            r@ == match self.id {
                Some(i) => i@,
                None => self.provider@,
            },
    {
        match &self.id {
            Some(i) => i.clone(),
            None => self.provider.clone(),
        }
    }

    /// Effective models: the non-empty names of `models`; if none, the single
    /// `model` when non-empty; else nothing (the caller falls back to the default).
    pub fn effective_models(&self) -> (r: Vec<String>)
        ensures
            crate::rules::strings_view(r@) == spec_effective_models(*self),
    {
        let mut list: Vec<String> = Vec::new();
        crate::rules::push_nonempty(&mut list, &self.models);
        assert(crate::rules::strings_view(list@) =~= crate::rules::nonempty(crate::rules::strings_view(self.models@)));
        if list.len() > 0 {
            return list;
        }
        let mut out: Vec<String> = Vec::new();
        if is_filled(&self.model) {
            match &self.model {
                Some(m) => out.push(m.clone()),
                None => {},
            }
            assert(crate::rules::strings_view(out@) =~= seq![opt_view(self.model)->0]);
        } else {
            assert(crate::rules::strings_view(out@) =~= Seq::empty());
        }
        out
    }

    /// Name of the provider's official key variable: `AIPOWERLINK_<PROVIDER>_API_KEY`.
    pub fn official_key_var(&self) -> (r: String)
        ensures
            r@ == "AIPOWERLINK_"@ + uppercase(self.provider@) + "_API_KEY"@,
    {
        let up = to_upper(self.provider.as_str());
        let a = concat("AIPOWERLINK_", up.as_str());
        concat(a.as_str(), "_API_KEY")
    }

    /// The effective API key, given the environment's values.
    pub fn resolve_api_key(&self, env: &KeyEnv) -> (r: Option<String>)
        ensures
            opt_view(r) == spec_api_key(*self, *env),
    {
        if is_filled(&self.api_key) {
            return clone_opt(&self.api_key);
        }
        if is_filled(&self.api_key_env) && is_filled(&env.referenced) {
            return clone_opt(&env.referenced);
        }
        if is_filled(&env.official) {
            return clone_opt(&env.official);
        }
        if str_eq(self.provider.as_str(), "codebuddy") && is_filled(&env.codebuddy) {
            return clone_opt(&env.codebuddy);
        }
        if is_filled(&env.global) {
            return clone_opt(&env.global);
        }
        None
    }

    /// Where the key comes from (panel display): `file`, `env` or `none`.
    pub fn key_source(&self, env: &KeyEnv) -> (r: &'static str)
        ensures
            r@ == spec_key_source(*self, *env),
    {
        if is_filled(&self.api_key) {
            return "file";
        }
        if is_filled(&self.api_key_env) && is_filled(&env.referenced) {
            return "env";
        }
        if is_filled(&env.official) {
            return "env";
        }
        if is_filled(&env.global) {
            return "env";
        }
        "none"
    }

    /// The key as the panel shows it (`sk-***1234`): its prefix, `***` and its
    /// last 4 characters (just `***` when 7 or fewer), else `env:NAME` of the
    /// variable it comes from, else empty.
    pub fn masked_key(&self, env: &KeyEnv) -> (r: String)
        ensures
            r@ == spec_masked_key(*self, *env),
    {
        if is_filled(&self.api_key) {
            match &self.api_key {
                Some(k) => {
                    if char_count(k.as_str()) > 7 {
                        let tail = last_chars(k.as_str(), 4);
                        let head = prefix_of(k.as_str());
                        return concat(concat(head.as_str(), "***").as_str(), tail.as_str());
                    }
                    return "***".to_owned();
                },
                None => {},
            }
        }
        if is_filled(&self.api_key_env) {
            match &self.api_key_env {
                Some(e) => {
                    return concat("env:", e.as_str());
                },
                None => {},
            }
        }
        if env.official.is_some() {
            let name = self.official_key_var();
            return concat("env:", name.as_str());
        }
        if env.global.is_some() {
            return "env:AIPOWERLINK_API_KEY".to_owned();
        }
        String::new()
    }
}

/// Probe target of a connection test (`GET {url}` with `key`).
#[derive(Debug, Clone)]
pub struct TestTarget {
    pub url: String,
    pub key: String,
}

/// The base URL of an entry: the configured one, else the provider's.
pub open spec fn entry_base(e: BackendEntry) -> Option<Seq<char>> {
    match e.base_url {
        Some(b) => Some(b@),
        None => provider_base_url(provider_from_name(e.provider@)),
    }
}

/// Connection-test target: the mock needs none (`Ok(None)`); otherwise the
/// base URL must be known and not blank, then a key must be found; the target
/// is `{base}/models` (trailing slashes dropped).
pub fn test_target(entry: &BackendEntry, env: &KeyEnv) -> (r: Result<Option<TestTarget>, String>)
    ensures
        provider_from_name(entry.provider@) == Provider::Mock ==> r matches Ok(None),
        provider_from_name(entry.provider@) != Provider::Mock ==> {
            let base = entry_base(*entry);
            if base is None || blank(base->0) {
                r matches Err(m) && m@ == "base_url required for custom providers"@
            } else if spec_api_key(*entry, *env) is None {
                r matches Err(m) && m@ == "no API key — fill it in or set an env var reference"@
            } else {
                r matches Ok(Some(t)) && t.url@ == trim_end(base->0, '/') + "/models"@ && t.key@ == spec_api_key(
                    *entry,
                    *env,
                )->0
            }
        },
{
    let provider = Provider::from_str(entry.provider.as_str());
    if provider == Provider::Mock {
        return Ok(None);
    }
    let base: Option<String> = match &entry.base_url {
        Some(b) => Some(b.clone()),
        None => match provider.base_url() {
            Some(u) => Some(u.to_owned()),
            None => None,
        },
    };
    let base = match base {
        Some(b) => {
            if is_blank(b.as_str()) {
                return Err("base_url required for custom providers".to_owned());
            }
            b
        },
        None => return Err("base_url required for custom providers".to_owned()),
    };
    let key = match entry.resolve_api_key(env) {
        Some(k) => k,
        None => return Err("no API key — fill it in or set an env var reference".to_owned()),
    };
    let trimmed = trim_end_char(base.as_str(), '/');
    Ok(Some(TestTarget { url: concat(trimmed.as_str(), "/models"), key }))
}

} // verus!

verus! {

/// The last message's string content of an OpenAI request, or empty.
pub open spec fn last_user_text(request: JsonView) -> Seq<char> {
    match jarr(request, "messages"@) {
        Some(a) => if a.len() > 0 {
            or_text(jstr(a.last(), "content"@), Seq::empty())
        } else {
            Seq::empty()
        },
        None => Seq::empty(),
    }
}

/// The mock backend's reply to a request.
pub open spec fn mock_reply(model: Seq<char>, request: JsonView, reply: Seq<char>, prompt: u64, completion: u64) -> JsonView {
    JsonView::Obj(seq![
        ("id"@, JsonView::Str("chatcmpl-mock-0001"@)),
        ("object"@, JsonView::Str("chat.completion"@)),
        ("created"@, num(0)),
        ("model"@, JsonView::Str(model)),
        ("choices"@, JsonView::Arr(seq![JsonView::Obj(seq![
            ("index"@, num(0)),
            ("message"@, JsonView::Obj(seq![("role"@, JsonView::Str("assistant"@)), ("content"@, JsonView::Str(reply))])),
            ("finish_reason"@, JsonView::Str("stop"@)),
        ])])),
        ("usage"@, JsonView::Obj(seq![
            ("prompt_tokens"@, num(prompt)),
            ("completion_tokens"@, num(completion)),
            ("total_tokens"@, num((prompt + completion) as u64)),
        ])),
    ])
}

impl MockBackend {
    /// The mock completion of a request: `mock reply to: ` and the first 80
    /// characters of the last message, with its token counts.
    pub fn chat(&self, request: &Json) -> (r: Json)
        ensures
            ({
                let user = last_user_text(request.view_of());
                let reply = "mock reply to: "@ + (if user.len() <= 80 { user } else { user.take(80) });
                let prompt = (if user.len() / 2 >= 1 { user.len() / 2 } else { 1 }) as u64;
                let completion = (if reply.len() / 2 >= 1 { reply.len() / 2 } else { 1 }) as u64;
                r.view_of() == mock_reply(self.model@, request.view_of(), reply, prompt, completion)
            }),
    {
        proof {
            reveal_strlit("");
            assert(""@ =~= Seq::<char>::empty());
        }
        let user: &str = match request.get_array("messages") {
            Some(a) => if a.len() > 0 {
                proof {
                    lemma_view_items(a@);
                }
                match a[a.len() - 1].get_str("content") {
                    Some(s) => s,
                    None => "",
                }
            } else {
                ""
            },
            None => "",
        };
        let (reply, prompt, completion) = MockBackend::reply(user);
        let n = char_count(user);
        proof {
            reveal_strlit("mock reply to: ");
            assert(reply@.len() <= 95);
            assert(prompt <= n / 2 + 1);
        }
        let total = prompt + completion;
        let mut msg = new_obj();
        put_field(&mut msg, "role", jtext("assistant"));
        put_field(&mut msg, "content", jtext(reply.as_str()));
        let ghost mv = view_fields(msg@);
        let mut choice = new_obj();
        put_field(&mut choice, "index", jnum(0));
        put_field(&mut choice, "message", Json::Object(msg));
        put_field(&mut choice, "finish_reason", jtext("stop"));
        let ghost cv = view_fields(choice@);
        let mut choices = new_arr();
        put_item(&mut choices, Json::Object(choice));
        let mut usage = new_obj();
        put_field(&mut usage, "prompt_tokens", jnum(prompt));
        put_field(&mut usage, "completion_tokens", jnum(completion));
        put_field(&mut usage, "total_tokens", jnum(total));
        let ghost uv = view_fields(usage@);
        let ghost chv = view_items(choices@);
        let mut o = new_obj();
        put_field(&mut o, "id", jtext("chatcmpl-mock-0001"));
        put_field(&mut o, "object", jtext("chat.completion"));
        put_field(&mut o, "created", jnum(0));
        put_field(&mut o, "model", jtext(self.model));
        put_field(&mut o, "choices", Json::Array(choices));
        put_field(&mut o, "usage", Json::Object(usage));
        assert(mv =~= seq![("role"@, JsonView::Str("assistant"@)), ("content"@, JsonView::Str(reply@))]);
        assert(cv =~= seq![("index"@, num(0)), ("message"@, JsonView::Obj(mv)), ("finish_reason"@, JsonView::Str("stop"@))]);
        assert(chv =~= seq![JsonView::Obj(cv)]);
        assert(uv =~= seq![("prompt_tokens"@, num(prompt)), ("completion_tokens"@, num(completion)), ("total_tokens"@, num(total))]);
        assert(view_fields(o@) =~= mock_reply(self.model@, request.view_of(), reply@, prompt, completion)->Obj_0);
        Json::Object(o)
    }
}

/// The request sent upstream: the caller's request, with the backend's
/// effective model when the request names none.
pub open spec fn upstream_request(request: JsonView, model: Seq<char>) -> JsonView {
    if or_text(jstr(request, "model"@), Seq::empty()).len() > 0 {
        request
    } else {
        crate::settings::merged(request, JsonView::Obj(seq![("model"@, JsonView::Str(model))]))
    }
}

/// The CodeBuddy request: always streaming, with usage in the stream.
pub open spec fn codebuddy_request(body: JsonView) -> JsonView {
    crate::settings::merged(body, JsonView::Obj(seq![
        ("stream"@, JsonView::Bool(true)),
        ("stream_options"@, JsonView::Obj(seq![("include_usage"@, JsonView::Bool(true))])),
    ]))
}

impl OpenAICompatConfig {
    /// The request to send upstream for a caller's request.
    pub fn upstream_body(&self, request: &Json) -> (b: Json)
        ensures
            b.view_of() == upstream_request(request.view_of(), match self.model {
                Some(x) => x@,
                None => provider_default_model(self.provider),
            }),
    {
        proof {
            reveal_strlit("");
            assert(""@ =~= Seq::<char>::empty());
        }
        let has_model = match request.get_str("model") {
            Some(m) => char_count(m) > 0,
            None => false,
        };
        let mut body = request.duplicate();
        if !has_model {
            let mut o = new_obj();
            let m = self.effective_model();
            put_field(&mut o, "model", jtext(m.as_str()));
            assert(view_fields(o@) =~= seq![("model"@, JsonView::Str(m@))]);
            crate::settings::deep_merge(&mut body, &Json::Object(o));
        }
        body
    }
}

/// The CodeBuddy request for an upstream body.
pub fn codebuddy_body(body: &Json) -> (b: Json)
    ensures
        b.view_of() == codebuddy_request(body.view_of()),
{
    let mut out = body.duplicate();
    let mut so = new_obj();
    put_field(&mut so, "include_usage", Json::Bool(true));
    let ghost sv = view_fields(so@);
    let mut o = new_obj();
    put_field(&mut o, "stream", Json::Bool(true));
    put_field(&mut o, "stream_options", Json::Object(so));
    assert(sv =~= seq![("include_usage"@, JsonView::Bool(true))]);
    assert(view_fields(o@) =~= seq![
        ("stream"@, JsonView::Bool(true)),
        ("stream_options"@, JsonView::Obj(seq![("include_usage"@, JsonView::Bool(true))])),
    ]);
    crate::settings::deep_merge(&mut out, &Json::Object(o));
    out
}

/// The error of a failed upstream call: `upstream <status>: ` and at most
/// 300 characters of the body.
pub fn upstream_error(status_text: &str, body: &str) -> (m: String)
    ensures
        m@ == "upstream "@ + status_text@ + ": "@ + (if body@.len() <= 300 { body@ } else { body@.take(300) }),
{
    let a = concat(concat("upstream ", status_text).as_str(), ": ");
    concat(a.as_str(), first_chars(body, 300).as_str())
}

/// The error of a failed CodeBuddy call: the reply's `msg` when it is JSON
/// with one, else at most 300 characters of the body.
pub fn codebuddy_error(status_text: &str, body: &str) -> (m: String)
    ensures
        ({
            let detail = match json_parse_of(body@) {
                Some(v) => match jstr(v, "msg"@) {
                    Some(d) => d,
                    None => if body@.len() <= 300 { body@ } else { body@.take(300) },
                },
                None => if body@.len() <= 300 { body@ } else { body@.take(300) },
            };
            m@ == "upstream "@ + status_text@ + ": "@ + detail
        }),
{
    let detail = match json_parse(body) {
        Ok(v) => match v.get_str("msg") {
            Some(d) => d.to_string(),
            None => first_chars(body, 300),
        },
        Err(_) => first_chars(body, 300),
    };
    let a = concat(concat("upstream ", status_text).as_str(), ": ");
    concat(a.as_str(), detail.as_str())
}

} // verus!
