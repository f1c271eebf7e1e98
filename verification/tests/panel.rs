use aipg::admin::{
    accept_backend, backends_reply, clip, entry_from_body, inherit_for_test, inherit_key, probe_connect_failure,
    probe_status_failure, test_reply, TestBoard, TestStatus,
};
use aipg::api::{ApiState, Reply};
use aipg::auth::AuthService;
use aipg::backend::{codebuddy_body, codebuddy_error, upstream_error, BackendEntry, KeyEnv, MockBackend, OpenAICompatConfig, Provider};
use aipg::backend_store::BackendStore;
use aipg::json::{Json, JsonNumber};
use aipg::member::MemberRegistry;
use aipg::quota::QuotaService;
use aipg::registry::{BackendInfo, BackendRegistry};
use aipg::usage::UsageService;
use aipg::strategy::{PreflightBlock, QuotaSnapshot, StrategySummary};
use serde_json::Value;

fn j(s: &str) -> Value {
    serde_json::from_str(s).unwrap()
}

fn to_json(v: &Value) -> Json {
    match v {
        Value::Null => Json::Null,
        Value::Bool(b) => Json::Bool(*b),
        Value::Number(n) => Json::Number(JsonNumber { text: n.to_string(), unsigned: n.as_u64() }),
        Value::String(s) => Json::Str(s.clone()),
        Value::Array(a) => Json::Array(a.iter().map(to_json).collect()),
        Value::Object(m) => Json::Object(m.iter().map(|(k, x)| (k.clone(), to_json(x))).collect()),
    }
}

fn to_value(j: &Json) -> Value {
    match j {
        Json::Null => Value::Null,
        Json::Bool(b) => Value::Bool(*b),
        Json::Number(n) => serde_json::from_str(&n.text).unwrap(),
        Json::Str(s) => Value::String(s.clone()),
        Json::Array(a) => Value::Array(a.iter().map(to_value).collect()),
        Json::Object(o) => Value::Object(o.iter().map(|(k, v)| (k.clone(), to_value(v))).collect()),
    }
}

fn reply_value(r: &Reply) -> (u16, Value) {
    match r {
        Reply::Json(s, j) => (*s, to_value(j)),
        Reply::EventStream(_) => panic!("not json"),
    }
}

fn api_state() -> ApiState {
    let mut backends = BackendRegistry::new();
    backends.register(BackendInfo { name: "mock".into(), provider: Provider::Mock, models: vec!["mock-7b".into()] });
    backends.register(BackendInfo { name: "deepseek".into(), provider: Provider::DeepSeek, models: vec!["deepseek-chat".into(), "deepseek-reasoner".into()] });
    ApiState {
        sharing: true,
        auth: AuthService::new(3600),
        members: MemberRegistry::new(90, "gw"),
        usage: UsageService::new(),
        quota: QuotaService::new(),
        backends,
        policy: aipg::policy::LoadPolicy::new(),
        link_mode: aipg::link_crypto::LinkEncryptMode::AesGcm,
    }
}

fn saved(provider: &str, id: Option<&str>, key: Option<&str>, base: Option<&str>, models: &[&str]) -> BackendEntry {
    BackendEntry {
        provider: provider.into(),
        id: id.map(|s| s.into()),
        api_key: key.map(|s| s.into()),
        base_url: base.map(|s| s.into()),
        models: models.iter().map(|s| s.to_string()).collect(),
        ..Default::default()
    }
}

#[test]
fn form_without_key_keeps_saved_key() {
    let store = vec![saved("deepseek", None, Some("sk-old"), None, &[]), saved("kimi", None, Some("sk-k"), None, &[])];
    let mut e = entry_from_body(&to_json(&j(r#"{ "provider": "deepseek", "models": ["deepseek-chat"] }"#))).unwrap();
    inherit_key(&mut e, &store);
    assert_eq!(e.api_key.as_deref(), Some("sk-old"));
    assert_eq!(e.models, vec!["deepseek-chat"]);
    let mut with_key = entry_from_body(&to_json(&j(r#"{ "provider": "deepseek", "apiKey": "sk-new" }"#))).unwrap();
    inherit_key(&mut with_key, &store);
    assert_eq!(with_key.api_key.as_deref(), Some("sk-new"));
    let mut unknown = entry_from_body(&to_json(&j(r#"{ "provider": "zhipu" }"#))).unwrap();
    inherit_key(&mut unknown, &store);
    assert_eq!(unknown.api_key, None);
}

#[test]
fn test_form_takes_saved_address_and_models() {
    let store = vec![saved("ollama", Some("o"), Some("k"), Some("http://h/v1"), &["qwen"])];
    let mut e = entry_from_body(&to_json(&j(r#"{ "provider": "ollama", "id": "o" }"#))).unwrap();
    inherit_for_test(&mut e, &store);
    assert_eq!(e.base_url.as_deref(), Some("http://h/v1"));
    assert_eq!(e.models, vec!["qwen"]);
    assert_eq!(e.api_key.as_deref(), Some("k"));
    let mut own = entry_from_body(&to_json(&j(r#"{ "provider": "ollama", "id": "o", "baseUrl": "http://x" }"#))).unwrap();
    inherit_for_test(&mut own, &store);
    assert_eq!(own.base_url.as_deref(), Some("http://x"));
}

#[test]
fn probe_failure_texts() {
    assert_eq!(clip("abcdef", 3), "abc…");
    assert_eq!(clip("abc", 3), "abc");
    assert_eq!(probe_status_failure(401, "Unauthorized", "bad key"), "HTTP 401 Unauthorized（API 密钥无效或已过期）: bad key");
    assert_eq!(probe_status_failure(500, "Internal Server Error", ""), "HTTP 500 Internal Server Error: ");
    let long = "x".repeat(300);
    let m = probe_status_failure(502, "Bad Gateway", &long);
    assert_eq!(m.chars().count(), 22 + 121);
    assert!(m.ends_with('…'));
    assert_eq!(probe_connect_failure("refused"), "连接失败（connection failed: refused）");
}

#[test]
fn backend_list_rows() {
    let entries = vec![
        saved("deepseek", None, Some("sk-1234567890"), None, &["deepseek-chat"]),
        saved("ollama", Some("o"), None, Some("http://h/v1"), &[]),
    ];
    let envs = vec![KeyEnv::none(), KeyEnv::none()];
    let mut board = TestBoard::new();
    board.record("deepseek", TestStatus::Passed(42));
    board.record("o", TestStatus::Failed("HTTP 401".into()));
    let v = to_value(&backends_reply(&entries, &envs, &vec!["deepseek".to_string()], &board));
    let rows = v["backends"].as_array().unwrap();
    assert_eq!(rows.len(), 2);
    assert_eq!(rows[0]["id"], "deepseek");
    assert_eq!(rows[0]["model"], "deepseek-chat");
    assert_eq!(rows[0]["maskedKey"], "sk-***7890");
    assert_eq!(rows[0]["keySource"], "file");
    assert_eq!(rows[0]["registered"], true);
    assert_eq!(rows[0]["testStatus"], j(r#"{ "status": "ok", "latencyMs": 42 }"#));
    assert_eq!(rows[1]["id"], "o");
    assert_eq!(rows[1]["model"], "");
    assert_eq!(rows[1]["baseUrl"], "http://h/v1");
    assert_eq!(rows[1]["registered"], false);
    assert_eq!(rows[1]["keySource"], "none");
    assert_eq!(rows[1]["testStatus"], j(r#"{ "status": "fail", "error": "HTTP 401" }"#));
    board.forget("o");
    let v = to_value(&backends_reply(&entries, &envs, &vec![], &board));
    assert_eq!(v["backends"][1]["testStatus"], j(r#"{ "status": "untested" }"#));
}

#[test]
fn test_answers() {
    let ok = to_value(&test_reply(&TestStatus::Passed(7), &vec!["m1".to_string()]));
    assert_eq!(ok, j(r#"{ "ok": true, "latencyMs": 7, "models": ["m1"] }"#));
    let bad = to_value(&test_reply(&TestStatus::Failed("down".into()), &vec![]));
    assert_eq!(bad, j(r#"{ "ok": false, "error": "down" }"#));
}

#[test]
fn accepting_backends() {
    let mut store = BackendStore::new("/tmp/b.yaml".into(), vec![saved("deepseek", None, Some("a"), None, &[])], vec![]);
    assert!(accept_backend(&mut store, saved("deepseek", None, Some("b"), None, &[])).is_ok());
    let l = store.list();
    assert_eq!(l.len(), 1);
    assert_eq!(l[0].api_key.as_deref(), Some("b"));
    let e = accept_backend(&mut store, saved("ollama", Some("o"), None, None, &["q"])).err().unwrap();
    assert_eq!(e, "invalid backend: custom provider 'o' requires base_url");
    assert_eq!(store.list().len(), 1);
    assert!(accept_backend(&mut store, saved("ollama", Some("o"), None, Some("http://h"), &["q"])).is_ok());
    assert_eq!(store.list().len(), 2);
}

#[test]
fn quota_and_model_lists() {
    let mut st = api_state();
    st.quota.set("pc-b", 100);
    st.quota.set("pc-a", 50);
    let (s, v) = reply_value(&st.quota_list());
    assert_eq!(s, 200);
    assert_eq!(v, j(r#"{ "quotas": [ { "memberId": "pc-a", "quota": 50 }, { "memberId": "pc-b", "quota": 100 } ] }"#));
    let (_, m) = reply_value(&st.model_list());
    assert_eq!(m, j(r#"["deepseek-chat", "deepseek-reasoner", "mock-7b"]"#));
}

#[test]
fn member_rows() {
    let mut st = api_state();
    st.members.upsert_at("pc-1", "Alice", "127.0.0.1", 100);
    st.members.upsert_at("pc-2", "Bob", "10.0.0.2", 200);
    st.usage.record("pc-1", 10, 20);
    st.auth.revoke_member("pc-2", "");
    st.members.sweep_at(150);
    let ms = st.members.all_at(150);
    let local = vec![true, false];
    let (s, v) = reply_value(&st.members_reply(&ms, &local));
    assert_eq!(s, 200);
    let rows = v["members"].as_array().unwrap();
    assert_eq!(rows[0]["memberId"], "pc-1");
    assert_eq!(rows[0]["isLocal"], true);
    assert_eq!(rows[0]["banned"], false);
    assert_eq!(rows[0]["online"], true);
    assert_eq!(rows[0]["usage"], j(r#"{ "promptTokens": 10, "completionTokens": 20, "totalTokens": 30, "calls": 1 }"#));
    assert_eq!(rows[1]["displayName"], "Bob");
    assert_eq!(rows[1]["banned"], true);
    assert_eq!(rows[1]["usage"], j(r#"{}"#));
    assert_eq!(rows[1]["gatewayId"], "gw");
    let (_, later) = reply_value(&st.members_reply(&st.members.all_at(300), &local));
    assert_eq!(later["members"][0]["online"], false);
}

#[test]
fn info_answer() {
    let st = api_state();
    let (_, v) = reply_value(&st.info_reply(39090, 39091, "0.0.0.0", false, true, Some("192.168.1.5"), "pc-x"));
    assert_eq!(v["lanIp"], "192.168.1.5");
    assert_eq!(v["baseUrl"], "http://192.168.1.5:39090/v1");
    assert_eq!(v["anthropicBaseUrl"], "http://192.168.1.5:39090");
    assert_eq!(v["consoleUrl"], "http://127.0.0.1:39090");
    assert_eq!(v["localOnly"], false);
    assert_eq!(v["sharePort"], 39091);
    assert_eq!(v["hostName"], "pc-x");
    assert_eq!(v["models"], j(r#"["deepseek-chat", "deepseek-reasoner", "mock-7b"]"#));
    let (_, l) = reply_value(&st.info_reply(39090, 39091, "127.0.0.1", true, false, None, "h"));
    assert_eq!(l["lanIp"], "127.0.0.1");
    assert_eq!(l["localOnly"], true);
    let (_, n) = reply_value(&st.info_reply(1, 2, "0.0.0.0", false, true, None, "h"));
    assert_eq!(n["lanIp"], "127.0.0.1");
}

#[test]
fn mock_backend_reply() {
    let m = MockBackend::default();
    let r = to_value(&m.chat(&to_json(&j(r#"{ "messages": [ { "role": "user", "content": "hi there" } ] }"#))));
    assert_eq!(r["model"], "mock-7b");
    assert_eq!(r["choices"][0]["message"]["content"], "mock reply to: hi there");
    assert_eq!(r["usage"]["prompt_tokens"], 4);
    assert_eq!(r["usage"]["completion_tokens"], 11);
    assert_eq!(r["usage"]["total_tokens"], 15);
}

#[test]
fn upstream_requests_and_errors() {
    let c = OpenAICompatConfig {
        provider: Provider::DeepSeek,
        api_key: "k".into(),
        model: Some("deepseek-chat".into()),
        models: vec![],
        base_url: None,
        timeout_secs: 30,
        name: None,
    };
    let b = to_value(&c.upstream_body(&to_json(&j(r#"{ "messages": [] }"#))));
    assert_eq!(b["model"], "deepseek-chat");
    let kept = to_value(&c.upstream_body(&to_json(&j(r#"{ "model": "x", "messages": [] }"#))));
    assert_eq!(kept["model"], "x");
    let cb = to_value(&codebuddy_body(&to_json(&j(r#"{ "model": "m", "stream": false }"#))));
    assert_eq!(cb["stream"], true);
    assert_eq!(cb["stream_options"]["include_usage"], true);
    assert_eq!(cb["model"], "m");
    assert_eq!(upstream_error("500 Internal Server Error", "oops"), "upstream 500 Internal Server Error: oops");
    assert_eq!(codebuddy_error("400 Bad Request", r#"{ "msg": "bad model" }"#), "upstream 400 Bad Request: bad model");
    assert_eq!(codebuddy_error("400 Bad Request", "plain"), "upstream 400 Bad Request: plain");
}

#[test]
fn encrypt_decrypt_roundtrip() {
    let v = aipg::vault::Vault::from_key_bytes(&[7u8; 32]);
    let enc = v.encrypt("secret-password");
    assert_ne!(enc, "secret-password");
    assert!(enc.contains(':'));
    assert_eq!(v.decrypt(&enc).as_deref(), Some("secret-password"));
}

#[test]
fn same_vault_key_roundtrip() {
    let key: Vec<u8> = (0u8..32).collect();
    let v1 = aipg::vault::Vault::from_key_bytes(&key);
    let enc = v1.encrypt("token-abc");
    let v2 = aipg::vault::Vault::from_key_bytes(&key);
    assert_eq!(v2.decrypt(&enc).as_deref(), Some("token-abc"));
}

#[test]
fn vault_refuses_foreign_or_broken_values() {
    let v = aipg::vault::Vault::from_key_bytes(b"short key");
    let other = aipg::vault::Vault::from_key_bytes(b"another key");
    let enc = v.encrypt("x");
    assert_eq!(other.decrypt(&enc), None);
    assert_eq!(v.decrypt("no separator"), None);
    assert_eq!(v.decrypt("!!:AAAA"), None);
    assert_eq!(v.decrypt("AAAA:AAAA"), None);
}

#[test]
fn not_connected_error() {
    let c = aipg::share_client::ShareClient::new(aipg::share_client::ShareClientConfig::default());
    assert!(!c.is_connected());
}

#[test]
fn member_gateway_answers() {
    let (s, v) = reply_value(&aipg::api::preflight_reply(&PreflightBlock::Banned));
    assert_eq!(s, 403);
    assert_eq!(v, j(r#"{ "error": { "message": "blocked: member banned", "type": "member_banned", "code": "banned" } }"#));
    let (s, v) = reply_value(&aipg::api::preflight_reply(&PreflightBlock::QuotaExceeded { limit: 500 }));
    assert_eq!(s, 429);
    assert_eq!(v["error"]["message"], "quota exceeded: limit 500 tokens");
    assert_eq!(v["error"]["quota_limit"], 500);
    let m = to_value(&aipg::api::rule_models(&vec!["deepseek-r1".to_string()]));
    assert_eq!(m, j(r#"{ "object": "list", "data": [ { "id": "deepseek-r1", "object": "model", "created": 0, "owned_by": "aipowerlink-rule" } ] }"#));
    let none = to_value(&aipg::api::member_status(0, "(none)", &None));
    assert_eq!(none, j(r#"{ "role": "client", "leaders": 0, "leader": "(none)", "strategy": null }"#));
    let summary = StrategySummary { version: 7, rules: vec!["a".into(), "b".into()], quota: QuotaSnapshot { limit: 9, used: 3 }, banned: false, fetched_at: 11 };
    let st = to_value(&aipg::api::member_status(1, "x", &Some(summary)));
    assert_eq!(st["strategy"], j(r#"{ "version": 7, "rules": 2, "quota": { "limit": 9, "used": 3 }, "banned": false, "fetched_at": 11 }"#));
}

#[test]
fn backend_store_upsert_counts_and_lists_by_key() {
    let mut store = BackendStore::new("/tmp/b.yaml".into(), vec![saved("openai", None, Some("a"), None, &[])], vec![]);
    store.upsert(saved("deepseek", None, Some("b"), None, &[]));
    assert_eq!(store.list().len(), 2);
    store.upsert(saved("openai", None, Some("c"), None, &[]));
    let list = store.list();
    assert_eq!(list.len(), 2);
    assert_eq!(list[0].provider, "deepseek");
    assert_eq!(list[1].provider, "openai");
    assert_eq!(list[1].api_key.as_deref(), Some("c"));
    assert!(store.remove("openai"));
    assert_eq!(store.list().len(), 1);
    assert!(!store.remove("openai"));
}
