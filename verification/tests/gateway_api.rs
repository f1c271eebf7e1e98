use aipg::api::{error_reply, ApiState, Reply};
use aipg::auth::AuthService;
use aipg::backend::{BackendEntry, KeyEnv, Provider};
use aipg::boot::{merge_module_config, modules_listed};
use aipg::cli::{account_base_url, is_secret_key, launch_args, role_line, Cli};
use aipg::discovery::LeaderInfo;
use aipg::gateway::MemberGateway;
use aipg::health::{HealthMonitor, PollConfig};
use aipg::json::{Json, JsonNumber};
use aipg::launch::{entries_from_env, link_setting, parse_u16, port_setting};
use aipg::link::{error_body, is_exempt, link_step, open_request, seal_response, LinkStep};
use aipg::link_crypto::{LinkCrypto, LinkEncryptMode};
use aipg::member::MemberRegistry;
use aipg::quota::QuotaService;
use aipg::registry::{registry_from_entries, BackendInfo, BackendRegistry};
use aipg::share_client::{models_outcome, rename_outcome, ShareClient, ShareClientConfig};
use aipg::usage::UsageService;
use serde_json::Value;

fn to_json(v: &Value) -> Json {
    match v {
        Value::Null => Json::Null,
        Value::Bool(b) => Json::Bool(*b),
        Value::Number(n) => Json::Number(JsonNumber { text: n.to_string(), unsigned: n.as_u64() }),
        Value::String(s) => Json::Str(s.clone()),
        Value::Array(a) => Json::Array(a.iter().map(to_json).collect()),
        Value::Object(m) => Json::Object(m.iter().map(|(k, x)| (k.clone(), to_json(x))).collect()),
    }
}

fn to_value(j: &Json) -> Value {
    match j {
        Json::Null => Value::Null,
        Json::Bool(b) => Value::Bool(*b),
        Json::Number(n) => serde_json::from_str(&n.text).unwrap(),
        Json::Str(s) => Value::String(s.clone()),
        Json::Array(a) => Value::Array(a.iter().map(to_value).collect()),
        Json::Object(o) => Value::Object(o.iter().map(|(k, v)| (k.clone(), to_value(v))).collect()),
    }
}

fn parse(text: &str) -> Json {
    to_json(&serde_json::from_str::<Value>(text).unwrap())
}

fn leader(name: &str, address: &str, share: Option<u16>, last_seen: u64, online: bool) -> LeaderInfo {
    LeaderInfo {
        name: name.into(),
        api_port: 39091,
        share_port: share,
        fingerprint: String::new(),
        address: address.into(),
        last_seen,
        online,
    }
}

fn json_reply(r: &Reply) -> (u16, Value) {
    match r {
        Reply::Json(s, j) => (*s, to_value(j)),
        Reply::EventStream(_) => panic!("expected JSON"),
    }
}

fn api_state() -> ApiState {
    let mut backends = BackendRegistry::new();
    backends.register(BackendInfo { name: "mock".into(), provider: Provider::Mock, models: vec!["mock-7b".into()] });
    backends.register(BackendInfo { name: "deepseek".into(), provider: Provider::DeepSeek, models: vec!["deepseek-chat".into()] });
    ApiState {
        sharing: true,
        auth: AuthService::new(3600),
        members: MemberRegistry::new(90, "gw"),
        usage: UsageService::new(),
        quota: QuotaService::new(),
        backends,
        policy: aipg::policy::LoadPolicy::new(),
        link_mode: aipg::link_crypto::LinkEncryptMode::AesGcm,
    }
}

#[test]
fn gateway_picks_static_then_most_recent_online() {
    let leaders = vec![
        leader("a", "10.0.0.1", None, 100, true),
        leader("b", "10.0.0.2", Some(39092), 300, true),
        leader("c", "10.0.0.3", None, 500, false),
        leader("d", "10.0.0.4", None, 300, true),
    ];
    let mut g = MemberGateway::new();
    assert_eq!(g.leader_count(&leaders), 3);
    assert_eq!(g.pick_leader(&leaders).unwrap().name, "b");
    assert_eq!(g.leader_summary(&leaders), "a@10.0.0.1:39091");
    assert_eq!(g.leader_summary(&vec![]), "none");
    assert_eq!(g.leader_summary(&vec![leader("z", "1.1.1.1", None, 1, false)]), "offline");
    assert!(g.pick_leader(&vec![leader("z", "1.1.1.1", None, 1, false)]).is_none());
    assert!(!g.link_encrypts());
    g.set_static_leader(leader("far", "203.0.113.9", Some(40000), 0, false));
    assert_eq!(g.leader_count(&vec![]), 1);
    assert_eq!(g.leader_summary(&leaders), "[deep-link] far@203.0.113.9:40000");
    assert_eq!(g.pick_leader(&leaders).unwrap().name, "far");
}

#[test]
fn gateway_encrypts_only_deep_link_calls_with_token() {
    let leaders = vec![leader("a", "10.0.0.1", Some(39092), 1, true)];
    let g = MemberGateway::with_encrypt(LinkEncryptMode::AesGcm);
    let plain = g.prepare(&leaders, "/v1/chat/completions", Some("Bearer tok"), Some(b"{}".to_vec())).unwrap();
    assert_eq!(plain.url, "http://10.0.0.1:39092/v1/chat/completions");
    assert!(plain.post);
    assert!(!plain.encrypted);
    assert_eq!(plain.body.as_deref(), Some(&b"{}"[..]));
    let mut far = MemberGateway::with_encrypt(LinkEncryptMode::AesGcm);
    far.set_static_leader(leader("far", "203.0.113.9", None, 0, true));
    let enc = far.prepare(&vec![], "/v1/models", Some("Bearer tok"), Some(b"hello".to_vec())).unwrap();
    assert!(enc.encrypted);
    assert_eq!(enc.key, LinkCrypto::derive_key("tok"));
    let crypto = LinkCrypto::new();
    assert_eq!(crypto.decrypt(&enc.key, enc.body.as_ref().unwrap()).unwrap(), b"hello".to_vec());
    let exempt = far.prepare(&vec![], "/auth/token", Some("Bearer tok"), None).unwrap();
    assert!(!exempt.encrypted);
    assert!(!exempt.post);
    let no_token = far.prepare(&vec![], "/v1/models", None, None).unwrap();
    assert!(!no_token.encrypted);
    let sealed = crypto.encrypt(&enc.key, b"answer");
    assert_eq!(far.finish(&enc, 200, Some("v1"), sealed).unwrap(), (200, b"answer".to_vec()));
    assert_eq!(far.finish(&enc, 201, None, b"raw".to_vec()).unwrap(), (201, b"raw".to_vec()));
    assert!(far.finish(&enc, 200, Some("v1"), vec![1, 2, 3]).unwrap_err().starts_with("leader response decrypt failed: "));
    assert_eq!(
        MemberGateway::new().prepare(&vec![], "/v1/models", None, None).err().unwrap(),
        "no leader available (LAN discovery empty + no deep-link target)"
    );
}

#[test]
fn enforce_leader_rejects_unencrypted_v1() {
    let enforce = LinkEncryptMode::Enforce;
    assert!(matches!(link_step(enforce, "/auth/token", None, None, None), LinkStep::PassThrough));
    match link_step(enforce, "/v1/chat/completions", None, Some("Bearer t"), None) {
        LinkStep::Upgrade(m) => assert_eq!(m, "link encryption required: send x-aipg-enc: v1"),
        _ => panic!("expected 426"),
    }
    assert!(matches!(link_step(enforce, "/api/members", None, None, None), LinkStep::PassThrough));
    match link_step(enforce, "/v1/chat/completions", Some("v1"), Some("Bearer t"), None) {
        LinkStep::Decrypt(key) => assert_eq!(key, LinkCrypto::derive_key("t")),
        _ => panic!("expected decrypt"),
    }
    assert!(matches!(link_step(LinkEncryptMode::AesGcm, "/v1/models", None, None, None), LinkStep::PassThrough));
    assert!(matches!(link_step(LinkEncryptMode::Off, "/v1/models", Some("v1"), Some("Bearer t"), None), LinkStep::PassThrough));
}

#[test]
fn leader_link_steps() {
    assert!(is_exempt("/auth/token"));
    assert!(!is_exempt("/v1/models"));
    assert!(matches!(link_step(LinkEncryptMode::AesGcm, "/v1/models", None, Some("Bearer t"), None), LinkStep::PassThrough));
    assert!(matches!(link_step(LinkEncryptMode::AesGcm, "/auth/rename", Some("v1"), Some("Bearer t"), None), LinkStep::PassThrough));
    match link_step(LinkEncryptMode::AesGcm, "/v1/models", Some("v1"), None, Some(" k ")) {
        LinkStep::Decrypt(key) => assert_eq!(key, LinkCrypto::derive_key("k")),
        _ => panic!("expected decrypt"),
    }
    match link_step(LinkEncryptMode::AesGcm, "/v1/models", Some("v1"), None, None) {
        LinkStep::Reject(m) => assert_eq!(m, "encrypted request requires bearer token"),
        _ => panic!("expected reject"),
    }
    let key = LinkCrypto::derive_key("k");
    assert_eq!(open_request(&key, true, b"x".to_vec()).unwrap(), b"x".to_vec());
    let body = LinkCrypto::new().encrypt(&key, b"plain");
    assert_eq!(open_request(&key, false, body).unwrap(), b"plain".to_vec());
    assert!(open_request(&key, false, vec![0; 40]).unwrap_err().starts_with("decrypt failed: "));
    let sealed = seal_response(&key, b"resp").unwrap();
    assert_eq!(LinkCrypto::new().decrypt(&key, &sealed).unwrap(), b"resp".to_vec());
    assert_eq!(error_body("nope"), "{\"error\":{\"message\":\"nope\"}}");
}

#[test]
fn backends_from_command_line_and_environment() {
    let vars = vec![
        ("AIPOWERLINK_DEEPSEEK_API_KEY".to_string(), "sk".to_string()),
        ("AIPOWERLINK_DEEPSEEK_MODEL".to_string(), "deepseek-chat".to_string()),
        ("CODEBUDDY_API_KEY".to_string(), "cb".to_string()),
    ];
    let es = entries_from_env("mock, deepseek,,codebuddy", &vars).unwrap();
    assert_eq!(es.len(), 3);
    assert_eq!(es[0].provider, "mock");
    assert!(es[0].api_key_env.is_none());
    assert_eq!(es[1].api_key_env.as_deref(), Some("AIPOWERLINK_DEEPSEEK_API_KEY"));
    assert_eq!(es[1].models, vec!["deepseek-chat"]);
    assert_eq!(es[2].api_key_env.as_deref(), Some("CODEBUDDY_API_KEY"));
    assert_eq!(
        entries_from_env("kimi", &vars).unwrap_err(),
        "kimi backend requires AIPOWERLINK_KIMI_API_KEY (or AIPOWERLINK_API_KEY) env var"
    );
    assert_eq!(entries_from_env("nope", &vars).unwrap_err(), "unknown backend: nope (mock/deepseek/kimi/zhipu/codebuddy)");
    assert_eq!(entries_from_env(" , ", &vars).unwrap_err(), "no backend configured (use --backend mock/deepseek/kimi/zhipu/codebuddy)");
    let global = vec![("AIPOWERLINK_API_KEY".to_string(), "g".to_string())];
    assert_eq!(entries_from_env("zhipu", &global).unwrap()[0].api_key_env.as_deref(), Some("AIPOWERLINK_API_KEY"));
}

#[test]
fn ports_parse_like_std() {
    assert_eq!(parse_u16("39091"), Some(39091));
    assert_eq!(parse_u16("+8"), Some(8));
    assert_eq!(parse_u16("007"), Some(7));
    assert_eq!(parse_u16("65535"), Some(65535));
    assert_eq!(parse_u16("65536"), None);
    assert_eq!(parse_u16(""), None);
    assert_eq!(parse_u16("+"), None);
    assert_eq!(parse_u16("-1"), None);
    assert_eq!(parse_u16(" 1"), None);
    for s in ["0", "80", "+443", "65535", "65536", "1a", "", "99999999"] {
        assert_eq!(parse_u16(s), s.parse::<u16>().ok(), "{s}");
    }
    assert_eq!(port_setting(None, "port", 39091), Ok(39091));
    assert_eq!(port_setting(Some("x"), "share_port", 39092), Err("config share_port invalid: x".to_string()));
    assert_eq!(link_setting(None), LinkEncryptMode::AesGcm);
    assert_eq!(link_setting(Some("off")), LinkEncryptMode::Off);
}

#[test]
fn api_lets_in_routes_and_records() {
    let mut st = api_state();
    let (s, v) = json_reply(&st.let_in(None, None, 10).err().unwrap());
    assert_eq!((s, v["error"]["message"].clone()), (401, Value::from("unauthorized")));
    let (s, v) = json_reply(&st.token_for(&parse(r#"{ "machineName": "pc1", "displayName": "Alice" }"#), "10.0.0.5", 10, "tok1".into()));
    assert_eq!(s, 200);
    assert_eq!(v["token"], "tok1");
    let session = st.let_in(Some("Bearer tok1"), None, 20).ok().unwrap();
    assert_eq!(session.member_id, "pc1");
    let plan = st.plan_chat(session, &parse(r#"{ "model": "mock-7b", "stream": true, "messages": [] }"#)).ok().unwrap();
    assert_eq!(plan.backend, "mock");
    assert!(plan.stream);
    assert_eq!(to_value(&plan.forward)["stream"], false);
    let reply = st.finish_chat(&plan, Ok(parse(r#"{ "choices": [ { "message": { "content": "hi" } } ], "usage": { "prompt_tokens": 3, "completion_tokens": 4 } }"#)));
    match reply {
        Reply::EventStream(s) => assert!(s.trim_end().ends_with("data: [DONE]")),
        _ => panic!("expected a stream"),
    }
    assert_eq!(st.usage.get("pc1").unwrap().total(), 7);
    let session = st.let_in(Some("Bearer tok1"), None, 30).ok().unwrap();
    let (s, v) = json_reply(&st.plan_chat(session, &parse(r#"{ "model": "gpt-x" }"#)).err().unwrap());
    assert_eq!(s, 400);
    assert_eq!(v["error"]["message"], "model not available: gpt-x (see /v1/models)");
    let (s, _) = json_reply(&st.set_quota(&parse(r#"{ "memberId": "pc1", "quota": 5 }"#)));
    assert_eq!(s, 200);
    let (s, v) = json_reply(&st.let_in(Some("Bearer tok1"), None, 40).err().unwrap());
    assert_eq!(s, 429);
    assert_eq!(v["error"]["message"], "quota exceeded: limit 5 tokens");
    assert_eq!(v["error"]["quota_limit"], 5);
    let (s, v) = json_reply(&st.control(&parse(r#"{ "action": "pause" }"#)));
    assert_eq!((s, v["sharing"].clone()), (200, Value::Bool(false)));
    let (s, v) = json_reply(&st.let_in(Some("Bearer tok1"), None, 50).err().unwrap());
    assert_eq!((s, v["error"]["message"].clone()), (503, Value::from("sharing paused")));
}

#[test]
fn api_messages_and_management() {
    let mut st = api_state();
    let _ = st.token_for(&parse(r#"{ "machineName": "pc2" }"#), "", 1, "t2".into());
    let session = st.let_in(None, Some("t2"), 2).ok().unwrap();
    let (s, v) = json_reply(&st.plan_messages(session, "not json").err().unwrap());
    assert_eq!((s, v["error"]["message"].clone()), (400, Value::from("invalid JSON body")));
    let session = st.let_in(None, Some("t2"), 3).ok().unwrap();
    let plan = st.plan_messages(session, r#"{ "model": "mock-1", "max_tokens": 10, "messages": [ { "role": "user", "content": "hi" } ] }"#).ok().unwrap();
    assert_eq!(to_value(&plan.forward)["messages"][0]["content"], "hi");
    let (s, v) = json_reply(&st.finish_messages(&plan, Ok(parse(r#"{ "choices": [ { "message": { "content": "yo" } } ] }"#))));
    assert_eq!(s, 200);
    assert_eq!(v["content"][0]["text"], "yo");
    let (s, v) = json_reply(&st.finish_messages(&plan, Err("down".into())));
    assert_eq!((s, v["error"]["message"].clone()), (500, Value::from("backend error: down")));
    let (s, v) = json_reply(&st.control(&parse(r#"{ "action": "revoke", "memberId": "pc2" }"#)));
    assert_eq!((s, v["banned"].clone()), (200, Value::Bool(true)));
    assert!(st.let_in(None, Some("t2"), 4).is_err());
    let (s, v) = json_reply(&st.token_for(&parse(r#"{ "machineName": "pc2" }"#), "", 5, "t3".into()));
    assert_eq!((s, v["error"]["message"].clone()), (401, Value::from("banned")));
    let (s, _) = json_reply(&st.control(&parse(r#"{ "action": "unban", "memberId": "pc2" }"#)));
    assert_eq!(s, 200);
    let (s, v) = json_reply(&st.token_for(&parse(r#"{ "machineName": "pc2", "force": true }"#), "", 6, "t4".into()));
    assert_eq!((s, v["token"].clone()), (200, Value::from("t4")));
    let (s, v) = json_reply(&st.control(&parse(r#"{ "action": "rename", "memberId": "ghost", "displayName": "G" }"#)));
    assert_eq!((s, v["error"]["message"].clone()), (400, Value::from("member not found")));
    let (s, _) = json_reply(&st.control(&parse(r#"{ "action": "rename", "memberId": "pc2", "displayName": "Bob" }"#)));
    assert_eq!(s, 200);
    let (s, v) = json_reply(&st.control(&parse(r#"{ "action": "fly" }"#)));
    assert_eq!((s, v["error"]["message"].clone()), (400, Value::from("unknown action")));
    let (s, _) = json_reply(&st.rename_self(Some("Bearer t4"), None, &parse(r#"{ "displayName": "Carol" }"#), 7));
    assert_eq!(s, 200);
    let (s, v) = json_reply(&st.rename_self(Some("Bearer t4"), None, &parse("{}"), 8));
    assert_eq!((s, v["error"]["message"].clone()), (400, Value::from("displayName required")));
    let (s, v) = json_reply(&st.token_for(&parse("{}"), "", 9, "t5".into()));
    assert_eq!((s, v["error"]["message"].clone()), (400, Value::from("machineName required")));
    let (s, v) = json_reply(&error_reply(418, "teapot"));
    assert_eq!((s, v["error"]["message"].clone()), (418, Value::from("teapot")));
}

#[test]
fn share_client_session_flow() {
    let mut c = ShareClient::new(ShareClientConfig::default());
    assert!(!c.is_connected());
    assert_eq!(c.call_target("/v1/models").err().unwrap().message(), "auth: not connected");
    let (url, body) = ShareClient::connect_request("http://x:1/", "pw", "pc", "Pat");
    assert_eq!(url, "http://x:1/auth/token");
    assert_eq!(to_value(&body)["machineName"], "pc");
    let e = c.accept_connect("http://x:1/", "lead", 401, "401 Unauthorized", "").err().unwrap();
    assert_eq!(e.message(), "auth: wrong password or banned");
    let e = c.accept_connect("http://x:1/", "lead", 200, "200 OK", r#"{ "token": "" }"#).err().unwrap();
    assert_eq!(e.message(), "auth: no token in response");
    let s = c.accept_connect("http://x:1/", "lead", 200, "200 OK", r#"{ "token": "abc", "expiresAt": 9 }"#).unwrap();
    assert_eq!(s.base, "http://x:1");
    assert_eq!(s.expires_at, 9);
    assert!(c.is_connected());
    assert_eq!(c.call_target("/v1/models").unwrap(), ("http://x:1/v1/models".to_string(), "Bearer abc".to_string()));
    assert_eq!(to_value(&c.call_outcome(200, "200 OK", r#"{ "a": 1 }"#).unwrap())["a"], 1);
    assert_eq!(c.call_outcome(500, "500 Internal Server Error", "boom").err().unwrap().message(), "call failed 500 Internal Server Error: boom");
    assert_eq!(c.call_outcome(401, "401 Unauthorized", "").err().unwrap().message(), "auth: access revoked (401)");
    assert!(c.session().unwrap().revoked);
    assert_eq!(models_outcome(200, "200 OK", r#"{ "data": [ { "id": "m1" }, { "x": 1 }, { "id": "m1" } ] }"#).unwrap(), vec!["m1", "m1"]);
    assert!(rename_outcome(204).is_ok());
    c.disconnect();
    assert!(!c.is_connected());
}

#[test]
fn registry_model_answers() {
    let entries = vec![
        BackendEntry { provider: "mock".into(), ..Default::default() },
        BackendEntry { provider: "ollama".into(), id: Some("o".into()), model: Some("qwen".into()), base_url: Some("http://h".into()), ..Default::default() },
    ];
    let reg = registry_from_entries(&entries, &vec![KeyEnv::none(), KeyEnv::none()]).unwrap();
    let o = to_value(&reg.openai_models_response());
    assert_eq!(o["object"], "list");
    let ids: Vec<&str> = o["data"].as_array().unwrap().iter().map(|m| m["id"].as_str().unwrap()).collect();
    let mut sorted = ids.clone();
    sorted.sort();
    assert_eq!(ids, sorted);
    assert!(ids.contains(&"qwen"));
    assert_eq!(o["data"][0]["owned_by"], "aipowerlink");
    let a = to_value(&reg.anthropic_models_response());
    assert_eq!(a["has_more"], false);
    assert_eq!(a["first_id"], Value::from(ids[0]));
    assert_eq!(a["last_id"], Value::from(*ids.last().unwrap()));
    let empty = to_value(&BackendRegistry::new().anthropic_models_response());
    assert_eq!(empty["first_id"], Value::Null);
}

#[test]
fn health_polls_enabled_entries() {
    let mut h = HealthMonitor::new();
    let entries = vec![
        BackendEntry { provider: "deepseek".into(), ..Default::default() },
        BackendEntry { provider: "pair".into(), id: Some("p1".into()), ..Default::default() },
    ];
    assert_eq!(h.enabled_ids(&entries), vec!["p1"]);
    assert!(h.has_enabled(&entries));
    h.set_config("p1", PollConfig { enabled: false, ..PollConfig::default() });
    assert!(!h.has_enabled(&entries));
    h.set_config("deepseek", PollConfig::default());
    assert_eq!(h.enabled_ids(&entries), vec!["deepseek"]);
}

#[test]
fn module_settings_and_cli_helpers() {
    let listed = modules_listed(&parse(r#"{ "modules": ["a", 3, "b"] }"#)).unwrap();
    assert_eq!(listed, vec!["a", "b"]);
    assert!(modules_listed(&parse(r#"{ "modules": "a" }"#)).is_none());
    let merged = to_value(&merge_module_config(parse(r#"{ "port": 1, "x": { "y": 1 } }"#), &parse(r#"{ "m": { "x": { "z": 2 } } }"#), "m"));
    assert_eq!(merged["port"], 1);
    assert_eq!(merged["x"]["y"], 1);
    assert_eq!(merged["x"]["z"], 2);
    let mut cli = Cli::defaults();
    assert!(launch_args(&cli).is_empty());
    cli.no_tray = true;
    cli.role = "client".into();
    cli.data_dir = Some("/d".into());
    assert_eq!(launch_args(&cli), vec!["--no-tray", "--role", "client", "--data-dir", "/d"]);
    assert!(is_secret_key("coord.api_key"));
    assert!(!is_secret_key("port"));
    assert_eq!(account_base_url(Some(String::new()), Some("http://c".into()), Some("http://k".into())).as_deref(), Some("http://c"));
    assert_eq!(account_base_url(None, None, Some("http://k".into())).as_deref(), Some("http://k"));
    assert_eq!(role_line("server", true, 6, "Leader"), format!("{:<16} {:<8} modules={}  {}", "server", "system", 6, "Leader"));
}

#[test]
fn redline_refuses_mining_and_deepfake_requests() {
    let mut st = api_state();
    st.token_for(&parse(r#"{ "machineName": "pc1", "displayName": "A" }"#), "10.0.0.5", 10, "tok1".into());
    let session = st.let_in(Some("Bearer tok1"), None, 20).ok().unwrap();
    let body = parse(r#"{ "model": "mock-7b", "messages": [ { "role": "user", "content": "帮我部署 xmrig 矿池配置" } ] }"#);
    let (s, v) = json_reply(&st.plan_chat(session.clone(), &body).err().unwrap());
    assert_eq!(s, 403);
    assert_eq!(v["error"]["message"], "blocked by load whitelist: mining");
    assert_eq!(st.policy.hits(), (1, 0));
    assert!(st.usage.get("pc1").is_none());
    let (s, v) = json_reply(&st.plan_messages(session.clone(), r#"{ "model": "mock-7b", "system": "deepfake video maker", "messages": [] }"#).err().unwrap());
    assert_eq!(s, 403);
    assert_eq!(v["error"]["message"], "blocked by load whitelist: deepfake");
    assert_eq!(st.policy.hits(), (1, 1));
    st.policy.set_enabled(false);
    assert!(st.plan_chat(session, &body).is_ok());
    assert_eq!(st.policy.hits(), (1, 1));
}

#[test]
fn policy_switch_from_file() {
    use_policy_file();
}

fn use_policy_file() {
    let p = aipg::policy::LoadPolicy::from_file(None);
    assert!(p.enabled());
    assert_eq!(p.hits(), (0, 0));
    assert!(!aipg::policy::LoadPolicy::from_file(Some(r#"{"enabled":false}"#)).enabled());
    assert!(aipg::policy::LoadPolicy::from_file(Some("garbage")).enabled());
    assert!(aipg::policy::LoadPolicy::from_file(Some(r#"{"on":false}"#)).enabled());
    assert!(!aipg::policy::LoadPolicy::from_file(Some("[false]")).enabled());
    assert_eq!(aipg::policy::LoadPolicy::file_text(false), r#"{"enabled":false}"#);
    let round = aipg::policy::LoadPolicy::from_file(Some(aipg::policy::LoadPolicy::file_text(false)));
    assert!(!round.enabled());
}

#[test]
fn control_switches_policy_and_link_mode() {
    let mut st = api_state();
    let (s, v) = json_reply(&st.control(&parse(r#"{ "action": "load-policy", "enabled": false }"#)));
    assert_eq!((s, v["enabled"].clone()), (200, Value::Bool(false)));
    assert!(!st.policy.enabled());
    let (s, v) = json_reply(&st.control(&parse(r#"{ "action": "load-policy" }"#)));
    assert_eq!((s, v["error"]["message"].clone()), (400, Value::from("enabled required")));
    let (s, v) = json_reply(&st.control(&parse(r#"{ "action": "link-encrypt", "mode": "enforce" }"#)));
    assert_eq!((s, v["mode"].clone()), (200, Value::from("enforce")));
    assert_eq!(st.link_mode, LinkEncryptMode::Enforce);
    let (s, _) = json_reply(&st.control(&parse(r#"{ "action": "link-encrypt" }"#)));
    assert_eq!(s, 400);
    assert_eq!(st.link_mode, LinkEncryptMode::Enforce);
}
