use aipg::admin::bearer_token;
use aipg::cli::{bundle_path, lock_name, run_mode, tray_label, Cli, RunMode, APP_NAME};
use aipg::config::{delete_sql, list_sql, listed_entry, select_sql, table_for, upsert_sql, DbError, RoleView, Sensitivity};
use aipg::events::{EventBus, Host};
use aipg::json::{Json, JsonNumber};
use aipg::punch::{Candidate, CandidateKind, FingerprintVerifier, PunchCert, PunchOptions};
use aipg::settings::{deep_merge, merge, redact, ConfigField};
use aipg::tray::{action_for, build_menu, LeaderEntry, MenuLine, TrayAction, TrayCommand, TrayMode, TrayState};
use serde_json::Value;
use std::cell::RefCell;
use std::rc::Rc;

fn to_json(v: &Value) -> Json {
    match v {
        Value::Null => Json::Null,
        Value::Bool(b) => Json::Bool(*b),
        Value::Number(n) => Json::Number(JsonNumber { text: n.to_string(), unsigned: n.as_u64() }),
        Value::String(s) => Json::Str(s.clone()),
        Value::Array(a) => Json::Array(a.iter().map(to_json).collect()),
        Value::Object(m) => Json::Object(m.iter().map(|(k, x)| (k.clone(), to_json(x))).collect()),
    }
}

fn to_value(j: &Json) -> Value {
    match j {
        Json::Null => Value::Null,
        Json::Bool(b) => Value::Bool(*b),
        Json::Number(n) => serde_json::from_str(&n.text).unwrap(),
        Json::Str(s) => Value::String(s.clone()),
        Json::Array(a) => Value::Array(a.iter().map(to_value).collect()),
        Json::Object(o) => Value::Object(o.iter().map(|(k, v)| (k.clone(), to_value(v))).collect()),
    }
}

fn parse(text: &str) -> Json {
    to_json(&serde_json::from_str::<Value>(text).unwrap())
}

#[test]
fn merge_applies_defaults_and_overrides() {
    let fields = vec![
        ConfigField::new("port", parse("39091"), "server"),
        ConfigField::new("password", Json::Null, "server").secret(),
    ];
    let merged = to_value(&merge(&fields, &parse("{}"), &parse(r#"{ "port": 40000 }"#)));
    assert_eq!(merged["port"], 40000);
    assert!(merged.get("password").is_some());
}

#[test]
fn redact_hides_secret() {
    let fields = vec![ConfigField::new("password", Json::Null, "server").secret()];
    let v = parse(r#"{ "password": "hunter2", "port": 39091 }"#);
    let r = to_value(&redact(&fields, &v));
    assert_eq!(r["password"], Value::Bool(true));
    assert_eq!(r["port"], 39091);
}

#[test]
fn deep_merge_nested() {
    let mut t = parse(r#"{ "a": { "b": 1 } }"#);
    deep_merge(&mut t, &parse(r#"{ "a": { "c": 2 } }"#));
    let t = to_value(&t);
    assert_eq!(t["a"]["b"], 1);
    assert_eq!(t["a"]["c"], 2);
}

#[test]
fn dotted_defaults_need_existing_parents() {
    let fields = vec![
        ConfigField::new("net.port", parse("1"), "global"),
        ConfigField::new("missing.port", parse("2"), "global"),
    ];
    let merged = to_value(&merge(&fields, &parse(r#"{ "net": {} }"#), &Json::Null));
    assert_eq!(merged["net"]["port"], 1);
    assert!(merged.get("missing").is_none());
    let null_secret = vec![ConfigField::new("token", Json::Null, "client").secret()];
    let r = to_value(&redact(&null_secret, &parse(r#"{ "token": null }"#)));
    assert_eq!(r["token"], Value::Null);
    let mut scalar = parse("5");
    deep_merge(&mut scalar, &parse(r#"{ "a": 1 }"#));
    assert_eq!(to_value(&scalar), serde_json::from_str::<Value>("5").unwrap());
    let mut over = parse(r#"{ "a": { "b": 1 } }"#);
    deep_merge(&mut over, &parse(r#"{ "a": 3 }"#));
    assert_eq!(to_value(&over)["a"], 3);
    assert_eq!(ConfigField::new("k", Json::Null, "server").sensitivity, Sensitivity::Normal);
}

#[test]
fn bearer_accepts_authorization_and_x_api_key() {
    assert_eq!(bearer_token(Some("Bearer abc123"), None).as_deref(), Some("abc123"));
    assert_eq!(bearer_token(None, Some("tok-xyz")).as_deref(), Some("tok-xyz"));
    assert_eq!(bearer_token(None, None), None);
    assert_eq!(bearer_token(Some("Bearer primary"), Some("fallback")).as_deref(), Some("primary"));
    assert_eq!(bearer_token(Some("Basic zzz"), Some(" k ")).as_deref(), Some("k"));
}

#[test]
fn event_bus_calls_live_handlers_in_order() {
    let seen: Rc<RefCell<Vec<String>>> = Rc::new(RefCell::new(Vec::new()));
    let mut bus: EventBus<Box<dyn Fn(&str, &u32)>> = EventBus::new();
    let s1 = seen.clone();
    let first = bus.subscribe("tick", Box::new(move |e: &str, p: &u32| s1.borrow_mut().push(format!("a:{e}:{p}"))));
    let s2 = seen.clone();
    let second = bus.subscribe("tick", Box::new(move |e: &str, p: &u32| s2.borrow_mut().push(format!("b:{e}:{p}"))));
    assert_eq!((first, second), (0, 1));
    assert!(bus.has_subscribers("tick"));
    assert!(!bus.has_subscribers("tock"));
    bus.emit("tick", &7);
    bus.unsubscribe("tick", 0);
    bus.emit("tick", &8);
    bus.emit("tock", &9);
    assert_eq!(*seen.borrow(), vec!["a:tick:7", "b:tick:7", "b:tick:8"]);
    assert_eq!(bus.listeners("tick").len(), 1);
}

#[test]
fn host_registers_services_and_events() {
    let mut host: Host<u32, Box<dyn Fn(&str, &u32)>> = Host::new();
    host.provide("quota", 1);
    host.provide("usage", 2);
    host.provide("quota", 3);
    assert_eq!(host.get("quota"), Some(&3));
    assert_eq!(host.get("none"), None);
    let mut names = host.service_names();
    names.sort();
    assert_eq!(names, vec!["quota", "usage"]);
    let hits = Rc::new(RefCell::new(0u32));
    let h = hits.clone();
    assert_eq!(host.on("ping", Box::new(move |_e: &str, p: &u32| *h.borrow_mut() += *p)), 0);
    host.emit("ping", &5);
    assert_eq!(*hits.borrow(), 5);
}

#[test]
fn punch_values() {
    let c = Candidate::new("203.0.113.7", 39093, CandidateKind::Mapped);
    assert_eq!(c.addr_text(), "203.0.113.7:39093");
    let o = PunchOptions::default();
    assert_eq!(o.timeout, std::time::Duration::from_secs(10));
    assert_eq!(o.probe_interval, std::time::Duration::from_millis(100));
    assert_eq!(o.probes_per_round, 1);
    let der = vec![1u8, 2, 3];
    let cert = PunchCert::from_der(der.clone(), vec![9]);
    assert_eq!(cert.fingerprint.len(), 64);
    assert_eq!(PunchCert::fingerprint_of_der(&der), cert.fingerprint);
    assert!(PunchCert::usable(&der, &[1]));
    assert!(!PunchCert::usable(&[], &[1]));
    let v = FingerprintVerifier::new(cert.fingerprint.clone());
    assert!(v.accepts(&der));
    assert!(!v.accepts(&[4, 5]));
    assert!(!v.mismatch_message(&[4, 5]).is_empty());
}

#[test]
fn tray_menus_follow_state() {
    let mut st = TrayState::new();
    let server = build_menu(TrayMode::Server, &st);
    assert_eq!(server.len(), 8);
    match &server[2] {
        MenuLine::Item(label, a) => {
            assert_eq!(label, "✓ 共享中");
            assert_eq!(*a, TrayAction::NoOp);
        },
        _ => panic!("status line"),
    }
    st.apply(TrayCommand::SetSharing(false));
    match &build_menu(TrayMode::Server, &st)[2] {
        MenuLine::Item(label, _) => assert_eq!(label, "○ 已暂停"),
        _ => panic!("status line"),
    }
    let client = build_menu(TrayMode::Client, &st);
    assert_eq!(client.len(), 7);
    match &client[1] {
        MenuLine::Submenu(title, items) => {
            assert_eq!(title, "发现的组长");
            assert_eq!(items.len(), 1);
            assert_eq!(items[0].0, "（未发现组长）");
        },
        _ => panic!("leaders submenu"),
    }
    st.apply(TrayCommand::UpdateLeaders(vec![
        LeaderEntry { id: "L1".into(), name: "Alice".into(), online: true },
        LeaderEntry { id: "L2".into(), name: "Bob".into(), online: false },
    ]));
    st.apply(TrayCommand::SetConnected(true));
    let client = build_menu(TrayMode::Client, &st);
    match &client[0] {
        MenuLine::Item(label, _) => assert_eq!(label, "✓ 已接入"),
        _ => panic!("connection line"),
    }
    match &client[1] {
        MenuLine::Submenu(_, items) => {
            assert_eq!(items[0].0, "🟢 Alice");
            assert_eq!(items[1].0, "⚪ Bob");
            assert_eq!(items[1].1, TrayAction::ConnectLeader("L2".into()));
            assert_eq!(action_for(items, "⚪ Bob"), TrayAction::ConnectLeader("L2".into()));
            assert_eq!(action_for(items, "nobody"), TrayAction::NoOp);
        },
        _ => panic!("leaders submenu"),
    }
}

#[test]
fn config_statements_and_listing() {
    assert_eq!(table_for(RoleView::Server), "server_config");
    assert_eq!(select_sql(RoleView::Client), "SELECT value, secret FROM client_config WHERE key = ?1");
    assert_eq!(list_sql(RoleView::Global), "SELECT key, value, secret FROM settings");
    assert_eq!(delete_sql(RoleView::Server), "DELETE FROM server_config WHERE key = ?1");
    assert!(upsert_sql(RoleView::Global).starts_with("INSERT INTO settings (key, value, secret)"));
    let e = listed_entry("pw".into(), "cipher".into(), RoleView::Server, true, Some("x".into()));
    assert_eq!(e.value, "[set]");
    assert_eq!(e.role, "server_config");
    let e = listed_entry("pw".into(), "cipher".into(), RoleView::Server, true, None);
    assert_eq!(e.value, "[unset]");
    let e = listed_entry("port".into(), "39091".into(), RoleView::Client, false, None);
    assert_eq!(e.value, "39091");
    assert_eq!(DbError::Sql("boom".into()).message(), "sql: boom");
}

#[test]
fn cli_helpers() {
    let c = Cli::defaults();
    assert_eq!(c.role, "server");
    assert_eq!(c.backend, "mock");
    assert_eq!(lock_name("client"), "aipowergateway-client");
    assert_eq!(lock_name("server"), APP_NAME);
    assert_eq!(run_mode("server"), RunMode::Server);
    assert_eq!(run_mode("client"), RunMode::Client);
    assert_eq!(run_mode("lab"), RunMode::Custom);
    assert_eq!(tray_label(true), "disabled");
    assert_eq!(bundle_path("/Applications/A.app/Contents/MacOS/a"), "/Applications/A.app");
    assert_eq!(bundle_path("/usr/bin/a"), "/usr/bin/a");
}
