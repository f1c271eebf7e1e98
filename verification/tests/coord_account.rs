use aipg::account::{AccountModule, AccountPlugin, AccountSession, AccountStore, DeviceSession, DeviceStore};
use aipg::coord::{login_from_reply, relay_result, AccountClient, AccountClientConfig, CoordClientModule, CoordError, DeviceClient, DeviceClientConfig, LoginResponse, RegisterResponse};

#[test]
fn session_roundtrip() {
    let mut s = AccountSession::default();
    assert!(!s.is_logged_in(), "anonymous by default");
    assert_eq!(s.summary(), "匿名模式(未登录)——全部核心功能可用,登录为可选增强");
    s.username = Some("alice".into());
    s.token = Some("tok-1".into());
    s.device_bound = true;
    s.share_id = Some("aipg-1".into());
    assert!(s.is_logged_in());
    assert_eq!(s.summary(), "已登录(账号: alice, 本机设备已绑定(shareId=aipg-1))");
    s.device_bound = false;
    s.username = None;
    assert_eq!(s.summary(), "已登录(账号: ?, 本机设备未绑定(可运行 account bind))");
}

#[test]
fn assemble_respects_enabled_and_url() {
    assert!(AccountPlugin::assemble("/tmp/d", "http://127.0.0.1:6800", false, AccountSession::default()).is_none());
    assert!(AccountPlugin::assemble("/tmp/d", "", true, AccountSession::default()).is_none());
    let mut s = AccountSession::default();
    s.username = Some("bob".into());
    s.token = Some("tok-2".into());
    let p = AccountPlugin::assemble("/tmp/d", "http://127.0.0.1:6800", true, s).unwrap();
    assert_eq!(p.session.username.as_deref(), Some("bob"));
    assert!(p.client.is_session_restored());
    assert_eq!(p.store.path(), "/tmp/d/account.json");
}

#[test]
fn device_store_roundtrip() {
    let store = DeviceStore::new("/tmp/d/");
    assert_eq!(store.path(), "/tmp/d/device.json");
    let d = DeviceSession::new("dev-tok", "aipg-42");
    assert_eq!(d.device_token, "dev-tok");
    assert_eq!(d.share_id, "aipg-42");
    assert_eq!(AccountStore::new("x").path(), "x/account.json");
}

#[test]
fn device_client_urls_and_credentials() {
    let mut c = DeviceClient::new(DeviceClientConfig::default());
    assert_eq!(c.register_url(), "http://127.0.0.1:8080/v1/device/register");
    assert_eq!(c.heartbeat_url(), "http://127.0.0.1:8080/v1/device/heartbeat");
    assert_eq!(c.resolve_url("aipg-9"), "http://127.0.0.1:8080/v1/resolve?shareId=aipg-9");
    assert_eq!(c.device_token(), "");
    assert!(c.share_id().is_none());
    c.record_registration(&RegisterResponse { device_token: "t".into(), share_id: "s".into(), heartbeat_interval_s: 0 });
    assert_eq!(c.device_token(), "t");
    assert_eq!(c.share_id().as_deref(), Some("s"));
}

#[test]
fn account_client_session() {
    let mut c = AccountClient::new(AccountClientConfig::default());
    assert!(matches!(c.bind_token(), Err(CoordError::NotRegistered)));
    assert_eq!(c.login_url(), "http://127.0.0.1:8080/v1/auth/login");
    c.record_login(&LoginResponse { token: "k".into(), device_bound: false });
    assert_eq!(c.bind_token().unwrap(), "k");
}

#[test]
fn relay_status_mapping() {
    assert_eq!(relay_result(200, "ok".into()).unwrap(), "ok");
    let e = relay_result(503, "down".into()).unwrap_err();
    assert_eq!(e.message(), "relay returned 503: down");
    assert_eq!(CoordError::NotRegistered.message(), "device not registered");
}

#[test]
fn coord_module_defaults() {
    let m = CoordClientModule::default();
    assert!(!m.enabled());
    assert_eq!(m.node.api_port, 39091);
    assert_eq!(m.name(), "coord-client");
    let t = m.telemetry();
    assert!(!t.enabled);
    let a = AccountModule { base_url: String::new(), enabled: false, data_dir: String::new() };
    assert!(a.optional());
    assert_eq!(a.name(), "coord-account");
}

#[test]
fn login_reply_reads_token_and_binding() {
    let r = login_from_reply(r#"{"token":"tok-9","device_bound":true,"extra":1}"#).unwrap();
    assert_eq!(r.token, "tok-9");
    assert!(r.device_bound);
    let r = login_from_reply(r#"{"token":"tok-8"}"#).unwrap();
    assert_eq!(r.token, "tok-8");
    assert!(!r.device_bound);
    let r = login_from_reply(r#"["tok-7", true]"#).unwrap();
    assert_eq!(r.token, "tok-7");
    assert!(r.device_bound);
}

#[test]
fn login_reply_without_token_is_missing_field() {
    for body in [r#"{"device_bound":true}"#, r#"{"token":5}"#, r#"{"token":"t","device_bound":"yes"}"#, "not json", "[]"] {
        match login_from_reply(body) {
            Err(CoordError::MissingField(f)) => assert_eq!(f, "login"),
            other => panic!("{body}: {other:?}"),
        }
    }
}

#[test]
fn login_then_bind_updates_the_session() {
    let mut s = AccountSession::default();
    s.share_id = Some("old".into());
    let resp = LoginResponse { token: "tok-1".into(), device_bound: false };
    let s = s.after_login("alice", &resp);
    assert!(s.is_logged_in());
    assert_eq!(s.username.as_deref(), Some("alice"));
    assert_eq!(s.token.as_deref(), Some("tok-1"));
    assert!(!s.device_bound);
    assert_eq!(s.share_id.as_deref(), Some("old"));
    let s = s.after_bind("aipg-7");
    assert!(s.device_bound);
    assert_eq!(s.share_id.as_deref(), Some("aipg-7"));
    assert_eq!(s.token.as_deref(), Some("tok-1"));
    assert_eq!(s.summary(), "已登录(账号: alice, 本机设备已绑定(shareId=aipg-7))");
}
