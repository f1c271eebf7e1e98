use aipg::i18n::{lang_from_locale, parse_pref, pref_text, replace_all, I18n, Lang};
use aipg::roles::{ModuleEntry, RoleManager, RoleProfile, Trust, Regex, ROLE_ID_RE};

#[test]
fn tr_zh_en() {
    let mut i = I18n::without_persist();
    assert_eq!(i.tr("tray.quit"), "Quit");
    i.set_lang(Lang::Zh);
    assert_eq!(i.tr("tray.quit"), "退出");
}

#[test]
fn tr_args_replaces() {
    let mut i = I18n::without_persist();
    assert_eq!(i.tr_args("tray.open_console", &[]), "Open console");
    i.set_lang(Lang::Zh);
    assert_eq!(i.tr_args("tray.open_console", &[]), "打开管理面板");
}

#[test]
fn missing_key_fallback() {
    let mut i = I18n::without_persist();
    i.set_lang(Lang::Zh);
    assert_eq!(i.tr("unknown.key"), "unknown.key");
    i.set_lang(Lang::En);
    assert_eq!(i.tr("unknown.key"), "unknown.key");
}

#[test]
fn i18n_persist_roundtrip() {
    let saved = pref_text(Lang::En);
    assert_eq!(saved, "{\"lang\":\"en\"}");
    let i2 = I18n::with_lang(parse_pref(&saved));
    assert_eq!(i2.lang(), Lang::En);
    assert_eq!(parse_pref(&pref_text(Lang::Zh)), Lang::Zh);
    assert_eq!(parse_pref(" en \n"), Lang::En);
}

#[test]
fn placeholders_and_locales() {
    assert_eq!(replace_all("a {x} b {x}", "{x}", "1"), "a 1 b 1");
    assert_eq!(replace_all("aaa", "aa", "b"), "ba");
    let i = I18n::without_persist();
    assert_eq!(i.tr_args("app.name", &[("x", "y")]), "AIPowerLink");
    assert_eq!(lang_from_locale("zh_CN.UTF-8"), Lang::Zh);
    assert_eq!(lang_from_locale("ZH_tw"), Lang::Zh);
    assert_eq!(lang_from_locale("en_US.UTF-8"), Lang::En);
    assert_eq!(Lang::Zh.code(), "zh-CN");
}

#[test]
fn builtin_roles_present() {
    let m = RoleManager::new("/tmp/aipg-roles");
    assert_eq!(m.builtin_roles().len(), 2);
    assert_eq!(m.user_roles_dir(), "/tmp/aipg-roles/roles");
}

#[test]
fn clone_builtin_to_user() {
    let mut m = RoleManager::new("/tmp/x");
    let p = m.clone_role("server", "my-server").unwrap();
    assert_eq!(p.base.as_deref(), Some("server"));
    assert_eq!(p.name.as_deref(), Some("自定义组长"));
    assert_eq!(m.find("my-server").unwrap().1, Trust::User);
}

#[test]
fn builtin_readonly() {
    let mut m = RoleManager::new("/tmp/x");
    assert!(m.delete_role("server").is_err());
    assert!(m.edit_role("server", Vec::new()).is_err());
}

#[test]
fn enabled_modules_with_base() {
    let mut m = RoleManager::new("/tmp/x");
    let mut p = m.clone_role("server", "light").unwrap();
    p.modules.push(("lan-usage".to_string(), ModuleEntry { enabled: false, config: serde_json::Value::Null }));
    m.save_user_role(p);
    let mods = m.enabled_modules("light").unwrap();
    assert!(!mods.contains(&"lan-usage".to_string()));
    assert!(mods.contains(&"lan-share-server".to_string()));
}

#[test]
fn id_validation() {
    assert!(RoleProfile::validate_id("my-role"));
    assert!(!RoleProfile::validate_id("My Role"));
    assert!(!RoleProfile::validate_id(""));
    assert!(!RoleProfile::validate_id("-x"));
    assert!(Regex::new(ROLE_ID_RE).is_match("0a-b"));
}

#[test]
fn role_errors_and_new_roles() {
    let mut m = RoleManager::new("/tmp/x");
    match m.new_role("Bad") {
        Err(e) => assert_eq!(e.message(), "role error: invalid role id: Bad (must match ^[a-z0-9][a-z0-9-]*$)"),
        Ok(_) => panic!(),
    }
    assert!(m.new_role("server").is_err(), "built-in ids are taken");
    let r = m.new_role("mine").unwrap();
    assert_eq!(r.name.as_deref(), Some("mine"));
    assert_eq!(m.enabled_modules("mine").unwrap(), Vec::<String>::new());
    assert!(m.clone_role("nope", "x2").is_err());
    assert!(m.delete_role("mine").is_ok());
    assert!(m.find("mine").is_none());
    assert!(m.enabled_modules("mine").is_err());
    let server = m.enabled_modules("server").unwrap();
    let mut sorted = server.clone();
    sorted.sort();
    assert_eq!(server, sorted);
    assert_eq!(server.len(), 6);
    let e = m.edit_role("nope", Vec::new());
    assert!(e.is_err());
    let mut m2 = RoleManager::new("d");
    m2.load_user_roles(vec![RoleProfile { id: "b".into(), name: None, modules: vec![], base: None }, RoleProfile { id: "a".into(), name: None, modules: vec![], base: None }]);
    let ids: Vec<String> = m2.user_roles().into_iter().map(|r| r.id).collect();
    assert_eq!(ids, vec!["a".to_string(), "b".to_string()]);
}
