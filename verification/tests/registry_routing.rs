use aipg::backend::{BackendEntry, KeyEnv, Provider};
use aipg::registry::{backend_from_entry, info_of, prefix_for, registry_from_entries, BackendInfo, BackendRegistry, BuiltBackend};

fn entry(provider: &str, id: Option<&str>, model: Option<&str>, url: Option<&str>) -> BackendEntry {
    BackendEntry {
        provider: provider.to_string(),
        id: id.map(|s| s.to_string()),
        api_key: None,
        api_key_env: None,
        model: model.map(|s| s.to_string()),
        models: Vec::new(),
        base_url: url.map(|s| s.to_string()),
    }
}

fn has_model(reg: &BackendRegistry, m: &str) -> bool {
    reg.models_catalog().iter().any(|(x, _)| x == m)
}

#[test]
fn builtin_prefix_routing() {
    let reg = registry_from_entries(&vec![entry("mock", None, None, None), entry("deepseek", None, None, None)], &vec![KeyEnv::none(), KeyEnv::none()]).unwrap();
    assert_eq!(reg.backend_count(), 2);
    assert!(has_model(&reg, "deepseek-chat"));
    let name = reg.route("deepseek-chat").expect("route deepseek-chat");
    assert_eq!(name, "deepseek");
    let name = reg.route("mock-anything").expect("route mock prefix");
    assert_eq!(name, "mock");
}

#[test]
fn custom_provider_routes_by_exact_model() {
    let reg = registry_from_entries(
        &vec![
            entry("ollama", Some("ollama"), Some("qwen2.5:7b"), Some("http://127.0.0.1:11434/v1")),
            entry("deepseek", None, Some("deepseek-chat"), None),
        ],
        &vec![KeyEnv::none(), KeyEnv::none()],
    )
    .unwrap();
    let name = reg.route("qwen2.5:7b").expect("route custom model");
    assert_eq!(name, "ollama");
    let name2 = reg.route("deepseek-chat").expect("route deepseek");
    assert_eq!(name2, "deepseek");
    assert!(has_model(&reg, "qwen2.5:7b"));
}

#[test]
fn custom_provider_requires_url_and_model() {
    let e = entry("ollama", Some("ollama"), None, Some("http://x/v1"));
    assert!(backend_from_entry(&e, &KeyEnv::none()).is_err(), "missing model");
    let e2 = entry("ollama", Some("ollama"), Some("m"), None);
    assert!(backend_from_entry(&e2, &KeyEnv::none()).is_err(), "missing base_url");
}

#[test]
fn multi_model_entry_catalog_and_route() {
    let mut e = entry("deepseek", None, None, None);
    e.models = vec!["deepseek-chat".into(), "deepseek-reasoner".into()];
    let reg = registry_from_entries(&vec![e], &vec![KeyEnv::none()]).unwrap();
    assert_eq!(reg.backend_count(), 1);
    for m in ["deepseek-chat", "deepseek-reasoner"] {
        assert!(has_model(&reg, m), "catalog missing {m}");
        let name = reg.route(m).expect("route");
        assert_eq!(name, "deepseek");
    }
    assert!(!has_model(&reg, "deepseek-other"));
}

#[test]
fn hot_replace_swaps_routing() {
    let mut reg = BackendRegistry::new();
    reg.register(info_of(&BuiltBackend::Mock));
    assert_eq!(reg.backend_count(), 1);
    let entries = vec![
        entry("deepseek", None, Some("deepseek-chat"), None),
        entry("ollama", Some("ollama"), Some("qwen2.5:7b"), Some("http://127.0.0.1:11434/v1")),
    ];
    let built: Vec<BackendInfo> = entries.iter().map(|e| info_of(&backend_from_entry(e, &KeyEnv::none()).unwrap())).collect();
    reg.replace_all(built);
    assert_eq!(reg.backend_count(), 2);
    assert!(reg.route("mock-7b").is_none(), "the mock is gone");
    let name = reg.route("deepseek-chat").expect("new backend routes");
    assert_eq!(name, "deepseek");
    let name2 = reg.route("qwen2.5:7b").expect("custom exact route");
    assert_eq!(name2, "ollama");
}

#[test]
fn custom_entry_errors_name_the_entry() {
    let e = entry("ollama", Some("local"), None, Some("  "));
    assert_eq!(backend_from_entry(&e, &KeyEnv::none()).err().unwrap(), "custom provider 'local' requires base_url");
    let e = entry("ollama", None, None, Some("http://x/v1"));
    assert_eq!(backend_from_entry(&e, &KeyEnv::none()).err().unwrap(), "custom provider 'ollama' requires at least one model");
    let bad = registry_from_entries(&vec![entry("deepseek", None, None, None), e], &vec![KeyEnv::none(), KeyEnv::none()]);
    assert_eq!(bad.err().unwrap(), "custom provider 'ollama' requires at least one model");
}

#[test]
fn longest_prefix_and_single_backend_fallback() {
    let mut reg = BackendRegistry::new();
    reg.register(BackendInfo { name: "glm".into(), provider: Provider::Zhipu, models: vec![] });
    assert_eq!(reg.route("anything").as_deref(), Some("glm"), "a lone backend takes everything");
    reg.register(BackendInfo { name: "kimi".into(), provider: Provider::Kimi, models: vec!["special".into()] });
    assert_eq!(reg.route("glm-4").as_deref(), Some("glm"));
    assert_eq!(reg.route("kimi-k2").as_deref(), Some("kimi"));
    assert_eq!(reg.route("special").as_deref(), Some("kimi"));
    assert_eq!(reg.route("anything"), None);
    reg.register(BackendInfo { name: "mock".into(), provider: Provider::Mock, models: vec![] });
    assert_eq!(reg.route("mock-7b"), None, "a mock joining later claims no prefix");
}

#[test]
fn catalog_is_sorted_and_keeps_the_least_backend() {
    let mut reg = BackendRegistry::new();
    reg.register(BackendInfo { name: "zeta".into(), provider: Provider::Custom, models: vec!["m2".into(), "m1".into()] });
    reg.register(BackendInfo { name: "alpha".into(), provider: Provider::Custom, models: vec!["m2".into()] });
    let cat = reg.models_catalog();
    assert_eq!(cat, vec![("m1".to_string(), "zeta".to_string()), ("m2".to_string(), "alpha".to_string())]);
    assert_eq!(reg.backend_names(), vec!["alpha".to_string(), "zeta".to_string()]);
}

#[test]
fn prefixes_of_builtin_providers() {
    assert_eq!(prefix_for(Provider::DeepSeek), Some("deepseek-"));
    assert_eq!(prefix_for(Provider::Zhipu), Some("glm-"));
    assert_eq!(prefix_for(Provider::Custom), None);
    assert_eq!(prefix_for(Provider::CodeBuddy), None);
}
