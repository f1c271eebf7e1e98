use aipg::auth::AuthService;
use aipg::backend::{test_target, BackendEntry, KeyEnv, OpenAICompatConfig, Provider, VERSION};
use aipg::health::{HealthLevel, HealthMonitor, PollConfig, ProviderState};
use aipg::member::MemberRegistry;
use aipg::policy::{detect, LoadPolicy, PolicyCategory};
use aipg::quota::{QuotaExceeded, QuotaService};
use aipg::rules::{estimate_tokens, Candidate, Rule, RuleResolver, RuleSet};
use aipg::usage::UsageService;

fn fresh() -> ProviderState {
    ProviderState { level: HealthLevel::Healthy, failures: 0, latency_ms: None, last_error: None }
}

fn fail(st: &mut ProviderState, n: u32) {
    for _ in 0..n {
        st.observe(false, None, Some("boom".to_string()), 3, 10);
    }
}

#[test]
fn state_machine_degrade_remove_recover() {
    let mut st = fresh();
    fail(&mut st, 2);
    assert_eq!(st.level, HealthLevel::Healthy);
    assert_eq!(st.failures, 2);
    fail(&mut st, 1);
    assert_eq!(st.level, HealthLevel::Degraded);
    fail(&mut st, 7);
    assert_eq!(st.level, HealthLevel::Removed);
    assert_eq!(st.failures, 10);
    st.observe(true, Some(42), None, 3, 10);
    assert_eq!(st.level, HealthLevel::Healthy);
    assert_eq!(st.failures, 0);
    assert_eq!(st.latency_ms, Some(42));
    assert_eq!(st.last_error, None);
}

#[test]
fn success_resets_failure_run() {
    let mut st = fresh();
    fail(&mut st, 2);
    st.observe(true, Some(10), None, 3, 10);
    assert_eq!(st.failures, 0);
    assert_eq!(st.level, HealthLevel::Healthy);
    fail(&mut st, 2);
    assert_eq!(st.level, HealthLevel::Healthy, "failure count restarts from 0");
}

#[test]
fn config_defaults_by_executor() {
    let mon = HealthMonitor::new();
    let pair = mon.config("pair-home-1", true);
    assert!(pair.enabled);
    assert_eq!(pair.poll_interval_secs, 15);
    assert_eq!(pair.fail_threshold, 3);
    assert_eq!(pair.remove_threshold, 10);
    let custom = mon.config("ollama", false);
    assert!(!custom.enabled, "non-executors do not poll by default");
}

#[test]
fn set_config_overrides_default() {
    let mut mon = HealthMonitor::new();
    mon.set_config("pair-home-1", PollConfig { enabled: false, poll_interval_secs: 60, fail_threshold: 5, remove_threshold: 20 });
    let cfg = mon.config("pair-home-1", true);
    assert!(!cfg.enabled);
    assert_eq!(cfg.poll_interval_secs, 60);
    assert_eq!(cfg.fail_threshold, 5);
    assert_eq!(cfg.remove_threshold, 20);
}

fn cand(model: &str, max: Option<u64>) -> Candidate {
    Candidate { model: model.to_string(), max_prompt_tokens: max }
}

fn rule(match_model: &str, order: u32, strategy: &str, candidates: Vec<Candidate>, fallback: Vec<&str>) -> Rule {
    Rule {
        match_model: match_model.to_string(),
        order,
        strategy: strategy.to_string(),
        candidates,
        fallback: fallback.into_iter().map(|s| s.to_string()).collect(),
    }
}

fn set(id: &str, name: &str, version: u64, rules: Vec<Rule>) -> RuleSet {
    RuleSet { id: id.to_string(), name: name.to_string(), version, rules }
}

fn tier_set() -> RuleSet {
    set(
        "rs_01H",
        "default-cost",
        2,
        vec![rule(
            "*",
            1,
            "token_tier",
            vec![cand("moonshot-v1-8k", Some(6000)), cand("moonshot-v1-32k", Some(28000)), cand("moonshot-v1-128k", None)],
            vec!["gpt-4o-mini"],
        )],
    )
}

#[test]
fn token_tier_picks_smallest_that_fits() {
    let mut resolver = RuleResolver::new();
    resolver.upsert(tier_set());
    let r = resolver.resolve("default-cost", 500).unwrap();
    assert_eq!(r.rule_set, "default-cost");
    assert_eq!(r.candidates, vec!["moonshot-v1-8k", "moonshot-v1-32k", "moonshot-v1-128k", "gpt-4o-mini"]);
    assert_eq!(r.first(), Some("moonshot-v1-8k"));
    let r = resolver.resolve("default-cost", 7000).unwrap();
    assert_eq!(r.candidates.first().unwrap(), "moonshot-v1-32k");
    let r = resolver.resolve("default-cost", 30000).unwrap();
    assert_eq!(r.candidates.first().unwrap(), "moonshot-v1-128k");
    let r = resolver.resolve("default-cost", 1_000_000).unwrap();
    assert_eq!(r.candidates.first().unwrap(), "moonshot-v1-128k");
}

#[test]
fn fixed_strategy_keeps_original_order() {
    let mut resolver = RuleResolver::new();
    resolver.upsert(set(
        "rs_f",
        "cheap",
        1,
        vec![rule("*", 1, "fixed", vec![cand("b-model", None), cand("a-model", None)], vec!["fallback-model"])],
    ));
    let r = resolver.resolve("cheap", 999_999).unwrap();
    assert_eq!(r.candidates, vec!["b-model", "a-model", "fallback-model"]);
}

#[test]
fn unknown_model_falls_back_to_original_behavior() {
    let mut resolver = RuleResolver::new();
    resolver.upsert(tier_set());
    assert!(resolver.resolve("mock-7b", 100).is_none());
    assert!(resolver.resolve("nonexistent", 100).is_none());
}

#[test]
fn rule_selection_prefers_wildcard_then_exact_then_order() {
    let mut r = RuleResolver::new();
    r.upsert(set(
        "rs_s",
        "sub",
        1,
        vec![
            rule("*", 9, "fixed", vec![cand("star-model", None)], vec![]),
            rule("exact", 1, "fixed", vec![cand("exact-model", None)], vec![]),
        ],
    ));
    let res = r.resolve("sub", 1).unwrap();
    assert_eq!(res.candidates, vec!["star-model"]);
}

#[test]
fn rule_selection_prefers_requested_match_over_star() {
    let mut r = RuleResolver::new();
    r.upsert(set(
        "rs_s",
        "sub",
        1,
        vec![
            rule("*", 9, "fixed", vec![cand("star-model", None)], vec![]),
            rule("exact", 1, "fixed", vec![cand("exact-model", None)], vec![]),
        ],
    ));
    assert!(r.resolve("sub:exact", 1).is_none());
    r.upsert(set("rs_e", "sub:exact", 1, vec![rule("*", 1, "fixed", vec![cand("exact-model", None)], vec![])]));
    assert_eq!(r.resolve("sub:exact", 1).unwrap().first(), Some("exact-model"));
}

#[test]
fn rule_names_and_list_sorted() {
    let mut resolver = RuleResolver::new();
    resolver.upsert(tier_set());
    resolver.upsert(set("rs_f", "cheap", 1, vec![rule("*", 1, "fixed", vec![cand("b", None)], vec![])]));
    assert_eq!(resolver.rule_names(), vec!["cheap", "default-cost"]);
    assert_eq!(resolver.len(), 2);
    let list = resolver.list();
    assert_eq!(list[0].name, "cheap");
    assert_eq!(list[1].name, "default-cost");
}

#[test]
fn upsert_overrides_remove_deletes() {
    let mut resolver = RuleResolver::new();
    resolver.upsert(set("rs_a", "a", 1, vec![rule("*", 1, "fixed", vec![cand("m1", None)], vec![])]));
    resolver.upsert(set("rs_b", "a", 2, vec![rule("*", 1, "fixed", vec![cand("m2", None)], vec![])]));
    assert_eq!(resolver.len(), 1);
    assert_eq!(resolver.resolve("a", 1).unwrap().first(), Some("m2"));
    assert!(resolver.remove("a"));
    assert!(resolver.is_empty());
    assert!(!resolver.remove("a"));
}

#[test]
fn estimate_tokens_proportional_to_length() {
    assert!(estimate_tokens("short") < estimate_tokens(&"x".repeat(1000)));
    assert!(estimate_tokens("") >= 1);
}

#[test]
fn estimate_tokens_exact_values() {
    assert_eq!(estimate_tokens(""), 1);
    assert_eq!(estimate_tokens("abcdefgh"), 2);
    assert_eq!(estimate_tokens(&"x".repeat(1000)), 250);
    // characters, not bytes
    assert_eq!(estimate_tokens("挖矿木马挖矿木马"), 2);
}

#[test]
fn token_tier_drops_candidates_that_do_not_fit_and_skips_empty_names() {
    let mut resolver = RuleResolver::new();
    resolver.upsert(set(
        "x",
        "r",
        1,
        vec![rule(
            "*",
            1,
            "token_tier",
            vec![cand("big", Some(100)), cand("", Some(50)), cand("small", Some(10)), cand("mid", Some(50))],
            vec!["", "fb"],
        )],
    ));
    let r = resolver.resolve("r", 20).unwrap();
    assert_eq!(r.candidates, vec!["mid", "big", "fb"]);
    // every bounded candidate too small and no fallback: nothing to route
    resolver.upsert(set("y", "tiny", 1, vec![rule("*", 1, "token_tier", vec![cand("small", Some(10))], vec![])]));
    assert!(resolver.resolve("tiny", 11).is_none());
}

#[test]
fn rule_selection_falls_back_to_smallest_order() {
    let mut resolver = RuleResolver::new();
    resolver.upsert(set(
        "x",
        "r",
        1,
        vec![
            rule("a", 5, "fixed", vec![cand("five", None)], vec![]),
            rule("b", 2, "fixed", vec![cand("two", None)], vec![]),
            rule("c", 2, "fixed", vec![cand("two-again", None)], vec![]),
        ],
    ));
    assert_eq!(resolver.resolve("r", 1).unwrap().candidates, vec!["two"]);
    // a rule set without rules resolves to nothing
    resolver.upsert(set("e", "empty", 1, vec![]));
    assert!(resolver.resolve("empty", 1).is_none());
}

#[test]
fn load_replaces_everything_later_wins() {
    let mut resolver = RuleResolver::new();
    resolver.upsert(tier_set());
    resolver.load(vec![
        set("1", "a", 1, vec![rule("*", 1, "fixed", vec![cand("first", None)], vec![])]),
        set("2", "a", 2, vec![rule("*", 1, "fixed", vec![cand("second", None)], vec![])]),
    ]);
    assert_eq!(resolver.rule_names(), vec!["a"]);
    assert_eq!(resolver.resolve("a", 1).unwrap().first(), Some("second"));
    assert!(resolver.resolve("default-cost", 1).is_none());
}

#[test]
fn rule_names_after_remove_are_the_remaining_names_ascending() {
    let mut resolver = RuleResolver::new();
    resolver.upsert(set("1", "zeta", 1, vec![rule("*", 1, "fixed", vec![cand("z", None)], vec![])]));
    resolver.upsert(set("2", "alpha", 1, vec![rule("*", 1, "fixed", vec![cand("a", None)], vec![])]));
    resolver.upsert(set("3", "mid", 1, vec![rule("*", 1, "fixed", vec![cand("m", None)], vec![])]));
    assert_eq!(resolver.rule_names(), vec!["alpha", "mid", "zeta"]);
    assert!(resolver.remove("mid"));
    assert_eq!(resolver.rule_names(), vec!["alpha", "zeta"]);
    assert_eq!(resolver.len(), 2);
}

#[test]
fn resolve_gives_the_same_answer_twice() {
    let mut resolver = RuleResolver::new();
    resolver.upsert(tier_set());
    let a = resolver.resolve("default-cost", 100).unwrap();
    let b = resolver.resolve("default-cost", 100).unwrap();
    assert_eq!(a.candidates, b.candidates);
    assert_eq!(a.rule_set, "default-cost");
}

// ---- quota ----

#[test]
fn set_get_and_check() {
    let mut q = QuotaService::new();
    assert_eq!(q.get("pc-1"), None);
    q.set("pc-1", 1000);
    assert_eq!(q.get("pc-1"), Some(1000));
    assert!(q.check("pc-1", 999).is_ok());
    assert_eq!(q.check("pc-1", 1000), Err(QuotaExceeded { limit: 1000 }));
    assert!(q.check("pc-2", 999_999).is_ok());
    q.set("pc-1", 0);
    assert_eq!(q.get("pc-1"), None);
}

#[test]
fn all_lists_sorted() {
    let mut q = QuotaService::new();
    q.set("pc-2", 100);
    q.set("pc-1", 200);
    let all = q.all();
    assert_eq!(all.len(), 2);
    assert_eq!(all[0].member_id, "pc-1");
    assert_eq!(all[1].limit, 100);
}

#[test]
fn quota_persisted_entries_roundtrip() {
    let mut q = QuotaService::new();
    q.set("pc-1", 500);
    let entries = q.entries();
    let mut q2 = QuotaService::new();
    q2.load(entries);
    assert_eq!(q2.get("pc-1"), Some(500));
}

// ---- usage ----

#[test]
fn record_and_query() {
    let mut u = UsageService::new();
    u.record("pc-1", 10, 20);
    u.record("pc-1", 5, 5);
    u.record("pc-2", 100, 50);
    let all = u.all();
    assert_eq!(all.len(), 2);
    assert_eq!(all[0].member_id, "pc-2");
    assert_eq!(u.get("pc-1").unwrap().calls, 2);
    assert_eq!(u.get("pc-1").unwrap().total(), 40);
    assert!(u.get("pc-3").is_none());
}

// ---- members ----

#[test]
fn upsert_and_rename() {
    let mut r = MemberRegistry::new(90, "aipowerlink-share:39091");
    let m = r.upsert("pc-1", "", "10.0.0.2");
    assert_eq!(m.display_name, "pc-1");
    assert!(r.rename("pc-1", "alice"));
    assert_eq!(r.all()[0].display_name, "alice");
}

#[test]
fn offline_after_timeout() {
    let mut r = MemberRegistry::new(90, "aipowerlink-share:39091");
    // a member last heard from at time 0
    r.upsert_at("pc-1", "", "10.0.0.2", 0);
    r.sweep();
    assert!(!r.all()[0].online);
}

#[test]
fn members_sorted_by_join_time_and_refresh_keeps_fields() {
    let mut r = MemberRegistry::new(90, "gw:1");
    r.upsert_at("pc-2", "bob", "10.0.0.3", 100);
    r.upsert_at("pc-1", "", "10.0.0.2", 50);
    let m = r.upsert_at("pc-2", "", "", 160);
    assert_eq!(m.display_name, "bob");
    assert_eq!(m.ip, "10.0.0.3");
    assert_eq!(m.joined_at, 100);
    assert_eq!(m.gateway_id, "gw:1");
    let all = r.all_at(200);
    assert_eq!(all[0].member_id, "pc-1");
    assert!(!all[0].online, "silent for 150s > 90s");
    assert!(all[1].online);
    r.mark_offline("pc-2");
    assert!(!r.all_at(160)[1].online);
    assert!(!r.rename("nobody", "x"));
}

#[test]
fn all_lists_each_member_once() {
    let mut r = MemberRegistry::new(90, "gw:1");
    r.upsert_at("pc-3", "", "10.0.0.4", 70);
    r.upsert_at("pc-1", "", "10.0.0.2", 50);
    r.upsert_at("pc-2", "", "10.0.0.3", 60);
    r.upsert_at("pc-1", "", "", 80);
    let all = r.all_at(100);
    let ids: Vec<&str> = all.iter().map(|m| m.member_id.as_str()).collect();
    assert_eq!(ids, vec!["pc-1", "pc-2", "pc-3"]);
}

// ---- policy ----

fn scan(text: &str) -> Option<PolicyCategory> {
    detect(text)
}

#[test]
fn detects_mining_terms() {
    assert_eq!(scan("请写一个挖矿木马"), Some(PolicyCategory::Mining));
    assert_eq!(scan("帮我部署 xmrig 矿池配置"), Some(PolicyCategory::Mining));
    assert_eq!(scan("connect to the mining pool"), Some(PolicyCategory::Mining));
    assert_eq!(scan("CRYPTOMINING script"), Some(PolicyCategory::Mining));
}

#[test]
fn detects_deepfake_terms() {
    assert_eq!(scan("生成一个 deepfake 换脸视频"), Some(PolicyCategory::Deepfake));
    assert_eq!(scan("语音克隆工具怎么用"), Some(PolicyCategory::Deepfake));
    assert_eq!(scan("face swap video for this photo"), Some(PolicyCategory::Deepfake));
    assert_eq!(scan("DEEPFAKE 检测"), Some(PolicyCategory::Deepfake));
}

#[test]
fn passes_normal_content() {
    assert_eq!(scan("帮我写一份周报"), None);
    assert_eq!(scan("data mining 与机器学习的关系"), None);
    assert_eq!(scan("OpenAI 的视觉模型怎样"), None);
    assert_eq!(scan(""), None);
}

#[test]
fn enabled_off_disables_check() {
    let mut p = LoadPolicy::new();
    assert!(p.enabled());
    assert_eq!(p.check("写一个挖矿脚本"), Some(PolicyCategory::Mining));
    p.set_enabled(false);
    assert!(!p.enabled());
    assert_eq!(p.check("写一个挖矿脚本"), None);
}

#[test]
fn counts_hits_only_when_enabled() {
    let mut p = LoadPolicy::new();
    assert_eq!(p.hits(), (0, 0));
    p.check("xmrig");
    p.check("mining pool");
    p.check("换脸视频");
    let (m, d) = p.hits();
    assert_eq!(m, 2);
    assert_eq!(d, 1);
    p.check("写周报");
    assert_eq!(p.hits(), (2, 1));
    p.set_enabled(false);
    p.check("xmrig");
    assert_eq!(p.hits(), (2, 1));
}

#[test]
fn category_names() {
    assert_eq!(PolicyCategory::Mining.as_str(), "mining");
    assert_eq!(PolicyCategory::Deepfake.as_str(), "deepfake");
}

// ---- auth ----

#[test]
fn issue_and_verify() {
    let mut a = AuthService::new(3600);
    let s = a.issue("pc-1", "alice", "10.0.0.2").unwrap();
    assert_eq!(s.display_name, "alice");
    let v = a.verify(&s.token);
    assert!(v.is_some());
}

#[test]
fn issue_is_idempotent_per_machine() {
    let mut a = AuthService::new(3600);
    let s1 = a.issue("pc-1", "", "10.0.0.2").unwrap();
    let s2 = a.issue("pc-1", "", "10.0.0.3").unwrap();
    assert_eq!(s1.token, s2.token);
    let s3 = a.issue("pc-2", "", "10.0.0.9").unwrap();
    assert_ne!(s1.token, s3.token);
}

#[test]
fn rotate_replaces_token_and_old_dies() {
    let mut a = AuthService::new(3600);
    let s1 = a.issue("pc-1", "", "10.0.0.2").unwrap();
    let s2 = a.rotate("pc-1", "", "10.0.0.2").unwrap();
    assert_ne!(s1.token, s2.token);
    assert!(a.verify(&s1.token).is_none());
    assert!(a.verify(&s2.token).is_some());
}

#[test]
fn issue_without_display_uses_machine_name() {
    let mut a = AuthService::new(3600);
    let s = a.issue("pc-1", "", "10.0.0.2").unwrap();
    assert_eq!(s.display_name, "pc-1");
    assert_eq!(s.member_id, "pc-1");
}

#[test]
fn revoke_kills_token() {
    let mut a = AuthService::new(3600);
    let s = a.issue("pc-1", "", "10.0.0.2").unwrap();
    a.revoke_member(&s.member_id, "10.0.0.2");
    assert!(a.verify(&s.token).is_none());
    assert!(a.issue("pc-1", "", "10.0.0.2").is_err());
}

#[test]
fn banned_ip_rejected() {
    let mut a = AuthService::new(3600);
    a.revoke_member("pc-1", "10.0.0.9");
    assert!(a.issue("pc-2", "", "10.0.0.9").is_err());
    assert!(a.issue("pc-2", "", "10.0.0.8").is_ok());
}

#[test]
fn expired_token_rejected_at_time() {
    let mut a = AuthService::new(1);
    let s = a.issue_at("pc-1", "", "10.0.0.2", 1000, "tok".to_string()).unwrap();
    assert_eq!(s.expires_at, 1001);
    assert!(a.verify_at("tok", 1001).is_some());
    assert!(a.verify_at("tok", 1002).is_none());
    // once expired, the machine gets a new token
    let s2 = a.issue_at("pc-1", "", "10.0.0.2", 1001, "tok2".to_string()).unwrap();
    assert_eq!(s2.token, "tok2");
    assert_eq!(a.session_count(), 2);
}

#[test]
fn ban_and_unban() {
    let mut a = AuthService::new(3600);
    a.revoke_member("pc-1", "10.0.0.9");
    assert!(a.is_member_banned("pc-1"));
    assert!(a.is_banned("10.0.0.9"));
    assert!(a.issue("pc-1", "", "10.0.0.8").is_err());
    match a.issue("pc-1", "", "10.0.0.8") {
        Err(e) => assert_eq!(e.message(), "auth: banned"),
        Ok(_) => panic!("banned member got a token"),
    }
    a.unban("pc-1", "10.0.0.9");
    assert!(!a.is_member_banned("pc-1"));
    assert!(a.issue("pc-1", "", "10.0.0.9").is_ok());
}

#[test]
fn token_is_64_hex_chars() {
    let t = aipg::auth::gen_token();
    assert_eq!(t.len(), 64);
    assert!(t.chars().all(|c| c.is_ascii_hexdigit() && !c.is_ascii_uppercase()));
    assert_ne!(t, aipg::auth::gen_token());
}

// ---- backends ----

#[test]
fn providers_have_official_urls() {
    assert!(Provider::DeepSeek.base_url().unwrap().contains("deepseek.com"));
    assert!(Provider::Kimi.base_url().unwrap().contains("moonshot.cn"));
    assert!(Provider::Zhipu.base_url().unwrap().contains("bigmodel.cn"));
    assert!(Provider::CodeBuddy.base_url().unwrap().contains("copilot.tencent.com"));
}

#[test]
fn codebuddy_defaults() {
    assert_eq!(Provider::from_str("codebuddy"), Provider::CodeBuddy);
    assert_eq!(Provider::CodeBuddy.name(), "codebuddy");
    assert_eq!(Provider::CodeBuddy.default_model(), "deepseek-v4-flash");
    assert_eq!(Provider::CodeBuddy.default_models(), vec!["hy4-preview", "deepseek-v4-flash"]);
    assert!(Provider::CodeBuddy.is_builtin());
    let ua = Provider::CodeBuddy.user_agent().expect("codebuddy UA");
    assert!(ua.starts_with("aipowergateway/") && ua.ends_with(VERSION), "UA={ua}");
    assert!(ua.ends_with(VERSION));
    assert!(Provider::DeepSeek.user_agent().is_none());
    assert_eq!(Provider::Zhipu.default_models(), vec!["glm-4-flash"]);
}

fn cfg(provider: Provider, model: Option<&str>, base_url: Option<&str>, name: Option<&str>) -> OpenAICompatConfig {
    OpenAICompatConfig {
        provider,
        api_key: "sk-test".into(),
        model: model.map(|s| s.to_string()),
        models: Vec::new(),
        base_url: base_url.map(|s| s.to_string()),
        timeout_secs: 60,
        name: name.map(|s| s.to_string()),
    }
}

#[test]
fn completions_url_built() {
    let c = cfg(Provider::DeepSeek, None, None, None);
    assert_eq!(c.completions_url(), "https://api.deepseek.com/chat/completions");
    assert_eq!(c.effective_model(), "deepseek-chat");
}

#[test]
fn custom_url_overrides() {
    let c = cfg(Provider::DeepSeek, Some("custom-model"), Some("http://127.0.0.1:9999/v1"), None);
    assert_eq!(c.completions_url(), "http://127.0.0.1:9999/v1/chat/completions");
    assert_eq!(c.effective_model(), "custom-model");
}

#[test]
fn codebuddy_completions_url() {
    let c = cfg(Provider::CodeBuddy, None, None, Some("cb"));
    assert_eq!(c.completions_url(), "https://copilot.tencent.com/v2/chat/completions");
    assert_eq!(c.effective_model(), "deepseek-v4-flash");
}

#[test]
fn trailing_slashes_dropped_from_base() {
    let c = cfg(Provider::Custom, None, Some("http://h:1/v1///"), None);
    assert_eq!(c.completions_url(), "http://h:1/v1/chat/completions");
    assert_eq!(cfg(Provider::Custom, None, None, None).completions_url(), "/chat/completions");
}

#[test]
fn test_target_mock_is_local() {
    let e = BackendEntry { provider: "mock".into(), ..Default::default() };
    assert!(test_target(&e, &KeyEnv::none()).unwrap().is_none());
}

#[test]
fn test_target_requires_key() {
    let e = BackendEntry { provider: "deepseek".into(), ..Default::default() };
    assert!(test_target(&e, &KeyEnv::none()).is_err());
}

#[test]
fn test_target_custom_requires_url() {
    let e = BackendEntry { provider: "ollama".into(), api_key: Some("x".into()), ..Default::default() };
    assert!(test_target(&e, &KeyEnv::none()).is_err());
}

#[test]
fn test_target_builds_url_with_key() {
    let e = BackendEntry { provider: "deepseek".into(), api_key: Some("sk-test".into()), ..Default::default() };
    let t = test_target(&e, &KeyEnv::none()).unwrap().expect("official base_url");
    assert_eq!(t.url, "https://api.deepseek.com/models");
    assert_eq!(t.key, "sk-test");
}

#[test]
fn test_target_blank_url_rejected() {
    let e = BackendEntry { provider: "ollama".into(), api_key: Some("x".into()), base_url: Some("  ".into()), ..Default::default() };
    assert_eq!(test_target(&e, &KeyEnv::none()).err().unwrap(), "base_url required for custom providers");
    let e = BackendEntry { provider: "deepseek".into(), ..Default::default() };
    assert_eq!(test_target(&e, &KeyEnv::none()).err().unwrap(), "no API key — fill it in or set an env var reference");
}

#[test]
fn resolve_api_key_codebuddy_alias() {
    let env = KeyEnv { referenced: None, official: None, codebuddy: Some("ck-env-1".into()), global: None };
    let e = BackendEntry { provider: "codebuddy".into(), ..Default::default() };
    assert_eq!(e.resolve_api_key(&env).as_deref(), Some("ck-env-1"));
    let e2 = BackendEntry { provider: "codebuddy".into(), api_key: Some("ck-file".into()), ..Default::default() };
    assert_eq!(e2.resolve_api_key(&env).as_deref(), Some("ck-file"));
    let e3 = BackendEntry { provider: "deepseek".into(), ..Default::default() };
    assert_eq!(e3.resolve_api_key(&env), None);
}

#[test]
fn key_source_and_mask() {
    let e = BackendEntry { provider: "deepseek".into(), api_key: Some("sk-12345678".into()), ..Default::default() };
    assert_eq!(e.key_source(&KeyEnv::none()), "file");
    assert_eq!(e.masked_key(&KeyEnv::none()), "sk-***5678");
    let doc = BackendEntry { provider: "deepseek".into(), api_key: Some("sk-test1234".into()), ..Default::default() };
    assert_eq!(doc.masked_key(&KeyEnv::none()), "sk-***1234");
    let plain = BackendEntry { provider: "deepseek".into(), api_key: Some("abcdefgh1234".into()), ..Default::default() };
    assert_eq!(plain.masked_key(&KeyEnv::none()), "***1234");
    let short = BackendEntry { provider: "deepseek".into(), api_key: Some("sk-1".into()), ..Default::default() };
    assert_eq!(short.masked_key(&KeyEnv::none()), "***");
    let by_env = BackendEntry { provider: "kimi".into(), api_key_env: Some("MY_KEY".into()), ..Default::default() };
    assert_eq!(by_env.masked_key(&KeyEnv::none()), "env:MY_KEY");
    assert_eq!(by_env.key_source(&KeyEnv::none()), "none");
    let env = KeyEnv { referenced: Some("v".into()), official: None, codebuddy: None, global: None };
    assert_eq!(by_env.key_source(&env), "env");
    let official = BackendEntry { provider: "kimi".into(), ..Default::default() };
    let env = KeyEnv { referenced: None, official: Some("".into()), codebuddy: None, global: None };
    assert_eq!(official.masked_key(&env), "env:AIPOWERLINK_KIMI_API_KEY");
    assert_eq!(official.official_key_var(), "AIPOWERLINK_KIMI_API_KEY");
}

#[test]
fn effective_models_prefers_list() {
    let e = BackendEntry { provider: "x".into(), model: Some("one".into()), models: vec!["".into(), "a".into(), "b".into()], ..Default::default() };
    assert_eq!(e.effective_models(), vec!["a", "b"]);
    let e = BackendEntry { provider: "x".into(), model: Some("one".into()), ..Default::default() };
    assert_eq!(e.effective_models(), vec!["one"]);
    let e = BackendEntry { provider: "x".into(), model: Some("".into()), ..Default::default() };
    assert!(e.effective_models().is_empty());
    assert_eq!(e.backend_id(), "x");
}

#[test]
fn mock_reply_counts_tokens() {
    let (reply, prompt, completion) = aipg::backend::MockBackend::reply("hello");
    assert_eq!(reply, "mock reply to: hello");
    assert_eq!(prompt, 2);
    assert_eq!(completion, 10);
    let (_, prompt, _) = aipg::backend::MockBackend::reply("");
    assert_eq!(prompt, 1);
}
