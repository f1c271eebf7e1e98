use aipg::data_dir::{db_path, roles_dir};
use aipg::identity::{Identity, IdentityHolder};
use aipg::share_client::Session;
use aipg::strategy::{preflight_block, PreflightBlock, QuotaSnapshot, StrategyCache, StrategySummary};
use aipg::usage_view::UsageView;

fn sample() -> StrategySummary {
    StrategySummary {
        version: 42,
        rules: vec!["deepseek-r1".to_string(), "moonshot-lite".to_string()],
        quota: QuotaSnapshot { limit: 1000, used: 0 },
        banned: false,
        fetched_at: 0,
    }
}

#[test]
fn preflight_allows_within_quota() {
    let s = sample();
    assert_eq!(preflight_block(&s), None);
}

#[test]
fn preflight_blocks_banned() {
    let mut s = sample();
    s.banned = true;
    assert_eq!(preflight_block(&s), Some(PreflightBlock::Banned));
}

#[test]
fn preflight_blocks_at_quota_boundary() {
    let mut s = sample();
    s.quota.used = 1000;
    assert_eq!(preflight_block(&s), Some(PreflightBlock::QuotaExceeded { limit: 1000 }));
}

#[test]
fn preflight_zero_limit_never_blocks() {
    let mut s = sample();
    s.quota.limit = 0;
    s.quota.used = 999999;
    assert_eq!(preflight_block(&s), None);
}

#[test]
fn cache_keeps_last_summary() {
    let mut c = StrategyCache::new(None);
    assert!(c.get().is_none());
    assert!(c.rule_names().is_empty());
    assert_eq!(c.preflight(), None);
    c.set(sample());
    assert_eq!(c.rule_names(), sample().rules);
    assert_eq!(c.get().unwrap().version, 42);
    let mut banned = sample();
    banned.banned = true;
    let c2 = StrategyCache::new(Some(banned));
    assert_eq!(c2.preflight(), Some(PreflightBlock::Banned));
}

#[test]
fn record_accumulates() {
    let mut u = UsageView::new(None);
    u.record("leader1", 10, 20);
    u.record("leader1", 5, 5);
    let g = u.get();
    assert_eq!(g.calls, 2);
    assert_eq!(g.total(), 40);
    assert_eq!(g.leader_tokens("leader1"), Some(40));
    assert_eq!(u.total(), 40);
}

#[test]
fn default_display_is_machine() {
    let id = Identity::new("pc-1");
    assert_eq!(id.display_name, "pc-1");
}

#[test]
fn rename_updates_display() {
    let mut id = Identity::new("pc-1");
    id.rename("alice");
    assert_eq!(id.display_name, "alice");
    assert_eq!(id.machine_name, "pc-1");
}

#[test]
fn holder_renames() {
    let mut h = IdentityHolder::new(Identity::new("pc-9"));
    h.rename("bob");
    assert_eq!(h.display_name(), "bob");
    assert_eq!(h.machine_name(), "pc-9");
    assert_eq!(h.get().display_name, "bob");
    assert_eq!(aipg::identity::hostname_fallback().unwrap(), "machine");
}

#[test]
fn session_auth_header() {
    let s = Session { token: "abc".into(), base: "http://x:1".into(), leader_name: "l".into(), expires_at: 0, revoked: false };
    assert_eq!(s.auth_header(), "Bearer abc");
}

#[test]
fn roles_and_db_under_data_dir() {
    let d = "/tmp/aip";
    assert_eq!(roles_dir(d), "/tmp/aip/roles");
    assert_eq!(db_path(d), "/tmp/aip/aipowerlink.db");
    assert_eq!(roles_dir("/tmp/aip/"), "/tmp/aip/roles");
}
