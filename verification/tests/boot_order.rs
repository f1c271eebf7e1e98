use aipg::boot::{wanted_modules, BootResult, ModuleSpec, ModuleTable, Role};
use aipg::events::Host;
use aipg::error::RuntimeError;

fn spec(name: &str, reqs: &[&str], optional: bool) -> ModuleSpec {
    ModuleSpec { name: name.to_string(), requires: reqs.iter().map(|s| s.to_string()).collect(), optional }
}

fn strings(v: &[&str]) -> Vec<String> {
    v.iter().map(|s| s.to_string()).collect()
}

#[test]
fn boot_respects_dependency_order() {
    let mut t = ModuleTable::new();
    t.register(spec("b", &["a"], false)).unwrap();
    t.register(spec("a", &[], false)).unwrap();
    let want = wanted_modules(&Role::Custom("test"), Some(strings(&["a", "b"]))).unwrap();
    let order = t.boot_order(&want).unwrap();
    assert_eq!(order, strings(&["a", "b"]));
    let order = t.boot_order(&strings(&["b", "a"])).unwrap();
    assert_eq!(order, strings(&["a", "b"]));
}

#[test]
fn optional_module_failure_skips() {
    let mut t = ModuleTable::new();
    t.register(spec("fail", &[], true)).unwrap();
    let order = t.boot_order(&strings(&["fail"])).unwrap();
    let mut res = BootResult::<u32, fn(&str, &u32)>::new(Host::new());
    for name in &order {
        let m = t.get(name).unwrap();
        let r = res.record(name, m.optional, Err(RuntimeError::ModuleError("boom".to_string())));
        assert!(r.is_ok());
    }
    assert_eq!(res.booted().len(), 0);
    assert_eq!(res.skipped().len(), 1);
    assert_eq!(res.skipped()[0].1, "module error: boom");
}

#[test]
fn required_failure_aborts_and_success_boots() {
    let mut res = BootResult::<u32, fn(&str, &u32)>::new(Host::new());
    assert!(res.record("a", false, Ok(())).is_ok());
    let e = res.record("b", false, Err(RuntimeError::ConfigError("x".into())));
    assert!(matches!(e, Err(RuntimeError::ConfigError(_))));
    assert_eq!(res.booted(), &["a".to_string()]);
}

#[test]
fn duplicate_missing_and_cycle_are_reported() {
    let mut t = ModuleTable::new();
    t.register(spec("a", &["b"], false)).unwrap();
    assert!(matches!(t.register(spec("a", &[], false)), Err(RuntimeError::DuplicateModule(n)) if n == "a"));
    assert!(matches!(t.boot_order(&strings(&["a", "zz"])), Err(RuntimeError::MissingModule(n)) if n == "zz"));
    t.register(spec("b", &["a"], false)).unwrap();
    match t.boot_order(&strings(&["a", "b"])) {
        Err(RuntimeError::DependencyCycle(m)) => assert!(m == "cycle at a" || m == "cycle at b"),
        other => panic!("expected a cycle, got {other:?}"),
    }
    assert_eq!(t.boot_order(&strings(&["a"])).unwrap(), strings(&["a"]), "deps outside the wanted set are ignored");
    assert_eq!(t.len(), 2);
}

#[test]
fn self_dependency_is_a_cycle() {
    let mut t = ModuleTable::new();
    t.register(spec("s", &["s"], false)).unwrap();
    assert!(matches!(t.boot_order(&strings(&["s"])), Err(RuntimeError::DependencyCycle(m)) if m == "cycle at s"));
}

#[test]
fn diamond_boots_each_once() {
    let mut t = ModuleTable::new();
    t.register(spec("top", &["l", "r"], false)).unwrap();
    t.register(spec("l", &["base"], false)).unwrap();
    t.register(spec("r", &["base"], false)).unwrap();
    t.register(spec("base", &[], false)).unwrap();
    let order = t.boot_order(&strings(&["top", "l", "r", "base", "top"])).unwrap();
    assert_eq!(order, strings(&["base", "l", "r", "top"]));
}

#[test]
fn roles_and_wanted_modules() {
    assert_eq!(Role::Server.name(), "server");
    assert_eq!(Role::Custom("x").name(), "x");
    assert_eq!(Role::Client.default_modules(), vec!["lan-discovery-client", "lan-share-client", "lan-identity", "lan-usage-view"]);
    assert_eq!(Role::Server.default_modules().len(), 6);
    assert!(Role::Custom("x").default_modules().is_empty());
    let w = wanted_modules(&Role::Server, None).unwrap();
    assert_eq!(w[0], "lan-share-server");
    match wanted_modules(&Role::Custom("mine"), None) {
        Err(e) => assert_eq!(e.message(), "config error: custom role mine: missing modules list"),
        Ok(_) => panic!("a custom role needs a list"),
    }
}
