use dsh_launcher::plugin::registry::{PluginRecord, PluginSource, Registry, SCHEMA_VERSION};
use dsh_launcher::plugin::spec::{Origin, SpecKind};

fn record(package: &str) -> PluginRecord {
    PluginRecord::new(package.to_string())
}

#[test]
fn test_upsert_remove_set() {
    let mut registry = Registry::empty("web");
    registry.upsert(record("a"));
    registry.upsert(record("b"));
    registry.upsert(record("a"));
    assert_eq!(registry.plugins.len(), 2);
    registry.set_desired("a", Some("disabled"));
    assert_eq!(registry.find("a").unwrap().desired.as_deref(), Some("disabled"));
    assert!(registry.remove("a"));
    assert!(!registry.remove("a"));
    assert_eq!(registry.plugins.len(), 1);
}

#[test]
fn test_save_load_roundtrip() {
    let mut registry = Registry::empty("web");
    let mut entry = record("dsh-cost-meter");
    entry.origin = Origin::Upstream;
    entry.rows = vec!["cost-meter".to_string()];
    entry.desired = Some("enabled".to_string());
    entry.source = Some(PluginSource {
        kind: SpecKind::Npm,
        spec: "dsh-cost-meter@^1.7.13".to_string(),
        repo: None,
        reference: None,
        commit: None,
    });
    registry.upsert(entry);

    let loaded = Registry::load_from(Some(registry), "web");
    assert_eq!(loaded.schema_version, SCHEMA_VERSION);
    assert_eq!(loaded.profile, "web");
    assert_eq!(loaded.plugins.len(), 1);
    assert_eq!(loaded.plugins[0].origin, Origin::Upstream);
    assert_eq!(loaded.plugins[0].rows, vec!["cost-meter"]);
    assert_eq!(loaded.plugins[0].source.as_ref().map(|s| s.kind), Some(SpecKind::Npm));
}

#[test]
fn test_missing_or_corrupt_returns_empty() {
    let loaded = Registry::load_from(None, "web");
    assert!(loaded.plugins.is_empty());
    assert_eq!(loaded.profile, "web");
}

#[test]
fn errors_are_kept_with_the_record() {
    let mut registry = Registry::empty("web");
    registry.upsert(record("a"));
    registry.set_error("a", Some("broken".to_string()));
    registry.set_error("b", Some("unknown".to_string()));
    assert_eq!(registry.find("a").unwrap().last_error.as_deref(), Some("broken"));
    assert!(registry.find("b").is_none());
    registry.set_desired("a", None);
    assert!(registry.find("a").unwrap().desired.is_none());
}

#[test]
fn the_last_record_of_a_package_is_found() {
    let mut registry = Registry::empty("web");
    registry.upsert(record("a"));
    let mut second = record("a");
    second.rows = vec!["r".to_string()];
    registry.upsert(second);
    assert_eq!(registry.find("a").unwrap().rows, vec!["r"]);
    assert_eq!(registry.plugins.len(), 1);
}
