use dsh_launcher::github::{DshProbe, ResolvedDsh};
use dsh_launcher::plugin::state::PluginErrorKind;
use dsh_launcher::profile::{
    backup_targets, build_dsh_command, declares_bundle, dependencies_in, dependencies_of,
    dependency_names, dump_args, dump_config, first_filled_line, package_version, read_manifest,
    resolve_entry, timestamp, DshEntry,
};

const MANIFEST: &str = r#"{
              "name": "dsh-profile-web",
              "dependencies": { "dshmarket": "^1.45.0", "dsh-cost-meter": "^1.7.13" },
              "dsh": { "profile": { "bundles": ["@deepseek-ai/dsh-base", "dshmarket"], "patchReload": "live" } }
            }"#;

#[test]
fn test_manifest_parsing() {
    let manifest = read_manifest("package.json", MANIFEST).unwrap();
    assert_eq!(manifest.dependencies.len(), 2);
    assert_eq!(manifest.dependencies.get("dshmarket"), Some("^1.45.0"));
    assert_eq!(manifest.bundles, vec!["@deepseek-ai/dsh-base", "dshmarket"]);
    assert_eq!(manifest.patch_reload.as_deref(), Some("live"));
}

#[test]
fn manifests_are_read_leniently() {
    let broken = read_manifest("package.json", "{not json").err().unwrap();
    assert!(broken.message.contains("package.json"), "{}", broken.message);
    let odd = read_manifest("p", r#"{"dependencies":{"a":1,"b":"2"},"dsh":{"profile":{"bundles":["x",3]}}}"#);
    let odd = odd.unwrap();
    assert!(!odd.dependencies.contains_key("a") || odd.dependencies.get("a") == Some(""));
    assert_eq!(odd.dependencies.get("b"), Some("2"));
    assert_eq!(odd.bundles, vec!["x"]);
    assert!(odd.patch_reload.is_none());
    assert!(odd.in_bundles("x"));
    assert!(!odd.in_bundles("y"));
}

#[test]
fn package_files_are_read() {
    assert_eq!(dependencies_in(Some(MANIFEST)).len(), 2);
    assert_eq!(dependencies_in(Some("{")).len(), 0);
    assert_eq!(dependencies_in(None).len(), 0);
    assert!(declares_bundle(Some(r#"{"dsh":{"bundle":{"patch":"p.yml"}}}"#)));
    assert!(!declares_bundle(Some(r#"{"dsh":{}}"#)));
    assert!(!declares_bundle(None));
    assert_eq!(package_version(Some(r#"{"version":"1.2"}"#)).as_deref(), Some("1.2"));
    assert!(package_version(Some(r#"{"version":1}"#)).is_none());
    let manifest = read_manifest("p", MANIFEST).unwrap();
    assert_eq!(dependency_names(&manifest), vec!["dsh-cost-meter", "dshmarket"]);
    let members = vec![
        ("b".to_string(), Some("1".to_string())),
        ("a".to_string(), None),
        ("b".to_string(), Some("2".to_string())),
    ];
    assert_eq!(dependencies_of(&members).get("b"), Some("2"));
}

#[test]
fn the_command_line_tool_is_found() {
    let found = |path: Option<&str>, kind: DshProbe| ResolvedDsh {
        kind,
        shim_path: path.map(|p| p.to_string()),
    };
    let own = resolve_entry(
        Some("C:\\d".to_string()),
        Some("C:\\node.exe".to_string()),
        found(None, DshProbe::Missing),
    );
    let command = build_dsh_command(&own.ok().unwrap(), &dump_args("web"));
    assert_eq!(command.program, "C:\\node.exe");
    assert_eq!(command.cwd.as_deref(), Some("C:\\d"));
    assert!(!command.script);
    assert_eq!(command.args[0], "--import");
    match resolve_entry(None, None, found(Some("C:\\dsh.cmd"), DshProbe::Foreign)) {
        Ok(DshEntry::Path { shim }) => assert_eq!(shim, "C:\\dsh.cmd"),
        _ => panic!("shim expected"),
    }
    let none = resolve_entry(None, None, found(None, DshProbe::Missing)).err().unwrap();
    assert_eq!(none.kind, PluginErrorKind::DshNotInstalled);
    let nodeless =
        resolve_entry(Some("C:\\d".to_string()), None, found(None, DshProbe::Missing));
    assert_eq!(nodeless.err().unwrap().kind, PluginErrorKind::DshNotInstalled);
}

#[test]
fn dumps_are_taken() {
    assert_eq!(dump_config(true, Some(0), "x".to_string(), "").unwrap(), "x");
    assert!(dump_config(false, Some(3), String::new(), "why").is_err());
    assert_eq!(first_filled_line("\n  \n a \n").as_deref(), Some("a"));
    assert!(first_filled_line("\n").is_none());
}

#[test]
fn backups_are_named() {
    let targets = backup_targets();
    assert_eq!(targets.len(), 4);
    for name in ["package.json", "pnpm-lock.yaml", "pnpm-workspace.yaml"] {
        assert!(targets.contains(&name.to_string()), "{name}");
    }
    assert_eq!(timestamp(86_400 + 3_661), "90061");
}
