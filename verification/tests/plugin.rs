use dsh_launcher::plugin::discover::{
    degrade, named_package, needs_no_repair, plugin_list, require_profile,
    require_profile_for_sync,
};
use dsh_launcher::plugin::dump::{find_row, rows_of_owner, DisabledValue, DumpRow, DumpSection};
use dsh_launcher::plugin::dump_text::parse_dump;
use dsh_launcher::plugin::guard::{InFlight, OpGuard, SYNC_KEY};
use dsh_launcher::plugin::lifecycle::{
    attribute_boot_failure, begin_uninstall, check_removal, may_restart, prune_rows, quarantine,
    repair_result, repair_targets, sync_candidates, sync_preview, uninstall_result, BootVerdict,
    SyncPlanItem, SyncRun, UninstallStart,
};
use dsh_launcher::plugin::managed::{apply_block, read_block, ManagedEntry};
use dsh_launcher::plugin::operations::{
    anchor_spec, describe_pnpm_failure, forward_args, registry_should_apply, relative_path_of,
    InstallAction, InstallEvent, InstallRun,
};
use dsh_launcher::plugin::patch_file::{heal_message, heal_patch_file, inspect_patch_file};
use dsh_launcher::plugin::registry::{PluginRecord, Registry};
use dsh_launcher::plugin::service::{
    build_views, first_record, is_protected, prune_registry, OpStatus,
};
use dsh_launcher::plugin::spec::{Origin, SpecKind};
use dsh_launcher::plugin::state::{PluginError, PluginErrorKind, PluginState, RowState};
use dsh_launcher::plugin::switch::{bootstrap_registry, plan_state, shadow_restore_rows};
use dsh_launcher::profile::ProfileManifest;
use dsh_launcher::stream::StreamFailure;
use dsh_launcher::text_map::TextMap;

fn args(list: &[&str]) -> Vec<String> {
    list.iter().map(|item| item.to_string()).collect()
}

fn section(
    owner: &str,
    patched_by: &[&str],
    rows: Vec<(&str, Option<bool>)>,
) -> DumpSection {
    DumpSection {
        owner: owner.to_string(),
        patched_by: args(patched_by),
        rows: rows
            .into_iter()
            .map(|(id, disabled)| DumpRow {
                id: id.to_string(),
                name: None,
                disabled: disabled.map(DisabledValue::Bool),
            })
            .collect(),
    }
}

fn manifest_with(deps: &[&str], bundles: &[&str]) -> ProfileManifest {
    let mut dependencies = TextMap::new();
    for name in deps {
        dependencies.insert(name.to_string(), "^1.0.0".to_string());
    }
    ProfileManifest {
        dependencies,
        bundles: args(bundles),
        patch_reload: Some("live".to_string()),
    }
}

fn fixture_sections() -> Vec<DumpSection> {
    let text = "# == dsh-cost-meter\n- id: cost-meter\n  name: dsh-cost-meter\n# == dshmarket\n- id: dsh-market\n  name: dshmarket\n  disabled: true\n";
    parse_dump(text).unwrap()
}

#[test]
fn test_registry_args_applicability() {
    assert!(!registry_should_apply(&args(&["add", "https://github.com/dsh-market/dsh-market"])));
    assert!(!registry_should_apply(&args(&["add", "github:o/r#abc1234"])));
    assert!(!registry_should_apply(&args(&["add", "link:../p"])));
    assert!(registry_should_apply(&args(&["add", "dshmarket"])));
    assert!(registry_should_apply(&args(&["add", "@scope/pkg@^1.0.0"])));
    assert!(registry_should_apply(&args(&["install"])));
    assert!(!registry_should_apply(&args(&["remove", "dshmarket"])));
}

#[test]
fn test_describe_pnpm_failure_404_hint() {
    let failure = StreamFailure {
        exit_code: Some(1),
        stdout_tail: vec![
            "[ERR_PNPM_FETCH_404] GET https://registry.npmjs.org/dsh-market: Not Found - 404"
                .to_string(),
            "dsh-market is not in the npm registry, or you have no permission to fetch it."
                .to_string(),
        ],
        ..Default::default()
    };
    let text = describe_pnpm_failure(&failure);
    assert!(text.contains("命令退出码 1"), "{text}");
    assert!(text.contains("ERR_PNPM_FETCH_404"), "应保留原始 stderr：{text}");
    assert!(text.contains("不存在"), "应给出 404 提示：{text}");
    assert!(text.contains("github.com"), "应给出 git 形态建议：{text}");
}

#[test]
fn test_describe_pnpm_failure_allow_builds_hint() {
    let failure = StreamFailure {
        exit_code: Some(1),
        stdout_tail: vec![
            "[ERR_PNPM_GIT_DEP_PREPARE_NOT_ALLOWED] Failed to prepare git-hosted package fetched from \"https://codeload.github.com/dsh-market/dsh-market/tar.gz/efce445\": The git-hosted package \"dshmarket@1.45.1\" needs to execute build scripts but is not in the \"allowBuilds\" allowlist."
                .to_string(),
            "Add the package to \"allowBuilds\" in your project's pnpm-workspace.yaml to allow it to run scripts."
                .to_string(),
        ],
        ..Default::default()
    };
    let text = describe_pnpm_failure(&failure);
    assert!(text.contains("ERR_PNPM_GIT_DEP_PREPARE_NOT_ALLOWED"), "{text}");
    assert!(text.contains("allowBuilds"), "应给出 allowBuilds 指引：{text}");
}

#[test]
fn test_describe_pnpm_failure_filters_dsh_trailer() {
    let failure = StreamFailure {
        exit_code: Some(1),
        stdout_tail: vec![
            "[ERR_PNPM_FETCH_404] GET https://registry.npmjs.org/x: Not Found - 404".to_string(),
        ],
        stderr_tail: vec![
            r"dsh: pnpm failed in profile directory C:\Users\x\.dsh\profiles\web".to_string(),
        ],
        ..Default::default()
    };
    let text = describe_pnpm_failure(&failure);
    assert!(text.contains("ERR_PNPM_FETCH_404"), "{text}");
    assert!(!text.contains("dsh: pnpm failed"), "应过滤 dsh 噪声行：{text}");
}

#[test]
fn test_describe_pnpm_failure_passthrough() {
    let failure = StreamFailure {
        exit_code: Some(2),
        stdout_tail: vec!["some unknown pnpm error".to_string()],
        ..Default::default()
    };
    let text = describe_pnpm_failure(&failure);
    assert!(text.contains("命令退出码 2"), "{text}");
    assert!(text.contains("some unknown pnpm error"), "{text}");
    assert!(!text.contains("提示："), "未识别时不应编造提示：{text}");
}

#[test]
fn test_build_views_states() {
    let sections = fixture_sections();
    let manifest = manifest_with(
        &["dsh-cost-meter", "dshmarket", "plain-lib"],
        &["dsh-cost-meter", "dshmarket"],
    );
    let mut registry = Registry::empty("web");
    let mut record = PluginRecord::new("dshmarket".to_string());
    record.origin = Origin::InHouse;
    record.desired = Some("disabled".to_string());
    record.rows = vec!["dsh-market".to_string()];
    registry.upsert(record);
    let views = build_views(&vec![None, None, None], &manifest, &sections, &registry);
    assert_eq!(views.len(), 3);
    let by_name = |name: &str| views.iter().find(|v| v.package == name).unwrap();

    for name in ["dsh-cost-meter", "dshmarket", "plain-lib"] {
        assert_eq!(by_name(name).state, PluginState::Plain, "{name}");
    }
    assert_eq!(by_name("dshmarket").rows.len(), 1);
    assert_eq!(by_name("dshmarket").rows[0].id, "dsh-market");
    assert_eq!(by_name("dshmarket").rows[0].state, RowState::Disabled);
    assert_eq!(by_name("dshmarket").origin, Origin::InHouse);
    assert_eq!(by_name("dshmarket").desired.as_deref(), Some("disabled"));
    assert_eq!(by_name("dsh-cost-meter").origin, Origin::Upstream);
    assert!(!by_name("dsh-cost-meter").protected);
}

#[test]
fn declared_bundles_are_plugins() {
    let manifest = manifest_with(&["dshmarket"], &["dshmarket"]);
    let raw = r#"{"version":"1.2.3","dsh":{"bundle":{"patch":"p.yml"}}}"#.to_string();
    let views =
        build_views(&vec![Some(raw)], &manifest, &fixture_sections(), &Registry::empty("web"));
    assert_eq!(views[0].state, PluginState::Disabled);
    assert_eq!(views[0].version.as_deref(), Some("1.2.3"));
    assert_eq!(views[0].origin_str(), "upstream");
}

#[test]
fn test_protected_package_flag() {
    let manifest = manifest_with(&["@deepseek-ai/dsh-base"], &["@deepseek-ai/dsh-base"]);
    let views = build_views(&vec![None], &manifest, &vec![], &Registry::empty("web"));
    assert!(views[0].protected);
    assert!(is_protected("@deepseek-ai/dsh-web-app"));
}

#[test]
fn test_anchor_spec_relative() {
    let (prefix, path) = relative_path_of("link:../plugin").unwrap();
    assert_eq!(prefix.as_deref(), Some("link"));
    assert_eq!(path, "../plugin");
    let anchored = anchor_spec("link:../plugin", Some("C:\\work\\..\\plugin"));
    assert!(anchored.starts_with("link:"));
    assert!(!anchored.contains("..\\plugin") || anchored.len() > "link:../plugin".len());
    assert_eq!(anchor_spec("dshmarket@^1.0.0", None), "dshmarket@^1.0.0");
    assert_eq!(anchor_spec("github:o/r#abc1234", None), "github:o/r#abc1234");
    assert!(relative_path_of("dshmarket@^1.0.0").is_none());
}

#[test]
fn test_op_guard_busy_semantics() {
    let mut set = InFlight::new();
    let first = OpGuard::acquire(&mut set, "pkg-a").unwrap();
    let err = OpGuard::acquire(&mut set, "pkg-a").unwrap_err();
    assert_eq!(err.kind, PluginErrorKind::Busy);
    let other = OpGuard::acquire(&mut set, "pkg-b").unwrap();
    other.release(&mut set);
    first.release(&mut set);
    let sync = OpGuard::acquire(&mut set, SYNC_KEY).unwrap();
    let err = OpGuard::acquire(&mut set, "pkg-c").unwrap_err();
    assert_eq!(err.kind, PluginErrorKind::Busy);
    sync.release(&mut set);
    let op = OpGuard::acquire(&mut set, "pkg-d").unwrap();
    let err = OpGuard::acquire(&mut set, SYNC_KEY).unwrap_err();
    assert_eq!(err.kind, PluginErrorKind::Busy);
    op.release(&mut set);
    assert!(OpGuard::acquire(&mut set, "pkg-a").is_ok());
}

#[test]
fn test_inspect_and_heal_corrupt_patch() {
    let template = "# Your patch layer for this dsh profile, applied after every bundle layer:
# a top-level YAML array of loader patch entries (id-targeted config
# overrides, disables, and insert lists; `!!js` expressions allowed).
# []
- id: mnemon
  disabled: false
";
    let mark_b = "# >>> dsh-launcher managed v1 — 由启动器维护，请勿手工编辑 >>>
";
    let mark_e = "# <<< dsh-launcher managed v1 <<<
";
    let corrupt = format!("{template}{mark_b}{mark_e}{}", &template[33..]);

    let reason = inspect_patch_file(Some(&corrupt)).expect("应识别为损坏");
    assert!(reason.contains("模板头重复") || reason.contains("顶层不是"), "reason={reason}");

    let healed = heal_patch_file(&corrupt);
    let msg = heal_message("p", "p.bak", &healed);
    assert!(msg.contains("已修复"), "msg={msg}");
    let after = healed.content;
    assert_eq!(
        after.matches("# Your patch layer for this dsh profile").count(),
        1,
        "自愈后模板头应恰有 1 份，实际:\n{after}"
    );
    assert_eq!(
        after.matches("- id: mnemon").count(),
        1,
        "自愈后不应有重复的 mnemon 行，实际:\n{after}"
    );
    assert!(inspect_patch_file(Some(&after)).is_none(), "自愈后结构应正常");
    assert!(msg.contains("p.bak"), "应生成备份文件");

    assert!(inspect_patch_file(Some(template)).is_none(), "正常文件不应报损坏");
    assert!(inspect_patch_file(None).is_none());
}

#[test]
fn a_file_without_rows_is_healed_to_an_empty_array() {
    let healed = heal_patch_file("garbage\n");
    assert_eq!(healed.user_lines, 0);
    assert!(!healed.block_kept);
    assert!(healed.content.starts_with("# Your patch layer for this dsh profile"));
    assert!(healed.content.ends_with("expressions allowed).\n[]\n"));
    assert!(inspect_patch_file(Some(&healed.content)).is_none());
    let rows = heal_patch_file("garbage\n- id: a\n").content;
    assert!(rows.ends_with("expressions allowed).\n- id: a\n"), "{rows}");
}

#[test]
fn test_shadow_restore_rows_replacement_pattern() {
    let sections = vec![
        section(
            "@deepseek-ai/dsh-web-app",
            &["@michengai/dsh-archive-manager"],
            vec![("session-reference", Some(false)), ("workspace", Some(true))],
        ),
        section(
            "@michengai/dsh-archive-manager",
            &[],
            vec![
                ("workspace-archive-manager", Some(true)),
                ("ui-workspace-archive-manager", Some(true)),
            ],
        ),
        section(
            "C:\\Users\\t\\.dsh\\profiles\\web\\cordis.patch.yml",
            &[],
            vec![("mcp-github", Some(true))],
        ),
        section(
            "@deepseek-ai/dsh-base",
            &["@deepseek-ai/dsh-web-app"],
            vec![("telemetry", Some(true))],
        ),
    ];
    let rows = shadow_restore_rows(&sections, "@michengai/dsh-archive-manager");
    assert_eq!(rows, vec!["workspace".to_string()]);
}

#[test]
fn test_shadow_restore_rows_negative_cases() {
    let mut sections = vec![section(
        "@deepseek-ai/dsh-web-app",
        &["@some-plugin"],
        vec![("workspace", Some(true))],
    )];
    assert!(shadow_restore_rows(&sections, "@some-plugin").is_empty());

    sections = vec![section(
        "@deepseek-ai/dsh-web-app",
        &["@some-plugin"],
        vec![("plugin-row", Some(true))],
    )];
    sections.push(section("@some-plugin", &[], vec![("plugin-row", Some(true))]));
    assert!(shadow_restore_rows(&sections, "@some-plugin").is_empty());

    sections = vec![
        section("@deepseek-ai/dsh-web-app", &["@some-plugin"], vec![("workspace", Some(false))]),
        section("@some-plugin", &[], vec![("sub", Some(true))]),
    ];
    assert!(shadow_restore_rows(&sections, "@some-plugin").is_empty());
}

#[test]
fn rows_are_looked_up() {
    let sections = fixture_sections();
    assert_eq!(rows_of_owner(&sections, "dshmarket"), vec!["dsh-market"]);
    assert_eq!(find_row(&sections, "dsh-market").unwrap().row_state(), RowState::Disabled);
    assert_eq!(find_row(&sections, "dsh-market").unwrap().effective_enabled(), Some(false));
    assert!(find_row(&sections, "nothing").is_none());
    let row = DumpRow {
        id: "r".to_string(),
        name: None,
        disabled: Some(DisabledValue::Expression("x".to_string())),
    };
    assert!(row.is_expression_controlled());
    assert_eq!(row.row_state(), RowState::Expression);
    assert_eq!(row.effective_enabled(), None);
}

#[test]
fn plugins_are_switched_off_and_on_again() {
    let manifest = manifest_with(&["dsh-cost-meter"], &["dsh-cost-meter"]);
    let mut registry = Registry::empty("web");
    assert!(bootstrap_registry(&mut registry, &manifest, &fixture_sections()));
    let plan = plan_state(
        "dsh-cost-meter",
        false,
        None,
        &manifest,
        true,
        &fixture_sections(),
        &registry,
        "p",
        Ok(None),
    )
    .unwrap();
    assert!(plan.needs_write());
    let written = plan.edit.content.clone().unwrap();
    let rows = read_block("p", Some(&written)).unwrap().unwrap();
    assert_eq!(rows, vec![ManagedEntry::new("cost-meter".to_string(), true, None)]);
    assert!(plan.verify(&fixture_sections()).is_err());
    let now = vec![section("dsh-cost-meter", &[], vec![("cost-meter", Some(true))])];
    assert!(plan.verify(&now).is_ok());
    plan.record(&mut registry);
    assert_eq!(registry.find("dsh-cost-meter").unwrap().desired.as_deref(), Some("disabled"));
    assert_eq!(plan.result().status, OpStatus::Changed);
    assert!(plan.rollback("p", Some(&written)).is_ok());

    let again = plan_state(
        "dsh-cost-meter", true, None, &manifest, true, &now, &registry, "p", Ok(Some(written)),
    )
    .unwrap();
    assert!(again.enabled);
    let kind = |degraded: Option<&str>, package: &str| {
        plan_state(
            package, false, degraded, &manifest, true, &now, &registry, "p", Ok(None),
        )
        .err()
        .unwrap()
        .kind
    };
    assert_eq!(kind(None, "unknown"), PluginErrorKind::IllegalTransition);
    assert_eq!(kind(Some("dump failed"), "dsh-cost-meter"), PluginErrorKind::Internal);
}

#[test]
fn installs_run_step_by_step() {
    let mut run = InstallRun::begin("dshmarket", None, TextMap::new()).unwrap();
    assert_eq!(run.key(), "install:dshmarket");
    assert_eq!(run.args(), vec!["add", "dshmarket"]);
    assert!(matches!(run.step(InstallEvent::Added(Ok(()))), InstallAction::ReadManifest));
    let manifest = manifest_with(&["dshmarket"], &["dshmarket"]);
    match run.step(InstallEvent::Manifest(Ok(manifest))) {
        InstallAction::CheckBundle(package) => assert_eq!(package, "dshmarket"),
        _ => panic!("the bundle is checked next"),
    }
    match run.step(InstallEvent::Declares(true)) {
        InstallAction::Record(record) => {
            assert_eq!(record.package, "dshmarket");
            assert_eq!(record.source.unwrap().kind, SpecKind::Npm);
        }
        _ => panic!("the plugin is recorded next"),
    }
    match run.step(InstallEvent::Restarted(true)) {
        InstallAction::Done(result) => {
            assert_eq!(result.status, OpStatus::Changed);
            assert!(result.restarted);
            assert_eq!(result.package.as_deref(), Some("dshmarket"));
        }
        _ => panic!("the install is done"),
    }
    let empty = InstallRun::begin("", None, TextMap::new()).err().unwrap();
    assert_eq!(empty.kind, PluginErrorKind::IllegalTransition);
    assert_eq!(empty.message, "安装 spec 不能为空");
}

#[test]
fn failed_installs_are_rolled_back() {
    let mut run = InstallRun::begin("dshmarket", None, TextMap::new()).unwrap();
    let broken = PluginError::internal("network".to_string());
    assert!(matches!(run.step(InstallEvent::Added(Err(broken))), InstallAction::Rollback));
    match run.step(InstallEvent::RolledBack(true)) {
        InstallAction::Fail { error, .. } => assert!(error.message.contains("network")),
        _ => panic!("the failure is reported"),
    }
}

#[test]
fn packages_come_from_the_configured_registry() {
    assert_eq!(
        forward_args("web", &args(&["add", "dshmarket"]), Some("https://r")),
        vec!["plugin", "--profile", "web", "add", "dshmarket", "--registry", "https://r"]
    );
}

#[test]
fn uninstalls_are_planned() {
    let registry = Registry::empty("web");
    let manifest = manifest_with(&["dshmarket"], &["dshmarket"]);
    let rows = vec!["dsh-market".to_string()];
    match begin_uninstall("web", "dshmarket", Some(&manifest), rows.clone(), &registry) {
        UninstallStart::Remove { rows } => assert_eq!(rows, vec!["dsh-market"]),
        _ => panic!("the package is removed"),
    }
    match begin_uninstall("web", "other", Some(&manifest), vec![], &registry) {
        UninstallStart::Clear { result, .. } => {
            assert_eq!(result.status, OpStatus::Unchanged);
            assert!(!result.restarted);
        }
        _ => panic!("nothing is there to remove"),
    }
    match begin_uninstall("web", "other", None, vec![], &registry) {
        UninstallStart::Clear { rows, result } => {
            assert!(rows.is_empty() && !result.restarted);
            assert_eq!(result.message, "profile web 未初始化，other 视为未安装");
        }
        _ => panic!("nothing is there to remove"),
    }
    match begin_uninstall("web", "@deepseek-ai/dsh-base", Some(&manifest), vec![], &registry) {
        UninstallStart::Refuse(e) => assert_eq!(e.kind, PluginErrorKind::IllegalTransition),
        _ => panic!("protected packages stay"),
    }
    let content = apply_block(
        "p",
        None,
        &[ManagedEntry::new("dsh-market".to_string(), true, None)],
    )
    .unwrap()
    .content;
    let existing = read_block("p", content.as_deref()).unwrap();
    let edit = prune_rows("p", content.as_deref(), existing, &rows).unwrap().unwrap();
    assert_eq!(edit.content.as_deref(), Some("[]\n"));
    assert!(check_removal("dshmarket", Ok(()), Some(&manifest_with(&[], &[]))).is_ok());
    assert_eq!(
        check_removal("dshmarket", Ok(()), Some(&manifest)).unwrap_err().kind,
        PluginErrorKind::VerificationFailed
    );
    assert_eq!(uninstall_result("dshmarket", false).status, OpStatus::Changed);
}

#[test]
fn boot_failures_are_attributed() {
    let mut registry = Registry::empty("web");
    let mut record = PluginRecord::new("dsh-bad".to_string());
    record.desired = Some("enabled".to_string());
    record.rows = vec!["bad-row".to_string()];
    registry.upsert(record);
    assert!(matches!(attribute_boot_failure("", &registry), BootVerdict::Silent));
    match attribute_boot_failure("Error: dsh-bad failed to import\n", &registry) {
        BootVerdict::Blame(package) => assert_eq!(package, "dsh-bad"),
        _ => panic!("the plugin is blamed"),
    }
    assert!(matches!(
        attribute_boot_failure("Error: other failed to import\n", &registry),
        BootVerdict::Unattributed
    ));
    quarantine(&mut registry, "dsh-bad");
    assert!(registry.find("dsh-bad").unwrap().quarantine);
}

#[test]
fn registries_follow_the_manifest() {
    let manifest = manifest_with(&["dsh-cost-meter"], &["dsh-cost-meter"]);
    let mut registry = Registry::empty("web");
    registry.upsert(PluginRecord::new("gone".to_string()));
    assert!(prune_registry(&mut registry, &manifest));
    assert!(registry.find("gone").is_none());
    assert!(!prune_registry(&mut registry, &manifest));
    let record = first_record("dsh-cost-meter", "^1.0.0", &fixture_sections());
    assert_eq!(record.rows, vec!["cost-meter"]);
    registry.upsert(record);
    assert_eq!(sync_candidates(&registry, &manifest, None), vec![0]);
    assert!(sync_candidates(&registry, &manifest, Some("x")).is_empty());
    registry.set_desired("dsh-cost-meter", Some("disabled"));
    assert_eq!(
        repair_targets(&registry, None),
        vec![("dsh-cost-meter".to_string(), false)]
    );
    assert_eq!(repair_result(0, false).status, OpStatus::Unchanged);
    assert_eq!(repair_result(2, true).status, OpStatus::Changed);
}

fn plan_item(package: &str, actionable: bool) -> SyncPlanItem {
    SyncPlanItem {
        package: package.to_string(),
        origin: Origin::Upstream,
        kind: SpecKind::Npm,
        current: Some("1.0.0".to_string()),
        target: Some("1.1.0".to_string()),
        new_spec: Some(format!("{package}@1.1.0")),
        actionable,
        reason: "why".to_string(),
    }
}

#[test]
fn plugins_are_synchronised() {
    let items = vec![plan_item("a", true), plan_item("b", false)];
    let preview = sync_preview(&items, false).unwrap();
    assert!(!preview.applied);
    assert_eq!(preview.items.len(), 2);
    assert!(sync_preview(&items, true).is_none());
    let mut registry = Registry::empty("web");
    registry.upsert(PluginRecord::new("a".to_string()));
    let mut run = SyncRun::new(items);
    assert_eq!(run.advance().as_deref(), Some("a@1.1.0"));
    run.settle(Ok(()), Some("1.1.0".to_string()), "2026-09-02", &mut registry);
    assert!(run.advance().is_none());
    assert_eq!(run.results.len(), 2);
    assert_eq!(run.results[0].result, "ok");
    let record = registry.find("a").unwrap();
    assert_eq!(record.last_sync.as_ref().unwrap().to, "1.1.0");
    assert!(may_restart(&run.results, true));
    assert!(!may_restart(&run.results, false));
    let report = run.report(true, true);
    assert!(report.applied && report.restarted);
    assert_eq!(report.items.len(), 2);
    assert!(!SyncRun::new(vec![]).report(true, false).restarted);
}

#[test]
fn profiles_are_looked_for() {
    assert!(require_profile("web", "C:\\p", true).is_ok());
    assert!(require_profile("web", "C:\\p", false).is_err());
    assert!(require_profile_for_sync("web", true).is_ok());
    assert!(require_profile_for_sync("web", false).is_err());
    assert_eq!(named_package(Some("p".to_string())).as_deref(), Some("p"));
    assert_eq!(named_package(Some(String::new())), None);
    let missing = PluginError::dsh_missing("no dsh".to_string());
    assert!(plugin_list("web", Err(missing)).is_err());
    let unknown = PluginError::not_found("no profile".to_string());
    let list = plugin_list("web", Err(unknown)).ok().unwrap();
    assert!(list.plugins.is_empty());
    assert_eq!(list.degraded_reason.as_deref(), Some("no profile"));
    assert_eq!(degrade(PluginError::internal("dump".to_string()), None).unwrap(), "dump");
    let corrupt = degrade(PluginError::internal("dump".to_string()), Some("root: {}\n")).unwrap();
    assert!(corrupt.contains("结构损坏") && corrupt.ends_with("dump"), "{corrupt}");
    assert!(degrade(PluginError::dsh_missing("no dsh".to_string()), None).is_err());
    assert_eq!(needs_no_repair("p", None).unwrap().unwrap_err(), "p 不存在，无需修复");
    assert_eq!(needs_no_repair("p", Some("[]\n")).unwrap().unwrap(), "p 结构正常，无需修复");
    assert!(needs_no_repair("p", Some("root: {}\n")).is_none());
}
