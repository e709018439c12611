use dsh_launcher::command::{Look, TimedRun, TimedStep};
use dsh_launcher::logging::is_expired;
use dsh_launcher::mcp::{
    canonical_outside, fingerprint_outside, mcp_block_family, McpBlock, McpDeclare, McpDirective,
    McpRow, McpTransport,
};
use dsh_launcher::mcp_change::{
    check_write, plan_remove, plan_write, set_enabled, Evidence, McpStep,
};
use dsh_launcher::plugin::dump::{DisabledValue, DumpRow, DumpSection};
use dsh_launcher::plugin::lifecycle::{attribute_boot_failure, BootVerdict};
use dsh_launcher::plugin::managed::{
    apply_block, apply_family, managed, read_block, read_body, render_managed_body, shared,
    split_outside, yaml_quote, BlockOutcome, ManagedEntry,
};
use dsh_launcher::plugin::registry::{PluginRecord, Registry};
use dsh_launcher::plugin::state::PluginErrorKind;
use dsh_launcher::plugin::switch::plan_state;
use dsh_launcher::profile::ProfileManifest;
use dsh_launcher::semver::{rank_versions, sort_newest_first, Rank};
use dsh_launcher::text_map::TextMap;
use dsh_launcher::toolchain::download_percent;

fn entry(id: &str, disabled: bool) -> ManagedEntry {
    ManagedEntry::new(id.to_string(), disabled, None)
}

#[test]
fn progress_never_falls() {
    let mut last = -1;
    for len in (0..=5_000).step_by(37) {
        let percent = download_percent(len, 4_999);
        assert!(last <= percent && percent <= 99);
        last = percent;
    }
}

#[test]
fn versions_form_one_order() {
    let rising = ["0.1.0-1", "0.1.0-a", "0.1.0-a.1", "0.1.0", "0.1.1-rc.2", "0.1.1-rc.10", "0.2.0"];
    for (i, a) in rising.iter().enumerate() {
        for (j, b) in rising.iter().enumerate() {
            let expected = if i < j {
                Rank::Below
            } else if i == j {
                Rank::Same
            } else {
                Rank::Above
            };
            assert_eq!(rank_versions(a, b), expected, "{a} {b}");
        }
    }
    let mixed: Vec<String> = ["0.2.0", "0.1.0", "0.2.0"].iter().map(|v| v.to_string()).collect();
    assert_eq!(sort_newest_first(&mixed), vec!["0.2.0", "0.2.0", "0.1.0"]);
}

#[test]
fn a_killed_command_is_never_collected() {
    let mut run = TimedRun::new(1);
    assert_eq!(run.step(Look { exited: false, elapsed: 1000 }), TimedStep::Kill);
    assert_eq!(run.step(Look { exited: false, elapsed: 1001 }), TimedStep::Sleep);
    assert_eq!(run.step(Look { exited: true, elapsed: 1002 }), TimedStep::TimedOut);
}

#[test]
fn parts_of_recent_logs_are_kept() {
    assert!(!is_expired("2026-07-30.log", false, "2026-08-29"));
    assert!(is_expired("2026-07-29.log.3", false, "2026-08-29"));
    assert!(is_expired("2026-07-29", true, "2026-08-29"));
}

#[test]
fn kinds_have_codes_of_their_own() {
    let kinds = [
        PluginErrorKind::IllegalTransition,
        PluginErrorKind::NotFound,
        PluginErrorKind::Busy,
        PluginErrorKind::VerificationFailed,
        PluginErrorKind::CapabilityMissing,
        PluginErrorKind::ManagedBlockConflict,
        PluginErrorKind::DshNotInstalled,
        PluginErrorKind::Internal,
    ];
    for (i, a) in kinds.iter().enumerate() {
        assert_ne!(a.exit_code(), 0);
        for b in &kinds[i + 1..] {
            assert_ne!(a.exit_code(), b.exit_code());
        }
    }
}

#[test]
fn the_same_rows_are_written_once() {
    for start in ["# c\n[]\n", "# c\r\n[]\r\n", "- id: own\n"] {
        let first = apply_block("p", Some(start), &[entry("a", true)]).unwrap().content.unwrap();
        let again = apply_block("p", Some(&first), &[entry("a", true)]).unwrap();
        assert_eq!(again.outcome, BlockOutcome::Unchanged, "{start:?}");
        assert_eq!(again.content.as_deref(), Some(first.as_str()));
    }
}

#[test]
fn a_second_write_finds_its_work_done() {
    for start in [None, Some("[]\n"), Some("# c\r\n[]\r\n"), Some("- id: own"), Some("- x\r\n- y\r")] {
        for body in ["- id: a\n", "- id: a\n  k: 'x\ry'\n\n"] {
            let first = apply_family("p", start, shared(), Some(body)).unwrap().content;
            let again = apply_family("p", first.as_deref(), shared(), Some(body)).unwrap();
            assert_eq!(again.outcome, BlockOutcome::Unchanged, "{start:?} {body:?}");
        }
    }
    // A lone carriage return at the end of a file becomes a line end of its own.
    let first = apply_family("p", Some("- y\r"), shared(), Some("- id: a")).unwrap().content;
    let again = apply_family("p", first.as_deref(), shared(), Some("- id: a")).unwrap();
    assert_eq!(again.outcome, BlockOutcome::Written);
}

#[test]
fn text_around_a_block_stays() {
    let start = "# head\n- id: own\n";
    let first = apply_block("p", Some(start), &[entry("a", true)]).unwrap().content.unwrap();
    assert!(first.starts_with(start));
    let with_tail = format!("{first}# tail\n- id: last\n");
    let second =
        apply_block("p", Some(&with_tail), &[entry("b", false)]).unwrap().content.unwrap();
    assert!(second.starts_with("# head\n- id: own\n\n# >>> dsh-launcher managed"));
    assert!(second.ends_with("<<<\n# tail\n- id: last\n"));
    assert_eq!(
        split_outside(&second, managed()).unwrap(),
        split_outside(&with_tail, managed()).unwrap()
    );
    let left_over = with_tail.replacen("# head\n", "# head\n[]\n# kept\n", 1);
    let third =
        apply_block("p", Some(&left_over), &[entry("b", false)]).unwrap().content.unwrap();
    assert!(third.starts_with("# head\n# kept\n- id: own\n"));
}

#[test]
fn deleting_one_block_leaves_the_others() {
    let first = apply_block("p", Some("# c\n"), &[entry("a", true)]).unwrap().content;
    let both = apply_family("p", first.as_deref(), shared(), Some("- id: s")).unwrap().content;
    let three =
        apply_family("p", both.as_deref(), mcp_block_family(), Some("- id: m")).unwrap().content;
    for (gone, kept) in [
        (managed(), [shared(), mcp_block_family()]),
        (shared(), [managed(), mcp_block_family()]),
        (mcp_block_family(), [managed(), shared()]),
    ] {
        let after = apply_family("p", three.as_deref(), gone, None).unwrap().content;
        assert!(read_body("p", after.as_deref(), gone).unwrap().is_none());
        for other in kept {
            assert_eq!(
                read_body("p", after.as_deref(), other).unwrap(),
                read_body("p", three.as_deref(), other).unwrap()
            );
        }
    }
}

#[test]
fn the_order_of_rows_does_not_count() {
    let one = render_managed_body(&[entry("b", true), entry("a", false)], "\n");
    let two = render_managed_body(&[entry("a", false), entry("b", true)], "\n");
    assert_eq!(one, two);
}

#[test]
fn blocks_after_the_own_block_are_kept() {
    let first = apply_block("p", Some("# c\n"), &[entry("a", true)]).unwrap().content;
    let both = apply_family("p", first.as_deref(), shared(), Some("- id: s")).unwrap().content;
    let changed =
        apply_family("p", both.as_deref(), managed(), Some("- id: z\n  disabled: true")).unwrap();
    let now = changed.content;
    assert_eq!(read_body("p", now.as_deref(), shared()).unwrap().as_deref(), Some("- id: s"));
    assert_eq!(read_block("p", now.as_deref()).unwrap().unwrap(), vec![entry("z", true)]);
    let gone = apply_family("p", now.as_deref(), managed(), None).unwrap().content;
    assert!(read_block("p", gone.as_deref()).unwrap().is_none());
    assert_eq!(read_body("p", gone.as_deref(), shared()).unwrap().as_deref(), Some("- id: s"));
}

#[test]
fn different_texts_are_quoted_differently() {
    assert_ne!(yaml_quote("a''b"), yaml_quote("a'b"));
    assert_ne!(yaml_quote("'"), yaml_quote("''"));
    assert_eq!(yaml_quote("'"), "''''");
    let quoted = yaml_quote("a''b'c");
    assert_eq!(quoted[1..quoted.len() - 1].replace("''", "'"), "a''b'c");
}

fn row(id: &str, disabled: Option<bool>) -> DumpRow {
    DumpRow { id: id.to_string(), name: None, disabled: disabled.map(DisabledValue::Bool) }
}

fn sections(own_off: bool, official_off: bool) -> Vec<DumpSection> {
    vec![
        DumpSection {
            owner: "@deepseek-ai/dsh-web-app".to_string(),
            patched_by: vec!["plug".to_string()],
            rows: vec![row("workspace", Some(official_off))],
        },
        DumpSection {
            owner: "plug".to_string(),
            patched_by: vec![],
            rows: vec![row("plug-row", Some(own_off))],
        },
    ]
}

#[test]
fn replaced_rows_come_back_and_go_again() {
    let mut dependencies = TextMap::new();
    dependencies.insert("plug".to_string(), "^1.0.0".to_string());
    let manifest = ProfileManifest {
        dependencies,
        bundles: vec!["plug".to_string()],
        patch_reload: None,
    };
    let mut registry = Registry::empty("web");
    registry.upsert(PluginRecord::new("plug".to_string()));
    let plan = |enabled: bool, now: &Vec<DumpSection>, registry: &Registry, text: Option<String>| {
        plan_state("plug", enabled, None, &manifest, true, now, registry, "p", Ok(text)).unwrap()
    };

    let off = plan(false, &sections(false, true), &registry, None);
    off.record(&mut registry);
    let content = off.edit.content.clone();
    let rows = read_block("p", content.as_deref()).unwrap().unwrap();
    assert_eq!(rows, vec![entry("plug-row", true), entry("workspace", false)]);

    let again = plan(false, &sections(true, false), &registry, content.clone());
    assert!(!again.needs_write());
    again.record(&mut registry);
    assert_eq!(registry.find("plug").unwrap().shadow_restored, vec!["workspace"]);

    let on = plan(true, &sections(true, false), &registry, content);
    on.record(&mut registry);
    let rows = read_block("p", on.edit.content.as_deref()).unwrap().unwrap();
    assert_eq!(rows, vec![entry("plug-row", false)]);
    assert!(registry.find("plug").unwrap().shadow_restored.is_empty());
}

#[test]
fn protected_plugins_are_not_blamed() {
    let mut registry = Registry::empty("web");
    let mut record = PluginRecord::new("@deepseek-ai/dsh-base".to_string());
    record.protected = true;
    registry.upsert(record);
    assert!(matches!(
        attribute_boot_failure("@deepseek-ai/dsh-base crashed", &registry),
        BootVerdict::Unattributed
    ));
    assert!(matches!(
        attribute_boot_failure("failed to parse overlay", &registry),
        BootVerdict::BadConfig
    ));
}

#[test]
fn a_server_block_comes_and_goes_without_a_trace() {
    let start = "# own\n- id: mine\n";
    let print = fingerprint_outside(start).unwrap();
    let plan = plan_write("p", Some(start), Some("- id: x\n  disabled: true")).unwrap();
    assert_eq!(plan.print, print);
    let with = plan.edit.content.unwrap();
    assert_eq!(fingerprint_outside(&with).unwrap(), print);
    let plan = plan_write("p", Some(&with), Some("- id: x\n  disabled: false")).unwrap();
    let changed = plan.edit.content.unwrap();
    assert_eq!(fingerprint_outside(&changed).unwrap(), print);
    assert!(check_write(&plan.print, &changed, &Evidence::Nothing).is_empty());
    let plan = plan_write("p", Some(&changed), None).unwrap();
    let without = plan.edit.content.unwrap();
    assert!(!without.contains(&mcp_block_family().mark_begin()));
    assert_eq!(fingerprint_outside(&without).unwrap(), print);
    assert_eq!(
        canonical_outside(start).unwrap(),
        canonical_outside("# own\r\n- id: mine\r\n").unwrap()
    );
}

fn server(id: &str, name: &str) -> McpRow {
    McpRow {
        row_id: id.to_string(),
        section_owner: "base".to_string(),
        server_name: Some(name.to_string()),
        transport: Some(McpTransport::Stdio),
        disabled: Some(false),
        dangerous: false,
        summary: String::new(),
    }
}

fn declared(ids: &[&str]) -> McpBlock {
    McpBlock {
        declares: ids
            .iter()
            .map(|id| McpDeclare {
                row_id: id.to_string(),
                server_name: Some(id.to_string()),
                transport: Some(McpTransport::Stdio),
                config_raw: String::new(),
            })
            .collect(),
        directives: ids
            .iter()
            .map(|id| McpDirective { row_id: id.to_string(), disabled: false })
            .collect(),
    }
}

#[test]
fn only_the_named_server_changes() {
    let tree = vec![server("a", "a"), server("b", "b")];
    let block = declared(&["a", "b"]);
    match set_enabled("a", false, &tree, &block).unwrap() {
        McpStep::Write(write) => {
            assert_eq!(write.next.declares.len(), 2);
            assert!(write.next.directive_by_row_id("a").unwrap().disabled);
            assert!(!write.next.directive_by_row_id("b").unwrap().disabled);
            match set_enabled("a", false, &tree, &write.next).unwrap() {
                McpStep::Settled(done) => assert_eq!(done.status, "unchanged"),
                McpStep::Write(_) => panic!("the directive stands already"),
            }
        }
        McpStep::Settled(_) => panic!("there is something to write"),
    }
    match plan_remove("a", Some(&tree[0]), &block).unwrap() {
        McpStep::Write(write) => {
            assert!(write.next.declare_by_row_id("a").is_none());
            assert!(write.next.directive_by_row_id("a").is_none());
            assert!(write.next.declare_by_row_id("b").is_some());
            assert!(write.next.directive_by_row_id("b").is_some());
        }
        McpStep::Settled(_) => panic!("there is something to remove"),
    }
}
