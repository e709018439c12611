use dsh_launcher::mcp::{
    build_views, canonical_outside, derive_marks, find_in_tree, fingerprint_outside, fnv1a, list,
    mcp_block_family, normalize_eol, read_failure, reload_mode, McpAction, McpBlock, McpDeclare,
    McpDirective, McpMark, McpOrigin, McpRow, McpTransport, OpResult, ReloadMode,
};
use dsh_launcher::mcp_change::{
    check_add_spec, check_write, is_block_conflict, plan_add, plan_add_spec, plan_remove, plan_set_state,
    plan_write, render_structured_config, require_prereq, set_enabled, validate_server_name,
    validate_transport_required, validate_unique_server_name, write_verdict, ConfigFields,
    Evidence, Expected, McpAddSpec, McpStep,
};
use dsh_launcher::plugin::managed::split_outside;
use dsh_launcher::plugin::state::{PluginError, PluginErrorKind};

const USER_PATCH: &str = "# 用户手写机器级 patch 层
# 用户自己的注释

- insert:
    - id: mcp-github
      name: '@deepseek-ai/dsh-mcp-client'
      config:
        serverName: github
        transport: streamable-http
        url: https://api.githubcopilot.com/mcp/
        headers:
          Authorization: !!js >-
            (() => 'Bearer x')()
        toolCallTimeoutMs: 60000
        failOnStartupError: false
";

const BLOCK: &str = "# >>> dsh-launcher mcp v1 — 由启动器维护，请勿手工编辑 >>>
- insert:
    - id: mcp-x
      name: '@deepseek-ai/dsh-mcp-client'
      config:
        serverName: 'x'
        transport: stdio
        command: 'x-mcp'
- id: mcp-x
  disabled: false
# <<< dsh-launcher mcp v1 <<<
";

#[test]
fn test_canonical_outside_ignores_block_presence_and_boundary_newlines() {
    let no_block = canonical_outside(USER_PATCH).unwrap();
    let with_block = canonical_outside(&format!("{USER_PATCH}\n{BLOCK}")).unwrap();
    assert_eq!(no_block, with_block, "区块存在与否不得改变「块外内容」的规范化结果");
    let with_tail = canonical_outside(&format!("{USER_PATCH}\n{BLOCK}\n# tail\n")).unwrap();
    assert_ne!(no_block, with_tail, "真实新增的尾部注释必须被检出");
    let tampered = canonical_outside(&USER_PATCH.replace("github", "github2")).unwrap();
    assert_ne!(no_block, tampered, "用户内容改动必须被检出");
    let comment_changed =
        canonical_outside(&USER_PATCH.replace("用户自己的注释", "改过了")).unwrap();
    assert_ne!(no_block, comment_changed, "注释改动必须被检出");
}

#[test]
fn test_canonical_outside_tolerates_crlf() {
    let lf = canonical_outside(USER_PATCH).unwrap();
    let crlf = canonical_outside(&USER_PATCH.replace('\n', "\r\n")).unwrap();
    assert_eq!(lf, crlf);
}

fn row(id: &str, name: &str, disabled: Option<bool>) -> McpRow {
    McpRow {
        row_id: id.to_string(),
        section_owner: "base".to_string(),
        server_name: Some(name.to_string()),
        transport: Some(McpTransport::Stdio),
        disabled,
        dangerous: false,
        summary: "s".to_string(),
    }
}

fn block_with(id: &str, name: &str, disabled: Option<bool>) -> McpBlock {
    McpBlock {
        declares: vec![McpDeclare {
            row_id: id.to_string(),
            server_name: Some(name.to_string()),
            transport: Some(McpTransport::Stdio),
            config_raw: "serverName: x".to_string(),
        }],
        directives: disabled
            .into_iter()
            .map(|disabled| McpDirective { row_id: id.to_string(), disabled })
            .collect(),
    }
}

fn empty_block() -> McpBlock {
    McpBlock { declares: vec![], directives: vec![] }
}

#[test]
fn fingerprints_are_exact() {
    assert_eq!(fnv1a(""), "cbf29ce484222325");
    assert_eq!(fnv1a("a"), "af63dc4c8601ec8c");
    assert_eq!(fnv1a("foobar"), "85944171f73967e8");
    assert_eq!(normalize_eol("a\r\nb\nc"), "a\nb\nc");
    assert_eq!(
        fingerprint_outside(USER_PATCH).unwrap(),
        fingerprint_outside(&format!("{USER_PATCH}\n{BLOCK}")).unwrap()
    );
    let broken = format!("{}\n", mcp_block_family().mark_begin());
    assert!(fingerprint_outside(&broken).is_err());
}

#[test]
fn reload_modes() {
    assert_eq!(reload_mode(Some("live")), ReloadMode::Live);
    assert_eq!(reload_mode(Some("restart")), ReloadMode::RequiresRestart);
    assert_eq!(McpTransport::parse("stdio"), Some(McpTransport::Stdio));
    assert_eq!(McpTransport::parse("x"), None);
    assert_eq!(McpTransport::StreamableHttp.as_str(), "streamable-http");
    assert!(McpAction::Disable.desired_disabled());
    assert_eq!(OpResult::unchanged("m".to_string(), None).status, "unchanged");
    assert_eq!(OpResult::changed("m".to_string(), None).status, "changed");
    assert!(read_failure("p", "r").message.contains('p'));
}

#[test]
fn servers_are_listed_by_name() {
    let tree = vec![row("mcp-b", "b", Some(true)), row("mcp-a", "a", None)];
    let block = block_with("mcp-b", "b", Some(true));
    let views = build_views(&block, &tree, "home");
    assert_eq!(views.len(), 2);
    assert_eq!(views[0].server_name, "a");
    assert_eq!(views[0].origin, McpOrigin::External);
    assert_eq!(views[1].server_name, "b");
    assert_eq!(views[1].origin, McpOrigin::Managed);
    assert_eq!(views[1].layer, "home");
    let result = list("web", Some("live"), true, &block, &tree, "home");
    assert_eq!(result.profile, "web");
    assert_eq!(result.reload, ReloadMode::Live);
    assert_eq!(result.servers.len(), 2);
    assert_eq!(find_in_tree(&tree, "b").unwrap().row_id, "mcp-b");
    assert!(find_in_tree(&tree, "c").is_none());
    assert!(block.declare_by_row_id("mcp-b").is_some());
    assert_eq!(block.directive_index("mcp-b"), Some(0));
    assert!(block.directive_by_row_id("x").is_none());
    assert_eq!(block.derive_origin("x"), McpOrigin::External);
    let mut odd = row("r", "n", None);
    odd.dangerous = true;
    let marks = derive_marks(&odd, true);
    assert!(marks.contains(&McpMark::Conflict) && marks.contains(&McpMark::Dangerous));
}

#[test]
fn names_and_transports_are_checked() {
    assert!(validate_server_name("git-hub_1").is_ok());
    for bad in ["", "a b", "名", "abcdefghijklmnopqrstuvwxyz1234567"] {
        assert!(validate_server_name(bad).is_err(), "{bad}");
    }
    assert!(validate_transport_required(McpTransport::Stdio, Some("c"), None).is_ok());
    assert!(validate_transport_required(McpTransport::Stdio, None, Some("u")).is_err());
    assert!(validate_transport_required(McpTransport::StreamableHttp, None, None).is_err());
    let tree = vec![row("mcp-a", "a", None)];
    assert!(validate_unique_server_name("b", &tree).is_ok());
    assert!(validate_unique_server_name("a", &tree).is_err());
    assert!(require_prereq(true).is_ok());
    assert!(require_prereq(false).is_err());
}

fn spec() -> McpAddSpec {
    McpAddSpec {
        server_name: "x".to_string(),
        transport: "stdio".to_string(),
        command: Some("x-mcp".to_string()),
        args: vec!["it's".to_string()],
        ..Default::default()
    }
}

#[test]
fn a_server_is_added() {
    let spec = spec();
    let transport = check_add_spec(&spec).unwrap();
    assert_eq!(transport, McpTransport::Stdio);
    let config = render_structured_config(&spec, transport);
    assert!(config.contains("'x-mcp'"), "{config}");
    assert!(config.contains("'it''s'"), "{config}");
    let fields = ConfigFields {
        command: Some("x-mcp".to_string()),
        url: None,
        transport: Some("stdio".to_string()),
        server_name: Some("x".to_string()),
    };
    let write =
        plan_add(&spec, transport, config, &fields, &vec![], &empty_block()).unwrap();
    assert_eq!(write.next.declares.len(), 1);
    assert_eq!(write.next.declares[0].row_id, "mcp-x");
    assert_eq!(write.done.server_name.as_deref(), Some("x"));
    let whole = plan_add_spec(&spec, transport, &vec![], &empty_block()).unwrap();
    assert_eq!(whole.next.declares[0].config_raw, write.next.declares[0].config_raw);
    assert_eq!(whole.next.declares[0].transport, Some(McpTransport::Stdio));
    let raw = |config: &str| McpAddSpec {
        server_name: "x".to_string(),
        transport: "stdio".to_string(),
        raw_config: Some(config.to_string()),
        ..Default::default()
    };
    let given = raw("serverName: x\ntransport: streamable-http\nurl: u\n");
    let given = plan_add_spec(&given, transport, &vec![], &empty_block()).unwrap();
    assert_eq!(
        given.next.declares[0].config_raw,
        "  serverName: x\n  transport: streamable-http\n  url: u"
    );
    assert_eq!(given.next.declares[0].transport, Some(McpTransport::StreamableHttp));
    let other = raw("serverName: y\ntransport: stdio\ncommand: c");
    assert!(plan_add_spec(&other, transport, &vec![], &empty_block()).is_err());
    let mut unknown = McpAddSpec { transport: "pipe".to_string(), ..Default::default() };
    unknown.server_name = "x".to_string();
    assert!(check_add_spec(&unknown).is_err());
}

#[test]
fn servers_are_switched() {
    let tree = vec![row("mcp-x", "x", Some(false))];
    match set_enabled("x", false, &tree, &empty_block()).unwrap() {
        McpStep::Write(write) => {
            assert_eq!(write.next.directives.len(), 1);
            assert!(write.next.directives[0].disabled);
            match write.expected {
                Some(Expected::RowDisabled(id, off)) => {
                    assert_eq!(id, "mcp-x");
                    assert!(off);
                }
                _ => panic!("the row is looked at again"),
            }
        }
        McpStep::Settled(_) => panic!("there is something to write"),
    }
    let block = block_with("mcp-x", "x", Some(true));
    let off = vec![row("mcp-x", "x", Some(true))];
    assert!(matches!(
        plan_set_state("x", Some(&off[0]), &block, McpAction::Disable),
        Ok(McpStep::Settled(_))
    ));
    assert!(set_enabled("y", true, &tree, &empty_block()).is_err());
    let computed = vec![row("mcp-x", "x", None)];
    assert!(set_enabled("x", true, &computed, &empty_block()).is_err());
}

#[test]
fn servers_are_removed() {
    let tree = vec![row("mcp-x", "x", None)];
    let block = block_with("mcp-x", "x", Some(false));
    match plan_remove("x", Some(&tree[0]), &block).unwrap() {
        McpStep::Write(write) => {
            assert!(write.next.declares.is_empty());
            assert!(write.next.directives.is_empty());
        }
        McpStep::Settled(_) => panic!("there is something to remove"),
    }
}

#[test]
fn writes_leave_the_rest_alone() {
    let plan = plan_write("p", Some(USER_PATCH), Some("- id: mcp-x\n  disabled: true")).unwrap();
    assert!(plan.backup);
    let after = plan.edit.content.clone().unwrap();
    let (before, rest) = split_outside(&after, mcp_block_family()).unwrap().unwrap();
    assert!(before.starts_with(USER_PATCH));
    assert_eq!(rest.trim(), "");
    assert!(check_write(&plan.print, &after, &Evidence::Nothing).is_empty());
    let spoilt = after.replace("github", "github2");
    assert_eq!(check_write(&plan.print, &spoilt, &Evidence::Nothing).len(), 1);
    let seen = Evidence::Tree {
        row_id: "mcp-x".to_string(),
        off: true,
        tree: Ok(vec![row("mcp-x", "x", Some(false))]),
    };
    assert_eq!(check_write(&plan.print, &after, &seen).len(), 1);
    let gone = Evidence::Block { row_id: "mcp-x".to_string(), block: Ok(empty_block()) };
    assert!(check_write(&plan.print, &after, &gone).is_empty());
}

#[test]
fn failed_writes_are_reported() {
    assert!(write_verdict(vec![], None).is_ok());
    let failed = write_verdict(vec!["a".to_string()], None).unwrap_err();
    assert_eq!(failed.kind, PluginErrorKind::VerificationFailed);
    assert!(failed.message.contains('a'));
    let twice = write_verdict(vec!["a".to_string()], Some("disk full")).unwrap_err();
    assert!(twice.message.contains("disk full"), "{}", twice.message);
    assert!(is_block_conflict(&PluginError::conflict("x".to_string())));
    assert!(!is_block_conflict(&PluginError::internal("x".to_string())));
}
