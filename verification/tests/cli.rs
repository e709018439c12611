use dsh_launcher::cli::{
    flag_value, has_flag, is_cli_invocation, mcp_header, mcp_layer_line, mcp_line, pad,
    parse_mcp, parse_origin, parse_plugin, parse_skill, parse_top, plugin_line, positional, report,
    resource_line, sync_line, McpCommand, PluginCommand, SkillCommand, TopCommand,
};
use dsh_launcher::cli_add::{
    build_add_spec, parse_bool, parse_pair, parse_u64, AddStep, ArgCursor,
};
use dsh_launcher::mcp::{
    McpMark, McpOrigin, McpServerView, McpTransport, ReloadMode,
};
use dsh_launcher::mcp_change::McpAddSpec;
use dsh_launcher::plugin::lifecycle::SyncItemResult;
use dsh_launcher::plugin::service::PluginView;
use dsh_launcher::plugin::spec::Origin;
use dsh_launcher::plugin::state::{PluginError, PluginErrorKind, PluginState};

fn args(list: &[&str]) -> Vec<String> {
    list.iter().map(|item| item.to_string()).collect()
}

#[test]
fn test_is_cli_invocation() {
    assert!(is_cli_invocation(&args(&["plugin", "list"])));
    assert!(is_cli_invocation(&args(&["skill", "status"])));
    assert!(is_cli_invocation(&args(&["--help"])));
    assert!(!is_cli_invocation(&args(&["--web-gui"])));
    assert!(!is_cli_invocation(&[]));
}

#[test]
fn test_flag_helpers() {
    let list = args(&["install", "pkg", "--origin", "upstream", "--json"]);
    assert_eq!(positional(&list, 1).as_deref(), Some("pkg"));
    assert_eq!(flag_value(&list, "--origin").as_deref(), Some("upstream"));
    assert!(has_flag(&list, "--json"));
    assert_eq!(flag_value(&list, "--package"), None);
}

#[test]
fn test_positional_skips_option_values() {
    let list = args(&["sync", "--package", "dshmarket"]);
    assert_eq!(positional(&list, 0).as_deref(), Some("sync"));
    assert_eq!(positional(&list, 1), None);
}

#[test]
fn top_level_dispatch() {
    assert!(matches!(parse_top(&args(&["plugin", "-h"])), TopCommand::Help));
    assert!(matches!(parse_top(&args(&["-V"])), TopCommand::Version));
    assert!(matches!(parse_top(&[]), TopCommand::Help));
    assert!(matches!(parse_top(&args(&["mcp", "list"])), TopCommand::Mcp));
    assert!(matches!(parse_top(&args(&["skill"])), TopCommand::Skill));
    assert!(matches!(parse_top(&args(&["plugin"])), TopCommand::Plugin));
    match parse_top(&args(&["what"])) {
        TopCommand::Unknown(m) => assert_eq!(m, "未知子命令: what\n"),
        _ => panic!("unknown subcommand expected"),
    }
}

#[test]
fn plugin_dispatch() {
    assert!(matches!(parse_plugin(&args(&["list", "--json"])), Ok(PluginCommand::List)));
    match parse_plugin(&args(&["install", "--origin", "in-house", "p@1"])) {
        Ok(PluginCommand::Install { spec, origin }) => {
            assert_eq!(spec, "p@1");
            assert_eq!(origin, Some(Origin::InHouse));
        }
        _ => panic!("install expected"),
    }
    match parse_plugin(&args(&["disable", "p"])) {
        Ok(PluginCommand::SetState { package, enabled }) => {
            assert_eq!(package, "p");
            assert!(!enabled);
        }
        _ => panic!("disable expected"),
    }
    match parse_plugin(&args(&["sync", "--check", "--package", "p"])) {
        Ok(PluginCommand::Sync { apply, only }) => {
            assert!(!apply);
            assert_eq!(only.as_deref(), Some("p"));
        }
        _ => panic!("sync expected"),
    }
    assert!(matches!(
        parse_plugin(&args(&["repair"])),
        Ok(PluginCommand::Repair { only: None })
    ));
    let said = |list: &[&str]| parse_plugin(&args(list)).err().unwrap();
    assert_eq!(said(&["install", "p", "--origin", "x"]), "未知来源: x");
    assert_eq!(said(&["install"]), "用法: dsh-launcher plugin install <spec> [--origin ...]");
    assert_eq!(said(&["enable"]), "用法: dsh-launcher plugin enable <package>");
    assert_eq!(said(&["uninstall"]), "用法: dsh-launcher plugin uninstall <package>");
    assert_eq!(said(&["fly"]), "未知 plugin 动作: fly");
    assert_eq!(said(&[]), "plugin 需要动作：list|install|enable|disable|uninstall|sync|repair");
}

#[test]
fn skill_and_mcp_dispatch() {
    match parse_skill(&args(&["apply", "--resource", "skills"])) {
        Ok(SkillCommand::Apply { mode, resource }) => {
            assert_eq!(mode, "auto");
            assert_eq!(resource.as_deref(), Some("skills"));
        }
        _ => panic!("apply expected"),
    }
    assert!(matches!(
        parse_skill(&args(&["migrate", "--dry-run"])),
        Ok(SkillCommand::Migrate { dry_run: true })
    ));
    assert!(matches!(parse_skill(&args(&["repair-links"])), Ok(SkillCommand::RepairLinks)));
    assert!(matches!(parse_skill(&args(&["status"])), Ok(SkillCommand::Status)));
    assert_eq!(parse_skill(&args(&["x"])).err().unwrap(), "未知 skill 动作: x");
    assert_eq!(parse_skill(&[]).err().unwrap(), "skill 需要动作：status|apply|migrate");

    assert!(matches!(parse_mcp(&args(&["list"])), Ok(McpCommand::List)));
    assert!(matches!(parse_mcp(&args(&["add"])), Ok(McpCommand::Add)));
    match parse_mcp(&args(&["enable", "github", "--json"])) {
        Ok(McpCommand::SetState { server_name, enabled }) => {
            assert_eq!(server_name, "github");
            assert!(enabled);
        }
        _ => panic!("enable expected"),
    }
    assert_eq!(
        parse_mcp(&args(&["remove"])).err().unwrap(),
        "用法: dsh-launcher mcp remove <serverName> [--json]"
    );
    assert_eq!(
        parse_mcp(&args(&["x"])).err().unwrap(),
        "未知 mcp 动作: x（可选 list|add|remove|enable|disable）"
    );
}

fn read_all(list: &[&str], file: Result<String, String>) -> Result<McpAddSpec, PluginError> {
    let list = args(list);
    let mut options = build_add_spec(&list);
    loop {
        match options.resume() {
            AddStep::Done(spec) => return Ok(spec),
            AddStep::Failed(e) => return Err(e),
            AddStep::ReadFile { path, rest } => {
                options = rest.supply(&path, file.clone())?;
            }
        }
    }
}

#[test]
fn add_options_are_read() {
    let spec = read_all(
        &[
            "--server-name", "fs", "--transport=stdio", "--command", "node", "--arg", "--flag",
            "--arg=x", "--env", "K=V", "--start-disabled", "--reconnect-enabled", "true",
            "--tool-call-timeout-ms", "60000", "--json",
        ],
        Err("no file".to_string()),
    )
    .unwrap();
    assert_eq!(spec.server_name, "fs");
    assert_eq!(spec.transport, "stdio");
    assert_eq!(spec.command.as_deref(), Some("node"));
    assert_eq!(spec.args, vec!["--flag", "x"]);
    assert_eq!(spec.env, vec![("K".to_string(), "V".to_string())]);
    assert!(spec.start_disabled);
    assert_eq!(spec.reconnect_enabled, Some(true));
    assert_eq!(spec.tool_call_timeout_ms, Some(60000));
    assert!(spec.raw_config.is_none());
}

#[test]
fn add_options_read_files_in_order() {
    let spec = read_all(
        &["--raw-config", "c.yml", "--server-name", "a", "--transport", "stdio"],
        Ok("serverName: a\n".to_string()),
    )
    .unwrap();
    assert_eq!(spec.raw_config.as_deref(), Some("serverName: a\n"));
    let err = read_all(&["--raw-config", "c.yml", "--bogus"], Err("gone".to_string())).err().unwrap();
    assert_eq!(err.message, "读取 --raw-config 文件 c.yml 失败: gone");
}

#[test]
fn add_option_errors() {
    let fail = |list: &[&str]| {
        let e = read_all(list, Err(String::new())).err().unwrap();
        assert_eq!(e.kind, PluginErrorKind::IllegalTransition);
        e.message
    };
    assert_eq!(fail(&["--bogus=1"]), "未知选项: --bogus");
    assert_eq!(fail(&["--command", "--x"]), "--command 需要一个值");
    assert_eq!(fail(&["--arg", "--"]), "--arg 需要一个值");
    assert_eq!(fail(&["--env", "novalue"]), "--env 需要 K=V 形态（如 --env FOO=bar）");
    assert_eq!(
        fail(&["--reconnect-enabled", "yes"]),
        "--reconnect-enabled 只接受 true/false（收到 \"yes\"）"
    );
    assert_eq!(
        fail(&["--reconnect-max-attempts", "-1"]),
        "--reconnect-max-attempts 需要非负整数（收到 \"-1\"）"
    );
    assert_eq!(
        fail(&["--transport", "stdio"]),
        "必须提供 --server-name（面向模型的稳定身份，官方要求 ^[A-Za-z0-9_-]{1,32}$）"
    );
    assert_eq!(
        fail(&["--server-name", "a"]),
        "必须提供 --transport <stdio|streamable-http>"
    );
}

#[test]
fn option_values() {
    let list = args(&["a", "--b"]);
    let mut cursor = ArgCursor::new(&list);
    assert_eq!(cursor.next(), Some("a"));
    assert!(cursor.take_value("--command").is_err());
    assert_eq!(cursor.next(), None);
    assert_eq!(
        parse_pair("--header", "Authorization: Bearer x").unwrap(),
        ("Authorization".to_string(), "Bearer x".to_string())
    );
    assert!(parse_pair("--env", "=v").is_err());
    assert!(parse_bool("--x", " false ").unwrap() == false);
    assert_eq!(parse_u64("--x", " 18446744073709551615 ").unwrap(), u64::MAX);
    assert!(parse_u64("--x", "18446744073709551616").is_err());
}

#[test]
fn lines_are_padded() {
    assert_eq!(pad("ab", 4), "ab  ");
    assert_eq!(pad("技能", 4), "技能  ");
    assert_eq!(pad("abcdef", 4), "abcdef");
    let view = PluginView {
        package: "dshmarket".to_string(),
        version: None,
        origin: Origin::Upstream,
        state: PluginState::Enabled,
        rows: vec![],
        source: None,
        last_sync: None,
        protected: true,
        needs_reconcile: false,
        desired: None,
        last_error: None,
        installed_spec: None,
    };
    assert_eq!(
        plugin_line(&view),
        format!("{:<44} {:<11} {:<10} {}{}", "dshmarket", "enabled", "upstream", "-", "  [受保护]")
    );
    let item = SyncItemResult {
        package: "p".to_string(),
        origin: Origin::Upstream,
        from: Some("1".to_string()),
        to: None,
        result: "ok".to_string(),
        message: "done".to_string(),
    };
    assert_eq!(
        sync_line(&item),
        format!("{:<44} {:<8} {} → {}  {}", "p", "ok", "1", "-", "done")
    );
    let server = McpServerView {
        server_name: "github".to_string(),
        row_id: "mcp-github".to_string(),
        transport: Some(McpTransport::StreamableHttp),
        origin: McpOrigin::External,
        layer: "base".to_string(),
        summary: "s".to_string(),
        disabled: Some(false),
        marks: vec![McpMark::Conflict, McpMark::Dangerous],
    };
    assert_eq!(
        mcp_line(&server),
        format!(
            "{:<20} {:<16} {:<9} {:<9} {}{}{}",
            "github", "streamable-http", "enabled", "external", "s", "  [", "冲突/危险]"
        )
    );
    assert_eq!(mcp_layer_line(&server), format!("  {:<17} 来源层 {}", "", "base"));
    assert_eq!(
        mcp_header("web", ReloadMode::Live, false),
        "profile web · 生效方式 live（改配置就地热重载，不重启 dsh） · 前置 缺失（add 不可用，请到插件页安装）"
    );
    assert_eq!(
        resource_line("skills", "ok", 9, "d"),
        format!("  {:<12} {:<9} {}", "skills", "ok", "d")
    );
}

#[test]
fn errors_are_reported_with_their_code() {
    let (text, code) = report(&PluginError::conflict("x".to_string()));
    assert_eq!(text, "错误: x");
    assert_eq!(code, 7);
}

#[test]
fn origins_are_named() {
    check_origin(None, None);
    check_origin(Some(""), None);
    check_origin(Some("upstream"), Some(Origin::Upstream));
    check_origin(Some("in-house"), Some(Origin::InHouse));
    check_origin(Some("unknown"), Some(Origin::Unknown));
    assert_eq!(parse_origin(Some("x")).unwrap_err(), "x");
}

fn check_origin(word: Option<&str>, expected: Option<Origin>) {
    assert_eq!(parse_origin(word).unwrap(), expected);
}
