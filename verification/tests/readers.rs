use dsh_launcher::mcp::{McpBlock, McpDeclare, McpDirective, McpTransport};
use dsh_launcher::mcp_text::{empty_block, parse_block, render_block};
use dsh_launcher::plugin::dump::DisabledValue;
use dsh_launcher::plugin::dump_text::{mcp_rows, parse_dump, read_sections};
use dsh_launcher::plugin::registry::{PluginRecord, PluginSource};
use dsh_launcher::plugin::spec::{Origin, SpecKind};
use dsh_launcher::plugin::sync_plan::{plan_item, sync_question, Question};
use dsh_launcher::yaml_text::{config_scalar, field, indent, normalize_config, scalar};

const DUMP: &str = "\
# == @deepseek-ai/dsh-web-app, patched by a, @s/b
- id: workspace
  name: 'dsh-workspace'
  disabled: true
- id: session
  disabled: !!js process.env.X
# == C:\\Users\\t\\.dsh\\cordis.patch.yml
- id: mcp-github
  name: '@deepseek-ai/dsh-mcp-client'
  config:
    serverName: github
    transport: streamable-http
    url: https://api.example.com/mcp/ # remote
    headers:
      serverName: not-this-one
  disabled: false
";

#[test]
fn scalars_are_unquoted() {
    assert_eq!(scalar(" plain  # note"), "plain");
    assert_eq!(scalar(" 'it''s # here' "), "it's # here");
    assert_eq!(scalar("\"a \\\"b\\\" \\\\c\""), "a \"b\" \\c");
    assert_eq!(scalar("'"), "'");
    assert_eq!(scalar(""), "");
    assert_eq!(indent("    x"), 4);
    assert_eq!(indent(""), 0);
    assert_eq!(field("  name: x", "name").as_deref(), Some(" x"));
    assert_eq!(field("  names: x", "name"), None);
}

#[test]
fn configurations_are_moved_to_the_left() {
    assert_eq!(normalize_config("      a: 1\n        b: 2\n\n"), "  a: 1\n    b: 2");
    assert_eq!(normalize_config("a: 1\nb: 2"), "  a: 1\n  b: 2");
    assert_eq!(normalize_config(""), "");
    let config = "  serverName: 'x'\n  env:\n    command: no\n  command: y # c\n  url: ''";
    assert_eq!(config_scalar(config, "serverName").as_deref(), Some("x"));
    assert_eq!(config_scalar(config, "command").as_deref(), Some("y"));
    assert_eq!(config_scalar(config, "url"), None);
    assert_eq!(config_scalar("", "url"), None);
}

#[test]
fn printed_sections_are_read() {
    let sections = parse_dump(DUMP).unwrap();
    assert_eq!(sections.len(), 2);
    assert_eq!(sections[0].owner, "@deepseek-ai/dsh-web-app");
    assert_eq!(sections[0].patched_by, vec!["a", "@s/b"]);
    assert_eq!(sections[0].rows.len(), 2);
    assert_eq!(sections[0].rows[0].name.as_deref(), Some("dsh-workspace"));
    assert!(matches!(sections[0].rows[0].disabled, Some(DisabledValue::Bool(true))));
    match &sections[0].rows[1].disabled {
        Some(DisabledValue::Expression(e)) => assert_eq!(e, "!!js process.env.X"),
        _ => panic!("expression expected"),
    }
    assert!(sections[1].patched_by.is_empty());
    assert_eq!(read_sections(DUMP)[1].rows[0].config.len(), 5);
    assert!(parse_dump("").unwrap().is_empty());
    assert_eq!(parse_dump("boom").unwrap_err(), "dsh --dump-config 输出中没有段头");
}

#[test]
fn tool_servers_are_found() {
    let rows = mcp_rows(DUMP);
    assert_eq!(rows.len(), 1);
    assert_eq!(rows[0].row_id, "mcp-github");
    assert_eq!(rows[0].server_name.as_deref(), Some("github"));
    assert_eq!(rows[0].transport, Some(McpTransport::StreamableHttp));
    assert_eq!(rows[0].summary, "https://api.example.com/mcp/");
    assert_eq!(rows[0].disabled, Some(false));
    assert!(!rows[0].dangerous);
    assert!(rows[0].section_owner.ends_with("cordis.patch.yml"));
}

#[test]
fn servers_that_were_written_are_read_back() {
    let block = McpBlock {
        declares: vec![McpDeclare {
            row_id: "mcp-x".to_string(),
            server_name: Some("x".to_string()),
            transport: Some(McpTransport::Stdio),
            config_raw: "  serverName: 'x'\n  transport: stdio\n  args:\n    - '--a'".to_string(),
        }],
        directives: vec![
            McpDirective { row_id: "mcp-x".to_string(), disabled: false },
            McpDirective { row_id: "other".to_string(), disabled: true },
        ],
    };
    let text = render_block(&block).unwrap();
    assert_eq!(
        text,
        "- insert:
    - id: mcp-x
      name: '@deepseek-ai/dsh-mcp-client'
      config:
        serverName: 'x'
        transport: stdio
        args:
          - '--a'
- id: mcp-x
  disabled: false
- id: other
  disabled: true"
    );
    let back = parse_block(&text).unwrap();
    assert_eq!(back.declares.len(), 1);
    assert_eq!(back.declares[0].row_id, "mcp-x");
    assert_eq!(back.declares[0].config_raw, block.declares[0].config_raw);
    assert_eq!(back.declares[0].server_name.as_deref(), Some("x"));
    assert_eq!(back.declares[0].transport, Some(McpTransport::Stdio));
    assert_eq!(back.directives.len(), 2);
    assert!(back.directives[1].disabled);
    assert!(render_block(&empty_block()).is_none());
}

#[test]
fn strange_lines_in_the_block_are_refused() {
    assert_eq!(parse_block("what").unwrap_err(), "无法解析的区块行: what");
    assert_eq!(
        parse_block("- id: a\n  disabled: maybe").unwrap_err(),
        "无法解析的定向行: disabled: maybe"
    );
    assert_eq!(
        parse_block("  disabled: true").unwrap_err(),
        "无法解析的定向行: disabled: true"
    );
    assert!(parse_block("# comment\n\n").unwrap().directives.is_empty());
}

fn record(origin: Origin, kind: SpecKind, reference: Option<&str>) -> PluginRecord {
    let mut record = PluginRecord::new("p".to_string());
    record.origin = origin;
    record.source = Some(PluginSource {
        kind,
        spec: "s".to_string(),
        repo: Some("https://github.com/o/r".to_string()),
        reference: reference.map(|r| r.to_string()),
        commit: Some("0123456".to_string()),
    });
    record
}

#[test]
fn plugins_follow_their_source() {
    let npm = record(Origin::Upstream, SpecKind::Npm, None);
    assert!(matches!(sync_question(&npm), Question::Package(p) if p == "p"));
    let item = plan_item(&npm, Some("1.0.0".to_string()), Some("1.1.0".to_string()));
    assert!(item.actionable);
    assert_eq!(item.new_spec.as_deref(), Some("p@1.1.0"));
    assert_eq!(item.reason, "可更新到 1.1.0");
    let item = plan_item(&npm, Some("1.1.0".to_string()), Some("1.1.0".to_string()));
    assert!(!item.actionable);
    assert_eq!(item.reason, "已是最新");
    assert_eq!(plan_item(&npm, None, None).reason, "无法取得上游版本");

    let git = record(Origin::Upstream, SpecKind::Git, Some("main"));
    match sync_question(&git) {
        Question::Commit { repo, reference } => {
            assert_eq!(repo, "https://github.com/o/r");
            assert_eq!(reference, "main");
        }
        _ => panic!("a commit is asked for"),
    }
    let pinned = record(Origin::Upstream, SpecKind::Git, Some("0123456"));
    assert!(matches!(
        sync_question(&pinned),
        Question::Commit { reference, .. } if reference == "HEAD"
    ));
    let item = plan_item(&git, Some("1.0.0".to_string()), Some("abcdef0".to_string()));
    assert_eq!(item.current.as_deref(), Some("0123456"));
    assert_eq!(item.new_spec.as_deref(), Some("git+https://github.com/o/r#abcdef0"));

    let own = record(Origin::InHouse, SpecKind::Path, None);
    assert!(matches!(sync_question(&own), Question::Nothing));
    let item = plan_item(&own, Some("1.0.0".to_string()), Some("2.0.0".to_string()));
    assert!(!item.actionable);
    assert!(item.new_spec.is_none());
}
