use dsh_launcher::mcp::mcp_block_family;
use dsh_launcher::plugin::file_lock::FileLocks;
use dsh_launcher::plugin::managed::{
    apply_block, apply_family, apply_shared_body, detect_eol, managed, mark_begin, mark_end,
    parse_block, read_block, read_body, read_shared_body, render_block, shared, shared_mark_begin,
    shared_mark_end, split_outside, upsert, validate_row_id, yaml_quote, BlockEdit, BlockFamily,
    BlockOutcome, ManagedEntry,
};

const USER_TEMPLATE: &str = "# 用户自己的注释\n# 第二行\n[]\n";

const THIRD: BlockFamily = BlockFamily {
    begin_prefix: "# >>> dsh-launcher third ",
    end_prefix: "# <<< dsh-launcher third ",
    version: "v1",
    description: "测试用第三区块",
};

/// A file that is edited in memory.
struct Page {
    content: Option<String>,
}

impl Page {
    fn with(content: &str) -> Page {
        Page { content: Some(content.to_string()) }
    }

    fn missing() -> Page {
        Page { content: None }
    }

    fn take(&mut self, edit: Result<BlockEdit, String>) -> Result<BlockOutcome, String> {
        let edit = edit?;
        self.content = edit.content;
        Ok(edit.outcome)
    }

    fn block(&mut self, entries: &[ManagedEntry]) -> Result<BlockOutcome, String> {
        let edit = apply_block("p", self.content.as_deref(), entries);
        self.take(edit)
    }

    fn family(&mut self, family: BlockFamily, body: Option<&str>) -> Result<BlockOutcome, String> {
        let edit = apply_family("p", self.content.as_deref(), family, body);
        self.take(edit)
    }

    fn shared(&mut self, body: Option<&str>) -> Result<BlockOutcome, String> {
        let edit = apply_shared_body("p", self.content.as_deref(), body);
        self.take(edit)
    }

    fn text(&self) -> String {
        self.content.clone().unwrap()
    }
}

fn entry(id: &str, disabled: bool, package: Option<&str>) -> ManagedEntry {
    ManagedEntry::new(id.to_string(), disabled, package.map(|p| p.to_string()))
}

#[test]
fn test_append_to_user_file_preserves_bytes() {
    let mut page = Page::with(USER_TEMPLATE);
    let entries = vec![
        entry("cost-meter", false, Some("dsh-cost-meter")),
        entry("dsh-market", true, Some("dshmarket")),
    ];
    assert_eq!(page.block(&entries).unwrap(), BlockOutcome::Written);
    let content = page.text();
    assert!(content.starts_with("# 用户自己的注释\n# 第二行\n"));
    assert!(!content.contains("\n[]\n"));
    assert!(content.contains("- id: cost-meter  # plugin: dsh-cost-meter"));
    assert!(content.contains("- id: dsh-market  # plugin: dshmarket"));
    let cost = content.find("cost-meter").unwrap();
    let market = content.find("dsh-market").unwrap();
    assert!(cost < market);
    assert_eq!(page.block(&entries).unwrap(), BlockOutcome::Unchanged);
    assert_eq!(page.text(), content);
}

#[test]
fn test_empty_array_placeholder_is_replaced_not_appended() {
    let template = "# Your patch layer for this dsh profile, applied after every bundle layer:\n# a top-level YAML array of loader patch entries\n[]\n";
    let mut page = Page::with(template);
    page.block(&[entry("cost-meter", true, None)]).unwrap();
    let content = page.text();
    assert!(!content.lines().any(|line| line.trim() == "[]"), "{content}");
    assert!(content.contains("- id: cost-meter"));
    assert!(content.contains("  disabled: true"));
    let first_significant = content
        .lines()
        .find(|line| !line.trim().is_empty() && !line.trim_start().starts_with('#'))
        .unwrap();
    assert!(first_significant.starts_with("- "), "{first_significant}");
}

#[test]
fn test_non_array_file_is_rejected() {
    let mut page = Page::with("root: {}\n");
    let err = page.block(&[entry("a", true, None)]).unwrap_err();
    assert!(err.contains("不是 YAML 数组"), "{err}");
    assert_eq!(page.text(), "root: {}\n");
}

#[test]
fn test_update_existing_block_only_touches_block() {
    let mut page = Page::missing();
    page.block(&[entry("a", true, None)]).unwrap();
    page.content = Some(page.text() + "\n# 用户追加\n");
    assert_eq!(page.block(&[entry("a", false, None)]).unwrap(), BlockOutcome::Written);
    let content = page.text();
    assert!(content.contains("# 用户追加"));
    assert!(content.contains("  disabled: false"));
    assert!(!content.contains("  disabled: true"));
}

#[test]
fn test_remove_block_restores_template_when_only_block() {
    let mut page = Page::missing();
    page.block(&[entry("a", true, None)]).unwrap();
    assert_eq!(page.block(&[]).unwrap(), BlockOutcome::Written);
    assert_eq!(page.text(), "[]\n");
    assert_eq!(page.block(&[]).unwrap(), BlockOutcome::Unchanged);
}

#[test]
fn test_missing_file_with_empty_entries_is_unchanged() {
    let mut page = Page::missing();
    assert_eq!(page.block(&[]).unwrap(), BlockOutcome::Unchanged);
    assert!(page.content.is_none(), "空条目不得创建文件");
}

#[test]
fn test_broken_marker_fails_loud() {
    let mut page = Page::with(&format!("{}\n- id: a\n  disabled: true\n", mark_begin()));
    let err = page.block(&[entry("a", false, None)]).unwrap_err();
    assert!(err.contains("不成对") || err.contains("缺少结束"), "{err}");
}

#[test]
fn test_crlf_preserved() {
    let mut page = Page::with("# 注释\r\n[]\r\n");
    page.block(&[entry("a", true, None)]).unwrap();
    assert!(page.text().contains("\r\n"));
    let rows = read_block("p", page.content.as_deref()).unwrap().unwrap();
    assert_eq!(rows, vec![entry("a", true, None)]);
}

#[test]
fn rows_take_the_line_endings_of_the_file() {
    let rows = [entry("b", false, Some("p")), entry("a", true, None)];
    let mut page = Page::with("# c\r\n[]\r\n");
    page.block(&rows).unwrap();
    assert_eq!(
        page.text(),
        format!(
            "# c\r\n{}\r\n- id: a\r\n  disabled: true\r\n- id: b  # plugin: p\r\n  disabled: false\r\n{}\r\n",
            mark_begin(),
            mark_end()
        )
    );
    assert!(page.text().contains(&render_block(&rows, "\r\n")));
    assert!(!page.text().contains("\r\r\n"));
    let mut page = Page::with("# c\n[]\n");
    page.block(&rows).unwrap();
    assert!(page.text().contains(&render_block(&rows, "\n")));
    assert!(!page.text().contains('\r'));
}

#[test]
fn test_row_id_validation() {
    assert!(validate_row_id("ui-task-board").is_ok());
    assert!(validate_row_id("@scope/pkg/row").is_ok());
    assert!(validate_row_id("bad id").is_err());
    assert!(validate_row_id("bad\nid").is_err());
    assert!(validate_row_id("").is_err());
}

#[test]
fn test_upsert_overrides_and_removes() {
    let existing = vec![entry("a", true, None), entry("b", false, None)];
    let out = upsert(Some(existing), &[entry("a", false, None)], &["b".to_string()]);
    assert_eq!(out, vec![entry("a", false, None)]);
}

#[test]
fn test_shared_block_roundtrip_and_idempotency() {
    let mut page = Page::with(USER_TEMPLATE);
    let body = "- id: skill-filesystem\n  config:\n    agentsHome: 'C:\\\\a\\\\.agents\\\\agent'\n";
    assert_eq!(page.shared(Some(body)).unwrap(), BlockOutcome::Written);
    let content = page.text();
    assert!(content.starts_with("# 用户自己的注释\n# 第二行\n"));
    assert!(!content.lines().any(|line| line.trim() == "[]"));
    assert!(content.contains(shared_mark_begin().as_str()));
    assert_eq!(
        read_shared_body("p", page.content.as_deref()).unwrap().as_deref(),
        Some(body.trim())
    );
    assert_eq!(page.shared(Some(body)).unwrap(), BlockOutcome::Unchanged);
    page.block(&[entry("row-a", true, None)]).unwrap();
    let content = page.text();
    assert!(content.contains(shared_mark_begin().as_str()));
    assert!(content.contains(mark_begin().as_str()));
    assert!(read_block("p", page.content.as_deref()).unwrap().unwrap().len() == 1);
    assert_eq!(page.shared(None).unwrap(), BlockOutcome::Written);
    let content = page.text();
    assert!(!content.contains(shared_mark_begin().as_str()));
    assert!(content.contains(mark_begin().as_str()));
}

#[test]
fn test_family_markers_are_distinct_and_versioned() {
    assert_eq!(
        managed().mark_begin(),
        "# >>> dsh-launcher managed v1 — 由启动器维护，请勿手工编辑 >>>"
    );
    assert_eq!(shared().mark_end(), "# <<< dsh-launcher shared v1 <<<");
    assert_eq!(
        THIRD.mark_begin(),
        "# >>> dsh-launcher third v1 — 由启动器维护，请勿手工编辑 >>>"
    );
    for (a, b) in [(managed(), shared()), (managed(), THIRD), (shared(), THIRD)] {
        assert!(!a.mark_begin().contains(b.mark_begin().as_str()));
        assert!(!b.mark_begin().contains(a.mark_begin().as_str()));
        assert!(!a.mark_end().contains(b.mark_end().as_str()));
        assert!(!b.mark_end().contains(a.mark_end().as_str()));
    }
}

#[test]
fn test_generic_family_read_apply_roundtrip_and_three_way_coexistence() {
    let mut page = Page::with(USER_TEMPLATE);
    page.block(&[entry("row-a", true, None)]).unwrap();
    page.shared(Some("- id: skill-filesystem\n  config:\n    agentsHome: 'X'")).unwrap();
    let third_body = "- insert:\n    - id: third-row\n      name: third";
    assert_eq!(page.family(THIRD, Some(third_body)).unwrap(), BlockOutcome::Written);

    let content = page.text();
    assert!(content.starts_with("# 用户自己的注释\n# 第二行\n"), "块外必须逐字节保留");
    for family in [managed(), shared(), THIRD] {
        assert!(content.contains(&family.mark_begin()), "{family:?} 起始 marker 缺失");
        assert!(content.contains(&family.mark_end()), "{family:?} 结束 marker 缺失");
    }
    assert_eq!(
        read_body("p", page.content.as_deref(), THIRD).unwrap().as_deref(),
        Some(third_body)
    );
    assert_eq!(read_block("p", page.content.as_deref()).unwrap().unwrap().len(), 1);
    assert!(read_shared_body("p", page.content.as_deref()).unwrap().is_some());

    let before = page.text();
    assert_eq!(page.family(THIRD, Some(third_body)).unwrap(), BlockOutcome::Unchanged);
    assert_eq!(page.text(), before);

    assert_eq!(page.family(THIRD, None).unwrap(), BlockOutcome::Written);
    let content = page.text();
    assert!(!content.contains(&THIRD.mark_begin()));
    assert!(content.contains(mark_begin().as_str()));
    assert!(content.contains(shared_mark_begin().as_str()));
}

#[test]
fn test_broken_markers_reported_per_family() {
    let page = Page::with(&format!("{}\n- insert: []\n", THIRD.mark_begin()));
    let err = read_body("p", page.content.as_deref(), THIRD).unwrap_err();
    assert!(err.contains("不成对") || err.contains("缺少结束"), "{err}");
    assert!(read_block("p", page.content.as_deref()).unwrap().is_none());
    assert!(read_shared_body("p", page.content.as_deref()).unwrap().is_none());
}

#[test]
fn test_file_write_lock_rejects_duplicate_acquire_after_release() {
    let mut locks = FileLocks::new();
    let mut page = Page::with(USER_TEMPLATE);
    let outer = locks.file_write_lock("p", 1).unwrap();
    let inner = locks.file_write_lock("p", 1).unwrap();
    page.block(&[entry("a", true, None)]).unwrap();
    assert!(locks.file_write_lock("p", 2).is_none());
    assert!(locks.file_write_lock("q", 2).is_some());
    locks.release(inner);
    assert!(locks.file_write_lock("p", 2).is_none());
    locks.release(outer);
    let _again = locks.file_write_lock("p", 2).unwrap();
    page.block(&[entry("a", false, None)]).unwrap();
}

#[test]
fn test_yaml_quote_escapes_single_quote_and_wraps() {
    assert_eq!(yaml_quote("plain"), "'plain'");
    assert_eq!(yaml_quote("a'b"), "'a''b'");
    assert_eq!(yaml_quote("x'- id: evil"), "'x''- id: evil'");
    assert_eq!(yaml_quote("a: b # c"), "'a: b # c'");
    for value in ["plain", "a'b", "a: b # c", "*alias", "&anchor"] {
        let quoted = yaml_quote(value);
        assert!(quoted.starts_with('\'') && quoted.ends_with('\''), "{quoted}");
        assert!(!quoted.contains('\n'), "{quoted}");
    }
}

#[test]
fn test_split_outside_returns_before_and_after() {
    let content = "# user\n# >>> dsh-launcher mcp v1 — 由启动器维护，请勿手工编辑 >>>\n- insert:\n- id: mcp-x\n  disabled: false\n# <<< dsh-launcher mcp v1 <<<\n# tail\n";
    let (before, after) =
        split_outside(content, mcp_block_family()).unwrap().expect("必须找到区块");
    assert_eq!(before, "# user\n");
    assert_eq!(after, "\n# tail\n");
    assert!(split_outside("# only\n[]\n", mcp_block_family()).unwrap().is_none());
}

#[test]
fn test_concurrent_family_writes_are_serialized() {
    let mut page = Page::with(USER_TEMPLATE);
    let mut locks = FileLocks::new();
    let shared_body = "- id: skill-filesystem\n  config:\n    agentsHome: 'X'";
    let third_body = "- insert:\n    - id: third-row\n      name: third";
    for round in 0..40u64 {
        for (thread, family, body) in [(1, shared(), shared_body), (2, THIRD, third_body)] {
            let guard = locks.file_write_lock("p", thread).expect("free between writes");
            assert!(locks.file_write_lock("p", 3 - thread).is_none(), "round {round}");
            page.family(family, Some(body)).unwrap();
            locks.release(guard);
        }
    }
    let content = page.text();
    assert!(content.contains(&shared().mark_begin()), "{content}");
    assert!(content.contains(&THIRD.mark_begin()), "{content}");
    assert!(content.starts_with("# 用户自己的注释\n# 第二行\n"), "块外必须保留");
}

#[test]
fn marker_in_body_is_refused_and_file_untouched() {
    let mut page = Page::with(USER_TEMPLATE);
    let evil = format!("- id: x\n  config:\n    command: '{}'", THIRD.mark_begin());
    let err = page.family(THIRD, Some(&evil)).unwrap_err();
    assert!(err.contains("marker"), "错误信息应指明 marker: {err}");
    assert_eq!(page.text(), USER_TEMPLATE, "被拒时文件必须逐字节不变");

    let evil_end = format!("- id: y\n  note: '{}'", THIRD.mark_end());
    let err_end = page.family(THIRD, Some(&evil_end)).unwrap_err();
    assert!(err_end.contains("marker"), "{err_end}");
    assert_eq!(page.text(), USER_TEMPLATE);
}

#[test]
fn ordinary_body_passes_the_marker_check() {
    let mut page = Page::with(USER_TEMPLATE);
    assert_eq!(
        page.family(THIRD, Some("- id: ok\n  disabled: false")).unwrap(),
        BlockOutcome::Written
    );
    let content = page.text();
    assert!(content.contains("- id: ok"));
    assert_eq!(content.matches(&THIRD.mark_begin()).count(), 1);
    assert_eq!(content.matches(&THIRD.mark_end()).count(), 1);
}

#[test]
fn rows_are_rendered_and_read_back() {
    let rows = vec![entry("b", true, Some("pkg")), entry("a", false, None)];
    let text = render_block(&rows, "\n");
    assert_eq!(
        text,
        format!(
            "{}\n- id: a\n  disabled: false\n- id: b  # plugin: pkg\n  disabled: true\n{}",
            mark_begin(),
            mark_end()
        )
    );
    let (before, after) = split_outside(&text, managed()).unwrap().unwrap();
    assert_eq!((before.as_str(), after.as_str()), ("", ""));
    let mut page = Page::missing();
    page.block(&rows).unwrap();
    let back = read_block("p", page.content.as_deref()).unwrap().unwrap();
    assert_eq!(back, vec![entry("a", false, None), entry("b", true, None)]);
}

#[test]
fn block_errors_name_the_row() {
    let err = validate_row_id("bad id").unwrap_err();
    assert_eq!(err, "非法行 id（含不安全字符）: \"bad id\"");
    assert_eq!(validate_row_id("").unwrap_err(), "非法行 id: \"\"");
    assert!(parse_block("- id: a b\n").is_err());
    assert!(parse_block("  disabled: true\n").is_err());
    let rows = parse_block("- id: a  # plugin: p\n  disabled: true\n").unwrap();
    assert_eq!(rows, vec![entry("a", true, None)]);
}

#[test]
fn line_endings_are_those_of_the_file() {
    assert_eq!(detect_eol("a\r\nb"), "\r\n");
    assert_eq!(detect_eol("a\nb"), "\n");
    assert_eq!(detect_eol(""), "\n");
}

#[test]
fn other_families_are_kept_byte_for_byte() {
    let mut page = Page::with("# head\n");
    page.family(shared(), Some("- id: s")).unwrap();
    let before = page.text();
    page.family(THIRD, Some("- id: t")).unwrap();
    assert!(page.text().starts_with(&before));
    assert_eq!(shared_mark_end(), "# <<< dsh-launcher shared v1 <<<");
    assert_eq!(
        read_shared_body("p", page.content.as_deref()).unwrap().as_deref(),
        Some("- id: s")
    );
}
