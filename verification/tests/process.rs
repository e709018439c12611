use dsh_launcher::process::{
    classify_listener, cmdline_looks_like_dsh, command_line_query, dsh_output_name,
    extract_web_url, inactive_entries, inspect_lock, is_service_line, listener_query, output_line,
    parse_lock_holder_pid, pid_by_port, port_listener_looks_like_dsh, process_alive,
    process_command_line, process_looks_like_dsh, starting_convergence,
    stderr_inactive_entries_summary, tasklist_has_pid, DshStatus, Listener, LockStep, TailSplitter,
};

#[test]
fn test_parse_lock_holder_pid() {
    let raw = r#"{"pid":42500,"token":"818430df-7fdc-4313-bfe5-f9fe1a1a8d2b","startedAt":1789540775557,"probe":"exact"}"#;
    assert_eq!(parse_lock_holder_pid(raw), Some(42500));
    assert_eq!(parse_lock_holder_pid(r#"{"token":"x"}"#), None);
    assert_eq!(parse_lock_holder_pid(r#"{"pid":"abc"}"#), None);
    assert_eq!(parse_lock_holder_pid("not json"), None);
}

#[test]
fn test_stderr_inactive_match_logic() {
    let sample = "dsh: warning: 5 entries did not activate
            session-controller (@deepseek-ai/dsh-api-session-controller): pending (waiting for service: workspaceRegistry)
            workspace-controller (@deepseek-ai/dsh-api-workspace-controller): pending (waiting for service: workspaceRegistry)
";
    let hit = inactive_entries(sample);
    assert_eq!(hit.len(), 3);
    assert!(hit[0].contains("5 entries did not activate"));
    assert!(hit[1].contains("workspaceRegistry"));
    assert!(stderr_inactive_entries_summary(sample).is_some());

    let healthy = "time=... msg=\"starting server\"
GitHub MCP Server running on stdio
";
    assert!(inactive_entries(healthy).is_empty());
    assert!(stderr_inactive_entries_summary(healthy).is_none());
}

#[test]
fn test_starting_convergence_slow_boot_is_not_terminal() {
    assert_eq!(
        starting_convergence(false, true),
        None,
        "进程存活但端口未就绪 → 必须继续等待（不得判失败/终止）"
    );
}

#[test]
fn test_starting_convergence_port_ready_becomes_running() {
    assert_eq!(starting_convergence(true, true), Some(DshStatus::Running));
    assert_eq!(starting_convergence(true, false), Some(DshStatus::Running));
}

#[test]
fn test_starting_convergence_dead_process_becomes_stopped() {
    assert_eq!(
        starting_convergence(false, false),
        Some(DshStatus::Stopped),
        "进程已退出且端口未监听（启动即崩）→ 复位为未运行，交由插件归因"
    );
}

#[test]
fn test_listener_is_owned_semantics() {
    assert!(Listener::Managed.is_owned());
    assert!(Listener::Adopted.is_owned());
    assert!(!Listener::Vacant.is_owned());
    assert!(
        !Listener::Foreign.is_owned(),
        "端口被无关进程占用时绝不可判为 dsh 就绪（否则停止会误杀该进程）"
    );
}

#[test]
fn test_cmdline_looks_like_dsh_positive() {
    assert!(cmdline_looks_like_dsh(
        r#""C:\Users\x\AppData\Local\dsh-launcher\toolchain\node\node.exe" --import tsx/esm apps/cli/src/bin.ts web --port 3080 --no-open"#,
    ));
    assert!(cmdline_looks_like_dsh(
        r#""C:\Program Files\nodejs\node.exe" "C:\Users\x\AppData\Local\dsh-launcher\github-dsh\deepseek-harness\apps\cli\src\bin.ts" web --port 3080 --no-open"#,
    ));
    assert!(cmdline_looks_like_dsh(
        r#""C:\node\node.exe" "C:\Users\x\AppData\Local\node\node_modules\@deepseek-ai\dsh\bin\dsh.mjs" web --port 3080 --no-open"#,
    ));
    assert!(cmdline_looks_like_dsh(r#"cmd.exe /D /C dsh web --port 3080"#));
    assert!(cmdline_looks_like_dsh(r#""C:\node\dsh.cmd" web --port 3080"#));
}

#[test]
fn test_cmdline_looks_like_dsh_negative() {
    assert!(!cmdline_looks_like_dsh(""));
    assert!(!cmdline_looks_like_dsh(r#""C:\Windows\System32\sqlservr.exe" -sMSSQLSERVER"#));
    assert!(!cmdline_looks_like_dsh(r#""C:\Python39\python.exe" -m http.server 3080"#));
    assert!(!cmdline_looks_like_dsh(
        r#""C:\Program Files\nodejs\node.exe" C:\server\app.js --port 3080"#
    ));
    assert!(!cmdline_looks_like_dsh(r#"cmd.exe /D /C where dsh"#));
    assert!(!cmdline_looks_like_dsh(
        r#"node.exe C:\node_modules\webpack\bin\webpack.js build --no-open"#
    ));
    assert!(!cmdline_looks_like_dsh(
        r#"node.exe C:\node_modules\webpack\bin\webpack.js web build"#
    ));
    assert!(!cmdline_looks_like_dsh(r#"powershell.exe Get-Content dsh.log"#));
}

#[test]
fn test_extract_web_url() {
    let line = "dsh web: http://127.0.0.1:3080/?token=abc123def456\n";
    assert_eq!(
        extract_web_url(line).as_deref(),
        Some("http://127.0.0.1:3080/?token=abc123def456")
    );
    let line2 = "dsh web: http://127.0.0.1:3080/?token=x y";
    assert_eq!(extract_web_url(line2).as_deref(), Some("http://127.0.0.1:3080/?token=x"));
    assert_eq!(extract_web_url("listening on http://127.0.0.1:3080"), None);
    assert_eq!(extract_web_url("random log line"), None);
}

#[test]
fn test_tasklist_has_pid() {
    let en = "node.exe                    1234 Console                    1     45,678 K\r\n";
    assert!(tasklist_has_pid(en, 1234));
    assert!(!tasklist_has_pid(en, 5678));
    assert!(!tasklist_has_pid(
        "INFO: No tasks running with the specified criteria.\r\n",
        1234
    ));
    let zh = "node.exe                      1234 Console                    1      45,678 K\r\n";
    assert!(tasklist_has_pid(zh, 1234));
    let tricky = "node.exe                    5678 Console                    1     12,345 K\r\n";
    assert!(tasklist_has_pid(tricky, 5678));
    assert!(!tasklist_has_pid(tricky, 1234), "PID 精确列匹配，内存列 12345 不误判");
    assert!(!tasklist_has_pid("", 1));
    assert!(!tasklist_has_pid("node.exe\r\n", 1));
    assert!(process_alive(1234, Some(en)));
    assert!(!process_alive(0, Some(en)));
    assert!(!process_alive(1234, None));
}

#[test]
fn listeners_are_told_apart() {
    assert_eq!(classify_listener(7, 3080, false, None, true), Listener::Vacant);
    assert_eq!(classify_listener(7, 3080, true, Some(7), false), Listener::Managed);
    assert_eq!(classify_listener(7, 3080, true, Some(8), true), Listener::Adopted);
    assert_eq!(classify_listener(7, 3080, true, Some(8), false), Listener::Foreign);
    let service = Some("cmd.exe /D /C dsh web");
    assert!(port_listener_looks_like_dsh(3080, true, Some(8), service));
    assert!(!port_listener_looks_like_dsh(3080, false, Some(8), service));
    assert!(!port_listener_looks_like_dsh(3080, true, None, service));
    assert!(process_looks_like_dsh(service));
    assert!(!process_looks_like_dsh(None));
    assert!(is_service_line("cmd.exe /d /c dsh web"));
}

#[test]
fn system_queries() {
    assert!(listener_query(3080).contains("3080"));
    assert!(command_line_query(0).is_none());
    assert!(command_line_query(42).unwrap().contains("42"));
    assert_eq!(pid_by_port(true, " 42 \r\n"), Some(42));
    assert_eq!(pid_by_port(true, ""), None);
    assert_eq!(pid_by_port(false, "42"), None);
    assert_eq!(process_command_line(true, " node x \r\n").as_deref(), Some("node x"));
    assert_eq!(process_command_line(true, "  "), None);
    assert_ne!(dsh_output_name(true), dsh_output_name(false));
}

#[test]
fn locks_of_dead_holders_are_removed() {
    assert_eq!(inspect_lock(None), LockStep::Remove);
    assert_eq!(inspect_lock(Some("junk")), LockStep::Remove);
    assert_eq!(inspect_lock(Some("{\"pid\":12}")), LockStep::Ask(12));
}

#[test]
fn output_is_cut_into_lines() {
    let mut tail = TailSplitter::new();
    assert_eq!(tail.feed(&b"a\nb".to_vec()), vec![b"a".to_vec()]);
    assert_eq!(tail.feed(&b"c\n\nd".to_vec()), vec![b"bc".to_vec()]);
    assert_eq!(tail.finish(), b"d".to_vec());
    assert_eq!(output_line("text\r\r"), "text");
}
