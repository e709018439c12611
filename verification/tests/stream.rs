use dsh_launcher::command::{timeout_message, Look, TimedRun, TimedStep, KILL_WAIT};
use dsh_launcher::stream::{
    is_dsh_trailer, keep_line, read_all_lines, Exit, Line, LineSplitter, Poll, StreamFailure,
    Watch, WatchStep, STDERR_TAIL_MAX_LINES, STREAMED_MAX_DURATION,
};

fn words(lines: Vec<Line>) -> Vec<String> {
    lines
        .into_iter()
        .map(|line| match line {
            Line::Text(text) => text,
            Line::Raw(bytes) => format!("{bytes:?}"),
        })
        .collect()
}

fn collect(data: &[u8]) -> Vec<String> {
    words(read_all_lines(data))
}

#[test]
fn test_read_all_lines_git_progress() {
    let data = b"Receiving objects:  0% (1/10234)\rReceiving objects:  45% (45/10234)\rReceiving objects: 100% (10234/10234), done.\n";
    let lines = collect(data);
    assert_eq!(
        lines,
        vec![
            "Receiving objects:  0% (1/10234)",
            "Receiving objects:  45% (45/10234)",
            "Receiving objects: 100% (10234/10234), done.",
        ]
    );
}

#[test]
fn test_read_all_lines_normal_newline() {
    let data = b"line1\nline2\nline3 no trailing newline";
    let lines = collect(data);
    assert_eq!(lines, vec!["line1", "line2", "line3 no trailing newline"]);
}

#[test]
fn test_read_all_lines_crlf_mixed() {
    let data = b"first\r\nsecond\rthird\r\nfourth\n";
    let lines = collect(data);
    assert_eq!(lines, vec!["first", "second", "third", "fourth"]);
}

#[test]
fn test_real_git_output_segment() {
    let data = b"Cloning into 'clone-test'...\nremote: Enumerating objects: 10234, done.\nReceiving objects:   0% (1/10234)\rReceiving objects:   1% (103/10234), 56.00 KiB | 79.00 KiB/s\rReceiving objects:  45% (4606/10234), 5.82 MiB | 479.00 KiB/s\rReceiving objects: 100% (10234/10234), 18.02 MiB | 522.00 KiB/s, done.\nResolving deltas: 100% (2685/2685), done.\n";
    let lines = collect(data);
    assert_eq!(lines.len(), 7);
    assert_eq!(lines[0], "Cloning into 'clone-test'...");
    assert_eq!(lines[1], "remote: Enumerating objects: 10234, done.");
    assert!(lines[2].contains("Receiving objects:   0%"));
    assert!(lines[3].contains("Receiving objects:   1%"));
    assert!(lines[4].contains("Receiving objects:  45%"));
    assert!(lines[5].contains("Receiving objects: 100%"));
    assert_eq!(lines[6], "Resolving deltas: 100% (2685/2685), done.");
}

#[test]
fn lines_do_not_depend_on_how_bytes_arrive() {
    let data = "进度 1%\r进度 2%\r\n尾".as_bytes();
    let mut splitter = LineSplitter::new();
    let mut lines = Vec::new();
    for byte in data {
        lines.extend(words(splitter.feed(&[*byte])));
    }
    lines.extend(words(splitter.finish()));
    assert_eq!(lines, vec!["进度 1%", "进度 2%", "尾"]);
    assert_eq!(collect(data), lines);
}

#[test]
fn bytes_that_are_no_text_stay_bytes() {
    let lines = read_all_lines(&[0xff, 0xfe, b'\n', b'a']);
    assert!(matches!(&lines[0], Line::Raw(bytes) if bytes == &vec![0xff, 0xfe]));
    assert!(matches!(&lines[1], Line::Text(text) if text == "a"));
}

#[test]
fn only_the_last_lines_are_kept() {
    let mut tail = Vec::new();
    for i in 0..STDERR_TAIL_MAX_LINES + 5 {
        keep_line(&mut tail, &format!("{i}"));
    }
    assert_eq!(tail.len(), STDERR_TAIL_MAX_LINES);
    assert_eq!(tail[0], "5");
    let mut long: Vec<String> = (0..60).map(|i| format!("{i}")).collect();
    keep_line(&mut long, "end");
    assert_eq!(long.len(), STDERR_TAIL_MAX_LINES);
    assert_eq!((long[0].as_str(), long[39].as_str()), ("21", "end"));
}

#[test]
fn failures_are_described() {
    let io = StreamFailure::io("boom".to_string());
    assert_eq!(io.message(), "boom");
    let timed = StreamFailure { timed_out: true, ..Default::default() };
    assert_eq!(timed.message(), "命令执行超时已被强制终止（见日志）");
    let code = StreamFailure {
        exit_code: Some(-1),
        stdout_tail: vec!["why".to_string()],
        stderr_tail: vec!["dsh: pnpm failed in profile".to_string()],
        ..Default::default()
    };
    assert_eq!(code.message(), "命令退出码: -1；why");
    assert_eq!(code.detail(), "命令退出码 -1\n  why");
    assert_eq!(code.diagnostics(), "why");
    assert!(is_dsh_trailer(" dsh: initialized profile web"));
}

#[test]
fn a_finished_command_is_judged_by_its_exit() {
    let mut watch = Watch::new();
    assert!(matches!(watch.step(Poll::Running, 0), WatchStep::AskIn(_)));
    let exit = Exit { success: false, code: Some(3) };
    assert_eq!(watch.step(Poll::Exited(exit), 10), WatchStep::Over);
    let failure = watch.outcome(vec![], vec!["bad".to_string()]).err().unwrap();
    assert_eq!(failure.exit_code, Some(3));
    assert_eq!(failure.stderr_tail, vec!["bad"]);
    let mut watch = Watch::new();
    watch.step(Poll::Exited(Exit { success: true, code: Some(0) }), 10);
    assert!(watch.outcome(vec![], vec![]).is_ok());
}

#[test]
fn a_command_that_runs_too_long_is_killed() {
    let mut watch = Watch::new();
    assert_eq!(watch.step(Poll::Running, STREAMED_MAX_DURATION + 1), WatchStep::Kill);
    watch.step(Poll::Exited(Exit { success: true, code: Some(0) }), STREAMED_MAX_DURATION + 2);
    assert!(watch.outcome(vec![], vec![]).err().unwrap().timed_out);
    let mut watch = Watch::new();
    assert_eq!(watch.step(Poll::Failed("gone".to_string()), 5), WatchStep::Over);
    let failure = watch.outcome(vec![], vec![]).err().unwrap();
    assert_eq!(failure.message(), "等待命令退出失败: gone");
}

#[test]
fn timed_commands() {
    let mut run = TimedRun::new(2);
    assert_eq!(run.step(Look { exited: false, elapsed: 10 }), TimedStep::Sleep);
    assert_eq!(run.step(Look { exited: false, elapsed: 2001 }), TimedStep::Kill);
    assert_eq!(run.step(Look { exited: true, elapsed: 2002 }), TimedStep::TimedOut);
    let mut run = TimedRun::new(2);
    assert_eq!(run.step(Look { exited: true, elapsed: 10 }), TimedStep::Collect);
    let mut run = TimedRun::new(2);
    run.step(Look { exited: false, elapsed: 2001 });
    let late = 2001 + KILL_WAIT + 1;
    assert_eq!(run.step(Look { exited: false, elapsed: late }), TimedStep::TimedOut);
    assert_eq!(timeout_message(120, 9), "命令执行超过 120s 被强制终止（pid=9）");
}
