use dsh_launcher::dates::{
    chrono_now, date_to_days, epoch_to_date, is_leap, is_older_than, zero_pad,
};
use dsh_launcher::logging::{
    find_web_url_in_content, is_expired, list_logs, part_name, rotate, LogEntry, LogLevel,
    LogSource, LogState, RotateStep, MAX_FILE_SIZE, MAX_ROTATED,
};

#[test]
fn test_find_web_url_in_content() {
    let content = "[10:00:00] [launcher] [INFO] dsh 已启动\n[10:00:03] [dsh] [INFO] dsh web: http://127.0.0.1:3080/?token=abc123\n[10:00:03] [dsh] [INFO] dsh web: opening the default browser\n";
    assert_eq!(
        find_web_url_in_content(content).as_deref(),
        Some("http://127.0.0.1:3080/?token=abc123")
    );
    let multi = "[10:00:03] [dsh] [INFO] dsh web: http://127.0.0.1:3080/?token=one\n[11:00:03] [dsh] [INFO] dsh web: http://127.0.0.1:3080/?token=two\n";
    assert_eq!(
        find_web_url_in_content(multi).as_deref(),
        Some("http://127.0.0.1:3080/?token=two")
    );
    assert_eq!(find_web_url_in_content("listening on http://127.0.0.1:3080"), None);
    assert_eq!(find_web_url_in_content(""), None);
}

#[test]
fn test_date_to_days() {
    assert_eq!(date_to_days("1970-01-01"), Some(0));
    assert_eq!(date_to_days("1970-01-02"), Some(1));
    let d = date_to_days("2024-01-01").unwrap();
    assert!(d > 19700 && d < 19740, "2024-01-01 = {d}");
}

#[test]
fn test_is_older_than() {
    assert!(is_older_than("2026-07-28", "2026-08-29", 30));
    assert!(!is_older_than("2026-08-01", "2026-08-29", 30));
    assert!(!is_older_than("bad-date", "2026-08-29", 30));
}

/// The files of one day, by part; part 0 is the one being written.
fn turn(files: &mut Vec<Option<String>>) {
    for step in rotate() {
        match step {
            RotateStep::Remove(part) => files[part as usize] = None,
            RotateStep::Rename(from, to) => {
                if let Some(content) = files[from as usize].take() {
                    files[to as usize] = Some(content);
                }
            }
        }
    }
}

#[test]
fn test_rotate_cascades_and_keeps_max() {
    let max = MAX_ROTATED as usize;
    let mut files: Vec<Option<String>> = vec![Some("current".to_string())];
    for i in 1..=max {
        files.push(Some(format!("old{i}")));
    }
    turn(&mut files);
    assert!(files[0].is_none());
    assert_eq!(files[1].as_deref(), Some("current"));
    for i in 2..=max {
        assert_eq!(files[i].clone().unwrap(), format!("old{}", i - 1));
    }
    assert_ne!(files[max].clone().unwrap(), format!("old{MAX_ROTATED}"));
}

#[test]
fn test_rotate_no_existing_backups() {
    let mut files: Vec<Option<String>> = vec![None; MAX_ROTATED as usize + 1];
    files[0] = Some("hello".to_string());
    turn(&mut files);
    assert_eq!(files[1].as_deref(), Some("hello"));
    assert!(files[0].is_none());
    assert_eq!(part_name("2026-09-02", 0), "2026-09-02.log");
    assert_eq!(part_name("2026-09-02", 1), "2026-09-02.log.1");
}

#[test]
fn test_epoch_to_date_roundtrip() {
    let s = epoch_to_date(19723);
    assert!(s.starts_with("2024-"), "19723 天 = {s}");
}

#[test]
fn dates_are_read_back() {
    for days in [0, 58, 59, 60, 11016, 19723, 19782, 47540] {
        assert_eq!(date_to_days(&epoch_to_date(days)), Some(days));
    }
    assert_eq!(epoch_to_date(19723), "2024-01-01");
    assert_eq!(epoch_to_date(19782), "2024-02-29");
    assert_eq!(date_to_days("2024"), None);
    assert!(is_leap(2000) && is_leap(2024) && !is_leap(1900) && !is_leap(2023));
    assert!(is_leap(-4) && is_leap(-400) && !is_leap(-100) && !is_leap(-1));
    assert_eq!(zero_pad(7, 2), "07");
    assert_eq!(zero_pad(2024, 2), "2024");
    assert_eq!(
        chrono_now(86_400 + 3_661),
        ("1970-01-02".to_string(), "01:01:01".to_string())
    );
}

#[test]
fn lines_are_written_to_the_day_file() {
    let mut state = LogState::new();
    let write = state.prepare(
        "2026-09-02".to_string(),
        "10:00:00".to_string(),
        LogSource::Dsh,
        LogLevel::Warn,
        "hello",
    );
    assert_eq!(write.line, "[10:00:00] [dsh] [WARN] hello\n");
    assert!(write.file.contains("2026-09-02"));
    assert!(!write.rotate);
    assert_eq!(write.shown.message, "hello");
    assert_eq!(write.shown.source, "dsh");
    assert_eq!(write.shown.level, "WARN");
    state.written(&write);
    assert_eq!(state.current_size, write.line.len() as u64);
    state.current_size = MAX_FILE_SIZE;
    let next = state.prepare(
        "2026-09-02".to_string(),
        "10:00:01".to_string(),
        LogSource::Launcher,
        LogLevel::Info,
        "x",
    );
    assert!(next.rotate);
    let tomorrow = state.prepare(
        "2026-09-03".to_string(),
        "00:00:01".to_string(),
        LogSource::Launcher,
        LogLevel::Error,
        "x",
    );
    assert!(!tomorrow.rotate);
    assert_eq!(tomorrow.shown.level, "ERROR");
}

#[test]
fn old_logs_expire() {
    assert!(is_expired("2026-07-28.log", false, "2026-08-29"));
    assert!(!is_expired("2026-08-01.log", false, "2026-08-29"));
    assert!(!is_expired("notes.txt", false, "2026-08-29"));
}

#[test]
fn logs_are_listed_latest_first() {
    let entry = |name: &str, modified: u64| LogEntry {
        dir: None,
        name: name.to_string(),
        size: 1,
        modified,
    };
    let files = list_logs(&vec![entry("2026-08-28.log", 5), entry("2026-08-29.log", 9)]);
    assert_eq!(files.len(), 2);
    assert_eq!(files[0].modified, 9);
    assert!(files[0].path.contains("2026-08-29.log"));
}
