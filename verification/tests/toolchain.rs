use dsh_launcher::toolchain::{
    batch_order, batch_result, batch_skip, choose_npm, content_length, detect_all, detect_git,
    download_message, download_percent, download_script, download_start, fallback_file, find_uninstall_entry,
    git_install_script, git_installer_url, git_result, git_uninstall_script, installable,
    length_script, needs_install, node_archive, node_directory, node_message, node_url,
    parse_stdout, pick_node_dir, pick_uninstaller, plan_removal, ps_escape,
    python_install_script, python_installer, python_installer_url, python_result,
    python_uninstall_script, python_wait, removable, removal_result, split_uninstall_cmd,
    uninstall_entry_matches, unzip_script, Download, DownloadNote, NpmChoice, Tool,
    UninstallEntry, Versions,
};

#[test]
fn test_git_match_precise() {
    assert!(uninstall_entry_matches("Git", "git"));
    assert!(uninstall_entry_matches("Git for Windows 2.47.1", "git"));
    assert!(!uninstall_entry_matches("GitHub Desktop", "git"));
    assert!(!uninstall_entry_matches("GitHub CLI", "git"));
    assert!(!uninstall_entry_matches("GitHub", "git"));
}

#[test]
fn test_python_match_main_item_only() {
    assert!(uninstall_entry_matches("Python 3.14.0 (64-bit)", "python"));
    assert!(uninstall_entry_matches("Python 3.9.13 (32-bit)", "python"));
    assert!(!uninstall_entry_matches("Python 3.14.0 Core Interpreter (64-bit)", "python"));
    assert!(!uninstall_entry_matches("Python 3.14.0 Executables (64-bit)", "python"));
    assert!(!uninstall_entry_matches("Python 3.14.0 pip Bootstrap (64-bit)", "python"));
    assert!(!uninstall_entry_matches("Python 3.14.0 Standard Library (64-bit)", "python"));
    assert!(!uninstall_entry_matches("Python 3.14.0 Development Libraries (64-bit)", "python"));
    assert!(!uninstall_entry_matches("Python 3.14.0 Add to Path (64-bit)", "python"));
    assert!(!uninstall_entry_matches("PyCharm Community Edition", "python"));
}

#[test]
fn test_split_uninstall_cmd() {
    let raw1 = r#""C:\Program Files\Git\unins000.exe""#;
    let (exe, args) = split_uninstall_cmd(raw1);
    assert_eq!(exe, "C:\\Program Files\\Git\\unins000.exe");
    assert!(args.is_empty());
    let raw2 = r#""C:\Users\a\AppData\Local\Package Cache\{abc}\python-3.14.0-amd64.exe"  /uninstall"#;
    let (exe2, args2) = split_uninstall_cmd(raw2);
    assert!(exe2.contains("python-3.14.0-amd64.exe"));
    assert_eq!(args2, vec!["/uninstall"]);
    let (exe3, args3) =
        split_uninstall_cmd("MsiExec.exe /X{0788B172-EA4C-4BB2-B6DE-CF425BDFA8A7}");
    assert_eq!(exe3, "MsiExec.exe");
    assert_eq!(args3, vec!["/X{0788B172-EA4C-4BB2-B6DE-CF425BDFA8A7}"]);
    let (exe4, args4) = split_uninstall_cmd("C:\\unins000.exe");
    assert_eq!(exe4, "C:\\unins000.exe");
    assert!(args4.is_empty());
}

#[test]
fn test_split_uninstall_cmd_real_registry_values() {
    let git_raw = r#""C:\Program Files\Git\unins000.exe""#;
    let (exe, args) = split_uninstall_cmd(git_raw);
    assert_eq!(
        exe, "C:\\Program Files\\Git\\unins000.exe",
        "Git 卸载器路径必须完整（含空格），当前: {exe:?}"
    );
    assert!(args.is_empty(), "Git 无参数: {args:?}");
    let broken_input = "C:\\Program Files\\Git\\unins000.exe";
    let (exe_bad, _) = split_uninstall_cmd(broken_input);
    assert_eq!(exe_bad, "C:\\Program", "旧路径会截断（演示 bug）");

    let py_raw = r#""C:\Users\Administrator\AppData\Local\Package Cache\{a9c48b80-2c48-47ac-8c9e-32a1b0ec69e5}\python-3.14.0-amd64.exe"  /uninstall"#;
    let (py_exe, py_args) = split_uninstall_cmd(py_raw);
    assert!(py_exe.contains("python-3.14.0-amd64.exe"), "Python 卸载器路径完整: {py_exe:?}");
    assert_eq!(py_args, vec!["/uninstall"], "Python 卸载参数: {py_args:?}");
    let old_bug_input = py_raw.trim_matches('"');
    let (exe_bad2, _) = split_uninstall_cmd(old_bug_input);
    assert_ne!(
        exe_bad2, py_exe,
        "旧 bug 会截断 Python 卸载器路径: {exe_bad2:?} vs 正确 {py_exe:?}"
    );
}

#[test]
fn test_download_percent() {
    assert_eq!(download_percent(0, 100), 0);
    assert_eq!(download_percent(50, 100), 50);
    assert_eq!(download_percent(99, 100), 99);
    assert_eq!(download_percent(100, 100), 99);
    assert_eq!(download_percent(1000, 1000), 99);
    assert_eq!(download_percent(1500, 1000), 99);
    assert_eq!(download_percent(500, 0), 0);
    assert_eq!(download_percent(14_380_888, 28_761_776), 50);
}

#[test]
fn percentages_are_those_of_doubles() {
    assert_eq!(download_percent(29, 100), 28);
    assert_eq!(download_percent(57, 100), 56);
    assert_eq!(download_percent(58, 100), 57);
    assert_eq!(download_percent(1, u64::MAX), 0);
    assert_eq!(download_percent(u64::MAX - 1, u64::MAX), 99);
    assert_eq!(download_percent(u64::MAX, 1), 99);
    let same = |len: u64, total: u64| {
        let expected = ((len as f64 / total as f64) * 100.0).min(99.0) as i32;
        assert_eq!(download_percent(len, total), expected, "{len} / {total}");
    };
    for total in 1..=300 {
        for len in 0..=total + 3 {
            same(len, total);
        }
    }
    let mut seed: u64 = 0x9e37_79b9_7f4a_7c15;
    for _ in 0..20_000 {
        let mut next = || {
            seed ^= seed << 13;
            seed ^= seed >> 7;
            seed ^= seed << 17;
            seed
        };
        let (a, b) = (next(), next());
        let total = (b >> (a % 64)).max(1);
        same(a % total, total);
        let part = total / 100 * (b % 101);
        same(part, total);
        same(part.saturating_add(1), total);
    }
}

#[test]
fn addresses_and_file_names() {
    assert_eq!(node_directory(), "node-v22.19.0-win-x64");
    assert_eq!(node_archive(), "node-v22.19.0-win-x64.zip");
    assert_eq!(node_url(""), "https://nodejs.org/dist/v22.19.0/node-v22.19.0-win-x64.zip");
    assert_eq!(node_url("https://m//"), "https://m/v22.19.0/node-v22.19.0-win-x64.zip");
    assert_eq!(
        git_installer_url(""),
        "https://github.com/git-for-windows/git/releases/download/v2.47.1.windows.1/Git-2.47.1-64-bit.exe"
    );
    assert_eq!(python_installer(), "python-3.13.9-amd64.exe");
    assert_eq!(
        python_installer_url(),
        "https://www.python.org/ftp/python/3.13.9/python-3.13.9-amd64.exe"
    );
}

#[test]
fn scripts_quote_their_arguments() {
    assert_eq!(ps_escape("a'b"), "a''b");
    assert_eq!(
        download_script("u'", "d"),
        "Invoke-WebRequest -Uri 'u''' -OutFile 'd' -UseBasicParsing"
    );
    assert!(length_script("u").contains("-Uri 'u'"));
    assert_eq!(unzip_script("z", "d"), "Expand-Archive -Path 'z' -DestinationPath 'd' -Force");
    assert!(git_install_script("i'").contains("'i'''"));
    assert!(python_install_script("i").ends_with("-Verb RunAs -Wait"));
    assert_eq!(
        git_uninstall_script("\"C:\\Program Files\\u.exe\""),
        "Start-Process -FilePath 'C:\\Program Files\\u.exe' -ArgumentList '/VERYSILENT','/NORESTART' -Verb RunAs -Wait"
    );
    assert_eq!(
        python_uninstall_script("u.exe"),
        "Start-Process -FilePath 'u.exe' -Verb RunAs -Wait"
    );
}

#[test]
fn downloads_are_followed() {
    assert_eq!(content_length(true, " 1024 \r\n"), 1024);
    assert_eq!(content_length(false, "1024"), 0);
    assert_eq!(content_length(true, "x"), 0);
    let mut download = Download::new(1000);
    assert_eq!(download.poll(500), DownloadNote::Percent(50));
    assert_eq!(download.poll(501), DownloadNote::Nothing);
    assert_eq!(download_start("Node", 1_048_576, "1.0"), "Node 下载中…（共 1.0 MB）");
    assert_eq!(download_start("Node", 0, "0.0"), "Node 下载中…");
    assert_eq!(
        download_message(DownloadNote::Percent(50), "Node", "0.5", "1.0"),
        "Node 下载中… 0.5 MB / 1.0 MB (50%)"
    );
    assert_eq!(
        download_message(DownloadNote::Complete, "Node", "1.0", "1.0"),
        "Node 下载完成（1.0 MB）"
    );
}

#[test]
fn own_uninstallers_are_preferred() {
    let entry = |name: &str, command: &str| UninstallEntry {
        display_name: Some(name.to_string()),
        uninstall: Some(command.to_string()),
    };
    let entries = vec![
        entry("Python 3.14.0 (64-bit)", "MsiExec.exe /X{1}"),
        entry("Python 3.14.0 (64-bit)", "\"C:\\p.exe\"  /uninstall"),
    ];
    assert_eq!(
        find_uninstall_entry(&entries, "python").as_deref(),
        Some("\"C:\\p.exe\"  /uninstall")
    );
    assert!(find_uninstall_entry(&entries, "git").is_none());
    assert_eq!(pick_uninstaller(&vec![true, false]), Some(1));
    assert_eq!(pick_uninstaller(&vec![true, true]), Some(0));
    assert_eq!(pick_uninstaller(&vec![]), None);
}

#[test]
fn results_are_told() {
    assert!(plan_removal(Tool::Git, None).unwrap_err().contains("Git"));
    assert!(plan_removal(Tool::Git, Some("u.exe")).unwrap().contains("u.exe"));
    assert_eq!(
        removal_result(Tool::Python, false, " no ").unwrap_err(),
        "Python 卸载启动失败: no"
    );
    assert!(removal_result(Tool::Git, true, "").is_ok());
    assert_eq!(python_wait(3, true).unwrap().0, 90);
    assert!(python_result(true, "", true).is_ok());
    assert_eq!(python_result(false, "e", true).unwrap_err(), "Python 安装启动失败: e");
    assert!(python_result(true, "", false).unwrap_err().contains("UAC"));
    assert_eq!(
        node_message("C:\\n"),
        "Node v22.19.0 已安装到 C:\\n（已加入用户 PATH，重启终端后全局可用）"
    );
    assert!(git_result(true, "", "i.exe").unwrap().ends_with("i.exe"));
    assert_eq!(git_result(false, " e ", "i").unwrap_err(), "Git 安装启动失败: e");
    assert_eq!(choose_npm(true, true).unwrap(), NpmChoice::OnPath);
    assert_eq!(choose_npm(false, true).unwrap(), NpmChoice::WithNode);
    assert!(choose_npm(false, false).is_err());
    assert_eq!(
        pick_node_dir(&vec!["x".to_string(), "node-v22".to_string()]).unwrap(),
        1
    );
    assert_eq!(pick_node_dir(&vec![]).unwrap_err(), "解压后未找到 node 目录");
}

#[test]
fn tools_are_detected() {
    assert_eq!(parse_stdout(" v22.19.0 \r\n").as_deref(), Some("v22.19.0"));
    assert!(parse_stdout("  ").is_none());
    assert_eq!(detect_git(None).state, "missing");
    let items = detect_all(Versions {
        node: Some("v22".to_string()),
        npm: None,
        pnpm: None,
        git: None,
        python: None,
    });
    assert_eq!(items.len(), 5);
    assert!(!needs_install(&items, Tool::Node));
    assert!(needs_install(&items, Tool::Git));
    assert_eq!(fallback_file(Tool::Npm), "npm.cmd");
    assert_eq!(fallback_file(Tool::Node), "node.exe");
}

#[test]
fn tools_are_installed_in_order() {
    assert_eq!(installable("git").unwrap(), Tool::Git);
    assert_eq!(installable("npm").unwrap_err(), "不支持的工具链: npm");
    assert!(removable("npm").unwrap_err().contains("Node"));
    assert_eq!(removable("x").unwrap_err(), "不支持的工具链: x");
    let order = batch_order();
    assert_eq!(order[0], Tool::Node);
    let done = batch_result(Tool::Git, Err("no".to_string()));
    assert!(!done.ok);
    assert_eq!(done.name, "git");
    assert_eq!(done.message, "no");
    assert_eq!(batch_skip(Tool::Node).message, "已就绪，跳过");
}
