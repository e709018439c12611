use dsh_launcher::config::{
    current_npm_registry, decrypt_token, encrypt_token, hex_decode, hex_encode, inspect_config,
    kept_token, load_checked, token_to_keep, AppConfig, ConfigView, KeptToken, LoadIssue,
    DEFAULT_PORT,
};
use dsh_launcher::events::{progress, InstallPhase};
use dsh_launcher::github::DshProbe;
use dsh_launcher::paths::{
    backup_dir, backups_root, config_path, dsh_output_path, dsh_stderr_path, git_installer_path,
    github_clone_dir, github_dsh_dir, join, logs_dir, node_dir, toolchain_dir,
};
use dsh_launcher::process::DshStatus;
use dsh_launcher::version::{
    install_npm_version, install_paths, installed_from_command, installed_from_sources,
    list_github_versions, list_npm_versions, may_ask_version, npm_install_args, npm_progress,
    npm_uninstall_args, npm_versions, npm_view_args, plan_home, plan_switch, source_version,
    Channel, HomeStep,
};
use dsh_launcher::window::{
    choose_web_url, hides_when_minimized, icon_planes, keep_waiting, new_window, parse_menu,
    plan_close, shortcut_result, shortcut_script, start_message, stops_on_quit,
    unique_window_suffix, window_label, CloseStep, MenuChoice, NewWindow,
};

#[test]
fn tokens_are_kept_sealed() {
    assert_eq!(hex_encode(&[0, 10, 255]), "000aff");
    assert_eq!(hex_decode("000AFF"), Some(vec![0, 10, 255]));
    assert_eq!(hex_decode("0"), None);
    assert_eq!(hex_decode("0g"), None);
    assert_eq!(encrypt_token(&[1, 2]), "dpapi1:0102");
    assert_eq!(decrypt_token("dpapi1:0102"), Some(vec![1, 2]));
    assert_eq!(decrypt_token("0102"), None);
    assert_eq!(token_to_keep("t", Some(&[1])).unwrap(), "dpapi1:01");
    assert!(token_to_keep("t", None).is_err());
    assert_eq!(token_to_keep("", None).unwrap(), "");
}

#[test]
fn kept_tokens_are_loaded_again() {
    for token in ["a-token", "令牌", ""] {
        let cipher: Vec<u8> = token.bytes().map(|b| b ^ 0x5a).collect();
        let kept = token_to_keep(token, Some(&cipher)).unwrap();
        assert_eq!(kept.starts_with("dpapi1:"), !token.is_empty());
        assert!(token.is_empty() || !kept.contains(token));
        let form = kept_token(Some(&kept));
        let opened: Option<Vec<u8>> = match &form {
            KeptToken::Sealed(c) => Some(c.iter().map(|b| b ^ 0x5a).collect()),
            _ => None,
        };
        let parsed = AppConfig { github_token: kept, ..Default::default() };
        let (config, issue) = load_checked(form, Ok(parsed), opened.as_deref());
        assert_eq!(config.github_token, token);
        assert!(issue.is_none());
    }
}

#[test]
fn configurations_are_loaded() {
    assert!(matches!(inspect_config("{"), Err(LoadIssue::ParseFailed(_))));
    assert!(matches!(inspect_config(r#"{"github_token":"plain"}"#), Ok(KeptToken::Plain)));
    match inspect_config(r#"{"github_token":"dpapi1:0102"}"#) {
        Ok(KeptToken::Sealed(cipher)) => assert_eq!(cipher, vec![1, 2]),
        _ => panic!("sealed token expected"),
    }
    assert!(matches!(kept_token(Some("dpapi1:zz")), KeptToken::Damaged));
    let parsed = AppConfig { github_token: "dpapi1:6869".to_string(), ..Default::default() };
    let (config, issue) =
        load_checked(KeptToken::Sealed(vec![0x68, 0x69]), Ok(parsed), Some(b"hi"));
    assert_eq!(config.github_token, "hi");
    assert!(issue.is_none());
    let parsed = AppConfig { github_token: "dpapi1:6869".to_string(), ..Default::default() };
    let (config, issue) = load_checked(KeptToken::Sealed(vec![0x68, 0x69]), Ok(parsed), None);
    assert_eq!(config.github_token, "");
    assert!(matches!(issue, Some(LoadIssue::TokenDecryptFailed)));
    let (config, issue) = load_checked(KeptToken::Plain, Err("bad".to_string()), None);
    assert_eq!(config.port, DEFAULT_PORT);
    assert!(issue.unwrap().message().contains("bad"));
}

#[test]
fn settings_are_changed() {
    let mut config = AppConfig::default();
    assert!(config.set_port(0).is_err());
    assert!(config.set_port(4000).is_ok());
    assert_eq!(config.port, 4000);
    config.set_mirrors(" https://r ".to_string(), "g".to_string(), "n".to_string());
    assert_eq!(config.npm_registry_url().as_deref(), Some("https://r"));
    assert_eq!(current_npm_registry(&config).as_deref(), Some("https://r"));
    config.set_github_token("t");
    assert_eq!(config.github_token, "t");
    config.set_editor(" code ", true);
    config.set_switches(true, false, true, false, true, false, true);
    assert!(config.close_exits && !config.minimize_to_tray && config.auto_sync_plugins);
    let view = ConfigView::from(config);
    assert!(view.github_token_set);
    assert_eq!(view.port, 4000);
    assert!(current_npm_registry(&AppConfig::default()).is_none());
}

#[test]
fn paths_are_joined() {
    let local = Some("C:\\L");
    assert_eq!(join("C:\\a", "b"), "C:\\a\\b");
    assert_eq!(github_dsh_dir(local), "C:\\L\\dsh-launcher\\github-dsh");
    assert_eq!(github_clone_dir(local), "C:\\L\\dsh-launcher\\github-dsh\\deepseek-harness");
    assert_eq!(toolchain_dir(local), "C:\\L\\dsh-launcher\\toolchain");
    assert_eq!(node_dir(local), "C:\\L\\dsh-launcher\\toolchain\\node");
    assert!(config_path(Some("C:\\R")).starts_with("C:\\R\\"));
    assert!(git_installer_path(local).ends_with("Git-2.47.1-64-bit.exe"));
    assert!(dsh_output_path(local, true).starts_with(&logs_dir(local)));
    assert_ne!(dsh_output_path(local, true), dsh_stderr_path(local));
    assert!(backup_dir(local, "web", "20260902").starts_with(&backups_root(local)));
    assert!(github_dsh_dir(None).starts_with('.'));
}

#[test]
fn versions_are_listed_newest_first() {
    let listed = vec!["0.9.0".to_string(), "0.10.0".to_string()];
    let versions = npm_versions(Some(listed));
    assert_eq!(versions[0].version, "0.10.0");
    assert_eq!(versions[0].channel, Channel::Npm);
    assert!(npm_versions(None).is_empty());
    let versions = list_npm_versions(true, r#"["0.1.0","0.2.0"]"#, "").ok().unwrap();
    assert_eq!(versions[0].version, "0.2.0");
    assert_eq!(
        list_npm_versions(false, "", "why").err().unwrap(),
        "查询 npm 版本失败: why"
    );
    let tags = list_github_versions(true, "a\trefs/tags/v1\n", "", 0).ok().unwrap();
    assert_eq!(tags[0].channel, Channel::Github);
    assert!(list_github_versions(false, "", "e", 1).is_err());
}

#[test]
fn commands_for_npm() {
    assert_eq!(npm_view_args(None), vec!["view", "@deepseek-ai/dsh", "versions", "--json"]);
    assert_eq!(
        npm_install_args("1.0.0", Some("https://r")),
        vec!["install", "-g", "@deepseek-ai/dsh@1.0.0", "--registry", "https://r"]
    );
    assert_eq!(npm_uninstall_args(), vec!["uninstall", "-g", "@deepseek-ai/dsh"]);
    assert!(npm_progress(50, "added 1 package").is_some());
    assert!(install_npm_version("1.0.0", Ok(())).is_ok());
    assert!(install_npm_version("1.0.0", Err("x".to_string())).unwrap_err().contains('x'));
}

#[test]
fn the_installed_version_is_told() {
    assert_eq!(source_version(Some("1.0")), "github:1.0");
    assert_eq!(source_version(None), "github:已安装");
    assert_eq!(installed_from_sources(Some(r#"{"version":"2.0"}"#)), "github:2.0");
    assert_eq!(installed_from_sources(None), "github:已安装");
    assert_eq!(installed_from_command(true, " 1.2 \n").as_deref(), Some("npm:1.2"));
    assert!(installed_from_command(false, "1.2").is_none());
    assert!(!may_ask_version(DshProbe::Missing));
    assert!(may_ask_version(DshProbe::Foreign));
    let switch = plan_switch("npm").ok().unwrap();
    assert_eq!(switch.install, Channel::Npm);
    assert_eq!(switch.remove, Channel::Github);
    assert_eq!(plan_switch("x").err().unwrap(), "未知通道: x");
    assert_eq!(plan_home(true, true, true, true), HomeStep::Keep);
    assert_eq!(plan_home(false, false, false, false), HomeStep::Absent);
    assert_eq!(plan_home(false, true, false, false), HomeStep::Unrecognised);
    assert_eq!(plan_home(false, true, true, false), HomeStep::Remove);
    let paths = install_paths("C:\\g".to_string(), true, "C:\\npm".to_string());
    assert!(paths.npm_global_dir.starts_with("C:\\npm"));
    let payload = progress("npm", InstallPhase::Done, 100, "ok".to_string());
    assert_eq!(payload.phase, InstallPhase::Done.as_str());
    assert_eq!(payload.percent, 100);
}

#[test]
fn windows_have_names_of_their_own() {
    assert_eq!(unique_window_suffix(0x1_0000_00ff, 10), "ff-a");
    assert_eq!(window_label(255, 1), "dsh-web-gui-ff-1");
    assert_ne!(window_label(255, 1), window_label(255, 2));
    assert_eq!(new_window(Some("LOCALHOST")), NewWindow::Allow);
    assert_eq!(new_window(Some("example.com")), NewWindow::OpenOutside);
}

#[test]
fn icons_are_turned_over() {
    let (colours, mask) = icon_planes(&[1, 2, 3, 4, 5, 6, 7, 0]);
    assert_eq!(colours, vec![3, 2, 1, 4, 7, 6, 5, 0]);
    assert_eq!(mask.len(), 2);
}

#[test]
fn the_window_follows_the_service() {
    assert!(!keep_waiting(true, DshStatus::Starting, false));
    assert!(keep_waiting(false, DshStatus::Starting, false));
    assert!(!keep_waiting(false, DshStatus::Starting, true));
    assert_eq!(start_message(3080, true), "dsh 已启动并就绪，端口 3080");
    assert_eq!(start_message(3080, false), "dsh 已启动（端口 3080 等待就绪中…）");
    assert_eq!(choose_web_url("a", Some("b")), "a");
    assert_eq!(choose_web_url("", Some("b")), "b");
    assert_eq!(choose_web_url("", None), "");
}

#[test]
fn shortcuts_and_menus() {
    assert!(shortcut_script("C:\\it's.lnk", "p.exe").contains("'C:\\it''s.lnk'"));
    assert!(shortcut_result(true, "", true, "l").unwrap().ends_with('l'));
    assert_eq!(shortcut_result(false, " e ", true, "l").unwrap_err(), "创建快捷方式失败: e");
    assert_eq!(
        shortcut_result(true, "", false, "l").unwrap_err(),
        "创建快捷方式失败（文件未生成）"
    );
    assert_eq!(parse_menu("restart"), Some(MenuChoice::Restart));
    assert_eq!(parse_menu("x"), None);
    assert_eq!(plan_close(false, true), CloseStep::Close);
    assert_eq!(plan_close(true, true), CloseStep::StopAndExit);
    assert_eq!(plan_close(true, false), CloseStep::Hide);
    assert!(hides_when_minimized(true, true, true));
    assert!(!hides_when_minimized(true, false, true));
    assert!(stops_on_quit(false));
    assert!(!stops_on_quit(true));
}
