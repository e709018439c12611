use dsh_launcher::events::InstallPhase;
use dsh_launcher::github::{
    distinct_paths, extract_shim_target_dir, git_auth_header, git_clone_args, git_on_path,
    github_installed, line_progress, list_releases, ls_remote_ref, npm_prefix, own_repo_url,
    parse_git_percent, parse_remote_ref, parse_tags_from_ls_remote, pick_git, resolve_dsh,
    resolve_repo_url, select_usable_shim, shim_content, shim_content_is_ours, shims_to_remove,
    stage_phase, stale_owned_shim, wanted_reference, DshProbe, ShimSweep, SourceAction,
    SourceInstall, SourceStage,
};
use dsh_launcher::semver::{
    cmp_semver_asc, cmp_semver_desc, parse_semver_parts, rank_versions, sort_newest_first, Rank,
};

const BROKEN_OWNED: &str = "@echo off\r\ncd /d \"C:\\Users\\A\\Local\\dsh-launcher\\github-dsh\\deepseek-harness\"\r\npnpm dsh %*\r\n";
const NPM: &str = "@ECHO off\r\nSETLOCAL\r\nCALL \"...node_modules\\@deepseek-ai\\dsh\\bin\\dsh.cmd\" %*\r\n";

#[test]
fn test_parse_git_percent() {
    assert_eq!(parse_git_percent("Receiving objects:  45% (45/100)"), Some(45));
    assert_eq!(parse_git_percent("Receiving objects: 100% (100/100)"), Some(100));
    assert_eq!(parse_git_percent("Receiving objects: 12%, 3.4 MiB | 1.2 MiB/s"), Some(12));
    assert_eq!(parse_git_percent("Cloning into 'foo'..."), None);
    assert_eq!(parse_git_percent("remote: Enumerating objects: 5"), None);
    assert_eq!(parse_git_percent("Receiving objects: 105%"), Some(100));
}

#[test]
fn test_parse_tags_from_ls_remote() {
    let sample = r#"
cd5ef8148158c3a752a658978873241fdf8e2bbc	refs/tags/dsh-v0.1.2-alpha.1
cd5ef8148158c3a752a658978873241fdf8e2bbc	refs/tags/dsh-v0.1.2-alpha.1^{}
528c682e061696f5a160f363f236ecbf53cbd006	refs/tags/dsh-v0.1.1-rc.1
b150a551b8d465e31e418e1b2eaf5e79bbb7d28e	refs/tags/dsh-v0.1.1-rc.2
141eb6fef83422698aef7a981029e843e8161534	refs/tags/dsh-v0.1.0-rc.8
"#;
    let tags = parse_tags_from_ls_remote(sample);
    assert_eq!(tags.len(), 4, "应得到 4 个去重 tag: {tags:?}");
    assert!(tags.contains(&"dsh-v0.1.2-alpha.1".to_string()));
    assert!(tags.contains(&"dsh-v0.1.1-rc.1".to_string()));
    assert!(tags.contains(&"dsh-v0.1.1-rc.2".to_string()));
    assert!(tags.contains(&"dsh-v0.1.0-rc.8".to_string()));
    let idx_12 = tags.iter().position(|t| t == "dsh-v0.1.2-alpha.1").unwrap();
    let idx_10 = tags.iter().position(|t| t == "dsh-v0.1.0-rc.8").unwrap();
    assert!(idx_12 < idx_10, "降序排列: {tags:?}");
    assert!(parse_tags_from_ls_remote("").is_empty());
    assert!(parse_tags_from_ls_remote("abc123	HEAD\n").is_empty());
}

#[test]
fn test_tag_sort_semver_numeric() {
    let sample = "\
a\trefs/tags/dsh-v0.1.1-rc.9
b\trefs/tags/dsh-v0.1.1-rc.10
c\trefs/tags/dsh-v0.10.0
d\trefs/tags/dsh-v0.9.0
e\trefs/tags/dsh-v0.1.2-alpha.1
f\trefs/tags/dsh-v0.1.1-rc.2
";
    let tags = parse_tags_from_ls_remote(sample);
    let expect = [
        "dsh-v0.10.0",
        "dsh-v0.9.0",
        "dsh-v0.1.2-alpha.1",
        "dsh-v0.1.1-rc.10",
        "dsh-v0.1.1-rc.9",
        "dsh-v0.1.1-rc.2",
    ];
    assert_eq!(tags, expect, "semver 降序应正确: {tags:?}");
}

#[test]
fn test_cmp_semver_desc_npm_channel_order() {
    let mut versions = vec![
        "0.1.1-rc.9",
        "0.1.1-rc.10",
        "0.10.0",
        "0.9.0",
        "0.1.2-alpha.1",
        "0.1.1-rc.2",
    ];
    versions.sort_by(|a, b| cmp_semver_desc(a, b));
    assert_eq!(
        versions,
        vec!["0.10.0", "0.9.0", "0.1.2-alpha.1", "0.1.1-rc.10", "0.1.1-rc.9", "0.1.1-rc.2"],
        "npm 通道同一套 semver 降序规则（与 GitHub tags 一致）"
    );
    assert!(cmp_semver_desc("0.2.0", "0.2.0-rc.1").is_lt());
    assert!(cmp_semver_desc("0.1.1-rc.2", "0.1.1-alpha.1").is_lt());
}

#[test]
fn versions_are_ranked() {
    assert_eq!(rank_versions("1.2.3", "1.2.3"), Rank::Same);
    assert_eq!(rank_versions("v1.2.3", "dsh-v1.2.3"), Rank::Same);
    assert_eq!(rank_versions("0.1.1-1", "0.1.1-a"), Rank::Below);
    assert_eq!(rank_versions("0.1.1-a", "0.1.1-1").flipped(), Rank::Below);
    assert!(cmp_semver_asc("0.2.0", "0.2.0-rc.1").is_gt());
    assert!(cmp_semver_asc("0.2.0", "0.2.0").is_eq());
    let (core, pre) = parse_semver_parts("dsh-v1.x.3-rc.2+build");
    assert_eq!(core, vec![1, 0, 3]);
    assert_eq!(pre.len(), 2);
    let list = vec!["0.9.0".to_string(), "0.10.0".to_string()];
    assert_eq!(sort_newest_first(&list), vec!["0.10.0", "0.9.0"]);
}

#[test]
fn test_shim_content_is_ours() {
    let ours = r#"@echo off
cd /d "C:\Users\Administrator\AppData\Local\dsh-launcher\github-dsh\deepseek-harness"
pnpm dsh %*
"#;
    assert!(shim_content_is_ours(ours), "本启动器 GitHub shim 应被识别");
    let npm_shim = r#"@ECHO off
SETLOCAL
CALL "C:\Users\Administrator\AppData\Local\dsh-launcher\toolchain\node\node_modules\@deepseek-ai\dsh\bin\dsh.cmd" %*
"#;
    assert!(!shim_content_is_ours(npm_shim), "npm 全局 shim 不应误判为本启动器 shim");
    assert!(!shim_content_is_ours(""));
    assert!(!shim_content_is_ours("echo dsh"));
}

#[test]
fn test_extract_shim_target_dir() {
    let ours = "@echo off\r\ncd /d \"C:\\Users\\Administrator\\AppData\\Local\\dsh-launcher\\github-dsh\\deepseek-harness\"\r\npnpm dsh %*\r\n";
    let dir = extract_shim_target_dir(ours).expect("应提取到安装目录");
    assert_eq!(
        dir,
        "C:\\Users\\Administrator\\AppData\\Local\\dsh-launcher\\github-dsh\\deepseek-harness"
    );
    assert!(extract_shim_target_dir("@echo off\r\npnpm dsh %*\r\n").is_none());
    assert!(extract_shim_target_dir("").is_none());
    let npm_shim = "@ECHO off\r\nSETLOCAL\r\nCALL \"...node_modules\\@deepseek-ai\\dsh\\bin\\dsh.cmd\" %*\r\n";
    assert!(extract_shim_target_dir(npm_shim).is_none());
}

#[test]
fn test_select_usable_shim_skips_stale_owned_shim() {
    let (kind, idx) = select_usable_shim(&[(true, BROKEN_OWNED, false), (true, NPM, false)]);
    assert_eq!(kind, DshProbe::Foreign, "应选中 npm shim 而非被陈旧 shim 遮蔽");
    assert_eq!(idx, Some(1));

    let (kind, idx) =
        select_usable_shim(&[(true, BROKEN_OWNED, false), (true, BROKEN_OWNED, false)]);
    assert_eq!(kind, DshProbe::OwnedShimBroken);
    assert_eq!(idx, None);

    let (kind, idx) = select_usable_shim(&[(true, BROKEN_OWNED, true), (true, NPM, false)]);
    assert_eq!(kind, DshProbe::OwnedShimOk);
    assert_eq!(idx, Some(0));

    let (kind, idx) = select_usable_shim(&[]);
    assert_eq!(kind, DshProbe::Missing);
    assert_eq!(idx, None);
}

#[test]
fn test_stale_owned_shim_predicate() {
    assert!(!stale_owned_shim(NPM, false));
    assert!(!stale_owned_shim("", false));
    assert!(stale_owned_shim("@echo off\r\nrem github-dsh\r\npnpm dsh %*\r\n", false));
    assert!(stale_owned_shim(BROKEN_OWNED, false));
}

#[test]
fn test_remove_shims_filesystem() {
    let stale = "@echo off\r\ncd /d \"C:\\nonexistent\\dsh-launcher\\github-dsh\\deepseek-harness\"\r\npnpm dsh %*\r\n";
    let valid = shim_content("C:\\t\\github-dsh\\deepseek-harness");
    let removed = shims_to_remove(
        ShimSweep::Stale,
        &[(true, stale, false), (true, NPM, false), (true, valid.as_str(), true)],
    );
    assert_eq!(removed, vec![0], "只应删除指向已失效目录的自家 shim");
    let removed =
        shims_to_remove(ShimSweep::Owned, &[(true, NPM, false), (true, valid.as_str(), true)]);
    assert_eq!(removed, vec![1]);
}

#[test]
fn shims_lead_back_to_their_directory() {
    let dir = "C:\\t\\github-dsh\\deepseek-harness";
    let content = shim_content(dir);
    assert!(shim_content_is_ours(&content));
    assert_eq!(extract_shim_target_dir(&content).as_deref(), Some(dir));
    assert!(!stale_owned_shim(&content, true));
}

#[test]
fn the_command_is_the_first_that_works() {
    let paths = vec!["a\\dsh.cmd".to_string(), "b\\dsh.cmd".to_string()];
    let found = resolve_dsh(&paths, &[(true, BROKEN_OWNED, false), (true, NPM, false)]);
    assert_eq!(found.kind, DshProbe::Foreign);
    assert_eq!(found.shim_path.as_deref(), Some("b\\dsh.cmd"));
    let none = resolve_dsh(&paths, &[(true, BROKEN_OWNED, false), (true, BROKEN_OWNED, false)]);
    assert_eq!(none.kind, DshProbe::OwnedShimBroken);
    assert!(none.shim_path.is_none());
}

#[test]
fn git_is_found() {
    assert_eq!(git_on_path(true, "C:\\Git\\git.exe\r\nD:\\git.exe\r\n").as_deref(), Some("C:\\Git\\git.exe"));
    assert!(git_on_path(false, "C:\\Git\\git.exe").is_none());
    assert!(pick_git(None, [false, false, false]).is_err());
    assert_eq!(pick_git(Some("g".to_string()), [true, true, true]).unwrap(), "g");
    assert!(pick_git(None, [false, true, false]).unwrap().ends_with("git.exe"));
}

#[test]
fn clone_addresses() {
    assert_eq!(own_repo_url(""), "https://github.com/deepseek-ai/deepseek-harness.git");
    assert_eq!(
        resolve_repo_url("https://github.com/o/r.git", "https://m/"),
        "https://m/o/r.git"
    );
    assert_eq!(resolve_repo_url("https://gitlab.com/o/r", "https://m/"), "https://gitlab.com/o/r");
    assert!(git_auth_header("  ").is_none());
    assert!(git_auth_header("t").unwrap().contains('t'));
    let args = git_clone_args("https://github.com/o/r.git", Some("dsh-v1"), "C:\\d", "");
    assert_eq!(args[0], "clone");
    assert!(args.contains(&"dsh-v1".to_string()));
    assert_eq!(args[args.len() - 1], "C:\\d");
    assert_eq!(wanted_reference("  "), "HEAD");
    assert_eq!(wanted_reference("main"), "main");
}

#[test]
fn remote_answers() {
    assert_eq!(parse_remote_ref("abc\tHEAD\nabc1234\tx\n").as_deref(), Some("abc1234"));
    assert!(parse_remote_ref("\n").is_none());
    assert_eq!(ls_remote_ref(true, "abc1234\tHEAD\n", "").unwrap().as_deref(), Some("abc1234"));
    assert!(ls_remote_ref(false, "", "denied").unwrap_err().contains("denied"));
    assert_eq!(list_releases(true, "a\trefs/tags/v1\n", "", 0).unwrap(), vec!["v1"]);
    assert!(list_releases(false, "", "denied", 128).unwrap_err().contains("denied"));
    assert!(github_installed(true, true, true));
    assert!(!github_installed(true, false, true));
    assert_eq!(npm_prefix(true, " C:\\npm \r\n").as_deref(), Some("C:\\npm"));
    assert!(npm_prefix(false, "x").is_none());
    let paths = vec!["A".to_string(), "b".to_string(), "A".to_string()];
    assert_eq!(distinct_paths(&paths), vec!["A", "b"]);
}

#[test]
fn sources_are_installed_step_by_step() {
    let mut run = SourceInstall::begin(
        "dsh-v0.1.2",
        "C:\\d".to_string(),
        String::new(),
        None,
        "web".to_string(),
    )
    .unwrap();
    assert_eq!(run.stage, SourceStage::Prepare);
    let mut seen = Vec::new();
    loop {
        match run.step(Ok(())) {
            SourceAction::Prepare => seen.push("prepare"),
            SourceAction::Git(args) => {
                assert!(args.contains(&"clone".to_string()));
                seen.push("git");
            }
            SourceAction::Pnpm(_) => seen.push("pnpm"),
            SourceAction::Converge(_) => seen.push("converge"),
            SourceAction::WriteShim(content) => {
                assert!(content.contains("C:\\d"));
                seen.push("shim");
            }
            SourceAction::Done(m) => {
                assert!(m.contains("dsh-v0.1.2"), "{m}");
                break;
            }
            SourceAction::Failed(m) => panic!("{m}"),
        }
    }
    assert_eq!(seen, vec!["git", "pnpm", "pnpm", "converge", "shim"]);
    assert!(SourceInstall::begin(
        " ",
        String::new(),
        String::new(),
        None,
        String::new()
    )
    .is_err());
}

#[test]
fn clone_progress_follows_git() {
    assert!(line_progress(SourceStage::Clone, 10, "Receiving objects:  50% (1/2)").is_some());
    assert!(line_progress(SourceStage::Clone, 10, "remote: x").is_none());
    assert_eq!(stage_phase(SourceStage::Clone).0, InstallPhase::Download);
    assert_eq!(stage_phase(SourceStage::Build).0, InstallPhase::Build);
}
