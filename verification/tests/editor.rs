use dsh_launcher::editor::{
    check_skill_file, split_command_line, OpenAction, OpenError, OpenRun, OpenTarget,
};
use dsh_launcher::skill::{parse_open, skill_forget_source, OpenRequest};

const AGENTS: &str = "C:\\Users\\u\\.agents";

#[test]
fn command_line_of_one_word() {
    assert_eq!(split_command_line("code"), vec!["code"]);
}

#[test]
fn command_line_with_arguments() {
    assert_eq!(split_command_line("code --wait"), vec!["code", "--wait"]);
}

#[test]
fn command_line_with_a_quoted_path() {
    assert_eq!(
        split_command_line("\"C:\\Program Files\\Microsoft VS Code\\Code.exe\" --wait"),
        vec!["C:\\Program Files\\Microsoft VS Code\\Code.exe", "--wait"]
    );
}

#[test]
fn command_line_with_single_quotes() {
    assert_eq!(
        split_command_line("'/opt/my editor/ed' -n"),
        vec!["/opt/my editor/ed", "-n"]
    );
}

#[test]
fn command_line_with_spare_blanks() {
    assert_eq!(split_command_line("   code    --wait   "), vec!["code", "--wait"]);
}

#[test]
fn command_line_without_words() {
    assert!(split_command_line("").is_empty());
    assert!(split_command_line("    ").is_empty());
}

#[test]
fn targets_lie_below_agents_home() {
    assert!(OpenTarget::AgentsMd.resolve(AGENTS).starts_with(AGENTS));
    assert!(OpenTarget::ContextMd.resolve(AGENTS).starts_with(AGENTS));
    assert!(OpenTarget::SkillsRoot.resolve(AGENTS).starts_with(AGENTS));
}

#[test]
fn agents_md_and_context_md_differ() {
    assert_ne!(OpenTarget::AgentsMd.resolve(AGENTS), OpenTarget::ContextMd.resolve(AGENTS));
}

#[test]
fn targets_are_named() {
    assert_eq!(OpenTarget::parse("agents-md").unwrap(), OpenTarget::AgentsMd);
    match OpenTarget::parse("x") {
        Err(OpenError::UnknownTarget(t)) => {
            assert_eq!(t, "x（可用值：agents-md / context-md / skills-root）")
        }
        _ => panic!("unknown target expected"),
    }
    assert!(OpenTarget::AgentsMd.template().is_some());
    assert!(OpenTarget::ContextMd.template().is_some());
    assert!(OpenTarget::SkillsRoot.template().is_none());
}

#[test]
fn a_configured_editor_is_tried_first() {
    let (mut run, action) = OpenRun::begin("C:\\a.md".to_string(), true, "code --wait");
    match action {
        OpenAction::Editor { program, args } => {
            assert_eq!(program, "code");
            assert_eq!(args, vec!["--wait", "C:\\a.md"]);
        }
        _ => panic!("editor expected"),
    }
    match run.step(Ok(())) {
        OpenAction::Done(report) => {
            assert_eq!(report.path, "C:\\a.md");
            assert_eq!(report.via, "editor");
            assert!(report.created);
        }
        _ => panic!("report expected"),
    }
}

#[test]
fn without_an_editor_the_system_opens_the_file() {
    let (mut run, action) = OpenRun::begin("C:\\a.md".to_string(), false, "  ");
    assert!(matches!(action, OpenAction::System));
    match run.step(Err("no handler".to_string())) {
        OpenAction::Failed(e) => assert!(e.message().contains("no handler"), "{}", e.message()),
        _ => panic!("failure expected"),
    }
}

#[test]
fn a_failing_editor_gives_way_to_the_system() {
    let (mut run, _) = OpenRun::begin("C:\\a.md".to_string(), false, "code");
    assert!(matches!(run.step(Err("not found".to_string())), OpenAction::System));
    match run.step(Ok(())) {
        OpenAction::Done(report) => assert_eq!(report.via, "system"),
        _ => panic!("report expected"),
    }
}

#[test]
fn only_listed_skill_files_are_opened() {
    assert!(check_skill_file(true).is_ok());
    assert!(matches!(check_skill_file(false), Err(OpenError::UnknownTarget(_))));
}

#[test]
fn open_requests() {
    match parse_open(Some("context-md".to_string()), None) {
        Ok(OpenRequest::Target(t)) => assert_eq!(t, OpenTarget::ContextMd),
        _ => panic!("target expected"),
    }
    match parse_open(None, Some("C:\\s\\SKILL.md".to_string())) {
        Ok(OpenRequest::SkillFile(p)) => assert_eq!(p, "C:\\s\\SKILL.md"),
        _ => panic!("file expected"),
    }
    assert!(matches!(parse_open(None, None), Err(OpenError::UnknownTarget(_))));
}

#[test]
fn sources_are_forgotten_by_url() {
    let urls = vec!["a".to_string(), "b".to_string(), "a".to_string()];
    assert_eq!(skill_forget_source(&urls, "a").unwrap(), vec![1]);
    assert!(skill_forget_source(&urls, "c").is_err());
}
