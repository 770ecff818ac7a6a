use zero_shell::commands::CommandKind;
use zero_shell::shell::{LineAction, Shell};

#[test]
fn line_actions() {
    let shell = Shell::new();
    assert!(matches!(shell.line_action(None), LineAction::Exit));
    assert!(matches!(shell.line_action(Some("  \n")), LineAction::Skip));
    match shell.line_action(Some("  ls -l \n")) {
        LineAction::Run(t) => assert_eq!(t, "ls -l"),
        _ => panic!("expected a command"),
    }
}

#[test]
fn prompts() {
    let shell = Shell::new();
    assert_eq!(shell.prompt("/tmp"), "/tmp$ ");
    assert_eq!(shell.prompt(""), "$ ");
}

#[test]
fn commands_for_lines() {
    let shell = Shell::new();
    assert!(shell.command_for("", &[]).is_none());
    match shell.command_for("pwd", &[]) {
        Some(Ok(inv)) => assert_eq!(inv.kind, CommandKind::Pwd),
        _ => panic!("expected pwd"),
    }
    match shell.command_for("nope", &[]) {
        Some(Err(m)) => assert_eq!(m, "Command 'nope' not found"),
        _ => panic!("expected an error"),
    }
}
