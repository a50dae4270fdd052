use desk_exec::entry::launch_exit_code;
use desk_exec::CleanPlaceholders;
use desk_exec::DesktopEntryError;
use desk_exec::Entry;
use desk_exec::LaunchOutcome;

fn entry_with_exec(exec: Option<&str>) -> Entry {
    Entry {
        path: "/tmp/apps/demo.desktop".to_string(),
        app_id: "demo".to_string(),
        name: Some("Demo".to_string()),
        generic_name: None,
        exec_template: exec.map(|e| e.to_string()),
        no_display: false,
    }
}

#[test]
fn clean_placeholders() {
    let entry = entry_with_exec(Some("dum%fmy%U%F"));
    assert_eq!(entry.exec_clean().unwrap(), "dummy");
}

#[test]
fn clean_keeps_other_characters() {
    let entry = entry_with_exec(Some("run %f --flag %U now"));
    assert_eq!(entry.exec_clean().unwrap(), "run  --flag  now");
}

#[test]
fn clean_without_placeholders_is_identity() {
    let entry = entry_with_exec(Some("ls -la /tmp"));
    assert_eq!(entry.exec_clean().unwrap(), "ls -la /tmp");
}

#[test]
fn clean_keeps_percent_before_non_letter() {
    let entry = entry_with_exec(Some("50%% off %1 %"));
    assert_eq!(entry.exec_clean().unwrap(), "50%% off %1 %");
}

#[test]
fn clean_empty_template() {
    let entry = entry_with_exec(Some(""));
    assert_eq!(entry.exec_clean().unwrap(), "");
}

#[test]
fn clean_missing_exec_fails() {
    let entry = entry_with_exec(None);
    match entry.exec_clean() {
        Err(DesktopEntryError::MissingExec(p)) => assert_eq!(p, "/tmp/apps/demo.desktop"),
        other => panic!("expected MissingExec, got {:?}", other),
    }
}

#[test]
fn exec_command_splits_program_and_args() {
    let entry = entry_with_exec(Some("ls -la /tmp"));
    let cl = entry.exec_command().unwrap();
    assert_eq!(cl.program, "ls");
    assert_eq!(cl.args, vec!["-la".to_string(), "/tmp".to_string()]);
}

#[test]
fn exec_command_cleans_placeholders_first() {
    let entry = entry_with_exec(Some("viewer %U  /home/me/file"));
    let cl = entry.exec_command().unwrap();
    assert_eq!(cl.program, "viewer");
    assert_eq!(cl.args, vec!["/home/me/file".to_string()]);
}

#[test]
fn exec_command_missing_exec() {
    let entry = entry_with_exec(None);
    match entry.exec_command() {
        Err(DesktopEntryError::MissingExec(p)) => assert_eq!(p, "/tmp/apps/demo.desktop"),
        other => panic!("expected MissingExec, got {:?}", other),
    }
}

#[test]
fn exec_command_placeholders_only_is_invalid_syntax() {
    let entry = entry_with_exec(Some("%f%U"));
    match entry.exec_command() {
        Err(DesktopEntryError::InvalidExecSyntax(p)) => {
            assert_eq!(p, "/tmp/apps/demo.desktop")
        },
        other => panic!("expected InvalidExecSyntax, got {:?}", other),
    }
}

#[test]
fn exec_command_blank_template_is_invalid_syntax() {
    let entry = entry_with_exec(Some("   "));
    assert!(matches!(
        entry.exec_command(),
        Err(DesktopEntryError::InvalidExecSyntax(_))
    ));
}

#[test]
fn launch_exit_codes() {
    assert_eq!(launch_exit_code(&LaunchOutcome::Exited(7)), 7);
    assert_eq!(launch_exit_code(&LaunchOutcome::Exited(0)), 0);
    assert_eq!(launch_exit_code(&LaunchOutcome::Unavailable), 0);
}
