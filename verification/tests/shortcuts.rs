use climgr::models::{Command, CoreError};
use climgr::ops::add_command;
use climgr::shortcuts::{
    conclude_unregister, find_by_shortcut, refresh_snapshot, registered_after_refresh,
    shortcuts_to_register, UnregisterOutcome,
};

fn cmd(id: &str, script: &str, shortcut: Option<&str>) -> Command {
    Command {
        id: id.to_string(),
        name: id.to_string(),
        script: script.to_string(),
        kill_script: None,
        shortcut: shortcut.map(|s| s.to_string()),
        description: None,
    }
}

#[test]
fn refresh_plans_the_non_blank_shortcuts_in_order() {
    let commands = vec![
        cmd("a", "echo a", Some("Ctrl+1")),
        cmd("b", "echo b", None),
        cmd("c", "echo c", Some("   ")),
        cmd("d", "echo d", Some("Alt+X")),
    ];
    let planned = shortcuts_to_register(&commands);
    assert_eq!(planned, vec!["Ctrl+1".to_string(), "Alt+X".to_string()]);
}

#[test]
fn refresh_keeps_exactly_what_the_registrar_accepted() {
    let commands = vec![
        cmd("a", "echo a", Some("Ctrl+1")),
        cmd("b", "echo b", Some("Bad+Spec")),
        cmd("c", "echo c", Some("Alt+X")),
    ];
    let planned = shortcuts_to_register(&commands);
    // The registrar refuses the middle entry; the others stand.
    let verdicts = vec![true, false, true];
    let registered = registered_after_refresh(planned, &verdicts);
    assert_eq!(registered, vec!["Ctrl+1".to_string(), "Alt+X".to_string()]);

    // Refreshing again with the same snapshot and verdicts yields the same
    // set, whatever was registered before.
    let planned_again = shortcuts_to_register(&commands);
    let registered_again = registered_after_refresh(planned_again, &verdicts);
    assert_eq!(registered, registered_again);
}

#[test]
fn added_command_appears_in_list_and_in_registrations() {
    let mut commands: Vec<Command> = Vec::new();
    add_command(
        &mut commands,
        Command {
            id: "a".to_string(),
            name: "Echo".to_string(),
            script: "echo hi".to_string(),
            kill_script: None,
            shortcut: Some("Ctrl+1".to_string()),
            description: None,
        },
    );
    assert_eq!(commands.len(), 1);
    assert_eq!(commands[0].id, "a");
    assert_eq!(commands[0].name, "Echo");

    let planned = shortcuts_to_register(&commands);
    let verdicts = vec![true];
    let registered = registered_after_refresh(planned, &verdicts);
    assert!(registered.contains(&"Ctrl+1".to_string()));
}

#[test]
fn failed_unregister_aborts_the_refresh() {
    assert!(conclude_unregister(UnregisterOutcome::Cleared).is_ok());
    let failed = conclude_unregister(UnregisterOutcome::Failed("registrar gone".to_string()));
    assert!(matches!(failed, Err(CoreError::ShortcutRegistrationFailed(_))));
}

#[test]
fn failed_store_read_refreshes_with_no_commands() {
    let commands = vec![cmd("a", "echo a", Some("Ctrl+1"))];
    assert_eq!(refresh_snapshot(Some(commands)).len(), 1);
    // A transient read failure becomes the empty snapshot, not an error.
    let snapshot = refresh_snapshot(None);
    assert!(snapshot.is_empty());
    assert!(shortcuts_to_register(&snapshot).is_empty());
}

#[test]
fn pressed_shortcut_dispatches_to_first_matching_command() {
    let commands = vec![
        cmd("a", "echo a", Some("Ctrl+1")),
        cmd("b", "echo b", Some("Ctrl+2")),
        cmd("c", "echo c", Some("Ctrl+1")),
    ];
    let hit = find_by_shortcut(&commands, "Ctrl+2").expect("should dispatch");
    assert_eq!(hit.id, "b");
    // Two commands share Ctrl+1: the first in storage order wins.
    let hit = find_by_shortcut(&commands, "Ctrl+1").expect("should dispatch");
    assert_eq!(hit.id, "a");
    // A press that matches nothing is dropped by the caller.
    assert!(find_by_shortcut(&commands, "Ctrl+9").is_none());
}
