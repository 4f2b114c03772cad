use climgr::models::{Command, CoreError};
use climgr::ops::{add_command, delete_command, update_command};

fn cmd(id: &str, name: &str) -> Command {
    Command {
        id: id.to_string(),
        name: name.to_string(),
        script: "echo".to_string(),
        kill_script: None,
        shortcut: None,
        description: None,
    }
}

#[test]
fn add_appends_at_the_end() {
    let mut commands = vec![cmd("a", "A")];
    add_command(&mut commands, cmd("b", "B"));
    assert_eq!(commands.len(), 2);
    assert_eq!(commands[1].id, "b");
}

#[test]
fn update_replaces_the_first_match() {
    let mut commands = vec![cmd("a", "A"), cmd("b", "B"), cmd("a", "A again")];
    update_command(&mut commands, cmd("a", "New A")).unwrap();
    assert_eq!(commands[0].name, "New A");
    assert_eq!(commands[1].name, "B");
    assert_eq!(commands[2].name, "A again");
}

#[test]
fn update_of_unknown_id_is_not_found_and_changes_nothing() {
    let mut commands = vec![cmd("a", "A")];
    let r = update_command(&mut commands, cmd("x", "X"));
    assert!(matches!(r, Err(CoreError::NotFound)));
    assert_eq!(commands.len(), 1);
    assert_eq!(commands[0].name, "A");
}

#[test]
fn delete_removes_every_match_and_is_idempotent() {
    let mut commands = vec![cmd("a", "A"), cmd("b", "B"), cmd("a", "A again")];
    delete_command(&mut commands, "a");
    assert_eq!(commands.len(), 1);
    assert_eq!(commands[0].id, "b");
    // Deleting an absent identifier still succeeds and changes nothing.
    delete_command(&mut commands, "a");
    assert_eq!(commands.len(), 1);
}
