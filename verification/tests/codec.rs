use climgr::codec::{encode_commands, encode_config, parse_commands, parse_config};
use climgr::models::{Command, Config, CoreError};

fn full_cmd(id: &str, script: &str) -> Command {
    Command {
        id: id.to_string(),
        name: format!("name of {}", id),
        script: script.to_string(),
        kill_script: Some("pkill -f x".to_string()),
        shortcut: Some("Ctrl+Shift+P".to_string()),
        description: Some("a description".to_string()),
    }
}

fn assert_same(a: &Command, b: &Command) {
    assert_eq!(a.id, b.id);
    assert_eq!(a.name, b.name);
    assert_eq!(a.script, b.script);
    assert_eq!(a.kill_script, b.kill_script);
    assert_eq!(a.shortcut, b.shortcut);
    assert_eq!(a.description, b.description);
}

#[test]
fn empty_file_is_the_empty_list() {
    assert!(parse_commands("").unwrap().is_empty());
    assert!(parse_commands("  \n\t ").unwrap().is_empty());
}

#[test]
fn empty_list_round_trips() {
    let commands: Vec<Command> = Vec::new();
    let text = encode_commands(&commands);
    assert_eq!(text, "[]");
    assert!(parse_commands(&text).unwrap().is_empty());
}

#[test]
fn list_round_trips_field_for_field() {
    let commands = vec![
        full_cmd("one", "echo hello"),
        Command {
            id: "two".to_string(),
            name: "Two".to_string(),
            script: "ls -la".to_string(),
            kill_script: None,
            shortcut: None,
            description: None,
        },
        full_cmd("three", "date"),
    ];
    let text = encode_commands(&commands);
    let loaded = parse_commands(&text).unwrap();
    assert_eq!(loaded.len(), 3);
    for (a, b) in commands.iter().zip(loaded.iter()) {
        assert_same(a, b);
    }
    // Saving what load returned is a no-op: the next load sees the same
    // records again.
    let text_again = encode_commands(&loaded);
    let loaded_again = parse_commands(&text_again).unwrap();
    assert_eq!(loaded_again.len(), 3);
    for (a, b) in loaded.iter().zip(loaded_again.iter()) {
        assert_same(a, b);
    }
}

#[test]
fn tricky_characters_round_trip() {
    let commands = vec![Command {
        id: "q".to_string(),
        name: "quotes \" and \\ slashes".to_string(),
        script: "echo \"hi\"\nprintf '\\t'\r\n".to_string(),
        kill_script: Some("".to_string()),
        shortcut: Some(" \t ".to_string()),
        description: Some("line1\nline2".to_string()),
    }];
    let text = encode_commands(&commands);
    let loaded = parse_commands(&text).unwrap();
    assert_eq!(loaded.len(), 1);
    assert_same(&commands[0], &loaded[0]);
}

#[test]
fn config_round_trips() {
    let configs = vec![
        Config { safe_mode: false, commands_path: None },
        Config { safe_mode: true, commands_path: None },
        Config { safe_mode: true, commands_path: Some("~/cmds.json".to_string()) },
        Config { safe_mode: false, commands_path: Some("".to_string()) },
    ];
    for config in configs {
        let text = encode_config(&config);
        let loaded = parse_config(&text).unwrap();
        assert_eq!(config.safe_mode, loaded.safe_mode);
        assert_eq!(config.commands_path, loaded.commands_path);
    }
}

#[test]
fn written_text_is_the_canonical_json() {
    let commands = vec![Command {
        id: "a".to_string(),
        name: "A".to_string(),
        script: "echo".to_string(),
        kill_script: None,
        shortcut: Some("Ctrl+1".to_string()),
        description: None,
    }];
    let text = encode_commands(&commands);
    assert_eq!(
        text,
        "[{\"id\":\"a\",\"name\":\"A\",\"script\":\"echo\",\"kill_script\":null,\
         \"shortcut\":\"Ctrl+1\",\"description\":null}]"
    );
    let config = Config { safe_mode: true, commands_path: None };
    assert_eq!(encode_config(&config), "{\"safe_mode\":true,\"commands_path\":null}");
}

#[test]
fn malformed_text_is_a_persistence_error() {
    assert!(matches!(parse_commands("not json"), Err(CoreError::Persistence(_))));
    assert!(matches!(parse_commands("[{\"id\":\"a\"}]"), Err(CoreError::Persistence(_))));
    assert!(matches!(parse_commands("[] trailing"), Err(CoreError::Persistence(_))));
    assert!(matches!(parse_commands("[{\"id\":\"unterminated"), Err(CoreError::Persistence(_))));
    assert!(matches!(parse_config(""), Err(CoreError::Persistence(_))));
    assert!(matches!(parse_config("{\"safe_mode\":maybe}"), Err(CoreError::Persistence(_))));
}
