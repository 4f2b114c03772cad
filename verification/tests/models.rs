use climgr::codec::{encode_commands, encode_config, parse_commands, parse_config};
use climgr::models::{Command, Config};

#[test]
fn test_command_struct_serialization() {
    let command = Command {
        id: "123".to_string(),
        name: "Test Command".to_string(),
        script: "echo hello".to_string(),
        kill_script: Some("pkill -f hello".to_string()),
        shortcut: Some("Ctrl+T".to_string()),
        description: Some("A test command".to_string()),
    };

    let json = encode_commands(&vec![command.clone()]);

    // Parse back to verify
    let deserialized = parse_commands(&json).expect("Failed to deserialize");
    assert_eq!(deserialized.len(), 1);

    assert_eq!(command.id, deserialized[0].id);
    assert_eq!(command.name, deserialized[0].name);
    assert_eq!(command.script, deserialized[0].script);
    assert_eq!(command.kill_script, deserialized[0].kill_script);
    assert_eq!(command.shortcut, deserialized[0].shortcut);
    assert_eq!(command.description, deserialized[0].description);
}

#[test]
fn test_config_default() {
    let config = Config { safe_mode: false, commands_path: None };
    assert_eq!(config.safe_mode, false);
    assert!(config.commands_path.is_none());

    let json = encode_config(&config);
    let deserialized = parse_config(&json).expect("Failed to deserialize");
    assert_eq!(config.safe_mode, deserialized.safe_mode);
    assert_eq!(config.commands_path, deserialized.commands_path);
}
