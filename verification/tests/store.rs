use climgr::codec::{encode_commands, encode_config, parse_commands, parse_config};
use climgr::models::{default_config, Command, Config};
use climgr::paths::{expand_path, resolve_store_path};

#[test]
fn test_save_and_load_commands() {
    // Loading with no stored text returns the empty list, not an error.
    let initial_load = parse_commands("").expect("Should return empty list for missing file");
    assert!(initial_load.is_empty());

    let commands = vec![
        Command {
            id: "1".to_string(),
            name: "Test 1".to_string(),
            script: "echo 1".to_string(),
            kill_script: None,
            shortcut: None,
            description: None,
        },
        Command {
            id: "2".to_string(),
            name: "Test 2".to_string(),
            script: "echo 2".to_string(),
            kill_script: Some("pkill 2".to_string()),
            shortcut: Some("Ctrl+2".to_string()),
            description: Some("Description".to_string()),
        },
    ];

    let saved = encode_commands(&commands);

    let loaded = parse_commands(&saved).expect("Failed to load commands");

    assert_eq!(commands.len(), loaded.len(), "Loaded commands length mismatch");
    assert_eq!(commands[0].id, loaded[0].id);
    assert_eq!(commands[0].name, loaded[0].name);
    assert_eq!(commands[1].id, loaded[1].id);
    assert_eq!(commands[1].name, loaded[1].name);
}

#[test]
fn test_save_and_load_config() {
    // With no stored record the default applies.
    let default = default_config();
    assert_eq!(default.safe_mode, false);

    // Save a config with safe mode enabled
    let config = Config { safe_mode: true, commands_path: None };
    let saved = encode_config(&config);

    // Load and verify
    let loaded = parse_config(&saved).expect("Failed to load config");
    assert_eq!(loaded.safe_mode, true);
}

#[test]
fn test_expand_path() {
    let home = "/home/user".to_string();

    let path = "~/test/file.json";
    let expanded = expand_path(path, &Some(home.clone()));

    assert!(expanded.starts_with(&home));
    assert!(expanded.ends_with("/test/file.json"));
    assert_eq!(expanded, "/home/user/test/file.json");

    let absolute_path = "/usr/bin/test";
    let not_expanded = expand_path(absolute_path, &Some(home.clone()));
    assert_eq!(not_expanded, absolute_path);

    // Multiple tildes - only the first is expanded
    let multi_tilde = "~/Documents/file~backup.json";
    let expanded_multi = expand_path(multi_tilde, &Some(home.clone()));
    assert!(expanded_multi.starts_with(&home));
    assert!(expanded_multi.contains("file~backup.json"));
    let home_count = expanded_multi.matches(&home).count();
    assert_eq!(home_count, 1);

    // Without a known home directory the path stays as it came.
    let kept = expand_path("~/test/file.json", &None);
    assert_eq!(kept, "~/test/file.json");
}

#[test]
fn test_resolve_store_path() {
    let home = Some("/home/user".to_string());
    let fallback = "/data/app/commands.json";

    // A configured custom path wins and is expanded.
    let config = Some(Config { safe_mode: false, commands_path: Some("~/cmds.json".to_string()) });
    assert_eq!(resolve_store_path(&config, &home, fallback), "/home/user/cmds.json");

    // No configured path: the default location.
    let config = Some(Config { safe_mode: false, commands_path: None });
    assert_eq!(resolve_store_path(&config, &home, fallback), fallback);

    // No readable configuration at all: the default location.
    assert_eq!(resolve_store_path(&None, &home, fallback), fallback);
}
