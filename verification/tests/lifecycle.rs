use climgr::codec::{encode_config, parse_config};
use climgr::lifecycle::{
    authorize_execution, combine_output, conclude_kill_script, conclude_signal, finish_execution,
    note_spawn, plan_kill, KillPlan, ScriptOutcome, SignalOutcome, SpawnOutcome, WaitOutcome,
};
use climgr::models::{Command, Config, CoreError};
use climgr::registry::ProcessRegistry;

fn cmd(id: &str, script: &str, kill_script: Option<&str>, shortcut: Option<&str>) -> Command {
    Command {
        id: id.to_string(),
        name: id.to_string(),
        script: script.to_string(),
        kill_script: kill_script.map(|s| s.to_string()),
        shortcut: shortcut.map(|s| s.to_string()),
        description: None,
    }
}

fn off() -> Config {
    Config { safe_mode: false, commands_path: None }
}

fn on() -> Config {
    Config { safe_mode: true, commands_path: None }
}

#[test]
fn execute_missing_id_is_not_found() {
    let commands = vec![cmd("a", "echo hi", None, None)];
    let r = authorize_execution(&commands, &off(), "missing-id");
    assert!(matches!(r, Err(CoreError::NotFound)));
}

#[test]
fn safe_mode_blocks_execution_and_registry_stays_empty() {
    let commands = vec![cmd("a", "echo hi", None, None)];
    let registry = ProcessRegistry::new();
    let r = authorize_execution(&commands, &on(), "a");
    assert!(matches!(r, Err(CoreError::SafeModeBlocked)));
    // Nothing was authorized, so nothing was spawned and nothing tracked.
    assert_eq!(registry.len(), 0);
    assert_eq!(registry.lookup("a"), None);
}

#[test]
fn safe_mode_off_hands_out_the_script() {
    let commands = vec![cmd("a", "echo hi", None, None)];
    let r = authorize_execution(&commands, &off(), "a");
    assert_eq!(r.unwrap(), "echo hi");
}

#[test]
fn spawn_then_kill_signals_tracked_process_and_entry_goes_away() {
    // Command without a kill script: the signal fallback must reach the
    // tracked process, and completion must clear the entry.
    let commands = vec![cmd("b", "sleep 5", None, None)];
    let mut registry = ProcessRegistry::new();

    let script = authorize_execution(&commands, &off(), "b").unwrap();
    assert_eq!(script, "sleep 5");
    let pid = note_spawn(&mut registry, "b", SpawnOutcome::Started(4242)).unwrap();
    assert_eq!(pid, 4242);
    assert_eq!(registry.lookup("b"), Some(4242));

    let plan = plan_kill(&commands, &registry, "b");
    assert!(matches!(plan, KillPlan::Signal(4242)));

    let out = finish_execution(
        &mut registry,
        "b",
        WaitOutcome::Exited { stdout: "".to_string(), stderr: "".to_string() },
    );
    assert_eq!(out.unwrap(), "");
    assert_eq!(registry.lookup("b"), None);
}

#[test]
fn kill_script_always_wins_and_never_consults_registry() {
    let commands = vec![cmd("c", "sleep 5", Some("true"), None)];

    // Not running: the kill script is still the plan.
    let empty = ProcessRegistry::new();
    let plan = plan_kill(&commands, &empty, "c");
    assert!(matches!(plan, KillPlan::RunKillScript(s) if s == "true"));

    // Running: same plan, the tracked process is ignored.
    let mut tracking = ProcessRegistry::new();
    tracking.insert("c", 99);
    let plan = plan_kill(&commands, &tracking, "c");
    assert!(matches!(plan, KillPlan::RunKillScript(s) if s == "true"));

    // And the kill-script path reports success whatever the script's exit.
    assert!(conclude_kill_script(ScriptOutcome::Completed { status_ok: true }).is_ok());
    assert!(conclude_kill_script(ScriptOutcome::Completed { status_ok: false }).is_ok());
}

#[test]
fn blank_kill_script_falls_back_to_registry() {
    let commands = vec![cmd("c", "sleep 5", Some("   "), None)];
    let mut registry = ProcessRegistry::new();
    registry.insert("c", 7);
    let plan = plan_kill(&commands, &registry, "c");
    assert!(matches!(plan, KillPlan::Signal(7)));
}

#[test]
fn kill_with_nothing_tracked_is_trivial_success() {
    let commands = vec![cmd("a", "echo hi", None, None)];
    let registry = ProcessRegistry::new();
    assert!(matches!(plan_kill(&commands, &registry, "a"), KillPlan::Nothing));
    assert!(matches!(plan_kill(&commands, &registry, "unknown"), KillPlan::Nothing));
}

#[test]
fn spawn_failure_surfaces_and_registry_unchanged() {
    let mut registry = ProcessRegistry::new();
    let r = note_spawn(&mut registry, "a", SpawnOutcome::Failed("shell not found".to_string()));
    assert!(matches!(r, Err(CoreError::SpawnFailed(_))));
    assert_eq!(registry.lookup("a"), None);
}

#[test]
fn wait_failure_surfaces_and_entry_is_still_removed() {
    let mut registry = ProcessRegistry::new();
    registry.insert("a", 1);
    let r = finish_execution(&mut registry, "a", WaitOutcome::Failed("lost child".to_string()));
    assert!(matches!(r, Err(CoreError::WaitFailed(_))));
    assert_eq!(registry.lookup("a"), None);
}

#[test]
fn output_is_stdout_then_stderr_whatever_the_exit() {
    assert_eq!(combine_output("out".to_string(), "err".to_string()), "outerr");
    let mut registry = ProcessRegistry::new();
    registry.insert("a", 1);
    let r = finish_execution(
        &mut registry,
        "a",
        WaitOutcome::Exited { stdout: "hello\n".to_string(), stderr: "warning\n".to_string() },
    );
    // A non-zero exit is not an error: the streams come back as the result.
    assert_eq!(r.unwrap(), "hello\nwarning\n");
}

#[test]
fn signal_outcomes_map_to_results() {
    let ok = SignalOutcome::Delivered { status_ok: true, detail: "".to_string() };
    assert!(conclude_signal(ok).is_ok());
    let failed = SignalOutcome::Delivered { status_ok: false, detail: "no such pid".to_string() };
    assert!(matches!(conclude_signal(failed), Err(CoreError::TerminationFailed(_))));
    let lost = SignalOutcome::LaunchFailed("kill missing".to_string());
    assert!(matches!(conclude_signal(lost), Err(CoreError::TerminationFailed(_))));
    let script_lost = ScriptOutcome::LaunchFailed("sh missing".to_string());
    assert!(matches!(conclude_kill_script(script_lost), Err(CoreError::TerminationFailed(_))));
}

#[test]
fn registry_tracks_one_entry_per_command() {
    let mut registry = ProcessRegistry::new();
    registry.insert("a", 1);
    registry.insert("b", 2);
    assert_eq!(registry.len(), 2);
    // A second spawn for the same command overwrites the tracked process.
    registry.insert("a", 3);
    assert_eq!(registry.len(), 2);
    assert_eq!(registry.lookup("a"), Some(3));
    // Removal is idempotent: removing an absent entry changes nothing.
    registry.remove("a");
    registry.remove("a");
    assert_eq!(registry.lookup("a"), None);
    assert_eq!(registry.lookup("b"), Some(2));
    assert_eq!(registry.len(), 1);
}

#[test]
fn update_config_toggles_the_gate() {
    // Writing safe mode on blocks the next execution; writing it off
    // restores normal execution.
    let commands = vec![cmd("a", "echo hi", None, None)];

    let stored = encode_config(&on());
    let loaded = parse_config(&stored).unwrap();
    let r = authorize_execution(&commands, &loaded, "a");
    assert!(matches!(r, Err(CoreError::SafeModeBlocked)));

    let stored = encode_config(&off());
    let loaded = parse_config(&stored).unwrap();
    let r = authorize_execution(&commands, &loaded, "a");
    assert_eq!(r.unwrap(), "echo hi");
}
