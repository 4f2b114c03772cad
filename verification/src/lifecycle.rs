//! The script executor's and process terminator's decisions.
//!
//! Spawning, waiting and signalling are the host's work; every choice around
//! them is made here. `authorize_execution` resolves an invocation request
//! against a fresh command snapshot and the safe-mode gate; `note_spawn` and
//! `finish_execution` move the process registry around a spawn's lifetime;
//! `plan_kill` picks between a user-authored kill script and the signal
//! fallback; the `conclude_*` functions map a raw outcome to the operation's
//! result.

use vstd::prelude::*;
use crate::models::{Command, CommandModel, Config, ConfigModel, CoreError};
use crate::registry::ProcessRegistry;
use crate::text::{blank, has_text, str_eq};

verus! {

/// The first stored command whose identifier equals `id`, if any.
pub open spec fn find_spec(cs: Seq<CommandModel>, id: Seq<char>) -> Option<CommandModel>
    decreases cs.len(),
{
    if cs.len() == 0 {
        None
    } else if cs[0].id == id {
        Some(cs[0])
    } else {
        find_spec(cs.skip(1), id)
    }
}

/// A command identifier resolves when some stored command carries it.
pub open spec fn has_command(cs: Seq<CommandModel>, id: Seq<char>) -> bool {
    find_spec(cs, id) is Some
}

/// The first stored command with the given identifier.
pub fn find_command<'a>(commands: &'a Vec<Command>, id: &str) -> (r: Option<&'a Command>)
    ensures
        match r {
            Some(c) => find_spec(commands.deep_view(), id@) == Some(c@),
            None => find_spec(commands.deep_view(), id@) is None,
        },
{
    let ghost cs = commands.deep_view();
    proof {
        assert(cs.skip(0) =~= cs);
    }
    let mut i: usize = 0;
    while i < commands.len()
        invariant
            cs == commands.deep_view(),
            cs.len() == commands@.len(),
            i <= cs.len(),
            find_spec(cs, id@) == find_spec(cs.skip(i as int), id@),
        decreases cs.len() - i,
    {
        proof {
            assert(cs.skip(i as int)[0] == cs[i as int]);
            assert(cs.skip(i as int).skip(1) =~= cs.skip(i + 1));
        }
        if str_eq(commands[i].id.as_str(), id) {
            return Some(&commands[i]);
        }
        i = i + 1;
    }
    None
}

/// What an invocation request may do: the identifier did not resolve, the
/// safe-mode gate refused it, or the resolved command's script may run.
pub enum ExecDecision {
    Missing,
    Blocked,
    Run(Seq<char>),
}

/// The executor's decision for an invocation request: the command is looked
/// up first, then the safe-mode gate is consulted.
pub open spec fn execute_decision(
    cs: Seq<CommandModel>,
    cfg: ConfigModel,
    id: Seq<char>,
) -> ExecDecision {
    match find_spec(cs, id) {
        None => ExecDecision::Missing,
        Some(c) => if cfg.safe_mode {
            ExecDecision::Blocked
        } else {
            ExecDecision::Run(c.script)
        },
    }
}

/// Resolves an invocation request against a fresh command snapshot and the
/// safe-mode gate, returning the script to spawn. No process exists yet at
/// this point; a refusal therefore spawns nothing and leaves every registry
/// untouched.
pub fn authorize_execution(commands: &Vec<Command>, config: &Config, id: &str) -> (r: Result<
    String,
    CoreError,
>)
    ensures
        match execute_decision(commands.deep_view(), config@, id@) {
            ExecDecision::Missing => r matches Err(e) && e is NotFound,
            ExecDecision::Blocked => r matches Err(e) && e is SafeModeBlocked,
            ExecDecision::Run(script) => r matches Ok(s) && s@ == script,
        },
{
    match find_command(commands, id) {
        None => Err(CoreError::NotFound),
        Some(c) => {
            if config.safe_mode {
                Err(CoreError::SafeModeBlocked)
            } else {
                Ok(c.script.clone())
            }
        },
    }
}

/// How the host's spawn attempt ended: a running process with its
/// identifier, or the operating system's refusal.
pub enum SpawnOutcome {
    Started(u32),
    Failed(String),
}

/// Records a spawn attempt in the registry. A started process is tracked
/// under its command's identifier before anything waits on it, so a
/// concurrent kill request is guaranteed to observe the identifier; a failed
/// spawn changes nothing and surfaces the refusal.
pub fn note_spawn(registry: &mut ProcessRegistry, id: &str, outcome: SpawnOutcome) -> (r: Result<
    u32,
    CoreError,
>)
    requires
        old(registry).wf(),
    ensures
        final(registry).wf(),
        match outcome {
            SpawnOutcome::Started(pid) => final(registry)@ == old(registry)@.insert(id@, pid)
                && (r matches Ok(p) && p == pid),
            SpawnOutcome::Failed(_) => final(registry)@ == old(registry)@ && (r matches Err(e)
                && e is SpawnFailed),
        },
{
    match outcome {
        SpawnOutcome::Started(pid) => {
            registry.insert(id, pid);
            Ok(pid)
        },
        SpawnOutcome::Failed(text) => Err(CoreError::SpawnFailed(text)),
    }
}

/// How waiting for a spawned process ended: its captured streams, or the
/// operating system's failure to retrieve the exit status. A non-zero exit
/// is not a failure; the streams are returned either way.
pub enum WaitOutcome {
    Exited { stdout: String, stderr: String },
    Failed(String),
}

/// The result string of a finished execution: captured stdout followed by
/// captured stderr.
pub fn combine_output(stdout: String, stderr: String) -> (r: String)
    ensures
        r@ == stdout@ + stderr@,
{
    stdout.concat(stderr.as_str())
}

/// Ends an execution: the registry entry for the command is dropped
/// unconditionally — whatever was tracked, and whether waiting succeeded or
/// not — and the wait outcome becomes the operation's result.
pub fn finish_execution(registry: &mut ProcessRegistry, id: &str, outcome: WaitOutcome) -> (r:
    Result<String, CoreError>)
    requires
        old(registry).wf(),
    ensures
        final(registry).wf(),
        final(registry)@ == old(registry)@.remove(id@),
        !final(registry)@.contains_key(id@),
        match outcome {
            WaitOutcome::Exited { stdout, stderr } => r matches Ok(s) && s@ == stdout@ + stderr@,
            WaitOutcome::Failed(_) => r matches Err(e) && e is WaitFailed,
        },
{
    registry.remove(id);
    match outcome {
        WaitOutcome::Exited { stdout, stderr } => Ok(combine_output(stdout, stderr)),
        WaitOutcome::Failed(text) => Err(CoreError::WaitFailed(text)),
    }
}

/// What a kill request must do: run the command's own kill script, signal
/// the tracked process, or nothing (trivial success).
pub enum KillPlan {
    RunKillScript(String),
    Signal(u32),
    Nothing,
}

/// Ghost image of a kill plan.
pub enum KillPlanModel {
    RunKillScript(Seq<char>),
    Signal(u32),
    Nothing,
}

impl View for KillPlan {
    type V = KillPlanModel;

    open spec fn view(&self) -> KillPlanModel {
        match self {
            KillPlan::RunKillScript(s) => KillPlanModel::RunKillScript(s@),
            KillPlan::Signal(pid) => KillPlanModel::Signal(*pid),
            KillPlan::Nothing => KillPlanModel::Nothing,
        }
    }
}

/// The terminator's decision. A resolved command with a non-blank kill
/// script decides the request by itself; otherwise the registry's tracked
/// process, if any, is signalled; with nothing tracked there is nothing to
/// kill.
pub open spec fn kill_decision(
    cs: Seq<CommandModel>,
    reg: Map<Seq<char>, u32>,
    id: Seq<char>,
) -> KillPlanModel {
    match find_spec(cs, id) {
        Some(c) if has_text(c.kill_script) => KillPlanModel::RunKillScript(c.kill_script->0),
        _ => if reg.contains_key(id) {
            KillPlanModel::Signal(reg[id])
        } else {
            KillPlanModel::Nothing
        },
    }
}

/// Plans a kill request. The plan never removes a registry entry: that
/// remains the executor's completion step alone, so removal stays idempotent.
pub fn plan_kill(commands: &Vec<Command>, registry: &ProcessRegistry, id: &str) -> (r: KillPlan)
    requires
        registry.wf(),
    ensures
        r@ == kill_decision(commands.deep_view(), registry@, id@),
{
    match find_command(commands, id) {
        Some(c) => match &c.kill_script {
            Some(ks) => {
                if !blank(ks.as_str()) {
                    KillPlan::RunKillScript(ks.clone())
                } else {
                    signal_fallback(registry, id)
                }
            },
            None => signal_fallback(registry, id),
        },
        None => signal_fallback(registry, id),
    }
}

/// The signal fallback of a kill request: the tracked process, or nothing.
fn signal_fallback(registry: &ProcessRegistry, id: &str) -> (r: KillPlan)
    requires
        registry.wf(),
    ensures
        r@ == if registry@.contains_key(id@) {
            KillPlanModel::Signal(registry@[id@])
        } else {
            KillPlanModel::Nothing
        },
{
    match registry.lookup(id) {
        Some(pid) => KillPlan::Signal(pid),
        None => KillPlan::Nothing,
    }
}

/// How running a user-authored kill script ended. Its own exit status is
/// opaque, best-effort semantics: only the operating system's refusal to run
/// it at all is a failure.
pub enum ScriptOutcome {
    Completed { status_ok: bool },
    LaunchFailed(String),
}

/// Concludes a kill served by the command's own kill script: success
/// whenever the script ran, whatever its exit status.
pub fn conclude_kill_script(outcome: ScriptOutcome) -> (r: Result<(), CoreError>)
    ensures
        match outcome {
            ScriptOutcome::Completed { .. } => r is Ok,
            ScriptOutcome::LaunchFailed(_) => r matches Err(e) && e is TerminationFailed,
        },
{
    match outcome {
        ScriptOutcome::Completed { .. } => Ok(()),
        ScriptOutcome::LaunchFailed(text) => Err(CoreError::TerminationFailed(text)),
    }
}

/// How the forceful-termination call on the tracked process ended.
pub enum SignalOutcome {
    Delivered { status_ok: bool, detail: String },
    LaunchFailed(String),
}

/// Concludes a kill served by the signal fallback: the termination command
/// itself erring — failing to run or reporting failure — is surfaced.
pub fn conclude_signal(outcome: SignalOutcome) -> (r: Result<(), CoreError>)
    ensures
        match outcome {
            SignalOutcome::Delivered { status_ok, .. } => if status_ok {
                r is Ok
            } else {
                r matches Err(e) && e is TerminationFailed
            },
            SignalOutcome::LaunchFailed(_) => r matches Err(e) && e is TerminationFailed,
        },
{
    match outcome {
        SignalOutcome::Delivered { status_ok, detail } => {
            if status_ok {
                Ok(())
            } else {
                Err(CoreError::TerminationFailed(detail))
            }
        },
        SignalOutcome::LaunchFailed(text) => Err(CoreError::TerminationFailed(text)),
    }
}

/// Safe mode blocks every execution: whenever the flag is on and the
/// identifier resolves, the decision is to refuse — no script is handed out,
/// so nothing is spawned and no registry entry can appear.
pub proof fn lemma_safe_mode_blocks(cs: Seq<CommandModel>, cfg: ConfigModel, id: Seq<char>)
    requires
        cfg.safe_mode,
        has_command(cs, id),
    ensures
        execute_decision(cs, cfg, id) is Blocked,
{
}

/// A declared, non-blank kill script decides a kill request by itself: the
/// plan is that script for every registry state, so the registry is never
/// consulted.
pub proof fn lemma_kill_script_wins(
    cs: Seq<CommandModel>,
    reg1: Map<Seq<char>, u32>,
    reg2: Map<Seq<char>, u32>,
    id: Seq<char>,
)
    requires
        find_spec(cs, id) matches Some(c) && has_text(c.kill_script),
    ensures
        kill_decision(cs, reg1, id) == kill_decision(cs, reg2, id),
        kill_decision(cs, reg1, id) == KillPlanModel::RunKillScript(find_spec(cs, id)->0.kill_script->0),
{
}

/// A kill request that falls back on the registry signals exactly the
/// tracked process of the command it names.
pub proof fn lemma_kill_signals_tracked(
    cs: Seq<CommandModel>,
    reg: Map<Seq<char>, u32>,
    id: Seq<char>,
    pid: u32,
)
    requires
        find_spec(cs, id) matches Some(c) ==> !has_text(c.kill_script),
        reg.contains_key(id),
        reg[id] == pid,
    ensures
        kill_decision(cs, reg, id) == KillPlanModel::Signal(pid),
{
}

} // verus!
