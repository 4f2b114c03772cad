//! The records the launcher works with: stored commands, the configuration
//! record, and the error taxonomy of the core operations.

use vstd::prelude::*;

verus! {

/// Mathematical image of a stored command: each text field as a sequence of
/// characters.
pub struct CommandModel {
    pub id: Seq<char>,
    pub name: Seq<char>,
    pub script: Seq<char>,
    pub kill_script: Option<Seq<char>>,
    pub shortcut: Option<Seq<char>>,
    pub description: Option<Seq<char>>,
}

/// A user-defined named shell command. Identity is `id`; `kill_script`,
/// `shortcut` and `description` are optional.
#[derive(Debug)]
pub struct Command {
    pub id: String,
    pub name: String,
    pub script: String,
    pub kill_script: Option<String>,
    pub shortcut: Option<String>,
    pub description: Option<String>,
}

impl View for Command {
    type V = CommandModel;

    open spec fn view(&self) -> CommandModel {
        CommandModel {
            id: self.id@,
            name: self.name@,
            script: self.script@,
            kill_script: self.kill_script.deep_view(),
            shortcut: self.shortcut.deep_view(),
            description: self.description.deep_view(),
        }
    }
}

impl DeepView for Command {
    type V = CommandModel;

    open spec fn deep_view(&self) -> CommandModel {
        self.view()
    }
}

impl Clone for Command {
    fn clone(&self) -> (r: Command)
        ensures
            r@ == self@,
    {
        Command {
            id: self.id.clone(),
            name: self.name.clone(),
            script: self.script.clone(),
            kill_script: clone_opt_string(&self.kill_script),
            shortcut: clone_opt_string(&self.shortcut),
            description: clone_opt_string(&self.description),
        }
    }
}

/// Clones an optional text field, keeping its view.
pub fn clone_opt_string(o: &Option<String>) -> (r: Option<String>)
    ensures
        r.deep_view() == o.deep_view(),
{
    match o {
        Some(s) => Some(s.clone()),
        None => None,
    }
}

/// Mathematical image of the configuration record.
pub struct ConfigModel {
    pub safe_mode: bool,
    pub commands_path: Option<Seq<char>>,
}

/// The configuration record: the safe-mode gate and an optional custom
/// storage path for the command list.
#[derive(Debug)]
pub struct Config {
    pub safe_mode: bool,
    pub commands_path: Option<String>,
}

impl View for Config {
    type V = ConfigModel;

    open spec fn view(&self) -> ConfigModel {
        ConfigModel { safe_mode: self.safe_mode, commands_path: self.commands_path.deep_view() }
    }
}

impl DeepView for Config {
    type V = ConfigModel;

    open spec fn deep_view(&self) -> ConfigModel {
        self.view()
    }
}

impl Clone for Config {
    fn clone(&self) -> (r: Config)
        ensures
            r@ == self@,
    {
        Config { safe_mode: self.safe_mode, commands_path: clone_opt_string(&self.commands_path) }
    }
}

/// The record used when no configuration has been stored yet: safe mode off,
/// no custom storage path.
pub fn default_config() -> (r: Config)
    ensures
        r@ == (ConfigModel { safe_mode: false, commands_path: None }),
{
    Config { safe_mode: false, commands_path: None }
}

/// The error taxonomy of the core operations. Variants that surface an
/// operating-system failure carry its text.
#[derive(Debug)]
pub enum CoreError {
    /// An identifier matched no stored command.
    NotFound,
    /// Safe mode is on: execution is refused before any process is spawned.
    SafeModeBlocked,
    /// A store read or write failed, or the stored text could not be decoded.
    Persistence(String),
    /// The operating system could not create the requested process.
    SpawnFailed(String),
    /// The operating system failed while retrieving a process's exit status.
    WaitFailed(String),
    /// The fallback termination call itself failed.
    TerminationFailed(String),
    /// The unregister-all step of a shortcut refresh failed.
    ShortcutRegistrationFailed(String),
}

} // verus!
