//! Laws that span modules: how a stored configuration record gates the
//! executor on the next invocation.

use vstd::prelude::*;
use crate::codec::{enc_config, load_config_spec, lemma_config_round_trip};
use crate::lifecycle::{execute_decision, find_spec, has_command, ExecDecision};
use crate::models::{CommandModel, ConfigModel};

verus! {

/// Writing a configuration record and reading it back before the next
/// execution decision applies exactly its safe-mode flag: with safe mode on
/// every resolving invocation is refused, with safe mode off the resolved
/// command's script runs as usual.
pub proof fn lemma_saved_config_gates_execution(
    cs: Seq<CommandModel>,
    cfg: ConfigModel,
    id: Seq<char>,
)
    requires
        has_command(cs, id),
    ensures
        load_config_spec(enc_config(cfg)) == Some(cfg),
        cfg.safe_mode ==> execute_decision(cs, cfg, id) is Blocked,
        !cfg.safe_mode ==> execute_decision(cs, cfg, id) == ExecDecision::Run(
            find_spec(cs, id)->0.script,
        ),
{
    lemma_config_round_trip(cfg);
}

} // verus!
