//! Storage-path resolution: tilde expansion and the choice between the
//! configured custom path and the host's default location.

use vstd::prelude::*;
use crate::models::{Config, ConfigModel};

verus! {

/// A path whose leading `~` is replaced by the home directory, when one is
/// known; only that first character is substituted, later `~` characters
/// stay as they are.
pub open spec fn expanded_path(path: Seq<char>, home: Option<Seq<char>>) -> Seq<char> {
    if path.len() > 0 && path[0] == '~' && home is Some {
        home->0 + path.skip(1)
    } else {
        path
    }
}

/// Expands a leading `~` to the home directory. Without a known home
/// directory, or without a leading `~`, the path is returned as it came.
pub fn expand_path(path_str: &str, home: &Option<String>) -> (r: String)
    ensures
        r@ == expanded_path(path_str@, home.deep_view()),
{
    let n = path_str.unicode_len();
    if n > 0 && path_str.get_char(0) == '~' {
        match home {
            Some(h) => {
                let rest = path_str.substring_char(1, n);
                proof {
                    assert(rest@ =~= path_str@.skip(1));
                }
                h.clone().concat(rest)
            },
            None => path_str.to_owned(),
        }
    } else {
        path_str.to_owned()
    }
}

/// Where the command list lives: the configured custom path with `~`
/// expanded, or the host's default location when no configuration could be
/// read or none names a path.
pub open spec fn store_path_spec(
    cfg: Option<ConfigModel>,
    home: Option<Seq<char>>,
    default_path: Seq<char>,
) -> Seq<char> {
    match cfg {
        Some(c) => match c.commands_path {
            Some(p) => expanded_path(p, home),
            None => default_path,
        },
        None => default_path,
    }
}

/// Resolves the command-list path from the configuration snapshot, if one
/// was readable, falling back on the host's default location.
pub fn resolve_store_path(config: &Option<Config>, home: &Option<String>, default_path: &str) -> (r:
    String)
    ensures
        r@ == store_path_spec(config.deep_view(), home.deep_view(), default_path@),
{
    match config {
        Some(c) => match &c.commands_path {
            Some(p) => expand_path(p.as_str(), home),
            None => default_path.to_owned(),
        },
        None => default_path.to_owned(),
    }
}

} // verus!
