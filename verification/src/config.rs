//! Configuration: where the real `code` binary and the session store are,
//! and the paths under the home directory that follow from it.

use vstd::prelude::*;
use crate::paths::{join_path, opt_view, spec_join_path};

verus! {

/// Location of the sessions database relative to the home directory.
pub const SESSIONS_DB_RELATIVE: &'static str = ".this-code/sessions.db";

/// Location of the shim's own `bin` directory relative to the home directory.
pub const OWN_BIN_RELATIVE: &'static str = ".this-code/bin";

/// Location of the configuration file relative to the home directory.
pub const CONFIG_FILE_RELATIVE: &'static str = ".this-code/config.toml";

/// Configuration loaded from `~/.this-code/config.toml` and `THIS_CODE_*`
/// environment variables.
#[derive(Debug)]
pub struct Config {
    /// Explicit path to the real `code` binary (`code_path`, or
    /// `THIS_CODE_CODE_PATH`). When `None`, the shim searches `PATH`.
    pub code_path: Option<String>,
    /// Explicit path to the sessions database (`db_path`, or
    /// `THIS_CODE_DB_PATH`). When `None`, `~/.this-code/sessions.db`.
    pub db_path: Option<String>,
}

impl Default for Config {
    fn default() -> (r: Config)
        ensures
            r.code_path is None,
            r.db_path is None,
    {
        Config { code_path: None, db_path: None }
    }
}

/// The sessions database path: the configured one, else
/// `~/.this-code/sessions.db`, else (no home directory known)
/// `.this-code/sessions.db` relative to the working directory.
pub open spec fn spec_db_path(config_db_path: Option<Seq<char>>, home: Option<Seq<char>>) -> Seq<char> {
    match config_db_path {
        Some(p) => p,
        None => match home {
            Some(h) => spec_join_path(h, SESSIONS_DB_RELATIVE@),
            None => SESSIONS_DB_RELATIVE@,
        },
    }
}

/// Resolve the sessions database path from the configuration and the home
/// directory (if one could be determined).
pub fn resolve_db_path(config: &Config, home: Option<&str>) -> (r: String)
    ensures
        r@ == spec_db_path(
            opt_view(config.db_path),
            match home {
                Some(h) => Some(h@),
                None => None,
            },
        ),
{
    match &config.db_path {
        Some(p) => p.clone(),
        None => match home {
            Some(h) => join_path(h, SESSIONS_DB_RELATIVE),
            None => SESSIONS_DB_RELATIVE.to_owned(),
        },
    }
}

/// `~/.this-code/bin`, the directory the shim lives in.
pub fn own_bin_dir(home: &str) -> (r: String)
    ensures
        r@ == spec_join_path(home@, OWN_BIN_RELATIVE@),
{
    join_path(home, OWN_BIN_RELATIVE)
}

/// `~/.this-code/config.toml`.
pub fn config_file_path(home: &str) -> (r: String)
    ensures
        r@ == spec_join_path(home@, CONFIG_FILE_RELATIVE@),
{
    join_path(home, CONFIG_FILE_RELATIVE)
}

/// The explicitly chosen real `code` binary, by priority: the
/// `THIS_CODE_CODE_PATH` environment value, then `config.code_path`. `None`
/// means the binary is to be searched for on the stripped `PATH`.
pub fn real_code_override(env_code_path: Option<&str>, config: &Config) -> (r: Option<String>)
    ensures
        opt_view(r) == match env_code_path {
            Some(p) => Some(p@),
            None => opt_view(config.code_path),
        },
{
    match env_code_path {
        Some(p) => Some(p.to_owned()),
        None => match &config.code_path {
            Some(p) => Some(p.clone()),
            None => None,
        },
    }
}

} // verus!
