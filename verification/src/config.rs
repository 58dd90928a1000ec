//! The interpreter's configuration.

use vstd::prelude::*;

use crate::errors::Error;
use crate::loader::Loader;
use crate::text::string_of;

verus! {

/// How the line editor of the REPL takes keys.
#[derive(Debug, Clone, Copy, PartialEq, Eq, Structural)]
pub enum EditMode {
    Emacs,
    Vi,
}

impl Default for EditMode {
    fn default() -> (r: Self)
        ensures
            r == EditMode::Emacs,
    {
        EditMode::Emacs
    }
}

/// The REPL's settings.
#[derive(Debug)]
pub struct ReplConfig {
    pub edit_mode: EditMode,
    /// Where the REPL keeps the lines entered, if anywhere.
    pub history_file: Option<String>,
}

impl Default for ReplConfig {
    fn default() -> (r: Self)
        ensures
            r.edit_mode == EditMode::Emacs,
            r.history_file is None,
    {
        ReplConfig { edit_mode: EditMode::Emacs, history_file: None }
    }
}

/// The interpreter's settings.
#[derive(Debug)]
pub struct Config {
    pub repl: ReplConfig,
    /// The directories searched for modules, in order.
    pub module_paths: Vec<String>,
}

impl Config {
    /// The default settings for a process running in `current_dir`: the
    /// REPL's defaults, and only `current_dir` to search for modules.
    pub fn new(current_dir: String) -> (r: Config)
        ensures
            r.repl.edit_mode == EditMode::Emacs,
            r.repl.history_file is None,
            r.module_paths@.len() == 1,
            r.module_paths@[0]@ == current_dir@,
    {
        let mut module_paths: Vec<String> = Vec::new();
        module_paths.push(current_dir);
        Config { repl: ReplConfig::default(), module_paths }
    }
}

impl Loader {
    /// A loader over the module path of `config`.
    pub fn from_config(config: &Config) -> (r: Loader)
        ensures
            r.paths@ == config.module_paths@,
    {
        Loader::new(config.module_paths.as_slice())
    }
}

/// Where the default configuration is written: `./tardi.toml`.
pub fn init_default_config() -> (r: Result<String, Error>)
    ensures
        r is Ok,
        r->Ok_0@ == "./tardi.toml"@,
{
    Ok(string_of("./tardi.toml"))
}

} // verus!
