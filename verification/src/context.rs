//! The immutable per-run context: the parsed configuration and the resolved
//! working paths.

use vstd::prelude::*;
use vstd::string::*;
use crate::config::{Config, Log, Repository, Module};

verus! {

/// Everything an update or index run needs, loaded once.
pub struct Context {
    pub log: Log,
    pub repository: Repository,
    pub modules: Vec<Module>,
    pub config_path: String,
    pub json_dir: String,
    pub modules_dir: String,
}

impl Context {
    /// Split a parsed configuration into the run context.
    pub fn new(config: Config, config_path: &str, json_dir: &str, modules_dir: &str) -> (r: Context)
        ensures
            r.log@ == config.log@,
            r.repository@ == config.repository@,
            crate::config::mods_view(r.modules@) == crate::config::mods_view(config.modules@),
            r.config_path@ == config_path@,
            r.json_dir@ == json_dir@,
            r.modules_dir@ == modules_dir@,
    {
        Context {
            log: config.log,
            repository: config.repository,
            modules: config.modules,
            config_path: config_path.to_owned(),
            json_dir: json_dir.to_owned(),
            modules_dir: modules_dir.to_owned(),
        }
    }
}

} // verus!
