pub mod config;
pub mod context;
pub mod error;
pub mod format;
pub mod json;
pub mod logger;
pub mod modules;
pub mod origin;
pub mod text;
pub mod track;
pub mod update;
pub mod upgrade;
pub mod util;

use vstd::prelude::*;
use vstd::string::*;
use crate::config::{Config, Log};
use crate::context::Context;
use crate::format::FormatWrapper;
use crate::update::{Update, UpdateWrapper};
use crate::upgrade::{Upgrade, UpgradeWrapper};

verus! {

/// The directory under the working directory that holds the JSON documents.
pub open spec fn json_dir_of(working_dir: Seq<char>) -> Seq<char> {
    working_dir + "/json"@
}

/// The directory under the working directory that holds the module mirrors.
pub open spec fn modules_dir_of(working_dir: Seq<char>) -> Seq<char> {
    working_dir + "/modules"@
}

/// The default configuration path under the working directory.
pub open spec fn config_path_of(working_dir: Seq<char>) -> Seq<char> {
    json_dir_of(working_dir) + "/config.json"@
}

fn concat_str(a: &str, b: &str) -> (r: String)
    ensures
        r@ == a@ + b@,
{
    let mut out = crate::text::str_to_chars(a);
    crate::json::push_raw(b, &mut out);
    assert(out@ =~= a@ + b@);
    crate::text::chars_to_string(&out)
}

/// The run context with its derived paths.
pub struct ContextWrapper {
    pub original: Context,
}

impl ContextWrapper {
    /// A context from an explicit configuration path and the working
    /// directory.
    pub fn build(config: Config, config_path: &str, working_dir: &str) -> (r: ContextWrapper)
        ensures
            r.original.log@ == config.log@,
            r.original.repository@ == config.repository@,
            crate::config::mods_view(r.original.modules@) == crate::config::mods_view(
                config.modules@,
            ),
            r.original.config_path@ == config_path@,
            r.original.json_dir@ == json_dir_of(working_dir@),
            r.original.modules_dir@ == modules_dir_of(working_dir@),
    {
        let json_dir = concat_str(working_dir, "/json");
        let modules_dir = concat_str(working_dir, "/modules");
        ContextWrapper {
            original: Context::new(config, config_path, json_dir.as_str(), modules_dir.as_str()),
        }
    }

    /// A context rooted at the working directory alone, with the
    /// configuration at its default path.
    pub fn from_working_dir(config: Config, working_dir: &str) -> (r: ContextWrapper)
        ensures
            r.original.log@ == config.log@,
            r.original.repository@ == config.repository@,
            crate::config::mods_view(r.original.modules@) == crate::config::mods_view(
                config.modules@,
            ),
            r.original.config_path@ == config_path_of(working_dir@),
            r.original.json_dir@ == json_dir_of(working_dir@),
            r.original.modules_dir@ == modules_dir_of(working_dir@),
    {
        let json_dir = concat_str(working_dir, "/json");
        let config_path = concat_str(json_dir.as_str(), "/config.json");
        let modules_dir = concat_str(working_dir, "/modules");
        ContextWrapper {
            original: Context::new(
                config,
                config_path.as_str(),
                json_dir.as_str(),
                modules_dir.as_str(),
            ),
        }
    }

    /// Hand the log options to a sink initializer.
    pub fn logger<T, F: FnOnce(&Log) -> T>(&self, init: F) -> (t: T)
        requires
            init.requires((&self.original.log,)),
        ensures
            init.ensures((&self.original.log,), t),
    {
        init(&self.original.log)
    }

    /// The configuration formatter for this context.
    pub fn format(&self) -> (r: FormatWrapper)
        ensures
            r.original.config_path@ == self.original.config_path@,
    {
        FormatWrapper::build(&self.original)
    }

    /// The update engine for this context.
    pub fn update(&self) -> (r: UpdateWrapper<'_>)
        ensures
            r.original.setting@ == self.original.repository@.setting,
            r.original.modules_dir@ == self.original.modules_dir@,
            r.modules@ == self.original.modules@,
    {
        UpdateWrapper::build(&self.original)
    }

    /// The index generator for this context.
    pub fn upgrade(&self) -> (r: UpgradeWrapper<'_>)
        ensures
            r.original.repository@ == self.original.repository@,
            r.original.json_dir@ == self.original.json_dir@,
            r.original.modules_dir@ == self.original.modules_dir@,
            r.modules@ == self.original.modules@,
    {
        UpgradeWrapper::build(&self.original)
    }
}

} // verus!
