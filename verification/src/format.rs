//! Configuration formatting: parse the configuration text and render it
//! pretty-printed.

use vstd::prelude::*;
use vstd::string::*;
use vstd::utf8::{valid_utf8, decode_utf8};
use crate::config::{parse_config, ser_config, parse_config_x, push_config};
use crate::context::Context;
use crate::json::skip_ws;
use crate::text;

verus! {

/// The configuration parsed from raw file bytes, tolerating only trailing
/// whitespace.
pub open spec fn config_from_bytes(b: Seq<u8>) -> Option<crate::config::ConfigV> {
    if valid_utf8(b) {
        let s = decode_utf8(b);
        match parse_config(s, 0) {
            Some((c, e)) => if skip_ws(s, e) == s.len() {
                Some(c)
            } else {
                None
            },
            None => None,
        }
    } else {
        None
    }
}

/// The pretty rendering of the configuration the bytes hold, if they parse.
pub open spec fn format_pretty(b: Seq<u8>) -> Option<Seq<char>> {
    match config_from_bytes(b) {
        Some(c) => Some(ser_config(c, true, 0)),
        None => None,
    }
}

/// The configuration formatter, bound to the configuration path.
pub struct Format {
    pub config_path: String,
}

impl Format {
    pub fn new(config_path: &str) -> (r: Format)
        ensures
            r.config_path@ == config_path@,
    {
        Format { config_path: config_path.to_owned() }
    }

    /// Parse the configuration bytes and render them pretty-printed; `None`
    /// when the bytes do not hold a valid configuration.
    pub fn write_to(&self, config_bytes: &Vec<u8>) -> (r: Option<String>)
        ensures
            match r {
                Some(s) => format_pretty(config_bytes@) == Some(s@),
                None => format_pretty(config_bytes@) is None,
            },
    {
        let s = match crate::util::utf8_to_string(config_bytes) {
            Some(s) => s,
            None => {
                return None;
            },
        };
        let v = text::str_to_chars(s.as_str());
        let c = match parse_config_x(&v, 0) {
            Some((c, e)) => {
                let w = crate::json::skip_ws_x(&v, e);
                if w != v.len() {
                    return None;
                }
                c
            },
            None => {
                return None;
            },
        };
        let mut out: Vec<char> = Vec::new();
        push_config(&c, true, 0, &mut out);
        Some(text::chars_to_string(&out))
    }
}

/// The formatter built from a run context.
pub struct FormatWrapper {
    pub original: Format,
}

impl FormatWrapper {
    pub fn build(context: &Context) -> (r: FormatWrapper)
        ensures
            r.original.config_path@ == context.config_path@,
    {
        FormatWrapper { original: Format::new(context.config_path.as_str()) }
    }

    /// Same as `Format::write_to`, on the wrapped formatter.
    pub fn write(&self, config_bytes: &Vec<u8>) -> (r: Option<String>)
        ensures
            match r {
                Some(s) => format_pretty(config_bytes@) == Some(s@),
                None => format_pretty(config_bytes@) is None,
            },
    {
        self.original.write_to(config_bytes)
    }
}

} // verus!
