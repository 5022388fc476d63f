//! The declarative configuration: logging options, repository identity and
//! settings, and the list of modules to mirror.

use vstd::prelude::*;
use vstd::string::*;
use crate::json::{
    parse_string, parse_bool, parse_usize, parse_null, skip_value, skip_ws, ser_string, ser_i64,
    ser_bool, member_str, member_bool, member_i64, sep_text, key_part, obj_end, parse_string_x,
    parse_bool_x, parse_usize_x, parse_null_x, skip_value_x, skip_ws_x, push_member_str,
    push_member_bool, push_member_usize, push_obj_end, push_sep, push_key, obj_fields, arr_elems,
    arr_items, ser_arr, lemma_arr_items_snoc, push_arr_end, is_ws,
};
use crate::text;

verus! {

// ---------- log options ----------

/// Sink options for the diagnostic log.
#[derive(Debug, Clone)]
pub struct Log {
    pub disabled: bool,
    pub level: String,
    pub output: String,
    pub timestamp: bool,
}

#[verifier::ext_equal]
pub ghost struct LogV {
    pub disabled: bool,
    pub level: Seq<char>,
    pub output: Seq<char>,
    pub timestamp: bool,
}

impl View for Log {
    type V = LogV;

    open spec fn view(&self) -> LogV {
        LogV {
            disabled: self.disabled,
            level: self.level@,
            output: self.output@,
            timestamp: self.timestamp,
        }
    }
}

pub open spec fn log_default() -> LogV {
    LogV { disabled: false, level: "info"@, output: Seq::empty(), timestamp: true }
}

impl Default for Log {
    fn default() -> (r: Log)
        ensures
            r@ == log_default(),
    {
        Log {
            disabled: false,
            level: String::from_str("info"),
            output: String::new(),
            timestamp: true,
        }
    }
}

impl Log {
    pub fn new(disabled: bool, level: &str, output: &str, timestamp: bool) -> (r: Log)
        ensures
            r@ == (LogV { disabled, level: level@, output: output@, timestamp }),
    {
        Log { disabled, level: level.to_owned(), output: output.to_owned(), timestamp }
    }
}

impl PartialEq for Log {
    fn eq(&self, other: &Self) -> (r: bool) {
        self.disabled == other.disabled && self.level == other.level && self.output == other.output
            && self.timestamp == other.timestamp
    }
}

impl vstd::std_specs::cmp::PartialEqSpecImpl for Log {
    open spec fn obeys_eq_spec() -> bool {
        true
    }

    open spec fn eq_spec(&self, other: &Self) -> bool {
        self@ == other@
    }
}

#[verifier::opaque]
pub open spec fn log_member(s: Seq<char>, i: int, acc: LogV, k: Seq<char>) -> Option<(LogV, int)> {
    if k == "disabled"@ {
        match parse_bool(s, i) {
            Some((b, e)) => Some((LogV { disabled: b, ..acc }, e)),
            None => None,
        }
    } else if k == "level"@ {
        match parse_string(s, i) {
            Some((t, e)) => Some((LogV { level: t, ..acc }, e)),
            None => None,
        }
    } else if k == "output"@ {
        match parse_string(s, i) {
            Some((t, e)) => Some((LogV { output: t, ..acc }, e)),
            None => None,
        }
    } else if k == "timestamp"@ {
        match parse_bool(s, i) {
            Some((b, e)) => Some((LogV { timestamp: b, ..acc }, e)),
            None => None,
        }
    } else {
        match skip_value(s, i) {
            Some(e) => Some((acc, e)),
            None => None,
        }
    }
}

pub open spec fn log_mem() -> spec_fn(Seq<char>, int, LogV, Seq<char>) -> Option<(LogV, int)> {
    |s: Seq<char>, i: int, a: LogV, k: Seq<char>| log_member(s, i, a, k)
}

pub open spec fn parse_log(s: Seq<char>, i: int) -> Option<(LogV, int)> {
    let j = skip_ws(s, i);
    if j < s.len() && s[j] == '{' {
        obj_fields(s, j + 1, log_default(), log_mem())
    } else {
        None
    }
}

#[verifier::opaque]
pub open spec fn ser_log(v: LogV, p: bool, d: nat) -> Seq<char> {
    seq!['{'] + member_bool(true, "disabled"@, v.disabled, p, d) + member_str(
        false,
        "level"@,
        v.level,
        p,
        d,
    ) + (if v.output.len() == 0 {
        Seq::<char>::empty()
    } else {
        member_str(false, "output"@, v.output, p, d)
    }) + member_bool(false, "timestamp"@, v.timestamp, p, d) + obj_end(p, d)
}

/// One member of the log options, dispatched by key.
fn log_member_x(v: &Vec<char>, vp: usize, key: &Vec<char>, acc: Log) -> (r: Option<(Log, usize)>)
    requires
        vp <= v.len(),
    ensures
        match r {
            Some((a2, e)) => log_member(v@, vp as int, acc@, key@) == Some((a2@, e as int)) && vp
                <= e <= v.len(),
            None => log_member(v@, vp as int, acc@, key@) is None,
        },
{
    proof {
        reveal(log_member);
    }
    let mut acc = acc;
    if text::chars_eq_str(key, "disabled") {
        let (b, e) = match parse_bool_x(v, vp) {
            Some(x) => x,
            None => {
                return None;
            },
        };
        acc.disabled = b;
        Some((acc, e))
    } else if text::chars_eq_str(key, "level") {
        let (t, e) = match parse_string_x(v, vp) {
            Some(x) => x,
            None => {
                return None;
            },
        };
        acc.level = text::chars_to_string(&t);
        Some((acc, e))
    } else if text::chars_eq_str(key, "output") {
        let (t, e) = match parse_string_x(v, vp) {
            Some(x) => x,
            None => {
                return None;
            },
        };
        acc.output = text::chars_to_string(&t);
        Some((acc, e))
    } else if text::chars_eq_str(key, "timestamp") {
        let (b, e) = match parse_bool_x(v, vp) {
            Some(x) => x,
            None => {
                return None;
            },
        };
        acc.timestamp = b;
        Some((acc, e))
    } else {
        let e = match skip_value_x(v, vp) {
            Some(e) => e,
            None => {
                return None;
            },
        };
        Some((acc, e))
    }
}

#[verifier::rlimit(60)]
#[verifier::spinoff_prover]
fn log_fields_x(v: &Vec<char>, i: usize, acc: Log) -> (r: Option<(Log, usize)>)
    requires
        i <= v.len(),
    ensures
        match r {
            Some((a2, e)) => obj_fields(v@, i as int, acc@, log_mem()) == Some((a2@, e as int))
                && i <= e <= v.len(),
            None => obj_fields(v@, i as int, acc@, log_mem()) is None,
        },
    decreases v.len() - i,
{
    proof {
        reveal(obj_fields);
    }
    let j = skip_ws_x(v, i);
    if j >= v.len() {
        return None;
    }
    if v[j] == '}' {
        return Some((acc, j + 1));
    }
    let (key, p1) = match parse_string_x(v, j) {
        Some(kp) => kp,
        None => {
            return None;
        },
    };
    let q = skip_ws_x(v, p1);
    if !(q < v.len() && v[q] == ':') {
        return None;
    }
    let (acc2, p2) = match log_member_x(v, q + 1, &key, acc) {
        Some(x) => x,
        None => {
            return None;
        },
    };
    let w = skip_ws_x(v, p2);
    if w < v.len() && v[w] == ',' {
        log_fields_x(v, w + 1, acc2)
    } else if w < v.len() && v[w] == '}' {
        Some((acc2, w + 1))
    } else {
        None
    }
}

pub fn parse_log_x(v: &Vec<char>, i: usize) -> (r: Option<(Log, usize)>)
    requires
        i <= v.len(),
    ensures
        match r {
            Some((x, e)) => parse_log(v@, i as int) == Some((x@, e as int)) && i <= e <= v.len(),
            None => parse_log(v@, i as int) is None,
        },
{
    let j = skip_ws_x(v, i);
    if !(j < v.len() && v[j] == '{') {
        return None;
    }
    log_fields_x(v, j + 1, Log::default())
}

#[verifier::rlimit(100)]
#[verifier::spinoff_prover]
pub fn push_log(x: &Log, p: bool, d: usize, out: &mut Vec<char>)
    requires
        d < 80,
    ensures
        final(out)@ == old(out)@ + ser_log(x@, p, d as nat),
{
    proof {
        reveal(ser_log);
    }
    out.push('{');
    push_member_bool(true, "disabled", x.disabled, p, d, out);
    push_member_str(false, "level", x.level.as_str(), p, d, out);
    if x.output.as_str().unicode_len() > 0 {
        push_member_str(false, "output", x.output.as_str(), p, d, out);
    }
    push_member_bool(false, "timestamp", x.timestamp, p, d, out);
    push_obj_end(p, d, out);
    assert(out@ =~= old(out)@ + ser_log(x@, p, d as nat));
}

// ---------- repository metadata ----------

#[derive(Debug, Clone)]
pub struct RepositoryMetadata {
    pub homepage: String,
    pub donate: String,
    pub support: String,
}

#[verifier::ext_equal]
pub ghost struct RepositoryMetadataV {
    pub homepage: Seq<char>,
    pub donate: Seq<char>,
    pub support: Seq<char>,
}

impl View for RepositoryMetadata {
    type V = RepositoryMetadataV;

    open spec fn view(&self) -> RepositoryMetadataV {
        RepositoryMetadataV {
            homepage: self.homepage@,
            donate: self.donate@,
            support: self.support@,
        }
    }
}

pub open spec fn rmeta_default() -> RepositoryMetadataV {
    RepositoryMetadataV { homepage: Seq::empty(), donate: Seq::empty(), support: Seq::empty() }
}

impl Default for RepositoryMetadata {
    fn default() -> (r: RepositoryMetadata)
        ensures
            r@ == rmeta_default(),
    {
        RepositoryMetadata { homepage: String::new(), donate: String::new(), support: String::new() }
    }
}

impl RepositoryMetadata {
    pub fn new(homepage: &str, donate: &str, support: &str) -> (r: RepositoryMetadata)
        ensures
            r@ == (RepositoryMetadataV {
                homepage: homepage@,
                donate: donate@,
                support: support@,
            }),
    {
        RepositoryMetadata {
            homepage: homepage.to_owned(),
            donate: donate.to_owned(),
            support: support.to_owned(),
        }
    }
}

impl PartialEq for RepositoryMetadata {
    fn eq(&self, other: &Self) -> (r: bool) {
        self.homepage == other.homepage && self.donate == other.donate && self.support
            == other.support
    }
}

impl vstd::std_specs::cmp::PartialEqSpecImpl for RepositoryMetadata {
    open spec fn obeys_eq_spec() -> bool {
        true
    }

    open spec fn eq_spec(&self, other: &Self) -> bool {
        self@ == other@
    }
}

#[verifier::opaque]
pub open spec fn rmeta_member(s: Seq<char>, i: int, acc: RepositoryMetadataV, k: Seq<char>) -> Option<
    (RepositoryMetadataV, int),
> {
    if k == "homepage"@ {
        match parse_string(s, i) {
            Some((t, e)) => Some((RepositoryMetadataV { homepage: t, ..acc }, e)),
            None => None,
        }
    } else if k == "donate"@ {
        match parse_string(s, i) {
            Some((t, e)) => Some((RepositoryMetadataV { donate: t, ..acc }, e)),
            None => None,
        }
    } else if k == "support"@ {
        match parse_string(s, i) {
            Some((t, e)) => Some((RepositoryMetadataV { support: t, ..acc }, e)),
            None => None,
        }
    } else {
        match skip_value(s, i) {
            Some(e) => Some((acc, e)),
            None => None,
        }
    }
}

pub open spec fn rmeta_mem() -> spec_fn(Seq<char>, int, RepositoryMetadataV, Seq<char>) -> Option<
    (RepositoryMetadataV, int),
> {
    |s: Seq<char>, i: int, a: RepositoryMetadataV, k: Seq<char>| rmeta_member(s, i, a, k)
}

pub open spec fn parse_rmeta(s: Seq<char>, i: int) -> Option<(RepositoryMetadataV, int)> {
    let j = skip_ws(s, i);
    if j < s.len() && s[j] == '{' {
        obj_fields(s, j + 1, rmeta_default(), rmeta_mem())
    } else {
        None
    }
}

#[verifier::opaque]
pub open spec fn ser_rmeta(v: RepositoryMetadataV, p: bool, d: nat) -> Seq<char> {
    if v.homepage.len() == 0 && v.donate.len() == 0 && v.support.len() == 0 {
        seq!['{', '}']
    } else {
        seq!['{'] + (if v.homepage.len() == 0 {
            Seq::<char>::empty()
        } else {
            member_str(true, "homepage"@, v.homepage, p, d)
        }) + (if v.donate.len() == 0 {
            Seq::<char>::empty()
        } else {
            member_str(v.homepage.len() == 0, "donate"@, v.donate, p, d)
        }) + (if v.support.len() == 0 {
            Seq::<char>::empty()
        } else {
            member_str(v.homepage.len() == 0 && v.donate.len() == 0, "support"@, v.support, p, d)
        }) + obj_end(p, d)
    }
}

fn rmeta_member_x(v: &Vec<char>, vp: usize, key: &Vec<char>, acc: RepositoryMetadata) -> (r:
    Option<(RepositoryMetadata, usize)>)
    requires
        vp <= v.len(),
    ensures
        match r {
            Some((a2, e)) => rmeta_member(v@, vp as int, acc@, key@) == Some((a2@, e as int)) && vp
                <= e <= v.len(),
            None => rmeta_member(v@, vp as int, acc@, key@) is None,
        },
{
    proof {
        reveal(rmeta_member);
    }
    let mut acc = acc;
    if text::chars_eq_str(key, "homepage") {
        let (t, e) = match parse_string_x(v, vp) {
            Some(x) => x,
            None => {
                return None;
            },
        };
        acc.homepage = text::chars_to_string(&t);
        Some((acc, e))
    } else if text::chars_eq_str(key, "donate") {
        let (t, e) = match parse_string_x(v, vp) {
            Some(x) => x,
            None => {
                return None;
            },
        };
        acc.donate = text::chars_to_string(&t);
        Some((acc, e))
    } else if text::chars_eq_str(key, "support") {
        let (t, e) = match parse_string_x(v, vp) {
            Some(x) => x,
            None => {
                return None;
            },
        };
        acc.support = text::chars_to_string(&t);
        Some((acc, e))
    } else {
        let e = match skip_value_x(v, vp) {
            Some(e) => e,
            None => {
                return None;
            },
        };
        Some((acc, e))
    }
}

#[verifier::rlimit(60)]
#[verifier::spinoff_prover]
fn rmeta_fields_x(v: &Vec<char>, i: usize, acc: RepositoryMetadata) -> (r: Option<
    (RepositoryMetadata, usize),
>)
    requires
        i <= v.len(),
    ensures
        match r {
            Some((a2, e)) => obj_fields(v@, i as int, acc@, rmeta_mem()) == Some((a2@, e as int))
                && i <= e <= v.len(),
            None => obj_fields(v@, i as int, acc@, rmeta_mem()) is None,
        },
    decreases v.len() - i,
{
    proof {
        reveal(obj_fields);
    }
    let j = skip_ws_x(v, i);
    if j >= v.len() {
        return None;
    }
    if v[j] == '}' {
        return Some((acc, j + 1));
    }
    let (key, p1) = match parse_string_x(v, j) {
        Some(kp) => kp,
        None => {
            return None;
        },
    };
    let q = skip_ws_x(v, p1);
    if !(q < v.len() && v[q] == ':') {
        return None;
    }
    let (acc2, p2) = match rmeta_member_x(v, q + 1, &key, acc) {
        Some(x) => x,
        None => {
            return None;
        },
    };
    let w = skip_ws_x(v, p2);
    if w < v.len() && v[w] == ',' {
        rmeta_fields_x(v, w + 1, acc2)
    } else if w < v.len() && v[w] == '}' {
        Some((acc2, w + 1))
    } else {
        None
    }
}

pub fn parse_rmeta_x(v: &Vec<char>, i: usize) -> (r: Option<(RepositoryMetadata, usize)>)
    requires
        i <= v.len(),
    ensures
        match r {
            Some((x, e)) => parse_rmeta(v@, i as int) == Some((x@, e as int)) && i <= e <= v.len(),
            None => parse_rmeta(v@, i as int) is None,
        },
{
    let j = skip_ws_x(v, i);
    if !(j < v.len() && v[j] == '{') {
        return None;
    }
    rmeta_fields_x(v, j + 1, RepositoryMetadata::default())
}

#[verifier::rlimit(60)]
#[verifier::spinoff_prover]
pub fn push_rmeta(x: &RepositoryMetadata, p: bool, d: usize, out: &mut Vec<char>)
    requires
        d < 80,
    ensures
        final(out)@ == old(out)@ + ser_rmeta(x@, p, d as nat),
{
    proof {
        reveal(ser_rmeta);
    }
    let he = x.homepage.as_str().unicode_len() == 0;
    let de = x.donate.as_str().unicode_len() == 0;
    let se = x.support.as_str().unicode_len() == 0;
    if he && de && se {
        out.push('{');
        out.push('}');
        assert(out@ =~= old(out)@ + ser_rmeta(x@, p, d as nat));
        return ;
    }
    out.push('{');
    if !he {
        push_member_str(true, "homepage", x.homepage.as_str(), p, d, out);
    }
    if !de {
        push_member_str(he, "donate", x.donate.as_str(), p, d, out);
    }
    if !se {
        push_member_str(he && de, "support", x.support.as_str(), p, d, out);
    }
    push_obj_end(p, d, out);
    assert(out@ =~= old(out)@ + ser_rmeta(x@, p, d as nat));
}

// ---------- repository setting ----------

#[derive(Debug, Clone)]
pub struct RepositorySetting {
    pub base_url: String,
    pub keep_size: usize,
}

#[verifier::ext_equal]
pub ghost struct RepositorySettingV {
    pub base_url: Seq<char>,
    pub keep_size: int,
}

impl View for RepositorySetting {
    type V = RepositorySettingV;

    open spec fn view(&self) -> RepositorySettingV {
        RepositorySettingV { base_url: self.base_url@, keep_size: self.keep_size as int }
    }
}

pub open spec fn rsetting_default() -> RepositorySettingV {
    RepositorySettingV { base_url: Seq::empty(), keep_size: 3 }
}

impl Default for RepositorySetting {
    fn default() -> (r: RepositorySetting)
        ensures
            r@ == rsetting_default(),
    {
        RepositorySetting { base_url: String::new(), keep_size: 3 }
    }
}

impl RepositorySetting {
    pub fn new(base_url: &str, keep_size: usize) -> (r: RepositorySetting)
        ensures
            r@ == (RepositorySettingV { base_url: base_url@, keep_size: keep_size as int }),
    {
        RepositorySetting { base_url: base_url.to_owned(), keep_size }
    }
}

impl PartialEq for RepositorySetting {
    fn eq(&self, other: &Self) -> (r: bool) {
        self.base_url == other.base_url && self.keep_size == other.keep_size
    }
}

impl vstd::std_specs::cmp::PartialEqSpecImpl for RepositorySetting {
    open spec fn obeys_eq_spec() -> bool {
        true
    }

    open spec fn eq_spec(&self, other: &Self) -> bool {
        self@ == other@
    }
}

#[verifier::opaque]
pub open spec fn rsetting_member(s: Seq<char>, i: int, acc: RepositorySettingV, k: Seq<char>) -> Option<
    (RepositorySettingV, int),
> {
    if k == "base_url"@ {
        match parse_string(s, i) {
            Some((t, e)) => Some((RepositorySettingV { base_url: t, ..acc }, e)),
            None => None,
        }
    } else if k == "keep_size"@ {
        match parse_usize(s, i) {
            Some((x, e)) => Some((RepositorySettingV { keep_size: x, ..acc }, e)),
            None => None,
        }
    } else {
        match skip_value(s, i) {
            Some(e) => Some((acc, e)),
            None => None,
        }
    }
}

pub open spec fn rsetting_mem() -> spec_fn(Seq<char>, int, RepositorySettingV, Seq<char>) -> Option<
    (RepositorySettingV, int),
> {
    |s: Seq<char>, i: int, a: RepositorySettingV, k: Seq<char>| rsetting_member(s, i, a, k)
}

pub open spec fn parse_rsetting(s: Seq<char>, i: int) -> Option<(RepositorySettingV, int)> {
    let j = skip_ws(s, i);
    if j < s.len() && s[j] == '{' {
        obj_fields(s, j + 1, rsetting_default(), rsetting_mem())
    } else {
        None
    }
}

pub open spec fn ser_rsetting(v: RepositorySettingV, p: bool, d: nat) -> Seq<char> {
    seq!['{'] + member_str(true, "base_url"@, v.base_url, p, d) + member_i64(
        false,
        "keep_size"@,
        v.keep_size,
        p,
        d,
    ) + obj_end(p, d)
}

fn rsetting_member_x(v: &Vec<char>, vp: usize, key: &Vec<char>, acc: RepositorySetting) -> (r:
    Option<(RepositorySetting, usize)>)
    requires
        vp <= v.len(),
    ensures
        match r {
            Some((a2, e)) => rsetting_member(v@, vp as int, acc@, key@) == Some((a2@, e as int))
                && vp <= e <= v.len(),
            None => rsetting_member(v@, vp as int, acc@, key@) is None,
        },
{
    proof {
        reveal(rsetting_member);
    }
    let mut acc = acc;
    if text::chars_eq_str(key, "base_url") {
        let (t, e) = match parse_string_x(v, vp) {
            Some(x) => x,
            None => {
                return None;
            },
        };
        acc.base_url = text::chars_to_string(&t);
        Some((acc, e))
    } else if text::chars_eq_str(key, "keep_size") {
        let (x, e) = match parse_usize_x(v, vp) {
            Some(y) => y,
            None => {
                return None;
            },
        };
        acc.keep_size = x;
        Some((acc, e))
    } else {
        let e = match skip_value_x(v, vp) {
            Some(e) => e,
            None => {
                return None;
            },
        };
        Some((acc, e))
    }
}

#[verifier::rlimit(60)]
#[verifier::spinoff_prover]
fn rsetting_fields_x(v: &Vec<char>, i: usize, acc: RepositorySetting) -> (r: Option<
    (RepositorySetting, usize),
>)
    requires
        i <= v.len(),
    ensures
        match r {
            Some((a2, e)) => obj_fields(v@, i as int, acc@, rsetting_mem()) == Some(
                (a2@, e as int),
            ) && i <= e <= v.len(),
            None => obj_fields(v@, i as int, acc@, rsetting_mem()) is None,
        },
    decreases v.len() - i,
{
    proof {
        reveal(obj_fields);
    }
    let j = skip_ws_x(v, i);
    if j >= v.len() {
        return None;
    }
    if v[j] == '}' {
        return Some((acc, j + 1));
    }
    let (key, p1) = match parse_string_x(v, j) {
        Some(kp) => kp,
        None => {
            return None;
        },
    };
    let q = skip_ws_x(v, p1);
    if !(q < v.len() && v[q] == ':') {
        return None;
    }
    let (acc2, p2) = match rsetting_member_x(v, q + 1, &key, acc) {
        Some(x) => x,
        None => {
            return None;
        },
    };
    let w = skip_ws_x(v, p2);
    if w < v.len() && v[w] == ',' {
        rsetting_fields_x(v, w + 1, acc2)
    } else if w < v.len() && v[w] == '}' {
        Some((acc2, w + 1))
    } else {
        None
    }
}

pub fn parse_rsetting_x(v: &Vec<char>, i: usize) -> (r: Option<(RepositorySetting, usize)>)
    requires
        i <= v.len(),
    ensures
        match r {
            Some((x, e)) => parse_rsetting(v@, i as int) == Some((x@, e as int)) && i <= e
                <= v.len(),
            None => parse_rsetting(v@, i as int) is None,
        },
{
    let j = skip_ws_x(v, i);
    if !(j < v.len() && v[j] == '{') {
        return None;
    }
    rsetting_fields_x(v, j + 1, RepositorySetting::default())
}

#[verifier::rlimit(50)]
#[verifier::spinoff_prover]
pub fn push_rsetting(x: &RepositorySetting, p: bool, d: usize, out: &mut Vec<char>)
    requires
        d < 80,
    ensures
        final(out)@ == old(out)@ + ser_rsetting(x@, p, d as nat),
{
    out.push('{');
    push_member_str(true, "base_url", x.base_url.as_str(), p, d, out);
    push_member_usize(false, "keep_size", x.keep_size, p, d, out);
    push_obj_end(p, d, out);
    assert(out@ =~= old(out)@ + ser_rsetting(x@, p, d as nat));
}

// ---------- round trips: log and repository setting ----------

proof fn lemma_log_keys()
    ensures
        "level"@ != "disabled"@,
        "output"@ != "disabled"@,
        "output"@ != "level"@,
        "timestamp"@ != "disabled"@,
        "timestamp"@ != "level"@,
        "timestamp"@ != "output"@,
        "keep_size"@ != "base_url"@,
{
    reveal_strlit("disabled");
    reveal_strlit("level");
    reveal_strlit("output");
    reveal_strlit("timestamp");
    reveal_strlit("base_url");
    reveal_strlit("keep_size");
    assert("disabled"@.len() == 8);
    assert("level"@.len() == 5);
    assert("output"@.len() == 6);
    assert("timestamp"@.len() == 9);
    assert("base_url"@.len() == 8);
    assert("keep_size"@.len() == 9);
}

/// Parsing the serialization of the repository setting, after optional
/// whitespace, yields it back.
#[verifier::rlimit(100)]
#[verifier::spinoff_prover]
pub proof fn lemma_rsetting_rt(v: RepositorySettingV, p: bool, d: nat, s: Seq<char>, i: int, m: int)
    requires
        0 <= v.keep_size <= usize::MAX,
        v.keep_size <= i64::MAX,
        0 <= i <= m,
        m + ser_rsetting(v, p, d).len() <= s.len(),
        forall|x: int| i <= x < m ==> is_ws(s[x]),
        s.subrange(m, m + ser_rsetting(v, p, d).len()) == ser_rsetting(v, p, d),
    ensures
        parse_rsetting(s, i) == Some((v, m + ser_rsetting(v, p, d).len())),
{
    lemma_log_keys();
    let t1 = member_str(true, "base_url"@, v.base_url, p, d);
    let t2 = member_i64(false, "keep_size"@, v.keep_size, p, d);
    let e2 = obj_end(p, d);
    let ll = ser_rsetting(v, p, d).len();
    let fin = m + ll;
    assert(ser_rsetting(v, p, d) =~= seq!['{'] + (t1 + (t2 + e2)));
    crate::json::lemma_subrange_cat(s, m, seq!['{'], t1 + (t2 + e2));
    crate::json::lemma_char_at(s, m, seq!['{'], 0);
    crate::json::lemma_skip_ws_stops(s, i, m);
    let p0 = m + 1;
    crate::json::lemma_subrange_cat(s, p0, t1, t2 + e2);
    let p1 = p0 + t1.len();
    crate::json::lemma_subrange_cat(s, p1, t2, e2);
    let p2 = p1 + t2.len();
    crate::json::lemma_chunk_str(s, p0, true, "base_url"@, v.base_url, p, d);
    crate::json::lemma_char_at(s, p2, e2, 0);
    assert(e2[0] == '\n' || e2[0] == '}');
    crate::json::lemma_chunk_i64(s, p1, false, "keep_size"@, v.keep_size, p, d);
    crate::json::lemma_obj_close(s, p2, p, d);
    let a0 = rsetting_default();
    let a1 = RepositorySettingV { base_url: v.base_url, ..a0 };
    let a2 = RepositorySettingV { keep_size: v.keep_size, ..a1 };
    let sp = sep_text(false, p, d).len();
    let ks2 = p1 + sp;
    let kq2 = ks2 + crate::json::ser_string("keep_size"@).len();
    assert(rsetting_mem()(s, kq2 + 1, a1, "keep_size"@) == rsetting_member(s, kq2 + 1, a1,
    "keep_size"@));
    assert(rsetting_member(s, kq2 + 1, a1, "keep_size"@) == Some((a2, p2))) by {
        reveal(rsetting_member);
    }
    crate::json::lemma_fields_step_close(s, p1 + 1, ks2, kq2, p2, fin - 1, "keep_size"@, a1, a2,
    rsetting_mem());
    let ks1 = p0 + sep_text(true, p, d).len();
    let kq1 = ks1 + crate::json::ser_string("base_url"@).len();
    assert(rsetting_mem()(s, kq1 + 1, a0, "base_url"@) == rsetting_member(s, kq1 + 1, a0,
    "base_url"@));
    assert(rsetting_member(s, kq1 + 1, a0, "base_url"@) == Some((a1, p1))) by {
        reveal(rsetting_member);
    }
    crate::json::lemma_fields_step_comma(s, p0, ks1, kq1, p1, p1, "base_url"@, a0, a1, Some(
        (a2, fin),
    ), rsetting_mem());
    assert(obj_fields(s, p0, a0, rsetting_mem()) == Some((a2, fin)));
    assert(a2 =~= v);
}

/// Round trip of log options whose output path is empty.
#[verifier::rlimit(100)]
#[verifier::spinoff_prover]
proof fn lemma_log_rt_no_output(v: LogV, p: bool, d: nat, s: Seq<char>, i: int, m: int)
    requires
        0 <= i <= m,
        m + ser_log(v, p, d).len() <= s.len(),
        forall|x: int| i <= x < m ==> is_ws(s[x]),
        s.subrange(m, m + ser_log(v, p, d).len()) == ser_log(v, p, d),
        v.output.len() == 0,
    ensures
        parse_log(s, i) == Some((v, m + ser_log(v, p, d).len())),
{
    lemma_log_keys();
    reveal(ser_log);
    let t1 = member_bool(true, "disabled"@, v.disabled, p, d);
    let t2 = member_str(false, "level"@, v.level, p, d);
    let t3 = member_str(false, "output"@, v.output, p, d);
    let t4 = member_bool(false, "timestamp"@, v.timestamp, p, d);
    let e4 = obj_end(p, d);
    let ll = ser_log(v, p, d).len();
    let fin = m + ll;
    let a0 = log_default();
    let a1 = LogV { disabled: v.disabled, ..a0 };
    let a2 = LogV { level: v.level, ..a1 };

        assert(ser_log(v, p, d) =~= seq!['{'] + (t1 + (t2 + (t4 + e4))));
        crate::json::lemma_subrange_cat(s, m, seq!['{'], t1 + (t2 + (t4 + e4)));
        crate::json::lemma_char_at(s, m, seq!['{'], 0);
        crate::json::lemma_skip_ws_stops(s, i, m);
        let p0 = m + 1;
        crate::json::lemma_subrange_cat(s, p0, t1, t2 + (t4 + e4));
        let p1 = p0 + t1.len();
        crate::json::lemma_subrange_cat(s, p1, t2, t4 + e4);
        let p2 = p1 + t2.len();
        crate::json::lemma_subrange_cat(s, p2, t4, e4);
        let p3 = p2 + t4.len();
        crate::json::lemma_chunk_bool(s, p0, true, "disabled"@, v.disabled, p, d);
        crate::json::lemma_chunk_str(s, p1, false, "level"@, v.level, p, d);
        crate::json::lemma_chunk_bool(s, p2, false, "timestamp"@, v.timestamp, p, d);
        crate::json::lemma_obj_close(s, p3, p, d);
        let a4 = LogV { timestamp: v.timestamp, ..a2 };
        let sp = sep_text(false, p, d).len();
        let ks3 = p2 + sp;
        let kq3 = ks3 + crate::json::ser_string("timestamp"@).len();
        assert(log_mem()(s, kq3 + 1, a2, "timestamp"@) == log_member(s, kq3 + 1, a2,
        "timestamp"@));
        assert(log_member(s, kq3 + 1, a2, "timestamp"@) == Some((a4, p3))) by {
            reveal(log_member);
        }
        crate::json::lemma_fields_step_close(s, p2 + 1, ks3, kq3, p3, fin - 1, "timestamp"@, a2,
        a4, log_mem());
        let ks2 = p1 + sp;
        let kq2 = ks2 + crate::json::ser_string("level"@).len();
        assert(log_mem()(s, kq2 + 1, a1, "level"@) == log_member(s, kq2 + 1, a1, "level"@));
        assert(log_member(s, kq2 + 1, a1, "level"@) == Some((a2, p2))) by {
            reveal(log_member);
        }
        crate::json::lemma_fields_step_comma(s, p1 + 1, ks2, kq2, p2, p2, "level"@, a1, a2, Some(
            (a4, fin),
        ), log_mem());
        let ks1 = p0 + sep_text(true, p, d).len();
        let kq1 = ks1 + crate::json::ser_string("disabled"@).len();
        assert(log_mem()(s, kq1 + 1, a0, "disabled"@) == log_member(s, kq1 + 1, a0, "disabled"@));
        assert(log_member(s, kq1 + 1, a0, "disabled"@) == Some((a1, p1))) by {
            reveal(log_member);
        }
        crate::json::lemma_fields_step_comma(s, p0, ks1, kq1, p1, p1, "disabled"@, a0, a1, Some(
            (a4, fin),
        ), log_mem());
        assert(obj_fields(s, p0, a0, log_mem()) == Some((a4, fin)));
        assert(a4 =~= v);
}

/// Round trip of log options that carry an output path.
#[verifier::rlimit(100)]
#[verifier::spinoff_prover]
proof fn lemma_log_rt_with_output(v: LogV, p: bool, d: nat, s: Seq<char>, i: int, m: int)
    requires
        0 <= i <= m,
        m + ser_log(v, p, d).len() <= s.len(),
        forall|x: int| i <= x < m ==> is_ws(s[x]),
        s.subrange(m, m + ser_log(v, p, d).len()) == ser_log(v, p, d),
        v.output.len() > 0,
    ensures
        parse_log(s, i) == Some((v, m + ser_log(v, p, d).len())),
{
    lemma_log_keys();
    reveal(ser_log);
    let t1 = member_bool(true, "disabled"@, v.disabled, p, d);
    let t2 = member_str(false, "level"@, v.level, p, d);
    let t3 = member_str(false, "output"@, v.output, p, d);
    let t4 = member_bool(false, "timestamp"@, v.timestamp, p, d);
    let e4 = obj_end(p, d);
    let ll = ser_log(v, p, d).len();
    let fin = m + ll;
    let a0 = log_default();
    let a1 = LogV { disabled: v.disabled, ..a0 };
    let a2 = LogV { level: v.level, ..a1 };

        assert(ser_log(v, p, d) =~= seq!['{'] + (t1 + (t2 + (t3 + (t4 + e4)))));
        crate::json::lemma_subrange_cat(s, m, seq!['{'], t1 + (t2 + (t3 + (t4 + e4))));
        crate::json::lemma_char_at(s, m, seq!['{'], 0);
        crate::json::lemma_skip_ws_stops(s, i, m);
        let p0 = m + 1;
        crate::json::lemma_subrange_cat(s, p0, t1, t2 + (t3 + (t4 + e4)));
        let p1 = p0 + t1.len();
        crate::json::lemma_subrange_cat(s, p1, t2, t3 + (t4 + e4));
        let p2 = p1 + t2.len();
        crate::json::lemma_subrange_cat(s, p2, t3, t4 + e4);
        let p3 = p2 + t3.len();
        crate::json::lemma_subrange_cat(s, p3, t4, e4);
        let p4 = p3 + t4.len();
        crate::json::lemma_chunk_bool(s, p0, true, "disabled"@, v.disabled, p, d);
        crate::json::lemma_chunk_str(s, p1, false, "level"@, v.level, p, d);
        crate::json::lemma_chunk_str(s, p2, false, "output"@, v.output, p, d);
        crate::json::lemma_chunk_bool(s, p3, false, "timestamp"@, v.timestamp, p, d);
        crate::json::lemma_obj_close(s, p4, p, d);
        let a3 = LogV { output: v.output, ..a2 };
        let a4 = LogV { timestamp: v.timestamp, ..a3 };
        let sp = sep_text(false, p, d).len();
        let ks4 = p3 + sp;
        let kq4 = ks4 + crate::json::ser_string("timestamp"@).len();
        assert(log_mem()(s, kq4 + 1, a3, "timestamp"@) == log_member(s, kq4 + 1, a3,
        "timestamp"@));
        assert(log_member(s, kq4 + 1, a3, "timestamp"@) == Some((a4, p4))) by {
            reveal(log_member);
        }
        crate::json::lemma_fields_step_close(s, p3 + 1, ks4, kq4, p4, fin - 1, "timestamp"@, a3,
        a4, log_mem());
        let ks3 = p2 + sp;
        let kq3 = ks3 + crate::json::ser_string("output"@).len();
        assert(log_mem()(s, kq3 + 1, a2, "output"@) == log_member(s, kq3 + 1, a2, "output"@));
        assert(log_member(s, kq3 + 1, a2, "output"@) == Some((a3, p3))) by {
            reveal(log_member);
        }
        crate::json::lemma_fields_step_comma(s, p2 + 1, ks3, kq3, p3, p3, "output"@, a2, a3, Some(
            (a4, fin),
        ), log_mem());
        let ks2 = p1 + sp;
        let kq2 = ks2 + crate::json::ser_string("level"@).len();
        assert(log_mem()(s, kq2 + 1, a1, "level"@) == log_member(s, kq2 + 1, a1, "level"@));
        assert(log_member(s, kq2 + 1, a1, "level"@) == Some((a2, p2))) by {
            reveal(log_member);
        }
        crate::json::lemma_fields_step_comma(s, p1 + 1, ks2, kq2, p2, p2, "level"@, a1, a2, Some(
            (a4, fin),
        ), log_mem());
        let ks1 = p0 + sep_text(true, p, d).len();
        let kq1 = ks1 + crate::json::ser_string("disabled"@).len();
        assert(log_mem()(s, kq1 + 1, a0, "disabled"@) == log_member(s, kq1 + 1, a0, "disabled"@));
        assert(log_member(s, kq1 + 1, a0, "disabled"@) == Some((a1, p1))) by {
            reveal(log_member);
        }
        crate::json::lemma_fields_step_comma(s, p0, ks1, kq1, p1, p1, "disabled"@, a0, a1, Some(
            (a4, fin),
        ), log_mem());
        assert(obj_fields(s, p0, a0, log_mem()) == Some((a4, fin)));
        assert(a4 =~= v);
}

/// Parsing the serialization of the log options, after optional whitespace,
/// yields them back.
pub proof fn lemma_log_rt(v: LogV, p: bool, d: nat, s: Seq<char>, i: int, m: int)
    requires
        0 <= i <= m,
        m + ser_log(v, p, d).len() <= s.len(),
        forall|x: int| i <= x < m ==> is_ws(s[x]),
        s.subrange(m, m + ser_log(v, p, d).len()) == ser_log(v, p, d),
    ensures
        parse_log(s, i) == Some((v, m + ser_log(v, p, d).len())),
{
    if v.output.len() == 0 {
        lemma_log_rt_no_output(v, p, d, s, i, m);
    } else {
        lemma_log_rt_with_output(v, p, d, s, i, m);
    }
}

// ---------- round trip: repository metadata ----------

/// The serialized text of the donate and support members and the closing
/// brace; `first` says whether any member precedes them.
pub open spec fn rmeta_ds_text(v: RepositoryMetadataV, p: bool, d: nat, first: bool) -> Seq<
    char,
> {
    (if v.donate.len() == 0 {
        Seq::<char>::empty()
    } else {
        member_str(first, "donate"@, v.donate, p, d)
    }) + (if v.support.len() == 0 {
        Seq::<char>::empty()
    } else {
        member_str(first && v.donate.len() == 0, "support"@, v.support, p, d)
    }) + obj_end(p, d)
}

/// The accumulator after the donate and support members.
pub open spec fn rmeta_upd_ds(acc: RepositoryMetadataV, v: RepositoryMetadataV) -> RepositoryMetadataV {
    RepositoryMetadataV {
        donate: if v.donate.len() == 0 {
            acc.donate
        } else {
            v.donate
        },
        support: if v.support.len() == 0 {
            acc.support
        } else {
            v.support
        },
        ..acc
    }
}

proof fn lemma_rmeta_keys()
    ensures
        "donate"@ != "homepage"@,
        "support"@ != "homepage"@,
        "support"@ != "donate"@,
{
    reveal_strlit("homepage");
    reveal_strlit("donate");
    reveal_strlit("support");
    assert("homepage"@.len() == 8);
    assert("donate"@.len() == 6);
    assert("support"@.len() == 7);
}

/// Round trip of the donate and support members and the close.  When
/// `first`, the fields parser is entered right at `pos`; otherwise the
/// ensures describe what the preceding member's continuation sees there.
#[verifier::rlimit(100)]
#[verifier::spinoff_prover]
proof fn lemma_rmeta_rt_ds(
    acc: RepositoryMetadataV,
    v: RepositoryMetadataV,
    p: bool,
    d: nat,
    s: Seq<char>,
    pos: int,
    first: bool,
)
    requires
        0 <= pos,
        pos + rmeta_ds_text(v, p, d, first).len() <= s.len(),
        s.subrange(pos, pos + rmeta_ds_text(v, p, d, first).len()) == rmeta_ds_text(v, p, d, first),
    ensures
        first ==> obj_fields(s, pos, acc, rmeta_mem()) == Some(
            (rmeta_upd_ds(acc, v), pos + rmeta_ds_text(v, p, d, first).len()),
        ),
        !first && (v.donate.len() > 0 || v.support.len() > 0) ==> skip_ws(s, pos) == pos && s[pos]
            == ',' && obj_fields(s, pos + 1, acc, rmeta_mem()) == Some(
            (rmeta_upd_ds(acc, v), pos + rmeta_ds_text(v, p, d, first).len()),
        ),
        !first && v.donate.len() == 0 && v.support.len() == 0 ==> skip_ws(s, pos) == pos
            + rmeta_ds_text(v, p, d, first).len() - 1 && s[pos + rmeta_ds_text(
            v,
            p,
            d,
            first,
        ).len() - 1] == '}',
{
    lemma_rmeta_keys();
    let txt = rmeta_ds_text(v, p, d, first);
    let ll = txt.len() as int;
    let fin = pos + ll;
    let e2 = obj_end(p, d);
    let sp = sep_text(false, p, d).len();
    if v.donate.len() > 0 {
        let t1 = member_str(first, "donate"@, v.donate, p, d);
        if v.support.len() > 0 {
            let t2 = member_str(false, "support"@, v.support, p, d);
            assert(txt =~= t1 + (t2 + e2));
            crate::json::lemma_subrange_cat(s, pos, t1, t2 + e2);
            let p1 = pos + t1.len();
            crate::json::lemma_subrange_cat(s, p1, t2, e2);
            let p2 = p1 + t2.len();
            crate::json::lemma_chunk_str(s, pos, first, "donate"@, v.donate, p, d);
            crate::json::lemma_chunk_str(s, p1, false, "support"@, v.support, p, d);
            crate::json::lemma_obj_close(s, p2, p, d);
            let a1 = RepositoryMetadataV { donate: v.donate, ..acc };
            let a2 = RepositoryMetadataV { support: v.support, ..a1 };
            let ks2 = p1 + sp;
            let kq2 = ks2 + ser_string("support"@).len();
            assert(rmeta_mem()(s, kq2 + 1, a1, "support"@) == rmeta_member(s, kq2 + 1, a1,
            "support"@));
            assert(rmeta_member(s, kq2 + 1, a1, "support"@) == Some((a2, p2))) by {
                reveal(rmeta_member);
            }
            crate::json::lemma_fields_step_close(s, p1 + 1, ks2, kq2, p2, fin - 1, "support"@, a1,
            a2, rmeta_mem());
            let ks1 = pos + sep_text(first, p, d).len();
            let kq1 = ks1 + ser_string("donate"@).len();
            assert(rmeta_mem()(s, kq1 + 1, acc, "donate"@) == rmeta_member(s, kq1 + 1, acc,
            "donate"@));
            assert(rmeta_member(s, kq1 + 1, acc, "donate"@) == Some((a1, p1))) by {
                reveal(rmeta_member);
            }
            crate::json::lemma_fields_step_comma(s, crate::json::chunk_entry(pos, first), ks1, kq1,
            p1, p1, "donate"@, acc, a1, Some((a2, fin)), rmeta_mem());
            assert(rmeta_upd_ds(acc, v) =~= a2);
        } else {
            assert(txt =~= t1 + e2);
            crate::json::lemma_subrange_cat(s, pos, t1, e2);
            let p1 = pos + t1.len();
            crate::json::lemma_chunk_str(s, pos, first, "donate"@, v.donate, p, d);
            crate::json::lemma_obj_close(s, p1, p, d);
            let a1 = RepositoryMetadataV { donate: v.donate, ..acc };
            let ks1 = pos + sep_text(first, p, d).len();
            let kq1 = ks1 + ser_string("donate"@).len();
            assert(rmeta_mem()(s, kq1 + 1, acc, "donate"@) == rmeta_member(s, kq1 + 1, acc,
            "donate"@));
            assert(rmeta_member(s, kq1 + 1, acc, "donate"@) == Some((a1, p1))) by {
                reveal(rmeta_member);
            }
            crate::json::lemma_fields_step_close(s, crate::json::chunk_entry(pos, first), ks1, kq1,
            p1, fin - 1, "donate"@, acc, a1, rmeta_mem());
            assert(rmeta_upd_ds(acc, v) =~= a1);
        }
    } else {
        if v.support.len() > 0 {
            let t2 = member_str(first, "support"@, v.support, p, d);
            assert(txt =~= t2 + e2);
            crate::json::lemma_subrange_cat(s, pos, t2, e2);
            let p1 = pos + t2.len();
            crate::json::lemma_chunk_str(s, pos, first, "support"@, v.support, p, d);
            crate::json::lemma_obj_close(s, p1, p, d);
            let a1 = RepositoryMetadataV { support: v.support, ..acc };
            let ks1 = pos + sep_text(first, p, d).len();
            let kq1 = ks1 + ser_string("support"@).len();
            assert(rmeta_mem()(s, kq1 + 1, acc, "support"@) == rmeta_member(s, kq1 + 1, acc,
            "support"@));
            assert(rmeta_member(s, kq1 + 1, acc, "support"@) == Some((a1, p1))) by {
                reveal(rmeta_member);
            }
            crate::json::lemma_fields_step_close(s, crate::json::chunk_entry(pos, first), ks1, kq1,
            p1, fin - 1, "support"@, acc, a1, rmeta_mem());
            assert(rmeta_upd_ds(acc, v) =~= a1);
        } else {
            assert(txt =~= e2);
            crate::json::lemma_obj_close(s, pos, p, d);
            if first {
                crate::json::lemma_fields_empty(s, pos, fin - 1, acc, rmeta_mem());
                assert(rmeta_upd_ds(acc, v) =~= acc);
            }
        }
    }
}

/// Parsing the serialization of repository metadata, after optional
/// whitespace, yields it back.
#[verifier::rlimit(100)]
#[verifier::spinoff_prover]
pub proof fn lemma_rmeta_rt(v: RepositoryMetadataV, p: bool, d: nat, s: Seq<char>, i: int, m: int)
    requires
        0 <= i <= m,
        m + ser_rmeta(v, p, d).len() <= s.len(),
        forall|x: int| i <= x < m ==> is_ws(s[x]),
        s.subrange(m, m + ser_rmeta(v, p, d).len()) == ser_rmeta(v, p, d),
    ensures
        parse_rmeta(s, i) == Some((v, m + ser_rmeta(v, p, d).len())),
{
    reveal(ser_rmeta);
    lemma_rmeta_keys();
    let ll = ser_rmeta(v, p, d).len() as int;
    let fin = m + ll;
    let a0 = rmeta_default();
    if v.homepage.len() == 0 && v.donate.len() == 0 && v.support.len() == 0 {
        crate::json::lemma_char_at(s, m, ser_rmeta(v, p, d), 0);
        crate::json::lemma_char_at(s, m, ser_rmeta(v, p, d), 1);
        assert(s[m] == '{');
        assert(s[m + 1] == '}');
        crate::json::lemma_skip_ws_stops(s, i, m);
        crate::json::lemma_skip_ws_stops(s, m + 1, m + 1);
        crate::json::lemma_fields_empty(s, m + 1, m + 1, a0, rmeta_mem());
        assert(a0 =~= v);
    } else if v.homepage.len() > 0 {
        let t1 = member_str(true, "homepage"@, v.homepage, p, d);
        let rest = rmeta_ds_text(v, p, d, false);
        assert(ser_rmeta(v, p, d) =~= seq!['{'] + (t1 + rest));
        crate::json::lemma_subrange_cat(s, m, seq!['{'], t1 + rest);
        crate::json::lemma_char_at(s, m, seq!['{'], 0);
        crate::json::lemma_skip_ws_stops(s, i, m);
        let p0 = m + 1;
        crate::json::lemma_subrange_cat(s, p0, t1, rest);
        let p1 = p0 + t1.len();
        crate::json::lemma_chunk_str(s, p0, true, "homepage"@, v.homepage, p, d);
        let a1 = RepositoryMetadataV { homepage: v.homepage, ..a0 };
        lemma_rmeta_rt_ds(a1, v, p, d, s, p1, false);
        let a2 = rmeta_upd_ds(a1, v);
        let ks1 = p0 + sep_text(true, p, d).len();
        let kq1 = ks1 + ser_string("homepage"@).len();
        assert(rmeta_mem()(s, kq1 + 1, a0, "homepage"@) == rmeta_member(s, kq1 + 1, a0,
        "homepage"@));
        assert(rmeta_member(s, kq1 + 1, a0, "homepage"@) == Some((a1, p1))) by {
            reveal(rmeta_member);
        }
        if v.donate.len() > 0 || v.support.len() > 0 {
            crate::json::lemma_fields_step_comma(s, p0, ks1, kq1, p1, p1, "homepage"@, a0, a1, Some(
                (a2, fin),
            ), rmeta_mem());
        } else {
            crate::json::lemma_fields_step_close(s, p0, ks1, kq1, p1, fin - 1, "homepage"@, a0, a1,
            rmeta_mem());
            assert(a2 =~= a1);
        }
        assert(obj_fields(s, p0, a0, rmeta_mem()) == Some((a2, fin)));
        assert(a2 =~= v);
    } else {
        let rest = rmeta_ds_text(v, p, d, true);
        assert(ser_rmeta(v, p, d) =~= seq!['{'] + rest);
        crate::json::lemma_subrange_cat(s, m, seq!['{'], rest);
        crate::json::lemma_char_at(s, m, seq!['{'], 0);
        crate::json::lemma_skip_ws_stops(s, i, m);
        let p0 = m + 1;
        lemma_rmeta_rt_ds(a0, v, p, d, s, p0, true);
        assert(rmeta_upd_ds(a0, v) =~= v);
    }
}

// ---------- repository ----------

#[derive(Debug, Clone)]
pub struct Repository {
    pub name: String,
    pub metadata: RepositoryMetadata,
    pub setting: RepositorySetting,
}

#[verifier::ext_equal]
pub ghost struct RepositoryV {
    pub name: Seq<char>,
    pub metadata: RepositoryMetadataV,
    pub setting: RepositorySettingV,
}

impl View for Repository {
    type V = RepositoryV;

    open spec fn view(&self) -> RepositoryV {
        RepositoryV { name: self.name@, metadata: self.metadata@, setting: self.setting@ }
    }
}

impl Repository {
    pub fn new(name: &str, metadata: Option<RepositoryMetadata>, setting: RepositorySetting) -> (r:
        Repository)
        ensures
            r@.name == name@,
            r@.metadata == (match metadata {
                Some(m) => m@,
                None => rmeta_default(),
            }),
            r@.setting == setting@,
    {
        let md = match metadata {
            Some(m) => m,
            None => RepositoryMetadata::default(),
        };
        Repository { name: name.to_owned(), metadata: md, setting }
    }
}

impl PartialEq for Repository {
    fn eq(&self, other: &Self) -> (r: bool) {
        self.name == other.name && self.metadata == other.metadata && self.setting == other.setting
    }
}

impl vstd::std_specs::cmp::PartialEqSpecImpl for Repository {
    open spec fn obeys_eq_spec() -> bool {
        true
    }

    open spec fn eq_spec(&self, other: &Self) -> bool {
        self@ == other@
    }
}

#[verifier::ext_equal]
pub ghost struct RepAcc {
    pub v: RepositoryV,
    pub seen_name: bool,
    pub seen_setting: bool,
}

pub open spec fn rep_acc_init() -> RepAcc {
    RepAcc {
        v: RepositoryV {
            name: Seq::empty(),
            metadata: rmeta_default(),
            setting: rsetting_default(),
        },
        seen_name: false,
        seen_setting: false,
    }
}

#[verifier::opaque]
pub open spec fn rep_member(s: Seq<char>, i: int, acc: RepAcc, k: Seq<char>) -> Option<
    (RepAcc, int),
> {
    if k == "name"@ {
        match parse_string(s, i) {
            Some((t, e)) => Some(
                (RepAcc { v: RepositoryV { name: t, ..acc.v }, seen_name: true, ..acc }, e),
            ),
            None => None,
        }
    } else if k == "metadata"@ {
        match parse_rmeta(s, i) {
            Some((x, e)) => Some((RepAcc { v: RepositoryV { metadata: x, ..acc.v }, ..acc }, e)),
            None => None,
        }
    } else if k == "setting"@ {
        match parse_rsetting(s, i) {
            Some((x, e)) => Some(
                (RepAcc { v: RepositoryV { setting: x, ..acc.v }, seen_setting: true, ..acc }, e),
            ),
            None => None,
        }
    } else {
        match skip_value(s, i) {
            Some(e) => Some((acc, e)),
            None => None,
        }
    }
}

pub open spec fn rep_mem() -> spec_fn(Seq<char>, int, RepAcc, Seq<char>) -> Option<(RepAcc, int)> {
    |s: Seq<char>, i: int, a: RepAcc, k: Seq<char>| rep_member(s, i, a, k)
}

pub open spec fn parse_repository(s: Seq<char>, i: int) -> Option<(RepositoryV, int)> {
    let j = skip_ws(s, i);
    if j < s.len() && s[j] == '{' {
        match obj_fields(s, j + 1, rep_acc_init(), rep_mem()) {
            Some((acc, e)) => if acc.seen_name && acc.seen_setting {
                Some((acc.v, e))
            } else {
                None
            },
            None => None,
        }
    } else {
        None
    }
}

pub open spec fn ser_repository(v: RepositoryV, p: bool, d: nat) -> Seq<char> {
    seq!['{'] + member_str(true, "name"@, v.name, p, d) + (sep_text(false, p, d) + key_part(
        "metadata"@,
        p,
    ) + ser_rmeta(v.metadata, p, d + 1)) + (sep_text(false, p, d) + key_part("setting"@, p)
        + ser_rsetting(v.setting, p, d + 1)) + obj_end(p, d)
}

#[derive(Clone, Copy)]
struct RepFlags {
    name: bool,
    setting: bool,
}

impl RepFlags {
    spec fn lift(self, v: RepositoryV) -> RepAcc {
        RepAcc { v: v, seen_name: self.name, seen_setting: self.setting }
    }
}

/// One member of the repository section, dispatched by key.
fn rep_member_x(v: &Vec<char>, vp: usize, key: &Vec<char>, acc: Repository, f: RepFlags) -> (r:
    Option<(Repository, RepFlags, usize)>)
    requires
        vp <= v.len(),
    ensures
        match r {
            Some((a2, f2, e)) => rep_member(v@, vp as int, f.lift(acc@), key@) == Some(
                (f2.lift(a2@), e as int),
            ) && vp <= e <= v.len(),
            None => rep_member(v@, vp as int, f.lift(acc@), key@) is None,
        },
{
    proof {
        reveal(rep_member);
    }
    let mut acc = acc;
    let mut f = f;
    if text::chars_eq_str(key, "name") {
        let (t, e) = match parse_string_x(v, vp) {
            Some(x) => x,
            None => {
                return None;
            },
        };
        acc.name = text::chars_to_string(&t);
        f.name = true;
        Some((acc, f, e))
    } else if text::chars_eq_str(key, "metadata") {
        let (x, e) = match parse_rmeta_x(v, vp) {
            Some(y) => y,
            None => {
                return None;
            },
        };
        acc.metadata = x;
        Some((acc, f, e))
    } else if text::chars_eq_str(key, "setting") {
        let (x, e) = match parse_rsetting_x(v, vp) {
            Some(y) => y,
            None => {
                return None;
            },
        };
        acc.setting = x;
        f.setting = true;
        Some((acc, f, e))
    } else {
        let e = match skip_value_x(v, vp) {
            Some(e) => e,
            None => {
                return None;
            },
        };
        Some((acc, f, e))
    }
}

#[verifier::rlimit(60)]
#[verifier::spinoff_prover]
fn rep_fields_x(v: &Vec<char>, i: usize, acc: Repository, f: RepFlags) -> (r: Option<
    (Repository, RepFlags, usize),
>)
    requires
        i <= v.len(),
    ensures
        match r {
            Some((a2, f2, e)) => obj_fields(v@, i as int, f.lift(acc@), rep_mem()) == Some(
                (f2.lift(a2@), e as int),
            ) && i <= e <= v.len(),
            None => obj_fields(v@, i as int, f.lift(acc@), rep_mem()) is None,
        },
    decreases v.len() - i,
{
    proof {
        reveal(obj_fields);
    }
    let j = skip_ws_x(v, i);
    if j >= v.len() {
        return None;
    }
    if v[j] == '}' {
        return Some((acc, f, j + 1));
    }
    let (key, p1) = match parse_string_x(v, j) {
        Some(kp) => kp,
        None => {
            return None;
        },
    };
    let q = skip_ws_x(v, p1);
    if !(q < v.len() && v[q] == ':') {
        return None;
    }
    let (acc2, f2, p2) = match rep_member_x(v, q + 1, &key, acc, f) {
        Some(x) => x,
        None => {
            return None;
        },
    };
    let w = skip_ws_x(v, p2);
    if w < v.len() && v[w] == ',' {
        rep_fields_x(v, w + 1, acc2, f2)
    } else if w < v.len() && v[w] == '}' {
        Some((acc2, f2, w + 1))
    } else {
        None
    }
}

pub fn parse_repository_x(v: &Vec<char>, i: usize) -> (r: Option<(Repository, usize)>)
    requires
        i <= v.len(),
    ensures
        match r {
            Some((x, e)) => parse_repository(v@, i as int) == Some((x@, e as int)) && i <= e
                <= v.len(),
            None => parse_repository(v@, i as int) is None,
        },
{
    let j = skip_ws_x(v, i);
    if !(j < v.len() && v[j] == '{') {
        return None;
    }
    let acc = Repository {
        name: String::new(),
        metadata: RepositoryMetadata::default(),
        setting: RepositorySetting::default(),
    };
    let f = RepFlags { name: false, setting: false };
    assert(f.lift(acc@) =~= rep_acc_init());
    match rep_fields_x(v, j + 1, acc, f) {
        Some((a2, f2, e)) => {
            if f2.name && f2.setting {
                Some((a2, e))
            } else {
                None
            }
        },
        None => None,
    }
}

#[verifier::rlimit(100)]
#[verifier::spinoff_prover]
pub fn push_repository(x: &Repository, p: bool, d: usize, out: &mut Vec<char>)
    requires
        d < 78,
    ensures
        final(out)@ == old(out)@ + ser_repository(x@, p, d as nat),
{
    out.push('{');
    push_member_str(true, "name", x.name.as_str(), p, d, out);
    push_sep(false, p, d, out);
    push_key("metadata", p, out);
    push_rmeta(&x.metadata, p, d + 1, out);
    push_sep(false, p, d, out);
    push_key("setting", p, out);
    push_rsetting(&x.setting, p, d + 1, out);
    push_obj_end(p, d, out);
    assert(out@ =~= old(out)@ + ser_repository(x@, p, d as nat));
}

// ---------- round trip: repository ----------

/// The bounds under which a repository setting's numbers print and read back.
pub open spec fn rep_wf(v: RepositoryV) -> bool {
    0 <= v.setting.keep_size <= usize::MAX && v.setting.keep_size <= i64::MAX
}

proof fn lemma_rep_keys()
    ensures
        "metadata"@ != "name"@,
        "setting"@ != "name"@,
        "setting"@ != "metadata"@,
{
    reveal_strlit("name");
    reveal_strlit("metadata");
    reveal_strlit("setting");
    assert("name"@.len() == 4);
    assert("metadata"@.len() == 8);
    assert("setting"@.len() == 7);
}

/// Round trip of the `setting` member and the closing brace, entered at the
/// separating comma.
#[verifier::rlimit(100)]
#[verifier::spinoff_prover]
proof fn lemma_rep_rt_tail(
    acc: RepAcc,
    v: RepositoryV,
    p: bool,
    d: nat,
    s: Seq<char>,
    pos: int,
)
    requires
        rep_wf(v),
        0 <= pos,
        pos + sep_text(false, p, d).len() + key_part("setting"@, p).len() + ser_rsetting(
            v.setting,
            p,
            d + 1,
        ).len() + obj_end(p, d).len() <= s.len(),
        s.subrange(
            pos,
            pos + sep_text(false, p, d).len() + key_part("setting"@, p).len() + ser_rsetting(
                v.setting,
                p,
                d + 1,
            ).len() + obj_end(p, d).len(),
        ) == sep_text(false, p, d) + (key_part("setting"@, p) + (ser_rsetting(v.setting, p, d + 1)
            + obj_end(p, d))),
    ensures
        obj_fields(s, pos + 1, acc, rep_mem()) == Some(
            (
                RepAcc { v: RepositoryV { setting: v.setting, ..acc.v }, seen_setting: true, ..acc },
                pos + sep_text(false, p, d).len() + key_part("setting"@, p).len() + ser_rsetting(
                    v.setting,
                    p,
                    d + 1,
                ).len() + obj_end(p, d).len(),
            ),
        ),
{
    lemma_rep_keys();
    let kp2 = key_part("setting"@, p);
    let v2 = ser_rsetting(v.setting, p, d + 1);
    let e2 = obj_end(p, d);
    let p1 = pos;
    crate::json::lemma_subrange_cat(s, p1, sep_text(false, p, d), kp2 + (v2 + e2));
    let ks2 = p1 + sep_text(false, p, d).len();
    crate::json::lemma_subrange_cat(s, ks2, kp2, v2 + e2);
    let vs2 = ks2 + kp2.len();
    crate::json::lemma_subrange_cat(s, vs2, v2, e2);
    let p2 = vs2 + v2.len();
    let fin = p2 + e2.len();
    assert(sep_text(false, p, d) =~= seq![','] + crate::json::open_sep(p, d + 1));
    crate::json::lemma_subrange_cat(s, p1, seq![','], crate::json::open_sep(p, d + 1));
    crate::json::lemma_char_at(s, p1, seq![','], 0);
    assert(s[p1] == ',');
    crate::json::lemma_skip_ws_stops(s, p1, p1);
    crate::json::lemma_open_sep_ws(p, d + 1);
    assert forall|y: int| p1 + 1 <= y < ks2 implies is_ws(s[y]) by {
        crate::json::lemma_char_at(s, p1 + 1, crate::json::open_sep(p, d + 1), y - (p1 + 1));
        assert(is_ws(crate::json::open_sep(p, d + 1)[y - (p1 + 1)]));
    }
    crate::json::lemma_member_head(s, p1 + 1, ks2, "setting"@, p);
    crate::json::lemma_member_head(s, ks2, ks2, "setting"@, p);
    assert(ser_string("setting"@).len() >= 2);
    assert(s[ks2] == '"') by {
        crate::json::lemma_char_at(s, ks2, kp2, 0);
        assert(kp2[0] == ser_string("setting"@)[0]);
    }
    crate::json::lemma_skip_ws_stops(s, p1 + 1, ks2);
    let kq2 = ks2 + ser_string("setting"@).len();
    lemma_rsetting_rt(v.setting, p, (d + 1) as nat, s, kq2 + 1, vs2);
    crate::json::lemma_obj_close(s, p2, p, d);
    let a2 = RepAcc { v: RepositoryV { setting: v.setting, ..acc.v }, seen_setting: true, ..acc };
    assert(rep_mem()(s, kq2 + 1, acc, "setting"@) == rep_member(s, kq2 + 1, acc, "setting"@));
    assert(rep_member(s, kq2 + 1, acc, "setting"@) == Some((a2, p2))) by {
        reveal(rep_member);
    }
    crate::json::lemma_fields_step_close(s, p1 + 1, ks2, kq2, p2, fin - 1, "setting"@, acc, a2,
    rep_mem());
}

/// Parsing the serialization of the repository section, after optional
/// whitespace, yields it back.
#[verifier::rlimit(100)]
#[verifier::spinoff_prover]
pub proof fn lemma_repository_rt(v: RepositoryV, p: bool, d: nat, s: Seq<char>, i: int, m: int)
    requires
        rep_wf(v),
        0 <= i <= m,
        m + ser_repository(v, p, d).len() <= s.len(),
        forall|x: int| i <= x < m ==> is_ws(s[x]),
        s.subrange(m, m + ser_repository(v, p, d).len()) == ser_repository(v, p, d),
    ensures
        parse_repository(s, i) == Some((v, m + ser_repository(v, p, d).len())),
{
    lemma_rep_keys();
    let t1 = member_str(true, "name"@, v.name, p, d);
    let kp1 = key_part("metadata"@, p);
    let v1 = ser_rmeta(v.metadata, p, d + 1);
    let kp2 = key_part("setting"@, p);
    let v2 = ser_rsetting(v.setting, p, d + 1);
    let e2 = obj_end(p, d);
    let ll = ser_repository(v, p, d).len() as int;
    let fin = m + ll;
    assert(ser_repository(v, p, d) =~= seq!['{'] + (t1 + (sep_text(false, p, d) + (kp1 + (v1 + (
    sep_text(false, p, d) + (kp2 + (v2 + e2))))))));
    crate::json::lemma_subrange_cat(s, m, seq!['{'], t1 + (sep_text(false, p, d) + (kp1 + (v1 + (
    sep_text(false, p, d) + (kp2 + (v2 + e2)))))));
    crate::json::lemma_char_at(s, m, seq!['{'], 0);
    crate::json::lemma_skip_ws_stops(s, i, m);
    let p0 = m + 1;
    crate::json::lemma_subrange_cat(s, p0, t1, sep_text(false, p, d) + (kp1 + (v1 + (sep_text(
        false,
        p,
        d,
    ) + (kp2 + (v2 + e2))))));
    let p1 = p0 + t1.len();
    crate::json::lemma_subrange_cat(s, p1, sep_text(false, p, d), kp1 + (v1 + (sep_text(false, p, d)
        + (kp2 + (v2 + e2)))));
    let ks1 = p1 + sep_text(false, p, d).len();
    crate::json::lemma_subrange_cat(s, ks1, kp1, v1 + (sep_text(false, p, d) + (kp2 + (v2 + e2))));
    let vs1 = ks1 + kp1.len();
    crate::json::lemma_subrange_cat(s, vs1, v1, sep_text(false, p, d) + (kp2 + (v2 + e2)));
    let p2 = vs1 + v1.len();
    crate::json::lemma_chunk_str(s, p0, true, "name"@, v.name, p, d);
    assert(sep_text(false, p, d) =~= seq![','] + crate::json::open_sep(p, d + 1));
    crate::json::lemma_subrange_cat(s, p1, seq![','], crate::json::open_sep(p, d + 1));
    crate::json::lemma_char_at(s, p1, seq![','], 0);
    assert(s[p1] == ',');
    crate::json::lemma_skip_ws_stops(s, p1, p1);
    crate::json::lemma_open_sep_ws(p, d + 1);
    assert forall|y: int| p1 + 1 <= y < ks1 implies is_ws(s[y]) by {
        crate::json::lemma_char_at(s, p1 + 1, crate::json::open_sep(p, d + 1), y - (p1 + 1));
        assert(is_ws(crate::json::open_sep(p, d + 1)[y - (p1 + 1)]));
    }
    crate::json::lemma_member_head(s, p1 + 1, ks1, "metadata"@, p);
    crate::json::lemma_member_head(s, ks1, ks1, "metadata"@, p);
    assert(ser_string("metadata"@).len() >= 2);
    assert(s[ks1] == '"') by {
        crate::json::lemma_char_at(s, ks1, kp1, 0);
        assert(kp1[0] == ser_string("metadata"@)[0]);
    }
    crate::json::lemma_skip_ws_stops(s, p1 + 1, ks1);
    let kq1 = ks1 + ser_string("metadata"@).len();
    lemma_rmeta_rt(v.metadata, p, (d + 1) as nat, s, kq1 + 1, vs1);
    let a0 = rep_acc_init();
    let a1 = RepAcc { v: RepositoryV { name: v.name, ..a0.v }, seen_name: true, ..a0 };
    let a2 = RepAcc { v: RepositoryV { metadata: v.metadata, ..a1.v }, ..a1 };
    lemma_rep_rt_tail(a2, v, p, d, s, p2);
    let a3 = RepAcc { v: RepositoryV { setting: v.setting, ..a2.v }, seen_setting: true, ..a2 };
    assert(rep_mem()(s, kq1 + 1, a1, "metadata"@) == rep_member(s, kq1 + 1, a1, "metadata"@));
    assert(rep_member(s, kq1 + 1, a1, "metadata"@) == Some((a2, p2))) by {
        reveal(rep_member);
    }
    crate::json::lemma_char_at(s, p2, sep_text(false, p, d) + (kp2 + (v2 + e2)), 0);
    assert((seq![','] + crate::json::open_sep(p, d + 1))[0] == ',');
    assert(sep_text(false, p, d)[0] == ',');
    assert(s[p2] == ',');
    crate::json::lemma_skip_ws_stops(s, p2, p2);
    crate::json::lemma_fields_step_comma(s, p1 + 1, ks1, kq1, p2, p2, "metadata"@, a1, a2, Some(
        (a3, fin),
    ), rep_mem());
    let ks0 = p0 + sep_text(true, p, d).len();
    let kq0 = ks0 + ser_string("name"@).len();
    assert(rep_mem()(s, kq0 + 1, a0, "name"@) == rep_member(s, kq0 + 1, a0, "name"@));
    assert(rep_member(s, kq0 + 1, a0, "name"@) == Some((a1, p1))) by {
        reveal(rep_member);
    }
    crate::json::lemma_fields_step_comma(s, p0, ks0, kq0, p1, p1, "name"@, a0, a1, Some((a3, fin)),
    rep_mem());
    assert(obj_fields(s, p0, a0, rep_mem()) == Some((a3, fin)));
    assert(a3.v =~= v);
}

// ---------- provider kind ----------

/// How a module's artifact is obtained.
#[derive(Debug, Clone, Copy, PartialEq, Eq, Structural)]
pub enum ProviderKind {
    UpdateJson,
    ZipUrl,
    Git,
}

/// The configuration token for a provider kind.
pub open spec fn kind_token(k: ProviderKind) -> Seq<char> {
    match k {
        ProviderKind::UpdateJson => "update-json"@,
        ProviderKind::ZipUrl => "zip-url"@,
        ProviderKind::Git => "git"@,
    }
}

pub open spec fn kind_of_token(t: Seq<char>) -> Option<ProviderKind> {
    if t == "update-json"@ {
        Some(ProviderKind::UpdateJson)
    } else if t == "zip-url"@ {
        Some(ProviderKind::ZipUrl)
    } else if t == "git"@ {
        Some(ProviderKind::Git)
    } else {
        None
    }
}

/// The token of each kind reads back as that kind.
pub proof fn lemma_kind_token_rt(k: ProviderKind)
    ensures
        kind_of_token(kind_token(k)) == Some(k),
{
    reveal_strlit("update-json");
    reveal_strlit("zip-url");
    reveal_strlit("git");
    assert("update-json"@.len() == 11);
    assert("zip-url"@.len() == 7);
    assert("git"@.len() == 3);
}

fn kind_token_x(k: ProviderKind) -> (r: &'static str)
    ensures
        r@ == kind_token(k),
{
    match k {
        ProviderKind::UpdateJson => "update-json",
        ProviderKind::ZipUrl => "zip-url",
        ProviderKind::Git => "git",
    }
}

// ---------- module metadata ----------

#[derive(Debug, Clone)]
pub struct ModuleMetadata {
    pub license: String,
    pub homepage: String,
    pub source: String,
    pub donate: String,
    pub support: String,
}

#[verifier::ext_equal]
pub ghost struct ModuleMetadataV {
    pub license: Seq<char>,
    pub homepage: Seq<char>,
    pub source: Seq<char>,
    pub donate: Seq<char>,
    pub support: Seq<char>,
}

impl View for ModuleMetadata {
    type V = ModuleMetadataV;

    open spec fn view(&self) -> ModuleMetadataV {
        ModuleMetadataV {
            license: self.license@,
            homepage: self.homepage@,
            source: self.source@,
            donate: self.donate@,
            support: self.support@,
        }
    }
}

pub open spec fn mmeta_default() -> ModuleMetadataV {
    ModuleMetadataV {
        license: Seq::empty(),
        homepage: Seq::empty(),
        source: Seq::empty(),
        donate: Seq::empty(),
        support: Seq::empty(),
    }
}

impl Default for ModuleMetadata {
    fn default() -> (r: ModuleMetadata)
        ensures
            r@ == mmeta_default(),
    {
        ModuleMetadata {
            license: String::new(),
            homepage: String::new(),
            source: String::new(),
            donate: String::new(),
            support: String::new(),
        }
    }
}

impl ModuleMetadata {
    pub fn new(license: &str, homepage: &str, donate: &str, support: &str, source: &str) -> (r:
        ModuleMetadata)
        ensures
            r@ == (ModuleMetadataV {
                license: license@,
                homepage: homepage@,
                source: source@,
                donate: donate@,
                support: support@,
            }),
    {
        ModuleMetadata {
            license: license.to_owned(),
            homepage: homepage.to_owned(),
            source: source.to_owned(),
            donate: donate.to_owned(),
            support: support.to_owned(),
        }
    }
}

impl PartialEq for ModuleMetadata {
    fn eq(&self, other: &Self) -> (r: bool) {
        self.license == other.license && self.homepage == other.homepage && self.source
            == other.source && self.donate == other.donate && self.support == other.support
    }
}

impl vstd::std_specs::cmp::PartialEqSpecImpl for ModuleMetadata {
    open spec fn obeys_eq_spec() -> bool {
        true
    }

    open spec fn eq_spec(&self, other: &Self) -> bool {
        self@ == other@
    }
}

#[verifier::opaque]
pub open spec fn mmeta_member(s: Seq<char>, i: int, acc: ModuleMetadataV, k: Seq<char>) -> Option<
    (ModuleMetadataV, int),
> {
    if k == "license"@ {
        match parse_string(s, i) {
            Some((t, e)) => Some((ModuleMetadataV { license: t, ..acc }, e)),
            None => None,
        }
    } else if k == "homepage"@ {
        match parse_string(s, i) {
            Some((t, e)) => Some((ModuleMetadataV { homepage: t, ..acc }, e)),
            None => None,
        }
    } else if k == "source"@ {
        match parse_string(s, i) {
            Some((t, e)) => Some((ModuleMetadataV { source: t, ..acc }, e)),
            None => None,
        }
    } else if k == "donate"@ {
        match parse_string(s, i) {
            Some((t, e)) => Some((ModuleMetadataV { donate: t, ..acc }, e)),
            None => None,
        }
    } else if k == "support"@ {
        match parse_string(s, i) {
            Some((t, e)) => Some((ModuleMetadataV { support: t, ..acc }, e)),
            None => None,
        }
    } else {
        match skip_value(s, i) {
            Some(e) => Some((acc, e)),
            None => None,
        }
    }
}

pub open spec fn mmeta_mem() -> spec_fn(Seq<char>, int, ModuleMetadataV, Seq<char>) -> Option<
    (ModuleMetadataV, int),
> {
    |s: Seq<char>, i: int, a: ModuleMetadataV, k: Seq<char>| mmeta_member(s, i, a, k)
}

pub open spec fn parse_mmeta(s: Seq<char>, i: int) -> Option<(ModuleMetadataV, int)> {
    let j = skip_ws(s, i);
    if j < s.len() && s[j] == '{' {
        obj_fields(s, j + 1, mmeta_default(), mmeta_mem())
    } else {
        None
    }
}

/// The member texts of module metadata, empties skipped.
pub open spec fn mmeta_members_text(v: ModuleMetadataV, p: bool, d: nat) -> Seq<char> {
    (if v.license.len() == 0 {
        Seq::<char>::empty()
    } else {
        member_str(true, "license"@, v.license, p, d)
    }) + (if v.homepage.len() == 0 {
        Seq::<char>::empty()
    } else {
        member_str(v.license.len() == 0, "homepage"@, v.homepage, p, d)
    }) + (if v.source.len() == 0 {
        Seq::<char>::empty()
    } else {
        member_str(v.license.len() == 0 && v.homepage.len() == 0, "source"@, v.source, p, d)
    }) + (if v.donate.len() == 0 {
        Seq::<char>::empty()
    } else {
        member_str(
            v.license.len() == 0 && v.homepage.len() == 0 && v.source.len() == 0,
            "donate"@,
            v.donate,
            p,
            d,
        )
    }) + (if v.support.len() == 0 {
        Seq::<char>::empty()
    } else {
        member_str(
            v.license.len() == 0 && v.homepage.len() == 0 && v.source.len() == 0 && v.donate.len()
                == 0,
            "support"@,
            v.support,
            p,
            d,
        )
    })
}

#[verifier::opaque]
pub open spec fn ser_mmeta(v: ModuleMetadataV, p: bool, d: nat) -> Seq<char> {
    if v.license.len() == 0 && v.homepage.len() == 0 && v.source.len() == 0 && v.donate.len() == 0
        && v.support.len() == 0 {
        seq!['{', '}']
    } else {
        seq!['{'] + mmeta_members_text(v, p, d) + obj_end(p, d)
    }
}

fn mmeta_member_x(v: &Vec<char>, vp: usize, key: &Vec<char>, acc: ModuleMetadata) -> (r: Option<
    (ModuleMetadata, usize),
>)
    requires
        vp <= v.len(),
    ensures
        match r {
            Some((a2, e)) => mmeta_member(v@, vp as int, acc@, key@) == Some((a2@, e as int)) && vp
                <= e <= v.len(),
            None => mmeta_member(v@, vp as int, acc@, key@) is None,
        },
{
    proof {
        reveal(mmeta_member);
    }
    let mut acc = acc;
    if text::chars_eq_str(key, "license") {
        let (t, e) = match parse_string_x(v, vp) {
            Some(x) => x,
            None => {
                return None;
            },
        };
        acc.license = text::chars_to_string(&t);
        Some((acc, e))
    } else if text::chars_eq_str(key, "homepage") {
        let (t, e) = match parse_string_x(v, vp) {
            Some(x) => x,
            None => {
                return None;
            },
        };
        acc.homepage = text::chars_to_string(&t);
        Some((acc, e))
    } else if text::chars_eq_str(key, "source") {
        let (t, e) = match parse_string_x(v, vp) {
            Some(x) => x,
            None => {
                return None;
            },
        };
        acc.source = text::chars_to_string(&t);
        Some((acc, e))
    } else if text::chars_eq_str(key, "donate") {
        let (t, e) = match parse_string_x(v, vp) {
            Some(x) => x,
            None => {
                return None;
            },
        };
        acc.donate = text::chars_to_string(&t);
        Some((acc, e))
    } else if text::chars_eq_str(key, "support") {
        let (t, e) = match parse_string_x(v, vp) {
            Some(x) => x,
            None => {
                return None;
            },
        };
        acc.support = text::chars_to_string(&t);
        Some((acc, e))
    } else {
        let e = match skip_value_x(v, vp) {
            Some(e) => e,
            None => {
                return None;
            },
        };
        Some((acc, e))
    }
}

#[verifier::rlimit(60)]
#[verifier::spinoff_prover]
fn mmeta_fields_x(v: &Vec<char>, i: usize, acc: ModuleMetadata) -> (r: Option<
    (ModuleMetadata, usize),
>)
    requires
        i <= v.len(),
    ensures
        match r {
            Some((a2, e)) => obj_fields(v@, i as int, acc@, mmeta_mem()) == Some((a2@, e as int))
                && i <= e <= v.len(),
            None => obj_fields(v@, i as int, acc@, mmeta_mem()) is None,
        },
    decreases v.len() - i,
{
    proof {
        reveal(obj_fields);
    }
    let j = skip_ws_x(v, i);
    if j >= v.len() {
        return None;
    }
    if v[j] == '}' {
        return Some((acc, j + 1));
    }
    let (key, p1) = match parse_string_x(v, j) {
        Some(kp) => kp,
        None => {
            return None;
        },
    };
    let q = skip_ws_x(v, p1);
    if !(q < v.len() && v[q] == ':') {
        return None;
    }
    let (acc2, p2) = match mmeta_member_x(v, q + 1, &key, acc) {
        Some(x) => x,
        None => {
            return None;
        },
    };
    let w = skip_ws_x(v, p2);
    if w < v.len() && v[w] == ',' {
        mmeta_fields_x(v, w + 1, acc2)
    } else if w < v.len() && v[w] == '}' {
        Some((acc2, w + 1))
    } else {
        None
    }
}

pub fn parse_mmeta_x(v: &Vec<char>, i: usize) -> (r: Option<(ModuleMetadata, usize)>)
    requires
        i <= v.len(),
    ensures
        match r {
            Some((x, e)) => parse_mmeta(v@, i as int) == Some((x@, e as int)) && i <= e <= v.len(),
            None => parse_mmeta(v@, i as int) is None,
        },
{
    let j = skip_ws_x(v, i);
    if !(j < v.len() && v[j] == '{') {
        return None;
    }
    mmeta_fields_x(v, j + 1, ModuleMetadata::default())
}

/// Append the non-empty metadata members.
#[verifier::rlimit(100)]
#[verifier::spinoff_prover]
fn push_mmeta_members(x: &ModuleMetadata, p: bool, d: usize, out: &mut Vec<char>)
    requires
        d < 80,
    ensures
        final(out)@ == old(out)@ + mmeta_members_text(x@, p, d as nat),
{
    let ghost dn = d as nat;
    let le = x.license.as_str().unicode_len() == 0;
    let he = x.homepage.as_str().unicode_len() == 0;
    let se = x.source.as_str().unicode_len() == 0;
    let de = x.donate.as_str().unicode_len() == 0;
    let ghost t1 = if x@.license.len() == 0 {
        Seq::<char>::empty()
    } else {
        member_str(true, "license"@, x@.license, p, dn)
    };
    let ghost t2 = if x@.homepage.len() == 0 {
        Seq::<char>::empty()
    } else {
        member_str(x@.license.len() == 0, "homepage"@, x@.homepage, p, dn)
    };
    let ghost t3 = if x@.source.len() == 0 {
        Seq::<char>::empty()
    } else {
        member_str(x@.license.len() == 0 && x@.homepage.len() == 0, "source"@, x@.source, p, dn)
    };
    let ghost t4 = if x@.donate.len() == 0 {
        Seq::<char>::empty()
    } else {
        member_str(
            x@.license.len() == 0 && x@.homepage.len() == 0 && x@.source.len() == 0,
            "donate"@,
            x@.donate,
            p,
            dn,
        )
    };
    if !le {
        push_member_str(true, "license", x.license.as_str(), p, d, out);
    }
    assert(out@ =~= old(out)@ + t1);
    if !he {
        push_member_str(le, "homepage", x.homepage.as_str(), p, d, out);
    }
    assert(out@ =~= old(out)@ + t1 + t2);
    if !se {
        push_member_str(le && he, "source", x.source.as_str(), p, d, out);
    }
    assert(out@ =~= old(out)@ + t1 + t2 + t3);
    if !de {
        push_member_str(le && he && se, "donate", x.donate.as_str(), p, d, out);
    }
    assert(out@ =~= old(out)@ + t1 + t2 + t3 + t4);
    if x.support.as_str().unicode_len() > 0 {
        push_member_str(le && he && se && de, "support", x.support.as_str(), p, d, out);
    }
    assert(out@ =~= old(out)@ + mmeta_members_text(x@, p, dn));
}

#[verifier::rlimit(100)]
#[verifier::spinoff_prover]
pub fn push_mmeta(x: &ModuleMetadata, p: bool, d: usize, out: &mut Vec<char>)
    requires
        d < 80,
    ensures
        final(out)@ == old(out)@ + ser_mmeta(x@, p, d as nat),
{
    proof {
        reveal(ser_mmeta);
    }
    let le = x.license.as_str().unicode_len() == 0;
    let he = x.homepage.as_str().unicode_len() == 0;
    let se = x.source.as_str().unicode_len() == 0;
    let de = x.donate.as_str().unicode_len() == 0;
    let ue = x.support.as_str().unicode_len() == 0;
    if le && he && se && de && ue {
        out.push('{');
        out.push('}');
        assert(out@ =~= old(out)@ + ser_mmeta(x@, p, d as nat));
        return ;
    }
    out.push('{');
    push_mmeta_members(x, p, d, out);
    push_obj_end(p, d, out);
    assert(out@ =~= old(out)@ + ser_mmeta(x@, p, d as nat));
}

// ---------- round trip: module metadata ----------

/// The donate and support members and the closing brace.
pub open spec fn mm_ds_text(v: ModuleMetadataV, p: bool, d: nat, first: bool) -> Seq<char> {
    (if v.donate.len() == 0 {
        Seq::<char>::empty()
    } else {
        member_str(first, "donate"@, v.donate, p, d)
    }) + (if v.support.len() == 0 {
        Seq::<char>::empty()
    } else {
        member_str(first && v.donate.len() == 0, "support"@, v.support, p, d)
    }) + obj_end(p, d)
}

/// The source member, then the rest.
pub open spec fn mm_sds_text(v: ModuleMetadataV, p: bool, d: nat, first: bool) -> Seq<char> {
    (if v.source.len() == 0 {
        Seq::<char>::empty()
    } else {
        member_str(first, "source"@, v.source, p, d)
    }) + mm_ds_text(v, p, d, first && v.source.len() == 0)
}

/// The homepage member, then the rest.
pub open spec fn mm_hsds_text(v: ModuleMetadataV, p: bool, d: nat, first: bool) -> Seq<char> {
    (if v.homepage.len() == 0 {
        Seq::<char>::empty()
    } else {
        member_str(first, "homepage"@, v.homepage, p, d)
    }) + mm_sds_text(v, p, d, first && v.homepage.len() == 0)
}

pub open spec fn mm_upd_ds(acc: ModuleMetadataV, v: ModuleMetadataV) -> ModuleMetadataV {
    ModuleMetadataV {
        donate: if v.donate.len() == 0 {
            acc.donate
        } else {
            v.donate
        },
        support: if v.support.len() == 0 {
            acc.support
        } else {
            v.support
        },
        ..acc
    }
}

pub open spec fn mm_upd_sds(acc: ModuleMetadataV, v: ModuleMetadataV) -> ModuleMetadataV {
    mm_upd_ds(
        ModuleMetadataV {
            source: if v.source.len() == 0 {
                acc.source
            } else {
                v.source
            },
            ..acc
        },
        v,
    )
}

pub open spec fn mm_upd_hsds(acc: ModuleMetadataV, v: ModuleMetadataV) -> ModuleMetadataV {
    mm_upd_sds(
        ModuleMetadataV {
            homepage: if v.homepage.len() == 0 {
                acc.homepage
            } else {
                v.homepage
            },
            ..acc
        },
        v,
    )
}

proof fn lemma_mm_keys()
    ensures
        "homepage"@ != "license"@,
        "source"@ != "license"@,
        "source"@ != "homepage"@,
        "donate"@ != "license"@,
        "donate"@ != "homepage"@,
        "donate"@ != "source"@,
        "support"@ != "license"@,
        "support"@ != "homepage"@,
        "support"@ != "source"@,
        "support"@ != "donate"@,
{
    reveal_strlit("license");
    reveal_strlit("homepage");
    reveal_strlit("source");
    reveal_strlit("donate");
    reveal_strlit("support");
    assert("license"@.len() == 7);
    assert("homepage"@.len() == 8);
    assert("source"@.len() == 6);
    assert("donate"@.len() == 6);
    assert("support"@.len() == 7);
    assert("donate"@ != "source"@) by {
        assert("donate"@[0] == 'd');
        assert("source"@[0] == 's');
    }
    assert("support"@ != "license"@) by {
        assert("support"@[0] == 's');
        assert("license"@[0] == 'l');
    }
}

/// Round trip of the donate and support members and the close.
#[verifier::rlimit(100)]
#[verifier::spinoff_prover]
proof fn lemma_mm_rt_ds(
    acc: ModuleMetadataV,
    v: ModuleMetadataV,
    p: bool,
    d: nat,
    s: Seq<char>,
    pos: int,
    first: bool,
)
    requires
        0 <= pos,
        pos + mm_ds_text(v, p, d, first).len() <= s.len(),
        s.subrange(pos, pos + mm_ds_text(v, p, d, first).len()) == mm_ds_text(v, p, d, first),
    ensures
        first ==> obj_fields(s, pos, acc, mmeta_mem()) == Some(
            (mm_upd_ds(acc, v), pos + mm_ds_text(v, p, d, first).len()),
        ),
        !first && (v.donate.len() > 0 || v.support.len() > 0) ==> skip_ws(s, pos) == pos && s[pos]
            == ',' && obj_fields(s, pos + 1, acc, mmeta_mem()) == Some(
            (mm_upd_ds(acc, v), pos + mm_ds_text(v, p, d, first).len()),
        ),
        !first && v.donate.len() == 0 && v.support.len() == 0 ==> skip_ws(s, pos) == pos
            + mm_ds_text(v, p, d, first).len() - 1 && s[pos + mm_ds_text(v, p, d, first).len() - 1]
            == '}',
{
    lemma_mm_keys();
    let txt = mm_ds_text(v, p, d, first);
    let ll = txt.len() as int;
    let fin = pos + ll;
    let e2 = obj_end(p, d);
    let sp = sep_text(false, p, d).len();
    if v.donate.len() > 0 {
        let t1 = member_str(first, "donate"@, v.donate, p, d);
        if v.support.len() > 0 {
            let t2 = member_str(false, "support"@, v.support, p, d);
            assert(txt =~= t1 + (t2 + e2));
            crate::json::lemma_subrange_cat(s, pos, t1, t2 + e2);
            let p1 = pos + t1.len();
            crate::json::lemma_subrange_cat(s, p1, t2, e2);
            let p2 = p1 + t2.len();
            crate::json::lemma_chunk_str(s, pos, first, "donate"@, v.donate, p, d);
            crate::json::lemma_chunk_str(s, p1, false, "support"@, v.support, p, d);
            crate::json::lemma_obj_close(s, p2, p, d);
            let a1 = ModuleMetadataV { donate: v.donate, ..acc };
            let a2 = ModuleMetadataV { support: v.support, ..a1 };
            let ks2 = p1 + sp;
            let kq2 = ks2 + ser_string("support"@).len();
            assert(mmeta_mem()(s, kq2 + 1, a1, "support"@) == mmeta_member(s, kq2 + 1, a1,
            "support"@));
            assert(mmeta_member(s, kq2 + 1, a1, "support"@) == Some((a2, p2))) by {
                reveal(mmeta_member);
            }
            crate::json::lemma_fields_step_close(s, p1 + 1, ks2, kq2, p2, fin - 1, "support"@, a1,
            a2, mmeta_mem());
            let ks1 = pos + sep_text(first, p, d).len();
            let kq1 = ks1 + ser_string("donate"@).len();
            assert(mmeta_mem()(s, kq1 + 1, acc, "donate"@) == mmeta_member(s, kq1 + 1, acc,
            "donate"@));
            assert(mmeta_member(s, kq1 + 1, acc, "donate"@) == Some((a1, p1))) by {
                reveal(mmeta_member);
            }
            crate::json::lemma_fields_step_comma(s, crate::json::chunk_entry(pos, first), ks1, kq1,
            p1, p1, "donate"@, acc, a1, Some((a2, fin)), mmeta_mem());
            assert(mm_upd_ds(acc, v) =~= a2);
        } else {
            assert(txt =~= t1 + e2);
            crate::json::lemma_subrange_cat(s, pos, t1, e2);
            let p1 = pos + t1.len();
            crate::json::lemma_chunk_str(s, pos, first, "donate"@, v.donate, p, d);
            crate::json::lemma_obj_close(s, p1, p, d);
            let a1 = ModuleMetadataV { donate: v.donate, ..acc };
            let ks1 = pos + sep_text(first, p, d).len();
            let kq1 = ks1 + ser_string("donate"@).len();
            assert(mmeta_mem()(s, kq1 + 1, acc, "donate"@) == mmeta_member(s, kq1 + 1, acc,
            "donate"@));
            assert(mmeta_member(s, kq1 + 1, acc, "donate"@) == Some((a1, p1))) by {
                reveal(mmeta_member);
            }
            crate::json::lemma_fields_step_close(s, crate::json::chunk_entry(pos, first), ks1, kq1,
            p1, fin - 1, "donate"@, acc, a1, mmeta_mem());
            assert(mm_upd_ds(acc, v) =~= a1);
        }
    } else {
        if v.support.len() > 0 {
            let t2 = member_str(first, "support"@, v.support, p, d);
            assert(txt =~= t2 + e2);
            crate::json::lemma_subrange_cat(s, pos, t2, e2);
            let p1 = pos + t2.len();
            crate::json::lemma_chunk_str(s, pos, first, "support"@, v.support, p, d);
            crate::json::lemma_obj_close(s, p1, p, d);
            let a1 = ModuleMetadataV { support: v.support, ..acc };
            let ks1 = pos + sep_text(first, p, d).len();
            let kq1 = ks1 + ser_string("support"@).len();
            assert(mmeta_mem()(s, kq1 + 1, acc, "support"@) == mmeta_member(s, kq1 + 1, acc,
            "support"@));
            assert(mmeta_member(s, kq1 + 1, acc, "support"@) == Some((a1, p1))) by {
                reveal(mmeta_member);
            }
            crate::json::lemma_fields_step_close(s, crate::json::chunk_entry(pos, first), ks1, kq1,
            p1, fin - 1, "support"@, acc, a1, mmeta_mem());
            assert(mm_upd_ds(acc, v) =~= a1);
        } else {
            assert(txt =~= e2);
            crate::json::lemma_obj_close(s, pos, p, d);
            if first {
                crate::json::lemma_fields_empty(s, pos, fin - 1, acc, mmeta_mem());
                assert(mm_upd_ds(acc, v) =~= acc);
            }
        }
    }
}

/// Round trip from the source member onward.
#[verifier::rlimit(100)]
#[verifier::spinoff_prover]
proof fn lemma_mm_rt_sds(
    acc: ModuleMetadataV,
    v: ModuleMetadataV,
    p: bool,
    d: nat,
    s: Seq<char>,
    pos: int,
    first: bool,
)
    requires
        0 <= pos,
        pos + mm_sds_text(v, p, d, first).len() <= s.len(),
        s.subrange(pos, pos + mm_sds_text(v, p, d, first).len()) == mm_sds_text(v, p, d, first),
    ensures
        first ==> obj_fields(s, pos, acc, mmeta_mem()) == Some(
            (mm_upd_sds(acc, v), pos + mm_sds_text(v, p, d, first).len()),
        ),
        !first && (v.source.len() > 0 || v.donate.len() > 0 || v.support.len() > 0) ==> skip_ws(
            s,
            pos,
        ) == pos && s[pos] == ',' && obj_fields(s, pos + 1, acc, mmeta_mem()) == Some(
            (mm_upd_sds(acc, v), pos + mm_sds_text(v, p, d, first).len()),
        ),
        !first && v.source.len() == 0 && v.donate.len() == 0 && v.support.len() == 0 ==> skip_ws(
            s,
            pos,
        ) == pos + mm_sds_text(v, p, d, first).len() - 1 && s[pos + mm_sds_text(
            v,
            p,
            d,
            first,
        ).len() - 1] == '}',
{
    lemma_mm_keys();
    let txt = mm_sds_text(v, p, d, first);
    let fin = pos + txt.len() as int;
    if v.source.len() > 0 {
        let t1 = member_str(first, "source"@, v.source, p, d);
        let rest = mm_ds_text(v, p, d, false);
        assert(txt =~= t1 + rest);
        crate::json::lemma_subrange_cat(s, pos, t1, rest);
        let p1 = pos + t1.len();
        crate::json::lemma_chunk_str(s, pos, first, "source"@, v.source, p, d);
        let a1 = ModuleMetadataV { source: v.source, ..acc };
        lemma_mm_rt_ds(a1, v, p, d, s, p1, false);
        let a2 = mm_upd_ds(a1, v);
        let ks1 = pos + sep_text(first, p, d).len();
        let kq1 = ks1 + ser_string("source"@).len();
        assert(mmeta_mem()(s, kq1 + 1, acc, "source"@) == mmeta_member(s, kq1 + 1, acc,
        "source"@));
        assert(mmeta_member(s, kq1 + 1, acc, "source"@) == Some((a1, p1))) by {
            reveal(mmeta_member);
        }
        if v.donate.len() > 0 || v.support.len() > 0 {
            crate::json::lemma_fields_step_comma(s, crate::json::chunk_entry(pos, first), ks1, kq1,
            p1, p1, "source"@, acc, a1, Some((a2, fin)), mmeta_mem());
        } else {
            crate::json::lemma_fields_step_close(s, crate::json::chunk_entry(pos, first), ks1, kq1,
            p1, fin - 1, "source"@, acc, a1, mmeta_mem());
            assert(a2 =~= a1);
        }
        assert(mm_upd_sds(acc, v) =~= a2);
    } else {
        assert(txt =~= mm_ds_text(v, p, d, first));
        lemma_mm_rt_ds(acc, v, p, d, s, pos, first);
        assert(mm_upd_sds(acc, v) =~= mm_upd_ds(acc, v));
    }
}

/// Round trip from the homepage member onward.
#[verifier::rlimit(100)]
#[verifier::spinoff_prover]
proof fn lemma_mm_rt_hsds(
    acc: ModuleMetadataV,
    v: ModuleMetadataV,
    p: bool,
    d: nat,
    s: Seq<char>,
    pos: int,
    first: bool,
)
    requires
        0 <= pos,
        pos + mm_hsds_text(v, p, d, first).len() <= s.len(),
        s.subrange(pos, pos + mm_hsds_text(v, p, d, first).len()) == mm_hsds_text(v, p, d, first),
    ensures
        first ==> obj_fields(s, pos, acc, mmeta_mem()) == Some(
            (mm_upd_hsds(acc, v), pos + mm_hsds_text(v, p, d, first).len()),
        ),
        !first && (v.homepage.len() > 0 || v.source.len() > 0 || v.donate.len() > 0
            || v.support.len() > 0) ==> skip_ws(s, pos) == pos && s[pos] == ',' && obj_fields(
            s,
            pos + 1,
            acc,
            mmeta_mem(),
        ) == Some((mm_upd_hsds(acc, v), pos + mm_hsds_text(v, p, d, first).len())),
        !first && v.homepage.len() == 0 && v.source.len() == 0 && v.donate.len() == 0
            && v.support.len() == 0 ==> skip_ws(s, pos) == pos + mm_hsds_text(
            v,
            p,
            d,
            first,
        ).len() - 1 && s[pos + mm_hsds_text(v, p, d, first).len() - 1] == '}',
{
    lemma_mm_keys();
    let txt = mm_hsds_text(v, p, d, first);
    let fin = pos + txt.len() as int;
    if v.homepage.len() > 0 {
        let t1 = member_str(first, "homepage"@, v.homepage, p, d);
        let rest = mm_sds_text(v, p, d, false);
        assert(txt =~= t1 + rest);
        crate::json::lemma_subrange_cat(s, pos, t1, rest);
        let p1 = pos + t1.len();
        crate::json::lemma_chunk_str(s, pos, first, "homepage"@, v.homepage, p, d);
        let a1 = ModuleMetadataV { homepage: v.homepage, ..acc };
        lemma_mm_rt_sds(a1, v, p, d, s, p1, false);
        let a2 = mm_upd_sds(a1, v);
        let ks1 = pos + sep_text(first, p, d).len();
        let kq1 = ks1 + ser_string("homepage"@).len();
        assert(mmeta_mem()(s, kq1 + 1, acc, "homepage"@) == mmeta_member(s, kq1 + 1, acc,
        "homepage"@));
        assert(mmeta_member(s, kq1 + 1, acc, "homepage"@) == Some((a1, p1))) by {
            reveal(mmeta_member);
        }
        if v.source.len() > 0 || v.donate.len() > 0 || v.support.len() > 0 {
            crate::json::lemma_fields_step_comma(s, crate::json::chunk_entry(pos, first), ks1, kq1,
            p1, p1, "homepage"@, acc, a1, Some((a2, fin)), mmeta_mem());
        } else {
            crate::json::lemma_fields_step_close(s, crate::json::chunk_entry(pos, first), ks1, kq1,
            p1, fin - 1, "homepage"@, acc, a1, mmeta_mem());
            assert(a2 =~= a1);
        }
        assert(mm_upd_hsds(acc, v) =~= a2);
    } else {
        assert(txt =~= mm_sds_text(v, p, d, first));
        lemma_mm_rt_sds(acc, v, p, d, s, pos, first);
        assert(mm_upd_hsds(acc, v) =~= mm_upd_sds(acc, v));
    }
}

/// The license member, then the rest.
pub open spec fn mm_lhsds_text(v: ModuleMetadataV, p: bool, d: nat, first: bool) -> Seq<char> {
    (if v.license.len() == 0 {
        Seq::<char>::empty()
    } else {
        member_str(first, "license"@, v.license, p, d)
    }) + mm_hsds_text(v, p, d, first && v.license.len() == 0)
}

pub open spec fn mm_upd_lhsds(acc: ModuleMetadataV, v: ModuleMetadataV) -> ModuleMetadataV {
    mm_upd_hsds(
        ModuleMetadataV {
            license: if v.license.len() == 0 {
                acc.license
            } else {
                v.license
            },
            ..acc
        },
        v,
    )
}

/// Round trip from the license member onward.
#[verifier::rlimit(100)]
#[verifier::spinoff_prover]
proof fn lemma_mm_rt_lhsds(
    acc: ModuleMetadataV,
    v: ModuleMetadataV,
    p: bool,
    d: nat,
    s: Seq<char>,
    pos: int,
    first: bool,
)
    requires
        0 <= pos,
        pos + mm_lhsds_text(v, p, d, first).len() <= s.len(),
        s.subrange(pos, pos + mm_lhsds_text(v, p, d, first).len()) == mm_lhsds_text(v, p, d, first),
    ensures
        first ==> obj_fields(s, pos, acc, mmeta_mem()) == Some(
            (mm_upd_lhsds(acc, v), pos + mm_lhsds_text(v, p, d, first).len()),
        ),
{
    lemma_mm_keys();
    let txt = mm_lhsds_text(v, p, d, first);
    let fin = pos + txt.len() as int;
    if v.license.len() > 0 {
        let t1 = member_str(first, "license"@, v.license, p, d);
        let rest = mm_hsds_text(v, p, d, false);
        assert(txt =~= t1 + rest);
        crate::json::lemma_subrange_cat(s, pos, t1, rest);
        let p1 = pos + t1.len();
        crate::json::lemma_chunk_str(s, pos, first, "license"@, v.license, p, d);
        let a1 = ModuleMetadataV { license: v.license, ..acc };
        lemma_mm_rt_hsds(a1, v, p, d, s, p1, false);
        let a2 = mm_upd_hsds(a1, v);
        let ks1 = pos + sep_text(first, p, d).len();
        let kq1 = ks1 + ser_string("license"@).len();
        assert(mmeta_mem()(s, kq1 + 1, acc, "license"@) == mmeta_member(s, kq1 + 1, acc,
        "license"@));
        assert(mmeta_member(s, kq1 + 1, acc, "license"@) == Some((a1, p1))) by {
            reveal(mmeta_member);
        }
        if v.homepage.len() > 0 || v.source.len() > 0 || v.donate.len() > 0 || v.support.len()
            > 0 {
            crate::json::lemma_fields_step_comma(s, crate::json::chunk_entry(pos, first), ks1, kq1,
            p1, p1, "license"@, acc, a1, Some((a2, fin)), mmeta_mem());
        } else {
            crate::json::lemma_fields_step_close(s, crate::json::chunk_entry(pos, first), ks1, kq1,
            p1, fin - 1, "license"@, acc, a1, mmeta_mem());
            assert(a2 =~= a1);
        }
        assert(mm_upd_lhsds(acc, v) =~= a2);
    } else {
        assert(txt =~= mm_hsds_text(v, p, d, first));
        lemma_mm_rt_hsds(acc, v, p, d, s, pos, first);
        assert(mm_upd_lhsds(acc, v) =~= mm_upd_hsds(acc, v));
    }
}

/// The serializer's flat conditional layout equals the chained member text.
#[verifier::rlimit(100)]
#[verifier::spinoff_prover]
proof fn lemma_mm_ser_shape_a(v: ModuleMetadataV, p: bool, d: nat)
    requires
        v.license.len() > 0,
        v.homepage.len() > 0,
    ensures
        ser_mmeta(v, p, d) == seq!['{'] + mm_lhsds_text(v, p, d, true),
{
    reveal(ser_mmeta);
    if v.source.len() == 0 {
        if v.donate.len() == 0 {
            assert(ser_mmeta(v, p, d) =~= seq!['{'] + mm_lhsds_text(v, p, d, true));
        } else {
            assert(ser_mmeta(v, p, d) =~= seq!['{'] + mm_lhsds_text(v, p, d, true));
        }
    } else {
        if v.donate.len() == 0 {
            assert(ser_mmeta(v, p, d) =~= seq!['{'] + mm_lhsds_text(v, p, d, true));
        } else {
            assert(ser_mmeta(v, p, d) =~= seq!['{'] + mm_lhsds_text(v, p, d, true));
        }
    }
}

#[verifier::rlimit(100)]
#[verifier::spinoff_prover]
proof fn lemma_mm_ser_shape_b(v: ModuleMetadataV, p: bool, d: nat)
    requires
        v.license.len() > 0,
        v.homepage.len() == 0,
    ensures
        ser_mmeta(v, p, d) == seq!['{'] + mm_lhsds_text(v, p, d, true),
{
    reveal(ser_mmeta);
    if v.source.len() == 0 {
        if v.donate.len() == 0 {
            assert(ser_mmeta(v, p, d) =~= seq!['{'] + mm_lhsds_text(v, p, d, true));
        } else {
            assert(ser_mmeta(v, p, d) =~= seq!['{'] + mm_lhsds_text(v, p, d, true));
        }
    } else {
        if v.donate.len() == 0 {
            assert(ser_mmeta(v, p, d) =~= seq!['{'] + mm_lhsds_text(v, p, d, true));
        } else {
            assert(ser_mmeta(v, p, d) =~= seq!['{'] + mm_lhsds_text(v, p, d, true));
        }
    }
}

#[verifier::rlimit(100)]
#[verifier::spinoff_prover]
proof fn lemma_mm_ser_shape_c(v: ModuleMetadataV, p: bool, d: nat)
    requires
        v.license.len() == 0,
        v.homepage.len() > 0,
    ensures
        ser_mmeta(v, p, d) == seq!['{'] + mm_lhsds_text(v, p, d, true),
{
    reveal(ser_mmeta);
    if v.source.len() == 0 {
        if v.donate.len() == 0 {
            assert(ser_mmeta(v, p, d) =~= seq!['{'] + mm_lhsds_text(v, p, d, true));
        } else {
            assert(ser_mmeta(v, p, d) =~= seq!['{'] + mm_lhsds_text(v, p, d, true));
        }
    } else {
        if v.donate.len() == 0 {
            assert(ser_mmeta(v, p, d) =~= seq!['{'] + mm_lhsds_text(v, p, d, true));
        } else {
            assert(ser_mmeta(v, p, d) =~= seq!['{'] + mm_lhsds_text(v, p, d, true));
        }
    }
}

#[verifier::rlimit(100)]
#[verifier::spinoff_prover]
proof fn lemma_mm_ser_shape_d(v: ModuleMetadataV, p: bool, d: nat)
    requires
        v.license.len() == 0,
        v.homepage.len() == 0,
        v.source.len() > 0 || v.donate.len() > 0 || v.support.len() > 0,
    ensures
        ser_mmeta(v, p, d) == seq!['{'] + mm_lhsds_text(v, p, d, true),
{
    reveal(ser_mmeta);
    if v.source.len() == 0 {
        if v.donate.len() == 0 {
            assert(ser_mmeta(v, p, d) =~= seq!['{'] + mm_lhsds_text(v, p, d, true));
        } else {
            assert(ser_mmeta(v, p, d) =~= seq!['{'] + mm_lhsds_text(v, p, d, true));
        }
    } else {
        if v.donate.len() == 0 {
            assert(ser_mmeta(v, p, d) =~= seq!['{'] + mm_lhsds_text(v, p, d, true));
        } else {
            assert(ser_mmeta(v, p, d) =~= seq!['{'] + mm_lhsds_text(v, p, d, true));
        }
    }
}

proof fn lemma_mm_ser_shape(v: ModuleMetadataV, p: bool, d: nat)
    requires
        v.license.len() > 0 || v.homepage.len() > 0 || v.source.len() > 0 || v.donate.len() > 0
            || v.support.len() > 0,
    ensures
        ser_mmeta(v, p, d) == seq!['{'] + mm_lhsds_text(v, p, d, true),
{
    if v.license.len() > 0 {
        if v.homepage.len() > 0 {
            lemma_mm_ser_shape_a(v, p, d);
        } else {
            lemma_mm_ser_shape_b(v, p, d);
        }
    } else {
        if v.homepage.len() > 0 {
            lemma_mm_ser_shape_c(v, p, d);
        } else {
            lemma_mm_ser_shape_d(v, p, d);
        }
    }
}

/// Parsing the serialization of module metadata, after optional whitespace,
/// yields it back.
#[verifier::rlimit(100)]
#[verifier::spinoff_prover]
pub proof fn lemma_mmeta_rt(v: ModuleMetadataV, p: bool, d: nat, s: Seq<char>, i: int, m: int)
    requires
        0 <= i <= m,
        m + ser_mmeta(v, p, d).len() <= s.len(),
        forall|x: int| i <= x < m ==> is_ws(s[x]),
        s.subrange(m, m + ser_mmeta(v, p, d).len()) == ser_mmeta(v, p, d),
    ensures
        parse_mmeta(s, i) == Some((v, m + ser_mmeta(v, p, d).len())),
{
    reveal(ser_mmeta);
    let ll = ser_mmeta(v, p, d).len() as int;
    let a0 = mmeta_default();
    if v.license.len() == 0 && v.homepage.len() == 0 && v.source.len() == 0 && v.donate.len() == 0
        && v.support.len() == 0 {
        crate::json::lemma_char_at(s, m, ser_mmeta(v, p, d), 0);
        crate::json::lemma_char_at(s, m, ser_mmeta(v, p, d), 1);
        assert(s[m] == '{');
        assert(s[m + 1] == '}');
        crate::json::lemma_skip_ws_stops(s, i, m);
        crate::json::lemma_skip_ws_stops(s, m + 1, m + 1);
        crate::json::lemma_fields_empty(s, m + 1, m + 1, a0, mmeta_mem());
        assert(a0 =~= v);
    } else {
        let rest = mm_lhsds_text(v, p, d, true);
        lemma_mm_ser_shape(v, p, d);
        crate::json::lemma_subrange_cat(s, m, seq!['{'], rest);
        crate::json::lemma_char_at(s, m, seq!['{'], 0);
        crate::json::lemma_skip_ws_stops(s, i, m);
        let p0 = m + 1;
        lemma_mm_rt_lhsds(a0, v, p, d, s, p0, true);
        assert(mm_upd_lhsds(a0, v) =~= v);
    }
}

// ---------- module setting ----------

#[derive(Debug, Clone, Copy)]
pub struct ModuleSetting {
    pub disabled: bool,
    pub keep_size: Option<usize>,
}

#[verifier::ext_equal]
pub ghost struct ModuleSettingV {
    pub disabled: bool,
    pub keep_size: Option<int>,
}

impl View for ModuleSetting {
    type V = ModuleSettingV;

    open spec fn view(&self) -> ModuleSettingV {
        ModuleSettingV {
            disabled: self.disabled,
            keep_size: match self.keep_size {
                Some(n) => Some(n as int),
                None => None,
            },
        }
    }
}

pub open spec fn msetting_default() -> ModuleSettingV {
    ModuleSettingV { disabled: false, keep_size: None }
}

impl Default for ModuleSetting {
    fn default() -> (r: ModuleSetting)
        ensures
            r@ == msetting_default(),
    {
        ModuleSetting { disabled: false, keep_size: None }
    }
}

impl ModuleSetting {
    pub fn new(disabled: bool, keep_size: usize) -> (r: ModuleSetting)
        ensures
            r@ == (ModuleSettingV { disabled, keep_size: Some(keep_size as int) }),
    {
        ModuleSetting { disabled, keep_size: Some(keep_size) }
    }
}

impl PartialEq for ModuleSetting {
    fn eq(&self, other: &Self) -> (r: bool) {
        self.disabled == other.disabled && (match (self.keep_size, other.keep_size) {
            (Some(a), Some(b)) => a == b,
            (None, None) => true,
            _ => false,
        })
    }
}

impl vstd::std_specs::cmp::PartialEqSpecImpl for ModuleSetting {
    open spec fn obeys_eq_spec() -> bool {
        true
    }

    open spec fn eq_spec(&self, other: &Self) -> bool {
        self@ == other@
    }
}

#[verifier::opaque]
pub open spec fn msetting_member(s: Seq<char>, i: int, acc: ModuleSettingV, k: Seq<char>) -> Option<
    (ModuleSettingV, int),
> {
    if k == "disabled"@ {
        match parse_bool(s, i) {
            Some((b, e)) => Some((ModuleSettingV { disabled: b, ..acc }, e)),
            None => None,
        }
    } else if k == "keep_size"@ {
        match parse_null(s, i) {
            Some(e) => Some((ModuleSettingV { keep_size: None, ..acc }, e)),
            None => match parse_usize(s, i) {
                Some((x, e)) => Some((ModuleSettingV { keep_size: Some(x), ..acc }, e)),
                None => None,
            },
        }
    } else {
        match skip_value(s, i) {
            Some(e) => Some((acc, e)),
            None => None,
        }
    }
}

pub open spec fn msetting_mem() -> spec_fn(Seq<char>, int, ModuleSettingV, Seq<char>) -> Option<
    (ModuleSettingV, int),
> {
    |s: Seq<char>, i: int, a: ModuleSettingV, k: Seq<char>| msetting_member(s, i, a, k)
}

pub open spec fn parse_msetting(s: Seq<char>, i: int) -> Option<(ModuleSettingV, int)> {
    let j = skip_ws(s, i);
    if j < s.len() && s[j] == '{' {
        obj_fields(s, j + 1, msetting_default(), msetting_mem())
    } else {
        None
    }
}

#[verifier::opaque]
pub open spec fn ser_msetting(v: ModuleSettingV, p: bool, d: nat) -> Seq<char> {
    seq!['{'] + member_bool(true, "disabled"@, v.disabled, p, d) + (match v.keep_size {
        Some(n) => member_i64(false, "keep_size"@, n, p, d),
        None => Seq::<char>::empty(),
    }) + obj_end(p, d)
}

fn msetting_member_x(v: &Vec<char>, vp: usize, key: &Vec<char>, acc: ModuleSetting) -> (r: Option<
    (ModuleSetting, usize),
>)
    requires
        vp <= v.len(),
    ensures
        match r {
            Some((a2, e)) => msetting_member(v@, vp as int, acc@, key@) == Some((a2@, e as int))
                && vp <= e <= v.len(),
            None => msetting_member(v@, vp as int, acc@, key@) is None,
        },
{
    proof {
        reveal(msetting_member);
    }
    let mut acc = acc;
    if text::chars_eq_str(key, "disabled") {
        let (b, e) = match parse_bool_x(v, vp) {
            Some(x) => x,
            None => {
                return None;
            },
        };
        acc.disabled = b;
        Some((acc, e))
    } else if text::chars_eq_str(key, "keep_size") {
        match parse_null_x(v, vp) {
            Some(e) => {
                acc.keep_size = None;
                Some((acc, e))
            },
            None => {
                let (x, e) = match parse_usize_x(v, vp) {
                    Some(y) => y,
                    None => {
                        return None;
                    },
                };
                acc.keep_size = Some(x);
                Some((acc, e))
            },
        }
    } else {
        let e = match skip_value_x(v, vp) {
            Some(e) => e,
            None => {
                return None;
            },
        };
        Some((acc, e))
    }
}

#[verifier::rlimit(60)]
#[verifier::spinoff_prover]
fn msetting_fields_x(v: &Vec<char>, i: usize, acc: ModuleSetting) -> (r: Option<
    (ModuleSetting, usize),
>)
    requires
        i <= v.len(),
    ensures
        match r {
            Some((a2, e)) => obj_fields(v@, i as int, acc@, msetting_mem()) == Some(
                (a2@, e as int),
            ) && i <= e <= v.len(),
            None => obj_fields(v@, i as int, acc@, msetting_mem()) is None,
        },
    decreases v.len() - i,
{
    proof {
        reveal(obj_fields);
    }
    let j = skip_ws_x(v, i);
    if j >= v.len() {
        return None;
    }
    if v[j] == '}' {
        return Some((acc, j + 1));
    }
    let (key, p1) = match parse_string_x(v, j) {
        Some(kp) => kp,
        None => {
            return None;
        },
    };
    let q = skip_ws_x(v, p1);
    if !(q < v.len() && v[q] == ':') {
        return None;
    }
    let (acc2, p2) = match msetting_member_x(v, q + 1, &key, acc) {
        Some(x) => x,
        None => {
            return None;
        },
    };
    let w = skip_ws_x(v, p2);
    if w < v.len() && v[w] == ',' {
        msetting_fields_x(v, w + 1, acc2)
    } else if w < v.len() && v[w] == '}' {
        Some((acc2, w + 1))
    } else {
        None
    }
}

pub fn parse_msetting_x(v: &Vec<char>, i: usize) -> (r: Option<(ModuleSetting, usize)>)
    requires
        i <= v.len(),
    ensures
        match r {
            Some((x, e)) => parse_msetting(v@, i as int) == Some((x@, e as int)) && i <= e
                <= v.len(),
            None => parse_msetting(v@, i as int) is None,
        },
{
    let j = skip_ws_x(v, i);
    if !(j < v.len() && v[j] == '{') {
        return None;
    }
    msetting_fields_x(v, j + 1, ModuleSetting::default())
}

#[verifier::rlimit(60)]
#[verifier::spinoff_prover]
pub fn push_msetting(x: &ModuleSetting, p: bool, d: usize, out: &mut Vec<char>)
    requires
        d < 80,
    ensures
        final(out)@ == old(out)@ + ser_msetting(x@, p, d as nat),
{
    proof {
        reveal(ser_msetting);
    }
    out.push('{');
    push_member_bool(true, "disabled", x.disabled, p, d, out);
    match x.keep_size {
        Some(n) => {
            push_member_usize(false, "keep_size", n, p, d, out);
        },
        None => {},
    }
    push_obj_end(p, d, out);
    assert(out@ =~= old(out)@ + ser_msetting(x@, p, d as nat));
}

// ---------- round trip: module setting ----------

/// Round trip of a module setting without a retention override.
#[verifier::rlimit(100)]
#[verifier::spinoff_prover]
proof fn lemma_msetting_rt_bare(v: ModuleSettingV, p: bool, d: nat, s: Seq<char>, i: int, m: int)
    requires
        v.keep_size is None,
        0 <= i <= m,
        m + ser_msetting(v, p, d).len() <= s.len(),
        forall|x: int| i <= x < m ==> is_ws(s[x]),
        s.subrange(m, m + ser_msetting(v, p, d).len()) == ser_msetting(v, p, d),
    ensures
        parse_msetting(s, i) == Some((v, m + ser_msetting(v, p, d).len())),
{
    reveal(ser_msetting);
    reveal_strlit("disabled");
    let t1 = member_bool(true, "disabled"@, v.disabled, p, d);
    let e1 = obj_end(p, d);
    let ll = ser_msetting(v, p, d).len();
    let fin = m + ll;
    assert(ser_msetting(v, p, d) =~= seq!['{'] + (t1 + e1));
    crate::json::lemma_subrange_cat(s, m, seq!['{'], t1 + e1);
    crate::json::lemma_char_at(s, m, seq!['{'], 0);
    crate::json::lemma_skip_ws_stops(s, i, m);
    let p0 = m + 1;
    crate::json::lemma_subrange_cat(s, p0, t1, e1);
    let p1 = p0 + t1.len();
    crate::json::lemma_chunk_bool(s, p0, true, "disabled"@, v.disabled, p, d);
    crate::json::lemma_obj_close(s, p1, p, d);
    let a0 = msetting_default();
    let a1 = ModuleSettingV { disabled: v.disabled, ..a0 };
    let ks1 = p0 + sep_text(true, p, d).len();
    let kq1 = ks1 + crate::json::ser_string("disabled"@).len();
    assert(msetting_mem()(s, kq1 + 1, a0, "disabled"@) == msetting_member(s, kq1 + 1, a0,
    "disabled"@));
    assert(msetting_member(s, kq1 + 1, a0, "disabled"@) == Some((a1, p1))) by {
        reveal(msetting_member);
    }
    crate::json::lemma_fields_step_close(s, p0, ks1, kq1, p1, fin - 1, "disabled"@, a0, a1,
    msetting_mem());
    assert(obj_fields(s, p0, a0, msetting_mem()) == Some((a1, fin)));
    assert(a1 =~= v);
}

/// Round trip of a module setting with a retention override.
#[verifier::rlimit(100)]
#[verifier::spinoff_prover]
proof fn lemma_msetting_rt_kept(
    v: ModuleSettingV,
    n: int,
    p: bool,
    d: nat,
    s: Seq<char>,
    i: int,
    m: int,
)
    requires
        v.keep_size == Some(n),
        0 <= n <= usize::MAX,
        n <= i64::MAX,
        0 <= i <= m,
        m + ser_msetting(v, p, d).len() <= s.len(),
        forall|x: int| i <= x < m ==> is_ws(s[x]),
        s.subrange(m, m + ser_msetting(v, p, d).len()) == ser_msetting(v, p, d),
    ensures
        parse_msetting(s, i) == Some((v, m + ser_msetting(v, p, d).len())),
{
    reveal(ser_msetting);
    lemma_log_keys();
    reveal_strlit("disabled");
    reveal_strlit("keep_size");
    reveal_strlit("null");
    assert("keep_size"@ != "disabled"@) by {
        assert("keep_size"@.len() == 9);
        assert("disabled"@.len() == 8);
    }
    let t1 = member_bool(true, "disabled"@, v.disabled, p, d);
    let t2 = member_i64(false, "keep_size"@, n, p, d);
    let e2 = obj_end(p, d);
    let ll = ser_msetting(v, p, d).len();
    let fin = m + ll;
    assert(ser_msetting(v, p, d) =~= seq!['{'] + (t1 + (t2 + e2)));
    crate::json::lemma_subrange_cat(s, m, seq!['{'], t1 + (t2 + e2));
    crate::json::lemma_char_at(s, m, seq!['{'], 0);
    crate::json::lemma_skip_ws_stops(s, i, m);
    let p0 = m + 1;
    crate::json::lemma_subrange_cat(s, p0, t1, t2 + e2);
    let p1 = p0 + t1.len();
    crate::json::lemma_subrange_cat(s, p1, t2, e2);
    let p2 = p1 + t2.len();
    crate::json::lemma_chunk_bool(s, p0, true, "disabled"@, v.disabled, p, d);
    crate::json::lemma_char_at(s, p2, e2, 0);
    assert(e2[0] == '\n' || e2[0] == '}');
    crate::json::lemma_chunk_i64(s, p1, false, "keep_size"@, n, p, d);
    crate::json::lemma_obj_close(s, p2, p, d);
    let a0 = msetting_default();
    let a1 = ModuleSettingV { disabled: v.disabled, ..a0 };
    let a2 = ModuleSettingV { keep_size: Some(n), ..a1 };
    let sp = sep_text(false, p, d).len();
    let ks2 = p1 + sp;
    let kq2 = ks2 + crate::json::ser_string("keep_size"@).len();
    assert(msetting_mem()(s, kq2 + 1, a1, "keep_size"@) == msetting_member(s, kq2 + 1, a1,
    "keep_size"@));
    let kp2 = crate::json::key_part("keep_size"@, p);
    let vm = ks2 + kp2.len();
    assert(parse_null(s, kq2 + 1) is None) by {
        crate::json::reveal_member_i64_parts();
        assert(t2 =~= sep_text(false, p, d) + (kp2 + crate::json::ser_i64(n)));
        crate::json::lemma_subrange_cat(s, p1, sep_text(false, p, d), kp2 + crate::json::ser_i64(
            n,
        ));
        crate::json::lemma_subrange_cat(s, ks2, kp2, crate::json::ser_i64(n));
        crate::json::lemma_dec_u_digits(n as nat);
        crate::json::lemma_char_at(s, vm, crate::json::ser_i64(n), 0);
        assert(crate::json::is_digit(s[vm]));
        crate::json::lemma_member_head(s, ks2, ks2, "keep_size"@, p);
        crate::json::lemma_skip_ws_stops(s, kq2 + 1, vm);
        let j = skip_ws(s, kq2 + 1);
        if crate::json::has_lit(s, j, seq!['n', 'u', 'l', 'l']) {
            assert(s.subrange(j, j + 4)[0] == s[j]);
        }
    }
    assert(msetting_member(s, kq2 + 1, a1, "keep_size"@) == Some((a2, p2))) by {
        reveal(msetting_member);
    }
    crate::json::lemma_fields_step_close(s, p1 + 1, ks2, kq2, p2, fin - 1, "keep_size"@, a1, a2,
    msetting_mem());
    let ks1 = p0 + sep_text(true, p, d).len();
    let kq1 = ks1 + crate::json::ser_string("disabled"@).len();
    assert(msetting_mem()(s, kq1 + 1, a0, "disabled"@) == msetting_member(s, kq1 + 1, a0,
    "disabled"@));
    assert(msetting_member(s, kq1 + 1, a0, "disabled"@) == Some((a1, p1))) by {
        reveal(msetting_member);
    }
    crate::json::lemma_fields_step_comma(s, p0, ks1, kq1, p1, p1, "disabled"@, a0, a1, Some(
        (a2, fin),
    ), msetting_mem());
    assert(obj_fields(s, p0, a0, msetting_mem()) == Some((a2, fin)));
    assert(a2 =~= v);
}

/// Parsing the serialization of a module setting, after optional whitespace,
/// yields it back.
pub proof fn lemma_msetting_rt(v: ModuleSettingV, p: bool, d: nat, s: Seq<char>, i: int, m: int)
    requires
        match v.keep_size {
            Some(n) => 0 <= n <= usize::MAX && n <= i64::MAX,
            None => true,
        },
        0 <= i <= m,
        m + ser_msetting(v, p, d).len() <= s.len(),
        forall|x: int| i <= x < m ==> is_ws(s[x]),
        s.subrange(m, m + ser_msetting(v, p, d).len()) == ser_msetting(v, p, d),
    ensures
        parse_msetting(s, i) == Some((v, m + ser_msetting(v, p, d).len())),
{
    match v.keep_size {
        Some(n) => lemma_msetting_rt_kept(v, n, p, d, s, i, m),
        None => lemma_msetting_rt_bare(v, p, d, s, i, m),
    }
}

// ---------- module ----------

/// One configured module: identity, provider, and optional extras.
#[derive(Debug, Clone)]
pub struct Module {
    pub id: String,
    pub kind: ProviderKind,
    pub provider: String,
    pub changelog: String,
    pub metadata: ModuleMetadata,
    pub setting: ModuleSetting,
}

#[verifier::ext_equal]
pub ghost struct ModuleCfgV {
    pub id: Seq<char>,
    pub kind: ProviderKind,
    pub provider: Seq<char>,
    pub changelog: Seq<char>,
    pub metadata: ModuleMetadataV,
    pub setting: ModuleSettingV,
}

impl View for Module {
    type V = ModuleCfgV;

    open spec fn view(&self) -> ModuleCfgV {
        ModuleCfgV {
            id: self.id@,
            kind: self.kind,
            provider: self.provider@,
            changelog: self.changelog@,
            metadata: self.metadata@,
            setting: self.setting@,
        }
    }
}

impl Module {
    pub fn new(
        id: &str,
        kind: ProviderKind,
        provider: &str,
        changelog: &str,
        metadata: Option<ModuleMetadata>,
        setting: Option<ModuleSetting>,
    ) -> (r: Module)
        ensures
            r@.id == id@,
            r@.kind == kind,
            r@.provider == provider@,
            r@.changelog == changelog@,
            r@.metadata == (match metadata {
                Some(m) => m@,
                None => mmeta_default(),
            }),
            r@.setting == (match setting {
                Some(st) => st@,
                None => msetting_default(),
            }),
    {
        let md = match metadata {
            Some(m) => m,
            None => ModuleMetadata::default(),
        };
        let st = match setting {
            Some(v) => v,
            None => ModuleSetting::default(),
        };
        Module {
            id: id.to_owned(),
            kind,
            provider: provider.to_owned(),
            changelog: changelog.to_owned(),
            metadata: md,
            setting: st,
        }
    }
}

impl Module {
    /// Field-by-field copy.
    pub fn duplicate(&self) -> (r: Module)
        ensures
            r@ == self@,
    {
        Module {
            id: self.id.as_str().to_owned(),
            kind: self.kind,
            provider: self.provider.as_str().to_owned(),
            changelog: self.changelog.as_str().to_owned(),
            metadata: ModuleMetadata {
                license: self.metadata.license.as_str().to_owned(),
                homepage: self.metadata.homepage.as_str().to_owned(),
                source: self.metadata.source.as_str().to_owned(),
                donate: self.metadata.donate.as_str().to_owned(),
                support: self.metadata.support.as_str().to_owned(),
            },
            setting: ModuleSetting { disabled: self.setting.disabled, keep_size: self.setting.keep_size },
        }
    }
}

impl PartialEq for Module {
    fn eq(&self, other: &Self) -> (r: bool) {
        self.id == other.id && self.kind == other.kind && self.provider == other.provider
            && self.changelog == other.changelog && self.metadata == other.metadata && self.setting
            == other.setting
    }
}

impl vstd::std_specs::cmp::PartialEqSpecImpl for Module {
    open spec fn obeys_eq_spec() -> bool {
        true
    }

    open spec fn eq_spec(&self, other: &Self) -> bool {
        self@ == other@
    }
}

#[verifier::ext_equal]
pub ghost struct ModAcc {
    pub v: ModuleCfgV,
    pub seen_id: bool,
    pub seen_kind: bool,
    pub seen_provider: bool,
}

pub open spec fn mod_acc_init() -> ModAcc {
    ModAcc {
        v: ModuleCfgV {
            id: Seq::empty(),
            kind: ProviderKind::UpdateJson,
            provider: Seq::empty(),
            changelog: Seq::empty(),
            metadata: mmeta_default(),
            setting: msetting_default(),
        },
        seen_id: false,
        seen_kind: false,
        seen_provider: false,
    }
}

#[verifier::opaque]
pub open spec fn mod_member(s: Seq<char>, i: int, acc: ModAcc, k: Seq<char>) -> Option<
    (ModAcc, int),
> {
    if k == "id"@ {
        match parse_string(s, i) {
            Some((t, e)) => Some(
                (ModAcc { v: ModuleCfgV { id: t, ..acc.v }, seen_id: true, ..acc }, e),
            ),
            None => None,
        }
    } else if k == "kind"@ {
        match parse_string(s, i) {
            Some((t, e)) => match kind_of_token(t) {
                Some(kd) => Some(
                    (ModAcc { v: ModuleCfgV { kind: kd, ..acc.v }, seen_kind: true, ..acc }, e),
                ),
                None => None,
            },
            None => None,
        }
    } else if k == "provider"@ {
        match parse_string(s, i) {
            Some((t, e)) => Some(
                (ModAcc { v: ModuleCfgV { provider: t, ..acc.v }, seen_provider: true, ..acc }, e),
            ),
            None => None,
        }
    } else if k == "changelog"@ {
        match parse_string(s, i) {
            Some((t, e)) => Some((ModAcc { v: ModuleCfgV { changelog: t, ..acc.v }, ..acc }, e)),
            None => None,
        }
    } else if k == "metadata"@ {
        match parse_mmeta(s, i) {
            Some((x, e)) => Some((ModAcc { v: ModuleCfgV { metadata: x, ..acc.v }, ..acc }, e)),
            None => None,
        }
    } else if k == "setting"@ {
        match parse_msetting(s, i) {
            Some((x, e)) => Some((ModAcc { v: ModuleCfgV { setting: x, ..acc.v }, ..acc }, e)),
            None => None,
        }
    } else {
        match skip_value(s, i) {
            Some(e) => Some((acc, e)),
            None => None,
        }
    }
}

pub open spec fn mod_mem() -> spec_fn(Seq<char>, int, ModAcc, Seq<char>) -> Option<(ModAcc, int)> {
    |s: Seq<char>, i: int, a: ModAcc, k: Seq<char>| mod_member(s, i, a, k)
}

pub open spec fn parse_module(s: Seq<char>, i: int) -> Option<(ModuleCfgV, int)> {
    let j = skip_ws(s, i);
    if j < s.len() && s[j] == '{' {
        match obj_fields(s, j + 1, mod_acc_init(), mod_mem()) {
            Some((acc, e)) => if acc.seen_id && acc.seen_kind && acc.seen_provider {
                Some((acc.v, e))
            } else {
                None
            },
            None => None,
        }
    } else {
        None
    }
}

#[verifier::opaque]
pub open spec fn ser_module(v: ModuleCfgV, p: bool, d: nat) -> Seq<char> {
    seq!['{'] + member_str(true, "id"@, v.id, p, d) + member_str(false, "kind"@, kind_token(v.kind), p, d)
        + member_str(false, "provider"@, v.provider, p, d) + (if v.changelog.len() == 0 {
        Seq::<char>::empty()
    } else {
        member_str(false, "changelog"@, v.changelog, p, d)
    }) + (sep_text(false, p, d) + key_part("metadata"@, p) + ser_mmeta(v.metadata, p, d + 1)) + (
    sep_text(false, p, d) + key_part("setting"@, p) + ser_msetting(v.setting, p, d + 1)) + obj_end(
        p,
        d,
    )
}

#[derive(Clone, Copy)]
struct ModFlags {
    id: bool,
    kind: bool,
    provider: bool,
}

impl ModFlags {
    spec fn lift(self, v: ModuleCfgV) -> ModAcc {
        ModAcc { v: v, seen_id: self.id, seen_kind: self.kind, seen_provider: self.provider }
    }
}

/// One member of a configured module, dispatched by key.
fn mod_member_x(v: &Vec<char>, vp: usize, key: &Vec<char>, acc: Module, f: ModFlags) -> (r: Option<
    (Module, ModFlags, usize),
>)
    requires
        vp <= v.len(),
    ensures
        match r {
            Some((a2, f2, e)) => mod_member(v@, vp as int, f.lift(acc@), key@) == Some(
                (f2.lift(a2@), e as int),
            ) && vp <= e <= v.len(),
            None => mod_member(v@, vp as int, f.lift(acc@), key@) is None,
        },
{
    proof {
        reveal(mod_member);
    }
    let mut acc = acc;
    let mut f = f;
    if text::chars_eq_str(key, "id") {
        let (t, e) = match parse_string_x(v, vp) {
            Some(x) => x,
            None => {
                return None;
            },
        };
        acc.id = text::chars_to_string(&t);
        f.id = true;
        Some((acc, f, e))
    } else if text::chars_eq_str(key, "kind") {
        let (t, e) = match parse_string_x(v, vp) {
            Some(x) => x,
            None => {
                return None;
            },
        };
        let kd = if text::chars_eq_str(&t, "update-json") {
            ProviderKind::UpdateJson
        } else if text::chars_eq_str(&t, "zip-url") {
            ProviderKind::ZipUrl
        } else if text::chars_eq_str(&t, "git") {
            ProviderKind::Git
        } else {
            return None;
        };
        acc.kind = kd;
        f.kind = true;
        Some((acc, f, e))
    } else if text::chars_eq_str(key, "provider") {
        let (t, e) = match parse_string_x(v, vp) {
            Some(x) => x,
            None => {
                return None;
            },
        };
        acc.provider = text::chars_to_string(&t);
        f.provider = true;
        Some((acc, f, e))
    } else if text::chars_eq_str(key, "changelog") {
        let (t, e) = match parse_string_x(v, vp) {
            Some(x) => x,
            None => {
                return None;
            },
        };
        acc.changelog = text::chars_to_string(&t);
        Some((acc, f, e))
    } else if text::chars_eq_str(key, "metadata") {
        let (x, e) = match parse_mmeta_x(v, vp) {
            Some(y) => y,
            None => {
                return None;
            },
        };
        acc.metadata = x;
        Some((acc, f, e))
    } else if text::chars_eq_str(key, "setting") {
        let (x, e) = match parse_msetting_x(v, vp) {
            Some(y) => y,
            None => {
                return None;
            },
        };
        acc.setting = x;
        Some((acc, f, e))
    } else {
        let e = match skip_value_x(v, vp) {
            Some(e) => e,
            None => {
                return None;
            },
        };
        Some((acc, f, e))
    }
}

#[verifier::rlimit(60)]
#[verifier::spinoff_prover]
fn mod_fields_x(v: &Vec<char>, i: usize, acc: Module, f: ModFlags) -> (r: Option<
    (Module, ModFlags, usize),
>)
    requires
        i <= v.len(),
    ensures
        match r {
            Some((a2, f2, e)) => obj_fields(v@, i as int, f.lift(acc@), mod_mem()) == Some(
                (f2.lift(a2@), e as int),
            ) && i <= e <= v.len(),
            None => obj_fields(v@, i as int, f.lift(acc@), mod_mem()) is None,
        },
    decreases v.len() - i,
{
    proof {
        reveal(obj_fields);
    }
    let j = skip_ws_x(v, i);
    if j >= v.len() {
        return None;
    }
    if v[j] == '}' {
        return Some((acc, f, j + 1));
    }
    let (key, p1) = match parse_string_x(v, j) {
        Some(kp) => kp,
        None => {
            return None;
        },
    };
    let q = skip_ws_x(v, p1);
    if !(q < v.len() && v[q] == ':') {
        return None;
    }
    let (acc2, f2, p2) = match mod_member_x(v, q + 1, &key, acc, f) {
        Some(x) => x,
        None => {
            return None;
        },
    };
    let w = skip_ws_x(v, p2);
    if w < v.len() && v[w] == ',' {
        mod_fields_x(v, w + 1, acc2, f2)
    } else if w < v.len() && v[w] == '}' {
        Some((acc2, f2, w + 1))
    } else {
        None
    }
}

pub fn parse_module_x(v: &Vec<char>, i: usize) -> (r: Option<(Module, usize)>)
    requires
        i <= v.len(),
    ensures
        match r {
            Some((x, e)) => parse_module(v@, i as int) == Some((x@, e as int)) && i <= e <= v.len(),
            None => parse_module(v@, i as int) is None,
        },
{
    let j = skip_ws_x(v, i);
    if !(j < v.len() && v[j] == '{') {
        return None;
    }
    let acc = Module {
        id: String::new(),
        kind: ProviderKind::UpdateJson,
        provider: String::new(),
        changelog: String::new(),
        metadata: ModuleMetadata::default(),
        setting: ModuleSetting::default(),
    };
    let f = ModFlags { id: false, kind: false, provider: false };
    assert(f.lift(acc@) =~= mod_acc_init());
    match mod_fields_x(v, j + 1, acc, f) {
        Some((a2, f2, e)) => {
            if f2.id && f2.kind && f2.provider {
                Some((a2, e))
            } else {
                None
            }
        },
        None => None,
    }
}

#[verifier::rlimit(100)]
#[verifier::spinoff_prover]
pub fn push_module(x: &Module, p: bool, d: usize, out: &mut Vec<char>)
    requires
        d < 78,
    ensures
        final(out)@ == old(out)@ + ser_module(x@, p, d as nat),
{
    proof {
        reveal(ser_module);
    }
    out.push('{');
    push_member_str(true, "id", x.id.as_str(), p, d, out);
    push_member_str(false, "kind", kind_token_x(x.kind), p, d, out);
    push_member_str(false, "provider", x.provider.as_str(), p, d, out);
    if x.changelog.as_str().unicode_len() > 0 {
        push_member_str(false, "changelog", x.changelog.as_str(), p, d, out);
    }
    push_sep(false, p, d, out);
    push_key("metadata", p, out);
    push_mmeta(&x.metadata, p, d + 1, out);
    push_sep(false, p, d, out);
    push_key("setting", p, out);
    push_msetting(&x.setting, p, d + 1, out);
    push_obj_end(p, d, out);
    assert(out@ =~= old(out)@ + ser_module(x@, p, d as nat));
}

// ---------- round trip: module ----------

/// The bounds under which a module's numbers print and read back.
pub open spec fn module_wf(v: ModuleCfgV) -> bool {
    match v.setting.keep_size {
        Some(n) => 0 <= n <= usize::MAX && n <= i64::MAX,
        None => true,
    }
}

proof fn lemma_mod_keys()
    ensures
        "kind"@ != "id"@,
        "provider"@ != "id"@,
        "provider"@ != "kind"@,
        "changelog"@ != "id"@,
        "changelog"@ != "kind"@,
        "changelog"@ != "provider"@,
        "metadata"@ != "id"@,
        "metadata"@ != "kind"@,
        "metadata"@ != "provider"@,
        "metadata"@ != "changelog"@,
        "setting"@ != "id"@,
        "setting"@ != "kind"@,
        "setting"@ != "provider"@,
        "setting"@ != "changelog"@,
        "setting"@ != "metadata"@,
{
    reveal_strlit("id");
    reveal_strlit("kind");
    reveal_strlit("provider");
    reveal_strlit("changelog");
    reveal_strlit("metadata");
    reveal_strlit("setting");
    assert("id"@.len() == 2);
    assert("kind"@.len() == 4);
    assert("provider"@.len() == 8);
    assert("changelog"@.len() == 9);
    assert("metadata"@.len() == 8);
    assert("setting"@.len() == 7);
    assert("metadata"@ != "provider"@) by {
        assert("metadata"@[0] == 'm');
        assert("provider"@[0] == 'p');
    }
}

/// The metadata and setting members and the closing brace.
pub open spec fn mod_ms_text(v: ModuleCfgV, p: bool, d: nat) -> Seq<char> {
    sep_text(false, p, d) + (key_part("metadata"@, p) + (ser_mmeta(v.metadata, p, d + 1) + (
    sep_text(false, p, d) + (key_part("setting"@, p) + (ser_msetting(v.setting, p, d + 1)
        + obj_end(p, d))))))
}

/// Round trip of the metadata and setting members and the close, entered at
/// the separating comma.
#[verifier::rlimit(100)]
#[verifier::spinoff_prover]
proof fn lemma_mod_rt_ms(acc: ModAcc, v: ModuleCfgV, p: bool, d: nat, s: Seq<char>, pos: int)
    requires
        module_wf(v),
        0 <= pos,
        pos + mod_ms_text(v, p, d).len() <= s.len(),
        s.subrange(pos, pos + mod_ms_text(v, p, d).len()) == mod_ms_text(v, p, d),
    ensures
        obj_fields(s, pos + 1, acc, mod_mem()) == Some(
            (
                ModAcc {
                    v: ModuleCfgV { metadata: v.metadata, setting: v.setting, ..acc.v },
                    ..acc
                },
                pos + mod_ms_text(v, p, d).len(),
            ),
        ),
{
    lemma_mod_keys();
    let kp1 = key_part("metadata"@, p);
    let v1 = ser_mmeta(v.metadata, p, d + 1);
    let kp2 = key_part("setting"@, p);
    let v2 = ser_msetting(v.setting, p, d + 1);
    let e2 = obj_end(p, d);
    let p1 = pos;
    crate::json::lemma_subrange_cat(s, p1, sep_text(false, p, d), kp1 + (v1 + (sep_text(false, p, d)
        + (kp2 + (v2 + e2)))));
    let ks1 = p1 + sep_text(false, p, d).len();
    crate::json::lemma_subrange_cat(s, ks1, kp1, v1 + (sep_text(false, p, d) + (kp2 + (v2 + e2))));
    let vs1 = ks1 + kp1.len();
    crate::json::lemma_subrange_cat(s, vs1, v1, sep_text(false, p, d) + (kp2 + (v2 + e2)));
    let p2 = vs1 + v1.len();
    crate::json::lemma_subrange_cat(s, p2, sep_text(false, p, d), kp2 + (v2 + e2));
    let ks2 = p2 + sep_text(false, p, d).len();
    crate::json::lemma_subrange_cat(s, ks2, kp2, v2 + e2);
    let vs2 = ks2 + kp2.len();
    crate::json::lemma_subrange_cat(s, vs2, v2, e2);
    let p3 = vs2 + v2.len();
    let fin = p3 + e2.len();
    assert(sep_text(false, p, d) =~= seq![','] + crate::json::open_sep(p, d + 1));
    crate::json::lemma_open_sep_ws(p, d + 1);
    crate::json::lemma_subrange_cat(s, p1, seq![','], crate::json::open_sep(p, d + 1));
    crate::json::lemma_char_at(s, p1, seq![','], 0);
    assert(s[p1] == ',');
    crate::json::lemma_skip_ws_stops(s, p1, p1);
    assert forall|y: int| p1 + 1 <= y < ks1 implies is_ws(s[y]) by {
        crate::json::lemma_char_at(s, p1 + 1, crate::json::open_sep(p, d + 1), y - (p1 + 1));
        assert(is_ws(crate::json::open_sep(p, d + 1)[y - (p1 + 1)]));
    }
    crate::json::lemma_member_head(s, p1 + 1, ks1, "metadata"@, p);
    crate::json::lemma_member_head(s, ks1, ks1, "metadata"@, p);
    assert(ser_string("metadata"@).len() >= 2);
    assert(s[ks1] == '"') by {
        crate::json::lemma_char_at(s, ks1, kp1, 0);
        assert(kp1[0] == ser_string("metadata"@)[0]);
    }
    crate::json::lemma_skip_ws_stops(s, p1 + 1, ks1);
    let kq1 = ks1 + ser_string("metadata"@).len();
    lemma_mmeta_rt(v.metadata, p, (d + 1) as nat, s, kq1 + 1, vs1);
    crate::json::lemma_subrange_cat(s, p2, seq![','], crate::json::open_sep(p, d + 1));
    crate::json::lemma_char_at(s, p2, seq![','], 0);
    assert(s[p2] == ',');
    crate::json::lemma_skip_ws_stops(s, p2, p2);
    assert forall|y: int| p2 + 1 <= y < ks2 implies is_ws(s[y]) by {
        crate::json::lemma_char_at(s, p2 + 1, crate::json::open_sep(p, d + 1), y - (p2 + 1));
        assert(is_ws(crate::json::open_sep(p, d + 1)[y - (p2 + 1)]));
    }
    crate::json::lemma_member_head(s, p2 + 1, ks2, "setting"@, p);
    crate::json::lemma_member_head(s, ks2, ks2, "setting"@, p);
    assert(ser_string("setting"@).len() >= 2);
    assert(s[ks2] == '"') by {
        crate::json::lemma_char_at(s, ks2, kp2, 0);
        assert(kp2[0] == ser_string("setting"@)[0]);
    }
    crate::json::lemma_skip_ws_stops(s, p2 + 1, ks2);
    let kq2 = ks2 + ser_string("setting"@).len();
    lemma_msetting_rt(v.setting, p, (d + 1) as nat, s, kq2 + 1, vs2);
    crate::json::lemma_obj_close(s, p3, p, d);
    let a1 = ModAcc { v: ModuleCfgV { metadata: v.metadata, ..acc.v }, ..acc };
    let a2 = ModAcc { v: ModuleCfgV { setting: v.setting, ..a1.v }, ..a1 };
    assert(mod_mem()(s, kq2 + 1, a1, "setting"@) == mod_member(s, kq2 + 1, a1, "setting"@));
    assert(mod_member(s, kq2 + 1, a1, "setting"@) == Some((a2, p3))) by {
        reveal(mod_member);
    }
    crate::json::lemma_fields_step_close(s, p2 + 1, ks2, kq2, p3, fin - 1, "setting"@, a1, a2,
    mod_mem());
    assert(mod_mem()(s, kq1 + 1, acc, "metadata"@) == mod_member(s, kq1 + 1, acc, "metadata"@));
    assert(mod_member(s, kq1 + 1, acc, "metadata"@) == Some((a1, p2))) by {
        reveal(mod_member);
    }
    crate::json::lemma_fields_step_comma(s, p1 + 1, ks1, kq1, p2, p2, "metadata"@, acc, a1, Some(
        (a2, fin),
    ), mod_mem());
    assert(a2 =~= (ModAcc {
        v: ModuleCfgV { metadata: v.metadata, setting: v.setting, ..acc.v },
        ..acc
    }));
}

/// The changelog member (when one is kept), then the rest.
pub open spec fn mod_cms_text(v: ModuleCfgV, p: bool, d: nat) -> Seq<char> {
    (if v.changelog.len() == 0 {
        Seq::<char>::empty()
    } else {
        member_str(false, "changelog"@, v.changelog, p, d)
    }) + mod_ms_text(v, p, d)
}

/// Round trip from the changelog member onward, entered at the separating
/// comma.
#[verifier::rlimit(100)]
#[verifier::spinoff_prover]
proof fn lemma_mod_rt_cms(acc: ModAcc, v: ModuleCfgV, p: bool, d: nat, s: Seq<char>, pos: int)
    requires
        module_wf(v),
        0 <= pos,
        pos + mod_cms_text(v, p, d).len() <= s.len(),
        s.subrange(pos, pos + mod_cms_text(v, p, d).len()) == mod_cms_text(v, p, d),
    ensures
        skip_ws(s, pos) == pos,
        s[pos] == ',',
        obj_fields(s, pos + 1, acc, mod_mem()) == Some(
            (
                ModAcc {
                    v: ModuleCfgV {
                        changelog: if v.changelog.len() == 0 {
                            acc.v.changelog
                        } else {
                            v.changelog
                        },
                        metadata: v.metadata,
                        setting: v.setting,
                        ..acc.v
                    },
                    ..acc
                },
                pos + mod_cms_text(v, p, d).len(),
            ),
        ),
{
    lemma_mod_keys();
    let txt = mod_cms_text(v, p, d);
    let fin = pos + txt.len() as int;
    if v.changelog.len() > 0 {
        let t1 = member_str(false, "changelog"@, v.changelog, p, d);
        let rest = mod_ms_text(v, p, d);
        assert(txt =~= t1 + rest);
        crate::json::lemma_subrange_cat(s, pos, t1, rest);
        let p1 = pos + t1.len();
        crate::json::lemma_chunk_str(s, pos, false, "changelog"@, v.changelog, p, d);
        let a1 = ModAcc { v: ModuleCfgV { changelog: v.changelog, ..acc.v }, ..acc };
        lemma_mod_rt_ms(a1, v, p, d, s, p1);
        let a2 = ModAcc {
            v: ModuleCfgV { metadata: v.metadata, setting: v.setting, ..a1.v },
            ..a1
        };
        let ks1 = pos + sep_text(false, p, d).len();
        let kq1 = ks1 + ser_string("changelog"@).len();
        assert(mod_mem()(s, kq1 + 1, acc, "changelog"@) == mod_member(s, kq1 + 1, acc,
        "changelog"@));
        assert(mod_member(s, kq1 + 1, acc, "changelog"@) == Some((a1, p1))) by {
            reveal(mod_member);
        }
        crate::json::lemma_char_at(s, p1, rest, 0);
        assert(sep_text(false, p, d) =~= seq![','] + crate::json::open_sep(p, d + 1));
        assert(rest[0] == ',');
        assert(s[p1] == ',');
        crate::json::lemma_skip_ws_stops(s, p1, p1);
        crate::json::lemma_fields_step_comma(s, pos + 1, ks1, kq1, p1, p1, "changelog"@, acc, a1,
        Some((a2, fin)), mod_mem());
    } else {
        assert(txt =~= mod_ms_text(v, p, d));
        lemma_mod_rt_ms(acc, v, p, d, s, pos);
        crate::json::lemma_char_at(s, pos, mod_ms_text(v, p, d), 0);
        assert(sep_text(false, p, d) =~= seq![','] + crate::json::open_sep(p, d + 1));
        assert(mod_ms_text(v, p, d)[0] == ',');
        assert(s[pos] == ',');
        crate::json::lemma_skip_ws_stops(s, pos, pos);
    }
}

/// The kind member, then the rest.
pub open spec fn mod_kp_text(v: ModuleCfgV, p: bool, d: nat) -> Seq<char> {
    member_str(false, "kind"@, kind_token(v.kind), p, d) + (member_str(
        false,
        "provider"@,
        v.provider,
        p,
        d,
    ) + mod_cms_text(v, p, d))
}

/// Round trip from the kind member onward, entered at the separating comma.
#[verifier::rlimit(100)]
#[verifier::spinoff_prover]
proof fn lemma_mod_rt_kp(acc: ModAcc, v: ModuleCfgV, p: bool, d: nat, s: Seq<char>, pos: int)
    requires
        module_wf(v),
        0 <= pos,
        pos + mod_kp_text(v, p, d).len() <= s.len(),
        s.subrange(pos, pos + mod_kp_text(v, p, d).len()) == mod_kp_text(v, p, d),
    ensures
        skip_ws(s, pos) == pos,
        s[pos] == ',',
        obj_fields(s, pos + 1, acc, mod_mem()) == Some(
            (
                ModAcc {
                    v: ModuleCfgV {
                        kind: v.kind,
                        provider: v.provider,
                        changelog: if v.changelog.len() == 0 {
                            acc.v.changelog
                        } else {
                            v.changelog
                        },
                        metadata: v.metadata,
                        setting: v.setting,
                        ..acc.v
                    },
                    seen_kind: true,
                    seen_provider: true,
                    ..acc
                },
                pos + mod_kp_text(v, p, d).len(),
            ),
        ),
{
    lemma_mod_keys();
    lemma_kind_token_rt(v.kind);
    let t2 = member_str(false, "kind"@, kind_token(v.kind), p, d);
    let t3 = member_str(false, "provider"@, v.provider, p, d);
    let rest = mod_cms_text(v, p, d);
    let fin = pos + mod_kp_text(v, p, d).len() as int;
    crate::json::lemma_subrange_cat(s, pos, t2, t3 + rest);
    let p2 = pos + t2.len();
    crate::json::lemma_subrange_cat(s, p2, t3, rest);
    let p3 = p2 + t3.len();
    crate::json::lemma_chunk_str(s, pos, false, "kind"@, kind_token(v.kind), p, d);
    crate::json::lemma_chunk_str(s, p2, false, "provider"@, v.provider, p, d);
    let a1 = acc;
    let a2 = ModAcc { v: ModuleCfgV { kind: v.kind, ..a1.v }, seen_kind: true, ..a1 };
    let a3 = ModAcc { v: ModuleCfgV { provider: v.provider, ..a2.v }, seen_provider: true, ..a2 };
    lemma_mod_rt_cms(a3, v, p, d, s, p3);
    let a4 = ModAcc {
        v: ModuleCfgV {
            changelog: if v.changelog.len() == 0 {
                a3.v.changelog
            } else {
                v.changelog
            },
            metadata: v.metadata,
            setting: v.setting,
            ..a3.v
        },
        ..a3
    };
    let sp = sep_text(false, p, d).len();
    let ks3 = p2 + sp;
    let kq3 = ks3 + ser_string("provider"@).len();
    assert(mod_mem()(s, kq3 + 1, a2, "provider"@) == mod_member(s, kq3 + 1, a2, "provider"@));
    assert(mod_member(s, kq3 + 1, a2, "provider"@) == Some((a3, p3))) by {
        reveal(mod_member);
    }
    crate::json::lemma_fields_step_comma(s, p2 + 1, ks3, kq3, p3, p3, "provider"@, a2, a3, Some(
        (a4, fin),
    ), mod_mem());
    let ks2 = pos + sp;
    let kq2 = ks2 + ser_string("kind"@).len();
    assert(mod_mem()(s, kq2 + 1, a1, "kind"@) == mod_member(s, kq2 + 1, a1, "kind"@));
    assert(mod_member(s, kq2 + 1, a1, "kind"@) == Some((a2, p2))) by {
        reveal(mod_member);
    }
    assert(obj_fields(s, pos + 1, a1, mod_mem()) == Some((a4, fin))) by {
        crate::json::lemma_fields_step_comma(s, pos + 1, ks2, kq2, p2, p2, "kind"@, a1, a2, Some(
            (a4, fin),
        ), mod_mem());
    }
}

/// Parsing the serialization of a configured module, after optional
/// whitespace, yields it back.
#[verifier::rlimit(100)]
#[verifier::spinoff_prover]
pub proof fn lemma_module_rt(v: ModuleCfgV, p: bool, d: nat, s: Seq<char>, i: int, m: int)
    requires
        module_wf(v),
        0 <= i <= m,
        m + ser_module(v, p, d).len() <= s.len(),
        forall|x: int| i <= x < m ==> is_ws(s[x]),
        s.subrange(m, m + ser_module(v, p, d).len()) == ser_module(v, p, d),
    ensures
        parse_module(s, i) == Some((v, m + ser_module(v, p, d).len())),
{
    reveal(ser_module);
    lemma_mod_keys();
    let t1 = member_str(true, "id"@, v.id, p, d);
    let rest = mod_kp_text(v, p, d);
    let ll = ser_module(v, p, d).len() as int;
    let fin = m + ll;
    assert(ser_module(v, p, d) =~= seq!['{'] + (t1 + rest));
    crate::json::lemma_subrange_cat(s, m, seq!['{'], t1 + rest);
    crate::json::lemma_char_at(s, m, seq!['{'], 0);
    crate::json::lemma_skip_ws_stops(s, i, m);
    let p0 = m + 1;
    crate::json::lemma_subrange_cat(s, p0, t1, rest);
    let p1 = p0 + t1.len();
    crate::json::lemma_chunk_str(s, p0, true, "id"@, v.id, p, d);
    let a0 = mod_acc_init();
    let a1 = ModAcc { v: ModuleCfgV { id: v.id, ..a0.v }, seen_id: true, ..a0 };
    lemma_mod_rt_kp(a1, v, p, d, s, p1);
    let a4 = ModAcc {
        v: ModuleCfgV {
            kind: v.kind,
            provider: v.provider,
            changelog: if v.changelog.len() == 0 {
                a1.v.changelog
            } else {
                v.changelog
            },
            metadata: v.metadata,
            setting: v.setting,
            ..a1.v
        },
        seen_kind: true,
        seen_provider: true,
        ..a1
    };
    let ks1 = p0 + sep_text(true, p, d).len();
    let kq1 = ks1 + ser_string("id"@).len();
    assert(mod_mem()(s, kq1 + 1, a0, "id"@) == mod_member(s, kq1 + 1, a0, "id"@));
    assert(mod_member(s, kq1 + 1, a0, "id"@) == Some((a1, p1))) by {
        reveal(mod_member);
    }
    crate::json::lemma_fields_step_comma(s, p0, ks1, kq1, p1, p1, "id"@, a0, a1, Some((a4, fin)),
    mod_mem());
    assert(obj_fields(s, p0, a0, mod_mem()) == Some((a4, fin)));
    assert(a4.v =~= v);
    assert(a4.seen_id && a4.seen_kind && a4.seen_provider);
}

// ---------- configuration ----------

/// The whole configuration file.
#[derive(Debug, Clone)]
pub struct Config {
    pub log: Log,
    pub repository: Repository,
    pub modules: Vec<Module>,
}

#[verifier::ext_equal]
pub ghost struct ConfigV {
    pub log: LogV,
    pub repository: RepositoryV,
    pub modules: Seq<ModuleCfgV>,
}

/// The views of a sequence of configured modules, in order.
pub open spec fn mods_view(ms: Seq<Module>) -> Seq<ModuleCfgV> {
    Seq::new(ms.len(), |k: int| ms[k]@)
}

impl View for Config {
    type V = ConfigV;

    open spec fn view(&self) -> ConfigV {
        ConfigV {
            log: self.log@,
            repository: self.repository@,
            modules: mods_view(self.modules@),
        }
    }
}

impl Config {
    pub fn new(log: Log, repository: Repository, modules: Vec<Module>) -> (r: Config)
        ensures
            r@.log == log@,
            r@.repository == repository@,
            r@.modules == mods_view(modules@),
    {
        Config { log, repository, modules }
    }
}

impl PartialEq for Config {
    fn eq(&self, other: &Self) -> (r: bool) {
        if !(self.log == other.log) {
            return false;
        }
        if !(self.repository == other.repository) {
            return false;
        }
        if self.modules.len() != other.modules.len() {
            assert(self@.modules.len() != other@.modules.len());
            return false;
        }
        let mut k: usize = 0;
        while k < self.modules.len()
            invariant
                k <= self.modules.len(),
                self.modules.len() == other.modules.len(),
                forall|j: int| 0 <= j < k ==> self@.modules[j] == other@.modules[j],
            decreases self.modules.len() - k,
        {
            if !(self.modules[k] == other.modules[k]) {
                assert(self@.modules[k as int] != other@.modules[k as int]);
                return false;
            }
            k += 1;
        }
        assert(self@.modules =~= other@.modules);
        true
    }
}

impl vstd::std_specs::cmp::PartialEqSpecImpl for Config {
    open spec fn obeys_eq_spec() -> bool {
        true
    }

    open spec fn eq_spec(&self, other: &Self) -> bool {
        self@ == other@
    }
}

pub open spec fn mod_elem() -> spec_fn(Seq<char>, int) -> Option<(ModuleCfgV, int)> {
    |s: Seq<char>, i: int| parse_module(s, i)
}

pub open spec fn mod_elem_ser(p: bool, d: nat) -> spec_fn(ModuleCfgV) -> Seq<char> {
    |x: ModuleCfgV| ser_module(x, p, d + 1)
}

pub open spec fn parse_modules(s: Seq<char>, i: int) -> Option<(Seq<ModuleCfgV>, int)> {
    let j = skip_ws(s, i);
    if j < s.len() && s[j] == '[' {
        arr_elems(s, j + 1, Seq::empty(), mod_elem())
    } else {
        None
    }
}

pub open spec fn ser_modules(es: Seq<ModuleCfgV>, p: bool, d: nat) -> Seq<char> {
    ser_arr(es, p, d, mod_elem_ser(p, d))
}

/// Exec mirror of the module-array element loop.
#[verifier::rlimit(60)]
#[verifier::spinoff_prover]
fn marr_elems_x(v: &Vec<char>, i: usize, acc: Vec<Module>) -> (r: Option<(Vec<Module>, usize)>)
    requires
        i <= v.len(),
    ensures
        match r {
            Some((a2, e)) => arr_elems(v@, i as int, mods_view(acc@), mod_elem()) == Some(
                (mods_view(a2@), e as int),
            ) && i <= e <= v.len(),
            None => arr_elems(v@, i as int, mods_view(acc@), mod_elem()) is None,
        },
    decreases v.len() - i,
{
    proof {
        reveal(arr_elems);
    }
    let j = skip_ws_x(v, i);
    if j >= v.len() {
        return None;
    }
    if v[j] == ']' {
        return Some((acc, j + 1));
    }
    let (x, pe) = match parse_module_x(v, j) {
        Some(y) => y,
        None => {
            return None;
        },
    };
    let ghost acc0 = mods_view(acc@);
    let mut acc = acc;
    acc.push(x);
    assert(mods_view(acc@) =~= acc0.push(x@));
    let w = skip_ws_x(v, pe);
    if w < v.len() && v[w] == ',' {
        marr_elems_x(v, w + 1, acc)
    } else if w < v.len() && v[w] == ']' {
        Some((acc, w + 1))
    } else {
        None
    }
}

pub fn parse_modules_x(v: &Vec<char>, i: usize) -> (r: Option<(Vec<Module>, usize)>)
    requires
        i <= v.len(),
    ensures
        match r {
            Some((x, e)) => parse_modules(v@, i as int) == Some((mods_view(x@), e as int)) && i <= e
                <= v.len(),
            None => parse_modules(v@, i as int) is None,
        },
{
    let j = skip_ws_x(v, i);
    if !(j < v.len() && v[j] == '[') {
        return None;
    }
    let acc: Vec<Module> = Vec::new();
    assert(mods_view(acc@) =~= Seq::<ModuleCfgV>::empty());
    marr_elems_x(v, j + 1, acc)
}

#[verifier::rlimit(60)]
#[verifier::spinoff_prover]
pub fn push_modules(es: &Vec<Module>, p: bool, d: usize, out: &mut Vec<char>)
    requires
        d < 77,
    ensures
        final(out)@ == old(out)@ + ser_modules(mods_view(es@), p, d as nat),
{
    let ghost vv = mods_view(es@);
    if es.len() == 0 {
        out.push('[');
        out.push(']');
        assert(out@ =~= old(out)@ + ser_modules(vv, p, d as nat));
        return ;
    }
    out.push('[');
    let mut k: usize = 0;
    while k < es.len()
        invariant
            k <= es.len(),
            es.len() >= 1,
            d < 77,
            vv == mods_view(es@),
            out@ == old(out)@ + seq!['['] + arr_items(
                vv.subrange(0, k as int),
                true,
                p,
                d as nat,
                mod_elem_ser(p, d as nat),
            ),
        decreases es.len() - k,
    {
        proof {
            lemma_arr_items_snoc(
                vv.subrange(0, k as int),
                vv[k as int],
                true,
                p,
                d as nat,
                mod_elem_ser(p, d as nat),
            );
            assert(vv.subrange(0, k as int).push(vv[k as int]) =~= vv.subrange(0, k + 1));
        }
        push_sep(k == 0, p, d, out);
        push_module(&es[k], p, d + 1, out);
        assert(mod_elem_ser(p, d as nat)(vv[k as int]) == ser_module(es@[k as int]@, p, (d
            + 1) as nat));
        assert(out@ =~= old(out)@ + seq!['['] + arr_items(
            vv.subrange(0, k + 1),
            true,
            p,
            d as nat,
            mod_elem_ser(p, d as nat),
        ));
        k += 1;
    }
    assert(vv.subrange(0, es@.len() as int) =~= vv);
    push_arr_end(p, d, out);
    assert(out@ =~= old(out)@ + ser_modules(vv, p, d as nat));
}

// ---------- round trip: module array ----------

/// Remaining elements after the first, entered at the separating comma.
#[verifier::rlimit(100)]
#[verifier::spinoff_prover]
proof fn lemma_marr_rt_rest(
    done: Seq<ModuleCfgV>,
    es: Seq<ModuleCfgV>,
    p: bool,
    d: nat,
    s: Seq<char>,
    pos: int,
)
    requires
        es.len() >= 1,
        forall|k: int| 0 <= k < es.len() ==> module_wf(#[trigger] es[k]),
        0 <= pos,
        pos + arr_items(es, false, p, d, mod_elem_ser(p, d)).len() + crate::json::arr_end(
            p,
            d,
        ).len() <= s.len(),
        s.subrange(
            pos,
            pos + arr_items(es, false, p, d, mod_elem_ser(p, d)).len() + crate::json::arr_end(
                p,
                d,
            ).len(),
        ) == arr_items(es, false, p, d, mod_elem_ser(p, d)) + crate::json::arr_end(p, d),
    ensures
        arr_elems(s, pos + 1, done, mod_elem()) == Some(
            (
                done + es,
                pos + arr_items(es, false, p, d, mod_elem_ser(p, d)).len() + crate::json::arr_end(
                    p,
                    d,
                ).len(),
            ),
        ),
    decreases es.len(),
{
    let x = es[0];
    let rest = es.skip(1);
    let f = mod_elem_ser(p, d);
    let items = arr_items(es, false, p, d, f);
    assert(items == sep_text(false, p, d) + f(x) + arr_items(rest, false, p, d, f));
    assert(f(x) == ser_module(x, p, d + 1));
    let vs = pos + sep_text(false, p, d).len();
    let ve = vs + ser_module(x, p, d + 1).len();
    let fin = pos + items.len() + crate::json::arr_end(p, d).len();
    assert(items + crate::json::arr_end(p, d) =~= sep_text(false, p, d) + (ser_module(x, p, d + 1)
        + (arr_items(rest, false, p, d, f) + crate::json::arr_end(p, d))));
    crate::json::lemma_subrange_cat(s, pos, sep_text(false, p, d), ser_module(x, p, d + 1) + (
    arr_items(rest, false, p, d, f) + crate::json::arr_end(p, d)));
    crate::json::lemma_subrange_cat(s, vs, ser_module(x, p, d + 1), arr_items(rest, false, p, d, f)
        + crate::json::arr_end(p, d));
    assert(sep_text(false, p, d) =~= seq![','] + crate::json::open_sep(p, d + 1));
    crate::json::lemma_subrange_cat(s, pos, seq![','], crate::json::open_sep(p, d + 1));
    crate::json::lemma_char_at(s, pos, seq![','], 0);
    crate::json::lemma_open_sep_ws(p, d + 1);
    assert forall|y: int| pos + 1 <= y < vs implies is_ws(s[y]) by {
        crate::json::lemma_char_at(s, pos + 1, crate::json::open_sep(p, d + 1), y - (pos + 1));
        assert(is_ws(crate::json::open_sep(p, d + 1)[y - (pos + 1)]));
    }
    assert(module_wf(x));
    lemma_module_rt(x, p, (d + 1) as nat, s, pos + 1, vs);
    lemma_module_rt(x, p, (d + 1) as nat, s, vs, vs);
    assert(skip_ws(s, pos + 1) == vs) by {
        reveal(ser_module);
        crate::json::lemma_char_at(s, vs, ser_module(x, p, (d + 1) as nat), 0);
        assert(ser_module(x, p, (d + 1) as nat)[0] == '{');
        crate::json::lemma_skip_ws_stops(s, pos + 1, vs);
    }
    assert(mod_elem()(s, vs) == parse_module(s, vs));
    if rest.len() == 0 {
        assert(arr_items(rest, false, p, d, f) == Seq::<char>::empty());
        crate::json::lemma_arr_close(s, ve, p, d);
        crate::json::lemma_arr_step_close(s, pos + 1, vs, ve, fin - 1, x, done, mod_elem());
        assert(done.push(x) =~= done + es);
    } else {
        assert forall|k: int| 0 <= k < rest.len() implies module_wf(#[trigger] rest[k]) by {
            assert(rest[k] == es[k + 1]);
        }
        lemma_marr_rt_rest(done.push(x), rest, p, d, s, ve);
        crate::json::lemma_char_at(s, ve, arr_items(rest, false, p, d, f) + crate::json::arr_end(
            p,
            d,
        ), 0);
        assert(arr_items(rest, false, p, d, f)[0] == ',');
        assert(s[ve] == ',');
        crate::json::lemma_skip_ws_stops(s, ve, ve);
        crate::json::lemma_arr_step_comma(s, pos + 1, vs, ve, ve, x, done, Some(
            (done.push(x) + rest, fin),
        ), mod_elem());
        assert(done.push(x) + rest =~= done + es);
    }
}

/// Parsing the serialization of a module list, after optional whitespace,
/// yields the list back.
#[verifier::rlimit(100)]
#[verifier::spinoff_prover]
pub proof fn lemma_marr_rt(es: Seq<ModuleCfgV>, p: bool, d: nat, s: Seq<char>, i: int, m: int)
    requires
        forall|k: int| 0 <= k < es.len() ==> module_wf(#[trigger] es[k]),
        0 <= i <= m,
        m + ser_modules(es, p, d).len() <= s.len(),
        forall|x: int| i <= x < m ==> is_ws(s[x]),
        s.subrange(m, m + ser_modules(es, p, d).len()) == ser_modules(es, p, d),
    ensures
        parse_modules(s, i) == Some((es, m + ser_modules(es, p, d).len())),
{
    let f = mod_elem_ser(p, d);
    let ll = ser_modules(es, p, d).len();
    let fin = m + ll;
    if es.len() == 0 {
        crate::json::lemma_char_at(s, m, ser_modules(es, p, d), 0);
        crate::json::lemma_char_at(s, m, ser_modules(es, p, d), 1);
        assert(s[m] == '[');
        assert(s[m + 1] == ']');
        crate::json::lemma_skip_ws_stops(s, i, m);
        crate::json::lemma_skip_ws_stops(s, m + 1, m + 1);
        crate::json::lemma_arr_empty(s, m + 1, m + 1, Seq::<ModuleCfgV>::empty(), mod_elem());
    } else {
        let x = es[0];
        let rest = es.skip(1);
        assert(arr_items(es, true, p, d, f) == sep_text(true, p, d) + f(x) + arr_items(
            rest,
            false,
            p,
            d,
            f,
        ));
        assert(ser_modules(es, p, d) =~= seq!['['] + (crate::json::open_sep(p, d + 1) + (
        ser_module(x, p, d + 1) + (arr_items(rest, false, p, d, f) + crate::json::arr_end(p, d)))));
        crate::json::lemma_subrange_cat(s, m, seq!['['], crate::json::open_sep(p, d + 1) + (
        ser_module(x, p, d + 1) + (arr_items(rest, false, p, d, f) + crate::json::arr_end(p, d))));
        crate::json::lemma_char_at(s, m, seq!['['], 0);
        crate::json::lemma_skip_ws_stops(s, i, m);
        let p0 = m + 1;
        crate::json::lemma_subrange_cat(s, p0, crate::json::open_sep(p, d + 1), ser_module(
            x,
            p,
            d + 1,
        ) + (arr_items(rest, false, p, d, f) + crate::json::arr_end(p, d)));
        let vs = p0 + crate::json::open_sep(p, d + 1).len();
        crate::json::lemma_subrange_cat(s, vs, ser_module(x, p, d + 1), arr_items(
            rest,
            false,
            p,
            d,
            f,
        ) + crate::json::arr_end(p, d));
        let ve = vs + ser_module(x, p, d + 1).len();
        crate::json::lemma_open_sep_ws(p, d + 1);
        assert forall|y: int| p0 <= y < vs implies is_ws(s[y]) by {
            crate::json::lemma_char_at(s, p0, crate::json::open_sep(p, d + 1), y - p0);
            assert(is_ws(crate::json::open_sep(p, d + 1)[y - p0]));
        }
        assert(module_wf(x));
        lemma_module_rt(x, p, (d + 1) as nat, s, p0, vs);
        lemma_module_rt(x, p, (d + 1) as nat, s, vs, vs);
        assert(skip_ws(s, p0) == vs) by {
            reveal(ser_module);
            crate::json::lemma_char_at(s, vs, ser_module(x, p, (d + 1) as nat), 0);
            assert(ser_module(x, p, (d + 1) as nat)[0] == '{');
            crate::json::lemma_skip_ws_stops(s, p0, vs);
        }
        assert(mod_elem()(s, vs) == parse_module(s, vs));
        if rest.len() == 0 {
            assert(arr_items(rest, false, p, d, f) == Seq::<char>::empty());
            crate::json::lemma_arr_close(s, ve, p, d);
            crate::json::lemma_arr_step_close(s, p0, vs, ve, fin - 1, x, Seq::<ModuleCfgV>::empty(),
            mod_elem());
            assert(Seq::<ModuleCfgV>::empty().push(x) =~= es);
        } else {
            assert forall|k: int| 0 <= k < rest.len() implies module_wf(#[trigger] rest[k]) by {
                assert(rest[k] == es[k + 1]);
            }
            lemma_marr_rt_rest(Seq::<ModuleCfgV>::empty().push(x), rest, p, d, s, ve);
            crate::json::lemma_char_at(s, ve, arr_items(rest, false, p, d, f)
                + crate::json::arr_end(p, d), 0);
            assert(arr_items(rest, false, p, d, f)[0] == ',');
            assert(s[ve] == ',');
            crate::json::lemma_skip_ws_stops(s, ve, ve);
            crate::json::lemma_arr_step_comma(s, p0, vs, ve, ve, x, Seq::<ModuleCfgV>::empty(),
            Some((Seq::<ModuleCfgV>::empty().push(x) + rest, fin)), mod_elem());
            assert(Seq::<ModuleCfgV>::empty().push(x) + rest =~= es);
        }
    }
}

// ---------- configuration object ----------

#[verifier::ext_equal]
pub ghost struct CfgAcc {
    pub v: ConfigV,
    pub seen_log: bool,
    pub seen_repository: bool,
    pub seen_modules: bool,
}

pub open spec fn cfg_acc_init() -> CfgAcc {
    CfgAcc {
        v: ConfigV {
            log: log_default(),
            repository: RepositoryV {
                name: Seq::empty(),
                metadata: rmeta_default(),
                setting: rsetting_default(),
            },
            modules: Seq::empty(),
        },
        seen_log: false,
        seen_repository: false,
        seen_modules: false,
    }
}

#[verifier::opaque]
pub open spec fn cfg_member(s: Seq<char>, i: int, acc: CfgAcc, k: Seq<char>) -> Option<
    (CfgAcc, int),
> {
    if k == "log"@ {
        match parse_log(s, i) {
            Some((x, e)) => Some(
                (CfgAcc { v: ConfigV { log: x, ..acc.v }, seen_log: true, ..acc }, e),
            ),
            None => None,
        }
    } else if k == "repository"@ {
        match parse_repository(s, i) {
            Some((x, e)) => Some(
                (CfgAcc { v: ConfigV { repository: x, ..acc.v }, seen_repository: true, ..acc }, e),
            ),
            None => None,
        }
    } else if k == "modules"@ {
        match parse_modules(s, i) {
            Some((x, e)) => Some(
                (CfgAcc { v: ConfigV { modules: x, ..acc.v }, seen_modules: true, ..acc }, e),
            ),
            None => None,
        }
    } else {
        match skip_value(s, i) {
            Some(e) => Some((acc, e)),
            None => None,
        }
    }
}

pub open spec fn cfg_mem() -> spec_fn(Seq<char>, int, CfgAcc, Seq<char>) -> Option<(CfgAcc, int)> {
    |s: Seq<char>, i: int, a: CfgAcc, k: Seq<char>| cfg_member(s, i, a, k)
}

/// A configuration object at `i`, after optional whitespace.
pub open spec fn parse_config(s: Seq<char>, i: int) -> Option<(ConfigV, int)> {
    let j = skip_ws(s, i);
    if j < s.len() && s[j] == '{' {
        match obj_fields(s, j + 1, cfg_acc_init(), cfg_mem()) {
            Some((acc, e)) => if acc.seen_log && acc.seen_repository && acc.seen_modules {
                Some((acc.v, e))
            } else {
                None
            },
            None => None,
        }
    } else {
        None
    }
}

#[verifier::opaque]
pub open spec fn ser_config(v: ConfigV, p: bool, d: nat) -> Seq<char> {
    seq!['{'] + (sep_text(true, p, d) + key_part("log"@, p) + ser_log(v.log, p, d + 1)) + (sep_text(
        false,
        p,
        d,
    ) + key_part("repository"@, p) + ser_repository(v.repository, p, d + 1)) + (sep_text(
        false,
        p,
        d,
    ) + key_part("modules"@, p) + ser_modules(v.modules, p, d + 1)) + obj_end(p, d)
}

#[derive(Clone, Copy)]
struct CfgFlags {
    log: bool,
    repository: bool,
    modules: bool,
}

impl CfgFlags {
    spec fn lift(self, v: ConfigV) -> CfgAcc {
        CfgAcc {
            v: v,
            seen_log: self.log,
            seen_repository: self.repository,
            seen_modules: self.modules,
        }
    }
}

/// One member of the configuration, dispatched by key.
fn cfg_member_x(v: &Vec<char>, vp: usize, key: &Vec<char>, acc: Config, f: CfgFlags) -> (r: Option<
    (Config, CfgFlags, usize),
>)
    requires
        vp <= v.len(),
    ensures
        match r {
            Some((a2, f2, e)) => cfg_member(v@, vp as int, f.lift(acc@), key@) == Some(
                (f2.lift(a2@), e as int),
            ) && vp <= e <= v.len(),
            None => cfg_member(v@, vp as int, f.lift(acc@), key@) is None,
        },
{
    proof {
        reveal(cfg_member);
    }
    let mut acc = acc;
    let mut f = f;
    if text::chars_eq_str(key, "log") {
        let (x, e) = match parse_log_x(v, vp) {
            Some(y) => y,
            None => {
                return None;
            },
        };
        acc.log = x;
        f.log = true;
        Some((acc, f, e))
    } else if text::chars_eq_str(key, "repository") {
        let (x, e) = match parse_repository_x(v, vp) {
            Some(y) => y,
            None => {
                return None;
            },
        };
        acc.repository = x;
        f.repository = true;
        Some((acc, f, e))
    } else if text::chars_eq_str(key, "modules") {
        let (x, e) = match parse_modules_x(v, vp) {
            Some(y) => y,
            None => {
                return None;
            },
        };
        acc.modules = x;
        f.modules = true;
        Some((acc, f, e))
    } else {
        let e = match skip_value_x(v, vp) {
            Some(e) => e,
            None => {
                return None;
            },
        };
        Some((acc, f, e))
    }
}

#[verifier::rlimit(60)]
#[verifier::spinoff_prover]
fn cfg_fields_x(v: &Vec<char>, i: usize, acc: Config, f: CfgFlags) -> (r: Option<
    (Config, CfgFlags, usize),
>)
    requires
        i <= v.len(),
    ensures
        match r {
            Some((a2, f2, e)) => obj_fields(v@, i as int, f.lift(acc@), cfg_mem()) == Some(
                (f2.lift(a2@), e as int),
            ) && i <= e <= v.len(),
            None => obj_fields(v@, i as int, f.lift(acc@), cfg_mem()) is None,
        },
    decreases v.len() - i,
{
    proof {
        reveal(obj_fields);
    }
    let j = skip_ws_x(v, i);
    if j >= v.len() {
        return None;
    }
    if v[j] == '}' {
        return Some((acc, f, j + 1));
    }
    let (key, p1) = match parse_string_x(v, j) {
        Some(kp) => kp,
        None => {
            return None;
        },
    };
    let q = skip_ws_x(v, p1);
    if !(q < v.len() && v[q] == ':') {
        return None;
    }
    let (acc2, f2, p2) = match cfg_member_x(v, q + 1, &key, acc, f) {
        Some(x) => x,
        None => {
            return None;
        },
    };
    let w = skip_ws_x(v, p2);
    if w < v.len() && v[w] == ',' {
        cfg_fields_x(v, w + 1, acc2, f2)
    } else if w < v.len() && v[w] == '}' {
        Some((acc2, f2, w + 1))
    } else {
        None
    }
}

#[verifier::rlimit(60)]
#[verifier::spinoff_prover]
pub fn parse_config_x(v: &Vec<char>, i: usize) -> (r: Option<(Config, usize)>)
    requires
        i <= v.len(),
    ensures
        match r {
            Some((x, e)) => parse_config(v@, i as int) == Some((x@, e as int)) && i <= e <= v.len(),
            None => parse_config(v@, i as int) is None,
        },
{
    let j = skip_ws_x(v, i);
    if !(j < v.len() && v[j] == '{') {
        return None;
    }
    let acc = Config {
        log: Log::default(),
        repository: Repository {
            name: String::new(),
            metadata: RepositoryMetadata::default(),
            setting: RepositorySetting::default(),
        },
        modules: Vec::new(),
    };
    let f = CfgFlags { log: false, repository: false, modules: false };
    assert(f.lift(acc@) =~= cfg_acc_init()) by {
        assert(mods_view(Seq::<Module>::empty()) =~= Seq::<ModuleCfgV>::empty());
    }
    match cfg_fields_x(v, j + 1, acc, f) {
        Some((a2, f2, e)) => {
            if f2.log && f2.repository && f2.modules {
                Some((a2, e))
            } else {
                None
            }
        },
        None => None,
    }
}

#[verifier::rlimit(100)]
#[verifier::spinoff_prover]
pub fn push_config(x: &Config, p: bool, d: usize, out: &mut Vec<char>)
    requires
        d < 76,
    ensures
        final(out)@ == old(out)@ + ser_config(x@, p, d as nat),
{
    proof {
        reveal(ser_config);
    }
    out.push('{');
    push_sep(true, p, d, out);
    push_key("log", p, out);
    push_log(&x.log, p, d + 1, out);
    push_sep(false, p, d, out);
    push_key("repository", p, out);
    push_repository(&x.repository, p, d + 1, out);
    push_sep(false, p, d, out);
    push_key("modules", p, out);
    push_modules(&x.modules, p, d + 1, out);
    push_obj_end(p, d, out);
    assert(out@ =~= old(out)@ + ser_config(x@, p, d as nat));
}

// ---------- round trip: configuration ----------

/// The bounds under which a configuration's numbers print and read back.
pub open spec fn config_wf(v: ConfigV) -> bool {
    rep_wf(v.repository) && forall|k: int| 0 <= k < v.modules.len() ==> module_wf(#[trigger] v.modules[k])
}

proof fn lemma_cfg_keys()
    ensures
        "repository"@ != "log"@,
        "modules"@ != "log"@,
        "modules"@ != "repository"@,
{
    reveal_strlit("log");
    reveal_strlit("repository");
    reveal_strlit("modules");
    assert("log"@.len() == 3);
    assert("repository"@.len() == 10);
    assert("modules"@.len() == 7);
}

/// The modules member and the closing brace.
pub open spec fn cfg_tail_text(v: ConfigV, p: bool, d: nat) -> Seq<char> {
    sep_text(false, p, d) + (key_part("modules"@, p) + (ser_modules(v.modules, p, d + 1) + obj_end(
        p,
        d,
    )))
}

/// Round trip of the modules member and the close, entered at the separating
/// comma.
#[verifier::rlimit(100)]
#[verifier::spinoff_prover]
proof fn lemma_cfg_rt_tail(acc: CfgAcc, v: ConfigV, p: bool, d: nat, s: Seq<char>, pos: int)
    requires
        config_wf(v),
        0 <= pos,
        pos + cfg_tail_text(v, p, d).len() <= s.len(),
        s.subrange(pos, pos + cfg_tail_text(v, p, d).len()) == cfg_tail_text(v, p, d),
    ensures
        obj_fields(s, pos + 1, acc, cfg_mem()) == Some(
            (
                CfgAcc { v: ConfigV { modules: v.modules, ..acc.v }, seen_modules: true, ..acc },
                pos + cfg_tail_text(v, p, d).len(),
            ),
        ),
{
    lemma_cfg_keys();
    let kp2 = key_part("modules"@, p);
    let v2 = ser_modules(v.modules, p, d + 1);
    let e2 = obj_end(p, d);
    let p1 = pos;
    crate::json::lemma_subrange_cat(s, p1, sep_text(false, p, d), kp2 + (v2 + e2));
    let ks2 = p1 + sep_text(false, p, d).len();
    crate::json::lemma_subrange_cat(s, ks2, kp2, v2 + e2);
    let vs2 = ks2 + kp2.len();
    crate::json::lemma_subrange_cat(s, vs2, v2, e2);
    let p2 = vs2 + v2.len();
    let fin = p2 + e2.len();
    assert(sep_text(false, p, d) =~= seq![','] + crate::json::open_sep(p, d + 1));
    crate::json::lemma_subrange_cat(s, p1, seq![','], crate::json::open_sep(p, d + 1));
    crate::json::lemma_char_at(s, p1, seq![','], 0);
    assert(s[p1] == ',');
    crate::json::lemma_skip_ws_stops(s, p1, p1);
    crate::json::lemma_open_sep_ws(p, d + 1);
    assert forall|y: int| p1 + 1 <= y < ks2 implies is_ws(s[y]) by {
        crate::json::lemma_char_at(s, p1 + 1, crate::json::open_sep(p, d + 1), y - (p1 + 1));
        assert(is_ws(crate::json::open_sep(p, d + 1)[y - (p1 + 1)]));
    }
    crate::json::lemma_member_head(s, p1 + 1, ks2, "modules"@, p);
    crate::json::lemma_member_head(s, ks2, ks2, "modules"@, p);
    assert(ser_string("modules"@).len() >= 2);
    assert(s[ks2] == '"') by {
        crate::json::lemma_char_at(s, ks2, kp2, 0);
        assert(kp2[0] == ser_string("modules"@)[0]);
    }
    crate::json::lemma_skip_ws_stops(s, p1 + 1, ks2);
    let kq2 = ks2 + ser_string("modules"@).len();
    lemma_marr_rt(v.modules, p, (d + 1) as nat, s, kq2 + 1, vs2);
    crate::json::lemma_obj_close(s, p2, p, d);
    let a2 = CfgAcc { v: ConfigV { modules: v.modules, ..acc.v }, seen_modules: true, ..acc };
    assert(cfg_mem()(s, kq2 + 1, acc, "modules"@) == cfg_member(s, kq2 + 1, acc, "modules"@));
    assert(cfg_member(s, kq2 + 1, acc, "modules"@) == Some((a2, p2))) by {
        reveal(cfg_member);
    }
    crate::json::lemma_fields_step_close(s, p1 + 1, ks2, kq2, p2, fin - 1, "modules"@, acc, a2,
    cfg_mem());
}

/// Round trip of all three members, entered just after the opening brace.
#[verifier::rlimit(100)]
#[verifier::spinoff_prover]
proof fn lemma_cfg_rt_members(v: ConfigV, p: bool, d: nat, s: Seq<char>, p0: int)
    requires
        config_wf(v),
        0 <= p0,
        p0 + sep_text(true, p, d).len() + key_part("log"@, p).len() + ser_log(
            v.log,
            p,
            d + 1,
        ).len() + sep_text(false, p, d).len() + key_part("repository"@, p).len() + ser_repository(
            v.repository,
            p,
            d + 1,
        ).len() + cfg_tail_text(v, p, d).len() <= s.len(),
        s.subrange(
            p0,
            p0 + sep_text(true, p, d).len() + key_part("log"@, p).len() + ser_log(
                v.log,
                p,
                d + 1,
            ).len() + sep_text(false, p, d).len() + key_part("repository"@, p).len()
                + ser_repository(v.repository, p, d + 1).len() + cfg_tail_text(v, p, d).len(),
        ) == sep_text(true, p, d) + (key_part("log"@, p) + (ser_log(v.log, p, d + 1) + (sep_text(
            false,
            p,
            d,
        ) + (key_part("repository"@, p) + (ser_repository(v.repository, p, d + 1) + cfg_tail_text(
            v,
            p,
            d,
        )))))),
    ensures
        obj_fields(s, p0, cfg_acc_init(), cfg_mem()) == Some(
            (
                CfgAcc {
                    v: ConfigV {
                        log: v.log,
                        repository: v.repository,
                        modules: v.modules,
                    },
                    seen_log: true,
                    seen_repository: true,
                    seen_modules: true,
                },
                p0 + sep_text(true, p, d).len() + key_part("log"@, p).len() + ser_log(
                    v.log,
                    p,
                    d + 1,
                ).len() + sep_text(false, p, d).len() + key_part("repository"@, p).len()
                    + ser_repository(v.repository, p, d + 1).len() + cfg_tail_text(v, p, d).len(),
            ),
        ),
{
    lemma_cfg_keys();
    let kp1 = key_part("log"@, p);
    let v1 = ser_log(v.log, p, d + 1);
    let kp2 = key_part("repository"@, p);
    let v2 = ser_repository(v.repository, p, d + 1);
    let rest = cfg_tail_text(v, p, d);
    crate::json::lemma_subrange_cat(s, p0, sep_text(true, p, d), kp1 + (v1 + (sep_text(false, p, d)
        + (kp2 + (v2 + rest)))));
    let ks1 = p0 + sep_text(true, p, d).len();
    crate::json::lemma_subrange_cat(s, ks1, kp1, v1 + (sep_text(false, p, d) + (kp2 + (v2
        + rest))));
    let vs1 = ks1 + kp1.len();
    crate::json::lemma_subrange_cat(s, vs1, v1, sep_text(false, p, d) + (kp2 + (v2 + rest)));
    let p1 = vs1 + v1.len();
    crate::json::lemma_subrange_cat(s, p1, sep_text(false, p, d), kp2 + (v2 + rest));
    let ks2 = p1 + sep_text(false, p, d).len();
    crate::json::lemma_subrange_cat(s, ks2, kp2, v2 + rest);
    let vs2 = ks2 + kp2.len();
    crate::json::lemma_subrange_cat(s, vs2, v2, rest);
    let p2 = vs2 + v2.len();
    let fin = p2 + rest.len() as int;
    assert(sep_text(true, p, d) == crate::json::open_sep(p, d + 1));
    crate::json::lemma_open_sep_ws(p, d + 1);
    assert forall|y: int| p0 <= y < ks1 implies is_ws(s[y]) by {
        crate::json::lemma_char_at(s, p0, sep_text(true, p, d), y - p0);
        assert(is_ws(crate::json::open_sep(p, d + 1)[y - p0]));
    }
    crate::json::lemma_member_head(s, p0, ks1, "log"@, p);
    crate::json::lemma_member_head(s, ks1, ks1, "log"@, p);
    assert(ser_string("log"@).len() >= 2);
    assert(s[ks1] == '"') by {
        crate::json::lemma_char_at(s, ks1, kp1, 0);
        assert(kp1[0] == ser_string("log"@)[0]);
    }
    crate::json::lemma_skip_ws_stops(s, p0, ks1);
    let kq1 = ks1 + ser_string("log"@).len();
    lemma_log_rt(v.log, p, (d + 1) as nat, s, kq1 + 1, vs1);
    assert(sep_text(false, p, d) =~= seq![','] + crate::json::open_sep(p, d + 1));
    crate::json::lemma_subrange_cat(s, p1, seq![','], crate::json::open_sep(p, d + 1));
    crate::json::lemma_char_at(s, p1, seq![','], 0);
    assert(s[p1] == ',');
    crate::json::lemma_skip_ws_stops(s, p1, p1);
    assert forall|y: int| p1 + 1 <= y < ks2 implies is_ws(s[y]) by {
        crate::json::lemma_char_at(s, p1 + 1, crate::json::open_sep(p, d + 1), y - (p1 + 1));
        assert(is_ws(crate::json::open_sep(p, d + 1)[y - (p1 + 1)]));
    }
    crate::json::lemma_member_head(s, p1 + 1, ks2, "repository"@, p);
    crate::json::lemma_member_head(s, ks2, ks2, "repository"@, p);
    assert(ser_string("repository"@).len() >= 2);
    assert(s[ks2] == '"') by {
        crate::json::lemma_char_at(s, ks2, kp2, 0);
        assert(kp2[0] == ser_string("repository"@)[0]);
    }
    crate::json::lemma_skip_ws_stops(s, p1 + 1, ks2);
    let kq2 = ks2 + ser_string("repository"@).len();
    lemma_repository_rt(v.repository, p, (d + 1) as nat, s, kq2 + 1, vs2);
    let a0 = cfg_acc_init();
    let a1 = CfgAcc { v: ConfigV { log: v.log, ..a0.v }, seen_log: true, ..a0 };
    let a2 = CfgAcc {
        v: ConfigV { repository: v.repository, ..a1.v },
        seen_repository: true,
        ..a1
    };
    lemma_cfg_rt_tail(a2, v, p, d, s, p2);
    let a3 = CfgAcc { v: ConfigV { modules: v.modules, ..a2.v }, seen_modules: true, ..a2 };
    assert(cfg_mem()(s, kq2 + 1, a1, "repository"@) == cfg_member(s, kq2 + 1, a1, "repository"@));
    assert(cfg_member(s, kq2 + 1, a1, "repository"@) == Some((a2, p2))) by {
        reveal(cfg_member);
    }
    crate::json::lemma_char_at(s, p2, rest, 0);
    assert(rest[0] == ',');
    assert(s[p2] == ',');
    crate::json::lemma_skip_ws_stops(s, p2, p2);
    crate::json::lemma_fields_step_comma(s, p1 + 1, ks2, kq2, p2, p2, "repository"@, a1, a2, Some(
        (a3, fin),
    ), cfg_mem());
    assert(cfg_mem()(s, kq1 + 1, a0, "log"@) == cfg_member(s, kq1 + 1, a0, "log"@));
    assert(cfg_member(s, kq1 + 1, a0, "log"@) == Some((a1, p1))) by {
        reveal(cfg_member);
    }
    crate::json::lemma_fields_step_comma(s, p0, ks1, kq1, p1, p1, "log"@, a0, a1, Some((a3, fin)),
    cfg_mem());
    assert(a3 =~= (CfgAcc {
        v: ConfigV { log: v.log, repository: v.repository, modules: v.modules },
        seen_log: true,
        seen_repository: true,
        seen_modules: true,
    }));
}

/// Parsing the serialization of a configuration, after optional whitespace,
/// yields it back.
#[verifier::rlimit(100)]
#[verifier::spinoff_prover]
pub proof fn lemma_config_rt(v: ConfigV, p: bool, d: nat, s: Seq<char>, i: int, m: int)
    requires
        config_wf(v),
        0 <= i <= m,
        m + ser_config(v, p, d).len() <= s.len(),
        forall|x: int| i <= x < m ==> is_ws(s[x]),
        s.subrange(m, m + ser_config(v, p, d).len()) == ser_config(v, p, d),
    ensures
        parse_config(s, i) == Some((v, m + ser_config(v, p, d).len())),
{
    reveal(ser_config);
    let rest = sep_text(true, p, d) + (key_part("log"@, p) + (ser_log(v.log, p, d + 1) + (sep_text(
        false,
        p,
        d,
    ) + (key_part("repository"@, p) + (ser_repository(v.repository, p, d + 1) + cfg_tail_text(
        v,
        p,
        d,
    ))))));
    let ll = ser_config(v, p, d).len() as int;
    assert(ser_config(v, p, d) =~= seq!['{'] + rest);
    crate::json::lemma_subrange_cat(s, m, seq!['{'], rest);
    crate::json::lemma_char_at(s, m, seq!['{'], 0);
    crate::json::lemma_skip_ws_stops(s, i, m);
    lemma_cfg_rt_members(v, p, d, s, m + 1);
    let a3 = CfgAcc {
        v: ConfigV { log: v.log, repository: v.repository, modules: v.modules },
        seen_log: true,
        seen_repository: true,
        seen_modules: true,
    };
    assert(obj_fields(s, m + 1, cfg_acc_init(), cfg_mem()) == Some((a3, m + ll)));
    assert(a3.v =~= v);
}

/// Configuration JSON round trip: serializing a configuration (compact or
/// pretty) and parsing the result yields a structurally equal value.
pub proof fn lemma_config_round_trip(v: ConfigV, pretty: bool)
    requires
        config_wf(v),
    ensures
        parse_config(ser_config(v, pretty, 0), 0) == Some(
            (v, ser_config(v, pretty, 0).len() as int),
        ),
{
    let s = ser_config(v, pretty, 0);
    assert(s.subrange(0, s.len() as int) =~= s);
    lemma_config_rt(v, pretty, 0, s, 0, 0);
}

} // verus!
