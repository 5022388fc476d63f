//! Per-module on-disk state: the latest origin identity and the retained
//! version entries, stored as `track.json` in the module directory.

use vstd::prelude::*;
use vstd::string::*;
use crate::json::{
    parse_string, parse_i64, skip_value, skip_ws, ser_string, ser_i64, key_part, member_str,
    member_i64, sep_text, open_sep, obj_end, arr_end, parse_string_x, parse_i64_x, skip_value_x,
    skip_ws_x, push_member_str, push_member_i64, push_obj_end, push_arr_end, push_sep,
    lemma_subrange_cat, lemma_char_at, lemma_skip_ws_stops, lemma_chunk_str, lemma_chunk_i64,
    lemma_obj_close, lemma_arr_close, is_ws, num_stops, obj_fields, arr_elems,
    lemma_fields_step_comma, lemma_fields_step_close, lemma_arr_step_comma,
    lemma_arr_step_close, lemma_arr_empty, arr_items, ser_arr, lemma_arr_items_snoc, push_key,
    push_open_sep, chunk_entry, lemma_member_head, lemma_open_sep_ws,
};
use crate::origin;
use crate::origin::{
    Module, ModuleV, om_wf, parse_om, ser_om, parse_om_x, push_om, lemma_om_rt,
};
use crate::text;

verus! {

/// One retained version of a module: when it was fetched, how it is
/// displayed, and the basenames of its archive and changelog files.
#[derive(Debug, Clone)]
pub struct Version {
    pub timestamp: i64,
    pub version: String,
    pub version_code: i64,
    pub zip_path: String,
    pub changelog: String,
}

#[verifier::ext_equal]
pub ghost struct VersionV {
    pub timestamp: int,
    pub version: Seq<char>,
    pub version_code: int,
    pub zip_path: Seq<char>,
    pub changelog: Seq<char>,
}

impl View for Version {
    type V = VersionV;

    open spec fn view(&self) -> VersionV {
        VersionV {
            timestamp: self.timestamp as int,
            version: self.version@,
            version_code: self.version_code as int,
            zip_path: self.zip_path@,
            changelog: self.changelog@,
        }
    }
}

pub open spec fn version_wf(v: VersionV) -> bool {
    i64::MIN <= v.timestamp <= i64::MAX && i64::MIN <= v.version_code <= i64::MAX
}

/// Basename of the archive staged for the fetch at `t`.
pub open spec fn zip_name(t: int) -> Seq<char> {
    ser_i64(t) + ".zip"@
}

/// Basename of the changelog staged for the fetch at `t`.
pub open spec fn txt_name(t: int) -> Seq<char> {
    ser_i64(t) + ".txt"@
}

impl Version {
    /// A fresh entry for a fetch at `timestamp`: the archive and changelog
    /// basenames are derived from the timestamp.
    pub fn new(timestamp: i64, version: String, version_code: i64) -> (r: Version)
        ensures
            r@.timestamp == timestamp as int,
            r@.version == version@,
            r@.version_code == version_code as int,
            r@.zip_path == zip_name(timestamp as int),
            r@.changelog == txt_name(timestamp as int),
    {
        let mut zc: Vec<char> = Vec::new();
        crate::json::push_i64(timestamp, &mut zc);
        let mut tc: Vec<char> = Vec::new();
        crate::json::push_i64(timestamp, &mut tc);
        crate::json::push_raw(".zip", &mut zc);
        crate::json::push_raw(".txt", &mut tc);
        Version {
            timestamp,
            version,
            version_code,
            zip_path: text::chars_to_string(&zc),
            changelog: text::chars_to_string(&tc),
        }
    }

    /// Field-by-field copy.
    pub fn duplicate(&self) -> (r: Version)
        ensures
            r@ == self@,
    {
        Version {
            timestamp: self.timestamp,
            version: self.version.clone(),
            version_code: self.version_code,
            zip_path: self.zip_path.clone(),
            changelog: self.changelog.clone(),
        }
    }
}

impl PartialEq for Version {
    fn eq(&self, other: &Self) -> (r: bool) {
        self.timestamp == other.timestamp && self.version == other.version && self.version_code
            == other.version_code && self.zip_path == other.zip_path && self.changelog
            == other.changelog
    }
}

impl vstd::std_specs::cmp::PartialEqSpecImpl for Version {
    open spec fn obeys_eq_spec() -> bool {
        true
    }

    open spec fn eq_spec(&self, other: &Self) -> bool {
        self@ == other@
    }
}

/// The whole per-module record.
#[derive(Debug, Clone)]
pub struct Track {
    pub module: Module,
    pub versions: Vec<Version>,
}

#[verifier::ext_equal]
pub ghost struct TrackV {
    pub module: ModuleV,
    pub versions: Seq<VersionV>,
}

/// The views of a sequence of version entries, in order.
pub open spec fn vers_view(vs: Seq<Version>) -> Seq<VersionV> {
    Seq::new(vs.len(), |k: int| vs[k]@)
}

impl View for Track {
    type V = TrackV;

    open spec fn view(&self) -> TrackV {
        TrackV { module: self.module@, versions: vers_view(self.versions@) }
    }
}

pub open spec fn track_wf(t: TrackV) -> bool {
    om_wf(t.module) && forall|k: int| 0 <= k < t.versions.len() ==> version_wf(#[trigger] t.versions[k])
}

impl PartialEq for Track {
    fn eq(&self, other: &Self) -> (r: bool) {
        if !(self.module == other.module) {
            return false;
        }
        if self.versions.len() != other.versions.len() {
            assert(self@.versions.len() != other@.versions.len());
            return false;
        }
        let mut k: usize = 0;
        while k < self.versions.len()
            invariant
                k <= self.versions.len(),
                self.versions.len() == other.versions.len(),
                self@.module == other@.module,
                forall|j: int| 0 <= j < k ==> self@.versions[j] == other@.versions[j],
            decreases self.versions.len() - k,
        {
            if !(self.versions[k] == other.versions[k]) {
                assert(self@.versions[k as int] != other@.versions[k as int]);
                return false;
            }
            k += 1;
        }
        assert(self@.versions =~= other@.versions);
        true
    }
}

impl vstd::std_specs::cmp::PartialEqSpecImpl for Track {
    open spec fn obeys_eq_spec() -> bool {
        true
    }

    open spec fn eq_spec(&self, other: &Self) -> bool {
        self@ == other@
    }
}

// ---------- codec: version entry ----------

#[verifier::ext_equal]
pub ghost struct VerAcc {
    pub v: VersionV,
    pub seen_timestamp: bool,
    pub seen_version: bool,
    pub seen_version_code: bool,
    pub seen_zip_path: bool,
    pub seen_changelog: bool,
}

pub open spec fn ver_acc_init() -> VerAcc {
    VerAcc {
        v: VersionV {
            timestamp: 0,
            version: Seq::empty(),
            version_code: 0,
            zip_path: Seq::empty(),
            changelog: Seq::empty(),
        },
        seen_timestamp: false,
        seen_version: false,
        seen_version_code: false,
        seen_zip_path: false,
        seen_changelog: false,
    }
}

#[verifier::opaque]
pub open spec fn ver_member(s: Seq<char>, i: int, acc: VerAcc, k: Seq<char>) -> Option<
    (VerAcc, int),
> {
    if k == "timestamp"@ {
        match parse_i64(s, i) {
            Some((x, e)) => Some(
                (VerAcc { v: VersionV { timestamp: x, ..acc.v }, seen_timestamp: true, ..acc }, e),
            ),
            None => None,
        }
    } else if k == "version"@ {
        match parse_string(s, i) {
            Some((t, e)) => Some(
                (VerAcc { v: VersionV { version: t, ..acc.v }, seen_version: true, ..acc }, e),
            ),
            None => None,
        }
    } else if k == "version_code"@ || k == "versionCode"@ {
        match parse_i64(s, i) {
            Some((x, e)) => Some(
                (
                    VerAcc {
                        v: VersionV { version_code: x, ..acc.v },
                        seen_version_code: true,
                        ..acc
                    },
                    e,
                ),
            ),
            None => None,
        }
    } else if k == "zip_path"@ {
        match parse_string(s, i) {
            Some((t, e)) => Some(
                (VerAcc { v: VersionV { zip_path: t, ..acc.v }, seen_zip_path: true, ..acc }, e),
            ),
            None => None,
        }
    } else if k == "changelog"@ {
        match parse_string(s, i) {
            Some((t, e)) => Some(
                (VerAcc { v: VersionV { changelog: t, ..acc.v }, seen_changelog: true, ..acc }, e),
            ),
            None => None,
        }
    } else {
        match skip_value(s, i) {
            Some(e) => Some((acc, e)),
            None => None,
        }
    }
}

pub open spec fn ver_mem() -> spec_fn(Seq<char>, int, VerAcc, Seq<char>) -> Option<(VerAcc, int)> {
    |s: Seq<char>, i: int, a: VerAcc, k: Seq<char>| ver_member(s, i, a, k)
}

pub open spec fn ver_all_seen(acc: VerAcc) -> bool {
    acc.seen_timestamp && acc.seen_version && acc.seen_version_code && acc.seen_zip_path
        && acc.seen_changelog
}

pub open spec fn parse_version(s: Seq<char>, i: int) -> Option<(VersionV, int)> {
    let j = skip_ws(s, i);
    if j < s.len() && s[j] == '{' {
        match obj_fields(s, j + 1, ver_acc_init(), ver_mem()) {
            Some((acc, e)) => if ver_all_seen(acc) {
                Some((acc.v, e))
            } else {
                None
            },
            None => None,
        }
    } else {
        None
    }
}

pub open spec fn ser_version(v: VersionV, p: bool, d: nat) -> Seq<char> {
    seq!['{'] + member_i64(true, "timestamp"@, v.timestamp, p, d) + member_str(
        false,
        "version"@,
        v.version,
        p,
        d,
    ) + member_i64(false, "version_code"@, v.version_code, p, d) + member_str(
        false,
        "zip_path"@,
        v.zip_path,
        p,
        d,
    ) + member_str(false, "changelog"@, v.changelog, p, d) + obj_end(p, d)
}

#[derive(Clone, Copy)]
struct VerFlags {
    timestamp: bool,
    version: bool,
    version_code: bool,
    zip_path: bool,
    changelog: bool,
}

impl VerFlags {
    spec fn lift(self, v: VersionV) -> VerAcc {
        VerAcc {
            v: v,
            seen_timestamp: self.timestamp,
            seen_version: self.version,
            seen_version_code: self.version_code,
            seen_zip_path: self.zip_path,
            seen_changelog: self.changelog,
        }
    }
}

/// One member of a version entry, dispatched by key.
fn ver_member_x(v: &Vec<char>, vp: usize, key: &Vec<char>, acc: Version, f: VerFlags) -> (r:
    Option<(Version, VerFlags, usize)>)
    requires
        vp <= v.len(),
    ensures
        match r {
            Some((a2, f2, e)) => ver_member(v@, vp as int, f.lift(acc@), key@) == Some(
                (f2.lift(a2@), e as int),
            ) && vp <= e <= v.len(),
            None => ver_member(v@, vp as int, f.lift(acc@), key@) is None,
        },
{
    proof {
        reveal(ver_member);
    }
    let mut acc = acc;
    let mut f = f;
    if text::chars_eq_str(key, "timestamp") {
        let (x, e) = match parse_i64_x(v, vp) {
            Some(x) => x,
            None => {
                return None;
            },
        };
        acc.timestamp = x;
        f.timestamp = true;
        Some((acc, f, e))
    } else if text::chars_eq_str(key, "version") {
        let (t, e) = match parse_string_x(v, vp) {
            Some(x) => x,
            None => {
                return None;
            },
        };
        acc.version = text::chars_to_string(&t);
        f.version = true;
        Some((acc, f, e))
    } else if text::chars_eq_str(key, "version_code") || text::chars_eq_str(key, "versionCode") {
        let (x, e) = match parse_i64_x(v, vp) {
            Some(x) => x,
            None => {
                return None;
            },
        };
        acc.version_code = x;
        f.version_code = true;
        Some((acc, f, e))
    } else if text::chars_eq_str(key, "zip_path") {
        let (t, e) = match parse_string_x(v, vp) {
            Some(x) => x,
            None => {
                return None;
            },
        };
        acc.zip_path = text::chars_to_string(&t);
        f.zip_path = true;
        Some((acc, f, e))
    } else if text::chars_eq_str(key, "changelog") {
        let (t, e) = match parse_string_x(v, vp) {
            Some(x) => x,
            None => {
                return None;
            },
        };
        acc.changelog = text::chars_to_string(&t);
        f.changelog = true;
        Some((acc, f, e))
    } else {
        let e = match skip_value_x(v, vp) {
            Some(e) => e,
            None => {
                return None;
            },
        };
        Some((acc, f, e))
    }
}

#[verifier::rlimit(60)]
#[verifier::spinoff_prover]
fn ver_fields_x(v: &Vec<char>, i: usize, acc: Version, f: VerFlags) -> (r: Option<
    (Version, VerFlags, usize),
>)
    requires
        i <= v.len(),
    ensures
        match r {
            Some((a2, f2, e)) => obj_fields(v@, i as int, f.lift(acc@), ver_mem()) == Some(
                (f2.lift(a2@), e as int),
            ) && i <= e <= v.len(),
            None => obj_fields(v@, i as int, f.lift(acc@), ver_mem()) is None,
        },
    decreases v.len() - i,
{
    proof {
        reveal(obj_fields);
    }
    let j = skip_ws_x(v, i);
    if j >= v.len() {
        return None;
    }
    if v[j] == '}' {
        return Some((acc, f, j + 1));
    }
    let (key, p1) = match parse_string_x(v, j) {
        Some(kp) => kp,
        None => {
            return None;
        },
    };
    let q = skip_ws_x(v, p1);
    if !(q < v.len() && v[q] == ':') {
        return None;
    }
    let (acc2, f2, p2) = match ver_member_x(v, q + 1, &key, acc, f) {
        Some(x) => x,
        None => {
            return None;
        },
    };
    let w = skip_ws_x(v, p2);
    if w < v.len() && v[w] == ',' {
        ver_fields_x(v, w + 1, acc2, f2)
    } else if w < v.len() && v[w] == '}' {
        Some((acc2, f2, w + 1))
    } else {
        None
    }
}

#[verifier::rlimit(60)]
#[verifier::spinoff_prover]
pub fn parse_version_x(v: &Vec<char>, i: usize) -> (r: Option<(Version, usize)>)
    requires
        i <= v.len(),
    ensures
        match r {
            Some((x, e)) => parse_version(v@, i as int) == Some((x@, e as int)) && i <= e
                <= v.len(),
            None => parse_version(v@, i as int) is None,
        },
{
    let j = skip_ws_x(v, i);
    if !(j < v.len() && v[j] == '{') {
        return None;
    }
    let acc = Version {
        timestamp: 0,
        version: String::new(),
        version_code: 0,
        zip_path: String::new(),
        changelog: String::new(),
    };
    let f = VerFlags {
        timestamp: false,
        version: false,
        version_code: false,
        zip_path: false,
        changelog: false,
    };
    assert(f.lift(acc@) =~= ver_acc_init());
    match ver_fields_x(v, j + 1, acc, f) {
        Some((a2, f2, e)) => {
            if f2.timestamp && f2.version && f2.version_code && f2.zip_path && f2.changelog {
                Some((a2, e))
            } else {
                None
            }
        },
        None => None,
    }
}

#[verifier::rlimit(50)]
#[verifier::spinoff_prover]
pub fn push_version(x: &Version, p: bool, d: usize, out: &mut Vec<char>)
    requires
        d < 80,
    ensures
        final(out)@ == old(out)@ + ser_version(x@, p, d as nat),
{
    out.push('{');
    push_member_i64(true, "timestamp", x.timestamp, p, d, out);
    push_member_str(false, "version", x.version.as_str(), p, d, out);
    push_member_i64(false, "version_code", x.version_code, p, d, out);
    push_member_str(false, "zip_path", x.zip_path.as_str(), p, d, out);
    push_member_str(false, "changelog", x.changelog.as_str(), p, d, out);
    push_obj_end(p, d, out);
    assert(out@ =~= old(out)@ + ser_version(x@, p, d as nat));
}

// ---------- round trip: version entry ----------

proof fn lemma_ver_keys()
    ensures
        "version"@ != "timestamp"@,
        "version_code"@ != "timestamp"@,
        "version_code"@ != "version"@,
        "zip_path"@ != "timestamp"@,
        "zip_path"@ != "version"@,
        "zip_path"@ != "version_code"@,
        "zip_path"@ != "versionCode"@,
        "changelog"@ != "timestamp"@,
        "changelog"@ != "version"@,
        "changelog"@ != "version_code"@,
        "changelog"@ != "versionCode"@,
        "changelog"@ != "zip_path"@,
{
    reveal_strlit("timestamp");
    reveal_strlit("version");
    reveal_strlit("version_code");
    reveal_strlit("versionCode");
    reveal_strlit("zip_path");
    reveal_strlit("changelog");
    assert("timestamp"@.len() == 9);
    assert("version"@.len() == 7);
    assert("version_code"@.len() == 12);
    assert("versionCode"@.len() == 11);
    assert("zip_path"@.len() == 8);
    assert("changelog"@.len() == 9);
    assert("changelog"@ != "timestamp"@) by {
        assert("changelog"@[0] == 'c');
        assert("timestamp"@[0] == 't');
    }
}

/// Serialized text of the last three members and the closing brace.
pub open spec fn ver_tail3(v: VersionV, p: bool, d: nat) -> Seq<char> {
    member_i64(false, "version_code"@, v.version_code, p, d) + (member_str(
        false,
        "zip_path"@,
        v.zip_path,
        p,
        d,
    ) + (member_str(false, "changelog"@, v.changelog, p, d) + obj_end(p, d)))
}

/// Serialized text of the last four members and the closing brace.
pub open spec fn ver_tail4(v: VersionV, p: bool, d: nat) -> Seq<char> {
    member_str(false, "version"@, v.version, p, d) + ver_tail3(v, p, d)
}

pub open spec fn ver_upd3(acc: VerAcc, v: VersionV) -> VerAcc {
    VerAcc {
        v: VersionV {
            version_code: v.version_code,
            zip_path: v.zip_path,
            changelog: v.changelog,
            ..acc.v
        },
        seen_version_code: true,
        seen_zip_path: true,
        seen_changelog: true,
        ..acc
    }
}

pub open spec fn ver_upd4(acc: VerAcc, v: VersionV) -> VerAcc {
    ver_upd3(
        VerAcc { v: VersionV { version: v.version, ..acc.v }, seen_version: true, ..acc },
        v,
    )
}

#[verifier::rlimit(100)]
#[verifier::spinoff_prover]
proof fn lemma_ver_rt_tail(acc: VerAcc, v: VersionV, p: bool, d: nat, s: Seq<char>, pos: int)
    requires
        version_wf(v),
        0 <= pos,
        pos + ver_tail3(v, p, d).len() <= s.len(),
        s.subrange(pos, pos + ver_tail3(v, p, d).len()) == ver_tail3(v, p, d),
    ensures
        obj_fields(s, pos + 1, acc, ver_mem()) == Some(
            (ver_upd3(acc, v), pos + ver_tail3(v, p, d).len()),
        ),
{
    lemma_ver_keys();
    let t3 = member_i64(false, "version_code"@, v.version_code, p, d);
    let t4 = member_str(false, "zip_path"@, v.zip_path, p, d);
    let t5 = member_str(false, "changelog"@, v.changelog, p, d);
    let e5 = obj_end(p, d);
    let p2 = pos;
    lemma_subrange_cat(s, p2, t3, t4 + (t5 + e5));
    let p3 = p2 + t3.len();
    lemma_subrange_cat(s, p3, t4, t5 + e5);
    let p4 = p3 + t4.len();
    lemma_subrange_cat(s, p4, t5, e5);
    let p5 = p4 + t5.len();
    let fin = p5 + e5.len();
    lemma_chunk_str(s, p3, false, "zip_path"@, v.zip_path, p, d);
    lemma_chunk_str(s, p4, false, "changelog"@, v.changelog, p, d);
    assert(s[p3] == ',');
    lemma_chunk_i64(s, p2, false, "version_code"@, v.version_code, p, d);
    lemma_obj_close(s, p5, p, d);
    let sp = sep_text(false, p, d).len();
    let a2 = acc;
    let a3 = VerAcc {
        v: VersionV { version_code: v.version_code, ..a2.v },
        seen_version_code: true,
        ..a2
    };
    let a4 = VerAcc { v: VersionV { zip_path: v.zip_path, ..a3.v }, seen_zip_path: true, ..a3 };
    let a5 = VerAcc { v: VersionV { changelog: v.changelog, ..a4.v }, seen_changelog: true, ..a4 };
    let ks5 = p4 + sp;
    let kq5 = ks5 + ser_string("changelog"@).len();
    assert(ver_mem()(s, kq5 + 1, a4, "changelog"@) == ver_member(s, kq5 + 1, a4, "changelog"@));
    assert(ver_member(s, kq5 + 1, a4, "changelog"@) == Some((a5, p5))) by {
        reveal(ver_member);
    }
    lemma_fields_step_close(s, p4 + 1, ks5, kq5, p5, fin - 1, "changelog"@, a4, a5, ver_mem());
    let ks4 = p3 + sp;
    let kq4 = ks4 + ser_string("zip_path"@).len();
    assert(ver_mem()(s, kq4 + 1, a3, "zip_path"@) == ver_member(s, kq4 + 1, a3, "zip_path"@));
    assert(ver_member(s, kq4 + 1, a3, "zip_path"@) == Some((a4, p4))) by {
        reveal(ver_member);
    }
    lemma_fields_step_comma(s, p3 + 1, ks4, kq4, p4, p4, "zip_path"@, a3, a4, Some((a5, fin)),
    ver_mem());
    let ks3 = p2 + sp;
    let kq3 = ks3 + ser_string("version_code"@).len();
    assert(ver_mem()(s, kq3 + 1, a2, "version_code"@) == ver_member(s, kq3 + 1, a2,
    "version_code"@));
    assert(ver_member(s, kq3 + 1, a2, "version_code"@) == Some((a3, p3))) by {
        reveal(ver_member);
    }
    lemma_fields_step_comma(s, p2 + 1, ks3, kq3, p3, p3, "version_code"@, a2, a3, Some((a5, fin)),
    ver_mem());
    assert(ver_upd3(acc, v) =~= a5);
}

#[verifier::rlimit(100)]
#[verifier::spinoff_prover]
proof fn lemma_ver_rt_mid(acc: VerAcc, v: VersionV, p: bool, d: nat, s: Seq<char>, pos: int)
    requires
        version_wf(v),
        0 <= pos,
        pos + ver_tail4(v, p, d).len() <= s.len(),
        s.subrange(pos, pos + ver_tail4(v, p, d).len()) == ver_tail4(v, p, d),
    ensures
        obj_fields(s, pos + 1, acc, ver_mem()) == Some(
            (ver_upd4(acc, v), pos + ver_tail4(v, p, d).len()),
        ),
{
    lemma_ver_keys();
    let t2 = member_str(false, "version"@, v.version, p, d);
    let p1 = pos;
    lemma_subrange_cat(s, p1, t2, ver_tail3(v, p, d));
    let p2 = p1 + t2.len();
    let fin = p2 + ver_tail3(v, p, d).len();
    lemma_chunk_str(s, p1, false, "version"@, v.version, p, d);
    let a1 = acc;
    let a2 = VerAcc { v: VersionV { version: v.version, ..a1.v }, seen_version: true, ..a1 };
    lemma_ver_rt_tail(a2, v, p, d, s, p2);
    let a5 = ver_upd3(a2, v);
    lemma_char_at(s, p2, ver_tail3(v, p, d), 0);
    assert(ver_tail3(v, p, d)[0] == ',') by {
        reveal(member_i64);
    }
    assert(s[p2] == ',');
    lemma_skip_ws_stops(s, p2, p2);
    let sp = sep_text(false, p, d).len();
    let ks2 = p1 + sp;
    let kq2 = ks2 + ser_string("version"@).len();
    assert(ver_mem()(s, kq2 + 1, a1, "version"@) == ver_member(s, kq2 + 1, a1, "version"@));
    assert(ver_member(s, kq2 + 1, a1, "version"@) == Some((a2, p2))) by {
        reveal(ver_member);
    }
    lemma_fields_step_comma(s, p1 + 1, ks2, kq2, p2, p2, "version"@, a1, a2, Some((a5, fin)),
    ver_mem());
    assert(ver_upd4(acc, v) =~= a5);
}

/// Parsing the serialization of a version entry, after optional whitespace,
/// yields the entry back.
#[verifier::rlimit(100)]
#[verifier::spinoff_prover]
pub proof fn lemma_ver_rt(v: VersionV, p: bool, d: nat, s: Seq<char>, i: int, m: int)
    requires
        version_wf(v),
        0 <= i <= m,
        m + ser_version(v, p, d).len() <= s.len(),
        forall|x: int| i <= x < m ==> is_ws(s[x]),
        s.subrange(m, m + ser_version(v, p, d).len()) == ser_version(v, p, d),
    ensures
        parse_version(s, i) == Some((v, m + ser_version(v, p, d).len())),
{
    lemma_ver_keys();
    let t1 = member_i64(true, "timestamp"@, v.timestamp, p, d);
    let ll = ser_version(v, p, d).len();
    let fin = m + ll;
    assert(ser_version(v, p, d) =~= seq!['{'] + (t1 + ver_tail4(v, p, d)));
    lemma_subrange_cat(s, m, seq!['{'], t1 + ver_tail4(v, p, d));
    lemma_char_at(s, m, seq!['{'], 0);
    lemma_skip_ws_stops(s, i, m);
    let p0 = m + 1;
    lemma_subrange_cat(s, p0, t1, ver_tail4(v, p, d));
    let p1 = p0 + t1.len();
    lemma_char_at(s, p1, ver_tail4(v, p, d), 0);
    assert(ver_tail4(v, p, d)[0] == ',') by {
        reveal(member_str);
    }
    assert(s[p1] == ',');
    lemma_skip_ws_stops(s, p1, p1);
    lemma_chunk_i64(s, p0, true, "timestamp"@, v.timestamp, p, d);
    let a0 = ver_acc_init();
    let a1 = VerAcc { v: VersionV { timestamp: v.timestamp, ..a0.v }, seen_timestamp: true, ..a0 };
    lemma_ver_rt_mid(a1, v, p, d, s, p1);
    let a5 = ver_upd4(a1, v);
    let ks1 = p0 + sep_text(true, p, d).len();
    let kq1 = ks1 + ser_string("timestamp"@).len();
    assert(ver_mem()(s, kq1 + 1, a0, "timestamp"@) == ver_member(s, kq1 + 1, a0, "timestamp"@));
    assert(ver_member(s, kq1 + 1, a0, "timestamp"@) == Some((a1, p1))) by {
        reveal(ver_member);
    }
    lemma_fields_step_comma(s, p0, ks1, kq1, p1, p1, "timestamp"@, a0, a1, Some((a5, fin)),
    ver_mem());
    assert(obj_fields(s, p0, a0, ver_mem()) == Some((a5, fin)));
    assert(a5.v =~= v);
    assert(ver_all_seen(a5));
}

// ---------- codec: version array ----------

pub open spec fn ver_elem() -> spec_fn(Seq<char>, int) -> Option<(VersionV, int)> {
    |s: Seq<char>, i: int| parse_version(s, i)
}

pub open spec fn ver_elem_ser(p: bool, d: nat) -> spec_fn(VersionV) -> Seq<char> {
    |x: VersionV| ser_version(x, p, d + 1)
}

pub open spec fn parse_versions(s: Seq<char>, i: int) -> Option<(Seq<VersionV>, int)> {
    let j = skip_ws(s, i);
    if j < s.len() && s[j] == '[' {
        arr_elems(s, j + 1, Seq::empty(), ver_elem())
    } else {
        None
    }
}

pub open spec fn ser_versions(es: Seq<VersionV>, p: bool, d: nat) -> Seq<char> {
    ser_arr(es, p, d, ver_elem_ser(p, d))
}

/// Exec mirror of the version-array element loop.
#[verifier::rlimit(60)]
#[verifier::spinoff_prover]
fn varr_elems_x(v: &Vec<char>, i: usize, acc: Vec<Version>) -> (r: Option<(Vec<Version>, usize)>)
    requires
        i <= v.len(),
    ensures
        match r {
            Some((a2, e)) => arr_elems(v@, i as int, vers_view(acc@), ver_elem()) == Some(
                (vers_view(a2@), e as int),
            ) && i <= e <= v.len(),
            None => arr_elems(v@, i as int, vers_view(acc@), ver_elem()) is None,
        },
    decreases v.len() - i,
{
    proof {
        reveal(arr_elems);
    }
    let j = skip_ws_x(v, i);
    if j >= v.len() {
        return None;
    }
    if v[j] == ']' {
        return Some((acc, j + 1));
    }
    let (x, pe) = match parse_version_x(v, j) {
        Some(y) => y,
        None => {
            return None;
        },
    };
    let ghost acc0 = vers_view(acc@);
    let mut acc = acc;
    acc.push(x);
    assert(vers_view(acc@) =~= acc0.push(x@));
    let w = skip_ws_x(v, pe);
    if w < v.len() && v[w] == ',' {
        varr_elems_x(v, w + 1, acc)
    } else if w < v.len() && v[w] == ']' {
        Some((acc, w + 1))
    } else {
        None
    }
}

pub fn parse_versions_x(v: &Vec<char>, i: usize) -> (r: Option<(Vec<Version>, usize)>)
    requires
        i <= v.len(),
    ensures
        match r {
            Some((x, e)) => parse_versions(v@, i as int) == Some((vers_view(x@), e as int)) && i
                <= e <= v.len(),
            None => parse_versions(v@, i as int) is None,
        },
{
    let j = skip_ws_x(v, i);
    if !(j < v.len() && v[j] == '[') {
        return None;
    }
    let acc: Vec<Version> = Vec::new();
    assert(vers_view(acc@) =~= Seq::<VersionV>::empty());
    varr_elems_x(v, j + 1, acc)
}

#[verifier::rlimit(60)]
#[verifier::spinoff_prover]
pub fn push_versions(es: &Vec<Version>, p: bool, d: usize, out: &mut Vec<char>)
    requires
        d < 79,
    ensures
        final(out)@ == old(out)@ + ser_versions(vers_view(es@), p, d as nat),
{
    let ghost vv = vers_view(es@);
    if es.len() == 0 {
        out.push('[');
        out.push(']');
        assert(out@ =~= old(out)@ + ser_versions(vv, p, d as nat));
        return ;
    }
    out.push('[');
    let mut k: usize = 0;
    while k < es.len()
        invariant
            k <= es.len(),
            es.len() >= 1,
            d < 79,
            vv == vers_view(es@),
            out@ == old(out)@ + seq!['['] + arr_items(
                vv.subrange(0, k as int),
                true,
                p,
                d as nat,
                ver_elem_ser(p, d as nat),
            ),
        decreases es.len() - k,
    {
        proof {
            lemma_arr_items_snoc(
                vv.subrange(0, k as int),
                vv[k as int],
                true,
                p,
                d as nat,
                ver_elem_ser(p, d as nat),
            );
            assert(vv.subrange(0, k as int).push(vv[k as int]) =~= vv.subrange(0, k + 1));
        }
        push_sep(k == 0, p, d, out);
        push_version(&es[k], p, d + 1, out);
        assert(ver_elem_ser(p, d as nat)(vv[k as int]) == ser_version(es@[k as int]@, p, (d
            + 1) as nat));
        assert(out@ =~= old(out)@ + seq!['['] + arr_items(
            vv.subrange(0, k + 1),
            true,
            p,
            d as nat,
            ver_elem_ser(p, d as nat),
        ));
        k += 1;
    }
    assert(vv.subrange(0, es@.len() as int) =~= vv);
    push_arr_end(p, d, out);
    assert(out@ =~= old(out)@ + ser_versions(vv, p, d as nat));
}

// ---------- round trip: version array ----------

/// Remaining elements after the first, entered at the separating comma.
#[verifier::rlimit(100)]
#[verifier::spinoff_prover]
proof fn lemma_varr_rt_rest(
    done: Seq<VersionV>,
    es: Seq<VersionV>,
    p: bool,
    d: nat,
    s: Seq<char>,
    pos: int,
)
    requires
        es.len() >= 1,
        forall|k: int| 0 <= k < es.len() ==> version_wf(#[trigger] es[k]),
        0 <= pos,
        pos + arr_items(es, false, p, d, ver_elem_ser(p, d)).len() + arr_end(p, d).len() <= s.len(),
        s.subrange(
            pos,
            pos + arr_items(es, false, p, d, ver_elem_ser(p, d)).len() + arr_end(p, d).len(),
        ) == arr_items(es, false, p, d, ver_elem_ser(p, d)) + arr_end(p, d),
    ensures
        arr_elems(s, pos + 1, done, ver_elem()) == Some(
            (
                done + es,
                pos + arr_items(es, false, p, d, ver_elem_ser(p, d)).len() + arr_end(p, d).len(),
            ),
        ),
    decreases es.len(),
{
    let x = es[0];
    let rest = es.skip(1);
    let f = ver_elem_ser(p, d);
    let items = arr_items(es, false, p, d, f);
    assert(items == sep_text(false, p, d) + f(x) + arr_items(rest, false, p, d, f));
    assert(f(x) == ser_version(x, p, d + 1));
    let vs = pos + sep_text(false, p, d).len();
    let ve = vs + ser_version(x, p, d + 1).len();
    let fin = pos + items.len() + arr_end(p, d).len();
    assert(items + arr_end(p, d) =~= sep_text(false, p, d) + (ser_version(x, p, d + 1) + (
    arr_items(rest, false, p, d, f) + arr_end(p, d))));
    lemma_subrange_cat(s, pos, sep_text(false, p, d), ser_version(x, p, d + 1) + (arr_items(
        rest,
        false,
        p,
        d,
        f,
    ) + arr_end(p, d)));
    lemma_subrange_cat(s, vs, ser_version(x, p, d + 1), arr_items(rest, false, p, d, f) + arr_end(
        p,
        d,
    ));
    assert(sep_text(false, p, d) =~= seq![','] + open_sep(p, d + 1));
    lemma_subrange_cat(s, pos, seq![','], open_sep(p, d + 1));
    lemma_char_at(s, pos, seq![','], 0);
    lemma_open_sep_ws(p, d + 1);
    assert forall|y: int| pos + 1 <= y < vs implies is_ws(s[y]) by {
        lemma_char_at(s, pos + 1, open_sep(p, d + 1), y - (pos + 1));
        assert(is_ws(open_sep(p, d + 1)[y - (pos + 1)]));
    }
    assert(version_wf(x));
    lemma_ver_rt(x, p, (d + 1) as nat, s, pos + 1, vs);
    lemma_ver_rt(x, p, (d + 1) as nat, s, vs, vs);
    assert(skip_ws(s, pos + 1) == vs) by {
        lemma_char_at(s, vs, ser_version(x, p, (d + 1) as nat), 0);
        assert(ser_version(x, p, (d + 1) as nat)[0] == '{');
        lemma_skip_ws_stops(s, pos + 1, vs);
    }
    assert(ver_elem()(s, vs) == parse_version(s, vs));
    if rest.len() == 0 {
        assert(arr_items(rest, false, p, d, f) == Seq::<char>::empty());
        lemma_arr_close(s, ve, p, d);
        lemma_arr_step_close(s, pos + 1, vs, ve, fin - 1, x, done, ver_elem());
        assert(done.push(x) =~= done + es);
    } else {
        lemma_varr_rt_rest(done.push(x), rest, p, d, s, ve);
        lemma_char_at(s, ve, arr_items(rest, false, p, d, f) + arr_end(p, d), 0);
        assert(arr_items(rest, false, p, d, f)[0] == ',');
        assert(s[ve] == ',');
        lemma_skip_ws_stops(s, ve, ve);
        lemma_arr_step_comma(s, pos + 1, vs, ve, ve, x, done, Some((done.push(x) + rest, fin)),
        ver_elem());
        assert(done.push(x) + rest =~= done + es);
    }
}

/// Parsing the serialization of a version list, after optional whitespace,
/// yields the list back.
#[verifier::rlimit(100)]
#[verifier::spinoff_prover]
pub proof fn lemma_varr_rt(es: Seq<VersionV>, p: bool, d: nat, s: Seq<char>, i: int, m: int)
    requires
        forall|k: int| 0 <= k < es.len() ==> version_wf(#[trigger] es[k]),
        0 <= i <= m,
        m + ser_versions(es, p, d).len() <= s.len(),
        forall|x: int| i <= x < m ==> is_ws(s[x]),
        s.subrange(m, m + ser_versions(es, p, d).len()) == ser_versions(es, p, d),
    ensures
        parse_versions(s, i) == Some((es, m + ser_versions(es, p, d).len())),
{
    let f = ver_elem_ser(p, d);
    let ll = ser_versions(es, p, d).len();
    let fin = m + ll;
    if es.len() == 0 {
        lemma_char_at(s, m, ser_versions(es, p, d), 0);
        lemma_char_at(s, m, ser_versions(es, p, d), 1);
        assert(s[m] == '[');
        assert(s[m + 1] == ']');
        lemma_skip_ws_stops(s, i, m);
        lemma_skip_ws_stops(s, m + 1, m + 1);
        lemma_arr_empty(s, m + 1, m + 1, Seq::<VersionV>::empty(), ver_elem());
    } else {
        let x = es[0];
        let rest = es.skip(1);
        assert(arr_items(es, true, p, d, f) == sep_text(true, p, d) + f(x) + arr_items(
            rest,
            false,
            p,
            d,
            f,
        ));
        assert(ser_versions(es, p, d) =~= seq!['['] + (open_sep(p, d + 1) + (ser_version(
            x,
            p,
            d + 1,
        ) + (arr_items(rest, false, p, d, f) + arr_end(p, d)))));
        lemma_subrange_cat(s, m, seq!['['], open_sep(p, d + 1) + (ser_version(x, p, d + 1) + (
        arr_items(rest, false, p, d, f) + arr_end(p, d))));
        lemma_char_at(s, m, seq!['['], 0);
        lemma_skip_ws_stops(s, i, m);
        let p0 = m + 1;
        lemma_subrange_cat(s, p0, open_sep(p, d + 1), ser_version(x, p, d + 1) + (arr_items(
            rest,
            false,
            p,
            d,
            f,
        ) + arr_end(p, d)));
        let vs = p0 + open_sep(p, d + 1).len();
        lemma_subrange_cat(s, vs, ser_version(x, p, d + 1), arr_items(rest, false, p, d, f)
            + arr_end(p, d));
        let ve = vs + ser_version(x, p, d + 1).len();
        lemma_open_sep_ws(p, d + 1);
        assert forall|y: int| p0 <= y < vs implies is_ws(s[y]) by {
            lemma_char_at(s, p0, open_sep(p, d + 1), y - p0);
            assert(is_ws(open_sep(p, d + 1)[y - p0]));
        }
        assert(version_wf(x));
        lemma_ver_rt(x, p, (d + 1) as nat, s, p0, vs);
        lemma_ver_rt(x, p, (d + 1) as nat, s, vs, vs);
        assert(skip_ws(s, p0) == vs) by {
            lemma_char_at(s, vs, ser_version(x, p, (d + 1) as nat), 0);
            assert(ser_version(x, p, (d + 1) as nat)[0] == '{');
            lemma_skip_ws_stops(s, p0, vs);
        }
        assert(ver_elem()(s, vs) == parse_version(s, vs));
        if rest.len() == 0 {
            assert(arr_items(rest, false, p, d, f) == Seq::<char>::empty());
            lemma_arr_close(s, ve, p, d);
            lemma_arr_step_close(s, p0, vs, ve, fin - 1, x, Seq::<VersionV>::empty(), ver_elem());
            assert(Seq::<VersionV>::empty().push(x) =~= es);
        } else {
            lemma_varr_rt_rest(Seq::<VersionV>::empty().push(x), rest, p, d, s, ve);
            lemma_char_at(s, ve, arr_items(rest, false, p, d, f) + arr_end(p, d), 0);
            assert(arr_items(rest, false, p, d, f)[0] == ',');
            assert(s[ve] == ',');
            lemma_skip_ws_stops(s, ve, ve);
            lemma_arr_step_comma(s, p0, vs, ve, ve, x, Seq::<VersionV>::empty(), Some(
                (Seq::<VersionV>::empty().push(x) + rest, fin),
            ), ver_elem());
            assert(Seq::<VersionV>::empty().push(x) + rest =~= es);
        }
    }
}

// ---------- codec: track record ----------

#[verifier::ext_equal]
pub ghost struct TrAcc {
    pub v: TrackV,
    pub seen_module: bool,
    pub seen_versions: bool,
}

pub open spec fn tr_acc_init() -> TrAcc {
    TrAcc {
        v: TrackV {
            module: ModuleV {
                id: Seq::empty(),
                name: Seq::empty(),
                version: Seq::empty(),
                version_code: 0,
                author: Seq::empty(),
                description: Seq::empty(),
            },
            versions: Seq::empty(),
        },
        seen_module: false,
        seen_versions: false,
    }
}

#[verifier::opaque]
pub open spec fn tr_member(s: Seq<char>, i: int, acc: TrAcc, k: Seq<char>) -> Option<(TrAcc, int)> {
    if k == "module"@ {
        match parse_om(s, i) {
            Some((x, e)) => Some(
                (TrAcc { v: TrackV { module: x, ..acc.v }, seen_module: true, ..acc }, e),
            ),
            None => None,
        }
    } else if k == "versions"@ {
        match parse_versions(s, i) {
            Some((x, e)) => Some(
                (TrAcc { v: TrackV { versions: x, ..acc.v }, seen_versions: true, ..acc }, e),
            ),
            None => None,
        }
    } else {
        match skip_value(s, i) {
            Some(e) => Some((acc, e)),
            None => None,
        }
    }
}

pub open spec fn tr_mem() -> spec_fn(Seq<char>, int, TrAcc, Seq<char>) -> Option<(TrAcc, int)> {
    |s: Seq<char>, i: int, a: TrAcc, k: Seq<char>| tr_member(s, i, a, k)
}

pub open spec fn tr_all_seen(acc: TrAcc) -> bool {
    acc.seen_module && acc.seen_versions
}

/// A track record at `i`, after optional whitespace.
pub open spec fn parse_track(s: Seq<char>, i: int) -> Option<(TrackV, int)> {
    let j = skip_ws(s, i);
    if j < s.len() && s[j] == '{' {
        match obj_fields(s, j + 1, tr_acc_init(), tr_mem()) {
            Some((acc, e)) => if tr_all_seen(acc) {
                Some((acc.v, e))
            } else {
                None
            },
            None => None,
        }
    } else {
        None
    }
}

pub open spec fn ser_track(t: TrackV, p: bool, d: nat) -> Seq<char> {
    seq!['{'] + (sep_text(true, p, d) + key_part("module"@, p) + ser_om(t.module, p, d + 1)) + (
    sep_text(false, p, d) + key_part("versions"@, p) + ser_versions(t.versions, p, d + 1))
        + obj_end(p, d)
}

#[derive(Clone, Copy)]
struct TrFlags {
    module: bool,
    versions: bool,
}

impl TrFlags {
    spec fn lift(self, v: TrackV) -> TrAcc {
        TrAcc { v: v, seen_module: self.module, seen_versions: self.versions }
    }
}

/// One member of a track record, dispatched by key.
fn tr_member_x(v: &Vec<char>, vp: usize, key: &Vec<char>, acc: Track, f: TrFlags) -> (r: Option<
    (Track, TrFlags, usize),
>)
    requires
        vp <= v.len(),
    ensures
        match r {
            Some((a2, f2, e)) => tr_member(v@, vp as int, f.lift(acc@), key@) == Some(
                (f2.lift(a2@), e as int),
            ) && vp <= e <= v.len(),
            None => tr_member(v@, vp as int, f.lift(acc@), key@) is None,
        },
{
    proof {
        reveal(tr_member);
    }
    let mut acc = acc;
    let mut f = f;
    if text::chars_eq_str(key, "module") {
        let (x, e) = match parse_om_x(v, vp) {
            Some(y) => y,
            None => {
                return None;
            },
        };
        acc.module = x;
        f.module = true;
        Some((acc, f, e))
    } else if text::chars_eq_str(key, "versions") {
        let (x, e) = match parse_versions_x(v, vp) {
            Some(y) => y,
            None => {
                return None;
            },
        };
        acc.versions = x;
        f.versions = true;
        Some((acc, f, e))
    } else {
        let e = match skip_value_x(v, vp) {
            Some(e) => e,
            None => {
                return None;
            },
        };
        Some((acc, f, e))
    }
}

#[verifier::rlimit(60)]
#[verifier::spinoff_prover]
fn tr_fields_x(v: &Vec<char>, i: usize, acc: Track, f: TrFlags) -> (r: Option<
    (Track, TrFlags, usize),
>)
    requires
        i <= v.len(),
    ensures
        match r {
            Some((a2, f2, e)) => obj_fields(v@, i as int, f.lift(acc@), tr_mem()) == Some(
                (f2.lift(a2@), e as int),
            ) && i <= e <= v.len(),
            None => obj_fields(v@, i as int, f.lift(acc@), tr_mem()) is None,
        },
    decreases v.len() - i,
{
    proof {
        reveal(obj_fields);
    }
    let j = skip_ws_x(v, i);
    if j >= v.len() {
        return None;
    }
    if v[j] == '}' {
        return Some((acc, f, j + 1));
    }
    let (key, p1) = match parse_string_x(v, j) {
        Some(kp) => kp,
        None => {
            return None;
        },
    };
    let q = skip_ws_x(v, p1);
    if !(q < v.len() && v[q] == ':') {
        return None;
    }
    let (acc2, f2, p2) = match tr_member_x(v, q + 1, &key, acc, f) {
        Some(x) => x,
        None => {
            return None;
        },
    };
    let w = skip_ws_x(v, p2);
    if w < v.len() && v[w] == ',' {
        tr_fields_x(v, w + 1, acc2, f2)
    } else if w < v.len() && v[w] == '}' {
        Some((acc2, f2, w + 1))
    } else {
        None
    }
}

#[verifier::rlimit(60)]
#[verifier::spinoff_prover]
pub fn parse_track_x(v: &Vec<char>, i: usize) -> (r: Option<(Track, usize)>)
    requires
        i <= v.len(),
    ensures
        match r {
            Some((x, e)) => parse_track(v@, i as int) == Some((x@, e as int)) && i <= e <= v.len(),
            None => parse_track(v@, i as int) is None,
        },
{
    let j = skip_ws_x(v, i);
    if !(j < v.len() && v[j] == '{') {
        return None;
    }
    let acc = Track {
        module: Module {
            id: String::new(),
            name: String::new(),
            version: String::new(),
            version_code: 0,
            author: String::new(),
            description: String::new(),
        },
        versions: Vec::new(),
    };
    let f = TrFlags { module: false, versions: false };
    assert(f.lift(acc@) =~= tr_acc_init()) by {
        assert(vers_view(Seq::<Version>::empty()) =~= Seq::<VersionV>::empty());
    }
    match tr_fields_x(v, j + 1, acc, f) {
        Some((a2, f2, e)) => {
            if f2.module && f2.versions {
                Some((a2, e))
            } else {
                None
            }
        },
        None => None,
    }
}

#[verifier::rlimit(60)]
#[verifier::spinoff_prover]
pub fn push_track(x: &Track, p: bool, d: usize, out: &mut Vec<char>)
    requires
        d < 78,
    ensures
        final(out)@ == old(out)@ + ser_track(x@, p, d as nat),
{
    out.push('{');
    push_sep(true, p, d, out);
    push_key("module", p, out);
    push_om(&x.module, p, d + 1, out);
    push_sep(false, p, d, out);
    push_key("versions", p, out);
    push_versions(&x.versions, p, d + 1, out);
    push_obj_end(p, d, out);
    assert(out@ =~= old(out)@ + ser_track(x@, p, d as nat));
}

// ---------- round trip: track record ----------

proof fn lemma_tr_keys()
    ensures
        "versions"@ != "module"@,
{
    reveal_strlit("module");
    reveal_strlit("versions");
    assert("module"@.len() == 6);
    assert("versions"@.len() == 8);
}

/// Round trip of the second member (`versions`) and the closing brace,
/// entered at the separating comma.
#[verifier::rlimit(100)]
#[verifier::spinoff_prover]
proof fn lemma_track_rt_tail(acc: TrAcc, t: TrackV, p: bool, d: nat, s: Seq<char>, pos: int)
    requires
        track_wf(t),
        0 <= pos,
        pos + sep_text(false, p, d).len() + key_part("versions"@, p).len() + ser_versions(
            t.versions,
            p,
            d + 1,
        ).len() + obj_end(p, d).len() <= s.len(),
        s.subrange(
            pos,
            pos + sep_text(false, p, d).len() + key_part("versions"@, p).len() + ser_versions(
                t.versions,
                p,
                d + 1,
            ).len() + obj_end(p, d).len(),
        ) == sep_text(false, p, d) + (key_part("versions"@, p) + (ser_versions(t.versions, p, d + 1)
            + obj_end(p, d))),
    ensures
        obj_fields(s, pos + 1, acc, tr_mem()) == Some(
            (
                TrAcc { v: TrackV { versions: t.versions, ..acc.v }, seen_versions: true, ..acc },
                pos + sep_text(false, p, d).len() + key_part("versions"@, p).len() + ser_versions(
                    t.versions,
                    p,
                    d + 1,
                ).len() + obj_end(p, d).len(),
            ),
        ),
{
    let kp2 = key_part("versions"@, p);
    let v2 = ser_versions(t.versions, p, d + 1);
    let e2 = obj_end(p, d);
    let p1 = pos;
    lemma_subrange_cat(s, p1, sep_text(false, p, d), kp2 + (v2 + e2));
    let ks2 = p1 + sep_text(false, p, d).len();
    lemma_subrange_cat(s, ks2, kp2, v2 + e2);
    let vs2 = ks2 + kp2.len();
    lemma_subrange_cat(s, vs2, v2, e2);
    let p2 = vs2 + v2.len();
    let fin = p2 + e2.len();
    assert(sep_text(false, p, d) =~= seq![','] + open_sep(p, d + 1));
    lemma_subrange_cat(s, p1, seq![','], open_sep(p, d + 1));
    lemma_char_at(s, p1, seq![','], 0);
    assert(s[p1] == ',');
    lemma_skip_ws_stops(s, p1, p1);
    lemma_open_sep_ws(p, d + 1);
    assert forall|y: int| p1 + 1 <= y < ks2 implies is_ws(s[y]) by {
        lemma_char_at(s, p1 + 1, open_sep(p, d + 1), y - (p1 + 1));
        assert(is_ws(open_sep(p, d + 1)[y - (p1 + 1)]));
    }
    lemma_member_head(s, p1 + 1, ks2, "versions"@, p);
    lemma_member_head(s, ks2, ks2, "versions"@, p);
    assert(ser_string("versions"@).len() >= 2);
    assert(s[ks2] == '"') by {
        lemma_char_at(s, ks2, kp2, 0);
        assert(kp2[0] == ser_string("versions"@)[0]);
    }
    lemma_skip_ws_stops(s, p1 + 1, ks2);
    let kq2 = ks2 + ser_string("versions"@).len();
    lemma_varr_rt(t.versions, p, (d + 1) as nat, s, kq2 + 1, vs2);
    lemma_obj_close(s, p2, p, d);
    let a2 = TrAcc { v: TrackV { versions: t.versions, ..acc.v }, seen_versions: true, ..acc };
    assert(tr_mem()(s, kq2 + 1, acc, "versions"@) == tr_member(s, kq2 + 1, acc, "versions"@));
    assert(tr_member(s, kq2 + 1, acc, "versions"@) == Some((a2, p2))) by {
        reveal(tr_member);
        lemma_tr_keys();
    }
    lemma_fields_step_close(s, p1 + 1, ks2, kq2, p2, fin - 1, "versions"@, acc, a2, tr_mem());
}

/// Round trip of both members, entered just after the opening brace.
#[verifier::rlimit(100)]
#[verifier::spinoff_prover]
proof fn lemma_track_rt_members(t: TrackV, p: bool, d: nat, s: Seq<char>, p0: int)
    requires
        track_wf(t),
        0 <= p0,
        p0 + sep_text(true, p, d).len() + key_part("module"@, p).len() + ser_om(
            t.module,
            p,
            d + 1,
        ).len() + sep_text(false, p, d).len() + key_part("versions"@, p).len() + ser_versions(
            t.versions,
            p,
            d + 1,
        ).len() + obj_end(p, d).len() <= s.len(),
        s.subrange(
            p0,
            p0 + sep_text(true, p, d).len() + key_part("module"@, p).len() + ser_om(
                t.module,
                p,
                d + 1,
            ).len() + sep_text(false, p, d).len() + key_part("versions"@, p).len() + ser_versions(
                t.versions,
                p,
                d + 1,
            ).len() + obj_end(p, d).len(),
        ) == sep_text(true, p, d) + (key_part("module"@, p) + (ser_om(t.module, p, d + 1) + (
        sep_text(false, p, d) + (key_part("versions"@, p) + (ser_versions(t.versions, p, d + 1)
            + obj_end(p, d)))))),
    ensures
        obj_fields(s, p0, tr_acc_init(), tr_mem()) == Some(
            (
                TrAcc {
                    v: TrackV { module: t.module, versions: t.versions },
                    seen_module: true,
                    seen_versions: true,
                },
                p0 + sep_text(true, p, d).len() + key_part("module"@, p).len() + ser_om(
                    t.module,
                    p,
                    d + 1,
                ).len() + sep_text(false, p, d).len() + key_part("versions"@, p).len()
                    + ser_versions(t.versions, p, d + 1).len() + obj_end(p, d).len(),
            ),
        ),
{
    let kp1 = key_part("module"@, p);
    let v1 = ser_om(t.module, p, d + 1);
    let kp2 = key_part("versions"@, p);
    let v2 = ser_versions(t.versions, p, d + 1);
    let e2 = obj_end(p, d);
    lemma_subrange_cat(s, p0, sep_text(true, p, d), kp1 + (v1 + (sep_text(false, p, d) + (kp2 + (v2
        + e2)))));
    let ks1 = p0 + sep_text(true, p, d).len();
    lemma_subrange_cat(s, ks1, kp1, v1 + (sep_text(false, p, d) + (kp2 + (v2 + e2))));
    let vs1 = ks1 + kp1.len();
    lemma_subrange_cat(s, vs1, v1, sep_text(false, p, d) + (kp2 + (v2 + e2)));
    let p1 = vs1 + v1.len();
    let fin = p1 + sep_text(false, p, d).len() + kp2.len() + v2.len() + e2.len();
    assert(sep_text(true, p, d) == open_sep(p, d + 1));
    lemma_open_sep_ws(p, d + 1);
    assert forall|y: int| p0 <= y < ks1 implies is_ws(s[y]) by {
        lemma_char_at(s, p0, sep_text(true, p, d), y - p0);
        assert(is_ws(open_sep(p, d + 1)[y - p0]));
    }
    lemma_member_head(s, p0, ks1, "module"@, p);
    lemma_member_head(s, ks1, ks1, "module"@, p);
    assert(ser_string("module"@).len() >= 2);
    assert(s[ks1] == '"') by {
        lemma_char_at(s, ks1, kp1, 0);
        assert(kp1[0] == ser_string("module"@)[0]);
    }
    lemma_skip_ws_stops(s, p0, ks1);
    let kq1 = ks1 + ser_string("module"@).len();
    lemma_om_rt(t.module, p, (d + 1) as nat, s, kq1 + 1, vs1);
    let a0 = tr_acc_init();
    let a1 = TrAcc { v: TrackV { module: t.module, ..a0.v }, seen_module: true, ..a0 };
    lemma_track_rt_tail(a1, t, p, d, s, p1);
    let a2 = TrAcc { v: TrackV { versions: t.versions, ..a1.v }, seen_versions: true, ..a1 };
    assert(tr_mem()(s, kq1 + 1, a0, "module"@) == tr_member(s, kq1 + 1, a0, "module"@));
    assert(tr_member(s, kq1 + 1, a0, "module"@) == Some((a1, p1))) by {
        reveal(tr_member);
    }
    lemma_char_at(s, p1, sep_text(false, p, d) + (kp2 + (v2 + e2)), 0);
    assert((seq![','] + open_sep(p, d + 1))[0] == ',');
    assert(sep_text(false, p, d)[0] == ',');
    assert(s[p1] == ',');
    lemma_skip_ws_stops(s, p1, p1);
    lemma_fields_step_comma(s, p0, ks1, kq1, p1, p1, "module"@, a0, a1, Some((a2, fin)), tr_mem());
    assert(a2 =~= TrAcc {
        v: TrackV { module: t.module, versions: t.versions },
        seen_module: true,
        seen_versions: true,
    });
}

/// Parsing the serialization of a track record, after optional whitespace,
/// yields the record back.
#[verifier::rlimit(100)]
#[verifier::spinoff_prover]
pub proof fn lemma_track_rt(t: TrackV, p: bool, d: nat, s: Seq<char>, i: int, m: int)
    requires
        track_wf(t),
        0 <= i <= m,
        m + ser_track(t, p, d).len() <= s.len(),
        forall|x: int| i <= x < m ==> is_ws(s[x]),
        s.subrange(m, m + ser_track(t, p, d).len()) == ser_track(t, p, d),
    ensures
        parse_track(s, i) == Some((t, m + ser_track(t, p, d).len())),
{
    let kp1 = key_part("module"@, p);
    let v1 = ser_om(t.module, p, d + 1);
    let kp2 = key_part("versions"@, p);
    let v2 = ser_versions(t.versions, p, d + 1);
    let e2 = obj_end(p, d);
    let ll = ser_track(t, p, d).len();
    assert(ser_track(t, p, d) =~= seq!['{'] + (sep_text(true, p, d) + (kp1 + (v1 + (sep_text(
        false,
        p,
        d,
    ) + (kp2 + (v2 + e2)))))));
    lemma_subrange_cat(s, m, seq!['{'], sep_text(true, p, d) + (kp1 + (v1 + (sep_text(false, p, d)
        + (kp2 + (v2 + e2))))));
    lemma_char_at(s, m, seq!['{'], 0);
    lemma_skip_ws_stops(s, i, m);
    lemma_track_rt_members(t, p, d, s, m + 1);
    let a2 = TrAcc {
        v: TrackV { module: t.module, versions: t.versions },
        seen_module: true,
        seen_versions: true,
    };
    assert(obj_fields(s, m + 1, tr_acc_init(), tr_mem()) == Some((a2, m + ll)));
    assert(a2.v =~= t);
    assert(tr_all_seen(a2));
}

/// Track JSON round-trip: serializing a track record (compact or pretty) and
/// parsing the result yields a structurally equal record.
pub proof fn lemma_track_round_trip(t: TrackV, pretty: bool)
    requires
        track_wf(t),
    ensures
        parse_track(ser_track(t, pretty, 0), 0) == Some(
            (t, ser_track(t, pretty, 0).len() as int),
        ),
{
    let s = ser_track(t, pretty, 0);
    assert(s.subrange(0, s.len() as int) =~= s);
    lemma_track_rt(t, pretty, 0, s, 0, 0);
}

} // verus!
