//! Identity metadata parsed from inside a module archive, and the
//! update-pointer document served by `update-json` providers.

use vstd::prelude::*;
use vstd::string::*;
use crate::json::{
    parse_string, parse_i64, skip_value, skip_ws, ser_string, ser_i64, key_part, member_str,
    member_i64, sep_text, open_sep, obj_end, parse_string_x, parse_i64_x, skip_value_x, skip_ws_x,
    push_member_str, push_member_i64, push_obj_end, lemma_subrange_cat, lemma_char_at, obj_fields,
    lemma_fields_step_comma, lemma_fields_step_close,
    lemma_skip_ws_stops, lemma_chunk_str, lemma_chunk_i64, lemma_obj_close, is_ws, num_stops,
};
use crate::text;

verus! {

/// Authoritative identity of a module version, read from its archive.
#[derive(Debug, Clone)]
pub struct Module {
    pub id: String,
    pub name: String,
    pub version: String,
    pub version_code: i64,
    pub author: String,
    pub description: String,
}

#[verifier::ext_equal]
pub ghost struct ModuleV {
    pub id: Seq<char>,
    pub name: Seq<char>,
    pub version: Seq<char>,
    pub version_code: int,
    pub author: Seq<char>,
    pub description: Seq<char>,
}

impl View for Module {
    type V = ModuleV;

    open spec fn view(&self) -> ModuleV {
        ModuleV {
            id: self.id@,
            name: self.name@,
            version: self.version@,
            version_code: self.version_code as int,
            author: self.author@,
            description: self.description@,
        }
    }
}

impl Module {
    /// Field-by-field copy.
    pub fn duplicate(&self) -> (r: Module)
        ensures
            r@ == self@,
    {
        Module {
            id: self.id.clone(),
            name: self.name.clone(),
            version: self.version.clone(),
            version_code: self.version_code,
            author: self.author.clone(),
            description: self.description.clone(),
        }
    }
}

impl PartialEq for Module {
    fn eq(&self, other: &Self) -> (r: bool) {
        self.id == other.id && self.name == other.name && self.version == other.version
            && self.version_code == other.version_code && self.author == other.author
            && self.description == other.description
    }
}

impl vstd::std_specs::cmp::PartialEqSpecImpl for Module {
    open spec fn obeys_eq_spec() -> bool {
        true
    }

    open spec fn eq_spec(&self, other: &Self) -> bool {
        self@ == other@
    }
}

/// An update-pointer document: where the latest archive lives.
#[derive(Debug, Clone)]
pub struct UpdateJson {
    pub version: String,
    pub version_code: i64,
    pub zip_url: String,
    pub changelog: String,
}

#[verifier::ext_equal]
pub ghost struct UpdateJsonV {
    pub version: Seq<char>,
    pub version_code: int,
    pub zip_url: Seq<char>,
    pub changelog: Seq<char>,
}

impl View for UpdateJson {
    type V = UpdateJsonV;

    open spec fn view(&self) -> UpdateJsonV {
        UpdateJsonV {
            version: self.version@,
            version_code: self.version_code as int,
            zip_url: self.zip_url@,
            changelog: self.changelog@,
        }
    }
}

impl PartialEq for UpdateJson {
    fn eq(&self, other: &Self) -> (r: bool) {
        self.version == other.version && self.version_code == other.version_code && self.zip_url
            == other.zip_url && self.changelog == other.changelog
    }
}

impl vstd::std_specs::cmp::PartialEqSpecImpl for UpdateJson {
    open spec fn obeys_eq_spec() -> bool {
        true
    }

    open spec fn eq_spec(&self, other: &Self) -> bool {
        self@ == other@
    }
}

// ---------- codec: origin module ----------

#[verifier::ext_equal]
pub ghost struct ModuleAcc {
    pub v: ModuleV,
    pub seen_id: bool,
    pub seen_name: bool,
    pub seen_version: bool,
    pub seen_version_code: bool,
    pub seen_author: bool,
    pub seen_description: bool,
}

pub open spec fn om_acc_init() -> ModuleAcc {
    ModuleAcc {
        v: ModuleV {
            id: Seq::empty(),
            name: Seq::empty(),
            version: Seq::empty(),
            version_code: 0,
            author: Seq::empty(),
            description: Seq::empty(),
        },
        seen_id: false,
        seen_name: false,
        seen_version: false,
        seen_version_code: false,
        seen_author: false,
        seen_description: false,
    }
}

pub open spec fn om_acc_of(
    v: ModuleV,
    s1: bool,
    s2: bool,
    s3: bool,
    s4: bool,
    s5: bool,
    s6: bool,
) -> ModuleAcc {
    ModuleAcc {
        v: v,
        seen_id: s1,
        seen_name: s2,
        seen_version: s3,
        seen_version_code: s4,
        seen_author: s5,
        seen_description: s6,
    }
}

#[verifier::opaque]
pub open spec fn om_member(s: Seq<char>, i: int, acc: ModuleAcc, k: Seq<char>) -> Option<
    (ModuleAcc, int),
> {
    if k == "id"@ {
        match parse_string(s, i) {
            Some((t, e)) => Some(
                (ModuleAcc { v: ModuleV { id: t, ..acc.v }, seen_id: true, ..acc }, e),
            ),
            None => None,
        }
    } else if k == "name"@ {
        match parse_string(s, i) {
            Some((t, e)) => Some(
                (ModuleAcc { v: ModuleV { name: t, ..acc.v }, seen_name: true, ..acc }, e),
            ),
            None => None,
        }
    } else if k == "version"@ {
        match parse_string(s, i) {
            Some((t, e)) => Some(
                (ModuleAcc { v: ModuleV { version: t, ..acc.v }, seen_version: true, ..acc }, e),
            ),
            None => None,
        }
    } else if k == "version_code"@ || k == "versionCode"@ {
        match parse_i64(s, i) {
            Some((x, e)) => Some(
                (
                    ModuleAcc {
                        v: ModuleV { version_code: x, ..acc.v },
                        seen_version_code: true,
                        ..acc
                    },
                    e,
                ),
            ),
            None => None,
        }
    } else if k == "author"@ {
        match parse_string(s, i) {
            Some((t, e)) => Some(
                (ModuleAcc { v: ModuleV { author: t, ..acc.v }, seen_author: true, ..acc }, e),
            ),
            None => None,
        }
    } else if k == "description"@ {
        match parse_string(s, i) {
            Some((t, e)) => Some(
                (
                    ModuleAcc {
                        v: ModuleV { description: t, ..acc.v },
                        seen_description: true,
                        ..acc
                    },
                    e,
                ),
            ),
            None => None,
        }
    } else {
        match skip_value(s, i) {
            Some(e) => Some((acc, e)),
            None => None,
        }
    }
}

pub open spec fn om_mem() -> spec_fn(Seq<char>, int, ModuleAcc, Seq<char>) -> Option<
    (ModuleAcc, int),
> {
    |s: Seq<char>, i: int, a: ModuleAcc, k: Seq<char>| om_member(s, i, a, k)
}

pub open spec fn om_fields(s: Seq<char>, i: int, acc: ModuleAcc) -> Option<(ModuleAcc, int)> {
    obj_fields(s, i, acc, om_mem())
}

/// The view of an actual `Module` value: its code fits an `i64`.
pub open spec fn om_wf(v: ModuleV) -> bool {
    i64::MIN <= v.version_code <= i64::MAX
}

pub open spec fn om_all_seen(acc: ModuleAcc) -> bool {
    acc.seen_id && acc.seen_name && acc.seen_version && acc.seen_version_code && acc.seen_author
        && acc.seen_description
}

/// An origin module object at `i`, after optional whitespace.
pub open spec fn parse_om(s: Seq<char>, i: int) -> Option<(ModuleV, int)> {
    let j = skip_ws(s, i);
    if j < s.len() && s[j] == '{' {
        match om_fields(s, j + 1, om_acc_init()) {
            Some((acc, e)) => if om_all_seen(acc) {
                Some((acc.v, e))
            } else {
                None
            },
            None => None,
        }
    } else {
        None
    }
}

pub open spec fn ser_om(v: ModuleV, p: bool, d: nat) -> Seq<char> {
    seq!['{'] + member_str(true, "id"@, v.id, p, d) + member_str(false, "name"@, v.name, p, d)
        + member_str(false, "version"@, v.version, p, d) + member_i64(
        false,
        "version_code"@,
        v.version_code,
        p,
        d,
    ) + member_str(false, "author"@, v.author, p, d) + member_str(
        false,
        "description"@,
        v.description,
        p,
        d,
    ) + obj_end(p, d)
}

/// Which required members have been seen so far.
#[derive(Clone, Copy)]
struct OmFlags {
    id: bool,
    name: bool,
    version: bool,
    version_code: bool,
    author: bool,
    description: bool,
}

impl OmFlags {
    spec fn lift(self, v: ModuleV) -> ModuleAcc {
        om_acc_of(v, self.id, self.name, self.version, self.version_code, self.author,
        self.description)
    }
}

/// One member of an origin-module object, dispatched by key.
fn om_member_x(v: &Vec<char>, vp: usize, key: &Vec<char>, acc: Module, f: OmFlags) -> (r: Option<
    (Module, OmFlags, usize),
>)
    requires
        vp <= v.len(),
    ensures
        match r {
            Some((a2, f2, e)) => om_member(v@, vp as int, f.lift(acc@), key@) == Some(
                (f2.lift(a2@), e as int),
            ) && vp <= e <= v.len(),
            None => om_member(v@, vp as int, f.lift(acc@), key@) is None,
        },
{
    proof {
        reveal(om_member);
    }
    let mut acc = acc;
    let mut f = f;
    if text::chars_eq_str(key, "id") {
        let (t, e) = match parse_string_x(v, vp) {
            Some(x) => x,
            None => {
                return None;
            },
        };
        acc.id = text::chars_to_string(&t);
        f.id = true;
        Some((acc, f, e))
    } else if text::chars_eq_str(key, "name") {
        let (t, e) = match parse_string_x(v, vp) {
            Some(x) => x,
            None => {
                return None;
            },
        };
        acc.name = text::chars_to_string(&t);
        f.name = true;
        Some((acc, f, e))
    } else if text::chars_eq_str(key, "version") {
        let (t, e) = match parse_string_x(v, vp) {
            Some(x) => x,
            None => {
                return None;
            },
        };
        acc.version = text::chars_to_string(&t);
        f.version = true;
        Some((acc, f, e))
    } else if text::chars_eq_str(key, "version_code") || text::chars_eq_str(key, "versionCode") {
        let (x, e) = match parse_i64_x(v, vp) {
            Some(x) => x,
            None => {
                return None;
            },
        };
        acc.version_code = x;
        f.version_code = true;
        Some((acc, f, e))
    } else if text::chars_eq_str(key, "author") {
        let (t, e) = match parse_string_x(v, vp) {
            Some(x) => x,
            None => {
                return None;
            },
        };
        acc.author = text::chars_to_string(&t);
        f.author = true;
        Some((acc, f, e))
    } else if text::chars_eq_str(key, "description") {
        let (t, e) = match parse_string_x(v, vp) {
            Some(x) => x,
            None => {
                return None;
            },
        };
        acc.description = text::chars_to_string(&t);
        f.description = true;
        Some((acc, f, e))
    } else {
        let e = match skip_value_x(v, vp) {
            Some(e) => e,
            None => {
                return None;
            },
        };
        Some((acc, f, e))
    }
}

/// Exec mirror of `om_fields`.
#[verifier::rlimit(60)]
#[verifier::spinoff_prover]
fn om_fields_x(v: &Vec<char>, i: usize, acc: Module, f: OmFlags) -> (r: Option<
    (Module, OmFlags, usize),
>)
    requires
        i <= v.len(),
    ensures
        match r {
            Some((a2, f2, e)) => om_fields(v@, i as int, f.lift(acc@)) == Some(
                (f2.lift(a2@), e as int),
            ) && i <= e <= v.len(),
            None => om_fields(v@, i as int, f.lift(acc@)) is None,
        },
    decreases v.len() - i,
{
    proof {
        reveal(obj_fields);
    }
    let j = skip_ws_x(v, i);
    if j >= v.len() {
        return None;
    }
    if v[j] == '}' {
        return Some((acc, f, j + 1));
    }
    let (key, p1) = match parse_string_x(v, j) {
        Some(kp) => kp,
        None => {
            return None;
        },
    };
    let q = skip_ws_x(v, p1);
    if !(q < v.len() && v[q] == ':') {
        return None;
    }
    let (acc2, f2, p2) = match om_member_x(v, q + 1, &key, acc, f) {
        Some(x) => x,
        None => {
            return None;
        },
    };
    let w = skip_ws_x(v, p2);
    if w < v.len() && v[w] == ',' {
        om_fields_x(v, w + 1, acc2, f2)
    } else if w < v.len() && v[w] == '}' {
        Some((acc2, f2, w + 1))
    } else {
        None
    }
}

#[verifier::rlimit(60)]
#[verifier::spinoff_prover]
pub fn parse_om_x(v: &Vec<char>, i: usize) -> (r: Option<(Module, usize)>)
    requires
        i <= v.len(),
    ensures
        match r {
            Some((x, e)) => parse_om(v@, i as int) == Some((x@, e as int)) && i <= e <= v.len(),
            None => parse_om(v@, i as int) is None,
        },
{
    let j = skip_ws_x(v, i);
    if !(j < v.len() && v[j] == '{') {
        return None;
    }
    let acc = Module {
        id: String::new(),
        name: String::new(),
        version: String::new(),
        version_code: 0,
        author: String::new(),
        description: String::new(),
    };
    let f = OmFlags {
        id: false,
        name: false,
        version: false,
        version_code: false,
        author: false,
        description: false,
    };
    assert(f.lift(acc@) =~= om_acc_init());
    match om_fields_x(v, j + 1, acc, f) {
        Some((a2, f2, e)) => {
            if f2.id && f2.name && f2.version && f2.version_code && f2.author && f2.description {
                Some((a2, e))
            } else {
                None
            }
        },
        None => None,
    }
}

/// The member keys of an origin module are pairwise distinct where the
/// dispatch order requires it.
proof fn lemma_om_keys()
    ensures
        "name"@ != "id"@,
        "version"@ != "id"@,
        "version"@ != "name"@,
        "version_code"@ != "id"@,
        "version_code"@ != "name"@,
        "version_code"@ != "version"@,
        "author"@ != "id"@,
        "author"@ != "name"@,
        "author"@ != "version"@,
        "author"@ != "version_code"@,
        "author"@ != "versionCode"@,
        "description"@ != "id"@,
        "description"@ != "name"@,
        "description"@ != "version"@,
        "description"@ != "version_code"@,
        "description"@ != "versionCode"@,
        "description"@ != "author"@,
{
    reveal_strlit("id");
    reveal_strlit("name");
    reveal_strlit("version");
    reveal_strlit("version_code");
    reveal_strlit("versionCode");
    reveal_strlit("author");
    reveal_strlit("description");
    assert("id"@.len() == 2);
    assert("name"@.len() == 4);
    assert("version"@.len() == 7);
    assert("version_code"@.len() == 12);
    assert("versionCode"@.len() == 11);
    assert("author"@.len() == 6);
    assert("description"@.len() == 11);
    assert("description"@ != "versionCode"@) by {
        assert("description"@[0] == 'd');
        assert("versionCode"@[0] == 'v');
    }
}

/// Serialized text of the last three members and the closing brace.
pub open spec fn om_tail3(v: ModuleV, p: bool, d: nat) -> Seq<char> {
    member_i64(false, "version_code"@, v.version_code, p, d) + (member_str(
        false,
        "author"@,
        v.author,
        p,
        d,
    ) + (member_str(false, "description"@, v.description, p, d) + obj_end(p, d)))
}

/// Serialized text of the last five members and the closing brace.
pub open spec fn om_tail5(v: ModuleV, p: bool, d: nat) -> Seq<char> {
    member_str(false, "name"@, v.name, p, d) + (member_str(false, "version"@, v.version, p, d)
        + om_tail3(v, p, d))
}

/// Accumulator after the last three members.
pub open spec fn om_upd3(acc: ModuleAcc, v: ModuleV) -> ModuleAcc {
    ModuleAcc {
        v: ModuleV {
            version_code: v.version_code,
            author: v.author,
            description: v.description,
            ..acc.v
        },
        seen_version_code: true,
        seen_author: true,
        seen_description: true,
        ..acc
    }
}

/// Accumulator after the last five members.
pub open spec fn om_upd5(acc: ModuleAcc, v: ModuleV) -> ModuleAcc {
    om_upd3(
        ModuleAcc {
            v: ModuleV { name: v.name, version: v.version, ..acc.v },
            seen_name: true,
            seen_version: true,
            ..acc
        },
        v,
    )
}

/// Round trip of members four to six and the closing brace, entered at the
/// comma before `version_code`.
#[verifier::rlimit(100)]
#[verifier::spinoff_prover]
proof fn lemma_om_rt_tail(acc: ModuleAcc, v: ModuleV, p: bool, d: nat, s: Seq<char>, pos: int)
    requires
        om_wf(v),
        0 <= pos,
        pos + om_tail3(v, p, d).len() <= s.len(),
        s.subrange(pos, pos + om_tail3(v, p, d).len()) == om_tail3(v, p, d),
    ensures
        om_fields(s, pos + 1, acc) == Some((om_upd3(acc, v), pos + om_tail3(v, p, d).len())),
{
    lemma_om_keys();
    let t4 = member_i64(false, "version_code"@, v.version_code, p, d);
    let t5 = member_str(false, "author"@, v.author, p, d);
    let t6 = member_str(false, "description"@, v.description, p, d);
    let e6 = obj_end(p, d);
    let p3 = pos;
    lemma_subrange_cat(s, p3, t4, t5 + (t6 + e6));
    let p4 = p3 + t4.len();
    lemma_subrange_cat(s, p4, t5, t6 + e6);
    let p5 = p4 + t5.len();
    lemma_subrange_cat(s, p5, t6, e6);
    let p6 = p5 + t6.len();
    let fin = p6 + e6.len();
    lemma_chunk_str(s, p4, false, "author"@, v.author, p, d);
    lemma_chunk_str(s, p5, false, "description"@, v.description, p, d);
    assert(s[p4] == ',');
    lemma_chunk_i64(s, p3, false, "version_code"@, v.version_code, p, d);
    lemma_obj_close(s, p6, p, d);
    let sp = sep_text(false, p, d).len();
    let a3 = acc;
    let a4 = ModuleAcc {
        v: ModuleV { version_code: v.version_code, ..a3.v },
        seen_version_code: true,
        ..a3
    };
    let a5 = ModuleAcc { v: ModuleV { author: v.author, ..a4.v }, seen_author: true, ..a4 };
    let a6 = ModuleAcc {
        v: ModuleV { description: v.description, ..a5.v },
        seen_description: true,
        ..a5
    };
    let ks6 = p5 + sp;
    let kq6 = ks6 + ser_string("description"@).len();
    assert(om_mem()(s, kq6 + 1, a5, "description"@) == om_member(s, kq6 + 1, a5, "description"@));
    assert(om_member(s, kq6 + 1, a5, "description"@) == Some((a6, p6))) by {
        reveal(om_member);
    }
    lemma_fields_step_close(s, p5 + 1, ks6, kq6, p6, fin - 1, "description"@, a5, a6, om_mem());
    let ks5 = p4 + sp;
    let kq5 = ks5 + ser_string("author"@).len();
    assert(om_mem()(s, kq5 + 1, a4, "author"@) == om_member(s, kq5 + 1, a4, "author"@));
    assert(om_member(s, kq5 + 1, a4, "author"@) == Some((a5, p5))) by {
        reveal(om_member);
    }
    lemma_fields_step_comma(s, p4 + 1, ks5, kq5, p5, p5, "author"@, a4, a5, Some((a6, fin)),
    om_mem());
    let ks4 = p3 + sp;
    let kq4 = ks4 + ser_string("version_code"@).len();
    assert(om_mem()(s, kq4 + 1, a3, "version_code"@) == om_member(s, kq4 + 1, a3,
    "version_code"@));
    assert(om_member(s, kq4 + 1, a3, "version_code"@) == Some((a4, p4))) by {
        reveal(om_member);
    }
    lemma_fields_step_comma(s, p3 + 1, ks4, kq4, p4, p4, "version_code"@, a3, a4, Some((a6, fin)),
    om_mem());
    assert(om_upd3(acc, v) =~= a6);
}

/// Round trip of members two to six and the closing brace, entered at the
/// comma before `name`.
#[verifier::rlimit(100)]
#[verifier::spinoff_prover]
proof fn lemma_om_rt_mid(acc: ModuleAcc, v: ModuleV, p: bool, d: nat, s: Seq<char>, pos: int)
    requires
        om_wf(v),
        0 <= pos,
        pos + om_tail5(v, p, d).len() <= s.len(),
        s.subrange(pos, pos + om_tail5(v, p, d).len()) == om_tail5(v, p, d),
    ensures
        om_fields(s, pos + 1, acc) == Some((om_upd5(acc, v), pos + om_tail5(v, p, d).len())),
{
    lemma_om_keys();
    let t2 = member_str(false, "name"@, v.name, p, d);
    let t3 = member_str(false, "version"@, v.version, p, d);
    let p1 = pos;
    lemma_subrange_cat(s, p1, t2, t3 + om_tail3(v, p, d));
    let p2 = p1 + t2.len();
    lemma_subrange_cat(s, p2, t3, om_tail3(v, p, d));
    let p3 = p2 + t3.len();
    let fin = p3 + om_tail3(v, p, d).len();
    lemma_chunk_str(s, p1, false, "name"@, v.name, p, d);
    lemma_chunk_str(s, p2, false, "version"@, v.version, p, d);
    let a1 = acc;
    let a2 = ModuleAcc { v: ModuleV { name: v.name, ..a1.v }, seen_name: true, ..a1 };
    let a3 = ModuleAcc { v: ModuleV { version: v.version, ..a2.v }, seen_version: true, ..a2 };
    lemma_om_rt_tail(a3, v, p, d, s, p3);
    let a6 = om_upd3(a3, v);
    let sp = sep_text(false, p, d).len();
    lemma_char_at(s, p3, om_tail3(v, p, d), 0);
    assert(om_tail3(v, p, d)[0] == ',') by {
        reveal(member_i64);
    }
    assert(s[p3] == ',');
    lemma_skip_ws_stops(s, p3, p3);
    let ks3 = p2 + sp;
    let kq3 = ks3 + ser_string("version"@).len();
    assert(om_mem()(s, kq3 + 1, a2, "version"@) == om_member(s, kq3 + 1, a2, "version"@));
    assert(om_member(s, kq3 + 1, a2, "version"@) == Some((a3, p3))) by {
        reveal(om_member);
    }
    lemma_fields_step_comma(s, p2 + 1, ks3, kq3, p3, p3, "version"@, a2, a3, Some((a6, fin)),
    om_mem());
    let ks2 = p1 + sp;
    let kq2 = ks2 + ser_string("name"@).len();
    assert(om_mem()(s, kq2 + 1, a1, "name"@) == om_member(s, kq2 + 1, a1, "name"@));
    assert(om_member(s, kq2 + 1, a1, "name"@) == Some((a2, p2))) by {
        reveal(om_member);
    }
    lemma_fields_step_comma(s, p1 + 1, ks2, kq2, p2, p2, "name"@, a1, a2, Some((a6, fin)),
    om_mem());
    assert(om_upd5(acc, v) =~= a6);
}

/// Parsing the serialization of an origin module, after optional whitespace,
/// yields the module back.
#[verifier::rlimit(100)]
#[verifier::spinoff_prover]
pub proof fn lemma_om_rt(v: ModuleV, p: bool, d: nat, s: Seq<char>, i: int, m: int)
    requires
        om_wf(v),
        0 <= i <= m,
        m + ser_om(v, p, d).len() <= s.len(),
        forall|x: int| i <= x < m ==> is_ws(s[x]),
        s.subrange(m, m + ser_om(v, p, d).len()) == ser_om(v, p, d),
    ensures
        parse_om(s, i) == Some((v, m + ser_om(v, p, d).len())),
{
    lemma_om_keys();
    let t1 = member_str(true, "id"@, v.id, p, d);
    let ll = ser_om(v, p, d).len();
    let fin = m + ll;
    assert(ser_om(v, p, d) =~= seq!['{'] + (t1 + om_tail5(v, p, d)));
    lemma_subrange_cat(s, m, seq!['{'], t1 + om_tail5(v, p, d));
    lemma_char_at(s, m, seq!['{'], 0);
    lemma_skip_ws_stops(s, i, m);
    let p0 = m + 1;
    lemma_subrange_cat(s, p0, t1, om_tail5(v, p, d));
    let p1 = p0 + t1.len();
    lemma_chunk_str(s, p0, true, "id"@, v.id, p, d);
    let a0 = om_acc_init();
    let a1 = ModuleAcc { v: ModuleV { id: v.id, ..a0.v }, seen_id: true, ..a0 };
    lemma_om_rt_mid(a1, v, p, d, s, p1);
    let a6 = om_upd5(a1, v);
    lemma_char_at(s, p1, om_tail5(v, p, d), 0);
    assert(om_tail5(v, p, d)[0] == ',') by {
        reveal(member_str);
    }
    assert(s[p1] == ',');
    lemma_skip_ws_stops(s, p1, p1);
    let ks1 = p0 + sep_text(true, p, d).len();
    let kq1 = ks1 + ser_string("id"@).len();
    assert(om_mem()(s, kq1 + 1, a0, "id"@) == om_member(s, kq1 + 1, a0, "id"@));
    assert(om_member(s, kq1 + 1, a0, "id"@) == Some((a1, p1))) by {
        reveal(om_member);
    }
    lemma_fields_step_comma(s, p0, ks1, kq1, p1, p1, "id"@, a0, a1, Some((a6, fin)), om_mem());
    assert(om_fields(s, p0, a0) == Some((a6, fin)));
    assert(a6.v =~= v);
    assert(om_all_seen(a6));
}

#[verifier::rlimit(50)]
#[verifier::spinoff_prover]
pub fn push_om(x: &Module, p: bool, d: usize, out: &mut Vec<char>)
    requires
        d < 80,
    ensures
        final(out)@ == old(out)@ + ser_om(x@, p, d as nat),
{
    out.push('{');
    push_member_str(true, "id", x.id.as_str(), p, d, out);
    push_member_str(false, "name", x.name.as_str(), p, d, out);
    push_member_str(false, "version", x.version.as_str(), p, d, out);
    push_member_i64(false, "version_code", x.version_code, p, d, out);
    push_member_str(false, "author", x.author.as_str(), p, d, out);
    push_member_str(false, "description", x.description.as_str(), p, d, out);
    push_obj_end(p, d, out);
    assert(out@ =~= old(out)@ + ser_om(x@, p, d as nat));
}

// ---------- codec: update pointer ----------

#[verifier::ext_equal]
pub ghost struct UjAcc {
    pub v: UpdateJsonV,
    pub seen_version: bool,
    pub seen_version_code: bool,
    pub seen_zip_url: bool,
    pub seen_changelog: bool,
}

pub open spec fn uj_acc_init() -> UjAcc {
    UjAcc {
        v: UpdateJsonV {
            version: Seq::empty(),
            version_code: 0,
            zip_url: Seq::empty(),
            changelog: Seq::empty(),
        },
        seen_version: false,
        seen_version_code: false,
        seen_zip_url: false,
        seen_changelog: false,
    }
}

#[verifier::opaque]
pub open spec fn uj_member(s: Seq<char>, i: int, acc: UjAcc, k: Seq<char>) -> Option<(UjAcc, int)> {
    if k == "version"@ {
        match parse_string(s, i) {
            Some((t, e)) => Some(
                (UjAcc { v: UpdateJsonV { version: t, ..acc.v }, seen_version: true, ..acc }, e),
            ),
            None => None,
        }
    } else if k == "version_code"@ || k == "versionCode"@ {
        match parse_i64(s, i) {
            Some((x, e)) => Some(
                (
                    UjAcc {
                        v: UpdateJsonV { version_code: x, ..acc.v },
                        seen_version_code: true,
                        ..acc
                    },
                    e,
                ),
            ),
            None => None,
        }
    } else if k == "zip_url"@ || k == "zipUrl"@ {
        match parse_string(s, i) {
            Some((t, e)) => Some(
                (UjAcc { v: UpdateJsonV { zip_url: t, ..acc.v }, seen_zip_url: true, ..acc }, e),
            ),
            None => None,
        }
    } else if k == "changelog"@ {
        match parse_string(s, i) {
            Some((t, e)) => Some(
                (
                    UjAcc {
                        v: UpdateJsonV { changelog: t, ..acc.v },
                        seen_changelog: true,
                        ..acc
                    },
                    e,
                ),
            ),
            None => None,
        }
    } else {
        match skip_value(s, i) {
            Some(e) => Some((acc, e)),
            None => None,
        }
    }
}

pub open spec fn uj_mem() -> spec_fn(Seq<char>, int, UjAcc, Seq<char>) -> Option<(UjAcc, int)> {
    |s: Seq<char>, i: int, a: UjAcc, k: Seq<char>| uj_member(s, i, a, k)
}

pub open spec fn uj_all_seen(acc: UjAcc) -> bool {
    acc.seen_version && acc.seen_version_code && acc.seen_zip_url && acc.seen_changelog
}

/// An update-pointer object at `i`, after optional whitespace.
pub open spec fn parse_uj(s: Seq<char>, i: int) -> Option<(UpdateJsonV, int)> {
    let j = skip_ws(s, i);
    if j < s.len() && s[j] == '{' {
        match obj_fields(s, j + 1, uj_acc_init(), uj_mem()) {
            Some((acc, e)) => if uj_all_seen(acc) {
                Some((acc.v, e))
            } else {
                None
            },
            None => None,
        }
    } else {
        None
    }
}

pub open spec fn ser_uj(v: UpdateJsonV, p: bool, d: nat) -> Seq<char> {
    seq!['{'] + member_str(true, "version"@, v.version, p, d) + member_i64(
        false,
        "version_code"@,
        v.version_code,
        p,
        d,
    ) + member_str(false, "zip_url"@, v.zip_url, p, d) + member_str(
        false,
        "changelog"@,
        v.changelog,
        p,
        d,
    ) + obj_end(p, d)
}

/// Which required members of an update pointer have been seen.
#[derive(Clone, Copy)]
struct UjFlags {
    version: bool,
    version_code: bool,
    zip_url: bool,
    changelog: bool,
}

impl UjFlags {
    spec fn lift(self, v: UpdateJsonV) -> UjAcc {
        UjAcc {
            v: v,
            seen_version: self.version,
            seen_version_code: self.version_code,
            seen_zip_url: self.zip_url,
            seen_changelog: self.changelog,
        }
    }
}

/// One member of an update-pointer object, dispatched by key.
fn uj_member_x(v: &Vec<char>, vp: usize, key: &Vec<char>, acc: UpdateJson, f: UjFlags) -> (r:
    Option<(UpdateJson, UjFlags, usize)>)
    requires
        vp <= v.len(),
    ensures
        match r {
            Some((a2, f2, e)) => uj_member(v@, vp as int, f.lift(acc@), key@) == Some(
                (f2.lift(a2@), e as int),
            ) && vp <= e <= v.len(),
            None => uj_member(v@, vp as int, f.lift(acc@), key@) is None,
        },
{
    proof {
        reveal(uj_member);
    }
    let mut acc = acc;
    let mut f = f;
    if text::chars_eq_str(key, "version") {
        let (t, e) = match parse_string_x(v, vp) {
            Some(x) => x,
            None => {
                return None;
            },
        };
        acc.version = text::chars_to_string(&t);
        f.version = true;
        Some((acc, f, e))
    } else if text::chars_eq_str(key, "version_code") || text::chars_eq_str(key, "versionCode") {
        let (x, e) = match parse_i64_x(v, vp) {
            Some(x) => x,
            None => {
                return None;
            },
        };
        acc.version_code = x;
        f.version_code = true;
        Some((acc, f, e))
    } else if text::chars_eq_str(key, "zip_url") || text::chars_eq_str(key, "zipUrl") {
        let (t, e) = match parse_string_x(v, vp) {
            Some(x) => x,
            None => {
                return None;
            },
        };
        acc.zip_url = text::chars_to_string(&t);
        f.zip_url = true;
        Some((acc, f, e))
    } else if text::chars_eq_str(key, "changelog") {
        let (t, e) = match parse_string_x(v, vp) {
            Some(x) => x,
            None => {
                return None;
            },
        };
        acc.changelog = text::chars_to_string(&t);
        f.changelog = true;
        Some((acc, f, e))
    } else {
        let e = match skip_value_x(v, vp) {
            Some(e) => e,
            None => {
                return None;
            },
        };
        Some((acc, f, e))
    }
}

/// Exec mirror of the update-pointer member loop.
#[verifier::rlimit(60)]
#[verifier::spinoff_prover]
fn uj_fields_x(v: &Vec<char>, i: usize, acc: UpdateJson, f: UjFlags) -> (r: Option<
    (UpdateJson, UjFlags, usize),
>)
    requires
        i <= v.len(),
    ensures
        match r {
            Some((a2, f2, e)) => obj_fields(v@, i as int, f.lift(acc@), uj_mem()) == Some(
                (f2.lift(a2@), e as int),
            ) && i <= e <= v.len(),
            None => obj_fields(v@, i as int, f.lift(acc@), uj_mem()) is None,
        },
    decreases v.len() - i,
{
    proof {
        reveal(obj_fields);
    }
    let j = skip_ws_x(v, i);
    if j >= v.len() {
        return None;
    }
    if v[j] == '}' {
        return Some((acc, f, j + 1));
    }
    let (key, p1) = match parse_string_x(v, j) {
        Some(kp) => kp,
        None => {
            return None;
        },
    };
    let q = skip_ws_x(v, p1);
    if !(q < v.len() && v[q] == ':') {
        return None;
    }
    let (acc2, f2, p2) = match uj_member_x(v, q + 1, &key, acc, f) {
        Some(x) => x,
        None => {
            return None;
        },
    };
    let w = skip_ws_x(v, p2);
    if w < v.len() && v[w] == ',' {
        uj_fields_x(v, w + 1, acc2, f2)
    } else if w < v.len() && v[w] == '}' {
        Some((acc2, f2, w + 1))
    } else {
        None
    }
}

#[verifier::rlimit(60)]
#[verifier::spinoff_prover]
pub fn parse_uj_x(v: &Vec<char>, i: usize) -> (r: Option<(UpdateJson, usize)>)
    requires
        i <= v.len(),
    ensures
        match r {
            Some((x, e)) => parse_uj(v@, i as int) == Some((x@, e as int)) && i <= e <= v.len(),
            None => parse_uj(v@, i as int) is None,
        },
{
    let j = skip_ws_x(v, i);
    if !(j < v.len() && v[j] == '{') {
        return None;
    }
    let acc = UpdateJson {
        version: String::new(),
        version_code: 0,
        zip_url: String::new(),
        changelog: String::new(),
    };
    let f = UjFlags { version: false, version_code: false, zip_url: false, changelog: false };
    assert(f.lift(acc@) =~= uj_acc_init());
    match uj_fields_x(v, j + 1, acc, f) {
        Some((a2, f2, e)) => {
            if f2.version && f2.version_code && f2.zip_url && f2.changelog {
                Some((a2, e))
            } else {
                None
            }
        },
        None => None,
    }
}

#[verifier::rlimit(50)]
#[verifier::spinoff_prover]
pub fn push_uj(x: &UpdateJson, p: bool, d: usize, out: &mut Vec<char>)
    requires
        d < 80,
    ensures
        final(out)@ == old(out)@ + ser_uj(x@, p, d as nat),
{
    out.push('{');
    push_member_str(true, "version", x.version.as_str(), p, d, out);
    push_member_i64(false, "version_code", x.version_code, p, d, out);
    push_member_str(false, "zip_url", x.zip_url.as_str(), p, d, out);
    push_member_str(false, "changelog", x.changelog.as_str(), p, d, out);
    push_obj_end(p, d, out);
    assert(out@ =~= old(out)@ + ser_uj(x@, p, d as nat));
}

} // verus!
