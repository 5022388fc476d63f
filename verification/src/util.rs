//! String utilities (HTML sniff, canonical version display), the archive
//! manifest reader, and the trusted boundary to the zip and chrono crates.

use vstd::prelude::*;
use vstd::string::*;
use vstd::utf8::{valid_utf8, decode_utf8};
use crate::json::{is_ws, skip_ws, skip_ws_x, ser_i64, push_i64, char_from_u32};
use crate::origin;
use crate::origin::{ModuleV, ModuleAcc, om_acc_init, om_all_seen, om_wf};
use crate::text;

verus! {

/// Pure string helpers.
pub struct StrUtil;

// ---------- HTML sniff ----------

pub open spec fn lower_char(c: char) -> char {
    if 65 <= (c as u32) && (c as u32) <= 90 {
        ((c as u32) + 32) as char
    } else {
        c
    }
}

/// Case-insensitive match of `pat` (already lower case) at `i`.
pub open spec fn lmatch(s: Seq<char>, i: int, pat: Seq<char>) -> bool {
    0 <= i && i + pat.len() <= s.len() && forall|k: int|
        0 <= k < pat.len() ==> lower_char(s[i + k]) == pat[k]
}

/// The character that may follow a tag name: `>` or whitespace.
pub open spec fn after_tag(s: Seq<char>, k: int) -> bool {
    0 <= k < s.len() && (s[k] == '>' || is_ws(s[k]))
}

pub open spec fn doctype_at(s: Seq<char>, i: int) -> bool {
    lmatch(s, i, "<!doctype"@) && lmatch(s, skip_ws(s, i + 9), "html"@) && after_tag(
        s,
        skip_ws(s, i + 9) + 4,
    )
}

/// An HTML marker at `i`: `<html`, `<head` or `<body` followed by whitespace
/// or `>`, or a doctype declaration.
pub open spec fn marker_at(s: Seq<char>, i: int) -> bool {
    (lmatch(s, i, "<html"@) && after_tag(s, i + 5)) || (lmatch(s, i, "<head"@) && after_tag(
        s,
        i + 5,
    )) || (lmatch(s, i, "<body"@) && after_tag(s, i + 5)) || doctype_at(s, i)
}

pub open spec fn is_html_text(s: Seq<char>) -> bool {
    exists|i: int| #[trigger] marker_at(s, i)
}

fn lower_x(c: char) -> (r: char)
    ensures
        r == lower_char(c),
{
    let u = c as u32;
    if 65 <= u && u <= 90 {
        char_from_u32(u + 32)
    } else {
        c
    }
}

fn lmatch_x(v: &Vec<char>, i: usize, pat: &str) -> (r: bool)
    requires
        i <= v.len(),
    ensures
        r == lmatch(v@, i as int, pat@),
{
    let n = pat.unicode_len();
    if v.len() - i < n {
        return false;
    }
    let mut k: usize = 0;
    while k < n
        invariant
            k <= n,
            i + n <= v.len(),
            n == pat@.len(),
            forall|x: int| 0 <= x < k ==> lower_char(v@[i + x]) == pat@[x],
        decreases n - k,
    {
        if lower_x(v[i + k]) != pat.get_char(k) {
            return false;
        }
        k += 1;
    }
    true
}

fn after_tag_x(v: &Vec<char>, k: usize) -> (r: bool)
    ensures
        r == after_tag(v@, k as int),
{
    if k < v.len() {
        let c = v[k];
        c == '>' || c == ' ' || c == '\n' || c == '\t' || c == '\r'
    } else {
        false
    }
}

fn marker_at_x(v: &Vec<char>, i: usize) -> (r: bool)
    requires
        i <= v.len(),
    ensures
        r == marker_at(v@, i as int),
{
    proof {
        reveal_strlit("<html");
        reveal_strlit("<head");
        reveal_strlit("<body");
        reveal_strlit("<!doctype");
        reveal_strlit("html");
        assert("<html"@.len() == 5);
        assert("<head"@.len() == 5);
        assert("<body"@.len() == 5);
        assert("<!doctype"@.len() == 9);
        assert("html"@.len() == 4);
    }
    if lmatch_x(v, i, "<html") && after_tag_x(v, i + 5) {
        return true;
    }
    if lmatch_x(v, i, "<head") && after_tag_x(v, i + 5) {
        return true;
    }
    if lmatch_x(v, i, "<body") && after_tag_x(v, i + 5) {
        return true;
    }
    if lmatch_x(v, i, "<!doctype") {
        let j = skip_ws_x(v, i + 9);
        if lmatch_x(v, j, "html") && after_tag_x(v, j + 4) {
            return true;
        }
    }
    false
}

impl StrUtil {
    /// True iff the text contains a case-insensitive HTML marker: `<html>`,
    /// `<head>`, `<body>` or `<!doctype html>`, allowing whitespace or
    /// attributes after the tag name.
    pub fn is_html(text: &str) -> (r: bool)
        ensures
            r == is_html_text(text@),
    {
        let v = text::str_to_chars(text);
        let mut i: usize = 0;
        while i < v.len()
            invariant
                i <= v.len(),
                v@ == text@,
                forall|k: int| 0 <= k < i ==> !(#[trigger] marker_at(v@, k)),
            decreases v.len() - i,
        {
            if marker_at_x(&v, i) {
                return true;
            }
            i += 1;
        }
        assert forall|k: int| !(#[trigger] marker_at(text@, k)) by {
            if marker_at(text@, k) {
                assert(0 <= k < text@.len());
            }
        }
        false
    }

    /// The canonical display string: `version` unchanged when it already
    /// mentions the code in parentheses, else `"<version> (<code>)"`.
    pub fn get_version_display(version: &str, version_code: i64) -> (r: String)
        ensures
            r@ == version_display(version@, version_code as int),
    {
        let v = text::str_to_chars(version);
        if mentions_code(&v, version_code) {
            version.to_owned()
        } else {
            let mut out: Vec<char> = v;
            out.push(' ');
            out.push('(');
            push_i64(version_code, &mut out);
            out.push(')');
            assert(out@ =~= version@ + seq![' ', '('] + ser_i64(version_code as int) + seq![')']);
            text::chars_to_string(&out)
        }
    }
}


// ---------- version display ----------

pub open spec fn occurs(s: Seq<char>, m: int, pat: Seq<char>) -> bool {
    0 <= m && m + pat.len() <= s.len() && s.subrange(m, m + pat.len()) == pat
}

/// The code appears somewhere inside a parenthesized span.
pub open spec fn mentioned(s: Seq<char>, c: int) -> bool {
    exists|i: int, m: int, j: int|
        0 <= i < m && #[trigger] occurs(s, m, ser_i64(c)) && m + ser_i64(c).len() <= j < s.len()
            && (#[trigger] s[i]) == '(' && (#[trigger] s[j]) == ')'
}

pub open spec fn version_display(s: Seq<char>, c: int) -> Seq<char> {
    if mentioned(s, c) {
        s
    } else {
        s + seq![' ', '('] + ser_i64(c) + seq![')']
    }
}

/// Whether some parenthesized span of `v` contains the decimal code.
#[verifier::rlimit(100)]
#[verifier::spinoff_prover]
fn mentions_code(v: &Vec<char>, code: i64) -> (r: bool)
    ensures
        r == mentioned(v@, code as int),
{
    let mut dec: Vec<char> = Vec::new();
    push_i64(code, &mut dec);
    let n = v.len();
    let mut m: usize = 0;
    while m < n
        invariant
            m <= n,
            n == v@.len(),
            dec@ == ser_i64(code as int),
            forall|mm: int, ii: int, jj: int|
                0 <= ii < mm < m && #[trigger] occurs(v@, mm, ser_i64(code as int)) && mm + ser_i64(
                    code as int,
                ).len() <= jj < v@.len() ==> !((#[trigger] v@[ii]) == '(' && (#[trigger] v@[jj])
                    == ')'),
        decreases n - m,
    {
        if occurs_x(v, m, &dec) {
            let mut i: usize = 0;
            let mut has_open = false;
            while i < m
                invariant
                    i <= m <= v.len(),
                    has_open == exists|ii: int| 0 <= ii < i && (#[trigger] v@[ii]) == '(',
                decreases m - i,
            {
                if v[i] == '(' {
                    has_open = true;
                    assert(v@[i as int] == '(');
                }
                i += 1;
            }
            if has_open {
                let mut j = m + dec.len();
                while j < n
                    invariant
                        m + dec@.len() <= j <= n,
                        n == v@.len(),
                        dec@ == ser_i64(code as int),
                        occurs(v@, m as int, ser_i64(code as int)),
                        exists|ii: int| 0 <= ii < m && (#[trigger] v@[ii]) == '(',
                        forall|x: int| m + dec@.len() <= x < j ==> (#[trigger] v@[x]) != ')',
                    decreases n - j,
                {
                    if v[j] == ')' {
                        proof {
                            let ii = choose|ii: int| 0 <= ii < m && (#[trigger] v@[ii]) == '(';
                            assert(occurs(v@, m as int, ser_i64(code as int)));
                            assert(0 <= ii < m as int && occurs(v@, m as int, ser_i64(code as int))
                                && m + ser_i64(code as int).len() <= j < v@.len() && v@[ii] == '('
                                && v@[j as int] == ')');
                        }
                        return true;
                    }
                    j += 1;
                }
                assert forall|mm: int, ii: int, jj: int|
                    0 <= ii < mm < m + 1 && #[trigger] occurs(v@, mm, ser_i64(code as int)) && mm
                        + ser_i64(code as int).len() <= jj < v@.len() implies !((
                #[trigger] v@[ii]) == '(' && (#[trigger] v@[jj]) == ')') by {
                    if mm == m as int {
                        assert(v@[jj] != ')');
                    }
                }
            } else {
                assert forall|mm: int, ii: int, jj: int|
                    0 <= ii < mm < m + 1 && #[trigger] occurs(v@, mm, ser_i64(code as int)) && mm
                        + ser_i64(code as int).len() <= jj < v@.len() implies !((
                #[trigger] v@[ii]) == '(' && (#[trigger] v@[jj]) == ')') by {
                    if mm == m as int && v@[ii] == '(' {
                        assert(exists|x: int| 0 <= x < m && (#[trigger] v@[x]) == '(');
                        assert(false);
                    }
                }
            }
        }
        m += 1;
    }
    proof {
        if mentioned(v@, code as int) {
            let (i, mm, j) = choose|i: int, mm: int, j: int|
                0 <= i < mm && #[trigger] occurs(v@, mm, ser_i64(code as int)) && mm + ser_i64(
                    code as int,
                ).len() <= j < v@.len() && (#[trigger] v@[i]) == '(' && (#[trigger] v@[j]) == ')';
            assert(mm < n);
            assert(false);
        }
    }
    false
}

fn occurs_x(v: &Vec<char>, m: usize, pat: &Vec<char>) -> (r: bool)
    requires
        m <= v.len(),
    ensures
        r == occurs(v@, m as int, pat@),
{
    if v.len() - m < pat.len() {
        return false;
    }
    let mut k: usize = 0;
    while k < pat.len()
        invariant
            k <= pat.len(),
            m + pat.len() <= v.len(),
            forall|x: int| 0 <= x < k ==> v@[m + x] == pat@[x],
        decreases pat.len() - k,
    {
        if v[m + k] != pat[k] {
            assert(v@.subrange(m as int, m + pat@.len())[k as int] == v@[m + k]);
            return false;
        }
        k += 1;
    }
    assert(v@.subrange(m as int, m + pat@.len()) =~= pat@);
    true
}

/// Feeding the display string back in returns it unchanged.
pub proof fn lemma_version_display_idem(s: Seq<char>, c: int)
    requires
        i64::MIN <= c <= i64::MAX,
    ensures
        version_display(version_display(s, c), c) == version_display(s, c),
{
    if !mentioned(s, c) {
        let out = s + seq![' ', '('] + ser_i64(c) + seq![')'];
        let i = s.len() as int + 1;
        let m = s.len() as int + 2;
        let j = m + ser_i64(c).len() as int;
        assert(out[i] == '(');
        assert(out[j] == ')');
        assert(out.subrange(m, m + ser_i64(c).len() as int) =~= ser_i64(c));
        assert(occurs(out, m, ser_i64(c)));
        assert(mentioned(out, c));
    }
}

// ---------- property manifest ----------

pub open spec fn is_line_ws(c: char) -> bool {
    c == ' ' || c == '\t' || c == '\r'
}

/// `s[a..b]` trimmed of surrounding spaces, tabs and carriage returns.
pub open spec fn trim_from(s: Seq<char>, a: int, b: int) -> Seq<char>
    decreases b - a,
{
    if a >= b {
        Seq::empty()
    } else if is_line_ws(s[a]) {
        trim_from(s, a + 1, b)
    } else if is_line_ws(s[b - 1]) {
        trim_from(s, a, b - 1)
    } else {
        s.subrange(a, b)
    }
}

/// Position of the first `=` in `s[a..b)`, or `b` if none.
pub open spec fn eq_pos(s: Seq<char>, a: int, b: int) -> int
    decreases b - a,
{
    if a >= b {
        b
    } else if s[a] == '=' {
        a
    } else {
        eq_pos(s, a + 1, b)
    }
}

/// Position just after the current line: index of the next newline, or the
/// end of the text.
pub open spec fn line_end(s: Seq<char>, a: int) -> int
    decreases s.len() - a,
{
    if 0 <= a < s.len() && s[a] != '\n' {
        line_end(s, a + 1)
    } else {
        a
    }
}

/// One manifest line applied to the accumulator; `None` on a malformed line.
pub open spec fn prop_line(s: Seq<char>, a: int, b: int, acc: ModuleAcc) -> Option<ModuleAcc> {
    let t = trim_from(s, a, b);
    if t.len() == 0 || t[0] == '#' {
        Some(acc)
    } else {
        let e = eq_pos(s, a, b);
        if e >= b {
            None
        } else {
            let key = trim_from(s, a, e);
            let value = trim_from(s, e + 1, b);
            prop_apply(acc, key, value)
        }
    }
}

/// Map a key to its origin field; unknown keys are ignored.
pub open spec fn prop_apply(acc: ModuleAcc, key: Seq<char>, value: Seq<char>) -> Option<
    ModuleAcc,
> {
    if key == "id"@ {
        Some(ModuleAcc { v: ModuleV { id: value, ..acc.v }, seen_id: true, ..acc })
    } else if key == "name"@ {
        Some(ModuleAcc { v: ModuleV { name: value, ..acc.v }, seen_name: true, ..acc })
    } else if key == "version"@ {
        Some(ModuleAcc { v: ModuleV { version: value, ..acc.v }, seen_version: true, ..acc })
    } else if key == "versionCode"@ {
        match crate::json::parse_i64(value, 0) {
            Some((x, e)) => if e == value.len() {
                Some(
                    (ModuleAcc {
                        v: ModuleV { version_code: x, ..acc.v },
                        seen_version_code: true,
                        ..acc
                    }),
                )
            } else {
                None
            },
            None => None,
        }
    } else if key == "author"@ {
        Some(ModuleAcc { v: ModuleV { author: value, ..acc.v }, seen_author: true, ..acc })
    } else if key == "description"@ {
        Some(
            (ModuleAcc {
                v: ModuleV { description: value, ..acc.v },
                seen_description: true,
                ..acc
            }),
        )
    } else {
        Some(acc)
    }
}

/// All lines from `a` onward.
pub open spec fn prop_lines(s: Seq<char>, a: int, acc: ModuleAcc) -> Option<ModuleAcc>
    decreases s.len() - a,
{
    if a >= s.len() || a < 0 {
        Some(acc)
    } else {
        let b = line_end(s, a);
        match prop_line(s, a, b, acc) {
            Some(acc2) => if a <= b && b < s.len() {
                prop_lines(s, b + 1, acc2)
            } else {
                Some(acc2)
            },
            None => None,
        }
    }
}

/// The whole property manifest: every required key present.
pub open spec fn parse_prop(s: Seq<char>) -> Option<ModuleV> {
    match prop_lines(s, 0, om_acc_init()) {
        Some(acc) => if om_all_seen(acc) {
            Some(acc.v)
        } else {
            None
        },
        None => None,
    }
}

/// Bounds of `s[a..b]` after trimming surrounding line whitespace.
fn trim_bounds(v: &Vec<char>, a: usize, b: usize) -> (r: (usize, usize))
    requires
        a <= b <= v.len(),
    ensures
        a <= r.0 <= r.1 <= b,
        trim_from(v@, a as int, b as int) == v@.subrange(r.0 as int, r.1 as int),
        r.0 < r.1 ==> !is_line_ws(v@[r.0 as int]) && !is_line_ws(v@[r.1 - 1]),
{
    let mut x = a;
    let mut y = b;
    while x < y && (v[x] == ' ' || v[x] == '\t' || v[x] == '\r')
        invariant
            a <= x <= y <= b <= v.len(),
            y == b,
            trim_from(v@, a as int, b as int) == trim_from(v@, x as int, y as int),
        decreases y - x,
    {
        x += 1;
    }
    while x < y && (v[y - 1] == ' ' || v[y - 1] == '\t' || v[y - 1] == '\r')
        invariant
            a <= x <= y <= b <= v.len(),
            x < y ==> !is_line_ws(v@[x as int]),
            trim_from(v@, a as int, b as int) == trim_from(v@, x as int, y as int),
        decreases y - x,
    {
        y -= 1;
    }
    if x >= y {
        assert(trim_from(v@, x as int, y as int) =~= v@.subrange(x as int, x as int));
        (x, x)
    } else {
        (x, y)
    }
}

/// Whether `v[a..b]` spells exactly `lit`.
fn range_eq_str(v: &Vec<char>, a: usize, b: usize, lit: &str) -> (r: bool)
    requires
        a <= b <= v.len(),
    ensures
        r == (v@.subrange(a as int, b as int) == lit@),
{
    let n = lit.unicode_len();
    if b - a != n {
        assert(v@.subrange(a as int, b as int).len() != lit@.len());
        return false;
    }
    let mut k: usize = 0;
    while k < n
        invariant
            k <= n,
            a + n == b,
            b <= v.len(),
            n == lit@.len(),
            forall|x: int| 0 <= x < k ==> v@[a + x] == lit@[x],
        decreases n - k,
    {
        if v[a + k] != lit.get_char(k) {
            assert(v@.subrange(a as int, b as int)[k as int] == v@[a + k]);
            return false;
        }
        k += 1;
    }
    assert(v@.subrange(a as int, b as int) =~= lit@);
    true
}

/// One manifest line applied to the parsed state.
#[verifier::rlimit(100)]
#[verifier::spinoff_prover]
fn prop_line_x(v: &Vec<char>, a: usize, b: usize, acc: origin::Module, f: PropFlags) -> (r: Option<
    (origin::Module, PropFlags),
>)
    requires
        a <= b <= v.len(),
    ensures
        match r {
            Some((a2, f2)) => prop_line(v@, a as int, b as int, f.lift(acc@)) == Some(
                f2.lift(a2@),
            ),
            None => prop_line(v@, a as int, b as int, f.lift(acc@)) is None,
        },
{
    let mut acc = acc;
    let mut f = f;
    let (ta, tb) = trim_bounds(v, a, b);
    if ta == tb || v[ta] == '#' {
        assert(trim_from(v@, a as int, b as int).len() == 0 || trim_from(v@, a as int, b as int)[0]
            == '#') by {
            if ta < tb {
                assert(v@.subrange(ta as int, tb as int)[0] == v@[ta as int]);
            }
        }
        return Some((acc, f));
    }
    assert(trim_from(v@, a as int, b as int)[0] == v@[ta as int]) by {
        assert(v@.subrange(ta as int, tb as int)[0] == v@[ta as int]);
    }
    let mut e = a;
    while e < b && v[e] != '='
        invariant
            a <= e <= b <= v.len(),
            eq_pos(v@, a as int, b as int) == eq_pos(v@, e as int, b as int),
        decreases b - e,
    {
        e += 1;
    }
    assert(e as int == eq_pos(v@, a as int, b as int));
    if e >= b {
        return None;
    }
    let (ka, kb) = trim_bounds(v, a, e);
    let (va, vb) = trim_bounds(v, e + 1, b);
    if range_eq_str(v, ka, kb, "id") {
        acc.id = copy_range(v, va, vb);
        f.id = true;
        Some((acc, f))
    } else if range_eq_str(v, ka, kb, "name") {
        acc.name = copy_range(v, va, vb);
        f.name = true;
        Some((acc, f))
    } else if range_eq_str(v, ka, kb, "version") {
        acc.version = copy_range(v, va, vb);
        f.version = true;
        Some((acc, f))
    } else if range_eq_str(v, ka, kb, "versionCode") {
        let mut val: Vec<char> = Vec::new();
        let mut k = va;
        while k < vb
            invariant
                va <= k <= vb <= v.len(),
                val@ =~= v@.subrange(va as int, k as int),
            decreases vb - k,
        {
            val.push(v[k]);
            assert(val@ =~= v@.subrange(va as int, k + 1));
            k += 1;
        }
        assert(val@ == trim_from(v@, e + 1, b as int));
        let (x, pe) = match crate::json::parse_i64_x(&val, 0) {
            Some(y) => y,
            None => {
                return None;
            },
        };
        if pe != val.len() {
            return None;
        }
        acc.version_code = x;
        f.version_code = true;
        Some((acc, f))
    } else if range_eq_str(v, ka, kb, "author") {
        acc.author = copy_range(v, va, vb);
        f.author = true;
        Some((acc, f))
    } else if range_eq_str(v, ka, kb, "description") {
        acc.description = copy_range(v, va, vb);
        f.description = true;
        Some((acc, f))
    } else {
        Some((acc, f))
    }
}

/// The characters of `v[a..b]` as a string.
fn copy_range(v: &Vec<char>, a: usize, b: usize) -> (r: String)
    requires
        a <= b <= v.len(),
    ensures
        r@ == v@.subrange(a as int, b as int),
{
    let mut out: Vec<char> = Vec::new();
    let mut k = a;
    while k < b
        invariant
            a <= k <= b <= v.len(),
            out@ =~= v@.subrange(a as int, k as int),
        decreases b - k,
    {
        out.push(v[k]);
        assert(out@ =~= v@.subrange(a as int, k + 1));
        k += 1;
    }
    text::chars_to_string(&out)
}

/// Which required manifest keys have been seen.
#[derive(Clone, Copy)]
struct PropFlags {
    id: bool,
    name: bool,
    version: bool,
    version_code: bool,
    author: bool,
    description: bool,
}

impl PropFlags {
    spec fn lift(self, v: ModuleV) -> ModuleAcc {
        origin::om_acc_of(v, self.id, self.name, self.version, self.version_code, self.author,
        self.description)
    }
}

/// Parse a whole property manifest.
#[verifier::rlimit(100)]
#[verifier::spinoff_prover]
pub fn parse_prop_x(v: &Vec<char>) -> (r: Option<origin::Module>)
    ensures
        match r {
            Some(x) => parse_prop(v@) == Some(x@),
            None => parse_prop(v@) is None,
        },
{
    let mut acc = origin::Module {
        id: String::new(),
        name: String::new(),
        version: String::new(),
        version_code: 0,
        author: String::new(),
        description: String::new(),
    };
    let mut f = PropFlags {
        id: false,
        name: false,
        version: false,
        version_code: false,
        author: false,
        description: false,
    };
    assert(f.lift(acc@) =~= om_acc_init());
    let mut cur: usize = 0;
    while cur < v.len()
        invariant
            cur <= v.len(),
            prop_lines(v@, 0, om_acc_init()) == prop_lines(v@, cur as int, f.lift(acc@)),
        decreases v.len() - cur,
    {
        let mut b = cur;
        while b < v.len() && v[b] != '\n'
            invariant
                cur <= b <= v.len(),
                line_end(v@, cur as int) == line_end(v@, b as int),
            decreases v.len() - b,
        {
            b += 1;
        }
        assert(b as int == line_end(v@, cur as int));
        let (acc2, f2) = match prop_line_x(v, cur, b, acc, f) {
            Some(y) => y,
            None => {
                return None;
            },
        };
        acc = acc2;
        f = f2;
        if b < v.len() {
            cur = b + 1;
        } else {
            cur = b;
        }
    }
    if f.id && f.name && f.version && f.version_code && f.author && f.description {
        Some(acc)
    } else {
        None
    }
}

// ---------- manifest from bytes, archives ----------

/// Reading archives and manifests from in-memory bytes.
pub struct LocalModule;

/// The manifest parsed from raw bytes: decoded as UTF-8, then line-parsed.
pub open spec fn prop_module_of(b: Seq<u8>) -> Option<ModuleV> {
    if valid_utf8(b) {
        parse_prop(decode_utf8(b))
    } else {
        None
    }
}

/// Relies on `str::from_utf8`: `Some` exactly on valid UTF-8, decoding to the
/// byte sequence's character sequence.
#[verifier::external_body]
pub(crate) fn utf8_to_string(b: &Vec<u8>) -> (r: Option<String>)
    ensures
        match r {
            Some(s) => valid_utf8(b@) && s@ == decode_utf8(b@),
            None => !valid_utf8(b@),
        },
{
    std::str::from_utf8(b.as_slice()).ok().map(|s| s.to_owned())
}

/// The bytes of the `module.prop` entry at the root of the archive, if the
/// bytes form an archive holding one.
pub uninterp spec fn module_prop_of(b: Seq<u8>) -> Option<Seq<u8>>;

/// Relies on `zip::ZipArchive`: opening the archive over the bytes and
/// reading the `module.prop` entry is a function of the bytes alone.
#[verifier::external_body]
fn zip_module_prop(b: &Vec<u8>) -> (r: Option<Vec<u8>>)
    ensures
        match r {
            Some(p) => module_prop_of(b@) == Some(p@),
            None => module_prop_of(b@) is None,
        },
{
    let mut archive = zip::ZipArchive::new(std::io::Cursor::new(b.as_slice())).ok()?;
    let mut entry = archive.by_name("module.prop").ok()?;
    let mut out: Vec<u8> = Vec::new();
    std::io::Read::read_to_end(&mut entry, &mut out).ok()?;
    Some(out)
}

/// One entry handed to the archive writer: a relative path and, for regular
/// files, its bytes.
pub struct ArchiveEntry {
    pub path: String,
    pub data: Option<Vec<u8>>,
}

pub open spec fn entry_view(e: ArchiveEntry) -> (Seq<char>, Option<Seq<u8>>) {
    (e.path@, match e.data {
        Some(d) => Some(d@),
        None => None,
    })
}

pub open spec fn entries_view(es: Seq<ArchiveEntry>) -> Seq<(Seq<char>, Option<Seq<u8>>)> {
    Seq::new(es.len(), |k: int| entry_view(es[k]))
}

/// The archive built over the given entries, stored without compression.
pub uninterp spec fn archive_of(es: Seq<(Seq<char>, Option<Seq<u8>>)>) -> Option<Seq<u8>>;

/// Relies on `zip::ZipWriter`: writing the entries in order over an in-memory
/// buffer is a function of the entries alone.
#[verifier::external_body]
fn zip_build(es: &Vec<ArchiveEntry>) -> (r: Option<Vec<u8>>)
    ensures
        match r {
            Some(b) => archive_of(entries_view(es@)) == Some(b@),
            None => archive_of(entries_view(es@)) is None,
        },
{
    let opts = zip::write::SimpleFileOptions::default().compression_method(
        zip::CompressionMethod::Stored,
    );
    let mut zw = zip::ZipWriter::new(std::io::Cursor::new(Vec::new()));
    for e in es.iter() {
        match &e.data {
            Some(d) => {
                zw.start_file(e.path.as_str(), opts).ok()?;
                std::io::Write::write_all(&mut zw, d).ok()?;
            },
            None => zw.add_directory(e.path.as_str(), opts).ok()?,
        }
    }
    zw.finish().ok().map(|c| c.into_inner())
}

/// Entries the packager keeps: a non-empty path whose first component does
/// not start with a dot.
pub open spec fn keep_entry(path: Seq<char>) -> bool {
    path.len() > 0 && path[0] != '.'
}

/// The entries the packager keeps, in order.
pub open spec fn kept_entries(es: Seq<(Seq<char>, Option<Seq<u8>>)>) -> Seq<
    (Seq<char>, Option<Seq<u8>>),
>
    decreases es.len(),
{
    if es.len() == 0 {
        Seq::empty()
    } else {
        (if keep_entry(es[0].0) {
            seq![es[0]]
        } else {
            Seq::empty()
        }) + kept_entries(es.skip(1))
    }
}

/// The manifest parsed from the first usable `module.prop` entry.
pub open spec fn prop_of_entries(es: Seq<(Seq<char>, Option<Seq<u8>>)>) -> Option<ModuleV>
    decreases es.len(),
{
    if es.len() == 0 {
        None
    } else {
        match es[0].1 {
            Some(d) => if es[0].0 == "module.prop"@ && prop_module_of(d) is Some {
                prop_module_of(d)
            } else {
                prop_of_entries(es.skip(1))
            },
            None => prop_of_entries(es.skip(1)),
        }
    }
}

proof fn lemma_kept_entries_snoc(es: Seq<(Seq<char>, Option<Seq<u8>>)>, e: (Seq<char>, Option<Seq<u8>>))
    ensures
        kept_entries(es.push(e)) == kept_entries(es) + (if keep_entry(e.0) {
            seq![e]
        } else {
            Seq::<(Seq<char>, Option<Seq<u8>>)>::empty()
        }),
    decreases es.len(),
{
    if es.len() == 0 {
        assert(es.push(e)[0] == e);
        assert(es.push(e).skip(1) =~= Seq::<(Seq<char>, Option<Seq<u8>>)>::empty());
        assert(kept_entries(Seq::<(Seq<char>, Option<Seq<u8>>)>::empty())
            == Seq::<(Seq<char>, Option<Seq<u8>>)>::empty());
        assert(kept_entries(es.push(e)) =~= kept_entries(es) + (if keep_entry(e.0) {
            seq![e]
        } else {
            Seq::<(Seq<char>, Option<Seq<u8>>)>::empty()
        }));
    } else {
        assert(es.push(e)[0] == es[0]);
        assert(es.push(e).skip(1) =~= es.skip(1).push(e));
        lemma_kept_entries_snoc(es.skip(1), e);
        assert(kept_entries(es.push(e)) =~= kept_entries(es) + (if keep_entry(e.0) {
            seq![e]
        } else {
            Seq::<(Seq<char>, Option<Seq<u8>>)>::empty()
        }));
    }
}

proof fn lemma_prop_of_entries_snoc(
    es: Seq<(Seq<char>, Option<Seq<u8>>)>,
    e: (Seq<char>, Option<Seq<u8>>),
)
    ensures
        prop_of_entries(es.push(e)) == (if prop_of_entries(es) is Some {
            prop_of_entries(es)
        } else {
            match e.1 {
                Some(d) => if e.0 == "module.prop"@ && prop_module_of(d) is Some {
                    prop_module_of(d)
                } else {
                    None
                },
                None => None,
            }
        }),
    decreases es.len(),
{
    if es.len() == 0 {
        assert(es.push(e)[0] == e);
        assert(es.push(e).skip(1) =~= Seq::<(Seq<char>, Option<Seq<u8>>)>::empty());
    } else {
        assert(es.push(e)[0] == es[0]);
        assert(es.push(e).skip(1) =~= es.skip(1).push(e));
        lemma_prop_of_entries_snoc(es.skip(1), e);
    }
}

impl LocalModule {
    /// Parse a property manifest from raw bytes.
    pub fn read_prop(bytes: &Vec<u8>) -> (r: Option<origin::Module>)
        ensures
            match r {
                Some(x) => prop_module_of(bytes@) == Some(x@),
                None => prop_module_of(bytes@) is None,
            },
    {
        let s = match utf8_to_string(bytes) {
            Some(s) => s,
            None => {
                return None;
            },
        };
        let v = text::str_to_chars(s.as_str());
        parse_prop_x(&v)
    }

    /// Read the identity manifest out of archive bytes.
    pub fn read_zip(bytes: &Vec<u8>) -> (r: Option<origin::Module>)
        ensures
            match r {
                Some(x) => (match module_prop_of(bytes@) {
                    Some(p) => prop_module_of(p) == Some(x@),
                    None => false,
                }),
                None => (match module_prop_of(bytes@) {
                    Some(p) => prop_module_of(p) is None,
                    None => true,
                }),
            },
    {
        let p = match zip_module_prop(bytes) {
            Some(p) => p,
            None => {
                return None;
            },
        };
        Self::read_prop(&p)
    }

    /// Package directory entries into archive bytes: the manifest comes from
    /// the first usable `module.prop` entry, entries whose first path
    /// component starts with a dot are skipped, and the rest is archived in
    /// order, stored uncompressed.
    #[verifier::rlimit(100)]
    #[verifier::spinoff_prover]
    pub fn from_zip(entries: &Vec<ArchiveEntry>) -> (r: Option<(origin::Module, Vec<u8>)>)
        ensures
            match r {
                Some((x, b)) => prop_of_entries(entries_view(entries@)) == Some(x@) && archive_of(
                    kept_entries(entries_view(entries@)),
                ) == Some(b@),
                None => prop_of_entries(entries_view(entries@)) is None || archive_of(
                    kept_entries(entries_view(entries@)),
                ) is None,
            },
    {
        let mut prop: Option<origin::Module> = None;
        let mut kept: Vec<ArchiveEntry> = Vec::new();
        let mut k: usize = 0;
        proof {
            assert(entries_view(entries@).subrange(0, 0)
                =~= Seq::<(Seq<char>, Option<Seq<u8>>)>::empty());
            assert(entries_view(kept@) =~= Seq::<(Seq<char>, Option<Seq<u8>>)>::empty());
        }
        while k < entries.len()
            invariant
                k <= entries.len(),
                entries_view(kept@) =~= kept_entries(
                    entries_view(entries@).subrange(0, k as int),
                ),
                match prop {
                    Some(m) => prop_of_entries(entries_view(entries@).subrange(0, k as int))
                        == Some(m@),
                    None => prop_of_entries(entries_view(entries@).subrange(0, k as int)) is None,
                },
            decreases entries.len() - k,
        {
            let ghost pre = entries_view(entries@).subrange(0, k as int);
            let ghost ev = entry_view(entries@[k as int]);
            proof {
                assert(pre.push(ev) =~= entries_view(entries@).subrange(0, k + 1));
                lemma_kept_entries_snoc(pre, ev);
                lemma_prop_of_entries_snoc(pre, ev);
            }
            let e = &entries[k];
            let pc = text::str_to_chars(e.path.as_str());
            if prop.is_none() && text::chars_eq_str(&pc, "module.prop") {
                match &e.data {
                    Some(d) => {
                        match LocalModule::read_prop(d) {
                            Some(m) => {
                                proof {
                                    assert(prop_module_of(d@) == Some(m@));
                                }
                                prop = Some(m);
                            },
                            None => {},
                        }
                    },
                    None => {},
                }
            }
            if pc.len() > 0 && pc[0] != '.' {
                let ghost before = entries_view(kept@);
                kept.push(dup_entry(e));
                proof {
                    assert(entries_view(kept@) =~= before.push(ev));
                }
            } else {
                proof {
                    assert(!keep_entry(ev.0));
                }
            }
            k += 1;
        }
        proof {
            assert(entries_view(entries@).subrange(0, entries@.len() as int) =~= entries_view(
                entries@,
            ));
        }
        let m = match prop {
            Some(m) => m,
            None => {
                return None;
            },
        };
        match zip_build(&kept) {
            Some(b) => {
                assert(archive_of(entries_view(kept@)) == Some(b@));
                Some((m, b))
            },
            None => None,
        }
    }
}

/// A structural copy of one entry./// A structural copy of one entry.
fn dup_entry(e: &ArchiveEntry) -> (r: ArchiveEntry)
    ensures
        entry_view(r) == entry_view(*e),
{
    let data2 = match &e.data {
        Some(d) => {
            let mut c: Vec<u8> = Vec::new();
            let mut i: usize = 0;
            while i < d.len()
                invariant
                    i <= d.len(),
                    c@ =~= d@.subrange(0, i as int),
                decreases d.len() - i,
            {
                c.push(d[i]);
                assert(c@ =~= d@.subrange(0, i + 1));
                i += 1;
            }
            assert(c@ =~= d@);
            Some(c)
        },
        None => None,
    };
    ArchiveEntry { path: e.path.as_str().to_owned(), data: data2 }
}

// ---------- time ----------// ---------- time ----------

/// Relies on `chrono::DateTime::parse_from_rfc2822`: the parse of an RFC 2822
/// date string depends on the string alone; the result is the UTC timestamp
/// in milliseconds.
#[verifier::external_body]
pub(crate) fn parse_rfc2822_millis(s: &str) -> (r: Option<i64>)
    ensures
        match r {
            Some(t) => rfc2822_millis(s@) == Some(t as int),
            None => rfc2822_millis(s@) is None,
        },
{
    chrono::DateTime::parse_from_rfc2822(s).ok().map(|t| t.timestamp_millis())
}

/// The millisecond timestamp an RFC 2822 date string denotes, if it parses.
pub uninterp spec fn rfc2822_millis(s: Seq<char>) -> Option<int>;

/// Relies on `chrono::Utc::now`: the current wall-clock time in milliseconds;
/// nothing is assumed about its value.
#[verifier::external_body]
pub(crate) fn now_millis() -> i64 {
    chrono::Utc::now().timestamp_millis()
}

} // verus!
