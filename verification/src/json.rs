//! JSON text layer: parsing and printing of the JSON subset used by the
//! repository documents (objects, arrays, strings, 64-bit integers, booleans
//! and null), specified over character sequences.
//!
//! Every exec routine is verified against a spec-level mirror; the model
//! codecs in `config`, `origin`, `track` and `modules` build on these.

use vstd::prelude::*;

verus! {

broadcast use vstd::utf8::char_is_scalar, vstd::utf8::char_u32_cast;

// ---------- character classes ----------

pub open spec fn is_ws(c: char) -> bool {
    c == ' ' || c == '\n' || c == '\t' || c == '\r'
}

pub open spec fn is_digit(c: char) -> bool {
    48 <= (c as u32) && (c as u32) <= 57
}

pub open spec fn digit_val(c: char) -> int {
    (c as u32) - 48
}

pub open spec fn digit_char(d: int) -> char {
    if d == 0 {
        '0'
    } else if d == 1 {
        '1'
    } else if d == 2 {
        '2'
    } else if d == 3 {
        '3'
    } else if d == 4 {
        '4'
    } else if d == 5 {
        '5'
    } else if d == 6 {
        '6'
    } else if d == 7 {
        '7'
    } else if d == 8 {
        '8'
    } else {
        '9'
    }
}

fn is_ws_x(c: char) -> (r: bool)
    ensures
        r == is_ws(c),
{
    c == ' ' || c == '\n' || c == '\t' || c == '\r'
}

fn is_digit_x(c: char) -> (r: bool)
    ensures
        r == is_digit(c),
{
    let u = c as u32;
    48 <= u && u <= 57
}

// ---------- whitespace ----------

pub open spec fn skip_ws(s: Seq<char>, i: int) -> int
    decreases s.len() - i,
{
    if 0 <= i < s.len() && is_ws(s[i]) {
        skip_ws(s, i + 1)
    } else {
        i
    }
}

pub proof fn lemma_skip_ws(s: Seq<char>, i: int)
    requires
        0 <= i <= s.len(),
    ensures
        i <= skip_ws(s, i) <= s.len(),
        skip_ws(s, i) == s.len() || !is_ws(s[skip_ws(s, i)]),
        forall|k: int| i <= k < skip_ws(s, i) ==> is_ws(s[k]),
    decreases s.len() - i,
{
    if i < s.len() && is_ws(s[i]) {
        lemma_skip_ws(s, i + 1);
    }
}

/// If everything in `[i, j)` is whitespace and `j` is not, the scan stops at `j`.
pub proof fn lemma_skip_ws_stops(s: Seq<char>, i: int, j: int)
    requires
        0 <= i <= j <= s.len(),
        forall|k: int| i <= k < j ==> is_ws(s[k]),
        j == s.len() || !is_ws(s[j]),
    ensures
        skip_ws(s, i) == j,
    decreases j - i,
{
    if i < j {
        lemma_skip_ws_stops(s, i + 1, j);
    }
}

pub fn skip_ws_x(v: &Vec<char>, i: usize) -> (r: usize)
    requires
        i <= v.len(),
    ensures
        r == skip_ws(v@, i as int),
        i <= r <= v.len(),
{
    let mut j = i;
    while j < v.len() && is_ws_x(v[j])
        invariant
            i <= j <= v.len(),
            skip_ws(v@, i as int) == skip_ws(v@, j as int),
        decreases v.len() - j,
    {
        j += 1;
    }
    j
}

// ---------- digits ----------

pub open spec fn digits_end(s: Seq<char>, i: int) -> int
    decreases s.len() - i,
{
    if 0 <= i < s.len() && is_digit(s[i]) {
        digits_end(s, i + 1)
    } else {
        i
    }
}

pub proof fn lemma_digits_end(s: Seq<char>, i: int)
    requires
        0 <= i <= s.len(),
    ensures
        i <= digits_end(s, i) <= s.len(),
        digits_end(s, i) == s.len() || !is_digit(s[digits_end(s, i)]),
        forall|k: int| i <= k < digits_end(s, i) ==> is_digit(s[k]),
    decreases s.len() - i,
{
    if i < s.len() && is_digit(s[i]) {
        lemma_digits_end(s, i + 1);
    }
}

pub proof fn lemma_digits_end_stops(s: Seq<char>, i: int, j: int)
    requires
        0 <= i <= j <= s.len(),
        forall|k: int| i <= k < j ==> is_digit(s[k]),
        j == s.len() || !is_digit(s[j]),
    ensures
        digits_end(s, i) == j,
    decreases j - i,
{
    if i < j {
        lemma_digits_end_stops(s, i + 1, j);
    }
}

/// Value of the digit run `s[i..j]`.
pub open spec fn digits_val(s: Seq<char>, i: int, j: int) -> int
    decreases j - i,
{
    if i < j {
        digits_val(s, i, j - 1) * 10 + digit_val(s[j - 1])
    } else {
        0
    }
}

pub proof fn lemma_digits_val_nonneg(s: Seq<char>, i: int, j: int)
    requires
        forall|k: int| i <= k < j ==> is_digit(s[k]),
    ensures
        digits_val(s, i, j) >= 0,
    decreases j - i,
{
    if i < j {
        lemma_digits_val_nonneg(s, i, j - 1);
    }
}

/// Extending a digit run never shrinks its value.
pub proof fn lemma_digits_val_mono(s: Seq<char>, i: int, j: int, e: int)
    requires
        i <= j <= e,
        forall|k: int| i <= k < e ==> is_digit(s[k]),
    ensures
        digits_val(s, i, e) >= digits_val(s, i, j),
    decreases e - j,
{
    if j < e {
        lemma_digits_val_mono(s, i, j, e - 1);
        lemma_digits_val_nonneg(s, i, e - 1);
    }
}

// ---------- numbers ----------

/// A character that would continue a JSON number beyond its integer part.
pub open spec fn num_cont(s: Seq<char>, e: int) -> bool {
    0 <= e < s.len() && (s[e] == '.' || s[e] == 'e' || s[e] == 'E')
}

/// Integer at `i` (after whitespace): optional minus sign and a digit run,
/// not followed by a fraction or exponent.
pub open spec fn parse_int(s: Seq<char>, i: int) -> Option<(int, int)> {
    let j = skip_ws(s, i);
    if j < s.len() && s[j] == '-' {
        let e = digits_end(s, j + 1);
        if e > j + 1 && !num_cont(s, e) {
            Some((-digits_val(s, j + 1, e), e))
        } else {
            None
        }
    } else {
        let e = digits_end(s, j);
        if e > j && !num_cont(s, e) {
            Some((digits_val(s, j, e), e))
        } else {
            None
        }
    }
}

pub open spec fn parse_i64(s: Seq<char>, i: int) -> Option<(int, int)> {
    match parse_int(s, i) {
        Some((v, e)) => if i64::MIN <= v <= i64::MAX {
            Some((v, e))
        } else {
            None
        },
        None => None,
    }
}

pub open spec fn parse_usize(s: Seq<char>, i: int) -> Option<(int, int)> {
    let j = skip_ws(s, i);
    if j < s.len() && s[j] == '-' {
        None
    } else {
        match parse_int(s, i) {
            Some((v, e)) => if 0 <= v <= usize::MAX {
                Some((v, e))
            } else {
                None
            },
            None => None,
        }
    }
}

/// Digit-run value accumulated into a `u64`; `None` when it does not fit.
fn digits_to_u64(v: &Vec<char>, i: usize, e: usize) -> (r: Option<u64>)
    requires
        i <= e <= v.len(),
        forall|k: int| i <= k < e ==> is_digit(v@[k]),
    ensures
        match r {
            Some(x) => x == digits_val(v@, i as int, e as int),
            None => digits_val(v@, i as int, e as int) > u64::MAX,
        },
{
    let mut acc: u64 = 0;
    let mut k = i;
    while k < e
        invariant
            i <= k <= e <= v.len(),
            forall|m: int| i <= m < e ==> is_digit(v@[m]),
            acc == digits_val(v@, i as int, k as int),
        decreases e - k,
    {
        let c = v[k];
        assert(is_digit(v@[k as int]));
        let d: u64 = (c as u32 as u64) - 48;
        assert(d == digit_val(v@[k as int]));
        if acc > (u64::MAX - d) / 10 {
            proof {
                lemma_digits_val_mono(v@, i as int, k + 1, e as int);
                assert(digits_val(v@, i as int, k + 1) == acc * 10 + d);
                assert(acc * 10 + d > u64::MAX) by (nonlinear_arith)
                    requires
                        acc > (u64::MAX - d) / 10,
                        0 <= d <= 9,
                        acc >= 0,
                ;
            }
            return None;
        }
        acc = acc * 10 + d;
        k += 1;
    }
    Some(acc)
}

pub fn parse_i64_x(v: &Vec<char>, i: usize) -> (r: Option<(i64, usize)>)
    requires
        i <= v.len(),
    ensures
        match r {
            Some((x, e)) => parse_i64(v@, i as int) == Some((x as int, e as int)) && i <= e
                <= v.len(),
            None => parse_i64(v@, i as int) is None,
        },
{
    let j = skip_ws_x(v, i);
    let neg = j < v.len() && v[j] == '-';
    let start = if neg { j + 1 } else { j };
    proof {
        lemma_digits_end(v@, start as int);
    }
    let mut e = start;
    while e < v.len() && is_digit_x(v[e])
        invariant
            start <= e <= v.len(),
            digits_end(v@, start as int) == digits_end(v@, e as int),
            forall|k: int| start <= k < e ==> is_digit(v@[k]),
        decreases v.len() - e,
    {
        e += 1;
    }
    assert(e == digits_end(v@, start as int));
    if e == start {
        return None;
    }
    if e < v.len() && (v[e] == '.' || v[e] == 'e' || v[e] == 'E') {
        return None;
    }
    let mag = match digits_to_u64(v, start, e) {
        Some(m) => m,
        None => {
            return None;
        },
    };
    proof {
        lemma_digits_val_nonneg(v@, start as int, e as int);
    }
    if neg {
        if mag <= 9223372036854775807u64 {
            Some((-(mag as i64), e))
        } else if mag == 9223372036854775808u64 {
            Some((i64::MIN, e))
        } else {
            None
        }
    } else {
        if mag <= 9223372036854775807u64 {
            Some((mag as i64, e))
        } else {
            None
        }
    }
}

pub fn parse_usize_x(v: &Vec<char>, i: usize) -> (r: Option<(usize, usize)>)
    requires
        i <= v.len(),
    ensures
        match r {
            Some((x, e)) => parse_usize(v@, i as int) == Some((x as int, e as int)) && i <= e
                <= v.len(),
            None => parse_usize(v@, i as int) is None,
        },
{
    let j = skip_ws_x(v, i);
    if j < v.len() && v[j] == '-' {
        return None;
    }
    proof {
        lemma_digits_end(v@, j as int);
    }
    let mut e = j;
    while e < v.len() && is_digit_x(v[e])
        invariant
            j <= e <= v.len(),
            digits_end(v@, j as int) == digits_end(v@, e as int),
            forall|k: int| j <= k < e ==> is_digit(v@[k]),
        decreases v.len() - e,
    {
        e += 1;
    }
    assert(e == digits_end(v@, j as int));
    if e == j {
        return None;
    }
    if e < v.len() && (v[e] == '.' || v[e] == 'e' || v[e] == 'E') {
        return None;
    }
    let mag = match digits_to_u64(v, j, e) {
        Some(m) => m,
        None => {
            return None;
        },
    };
    proof {
        lemma_digits_val_nonneg(v@, j as int, e as int);
    }
    if mag <= usize::MAX as u64 {
        Some((mag as usize, e))
    } else {
        None
    }
}

// ---------- decimal printing ----------

pub open spec fn dec_u(n: nat) -> Seq<char>
    decreases n,
{
    if n < 10 {
        seq![digit_char(n as int)]
    } else {
        dec_u(n / 10).push(digit_char((n % 10) as int))
    }
}

pub open spec fn ser_i64(v: int) -> Seq<char> {
    if v < 0 {
        seq!['-'] + dec_u((-v) as nat)
    } else {
        dec_u(v as nat)
    }
}

fn digit_to_char(d: u64) -> (c: char)
    requires
        d < 10,
    ensures
        c == digit_char(d as int),
{
    match d {
        0 => '0',
        1 => '1',
        2 => '2',
        3 => '3',
        4 => '4',
        5 => '5',
        6 => '6',
        7 => '7',
        8 => '8',
        _ => '9',
    }
}

pub fn push_dec_u64(n: u64, out: &mut Vec<char>)
    ensures
        final(out)@ == old(out)@ + dec_u(n as nat),
    decreases n,
{
    if n < 10 {
        out.push(digit_to_char(n));
    } else {
        push_dec_u64(n / 10, out);
        out.push(digit_to_char(n % 10));
    }
    assert(out@ =~= old(out)@ + dec_u(n as nat));
}

pub fn push_i64(v: i64, out: &mut Vec<char>)
    ensures
        final(out)@ == old(out)@ + ser_i64(v as int),
{
    if v < 0 {
        out.push('-');
        let mag: u64 = ((-(v + 1)) as u64) + 1;
        assert(mag as nat == (-(v as int)) as nat);
        push_dec_u64(mag, out);
        assert(out@ =~= old(out)@ + ser_i64(v as int));
    } else {
        push_dec_u64(v as u64, out);
    }
}

pub fn push_usize(v: usize, out: &mut Vec<char>)
    ensures
        final(out)@ == old(out)@ + ser_i64(v as int),
{
    push_dec_u64(v as u64, out);
}

// ---------- strings ----------

pub open spec fn hex_digit_char(d: int) -> char {
    if d < 10 {
        digit_char(d)
    } else if d == 10 {
        'a'
    } else if d == 11 {
        'b'
    } else if d == 12 {
        'c'
    } else if d == 13 {
        'd'
    } else if d == 14 {
        'e'
    } else {
        'f'
    }
}

pub open spec fn hex_val(c: char) -> int {
    let u = c as u32;
    if 48 <= u && u <= 57 {
        u - 48
    } else if 97 <= u && u <= 102 {
        u - 87
    } else if 65 <= u && u <= 70 {
        u - 55
    } else {
        -1
    }
}

pub open spec fn is_hex(c: char) -> bool {
    hex_val(c) >= 0
}

/// Escaped form of one character inside a JSON string literal.
pub open spec fn esc_char(c: char) -> Seq<char> {
    if c == '"' {
        seq!['\\', '"']
    } else if c == '\\' {
        seq!['\\', '\\']
    } else if c == '\n' {
        seq!['\\', 'n']
    } else if c == '\r' {
        seq!['\\', 'r']
    } else if c == '\t' {
        seq!['\\', 't']
    } else if (c as u32) < 32 {
        seq!['\\', 'u', '0', '0', hex_digit_char((c as u32 / 16) as int), hex_digit_char(
            (c as u32 % 16) as int,
        )]
    } else {
        seq![c]
    }
}

pub open spec fn ser_str_body(s: Seq<char>) -> Seq<char>
    decreases s.len(),
{
    if s.len() == 0 {
        Seq::empty()
    } else {
        esc_char(s[0]) + ser_str_body(s.skip(1))
    }
}

pub open spec fn ser_string(s: Seq<char>) -> Seq<char> {
    seq!['"'] + ser_str_body(s) + seq!['"']
}

pub open spec fn unesc_short(e: char) -> Option<char> {
    if e == '"' {
        Some('"')
    } else if e == '\\' {
        Some('\\')
    } else if e == '/' {
        Some('/')
    } else if e == 'n' {
        Some('\n')
    } else if e == 'r' {
        Some('\r')
    } else if e == 't' {
        Some('\t')
    } else if e == 'b' {
        Some('\u{8}')
    } else if e == 'f' {
        Some('\u{c}')
    } else {
        None
    }
}

pub open spec fn hex4_val(s: Seq<char>, i: int) -> int {
    hex_val(s[i]) * 4096 + hex_val(s[i + 1]) * 256 + hex_val(s[i + 2]) * 16 + hex_val(s[i + 3])
}

pub open spec fn is_hex4(s: Seq<char>, i: int) -> bool {
    0 <= i && i + 4 <= s.len() && is_hex(s[i]) && is_hex(s[i + 1]) && is_hex(s[i + 2]) && is_hex(
        s[i + 3],
    )
}

/// A BMP code unit that is a legal `char` on its own.
pub open spec fn is_bmp_scalar(u: int) -> bool {
    0 <= u < 0x10000 && !(0xD800 <= u < 0xE000)
}

/// Body of a string literal from `i` (just after the opening quote) with the
/// characters read so far; stops after the closing quote.
pub open spec fn parse_str_rest(s: Seq<char>, i: int, acc: Seq<char>) -> Option<(Seq<char>, int)>
    decreases s.len() - i,
{
    if i < 0 || i >= s.len() {
        None
    } else if s[i] == '"' {
        Some((acc, i + 1))
    } else if s[i] == '\\' {
        if i + 1 < s.len() {
            let e = s[i + 1];
            if e == 'u' {
                if is_hex4(s, i + 2) {
                    let code = hex4_val(s, i + 2);
                    if is_bmp_scalar(code) {
                        parse_str_rest(s, i + 6, acc.push(code as char))
                    } else {
                        None
                    }
                } else {
                    None
                }
            } else {
                match unesc_short(e) {
                    Some(c) => parse_str_rest(s, i + 2, acc.push(c)),
                    None => None,
                }
            }
        } else {
            None
        }
    } else if (s[i] as u32) < 32 {
        None
    } else {
        parse_str_rest(s, i + 1, acc.push(s[i]))
    }
}

/// String literal at `i` after optional whitespace.
pub open spec fn parse_string(s: Seq<char>, i: int) -> Option<(Seq<char>, int)> {
    let j = skip_ws(s, i);
    if j < s.len() && s[j] == '"' {
        parse_str_rest(s, j + 1, Seq::empty())
    } else {
        None
    }
}

/// Relies on `char::from_u32`: a value below the surrogate range or above it
/// and below `0x110000` converts to the character with that code.
#[verifier::external_body]
pub(crate) fn char_from_u32(u: u32) -> (c: char)
    requires
        is_bmp_scalar(u as int),
    ensures
        c == u as char,
{
    char::from_u32(u).unwrap()
}

fn hex_val_x(c: char) -> (r: i8)
    ensures
        r as int == hex_val(c),
{
    let u = c as u32;
    if 48 <= u && u <= 57 {
        (u - 48) as i8
    } else if 97 <= u && u <= 102 {
        (u - 87) as i8
    } else if 65 <= u && u <= 70 {
        (u - 55) as i8
    } else {
        -1
    }
}

/// Exec mirror of `parse_str_rest` starting just after the opening quote.
#[verifier::rlimit(60)]
#[verifier::spinoff_prover]
fn parse_str_rest_x(v: &Vec<char>, i: usize) -> (r: Option<(Vec<char>, usize)>)
    requires
        i <= v.len(),
    ensures
        match r {
            Some((t, e)) => parse_str_rest(v@, i as int, Seq::empty()) == Some((t@, e as int)),
            None => parse_str_rest(v@, i as int, Seq::empty()) is None,
        },
{
    let mut acc: Vec<char> = Vec::new();
    let mut k = i;
    while k < v.len()
        invariant
            i <= k <= v.len(),
            parse_str_rest(v@, i as int, Seq::empty()) == parse_str_rest(v@, k as int, acc@),
        decreases v.len() - k,
    {
        let c = v[k];
        if c == '"' {
            return Some((acc, k + 1));
        } else if c == '\\' {
            if k + 1 >= v.len() {
                return None;
            }
            let e = v[k + 1];
            if e == 'u' {
                if v.len() - (k + 2) < 4 {
                    return None;
                }
                let h0 = hex_val_x(v[k + 2]);
                let h1 = hex_val_x(v[k + 3]);
                let h2 = hex_val_x(v[k + 4]);
                let h3 = hex_val_x(v[k + 5]);
                if h0 < 0 || h1 < 0 || h2 < 0 || h3 < 0 {
                    return None;
                }
                let code: u32 = (h0 as u32) * 4096 + (h1 as u32) * 256 + (h2 as u32) * 16 + (
                h3 as u32);
                assert(code as int == hex4_val(v@, k + 2));
                if 0xD800 <= code && code < 0xE000 {
                    return None;
                }
                assert(is_bmp_scalar(code as int));
                acc.push(char_from_u32(code));
                k += 6;
            } else {
                let c2 = if e == '"' {
                    '"'
                } else if e == '\\' {
                    '\\'
                } else if e == '/' {
                    '/'
                } else if e == 'n' {
                    '\n'
                } else if e == 'r' {
                    '\r'
                } else if e == 't' {
                    '\t'
                } else if e == 'b' {
                    '\u{8}'
                } else if e == 'f' {
                    '\u{c}'
                } else {
                    return None;
                };
                assert(unesc_short(e) == Some(c2));
                acc.push(c2);
                k += 2;
            }
        } else if (c as u32) < 32 {
            return None;
        } else {
            acc.push(c);
            k += 1;
        }
    }
    None
}

pub fn parse_string_x(v: &Vec<char>, i: usize) -> (r: Option<(Vec<char>, usize)>)
    requires
        i <= v.len(),
    ensures
        match r {
            Some((t, e)) => parse_string(v@, i as int) == Some((t@, e as int)) && i < e <= v.len(),
            None => parse_string(v@, i as int) is None,
        },
{
    let j = skip_ws_x(v, i);
    if j < v.len() && v[j] == '"' {
        match parse_str_rest_x(v, j + 1) {
            Some((t, e)) => {
                proof {
                    lemma_parse_str_rest_bounds(v@, j + 1, Seq::empty());
                }
                Some((t, e))
            },
            None => None,
        }
    } else {
        None
    }
}

pub proof fn lemma_parse_str_rest_bounds(s: Seq<char>, i: int, acc: Seq<char>)
    ensures
        match parse_str_rest(s, i, acc) {
            Some((t, e)) => i < e <= s.len(),
            None => true,
        },
    decreases s.len() - i,
{
    if 0 <= i < s.len() {
        if s[i] == '"' {
        } else if s[i] == '\\' {
            if i + 1 < s.len() {
                let e = s[i + 1];
                if e == 'u' {
                    if is_hex4(s, i + 2) && is_bmp_scalar(hex4_val(s, i + 2)) {
                        lemma_parse_str_rest_bounds(s, i + 6, acc.push(hex4_val(s, i + 2) as char));
                    }
                } else {
                    match unesc_short(e) {
                        Some(c) => lemma_parse_str_rest_bounds(s, i + 2, acc.push(c)),
                        None => {},
                    }
                }
            }
        } else if (s[i] as u32) < 32 {
        } else {
            lemma_parse_str_rest_bounds(s, i + 1, acc.push(s[i]));
        }
    }
}

fn hex_digit_char_x(d: u32) -> (c: char)
    requires
        d < 16,
    ensures
        c == hex_digit_char(d as int),
{
    match d {
        0 => '0',
        1 => '1',
        2 => '2',
        3 => '3',
        4 => '4',
        5 => '5',
        6 => '6',
        7 => '7',
        8 => '8',
        9 => '9',
        10 => 'a',
        11 => 'b',
        12 => 'c',
        13 => 'd',
        14 => 'e',
        _ => 'f',
    }
}

/// Append the serialized string literal for `s` to `out`.
pub fn push_string(s: &str, out: &mut Vec<char>)
    ensures
        final(out)@ == old(out)@ + ser_string(s@),
{
    let chars = crate::text::str_to_chars(s);
    out.push('"');
    let mut k: usize = 0;
    while k < chars.len()
        invariant
            k <= chars.len(),
            chars@ == s@,
            out@ == old(out)@ + seq!['"'] + ser_str_body(s@.subrange(0, k as int)),
        decreases chars.len() - k,
    {
        let c = chars[k];
        proof {
            lemma_ser_str_body_snoc(s@.subrange(0, k as int), c);
            assert(s@.subrange(0, k as int).push(c) =~= s@.subrange(0, k + 1));
        }
        if c == '"' {
            out.push('\\');
            out.push('"');
        } else if c == '\\' {
            out.push('\\');
            out.push('\\');
        } else if c == '\n' {
            out.push('\\');
            out.push('n');
        } else if c == '\r' {
            out.push('\\');
            out.push('r');
        } else if c == '\t' {
            out.push('\\');
            out.push('t');
        } else if (c as u32) < 32 {
            let u = c as u32;
            out.push('\\');
            out.push('u');
            out.push('0');
            out.push('0');
            out.push(hex_digit_char_x(u / 16));
            out.push(hex_digit_char_x(u % 16));
        } else {
            out.push(c);
        }
        assert(out@ =~= old(out)@ + seq!['"'] + ser_str_body(s@.subrange(0, k + 1)));
        k += 1;
    }
    assert(s@.subrange(0, s@.len() as int) =~= s@);
    out.push('"');
    assert(out@ =~= old(out)@ + ser_string(s@));
}

/// `ser_str_body` distributes over appending one character.
pub proof fn lemma_ser_str_body_snoc(s: Seq<char>, c: char)
    ensures
        ser_str_body(s.push(c)) == ser_str_body(s) + esc_char(c),
    decreases s.len(),
{
    if s.len() == 0 {
        assert(s.push(c).len() == 1);
        assert(s.push(c)[0] == c);
        assert(s.push(c).skip(1) =~= Seq::<char>::empty());
        assert(ser_str_body(s.push(c)) == esc_char(c) + ser_str_body(Seq::<char>::empty()));
        assert(ser_str_body(s.push(c)) =~= ser_str_body(s) + esc_char(c));
    } else {
        assert(s.push(c)[0] == s[0]);
        assert(s.push(c).skip(1) =~= s.skip(1).push(c));
        lemma_ser_str_body_snoc(s.skip(1), c);
        assert(ser_str_body(s.push(c)) == esc_char(s[0]) + ser_str_body(s.skip(1).push(c)));
        assert(ser_str_body(s) == esc_char(s[0]) + ser_str_body(s.skip(1)));
        assert(ser_str_body(s.push(c)) =~= ser_str_body(s) + esc_char(c));
    }
}

// ---------- literals ----------

pub open spec fn has_lit(s: Seq<char>, i: int, lit: Seq<char>) -> bool {
    0 <= i && i + lit.len() <= s.len() && s.subrange(i, i + lit.len()) == lit
}

pub open spec fn parse_bool(s: Seq<char>, i: int) -> Option<(bool, int)> {
    let j = skip_ws(s, i);
    if has_lit(s, j, seq!['t', 'r', 'u', 'e']) {
        Some((true, j + 4))
    } else if has_lit(s, j, seq!['f', 'a', 'l', 's', 'e']) {
        Some((false, j + 5))
    } else {
        None
    }
}

pub fn parse_bool_x(v: &Vec<char>, i: usize) -> (r: Option<(bool, usize)>)
    requires
        i <= v.len(),
    ensures
        match r {
            Some((b, e)) => parse_bool(v@, i as int) == Some((b, e as int)) && i < e <= v.len(),
            None => parse_bool(v@, i as int) is None,
        },
{
    let j = skip_ws_x(v, i);
    if v.len() - j >= 4 && v[j] == 't' && v[j + 1] == 'r' && v[j + 2] == 'u' && v[j + 3] == 'e' {
        proof {
            assert(v@.subrange(j as int, j + 4) =~= seq!['t', 'r', 'u', 'e']);
        }
        Some((true, j + 4))
    } else if v.len() - j >= 5 && v[j] == 'f' && v[j + 1] == 'a' && v[j + 2] == 'l' && v[j + 3]
        == 's' && v[j + 4] == 'e' {
        proof {
            assert(v@.subrange(j as int, j + 5) =~= seq!['f', 'a', 'l', 's', 'e']);
        }
        Some((false, j + 5))
    } else {
        proof {
            if has_lit(v@, j as int, seq!['t', 'r', 'u', 'e']) {
                assert(v@.subrange(j as int, j + 4)[0] == v@[j as int]);
                assert(v@.subrange(j as int, j + 4)[1] == v@[j + 1]);
                assert(v@.subrange(j as int, j + 4)[2] == v@[j + 2]);
                assert(v@.subrange(j as int, j + 4)[3] == v@[j + 3]);
            }
            if has_lit(v@, j as int, seq!['f', 'a', 'l', 's', 'e']) {
                assert(v@.subrange(j as int, j + 5)[0] == v@[j as int]);
                assert(v@.subrange(j as int, j + 5)[1] == v@[j + 1]);
                assert(v@.subrange(j as int, j + 5)[2] == v@[j + 2]);
                assert(v@.subrange(j as int, j + 5)[3] == v@[j + 3]);
                assert(v@.subrange(j as int, j + 5)[4] == v@[j + 4]);
            }
        }
        None
    }
}

// ---------- skipping unknown values ----------

/// End position of a value at `i`, tolerating arbitrary JSON (including
/// numbers with fractions); used for unknown members only.
pub open spec fn skip_value(s: Seq<char>, i: int) -> Option<int>
    decreases s.len() - i, 0int,
{
    let j = skip_ws(s, i);
    if !(i <= j && j < s.len()) {
        None
    } else if s[j] == '"' {
        match parse_str_rest(s, j + 1, Seq::empty()) {
            Some((t, e)) => Some(e),
            None => None,
        }
    } else if s[j] == 't' || s[j] == 'f' {
        match parse_bool(s, j) {
            Some((b, e)) => Some(e),
            None => None,
        }
    } else if s[j] == 'n' {
        if has_lit(s, j, seq!['n', 'u', 'l', 'l']) {
            Some(j + 4)
        } else {
            None
        }
    } else if s[j] == '{' {
        skip_list(s, j + 1, true, true)
    } else if s[j] == '[' {
        skip_list(s, j + 1, false, true)
    } else if s[j] == '-' || is_digit(s[j]) {
        let e = num_end(s, j + 1);
        Some(e)
    } else {
        None
    }
}

/// Characters that may appear in a JSON number.
pub open spec fn is_num_char(c: char) -> bool {
    is_digit(c) || c == '-' || c == '+' || c == '.' || c == 'e' || c == 'E'
}

pub open spec fn num_end(s: Seq<char>, i: int) -> int
    decreases s.len() - i,
{
    if 0 <= i < s.len() && is_num_char(s[i]) {
        num_end(s, i + 1)
    } else {
        i
    }
}

/// Remaining members or elements of an object (`obj`) or array, starting
/// right after the opener or a separating comma.
pub open spec fn skip_list(s: Seq<char>, i: int, obj: bool, first: bool) -> Option<int>
    decreases s.len() - i, 1int,
{
    let j = skip_ws(s, i);
    if !(i <= j && j < s.len()) {
        None
    } else if first && ((obj && s[j] == '}') || (!obj && s[j] == ']')) {
        Some(j + 1)
    } else {
        let m = if obj {
            match parse_string(s, j) {
                Some((k, p1)) => {
                    let q = skip_ws(s, p1);
                    if p1 <= q && q < s.len() && s[q] == ':' {
                        Some(q + 1)
                    } else {
                        None
                    }
                },
                None => None,
            }
        } else {
            Some(j)
        };
        match m {
            Some(vstart) => if j <= vstart {
                match skip_value(s, vstart) {
                    Some(p) => if vstart <= p {
                        let q2 = skip_ws(s, p);
                        if p <= q2 && q2 < s.len() && s[q2] == ',' {
                            if q2 + 1 > i {
                                skip_list(s, q2 + 1, obj, false)
                            } else {
                                None
                            }
                        } else if q2 < s.len() && ((obj && s[q2] == '}') || (!obj && s[q2]
                            == ']')) {
                            Some(q2 + 1)
                        } else {
                            None
                        }
                    } else {
                        None
                    },
                    None => None,
                }
            } else {
                None
            },
            None => None,
        }
    }
}

/// Exec mirror of `num_end`.
fn num_end_x(v: &Vec<char>, i: usize) -> (r: usize)
    requires
        i <= v.len(),
    ensures
        r == num_end(v@, i as int),
        i <= r <= v.len(),
{
    let mut j = i;
    while j < v.len() && (is_digit_x(v[j]) || v[j] == '-' || v[j] == '+' || v[j] == '.' || v[j]
        == 'e' || v[j] == 'E')
        invariant
            i <= j <= v.len(),
            num_end(v@, i as int) == num_end(v@, j as int),
        decreases v.len() - j,
    {
        j += 1;
    }
    j
}

pub fn skip_value_x(v: &Vec<char>, i: usize) -> (r: Option<usize>)
    requires
        i <= v.len(),
    ensures
        match r {
            Some(e) => skip_value(v@, i as int) == Some(e as int) && i <= e <= v.len(),
            None => skip_value(v@, i as int) is None,
        },
    decreases v.len() - i, 0int,
{
    let j = skip_ws_x(v, i);
    if j >= v.len() {
        return None;
    }
    let c = v[j];
    if c == '"' {
        match parse_str_rest_x(v, j + 1) {
            Some((_t, e)) => {
                proof {
                    lemma_parse_str_rest_bounds(v@, j + 1, Seq::empty());
                }
                Some(e)
            },
            None => None,
        }
    } else if c == 't' || c == 'f' {
        match parse_bool_x(v, j) {
            Some((_b, e)) => Some(e),
            None => None,
        }
    } else if c == 'n' {
        if v.len() - j >= 4 && v[j + 1] == 'u' && v[j + 2] == 'l' && v[j + 3] == 'l' {
            proof {
                assert(v@.subrange(j as int, j + 4) =~= seq!['n', 'u', 'l', 'l']);
            }
            Some(j + 4)
        } else {
            proof {
                if has_lit(v@, j as int, seq!['n', 'u', 'l', 'l']) {
                    assert(v@.subrange(j as int, j + 4)[1] == v@[j + 1]);
                    assert(v@.subrange(j as int, j + 4)[2] == v@[j + 2]);
                    assert(v@.subrange(j as int, j + 4)[3] == v@[j + 3]);
                }
            }
            None
        }
    } else if c == '{' {
        skip_list_x(v, j + 1, true, true)
    } else if c == '[' {
        skip_list_x(v, j + 1, false, true)
    } else if c == '-' || is_digit_x(c) {
        Some(num_end_x(v, j + 1))
    } else {
        None
    }
}

pub fn skip_list_x(v: &Vec<char>, i: usize, obj: bool, first: bool) -> (r: Option<usize>)
    requires
        i <= v.len(),
    ensures
        match r {
            Some(e) => skip_list(v@, i as int, obj, first) == Some(e as int) && i <= e <= v.len(),
            None => skip_list(v@, i as int, obj, first) is None,
        },
    decreases v.len() - i, 1int,
{
    let j = skip_ws_x(v, i);
    if j >= v.len() {
        return None;
    }
    if first && ((obj && v[j] == '}') || (!obj && v[j] == ']')) {
        return Some(j + 1);
    }
    let vstart = if obj {
        match parse_string_x(v, j) {
            Some((_k, p1)) => {
                let q = skip_ws_x(v, p1);
                if q < v.len() && v[q] == ':' {
                    q + 1
                } else {
                    return None;
                }
            },
            None => {
                return None;
            },
        }
    } else {
        j
    };
    match skip_value_x(v, vstart) {
        Some(p) => {
            let q2 = skip_ws_x(v, p);
            if q2 < v.len() && v[q2] == ',' {
                skip_list_x(v, q2 + 1, obj, false)
            } else if q2 < v.len() && ((obj && v[q2] == '}') || (!obj && v[q2] == ']')) {
                Some(q2 + 1)
            } else {
                None
            }
        },
        None => None,
    }
}

// ---------- booleans and null ----------

pub open spec fn ser_bool(b: bool) -> Seq<char> {
    if b {
        seq!['t', 'r', 'u', 'e']
    } else {
        seq!['f', 'a', 'l', 's', 'e']
    }
}

pub fn push_bool(b: bool, out: &mut Vec<char>)
    ensures
        final(out)@ == old(out)@ + ser_bool(b),
{
    if b {
        out.push('t');
        out.push('r');
        out.push('u');
        out.push('e');
    } else {
        out.push('f');
        out.push('a');
        out.push('l');
        out.push('s');
        out.push('e');
    }
    assert(out@ =~= old(out)@ + ser_bool(b));
}

pub open spec fn parse_null(s: Seq<char>, i: int) -> Option<int> {
    let j = skip_ws(s, i);
    if has_lit(s, j, seq!['n', 'u', 'l', 'l']) {
        Some(j + 4)
    } else {
        None
    }
}

pub fn parse_null_x(v: &Vec<char>, i: usize) -> (r: Option<usize>)
    requires
        i <= v.len(),
    ensures
        match r {
            Some(e) => parse_null(v@, i as int) == Some(e as int) && i < e <= v.len(),
            None => parse_null(v@, i as int) is None,
        },
{
    let j = skip_ws_x(v, i);
    if v.len() - j >= 4 && v[j] == 'n' && v[j + 1] == 'u' && v[j + 2] == 'l' && v[j + 3] == 'l' {
        proof {
            assert(v@.subrange(j as int, j + 4) =~= seq!['n', 'u', 'l', 'l']);
        }
        Some(j + 4)
    } else {
        proof {
            if has_lit(v@, j as int, seq!['n', 'u', 'l', 'l']) {
                assert(v@.subrange(j as int, j + 4)[0] == v@[j as int]);
                assert(v@.subrange(j as int, j + 4)[1] == v@[j + 1]);
                assert(v@.subrange(j as int, j + 4)[2] == v@[j + 2]);
                assert(v@.subrange(j as int, j + 4)[3] == v@[j + 3]);
            }
        }
        None
    }
}

// ---------- layout glue ----------

pub open spec fn spaces(n: nat) -> Seq<char>
    decreases n,
{
    if n == 0 {
        Seq::empty()
    } else {
        spaces((n - 1) as nat).push(' ')
    }
}

pub open spec fn nl_indent(d: nat) -> Seq<char> {
    seq!['\n'] + spaces(2 * d)
}

/// Separator emitted after an opener or a comma, before the next item.
pub open spec fn open_sep(p: bool, d: nat) -> Seq<char> {
    if p {
        nl_indent(d)
    } else {
        Seq::empty()
    }
}

/// A member key with its colon (and the pretty-mode space).
pub open spec fn key_part(k: Seq<char>, p: bool) -> Seq<char> {
    ser_string(k) + (if p {
        seq![':', ' ']
    } else {
        seq![':']
    })
}

pub open spec fn obj_end(p: bool, d: nat) -> Seq<char> {
    (if p {
        nl_indent(d)
    } else {
        Seq::<char>::empty()
    }) + seq!['}']
}

pub open spec fn arr_end(p: bool, d: nat) -> Seq<char> {
    (if p {
        nl_indent(d)
    } else {
        Seq::<char>::empty()
    }) + seq![']']
}

pub proof fn lemma_spaces_ws(n: nat)
    ensures
        spaces(n).len() == n,
        forall|k: int| 0 <= k < n ==> is_ws(#[trigger] spaces(n)[k]),
    decreases n,
{
    if n > 0 {
        lemma_spaces_ws((n - 1) as nat);
    }
}

pub proof fn lemma_open_sep_ws(p: bool, d: nat)
    ensures
        forall|k: int| 0 <= k < open_sep(p, d).len() ==> is_ws(#[trigger] open_sep(p, d)[k]),
    decreases d,
{
    lemma_spaces_ws(2 * d);
}

// ---------- exec layout helpers ----------

/// Append the characters of `s` verbatim.
pub fn push_raw(s: &str, out: &mut Vec<char>)
    ensures
        final(out)@ == old(out)@ + s@,
{
    let chars = crate::text::str_to_chars(s);
    let mut k: usize = 0;
    while k < chars.len()
        invariant
            k <= chars.len(),
            chars@ == s@,
            out@ == old(out)@ + s@.subrange(0, k as int),
        decreases chars.len() - k,
    {
        out.push(chars[k]);
        assert(out@ =~= old(out)@ + s@.subrange(0, k + 1));
        k += 1;
    }
    assert(out@ =~= old(out)@ + s@);
}

pub fn push_open_sep(p: bool, d: usize, out: &mut Vec<char>)
    requires
        d <= 100,
    ensures
        final(out)@ == old(out)@ + open_sep(p, d as nat),
{
    if p {
        out.push('\n');
        let n = 2 * d;
        let mut k: usize = 0;
        while k < n
            invariant
                k <= n,
                n == 2 * d,
                out@ == old(out)@ + seq!['\n'] + spaces(k as nat),
            decreases n - k,
        {
            out.push(' ');
            assert(out@ =~= old(out)@ + seq!['\n'] + spaces((k + 1) as nat));
            k += 1;
        }
        assert(out@ =~= old(out)@ + open_sep(p, d as nat));
    } else {
        assert(out@ =~= old(out)@ + open_sep(p, d as nat));
    }
}

pub fn push_key(k: &str, p: bool, out: &mut Vec<char>)
    ensures
        final(out)@ == old(out)@ + key_part(k@, p),
{
    push_string(k, out);
    out.push(':');
    if p {
        out.push(' ');
    }
    assert(out@ =~= old(out)@ + key_part(k@, p));
}

pub fn push_obj_end(p: bool, d: usize, out: &mut Vec<char>)
    requires
        d <= 100,
    ensures
        final(out)@ == old(out)@ + obj_end(p, d as nat),
{
    push_open_sep(p, d, out);
    out.push('}');
    assert(out@ =~= old(out)@ + obj_end(p, d as nat));
}

pub fn push_arr_end(p: bool, d: usize, out: &mut Vec<char>)
    requires
        d <= 100,
    ensures
        final(out)@ == old(out)@ + arr_end(p, d as nat),
{
    push_open_sep(p, d, out);
    out.push(']');
    assert(out@ =~= old(out)@ + arr_end(p, d as nat));
}

// ---------- concatenation decomposition ----------

/// A subrange equal to `a + b` splits into a subrange equal to `a` and one
/// equal to `b`.
pub proof fn lemma_subrange_cat(s: Seq<char>, i: int, a: Seq<char>, b: Seq<char>)
    requires
        0 <= i,
        i + a.len() + b.len() <= s.len(),
        s.subrange(i, i + a.len() + b.len()) == a + b,
    ensures
        s.subrange(i, i + a.len()) == a,
        s.subrange(i + a.len(), i + a.len() + b.len()) == b,
        forall|k: int| 0 <= k < a.len() ==> s[i + k] == a[k],
        forall|k: int| 0 <= k < b.len() ==> s[i + a.len() + k] == b[k],
{
    let w = s.subrange(i, i + a.len() + b.len());
    assert forall|k: int| 0 <= k < a.len() implies s[i + k] == a[k] by {
        assert(w[k] == s[i + k]);
        assert((a + b)[k] == a[k]);
    }
    assert forall|k: int| 0 <= k < b.len() implies s[i + a.len() + k] == b[k] by {
        assert(w[a.len() + k] == s[i + a.len() + k]);
        assert((a + b)[a.len() + k] == b[k]);
    }
    assert(s.subrange(i, i + a.len()) =~= a);
    assert(s.subrange(i + a.len(), i + a.len() + b.len()) =~= b);
}

/// The character at offset `k` of a decoded subrange.
pub proof fn lemma_char_at(s: Seq<char>, i: int, a: Seq<char>, k: int)
    requires
        0 <= i,
        0 <= k < a.len(),
        i + a.len() <= s.len(),
        s.subrange(i, i + a.len()) == a,
    ensures
        s[i + k] == a[k],
{
    assert(s.subrange(i, i + a.len())[k] == s[i + k]);
}

// ---------- round trips: numbers ----------

pub proof fn lemma_dec_u_digits(n: nat)
    ensures
        dec_u(n).len() >= 1,
        forall|k: int| 0 <= k < dec_u(n).len() ==> is_digit(#[trigger] dec_u(n)[k]),
    decreases n,
{
    if n >= 10 {
        lemma_dec_u_digits(n / 10);
    }
}

pub proof fn lemma_digits_val_of_dec(n: nat, s: Seq<char>, i: int)
    requires
        0 <= i,
        i + dec_u(n).len() <= s.len(),
        s.subrange(i, i + dec_u(n).len()) == dec_u(n),
    ensures
        digits_val(s, i, i + dec_u(n).len()) == n,
        forall|k: int| i <= k < i + dec_u(n).len() ==> is_digit(s[k]),
    decreases n,
{
    lemma_dec_u_digits(n);
    let w = s.subrange(i, i + dec_u(n).len());
    assert forall|k: int| i <= k < i + dec_u(n).len() implies is_digit(s[k]) by {
        assert(w[k - i] == s[k]);
        assert(is_digit(dec_u(n)[k - i]));
    }
    if n < 10 {
        lemma_char_at(s, i, dec_u(n), 0);
        assert(s[i] == dec_u(n)[0]);
        assert(digits_val(s, i, i) == 0);
        assert(digits_val(s, i, i + 1) == digit_val(s[i]));
    } else {
        let pre = dec_u(n / 10);
        let lastc = digit_char((n % 10) as int);
        assert(dec_u(n) =~= pre + seq![lastc]);
        lemma_subrange_cat(s, i, pre, seq![lastc]);
        lemma_digits_val_of_dec(n / 10, s, i);
        lemma_char_at(s, i + pre.len(), seq![lastc], 0);
        assert(s[i + pre.len()] == lastc);
        assert(digits_val(s, i, i + dec_u(n).len()) == digits_val(s, i, i + pre.len()) * 10
            + digit_val(lastc));
    }
}

/// The position ends any number: end of text or a character that neither
/// extends the digit run nor begins a fraction or exponent.
pub open spec fn num_stops(s: Seq<char>, after: int) -> bool {
    after == s.len() || (!is_digit(s[after]) && s[after] != '.' && s[after] != 'e' && s[after]
        != 'E')
}

/// Parsing the serialization of an `i64`, after optional whitespace, yields
/// the value back; `m + ser_i64(x).len()` must not be followed by a digit,
/// fraction or exponent.
pub proof fn lemma_parse_i64_ser(x: int, s: Seq<char>, i: int, m: int)
    requires
        i64::MIN <= x <= i64::MAX,
        0 <= i <= m,
        m + ser_i64(x).len() <= s.len(),
        forall|k: int| i <= k < m ==> is_ws(s[k]),
        s.subrange(m, m + ser_i64(x).len()) == ser_i64(x),
        num_stops(s, m + ser_i64(x).len()),
    ensures
        parse_i64(s, i) == Some((x, m + ser_i64(x).len())),
        parse_int(s, i) == Some((x, m + ser_i64(x).len())),
{
    let ll = ser_i64(x).len() as int;
    if x < 0 {
        let mag = (-x) as nat;
        lemma_dec_u_digits(mag);
        lemma_subrange_cat(s, m, seq!['-'], dec_u(mag));
        lemma_char_at(s, m, seq!['-'], 0);
        assert(s[m] == '-');
        lemma_skip_ws_stops(s, i, m);
        lemma_digits_val_of_dec(mag, s, m + 1);
        lemma_digits_end_stops(s, m + 1, m + ll);
        assert(!num_cont(s, m + ll));
        assert(digits_val(s, m + 1, m + ll) == mag);
    } else {
        let mag = x as nat;
        lemma_dec_u_digits(mag);
        assert(s.subrange(m, m + ll) == dec_u(mag));
        lemma_digits_val_of_dec(mag, s, m);
        assert forall|k: int| 0 <= k < ll implies s[m + k] == dec_u(mag)[k] by {
            assert(s.subrange(m, m + ll)[k] == s[m + k]);
        }
        assert(s[m] == dec_u(mag)[0]);
        assert(is_digit(s[m]));
        assert(!is_ws(s[m]));
        assert(s[m] != '-');
        lemma_skip_ws_stops(s, i, m);
        lemma_digits_end_stops(s, m, m + ll);
        assert(!num_cont(s, m + ll));
        assert(digits_val(s, m, m + ll) == mag);
    }
}

/// Same for a non-negative value read back as a `usize`-ranged integer.
pub proof fn lemma_parse_usize_ser(x: int, s: Seq<char>, i: int, m: int)
    requires
        0 <= x <= usize::MAX,
        0 <= i <= m,
        m + ser_i64(x).len() <= s.len(),
        forall|k: int| i <= k < m ==> is_ws(s[k]),
        s.subrange(m, m + ser_i64(x).len()) == ser_i64(x),
        num_stops(s, m + ser_i64(x).len()),
    ensures
        parse_usize(s, i) == Some((x, m + ser_i64(x).len())),
    decreases 0int,
{
    let ll = ser_i64(x).len() as int;
    let mag = x as nat;
    lemma_dec_u_digits(mag);
    assert(s.subrange(m, m + ll) == dec_u(mag));
    lemma_digits_val_of_dec(mag, s, m);
    assert forall|k: int| 0 <= k < ll implies s[m + k] == dec_u(mag)[k] by {
        assert(s.subrange(m, m + ll)[k] == s[m + k]);
    }
    assert(s[m] == dec_u(mag)[0]);
    assert(is_digit(s[m]));
    assert(!is_ws(s[m]));
    assert(s[m] != '-');
    lemma_skip_ws_stops(s, i, m);
    lemma_digits_end_stops(s, m, m + ll);
    assert(!num_cont(s, m + ll));
    assert(digits_val(s, m, m + ll) == mag);
}

// ---------- round trips: booleans ----------

pub proof fn lemma_parse_bool_ser(b: bool, s: Seq<char>, i: int, m: int)
    requires
        0 <= i <= m,
        m + ser_bool(b).len() <= s.len(),
        forall|k: int| i <= k < m ==> is_ws(s[k]),
        s.subrange(m, m + ser_bool(b).len()) == ser_bool(b),
    ensures
        parse_bool(s, i) == Some((b, m + ser_bool(b).len())),
{
    let ll = ser_bool(b).len() as int;
    assert forall|k: int| 0 <= k < ll implies s[m + k] == ser_bool(b)[k] by {
        assert(s.subrange(m, m + ll)[k] == s[m + k]);
    }
    lemma_skip_ws_stops(s, i, m);
    if b {
        assert(s.subrange(m, m + 4) == seq!['t', 'r', 'u', 'e']);
    } else {
        assert(s[m] == 'f');
        if has_lit(s, m, seq!['t', 'r', 'u', 'e']) {
            assert(s.subrange(m, m + 4)[0] == s[m]);
            assert(false);
        }
        assert(s.subrange(m, m + 5) == seq!['f', 'a', 'l', 's', 'e']);
    }
}

// ---------- round trips: strings ----------

pub proof fn lemma_hex_digit_val(d: int)
    requires
        0 <= d < 16,
    ensures
        hex_val(hex_digit_char(d)) == d,
{
}

/// Parsing the string body of the serialization of `t` (followed by the
/// closing quote) extends the accumulator by exactly `t`.
pub proof fn lemma_str_rest_ser(t: Seq<char>, s: Seq<char>, i: int, acc: Seq<char>)
    requires
        0 <= i,
        i + ser_str_body(t).len() + 1 <= s.len(),
        s.subrange(i, i + ser_str_body(t).len() + 1) == ser_str_body(t) + seq!['"'],
    ensures
        parse_str_rest(s, i, acc) == Some((acc + t, i + ser_str_body(t).len() + 1)),
    decreases t.len(),
{
    if t.len() == 0 {
        assert(s.subrange(i, i + 1)[0] == s[i]);
        assert(s[i] == '"');
        assert(acc + t =~= acc);
    } else {
        let c = t[0];
        let rest = t.skip(1);
        assert(ser_str_body(t) == esc_char(c) + ser_str_body(rest));
        assert(ser_str_body(t) + seq!['"'] =~= esc_char(c) + (ser_str_body(rest) + seq!['"']));
        lemma_subrange_cat(s, i, esc_char(c), ser_str_body(rest) + seq!['"']);
        let i2 = i + esc_char(c).len();
        if c == '"' {
            assert(s[i] == '\\' && s[i + 1] == '"');
            lemma_str_rest_ser(rest, s, i2, acc.push(c));
            assert(acc.push(c) + rest =~= acc + t);
        } else if c == '\\' {
            assert(s[i] == '\\' && s[i + 1] == '\\');
            lemma_str_rest_ser(rest, s, i2, acc.push(c));
            assert(acc.push(c) + rest =~= acc + t);
        } else if c == '\n' {
            assert(s[i] == '\\' && s[i + 1] == 'n');
            lemma_str_rest_ser(rest, s, i2, acc.push(c));
            assert(acc.push(c) + rest =~= acc + t);
        } else if c == '\r' {
            assert(s[i] == '\\' && s[i + 1] == 'r');
            lemma_str_rest_ser(rest, s, i2, acc.push(c));
            assert(acc.push(c) + rest =~= acc + t);
        } else if c == '\t' {
            assert(s[i] == '\\' && s[i + 1] == 't');
            lemma_str_rest_ser(rest, s, i2, acc.push(c));
            assert(acc.push(c) + rest =~= acc + t);
        } else if (c as u32) < 32 {
            let u = c as u32;
            assert(s[i] == '\\' && s[i + 1] == 'u' && s[i + 2] == '0' && s[i + 3] == '0');
            assert(s[i + 4] == hex_digit_char((u / 16) as int));
            assert(s[i + 5] == hex_digit_char((u % 16) as int));
            lemma_hex_digit_val((u / 16) as int);
            lemma_hex_digit_val((u % 16) as int);
            assert(is_hex4(s, i + 2));
            assert(hex4_val(s, i + 2) == u) by {
                assert(hex_val(s[i + 2]) == 0);
                assert(hex_val(s[i + 3]) == 0);
                assert(hex_val(s[i + 4]) == u / 16);
                assert(hex_val(s[i + 5]) == u % 16);
            }
            assert(is_bmp_scalar(u as int));
            vstd::utf8::char_u32_cast(c, u);
            assert((u as int) as char == c);
            lemma_str_rest_ser(rest, s, i2, acc.push(c));
            assert(acc.push(c) + rest =~= acc + t);
        } else {
            lemma_char_at(s, i, esc_char(c), 0);
            assert(s[i] == c);
            assert(s[i] != '"' && s[i] != '\\');
            assert(!((s[i] as u32) < 32));
            lemma_str_rest_ser(rest, s, i2, acc.push(c));
            assert(acc.push(c) + rest =~= acc + t);
        }
    }
}

/// Parsing the serialization of a string literal, after optional whitespace,
/// yields the string back.
pub proof fn lemma_parse_string_ser(t: Seq<char>, s: Seq<char>, i: int, m: int)
    requires
        0 <= i <= m,
        m + ser_string(t).len() <= s.len(),
        forall|k: int| i <= k < m ==> is_ws(s[k]),
        s.subrange(m, m + ser_string(t).len()) == ser_string(t),
    ensures
        parse_string(s, i) == Some((t, m + ser_string(t).len())),
{
    assert(ser_string(t) =~= seq!['"'] + (ser_str_body(t) + seq!['"']));
    lemma_subrange_cat(s, m, seq!['"'], ser_str_body(t) + seq!['"']);
    lemma_char_at(s, m, seq!['"'], 0);
    assert(s[m] == '"');
    lemma_skip_ws_stops(s, i, m);
    lemma_str_rest_ser(t, s, m + 1, Seq::empty());
    assert(Seq::empty() + t =~= t);
}

/// Entering a member: whitespace, then the key string, a colon, and the
/// position where the value text begins.
pub proof fn lemma_member_head(s: Seq<char>, i: int, m: int, k: Seq<char>, p: bool)
    requires
        0 <= i <= m,
        m + key_part(k, p).len() <= s.len(),
        forall|x: int| i <= x < m ==> is_ws(s[x]),
        s.subrange(m, m + key_part(k, p).len()) == key_part(k, p),
    ensures
        parse_string(s, i) == Some((k, m + ser_string(k).len())),
        skip_ws(s, m + ser_string(k).len()) == m + ser_string(k).len(),
        m + ser_string(k).len() < s.len(),
        s[m + ser_string(k).len()] == ':',
        forall|x: int| m + ser_string(k).len() + 1 <= x < m + key_part(k, p).len() ==> is_ws(s[x]),
{
    let colon = if p {
        seq![':', ' ']
    } else {
        seq![':']
    };
    lemma_subrange_cat(s, m, ser_string(k), colon);
    lemma_parse_string_ser(k, s, i, m);
    let q = m + ser_string(k).len();
    lemma_char_at(s, q, colon, 0);
    assert(s[q] == ':');
    lemma_skip_ws_stops(s, q, q);
    if p {
        lemma_char_at(s, q, colon, 1);
        assert(s[q + 1] == ' ');
    }
}

// ---------- member chunks ----------

/// Text before an item: the separator comma (for all but the first item) and
/// the pretty-mode newline and indent.
pub open spec fn sep_text(first: bool, p: bool, d: nat) -> Seq<char> {
    if first {
        open_sep(p, d + 1)
    } else {
        seq![','] + open_sep(p, d + 1)
    }
}

#[verifier::opaque]
pub open spec fn member_str(first: bool, k: Seq<char>, t: Seq<char>, p: bool, d: nat) -> Seq<
    char,
> {
    sep_text(first, p, d) + key_part(k, p) + ser_string(t)
}

#[verifier::opaque]
pub open spec fn member_bool(first: bool, k: Seq<char>, b: bool, p: bool, d: nat) -> Seq<char> {
    sep_text(first, p, d) + key_part(k, p) + ser_bool(b)
}

#[verifier::opaque]
pub open spec fn member_i64(first: bool, k: Seq<char>, x: int, p: bool, d: nat) -> Seq<char> {
    sep_text(first, p, d) + key_part(k, p) + ser_i64(x)
}

pub fn push_sep(first: bool, p: bool, d: usize, out: &mut Vec<char>)
    requires
        d < 100,
    ensures
        final(out)@ == old(out)@ + sep_text(first, p, d as nat),
{
    if !first {
        out.push(',');
    }
    push_open_sep(p, d + 1, out);
    assert(out@ =~= old(out)@ + sep_text(first, p, d as nat));
}

pub fn push_member_str(first: bool, k: &str, t: &str, p: bool, d: usize, out: &mut Vec<char>)
    requires
        d < 100,
    ensures
        final(out)@ == old(out)@ + member_str(first, k@, t@, p, d as nat),
{
    proof {
        reveal(member_str);
    }
    push_sep(first, p, d, out);
    push_key(k, p, out);
    push_string(t, out);
    assert(out@ =~= old(out)@ + member_str(first, k@, t@, p, d as nat));
}

pub fn push_member_bool(first: bool, k: &str, b: bool, p: bool, d: usize, out: &mut Vec<char>)
    requires
        d < 100,
    ensures
        final(out)@ == old(out)@ + member_bool(first, k@, b, p, d as nat),
{
    proof {
        reveal(member_bool);
    }
    push_sep(first, p, d, out);
    push_key(k, p, out);
    push_bool(b, out);
    assert(out@ =~= old(out)@ + member_bool(first, k@, b, p, d as nat));
}

pub fn push_member_i64(first: bool, k: &str, x: i64, p: bool, d: usize, out: &mut Vec<char>)
    requires
        d < 100,
    ensures
        final(out)@ == old(out)@ + member_i64(first, k@, x as int, p, d as nat),
{
    proof {
        reveal(member_i64);
    }
    push_sep(first, p, d, out);
    push_key(k, p, out);
    push_i64(x, out);
    assert(out@ =~= old(out)@ + member_i64(first, k@, x as int, p, d as nat));
}

pub fn push_member_usize(first: bool, k: &str, x: usize, p: bool, d: usize, out: &mut Vec<char>)
    requires
        d < 100,
    ensures
        final(out)@ == old(out)@ + member_i64(first, k@, x as int, p, d as nat),
{
    proof {
        reveal(member_i64);
    }
    push_sep(first, p, d, out);
    push_key(k, p, out);
    push_usize(x, out);
    assert(out@ =~= old(out)@ + member_i64(first, k@, x as int, p, d as nat));
}

/// The decomposition of an integer member into its separator, key part and
/// number text.
pub proof fn reveal_member_i64_parts()
    ensures
        forall|first: bool, k: Seq<char>, x: int, p: bool, d: nat|
            #[trigger] member_i64(first, k, x, p, d) == sep_text(first, p, d) + key_part(k, p)
                + ser_i64(x),
{
    reveal(member_i64);
}

// ---------- member-level round-trip helpers ----------

/// Facts shared by all members: where the key string parses and where the
/// colon stands.  `m` is where the member text begins.
pub proof fn lemma_member_bool(s: Seq<char>, i: int, m: int, k: Seq<char>, p: bool, b: bool)
    requires
        0 <= i <= m,
        m + key_part(k, p).len() + ser_bool(b).len() <= s.len(),
        forall|x: int| i <= x < m ==> is_ws(s[x]),
        s.subrange(m, m + key_part(k, p).len() + ser_bool(b).len()) == key_part(k, p) + ser_bool(b),
    ensures
        skip_ws(s, i) == m,
        s[m] == '"',
        parse_string(s, i) == Some((k, m + ser_string(k).len())),
        skip_ws(s, m + ser_string(k).len()) == m + ser_string(k).len(),
        s[m + ser_string(k).len()] == ':',
        parse_bool(s, m + ser_string(k).len() + 1) == Some(
            (b, m + key_part(k, p).len() + ser_bool(b).len()),
        ),
{
    lemma_subrange_cat(s, m, key_part(k, p), ser_bool(b));
    lemma_member_head(s, i, m, k, p);
    let q = m + ser_string(k).len();
    assert(key_part(k, p)[0] == ser_string(k)[0]);
    assert(ser_string(k)[0] == '"');
    lemma_char_at(s, m, key_part(k, p), 0);
    lemma_skip_ws_stops(s, i, m);
    lemma_parse_bool_ser(b, s, q + 1, m + key_part(k, p).len());
}

pub proof fn lemma_member_string(s: Seq<char>, i: int, m: int, k: Seq<char>, p: bool, t: Seq<char>)
    requires
        0 <= i <= m,
        m + key_part(k, p).len() + ser_string(t).len() <= s.len(),
        forall|x: int| i <= x < m ==> is_ws(s[x]),
        s.subrange(m, m + key_part(k, p).len() + ser_string(t).len()) == key_part(k, p)
            + ser_string(t),
    ensures
        skip_ws(s, i) == m,
        s[m] == '"',
        parse_string(s, i) == Some((k, m + ser_string(k).len())),
        skip_ws(s, m + ser_string(k).len()) == m + ser_string(k).len(),
        s[m + ser_string(k).len()] == ':',
        parse_string(s, m + ser_string(k).len() + 1) == Some(
            (t, m + key_part(k, p).len() + ser_string(t).len()),
        ),
{
    lemma_subrange_cat(s, m, key_part(k, p), ser_string(t));
    lemma_member_head(s, i, m, k, p);
    let q = m + ser_string(k).len();
    assert(key_part(k, p)[0] == ser_string(k)[0]);
    assert(ser_string(k)[0] == '"');
    lemma_char_at(s, m, key_part(k, p), 0);
    lemma_skip_ws_stops(s, i, m);
    lemma_parse_string_ser(t, s, q + 1, m + key_part(k, p).len());
}

pub proof fn lemma_member_i64(s: Seq<char>, i: int, m: int, k: Seq<char>, p: bool, x: int)
    requires
        i64::MIN <= x <= i64::MAX,
        0 <= i <= m,
        m + key_part(k, p).len() + ser_i64(x).len() <= s.len(),
        forall|y: int| i <= y < m ==> is_ws(s[y]),
        s.subrange(m, m + key_part(k, p).len() + ser_i64(x).len()) == key_part(k, p) + ser_i64(x),
        num_stops(s, m + key_part(k, p).len() + ser_i64(x).len()),
    ensures
        skip_ws(s, i) == m,
        s[m] == '"',
        parse_string(s, i) == Some((k, m + ser_string(k).len())),
        skip_ws(s, m + ser_string(k).len()) == m + ser_string(k).len(),
        s[m + ser_string(k).len()] == ':',
        parse_i64(s, m + ser_string(k).len() + 1) == Some(
            (x, m + key_part(k, p).len() + ser_i64(x).len()),
        ),
{
    lemma_subrange_cat(s, m, key_part(k, p), ser_i64(x));
    lemma_member_head(s, i, m, k, p);
    let q = m + ser_string(k).len();
    assert(key_part(k, p)[0] == ser_string(k)[0]);
    assert(ser_string(k)[0] == '"');
    lemma_char_at(s, m, key_part(k, p), 0);
    lemma_skip_ws_stops(s, i, m);
    lemma_parse_i64_ser(x, s, q + 1, m + key_part(k, p).len());
}

/// The closing of an object: optional newline and indent, then `}`.
pub proof fn lemma_obj_close(s: Seq<char>, pp: int, p: bool, d: nat)
    requires
        0 <= pp,
        pp + obj_end(p, d).len() <= s.len(),
        s.subrange(pp, pp + obj_end(p, d).len()) == obj_end(p, d),
    ensures
        skip_ws(s, pp) == pp + obj_end(p, d).len() - 1,
        s[pp + obj_end(p, d).len() - 1] == '}',
{
    let gap = obj_end(p, d).len() - 1;
    lemma_open_sep_ws(p, d);
    assert(obj_end(p, d) =~= open_sep(p, d) + seq!['}']);
    lemma_subrange_cat(s, pp, open_sep(p, d), seq!['}']);
    lemma_char_at(s, pp + gap, seq!['}'], 0);
    assert forall|x: int| pp <= x < pp + gap implies is_ws(s[x]) by {
        lemma_char_at(s, pp, open_sep(p, d), x - pp);
        assert(is_ws(open_sep(p, d)[x - pp]));
    }
    lemma_skip_ws_stops(s, pp, pp + gap);
}

/// The closing of an array: optional newline and indent, then `]`.
pub proof fn lemma_arr_close(s: Seq<char>, pp: int, p: bool, d: nat)
    requires
        0 <= pp,
        pp + arr_end(p, d).len() <= s.len(),
        s.subrange(pp, pp + arr_end(p, d).len()) == arr_end(p, d),
    ensures
        skip_ws(s, pp) == pp + arr_end(p, d).len() - 1,
        s[pp + arr_end(p, d).len() - 1] == ']',
{
    let gap = arr_end(p, d).len() - 1;
    lemma_open_sep_ws(p, d);
    assert(arr_end(p, d) =~= open_sep(p, d) + seq![']']);
    lemma_subrange_cat(s, pp, open_sep(p, d), seq![']']);
    lemma_char_at(s, pp + gap, seq![']'], 0);
    assert forall|x: int| pp <= x < pp + gap implies is_ws(s[x]) by {
        lemma_char_at(s, pp, open_sep(p, d), x - pp);
        assert(is_ws(open_sep(p, d)[x - pp]));
    }
    lemma_skip_ws_stops(s, pp, pp + gap);
}

// ---------- generic object member loop ----------

/// The members of an object from `i` (just inside the brace or after a
/// comma), threading an accumulator through `mem`, which consumes one value
/// dispatched by its key.
#[verifier::opaque]
pub open spec fn obj_fields<A>(
    s: Seq<char>,
    i: int,
    acc: A,
    mem: spec_fn(Seq<char>, int, A, Seq<char>) -> Option<(A, int)>,
) -> Option<(A, int)>
    decreases s.len() - i,
{
    let j = skip_ws(s, i);
    if !(i <= j && j < s.len()) {
        None
    } else if s[j] == '}' {
        Some((acc, j + 1))
    } else {
        match parse_string(s, j) {
            Some((k, p1)) => if j < p1 {
                let q = skip_ws(s, p1);
                if p1 <= q && q < s.len() && s[q] == ':' {
                    match mem(s, q + 1, acc, k) {
                        Some((acc2, p2)) => if q + 1 <= p2 {
                            let w = skip_ws(s, p2);
                            if p2 <= w && w < s.len() && s[w] == ',' {
                                obj_fields(s, w + 1, acc2, mem)
                            } else if w < s.len() && s[w] == '}' {
                                Some((acc2, w + 1))
                            } else {
                                None
                            }
                        } else {
                            None
                        },
                        None => None,
                    }
                } else {
                    None
                }
            } else {
                None
            },
            None => None,
        }
    }
}

/// One member consumed, followed by a comma: the fields value is that of the
/// rest.
pub proof fn lemma_fields_step_comma<A>(
    s: Seq<char>,
    entry: int,
    ks: int,
    kq: int,
    vend: int,
    w: int,
    k: Seq<char>,
    acc: A,
    acc2: A,
    r: Option<(A, int)>,
    mem: spec_fn(Seq<char>, int, A, Seq<char>) -> Option<(A, int)>,
)
    requires
        0 <= entry <= ks,
        ks < s.len(),
        skip_ws(s, entry) == ks,
        s[ks] != '}',
        parse_string(s, ks) == Some((k, kq)),
        ks < kq,
        skip_ws(s, kq) == kq,
        kq < s.len(),
        s[kq] == ':',
        mem(s, kq + 1, acc, k) == Some((acc2, vend)),
        kq + 1 <= vend <= w,
        skip_ws(s, vend) == w,
        w < s.len(),
        s[w] == ',',
        obj_fields(s, w + 1, acc2, mem) == r,
    ensures
        obj_fields(s, entry, acc, mem) == r,
{
    reveal(obj_fields);
}

/// An object with no members at all.
pub proof fn lemma_fields_empty<A>(
    s: Seq<char>,
    entry: int,
    w: int,
    acc: A,
    mem: spec_fn(Seq<char>, int, A, Seq<char>) -> Option<(A, int)>,
)
    requires
        0 <= entry <= w,
        w < s.len(),
        skip_ws(s, entry) == w,
        s[w] == '}',
    ensures
        obj_fields(s, entry, acc, mem) == Some((acc, w + 1)),
{
    reveal(obj_fields);
}

/// The last member, followed by the closing brace.
pub proof fn lemma_fields_step_close<A>(
    s: Seq<char>,
    entry: int,
    ks: int,
    kq: int,
    vend: int,
    w: int,
    k: Seq<char>,
    acc: A,
    acc2: A,
    mem: spec_fn(Seq<char>, int, A, Seq<char>) -> Option<(A, int)>,
)
    requires
        0 <= entry <= ks,
        ks < s.len(),
        skip_ws(s, entry) == ks,
        s[ks] != '}',
        parse_string(s, ks) == Some((k, kq)),
        ks < kq,
        skip_ws(s, kq) == kq,
        kq < s.len(),
        s[kq] == ':',
        mem(s, kq + 1, acc, k) == Some((acc2, vend)),
        kq + 1 <= vend <= w,
        skip_ws(s, vend) == w,
        w < s.len(),
        s[w] == '}',
    ensures
        obj_fields(s, entry, acc, mem) == Some((acc2, w + 1)),
{
    reveal(obj_fields);
}


// ---------- generic array element loop ----------

/// The elements of an array from `i` (just inside the bracket or after a
/// comma), collecting parsed elements in order.
#[verifier::opaque]
pub open spec fn arr_elems<A>(
    s: Seq<char>,
    i: int,
    acc: Seq<A>,
    elem: spec_fn(Seq<char>, int) -> Option<(A, int)>,
) -> Option<(Seq<A>, int)>
    decreases s.len() - i,
{
    let j = skip_ws(s, i);
    if !(i <= j && j < s.len()) {
        None
    } else if s[j] == ']' {
        Some((acc, j + 1))
    } else {
        match elem(s, j) {
            Some((x, pe)) => if j < pe {
                let w = skip_ws(s, pe);
                if pe <= w && w < s.len() && s[w] == ',' {
                    if w + 1 > i {
                        arr_elems(s, w + 1, acc.push(x), elem)
                    } else {
                        None
                    }
                } else if w < s.len() && s[w] == ']' {
                    Some((acc.push(x), w + 1))
                } else {
                    None
                }
            } else {
                None
            },
            None => None,
        }
    }
}

pub proof fn lemma_arr_step_comma<A>(
    s: Seq<char>,
    entry: int,
    j: int,
    pe: int,
    w: int,
    x: A,
    acc: Seq<A>,
    r: Option<(Seq<A>, int)>,
    elem: spec_fn(Seq<char>, int) -> Option<(A, int)>,
)
    requires
        0 <= entry <= j,
        j < s.len(),
        skip_ws(s, entry) == j,
        s[j] != ']',
        elem(s, j) == Some((x, pe)),
        j < pe <= w,
        skip_ws(s, pe) == w,
        w < s.len(),
        s[w] == ',',
        arr_elems(s, w + 1, acc.push(x), elem) == r,
    ensures
        arr_elems(s, entry, acc, elem) == r,
{
    reveal(arr_elems);
}

pub proof fn lemma_arr_step_close<A>(
    s: Seq<char>,
    entry: int,
    j: int,
    pe: int,
    w: int,
    x: A,
    acc: Seq<A>,
    elem: spec_fn(Seq<char>, int) -> Option<(A, int)>,
)
    requires
        0 <= entry <= j,
        j < s.len(),
        skip_ws(s, entry) == j,
        s[j] != ']',
        elem(s, j) == Some((x, pe)),
        j < pe <= w,
        skip_ws(s, pe) == w,
        w < s.len(),
        s[w] == ']',
    ensures
        arr_elems(s, entry, acc, elem) == Some((acc.push(x), w + 1)),
{
    reveal(arr_elems);
}

pub proof fn lemma_arr_empty<A>(
    s: Seq<char>,
    entry: int,
    w: int,
    acc: Seq<A>,
    elem: spec_fn(Seq<char>, int) -> Option<(A, int)>,
)
    requires
        0 <= entry <= w,
        w < s.len(),
        skip_ws(s, entry) == w,
        s[w] == ']',
    ensures
        arr_elems(s, entry, acc, elem) == Some((acc, w + 1)),
{
    reveal(arr_elems);
}

/// Serialized element texts, each preceded by its separator.
pub open spec fn arr_items<A>(
    es: Seq<A>,
    first: bool,
    p: bool,
    d: nat,
    f: spec_fn(A) -> Seq<char>,
) -> Seq<char>
    decreases es.len(),
{
    if es.len() == 0 {
        Seq::empty()
    } else {
        sep_text(first, p, d) + f(es[0]) + arr_items(es.skip(1), false, p, d, f)
    }
}

/// A whole array at depth `d`.
pub open spec fn ser_arr<A>(es: Seq<A>, p: bool, d: nat, f: spec_fn(A) -> Seq<char>) -> Seq<
    char,
> {
    if es.len() == 0 {
        seq!['[', ']']
    } else {
        seq!['['] + arr_items(es, true, p, d, f) + arr_end(p, d)
    }
}

/// Appending one element extends the item text at the end.
pub proof fn lemma_arr_items_snoc<A>(
    es: Seq<A>,
    x: A,
    first: bool,
    p: bool,
    d: nat,
    f: spec_fn(A) -> Seq<char>,
)
    ensures
        arr_items(es.push(x), first, p, d, f) == arr_items(es, first, p, d, f) + sep_text(
            es.len() == 0 && first,
            p,
            d,
        ) + f(x),
    decreases es.len(),
{
    if es.len() == 0 {
        assert(es.push(x)[0] == x);
        assert(es.push(x).skip(1) =~= Seq::<A>::empty());
        assert(arr_items(Seq::<A>::empty(), false, p, d, f) == Seq::<char>::empty());
        assert(arr_items(es, first, p, d, f) == Seq::<char>::empty());
        assert(arr_items(es.push(x), first, p, d, f) == sep_text(first, p, d) + f(x) + arr_items(
            es.push(x).skip(1),
            false,
            p,
            d,
            f,
        ));
        assert(arr_items(es.push(x), first, p, d, f) =~= arr_items(es, first, p, d, f) + sep_text(
            true && first,
            p,
            d,
        ) + f(x));
    } else {
        assert(es.push(x)[0] == es[0]);
        assert(es.push(x).skip(1) =~= es.skip(1).push(x));
        lemma_arr_items_snoc(es.skip(1), x, false, p, d, f);
        assert(arr_items(es.push(x), first, p, d, f) =~= arr_items(es, first, p, d, f) + sep_text(
            false,
            p,
            d,
        ) + f(x));
    }
}

// ---------- chunk-level round-trip helpers ----------

/// Where a member's parsing begins: at the chunk itself for the first member,
/// after the separating comma otherwise.
pub open spec fn chunk_entry(pos: int, first: bool) -> int {
    if first {
        pos
    } else {
        pos + 1
    }
}

/// All facts a fields-parser needs about one string-valued member chunk.
pub proof fn lemma_chunk_str(
    s: Seq<char>,
    pos: int,
    first: bool,
    k: Seq<char>,
    t: Seq<char>,
    p: bool,
    d: nat,
)
    requires
        0 <= pos,
        pos + member_str(first, k, t, p, d).len() <= s.len(),
        s.subrange(pos, pos + member_str(first, k, t, p, d).len()) == member_str(
            first,
            k,
            t,
            p,
            d,
        ),
    ensures
        !first ==> skip_ws(s, pos) == pos && s[pos] == ',',
        skip_ws(s, chunk_entry(pos, first)) == pos + sep_text(first, p, d).len(),
        s[pos + sep_text(first, p, d).len()] == '"',
        parse_string(s, pos + sep_text(first, p, d).len()) == Some(
            (k, pos + sep_text(first, p, d).len() + ser_string(k).len()),
        ),
        skip_ws(s, pos + sep_text(first, p, d).len() + ser_string(k).len()) == pos + sep_text(
            first,
            p,
            d,
        ).len() + ser_string(k).len(),
        pos + sep_text(first, p, d).len() + ser_string(k).len() < s.len(),
        s[pos + sep_text(first, p, d).len() + ser_string(k).len()] == ':',
        parse_string(s, pos + sep_text(first, p, d).len() + ser_string(k).len() + 1) == Some(
            (t, pos + member_str(first, k, t, p, d).len()),
        ),
        pos + sep_text(first, p, d).len() < pos + sep_text(first, p, d).len() + ser_string(k).len()
            < pos + sep_text(first, p, d).len() + ser_string(k).len() + 1 < pos + member_str(
            first,
            k,
            t,
            p,
            d,
        ).len(),
{
    reveal(member_str);
    let sep = sep_text(first, p, d);
    let ks = pos + sep.len();
    let entry = chunk_entry(pos, first);
    assert(member_str(first, k, t, p, d) =~= sep + (key_part(k, p) + ser_string(t)));
    lemma_subrange_cat(s, pos, sep, key_part(k, p) + ser_string(t));
    if !first {
        assert(sep =~= seq![','] + open_sep(p, d + 1));
        lemma_subrange_cat(s, pos, seq![','], open_sep(p, d + 1));
        lemma_char_at(s, pos, seq![','], 0);
        lemma_skip_ws_stops(s, pos, pos);
        lemma_open_sep_ws(p, d + 1);
        assert forall|x: int| pos + 1 <= x < ks implies is_ws(s[x]) by {
            lemma_char_at(s, pos + 1, open_sep(p, d + 1), x - (pos + 1));
            assert(is_ws(open_sep(p, d + 1)[x - (pos + 1)]));
        }
        lemma_member_string(s, entry, ks, k, p, t);
    } else {
        lemma_open_sep_ws(p, d + 1);
        assert forall|x: int| pos <= x < ks implies is_ws(s[x]) by {
            lemma_char_at(s, pos, open_sep(p, d + 1), x - pos);
            assert(is_ws(open_sep(p, d + 1)[x - pos]));
        }
        lemma_member_string(s, entry, ks, k, p, t);
    }
    lemma_skip_ws_stops(s, ks, ks);
    assert(parse_string(s, ks) == parse_string(s, entry));
    assert(ser_string(k).len() >= 2);
    assert(ser_string(t).len() >= 2);
}

/// Same for a boolean member.
pub proof fn lemma_chunk_bool(
    s: Seq<char>,
    pos: int,
    first: bool,
    k: Seq<char>,
    b: bool,
    p: bool,
    d: nat,
)
    requires
        0 <= pos,
        pos + member_bool(first, k, b, p, d).len() <= s.len(),
        s.subrange(pos, pos + member_bool(first, k, b, p, d).len()) == member_bool(
            first,
            k,
            b,
            p,
            d,
        ),
    ensures
        !first ==> skip_ws(s, pos) == pos && s[pos] == ',',
        skip_ws(s, chunk_entry(pos, first)) == pos + sep_text(first, p, d).len(),
        s[pos + sep_text(first, p, d).len()] == '"',
        parse_string(s, pos + sep_text(first, p, d).len()) == Some(
            (k, pos + sep_text(first, p, d).len() + ser_string(k).len()),
        ),
        skip_ws(s, pos + sep_text(first, p, d).len() + ser_string(k).len()) == pos + sep_text(
            first,
            p,
            d,
        ).len() + ser_string(k).len(),
        pos + sep_text(first, p, d).len() + ser_string(k).len() < s.len(),
        s[pos + sep_text(first, p, d).len() + ser_string(k).len()] == ':',
        parse_bool(s, pos + sep_text(first, p, d).len() + ser_string(k).len() + 1) == Some(
            (b, pos + member_bool(first, k, b, p, d).len()),
        ),
        pos + sep_text(first, p, d).len() < pos + sep_text(first, p, d).len() + ser_string(k).len()
            < pos + sep_text(first, p, d).len() + ser_string(k).len() + 1 < pos + member_bool(
            first,
            k,
            b,
            p,
            d,
        ).len(),
{
    reveal(member_bool);
    let sep = sep_text(first, p, d);
    let ks = pos + sep.len();
    let entry = chunk_entry(pos, first);
    assert(member_bool(first, k, b, p, d) =~= sep + (key_part(k, p) + ser_bool(b)));
    lemma_subrange_cat(s, pos, sep, key_part(k, p) + ser_bool(b));
    if !first {
        assert(sep =~= seq![','] + open_sep(p, d + 1));
        lemma_subrange_cat(s, pos, seq![','], open_sep(p, d + 1));
        lemma_char_at(s, pos, seq![','], 0);
        lemma_skip_ws_stops(s, pos, pos);
        lemma_open_sep_ws(p, d + 1);
        assert forall|x: int| pos + 1 <= x < ks implies is_ws(s[x]) by {
            lemma_char_at(s, pos + 1, open_sep(p, d + 1), x - (pos + 1));
            assert(is_ws(open_sep(p, d + 1)[x - (pos + 1)]));
        }
        lemma_member_bool(s, entry, ks, k, p, b);
    } else {
        lemma_open_sep_ws(p, d + 1);
        assert forall|x: int| pos <= x < ks implies is_ws(s[x]) by {
            lemma_char_at(s, pos, open_sep(p, d + 1), x - pos);
            assert(is_ws(open_sep(p, d + 1)[x - pos]));
        }
        lemma_member_bool(s, entry, ks, k, p, b);
    }
    lemma_skip_ws_stops(s, ks, ks);
    assert(parse_string(s, ks) == parse_string(s, entry));
    assert(ser_string(k).len() >= 2);
}

/// Same for an integer member; the character after the chunk must not extend
/// the number.
pub proof fn lemma_chunk_i64(
    s: Seq<char>,
    pos: int,
    first: bool,
    k: Seq<char>,
    x: int,
    p: bool,
    d: nat,
)
    requires
        i64::MIN <= x <= i64::MAX,
        0 <= pos,
        pos + member_i64(first, k, x, p, d).len() <= s.len(),
        s.subrange(pos, pos + member_i64(first, k, x, p, d).len()) == member_i64(first, k, x, p, d),
        num_stops(s, pos + member_i64(first, k, x, p, d).len()),
    ensures
        !first ==> skip_ws(s, pos) == pos && s[pos] == ',',
        skip_ws(s, chunk_entry(pos, first)) == pos + sep_text(first, p, d).len(),
        s[pos + sep_text(first, p, d).len()] == '"',
        parse_string(s, pos + sep_text(first, p, d).len()) == Some(
            (k, pos + sep_text(first, p, d).len() + ser_string(k).len()),
        ),
        skip_ws(s, pos + sep_text(first, p, d).len() + ser_string(k).len()) == pos + sep_text(
            first,
            p,
            d,
        ).len() + ser_string(k).len(),
        pos + sep_text(first, p, d).len() + ser_string(k).len() < s.len(),
        s[pos + sep_text(first, p, d).len() + ser_string(k).len()] == ':',
        parse_i64(s, pos + sep_text(first, p, d).len() + ser_string(k).len() + 1) == Some(
            (x, pos + member_i64(first, k, x, p, d).len()),
        ),
        parse_usize(s, pos + sep_text(first, p, d).len() + ser_string(k).len() + 1) == (if 0 <= x
            <= usize::MAX {
            Some((x, pos + member_i64(first, k, x, p, d).len()))
        } else {
            None::<(int, int)>
        }),
        pos + sep_text(first, p, d).len() < pos + sep_text(first, p, d).len() + ser_string(k).len()
            < pos + sep_text(first, p, d).len() + ser_string(k).len() + 1 < pos + member_i64(
            first,
            k,
            x,
            p,
            d,
        ).len(),
{
    reveal(member_i64);
    let sep = sep_text(first, p, d);
    let ks = pos + sep.len();
    let entry = chunk_entry(pos, first);
    assert(member_i64(first, k, x, p, d) =~= sep + (key_part(k, p) + ser_i64(x)));
    lemma_subrange_cat(s, pos, sep, key_part(k, p) + ser_i64(x));
    if !first {
        assert(sep =~= seq![','] + open_sep(p, d + 1));
        lemma_subrange_cat(s, pos, seq![','], open_sep(p, d + 1));
        lemma_char_at(s, pos, seq![','], 0);
        lemma_skip_ws_stops(s, pos, pos);
        lemma_open_sep_ws(p, d + 1);
        assert forall|y: int| pos + 1 <= y < ks implies is_ws(s[y]) by {
            lemma_char_at(s, pos + 1, open_sep(p, d + 1), y - (pos + 1));
            assert(is_ws(open_sep(p, d + 1)[y - (pos + 1)]));
        }
        lemma_member_i64(s, entry, ks, k, p, x);
        lemma_member_usize_cond(s, entry, ks, k, p, x);
    } else {
        lemma_open_sep_ws(p, d + 1);
        assert forall|y: int| pos <= y < ks implies is_ws(s[y]) by {
            lemma_char_at(s, pos, open_sep(p, d + 1), y - pos);
            assert(is_ws(open_sep(p, d + 1)[y - pos]));
        }
        lemma_member_i64(s, entry, ks, k, p, x);
        lemma_member_usize_cond(s, entry, ks, k, p, x);
    }
    lemma_skip_ws_stops(s, ks, ks);
    assert(parse_string(s, ks) == parse_string(s, entry));
    assert(ser_string(k).len() >= 2);
    assert(ser_i64(x).len() >= 1) by {
        if x < 0 {
            lemma_dec_u_digits((-x) as nat);
        } else {
            lemma_dec_u_digits(x as nat);
        }
    }
}

/// `parse_usize` on a serialized integer member, for values in range.
proof fn lemma_member_usize_cond(s: Seq<char>, i: int, m: int, k: Seq<char>, p: bool, x: int)
    requires
        i64::MIN <= x <= i64::MAX,
        0 <= i <= m,
        m + key_part(k, p).len() + ser_i64(x).len() <= s.len(),
        forall|y: int| i <= y < m ==> is_ws(s[y]),
        s.subrange(m, m + key_part(k, p).len() + ser_i64(x).len()) == key_part(k, p) + ser_i64(x),
        num_stops(s, m + key_part(k, p).len() + ser_i64(x).len()),
    ensures
        parse_usize(s, m + ser_string(k).len() + 1) == (if 0 <= x <= usize::MAX {
            Some((x, m + key_part(k, p).len() + ser_i64(x).len()))
        } else {
            None::<(int, int)>
        }),
{
    lemma_subrange_cat(s, m, key_part(k, p), ser_i64(x));
    lemma_member_head(s, i, m, k, p);
    let q = m + ser_string(k).len();
    let vm = m + key_part(k, p).len();
    lemma_parse_i64_ser(x, s, q + 1, vm);
    if 0 <= x <= usize::MAX {
        lemma_parse_usize_ser(x, s, q + 1, vm);
    } else if 0 <= x {
        lemma_dec_u_digits(x as nat);
        assert(s.subrange(vm, vm + ser_i64(x).len()) == dec_u(x as nat));
        lemma_char_at(s, vm, dec_u(x as nat), 0);
        assert(is_digit(s[vm]));
        lemma_skip_ws_stops(s, q + 1, vm);
    } else {
        lemma_dec_u_digits((-x) as nat);
        lemma_subrange_cat(s, vm, seq!['-'], dec_u((-x) as nat));
        lemma_char_at(s, vm, seq!['-'], 0);
        assert(s[vm] == '-');
        assert forall|y: int| q + 1 <= y < vm implies is_ws(s[y]) by {
        }
        lemma_skip_ws_stops(s, q + 1, vm);
    }
}

} // verus!
