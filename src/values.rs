use vstd::prelude::*;

use crate::text::{chars_of, same_text};

verus! {

/// The pattern that variable names must match.
pub const IDENTIFIER_PATTERN: &'static str = "^[a-zA-Z_][a-zA-Z0-9_]*$";

pub open spec fn is_ident_start(c: char) -> bool {
    ('a' <= c && c <= 'z') || ('A' <= c && c <= 'Z') || c == '_'
}

pub open spec fn is_ident_char(c: char) -> bool {
    is_ident_start(c) || ('0' <= c && c <= '9')
}

/// Whether `s` matches `^[A-Za-z_][A-Za-z0-9_]*$`: an ASCII letter or `_`, then ASCII letters,
/// digits and `_`.
pub open spec fn is_identifier(s: Seq<char>) -> bool {
    &&& s.len() > 0
    &&& is_ident_start(s[0])
    &&& forall|i: int| 1 <= i < s.len() ==> is_ident_char(#[trigger] s[i])
}

/// Relies on `regex::Regex::new` and `regex::Regex::is_match`: the pattern
/// `^[a-zA-Z_][a-zA-Z0-9_]*$` compiles, and matches exactly the whole texts made of an ASCII
/// letter or `_` followed by ASCII letters, digits and `_` (`$` without multi-line mode matches
/// only at the end of the text).
#[verifier::external_body]
fn pattern_matches(pattern: &str, s: &str) -> (r: bool)
    requires
        pattern@ == IDENTIFIER_PATTERN@,
    ensures
        r == is_identifier(s@),
{
    regex::Regex::new(pattern).unwrap().is_match(s)
}

/// Whether `s` is a valid name for a variable or a function.
pub fn is_valid_identifier(s: &str) -> (r: bool)
    ensures
        r == is_identifier(s@),
{
    pattern_matches(IDENTIFIER_PATTERN, s)
}

pub open spec fn is_digit(c: char) -> bool {
    '0' <= c && c <= '9'
}

/// The value of a string of decimal digits.
pub open spec fn digits_value(s: Seq<char>) -> int
    decreases s.len(),
{
    if s.len() == 0 {
        0
    } else {
        digits_value(s.drop_last()) * 10 + (s.last() as int - '0' as int)
    }
}

/// `s` without a leading `+` or `-`.
pub open spec fn unsigned_part(s: Seq<char>) -> Seq<char> {
    if s.len() > 0 && (s[0] == '+' || s[0] == '-') {
        s.drop_first()
    } else {
        s
    }
}

/// The signed 64-bit integer that `s` denotes: an optional sign, then at least one decimal digit,
/// with a value in range.
pub open spec fn parse_i64(s: Seq<char>) -> Option<i64> {
    let d = unsigned_part(s);
    let v = if s.len() > 0 && s[0] == '-' {
        -digits_value(d)
    } else {
        digits_value(d)
    };
    if d.len() == 0 || !(forall|i: int| 0 <= i < d.len() ==> is_digit(#[trigger] d[i])) {
        None
    } else if i64::MIN <= v <= i64::MAX {
        Some(v as i64)
    } else {
        None
    }
}

proof fn lemma_capped_step(v: int, d: int, cap: int)
    requires
        v >= 0,
        0 <= d <= 9,
        cap > 0,
    ensures
        (if v < cap { v } else { cap }) * 10 + d >= cap ==> v * 10 + d >= cap,
        (if v < cap { v } else { cap }) * 10 + d < cap ==> v * 10 + d == (if v < cap { v } else { cap }) * 10 + d,
{
    if v >= cap {
        assert(v * 10 >= cap * 10) by (nonlinear_arith)
            requires
                v >= cap,
        ;
    }
}

proof fn lemma_digits_value_nonneg(s: Seq<char>)
    requires
        forall|i: int| 0 <= i < s.len() ==> is_digit(#[trigger] s[i]),
    ensures
        digits_value(s) >= 0,
    decreases s.len(),
{
    if s.len() > 0 {
        lemma_digits_value_nonneg(s.drop_last());
    }
}

/// Reads a signed 64-bit integer, as `parse_i64` states.
pub fn parse_int_text(s: &str) -> (r: Option<i64>)
    ensures
        r == parse_i64(s@),
{
    let cs = chars_of(s);
    let ghost sv = cs@;
    let n = cs.len();
    let mut i: usize = 0;
    let negative = n > 0 && cs[0] == '-';
    if n > 0 && (cs[0] == '+' || cs[0] == '-') {
        i = 1;
    }
    let start = i;
    let ghost d = unsigned_part(sv);
    assert(d =~= sv.subrange(start as int, n as int));
    if start == n {
        return None;
    }
    let cap: u64 = 9223372036854775809;
    let mut acc: u64 = 0;
    while i < n
        invariant
            cs@ == sv,
            sv == s@,
            n == sv.len(),
            start <= i <= n,
            d == sv.subrange(start as int, n as int),
            d == unsigned_part(sv),
            negative == (sv.len() > 0 && sv[0] == '-'),
            forall|k: int| start <= k < i ==> is_digit(#[trigger] sv[k]),
            acc as int == (if digits_value(sv.subrange(start as int, i as int)) < cap {
                digits_value(sv.subrange(start as int, i as int))
            } else {
                cap as int
            }),
            cap == 9223372036854775809,
        decreases n - i,
    {
        let c = cs[i];
        if !('0' <= c && c <= '9') {
            assert(!is_digit(d[i - start]));
            return None;
        }
        let dig = (c as u32 - '0' as u32) as u64;
        let ghost prev = sv.subrange(start as int, i as int);
        let ghost next = sv.subrange(start as int, i + 1);
        proof {
            assert(next.drop_last() =~= prev);
            lemma_digits_value_nonneg(prev);
            lemma_capped_step(digits_value(prev), dig as int, cap as int);
        }
        if acc >= (cap - dig) / 10 + 1 {
            acc = cap;
        } else {
            acc = acc * 10 + dig;
        }
        i = i + 1;
    }
    assert(sv.subrange(start as int, n as int) == d);
    proof {
        lemma_digits_value_nonneg(d);
    }
    if negative {
        if acc <= 9223372036854775808 {
            if acc == 9223372036854775808 {
                Some(i64::MIN)
            } else {
                Some(-(acc as i64))
            }
        } else {
            None
        }
    } else {
        if acc <= 9223372036854775807 {
            Some(acc as i64)
        } else {
            None
        }
    }
}

/// Whether `s` is `word` with any of its letters in upper case; `word` is in lower case.
pub open spec fn matches_word(s: Seq<char>, word: Seq<char>) -> bool {
    &&& s.len() == word.len()
    &&& forall|i: int| 0 <= i < s.len() ==> #[trigger] s[i] == word[i] || s[i] == upper_of(word[i])
}

/// The upper-case form of the lower-case letters of `inf`, `infinity` and `nan`.
pub open spec fn upper_of(c: char) -> char {
    if c == 'i' {
        'I'
    } else if c == 'n' {
        'N'
    } else if c == 'f' {
        'F'
    } else if c == 't' {
        'T'
    } else if c == 'y' {
        'Y'
    } else if c == 'a' {
        'A'
    } else {
        c
    }
}

/// The first position at or after `k` that holds `e` or `E`; the length of `s` if none does.
pub open spec fn exponent_mark(s: Seq<char>, k: int) -> int
    decreases s.len() - k,
{
    if k < 0 || k >= s.len() {
        s.len() as int
    } else if s[k] == 'e' || s[k] == 'E' {
        k
    } else {
        exponent_mark(s, k + 1)
    }
}

/// Digits with at most one `.` among them, and at least one digit.
pub open spec fn is_mantissa(m: Seq<char>) -> bool {
    &&& forall|i: int| 0 <= i < m.len() ==> is_digit(#[trigger] m[i]) || m[i] == '.'
    &&& forall|i: int, j: int| 0 <= i < m.len() && 0 <= j < m.len() && m[i] == '.' && m[j] == '.' ==> i == j
    &&& exists|i: int| 0 <= i < m.len() && is_digit(#[trigger] m[i])
}

/// An optional sign, then at least one digit.
pub open spec fn is_exponent(x: Seq<char>) -> bool {
    let d = unsigned_part(x);
    d.len() > 0 && forall|i: int| 0 <= i < d.len() ==> is_digit(#[trigger] d[i])
}

/// Whether `s` is the text of a binary64 float: an optional sign, then `inf`, `infinity` or
/// `nan` in any case, or a decimal number with an optional exponent.
pub open spec fn is_float_text(s: Seq<char>) -> bool {
    let b = unsigned_part(s);
    let e = exponent_mark(b, 0);
    ||| matches_word(b, "inf"@)
    ||| matches_word(b, "infinity"@)
    ||| matches_word(b, "nan"@)
    ||| (is_mantissa(b.subrange(0, e)) && (e == b.len() || is_exponent(b.subrange(e + 1, b.len() as int))))
}

/// The characters `v[from..to]`.
fn sub_vec(v: &Vec<char>, from: usize, to: usize) -> (r: Vec<char>)
    requires
        from <= to <= v.len(),
    ensures
        r@ == v@.subrange(from as int, to as int),
{
    let mut r: Vec<char> = Vec::new();
    let mut k = from;
    while k < to
        invariant
            from <= k <= to <= v.len(),
            r@ == v@.subrange(from as int, k as int),
        decreases to - k,
    {
        r.push(v[k]);
        k = k + 1;
        assert(r@ =~= v@.subrange(from as int, k as int));
    }
    r
}

/// Whether `v` is `word` with any of its letters in upper case.
fn word_is(v: &Vec<char>, word: &str) -> (r: bool)
    ensures
        r == matches_word(v@, word@),
{
    let w = chars_of(word);
    if v.len() != w.len() {
        return false;
    }
    let mut i: usize = 0;
    while i < v.len()
        invariant
            v.len() == w.len(),
            w@ == word@,
            i <= v.len(),
            forall|k: int| 0 <= k < i ==> #[trigger] v@[k] == w@[k] || v@[k] == upper_of(w@[k]),
        decreases v.len() - i,
    {
        let c = w[i];
        let u = if c == 'i' {
            'I'
        } else if c == 'n' {
            'N'
        } else if c == 'f' {
            'F'
        } else if c == 't' {
            'T'
        } else if c == 'y' {
            'Y'
        } else if c == 'a' {
            'A'
        } else {
            c
        };
        if v[i] != c && v[i] != u {
            return false;
        }
        i = i + 1;
    }
    true
}

/// The first position of `e` or `E` in `v`, or its length.
fn find_exponent(v: &Vec<char>) -> (r: usize)
    ensures
        r == exponent_mark(v@, 0),
        r <= v.len(),
{
    let mut k: usize = 0;
    while k < v.len() && v[k] != 'e' && v[k] != 'E'
        invariant
            k <= v.len(),
            exponent_mark(v@, 0) == exponent_mark(v@, k as int),
        decreases v.len() - k,
    {
        k = k + 1;
    }
    k
}

/// Whether `v` is digits with at most one `.` among them and at least one digit.
fn mantissa_ok(v: &Vec<char>) -> (r: bool)
    ensures
        r == is_mantissa(v@),
{
    let mut dot: Option<usize> = None;
    let mut digit: Option<usize> = None;
    let mut k: usize = 0;
    while k < v.len()
        invariant
            k <= v.len(),
            forall|i: int| 0 <= i < k ==> is_digit(#[trigger] v@[i]) || v@[i] == '.',
            match dot {
                None => forall|i: int| 0 <= i < k ==> v@[i] != '.',
                Some(d) => d < k && v@[d as int] == '.' && forall|i: int| 0 <= i < k && v@[i] == '.' ==> i == d,
            },
            match digit {
                None => forall|i: int| 0 <= i < k ==> !is_digit(#[trigger] v@[i]),
                Some(d) => d < k && is_digit(v@[d as int]),
            },
        decreases v.len() - k,
    {
        let c = v[k];
        if '0' <= c && c <= '9' {
            digit = Some(k);
        } else if c == '.' {
            if let Some(d) = dot {
                assert(v@[d as int] == '.' && v@[k as int] == '.');
                return false;
            }
            dot = Some(k);
        } else {
            assert(!(is_digit(v@[k as int]) || v@[k as int] == '.'));
            return false;
        }
        k = k + 1;
    }
    match digit {
        Some(d) => {
            assert(is_digit(v@[d as int]));
            true
        },
        None => false,
    }
}

/// Whether `v` is an optional sign followed by at least one digit.
fn exponent_ok(v: &Vec<char>) -> (r: bool)
    ensures
        r == is_exponent(v@),
{
    let n = v.len();
    let start: usize = if n > 0 && (v[0] == '+' || v[0] == '-') {
        1
    } else {
        0
    };
    let ghost d = unsigned_part(v@);
    assert(d =~= v@.subrange(start as int, n as int));
    if start == n {
        return false;
    }
    let mut k = start;
    while k < n
        invariant
            n == v.len(),
            start <= k <= n,
            d == v@.subrange(start as int, n as int),
            d == unsigned_part(v@),
            forall|i: int| start <= i < k ==> is_digit(#[trigger] v@[i]),
        decreases n - k,
    {
        if !('0' <= v[k] && v[k] <= '9') {
            assert(!is_digit(d[k - start]));
            return false;
        }
        k = k + 1;
    }
    assert forall|i: int| 0 <= i < d.len() implies is_digit(#[trigger] d[i]) by {
        assert(d[i] == v@[i + start]);
    }
    true
}

/// Whether `s` is the text of a binary64 float, as `is_float_text` states.
pub fn is_float_literal(s: &str) -> (r: bool)
    ensures
        r == is_float_text(s@),
{
    let cs = chars_of(s);
    let n = cs.len();
    let start: usize = if n > 0 && (cs[0] == '+' || cs[0] == '-') {
        1
    } else {
        0
    };
    let b = sub_vec(&cs, start, n);
    assert(b@ =~= unsigned_part(s@));
    if word_is(&b, "inf") || word_is(&b, "infinity") || word_is(&b, "nan") {
        return true;
    }
    let e = find_exponent(&b);
    let m = sub_vec(&b, 0, e);
    if !mantissa_ok(&m) {
        return false;
    }
    if e == b.len() {
        return true;
    }
    let x = sub_vec(&b, e + 1, b.len());
    exponent_ok(&x)
}

/// Reads a boolean: `1` or `true`, `0` or `false`.
pub open spec fn parse_bool(s: Seq<char>) -> Option<bool> {
    if s == "1"@ || s == "true"@ {
        Some(true)
    } else if s == "0"@ || s == "false"@ {
        Some(false)
    } else {
        None
    }
}

/// Reads a boolean, as `parse_bool` states.
pub fn parse_bool_text(s: &str) -> (r: Option<bool>)
    ensures
        r == parse_bool(s@),
{
    if same_text(s, "1") || same_text(s, "true") {
        Some(true)
    } else if same_text(s, "0") || same_text(s, "false") {
        Some(false)
    } else {
        None
    }
}

} // verus!
