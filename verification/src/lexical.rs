//! Character classes and literal shapes the rule grammar relies on: bare
//! words, quoted words, decimal number text and JSON string literals.
use vstd::prelude::*;
use vstd::string::*;
use crate::text::{chars_of, string_of};

verus! {

// ─────────────────────────────── outside calls ───────────────────────────────

/// What `char::is_alphanumeric` answers for a character (Unicode's
/// Alphabetic or Numeric property).
pub uninterp spec fn unicode_alphanumeric(c: char) -> bool;

/// `char::is_alphanumeric`: among ASCII characters exactly the letters and
/// digits are alphanumeric.
#[verifier::external_body]
pub(crate) fn is_alphanumeric(c: char) -> (r: bool)
    ensures
        r == unicode_alphanumeric(c),
        c <= '\u{7f}' ==> (r <==> ('a' <= c <= 'z' || 'A' <= c <= 'Z' || '0' <= c <= '9')),
{
    c.is_alphanumeric()
}

/// The JSON string literal `serde_json` writes for a text: quotes around it,
/// with `"`, `\` and control characters escaped.
pub uninterp spec fn json_string_literal(s: Seq<char>) -> Seq<char>;

/// `serde_json::to_string` on a `&str`: writing a string into a `Vec`
/// cannot fail, so the literal is always there.
#[verifier::external_body]
pub(crate) fn json_string(s: &str) -> (r: Option<String>)
    ensures
        r is Some,
        r matches Some(t) ==> t@ == json_string_literal(s@),
{
    serde_json::to_string(s).ok()
}

/// What `char::is_whitespace` answers for a character (Unicode's
/// White_Space property).
pub uninterp spec fn unicode_whitespace(c: char) -> bool;

/// `char::is_whitespace`: among ASCII characters exactly tab, line feed,
/// vertical tab, form feed, carriage return and space are white space.
#[verifier::external_body]
pub(crate) fn is_whitespace(c: char) -> (r: bool)
    ensures
        r == unicode_whitespace(c),
        c <= '\u{7f}' ==> (r <==> ('\t' <= c <= '\r' || c == ' ')),
{
    c.is_whitespace()
}

/// Position of the first character of `s` at or after `i` that is not whitespace.
pub open spec fn trim_start_at(s: Seq<char>, i: int) -> int
    decreases s.len() - i,
{
    if i >= s.len() || i < 0 {
        s.len() as int
    } else if unicode_whitespace(s[i]) {
        trim_start_at(s, i + 1)
    } else {
        i
    }
}

/// One past the last character of `s[..end]` that is not whitespace.
pub open spec fn trim_end_at(s: Seq<char>, end: int) -> int
    decreases end,
{
    if end <= 0 {
        0
    } else if unicode_whitespace(s[end - 1]) {
        trim_end_at(s, end - 1)
    } else {
        end
    }
}

/// `s` without leading and trailing whitespace (`str::trim`).
pub open spec fn trimmed(s: Seq<char>) -> Seq<char> {
    let a = trim_start_at(s, 0);
    let b = trim_end_at(s, s.len() as int);
    if a >= b {
        Seq::empty()
    } else {
        s.subrange(a, b)
    }
}

/// `str::trim`, as characters.
pub fn trim_chars(s: &Vec<char>) -> (r: Vec<char>)
    ensures
        r@ == trimmed(s@),
{
    let mut a: usize = 0;
    while a < s.len() && is_whitespace(s[a])
        invariant
            a <= s.len(),
            trim_start_at(s@, 0) == trim_start_at(s@, a as int),
        decreases s.len() - a,
    {
        a = a + 1;
    }
    let mut b: usize = s.len();
    while b > 0 && is_whitespace(s[b - 1])
        invariant
            b <= s.len(),
            trim_end_at(s@, s@.len() as int) == trim_end_at(s@, b as int),
        decreases b,
    {
        b = b - 1;
    }
    if a >= b {
        return Vec::new();
    }
    let mut r: Vec<char> = Vec::new();
    let mut i = a;
    while i < b
        invariant
            a <= i <= b,
            b <= s.len(),
            r@ == s@.subrange(a as int, i as int),
        decreases b - i,
    {
        r.push(s[i]);
        i = i + 1;
        assert(r@ =~= s@.subrange(a as int, i as int));
    }
    r
}

/// `str::trim` as a new string.
pub fn trim(s: &str) -> (r: String)
    ensures
        r@ == trimmed(s@),
{
    let cs = chars_of(s);
    string_of(&trim_chars(&cs))
}

// ─────────────────────────────── words ───────────────────────────────

pub open spec fn is_digit(c: char) -> bool {
    '0' <= c <= '9'
}

/// `c` is the ASCII letter `upper` in either case.
pub open spec fn letter(c: char, upper: char) -> bool {
    c == upper || c as u32 == upper as u32 + 32
}

/// `AND`, `OR` or `NOT`, in any ASCII case.
pub open spec fn is_keyword(s: Seq<char>) -> bool {
    ||| s.len() == 3 && letter(s[0], 'A') && letter(s[1], 'N') && letter(s[2], 'D')
    ||| s.len() == 2 && letter(s[0], 'O') && letter(s[1], 'R')
    ||| s.len() == 3 && letter(s[0], 'N') && letter(s[1], 'O') && letter(s[2], 'T')
}

pub open spec fn word_char(c: char) -> bool {
    unicode_alphanumeric(c) || c == '-' || c == '_' || c == '.' || c == '/' || c == '\''
        || c == '*' || c == '+'
}

/// A value the grammar reads without quotes: a non-empty run of word
/// characters that is not a keyword.
pub open spec fn is_bare(s: Seq<char>) -> bool {
    s.len() > 0 && !is_keyword(s) && forall|i: int| 0 <= i < s.len() ==> word_char(#[trigger] s[i])
}

/// How a value appears in rule text: bare when it can be, else a JSON string
/// literal (`""` if that could not be written).
pub open spec fn quoted(s: Seq<char>) -> Seq<char> {
    if is_bare(s) {
        s
    } else {
        json_string_literal(s)
    }
}

fn letter_exec(c: char, upper: char) -> (r: bool)
    requires
        'A' <= upper <= 'Z',
    ensures
        r == letter(c, upper),
{
    c == upper || (c as u32) == (upper as u32) + 32
}

fn keyword_exec(s: &Vec<char>) -> (r: bool)
    ensures
        r == is_keyword(s@),
{
    (s.len() == 3 && letter_exec(s[0], 'A') && letter_exec(s[1], 'N') && letter_exec(s[2], 'D'))
        || (s.len() == 2 && letter_exec(s[0], 'O') && letter_exec(s[1], 'R'))
        || (s.len() == 3 && letter_exec(s[0], 'N') && letter_exec(s[1], 'O') && letter_exec(
        s[2],
        'T',
    ))
}

pub fn bare_chars(s: &Vec<char>) -> (r: bool)
    ensures
        r == is_bare(s@),
{
    if s.len() == 0 || keyword_exec(s) {
        return false;
    }
    let mut i: usize = 0;
    while i < s.len()
        invariant
            i <= s.len(),
            forall|j: int| 0 <= j < i ==> word_char(#[trigger] s@[j]),
        decreases s.len() - i,
    {
        let c = s[i];
        if !(is_alphanumeric(c) || c == '-' || c == '_' || c == '.' || c == '/' || c == '\''
            || c == '*' || c == '+') {
            assert(!word_char(s@[i as int]));
            return false;
        }
        i = i + 1;
    }
    true
}

/// Whether the grammar reads `s` without quotes.
pub fn bare(s: &str) -> (r: bool)
    ensures
        r == is_bare(s@),
{
    let cs = chars_of(s);
    bare_chars(&cs)
}

/// `s` as it appears in rule text (see [`quoted`]).
pub fn quote(s: &str) -> (r: String)
    ensures
        r@ == quoted(s@),
{
    if bare(s) {
        String::from_str(s)
    } else {
        match json_string(s) {
            Some(t) => t,
            None => String::from_str("\"\""),
        }
    }
}

// ─────────────────────────────── decimal text ───────────────────────────────

/// Number of consecutive ASCII digits of `s` from `i`.
pub open spec fn digits_from(s: Seq<char>, i: int) -> nat
    decreases s.len() - i,
{
    if 0 <= i < s.len() && is_digit(s[i]) {
        1 + digits_from(s, i + 1)
    } else {
        0
    }
}

/// `s[i..]` is `e` or `E`, an optional sign, and at least one digit.
pub open spec fn exponent_at(s: Seq<char>, i: int) -> bool {
    &&& 0 <= i < s.len()
    &&& (s[i] == 'e' || s[i] == 'E')
    &&& {
        let j = if i + 1 < s.len() && (s[i + 1] == '+' || s[i + 1] == '-') { i + 2 } else { i + 1 };
        digits_from(s, j) >= 1 && j + digits_from(s, j) == s.len()
    }
}

/// `s[i..]` is digits, an optional point with digits (at least one digit in
/// all), then an optional exponent.
pub open spec fn decimal_at(s: Seq<char>, i: int) -> bool {
    let a = digits_from(s, i);
    let p = i + a;
    if p < s.len() && s[p] == '.' {
        let b = digits_from(s, p + 1);
        let q = p + 1 + b;
        a + b >= 1 && (q == s.len() || exponent_at(s, q))
    } else {
        a >= 1 && (p == s.len() || exponent_at(s, p))
    }
}

/// `s[i..]` spells `word` (lower-case ASCII letters) in any case.
pub open spec fn word_at(s: Seq<char>, i: int, word: Seq<char>) -> bool {
    s.len() - i == word.len() && forall|k: int|
        0 <= k < word.len() ==> #[trigger] s[i + k] == word[k] || s[i + k] as u32 + 32
            == word[k] as u32
}

/// Text that `str::parse::<f64>` accepts: an optional sign, then `inf`,
/// `infinity` or `nan` in any case, or a decimal number with an optional
/// exponent.
pub open spec fn is_float_text(s: Seq<char>) -> bool {
    let i = if s.len() > 0 && (s[0] == '+' || s[0] == '-') { 1int } else { 0int };
    ||| word_at(s, i, "inf"@)
    ||| word_at(s, i, "infinity"@)
    ||| word_at(s, i, "nan"@)
    ||| decimal_at(s, i)
}

fn digits_exec(s: &Vec<char>, i: usize) -> (r: usize)
    requires
        i <= s.len(),
    ensures
        r == digits_from(s@, i as int),
        i + r <= s.len(),
{
    let mut j = i;
    while j < s.len() && '0' <= s[j] && s[j] <= '9'
        invariant
            i <= j <= s.len(),
            digits_from(s@, i as int) == (j - i) + digits_from(s@, j as int),
        decreases s.len() - j,
    {
        j = j + 1;
    }
    j - i
}

fn exponent_exec(s: &Vec<char>, i: usize) -> (r: bool)
    requires
        i <= s.len(),
    ensures
        r == exponent_at(s@, i as int),
{
    if i >= s.len() || !(s[i] == 'e' || s[i] == 'E') {
        return false;
    }
    let j = if i + 1 < s.len() && (s[i + 1] == '+' || s[i + 1] == '-') { i + 2 } else { i + 1 };
    let d = digits_exec(s, j);
    d >= 1 && j + d == s.len()
}

fn word_exec(s: &Vec<char>, i: usize, word: &str) -> (r: bool)
    requires
        i <= s.len(),
        word@.len() < 16,
        forall|k: int| 0 <= k < word@.len() ==> 'a' <= #[trigger] word@[k] <= 'z',
    ensures
        r == word_at(s@, i as int, word@),
{
    let w = chars_of(word);
    if s.len() - i != w.len() {
        return false;
    }
    let mut k: usize = 0;
    while k < w.len()
        invariant
            w@ == word@,
            forall|m: int| 0 <= m < word@.len() ==> 'a' <= #[trigger] word@[m] <= 'z',
            s.len() - i == w.len(),
            k <= w.len(),
            forall|m: int|
                0 <= m < k ==> #[trigger] s@[i + m] == w@[m] || s@[i + m] as u32 + 32 == w@[m] as u32,
        decreases w.len() - k,
    {
        let c = s[i + k];
        if !(c == w[k] || (c as u32) == (w[k] as u32) - 32) {
            return false;
        }
        k = k + 1;
    }
    true
}

/// Whether `str::parse::<f64>` accepts the text (see [`is_float_text`]).
pub fn float_text(s: &Vec<char>) -> (r: bool)
    ensures
        r == is_float_text(s@),
{
    let i: usize = if s.len() > 0 && (s[0] == '+' || s[0] == '-') { 1 } else { 0 };
    proof {
        reveal_strlit("inf");
        reveal_strlit("infinity");
        reveal_strlit("nan");
    }
    if word_exec(s, i, "inf") || word_exec(s, i, "infinity") || word_exec(s, i, "nan") {
        return true;
    }
    let a = digits_exec(s, i);
    let p = i + a;
    if p < s.len() && s[p] == '.' {
        let b = digits_exec(s, p + 1);
        let q = p + 1 + b;
        a + b >= 1 && (q == s.len() || exponent_exec(s, q))
    } else {
        a >= 1 && (p == s.len() || exponent_exec(s, p))
    }
}

} // verus!
