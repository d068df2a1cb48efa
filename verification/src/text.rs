//! Character-level primitives over the lines of a recording: character
//! classes and maximal runs, literal and substring search, the integer
//! syntax of `i32::from_str_radix(_, 16)`, the lowercase hexadecimal form
//! that `{:x}` prints, and the float syntax that `str::parse::<f32>` and
//! `str::parse::<f64>` accept.

use vstd::prelude::*;

verus! {

// ---------------------------------------------------------------------------
// Character classes and maximal runs
// ---------------------------------------------------------------------------

/// The character classes that the recording's line grammar is written in.
#[derive(Clone, Copy, PartialEq, Eq, Debug)]
pub enum CharClass {
    /// `[0-9a-f]`
    LowerHexDigit,
    /// `[0-9.-]`
    SignedDecimal,
    /// `[0-9.|-]`
    TransformField,
    /// `[0-9.]`
    UnsignedDecimal,
    /// `[^,]`
    NotComma,
    /// `[0-9]`
    Digit,
}

pub open spec fn is_digit(c: char) -> bool {
    '0' <= c && c <= '9'
}

pub open spec fn in_class(cls: CharClass, c: char) -> bool {
    match cls {
        CharClass::LowerHexDigit => is_digit(c) || ('a' <= c && c <= 'f'),
        CharClass::SignedDecimal => is_digit(c) || c == '.' || c == '-',
        CharClass::TransformField => is_digit(c) || c == '.' || c == '|' || c == '-',
        CharClass::UnsignedDecimal => is_digit(c) || c == '.',
        CharClass::NotComma => c != ',',
        CharClass::Digit => is_digit(c),
    }
}

pub fn class_contains(cls: CharClass, c: char) -> (b: bool)
    ensures
        b == in_class(cls, c),
{
    match cls {
        CharClass::LowerHexDigit => ('0' <= c && c <= '9') || ('a' <= c && c <= 'f'),
        CharClass::SignedDecimal => ('0' <= c && c <= '9') || c == '.' || c == '-',
        CharClass::TransformField => ('0' <= c && c <= '9') || c == '.' || c == '|' || c == '-',
        CharClass::UnsignedDecimal => ('0' <= c && c <= '9') || c == '.',
        CharClass::NotComma => c != ',',
        CharClass::Digit => '0' <= c && c <= '9',
    }
}

/// The end of the longest run of characters of class `cls` that starts at
/// `i` (that is, the first index at or after `i` whose character is not in
/// the class, or the length of `s`).
pub open spec fn span(s: Seq<char>, i: int, cls: CharClass) -> int
    decreases s.len() - i,
{
    if 0 <= i < s.len() && in_class(cls, s[i]) {
        span(s, i + 1, cls)
    } else {
        i
    }
}

pub proof fn lemma_span(s: Seq<char>, i: int, cls: CharClass)
    requires
        0 <= i <= s.len(),
    ensures
        i <= span(s, i, cls) <= s.len(),
        forall|k: int| i <= k < span(s, i, cls) ==> in_class(cls, #[trigger] s[k]),
        span(s, i, cls) < s.len() ==> !in_class(cls, s[span(s, i, cls)]),
    decreases s.len() - i,
{
    if i < s.len() && in_class(cls, s[i]) {
        lemma_span(s, i + 1, cls);
    }
}

/// Finds the end of the run of class `cls` that starts at `i`.
pub fn scan(s: &Vec<char>, i: usize, cls: CharClass) -> (j: usize)
    requires
        i <= s@.len(),
    ensures
        j == span(s@, i as int, cls),
        i <= j <= s@.len(),
{
    proof {
        lemma_span(s@, i as int, cls);
    }
    let mut j = i;
    while j < s.len() && class_contains(cls, s[j])
        invariant
            i <= j <= s@.len(),
            span(s@, j as int, cls) == span(s@, i as int, cls),
        decreases s@.len() - j,
    {
        j = j + 1;
    }
    j
}

// ---------------------------------------------------------------------------
// Literals and substrings
// ---------------------------------------------------------------------------

/// `lit` occurs in `s` at index `i`.
pub open spec fn has_at(s: Seq<char>, i: int, lit: Seq<char>) -> bool {
    0 <= i && i + lit.len() <= s.len() && s.subrange(i, i + lit.len()) == lit
}

/// `p` occurs somewhere in `s` (what `str::contains` answers for a string
/// pattern).
pub open spec fn contains_seq(s: Seq<char>, p: Seq<char>) -> bool {
    exists|i: int| 0 <= i <= s.len() - p.len() && #[trigger] s.subrange(i, i + p.len()) == p
}

pub fn matches_at(s: &Vec<char>, i: usize, lit: &[char]) -> (b: bool)
    ensures
        b == has_at(s@, i as int, lit@),
{
    let n = s.len();
    if i > n || lit.len() > n - i {
        return false;
    }
    let mut k: usize = 0;
    while k < lit.len()
        invariant
            n == s@.len(),
            i + lit@.len() <= s@.len(),
            k <= lit@.len(),
            forall|m: int| 0 <= m < k ==> s@[i + m] == lit@[m],
        decreases lit@.len() - k,
    {
        assert(i + k < s@.len());
        if s[i + k] != lit[k] {
            assert(s@.subrange(i as int, i + lit@.len())[k as int] != lit@[k as int]);
            return false;
        }
        k = k + 1;
    }
    assert(s@.subrange(i as int, i + lit@.len()) =~= lit@);
    true
}

pub fn contains_chars(s: &Vec<char>, p: &[char]) -> (b: bool)
    ensures
        b == contains_seq(s@, p@),
{
    if p.len() > s.len() {
        return false;
    }
    if p.len() == 0 {
        assert(s@.subrange(0int, 0int + p@.len()) =~= p@);
        return true;
    }
    let end = s.len() - p.len() + 1;
    let mut i: usize = 0;
    while i < end
        invariant
            end == s@.len() - p@.len() + 1,
            i <= end,
            forall|j: int| 0 <= j < i ==> #[trigger] s@.subrange(j, j + p@.len()) != p@,
        decreases end - i,
    {
        if matches_at(s, i, p) {
            return true;
        }
        i = i + 1;
    }
    false
}

/// Whether `p` occurs in `s`, for strings held as `String`s.
pub fn string_contains(s: &String, p: &String) -> (b: bool)
    ensures
        b == contains_seq(s@, p@),
{
    let sc = chars_of(s.as_str());
    let pc = chars_of(p.as_str());
    contains_chars(&sc, pc.as_slice())
}

/// Copies the characters of `s` into a vector, in order.
pub fn chars_of(s: &str) -> (v: Vec<char>)
    ensures
        v@ == s@,
{
    let mut v: Vec<char> = Vec::new();
    for c in it: s.chars()
        invariant
            v@ == it.seq().take(it.index() as int),
    {
        v.push(c);
    }
    v
}

/// Copies the characters `s[lo..hi]` into a new vector.
pub fn copy_range(s: &Vec<char>, lo: usize, hi: usize) -> (v: Vec<char>)
    requires
        lo <= hi <= s@.len(),
    ensures
        v@ == s@.subrange(lo as int, hi as int),
{
    let mut v: Vec<char> = Vec::new();
    let mut k = lo;
    while k < hi
        invariant
            lo <= k <= hi <= s@.len(),
            v@ == s@.subrange(lo as int, k as int),
        decreases hi - k,
    {
        v.push(s[k]);
        k = k + 1;
        assert(v@ =~= s@.subrange(lo as int, k as int));
    }
    v
}

// ---------------------------------------------------------------------------
// Hexadecimal integers
// ---------------------------------------------------------------------------

/// A digit of radix 16 as `from_str_radix` reads it: `0-9`, `a-f`, `A-F`.
pub open spec fn is_hex_digit(c: char) -> bool {
    is_digit(c) || ('a' <= c && c <= 'f') || ('A' <= c && c <= 'F')
}

pub open spec fn hex_digit_value(c: char) -> int {
    if is_digit(c) {
        c as int - '0' as int
    } else if 'a' <= c && c <= 'f' {
        c as int - 'a' as int + 10
    } else {
        c as int - 'A' as int + 10
    }
}

/// The value of a string of hexadecimal digits, most significant first.
pub open spec fn hex_value(s: Seq<char>) -> int
    decreases s.len(),
{
    if s.len() == 0 {
        0
    } else {
        hex_value(s.drop_last()) * 16 + hex_digit_value(s.last())
    }
}

/// Every character of `s` is a hexadecimal digit.
pub open spec fn all_hex_digits(s: Seq<char>) -> bool {
    forall|k: int| 0 <= k < s.len() ==> is_hex_digit(#[trigger] s[k])
}

/// The digits of a string that may begin with a `+` or `-` sign.
pub open spec fn unsigned_part(s: Seq<char>) -> Seq<char> {
    if s.len() > 0 && (s[0] == '+' || s[0] == '-') {
        s.drop_first()
    } else {
        s
    }
}

/// What `i32::from_str_radix(s, 16)` returns: an optional `+` or `-`, then
/// at least one hexadecimal digit and nothing else, whose signed value fits
/// in an `i32`; `None` for every other string.
pub open spec fn parse_hex_i32(s: Seq<char>) -> Option<i32> {
    let digits = unsigned_part(s);
    let value = if s.len() > 0 && s[0] == '-' {
        -hex_value(digits)
    } else {
        hex_value(digits)
    };
    if digits.len() > 0 && all_hex_digits(digits) && i32::MIN <= value <= i32::MAX {
        Some(value as i32)
    } else {
        None
    }
}

pub proof fn lemma_hex_value_nonneg(s: Seq<char>)
    requires
        forall|k: int| 0 <= k < s.len() ==> is_hex_digit(#[trigger] s[k]),
    ensures
        hex_value(s) >= 0,
    decreases s.len(),
{
    if s.len() > 0 {
        lemma_hex_value_nonneg(s.drop_last());
    }
}

fn hex_digit_of(c: char) -> (d: u64)
    requires
        is_hex_digit(c),
    ensures
        d == hex_digit_value(c),
        d < 16,
{
    if '0' <= c && c <= '9' {
        (c as u64) - ('0' as u64)
    } else if 'a' <= c && c <= 'f' {
        (c as u64) - ('a' as u64) + 10
    } else {
        (c as u64) - ('A' as u64) + 10
    }
}

/// Beyond this bound no magnitude fits in an `i32`.
pub open spec fn hex_cap() -> int {
    0x1_0000_0000
}

pub open spec fn capped(v: int) -> int {
    if v < hex_cap() {
        v
    } else {
        hex_cap()
    }
}

/// The magnitude of `s[lo..hi]`, capped at `hex_cap()`; `None` if a
/// character of the range is not a hexadecimal digit.
fn capped_hex_value(s: &Vec<char>, lo: usize, hi: usize) -> (r: Option<u64>)
    requires
        lo <= hi <= s@.len(),
    ensures
        match r {
            Some(v) => (forall|k: int| lo <= k < hi ==> is_hex_digit(#[trigger] s@[k])) && v
                == capped(hex_value(s@.subrange(lo as int, hi as int))),
            None => exists|k: int| lo <= k < hi && !is_hex_digit(#[trigger] s@[k]),
        },
{
    let mut acc: u64 = 0;
    let mut k = lo;
    while k < hi
        invariant
            lo <= k <= hi <= s@.len(),
            forall|m: int| lo <= m < k ==> is_hex_digit(#[trigger] s@[m]),
            acc == capped(hex_value(s@.subrange(lo as int, k as int))),
        decreases hi - k,
    {
        let c = s[k];
        if !(('0' <= c && c <= '9') || ('a' <= c && c <= 'f') || ('A' <= c && c <= 'F')) {
            return None;
        }
        let d = hex_digit_of(c);
        let ghost prev = s@.subrange(lo as int, k as int);
        let ghost next = s@.subrange(lo as int, k + 1);
        proof {
            assert(next.drop_last() =~= prev);
            assert(next.last() == c);
            lemma_hex_value_nonneg(prev);
            let v = hex_value(prev);
            assert(hex_value(next) == v * 16 + d);
            if v >= hex_cap() {
                assert(v * 16 + d >= hex_cap()) by (nonlinear_arith)
                    requires
                        v >= hex_cap(),
                        d >= 0,
                ;
            }
        }
        if acc >= 0x1_0000_0000 {
            acc = 0x1_0000_0000;
        } else {
            let n = acc * 16 + d;
            acc = if n >= 0x1_0000_0000 {
                0x1_0000_0000
            } else {
                n
            };
        }
        k = k + 1;
    }
    Some(acc)
}

/// `i32::from_str_radix(s[lo..hi], 16)`.
pub fn parse_hex_i32_range(s: &Vec<char>, lo: usize, hi: usize) -> (r: Option<i32>)
    requires
        lo <= hi <= s@.len(),
    ensures
        r == parse_hex_i32(s@.subrange(lo as int, hi as int)),
{
    let ghost t = s@.subrange(lo as int, hi as int);
    if lo == hi {
        return None;
    }
    let first = s[lo];
    let negative = first == '-';
    let start = if first == '+' || first == '-' {
        lo + 1
    } else {
        lo
    };
    let ghost digits = s@.subrange(start as int, hi as int);
    proof {
        assert(t.len() > 0 && t[0] == first);
        if first == '+' || first == '-' {
            assert(t.drop_first() =~= digits);
        } else {
            assert(t =~= digits);
        }
        assert(unsigned_part(t) == digits);
    }
    if start == hi {
        return None;
    }
    match capped_hex_value(s, start, hi) {
        None => {
            proof {
                let k = choose|k: int| start <= k < hi && !is_hex_digit(#[trigger] s@[k]);
                assert(digits[k - start] == s@[k]);
                assert(!is_hex_digit(digits[k - start]));
            }
            None
        },
        Some(v) => {
            proof {
                assert forall|k: int| 0 <= k < digits.len() implies is_hex_digit(#[trigger] digits[k]) by {
                    assert(digits[k] == s@[start + k]);
                }
                lemma_hex_value_nonneg(digits);
                assert(digits.len() > 0);
            }
            if negative {
                if v <= 0x8000_0000 {
                    assert(v == hex_value(digits));
                    let r = (0 - (v as i64)) as i32;
                    assert(parse_hex_i32(t) == Some(r));
                    Some(r)
                } else {
                    assert(hex_value(digits) > 0x8000_0000);
                    assert(parse_hex_i32(t) is None);
                    None
                }
            } else {
                if v <= 0x7fff_ffff {
                    assert(v == hex_value(digits));
                    assert(parse_hex_i32(t) == Some(v as i32));
                    Some(v as i32)
                } else {
                    assert(parse_hex_i32(t) is None);
                    None
                }
            }
        },
    }
}

// ---------------------------------------------------------------------------
// The lowercase hexadecimal form printed by `{:x}`
// ---------------------------------------------------------------------------

pub open spec fn hex_char(d: int) -> char {
    if d < 10 {
        ('0' as int + d) as char
    } else {
        ('a' as int + d - 10) as char
    }
}

/// `format!("{:x}", n)` for a nonnegative `n`: lowercase digits, most
/// significant first, without leading zeros.
pub open spec fn lower_hex(n: nat) -> Seq<char>
    decreases n,
{
    if n < 16 {
        seq![hex_char(n as int)]
    } else {
        lower_hex(n / 16).push(hex_char((n % 16) as int))
    }
}

/// `format!("{:x}", k)` for an `i32`: negative values print as their
/// two's-complement bit pattern.
pub open spec fn format_hex_i32(k: i32) -> Seq<char> {
    if k >= 0 {
        lower_hex(k as nat)
    } else {
        lower_hex((k + 0x1_0000_0000) as nat)
    }
}

/// A string as `{:x}` prints one: at least one lowercase hexadecimal digit,
/// and no leading zero unless the string is `0`.
pub open spec fn is_canonical_lower_hex(s: Seq<char>) -> bool {
    &&& s.len() > 0
    &&& forall|k: int| 0 <= k < s.len() ==> in_class(CharClass::LowerHexDigit, #[trigger] s[k])
    &&& (s.len() == 1 || s[0] != '0')
}

proof fn lemma_hex_char(d: int)
    requires
        0 <= d < 16,
    ensures
        in_class(CharClass::LowerHexDigit, hex_char(d)),
        is_hex_digit(hex_char(d)),
        hex_digit_value(hex_char(d)) == d,
        (hex_char(d) == '0') == (d == 0),
{
}

proof fn lemma_hex_digit_char(c: char)
    requires
        in_class(CharClass::LowerHexDigit, c),
    ensures
        0 <= hex_digit_value(c) < 16,
        hex_char(hex_digit_value(c)) == c,
{
}

/// `{:x}` prints a canonical string whose value is the number printed.
pub proof fn lemma_lower_hex(n: nat)
    ensures
        is_canonical_lower_hex(lower_hex(n)),
        hex_value(lower_hex(n)) == n,
    decreases n,
{
    if n < 16 {
        lemma_hex_char(n as int);
        let s = lower_hex(n);
        assert(s.drop_last() =~= Seq::<char>::empty());
        assert(hex_value(Seq::<char>::empty()) == 0);
    } else {
        let q = n / 16;
        let r = n % 16;
        vstd::arithmetic::div_mod::lemma_fundamental_div_mod(n as int, 16);
        lemma_lower_hex(q);
        lemma_hex_char(r as int);
        let s = lower_hex(n);
        assert(s.drop_last() =~= lower_hex(q));
        assert(s[0] == lower_hex(q)[0]);
        assert(q >= 1);
        if lower_hex(q).len() == 1 {
            assert(lower_hex(q)[0] != '0') by {
                if lower_hex(q)[0] == '0' {
                    assert(lower_hex(q) =~= seq!['0']);
                    assert(hex_value(seq!['0']) == 0) by {
                        assert(seq!['0'].drop_last() =~= Seq::<char>::empty());
                        assert(hex_value(Seq::<char>::empty()) == 0);
                    }
                }
            }
        }
    }
}

/// A canonical string is what `{:x}` prints for its value.
pub proof fn lemma_canonical_is_lower_hex(s: Seq<char>)
    requires
        is_canonical_lower_hex(s),
    ensures
        hex_value(s) >= 0,
        lower_hex(hex_value(s) as nat) == s,
    decreases s.len(),
{
    assert forall|k: int| 0 <= k < s.len() implies is_hex_digit(#[trigger] s[k]) by {
        assert(in_class(CharClass::LowerHexDigit, s[k]));
    }
    lemma_hex_value_nonneg(s);
    let init = s.drop_last();
    let d = hex_digit_value(s.last());
    lemma_hex_digit_char(s.last());
    if s.len() == 1 {
        assert(init =~= Seq::<char>::empty());
        assert(hex_value(s) == d);
        assert(lower_hex(d as nat) =~= s);
    } else {
        assert(is_canonical_lower_hex(init)) by {
            assert(init[0] == s[0]);
            assert forall|k: int| 0 <= k < init.len() implies in_class(
                CharClass::LowerHexDigit,
                #[trigger] init[k],
            ) by {
                assert(init[k] == s[k]);
            }
        }
        lemma_canonical_is_lower_hex(init);
        let v = hex_value(init);
        assert(v >= 1) by {
            if v == 0 {
                lemma_lower_hex(0);
                assert(lower_hex(0) =~= seq![hex_char(0)]);
                assert(init[0] == '0');
            }
        }
        let n = v * 16 + d;
        assert(hex_value(s) == n);
        vstd::arithmetic::div_mod::lemma_fundamental_div_mod_converse(n, 16, v, d);
        assert(n >= 16);
        assert(lower_hex(n as nat) == lower_hex(v as nat).push(hex_char(d)));
        assert(lower_hex(n as nat) =~= s);
    }
}

/// The digits `{:x}` prints for a nonnegative `i32` read back, through
/// `i32::from_str_radix(_, 16)`, as that same number.
pub proof fn lemma_hex_round_trip(k: i32)
    requires
        k >= 0,
    ensures
        parse_hex_i32(format_hex_i32(k)) == Some(k),
{
    let s = lower_hex(k as nat);
    lemma_lower_hex(k as nat);
    assert(s[0] != '+' && s[0] != '-');
    assert forall|j: int| 0 <= j < s.len() implies is_hex_digit(#[trigger] s[j]) by {
        assert(in_class(CharClass::LowerHexDigit, s[j]));
    }
}

/// Recognizes `{:x}` output and returns its value; `None` if `s[lo..hi]`
/// is not canonical or its value is at least `2^32`.
pub fn canonical_hex_u32(s: &Vec<char>, lo: usize, hi: usize) -> (r: Option<u64>)
    requires
        lo <= hi <= s@.len(),
    ensures
        match r {
            Some(v) => is_canonical_lower_hex(s@.subrange(lo as int, hi as int)) && v
                == hex_value(s@.subrange(lo as int, hi as int)) && v < 0x1_0000_0000,
            None => !is_canonical_lower_hex(s@.subrange(lo as int, hi as int)) || hex_value(
                s@.subrange(lo as int, hi as int),
            ) >= 0x1_0000_0000,
        },
{
    let ghost t = s@.subrange(lo as int, hi as int);
    if lo == hi {
        return None;
    }
    if hi - lo > 1 && s[lo] == '0' {
        assert(t[0] == s@[lo as int]);
        return None;
    }
    let end = scan(s, lo, CharClass::LowerHexDigit);
    proof {
        lemma_span(s@, lo as int, CharClass::LowerHexDigit);
    }
    if end < hi {
        assert(t[end - lo] == s@[end as int]);
        return None;
    }
    proof {
        assert forall|k: int| 0 <= k < t.len() implies in_class(
            CharClass::LowerHexDigit,
            #[trigger] t[k],
        ) by {
            assert(t[k] == s@[lo + k]);
        }
        assert(t.len() == 1 || t[0] != '0') by {
            assert(t[0] == s@[lo as int]);
        }
    }
    match capped_hex_value(s, lo, hi) {
        None => {
            proof {
                let k = choose|k: int| lo <= k < hi && !is_hex_digit(#[trigger] s@[k]);
                assert(in_class(CharClass::LowerHexDigit, t[k - lo]));
                assert(t[k - lo] == s@[k]);
            }
            None
        },
        Some(v) => {
            if v < 0x1_0000_0000 {
                Some(v)
            } else {
                None
            }
        },
    }
}

// ---------------------------------------------------------------------------
// Float syntax
// ---------------------------------------------------------------------------

pub open spec fn is_sign(c: char) -> bool {
    c == '+' || c == '-'
}

pub open spec fn to_lower(c: char) -> char {
    if 'A' <= c && c <= 'Z' {
        (c as int + 32) as char
    } else {
        c
    }
}

/// `s` is `word` once lowercased (`word` itself being lowercase).
pub open spec fn equals_ignoring_case(s: Seq<char>, word: Seq<char>) -> bool {
    s.len() == word.len() && forall|k: int| 0 <= k < s.len() ==> to_lower(#[trigger] s[k]) == word[k]
}

pub open spec fn word_inf() -> Seq<char> {
    seq!['i', 'n', 'f']
}

pub open spec fn word_infinity() -> Seq<char> {
    seq!['i', 'n', 'f', 'i', 'n', 'i', 't', 'y']
}

pub open spec fn word_nan() -> Seq<char> {
    seq!['n', 'a', 'n']
}

/// The end of the mantissa of a decimal number: the integer digits, then,
/// if a `.` follows them, the fraction digits.
pub open spec fn mantissa_end(b: Seq<char>) -> int {
    let m = span(b, 0, CharClass::Digit);
    if m < b.len() && b[m] == '.' {
        span(b, m + 1, CharClass::Digit)
    } else {
        m
    }
}

/// How many digits the mantissa holds.
pub open spec fn mantissa_digits(b: Seq<char>) -> int {
    let m = span(b, 0, CharClass::Digit);
    if m < b.len() && b[m] == '.' {
        m + (span(b, m + 1, CharClass::Digit) - (m + 1))
    } else {
        m
    }
}

/// What may follow the mantissa: nothing, or `e`/`E`, an optional sign and
/// at least one digit that run to the end.
pub open spec fn exponent_ok(b: Seq<char>, e: int) -> bool {
    e == b.len() || ((b[e] == 'e' || b[e] == 'E') && {
        let d0 = if e + 1 < b.len() && is_sign(b[e + 1]) {
            e + 2
        } else {
            e + 1
        };
        let d1 = span(b, d0, CharClass::Digit);
        d1 > d0 && d1 == b.len()
    })
}

/// `Number ::= ( Digit+ | Digit+ '.' Digit* | Digit* '.' Digit+ ) Exp?`
pub open spec fn decimal_number(b: Seq<char>) -> bool {
    mantissa_digits(b) >= 1 && exponent_ok(b, mantissa_end(b))
}

/// The strings that `str::parse::<f32>()` and `str::parse::<f64>()` accept,
/// as std documents them:
/// `Float ::= Sign? ( 'inf' | 'infinity' | 'nan' | Number )`, letters in
/// any case.
pub open spec fn float_literal(s: Seq<char>) -> bool {
    let body = if s.len() > 0 && is_sign(s[0]) {
        s.drop_first()
    } else {
        s
    };
    equals_ignoring_case(body, word_inf()) || equals_ignoring_case(body, word_infinity())
        || equals_ignoring_case(body, word_nan()) || decimal_number(body)
}

fn lower_char(c: char) -> (r: char)
    ensures
        r == to_lower(c),
{
    if 'A' <= c && c <= 'Z' {
        ((c as u32) + 32) as u8 as char
    } else {
        c
    }
}

fn equals_word_ignoring_case(b: &Vec<char>, word: &[char]) -> (r: bool)
    ensures
        r == equals_ignoring_case(b@, word@),
{
    if b.len() != word.len() {
        return false;
    }
    let mut k: usize = 0;
    while k < b.len()
        invariant
            b@.len() == word@.len(),
            k <= b@.len(),
            forall|m: int| 0 <= m < k ==> to_lower(#[trigger] b@[m]) == word@[m],
        decreases b@.len() - k,
    {
        if lower_char(b[k]) != word[k] {
            return false;
        }
        k = k + 1;
    }
    true
}

fn is_decimal_number(b: &Vec<char>) -> (r: bool)
    ensures
        r == decimal_number(b@),
{
    let m = scan(b, 0, CharClass::Digit);
    let mut end = m;
    let mut digits = m;
    if m < b.len() && b[m] == '.' {
        let f = scan(b, m + 1, CharClass::Digit);
        end = f;
        digits = m + (f - (m + 1));
    }
    if digits < 1 {
        return false;
    }
    if end == b.len() {
        return true;
    }
    if !(b[end] == 'e' || b[end] == 'E') {
        return false;
    }
    let d0 = if end + 1 < b.len() && (b[end + 1] == '+' || b[end + 1] == '-') {
        end + 2
    } else {
        end + 1
    };
    let d1 = scan(b, d0, CharClass::Digit);
    d1 > d0 && d1 == b.len()
}

/// Whether `s` is a float literal that `str::parse::<f32>()` accepts.
pub fn is_float_literal(s: &Vec<char>) -> (r: bool)
    ensures
        r == float_literal(s@),
{
    let body = if s.len() > 0 && (s[0] == '+' || s[0] == '-') {
        copy_range(s, 1, s.len())
    } else {
        copy_range(s, 0, s.len())
    };
    proof {
        if s@.len() > 0 && is_sign(s@[0]) {
            assert(body@ =~= s@.drop_first());
        } else {
            assert(body@ =~= s@);
        }
    }
    equals_word_ignoring_case(&body, &['i', 'n', 'f'])
        || equals_word_ignoring_case(&body, &['i', 'n', 'f', 'i', 'n', 'i', 't', 'y'])
        || equals_word_ignoring_case(&body, &['n', 'a', 'n'])
        || is_decimal_number(&body)
}

} // verus!

verus! {

/// A lone decimal digit is a float literal.
pub proof fn lemma_single_digit_literal(d: char)
    requires
        is_digit(d),
    ensures
        float_literal(seq![d]),
{
    let b = seq![d];
    assert(span(b, 1, CharClass::Digit) == 1);
    assert(span(b, 0, CharClass::Digit) == 1);
    assert(mantissa_end(b) == 1);
    assert(mantissa_digits(b) == 1);
}

} // verus!
