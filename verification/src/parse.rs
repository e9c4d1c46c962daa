//! Which texts read as an unsigned integer, a floating-point number or a boolean.
//!
//! These are the grammars that Rust documents for `u64::from_str`, `f64::from_str` and
//! `bool::from_str`; the functions here decide whether a text is in them.
use vstd::prelude::*;

verus! {

pub open spec fn is_digit(c: char) -> bool {
    '0' <= c <= '9'
}

/// All characters are decimal digits, and there is at least one.
pub open spec fn all_digits(s: Seq<char>) -> bool {
    s.len() > 0 && forall|i: int| 0 <= i < s.len() ==> is_digit(#[trigger] s[i])
}

/// The value of a string of decimal digits.
pub open spec fn digits_value(s: Seq<char>) -> nat
    decreases s.len(),
{
    if s.len() == 0 {
        0
    } else {
        digits_value(s.drop_last()) * 10 + ((s.last() as nat) - ('0' as nat)) as nat
    }
}

/// The text reads as a `u64`: an optional `+`, then decimal digits whose value fits.
pub open spec fn parses_as_u64(s: Seq<char>) -> bool {
    let d = if s.len() > 0 && s[0] == '+' { s.drop_first() } else { s };
    all_digits(d) && digits_value(d) <= u64::MAX
}

/// The text reads as a `bool`: exactly `true` or `false`.
pub open spec fn parses_as_bool(s: Seq<char>) -> bool {
    s == seq!['t', 'r', 'u', 'e'] || s == seq!['f', 'a', 'l', 's', 'e']
}

/// A character, lower-cased when it is an ASCII capital letter.
pub open spec fn ascii_lower(c: char) -> char {
    if 'A' <= c <= 'Z' {
        ((c as u32) + 32) as char
    } else {
        c
    }
}

/// Zero or more decimal digits.
pub open spec fn digits_or_empty(s: Seq<char>) -> bool {
    forall|i: int| 0 <= i < s.len() ==> is_digit(#[trigger] s[i])
}

/// `Number ::= ( Digit+ | Digit+ '.' Digit* | Digit* '.' Digit+ ) Exp?` with
/// `Exp ::= 'e' Sign? Digit+`, on a lower-cased text.
pub open spec fn is_decimal_number(s: Seq<char>) -> bool {
    exists|m: int|
        0 <= m <= s.len() && is_mantissa(s.subrange(0, m)) && (m == s.len() || is_exponent(
            s.subrange(m, s.len() as int),
        ))
}

/// `Digit+ | Digit+ '.' Digit* | Digit* '.' Digit+`
pub open spec fn is_mantissa(s: Seq<char>) -> bool {
    ||| all_digits(s)
    ||| exists|d: int|
        0 <= d < s.len() && s[d] == '.' && digits_or_empty(s.subrange(0, d)) && digits_or_empty(
            s.subrange(d + 1, s.len() as int),
        ) && (d > 0 || d + 1 < s.len())
}

/// `'e' Sign? Digit+`
pub open spec fn is_exponent(s: Seq<char>) -> bool {
    &&& s.len() >= 2
    &&& s[0] == 'e'
    &&& if s[1] == '+' || s[1] == '-' {
        all_digits(s.subrange(2, s.len() as int))
    } else {
        all_digits(s.subrange(1, s.len() as int))
    }
}

/// `Float ::= Sign? ( 'inf' | 'infinity' | 'nan' | Number )`, matched after lower-casing.
pub open spec fn parses_as_float(s: Seq<char>) -> bool {
    let l = s.map_values(|c: char| ascii_lower(c));
    let body = if l.len() > 0 && (l[0] == '+' || l[0] == '-') { l.drop_first() } else { l };
    ||| body == seq!['i', 'n', 'f']
    ||| body == seq!['i', 'n', 'f', 'i', 'n', 'i', 't', 'y']
    ||| body == seq!['n', 'a', 'n']
    ||| is_decimal_number(body)
}

/// Whether the characters from `lo` up to `hi` are all digits (an empty range counts).
fn digits_between(s: &Vec<char>, lo: usize, hi: usize) -> (r: bool)
    requires
        lo <= hi <= s.len(),
    ensures
        r == digits_or_empty(s@.subrange(lo as int, hi as int)),
{
    let mut i = lo;
    while i < hi
        invariant
            lo <= i <= hi <= s.len(),
            forall|j: int| lo <= j < i ==> is_digit(s@[j]),
        decreases hi - i,
    {
        if !(s[i] >= '0' && s[i] <= '9') {
            assert(!is_digit(s@.subrange(lo as int, hi as int)[i - lo]));
            return false;
        }
        i = i + 1;
    }
    assert forall|j: int| 0 <= j < hi - lo implies is_digit(#[trigger] s@.subrange(lo as int, hi as int)[j]) by {
        assert(s@.subrange(lo as int, hi as int)[j] == s@[lo + j]);
    }
    true
}

/// Whether a text reads as a `u64`.
pub fn is_u64_text(s: &str) -> (r: bool)
    ensures
        r == parses_as_u64(s@),
{
    let cs = crate::text::chars_of(s);
    let start: usize = if cs.len() > 0 && cs[0] == '+' { 1 } else { 0 };
    let ghost d = if s@.len() > 0 && s@[0] == '+' { s@.drop_first() } else { s@ };
    assert(d =~= cs@.subrange(start as int, cs@.len() as int));
    if start >= cs.len() {
        return false;
    }
    let mut value: u64 = 0;
    let mut i = start;
    while i < cs.len()
        invariant
            start < cs.len(),
            start <= i <= cs.len(),
            d == cs@.subrange(start as int, cs@.len() as int),
            d == (if s@.len() > 0 && s@[0] == '+' { s@.drop_first() } else { s@ }),
            forall|j: int| start <= j < i ==> is_digit(cs@[j]),
            value as nat == digits_value(cs@.subrange(start as int, i as int)),
        decreases cs.len() - i,
    {
        let c = cs[i];
        if !(c >= '0' && c <= '9') {
            assert(!is_digit(d[i - start]));
            assert(!all_digits(d));
            return false;
        }
        let digit = (c as u32 - '0' as u32) as u64;
        assert(cs@.subrange(start as int, i + 1).drop_last() =~= cs@.subrange(start as int, i as int));
        if value > 1844674407370955161 || (value == 1844674407370955161 && digit > 5) {
            // The value only grows with more digits.
            proof {
                if all_digits(d) {
                    lemma_digits_value_prefix(d, (i + 1 - start) as int);
                    assert(d.subrange(0, (i + 1 - start) as int) =~= cs@.subrange(start as int, i + 1));
                }
            }
            return false;
        }
        value = value * 10 + digit;
        i = i + 1;
    }
    assert forall|j: int| 0 <= j < d.len() implies is_digit(#[trigger] d[j]) by {
        assert(d[j] == cs@[start + j]);
    }
    true
}

/// A longer digit string has at least the value of any of its prefixes.
pub proof fn lemma_digits_value_prefix(s: Seq<char>, k: int)
    requires
        0 <= k <= s.len(),
        forall|i: int| 0 <= i < s.len() ==> is_digit(#[trigger] s[i]),
    ensures
        digits_value(s.subrange(0, k)) <= digits_value(s),
    decreases s.len() - k,
{
    if k < s.len() {
        lemma_digits_value_prefix(s.drop_last(), if k < s.len() { k } else { k - 1 });
        assert(s.drop_last().subrange(0, k) =~= s.subrange(0, k));
    } else {
        assert(s.subrange(0, k) =~= s);
    }
}

/// Whether a text reads as a `bool`.
pub fn is_bool_text(s: &str) -> (r: bool)
    ensures
        r == parses_as_bool(s@),
{
    proof {
        reveal_strlit("true");
        reveal_strlit("false");
    }
    let t = crate::text::str_eq(s, "true");
    let f = crate::text::str_eq(s, "false");
    assert("true"@ == seq!['t', 'r', 'u', 'e']);
    assert("false"@ == seq!['f', 'a', 'l', 's', 'e']);
    t || f
}

/// The exponent part: `e`, an optional sign, then at least one digit.
fn exponent_at(s: &Vec<char>, m: usize) -> (r: bool)
    requires
        m <= s.len(),
    ensures
        r == is_exponent(s@.subrange(m as int, s.len() as int)),
{
    let n = s.len();
    if n - m < 2 || s[m] != 'e' {
        return false;
    }
    let ghost t = s@.subrange(m as int, n as int);
    if s[m + 1] == '+' || s[m + 1] == '-' {
        let r = m + 2 < n && digits_between(s, m + 2, n);
        assert(t.subrange(2, t.len() as int) =~= s@.subrange(m + 2, n as int));
        r
    } else {
        let r = digits_between(s, m + 1, n);
        assert(t.subrange(1, t.len() as int) =~= s@.subrange(m + 1, n as int));
        r
    }
}

/// Whether a text reads as an `f64`.
pub fn is_float_text(s: &str) -> (r: bool)
    ensures
        r == parses_as_float(s@),
{
    let raw = crate::text::chars_of(s);
    let mut l: Vec<char> = Vec::new();
    let mut i: usize = 0;
    while i < raw.len()
        invariant
            i <= raw.len(),
            l@ == raw@.subrange(0, i as int).map_values(|c: char| ascii_lower(c)),
        decreases raw.len() - i,
    {
        let c = raw[i];
        let lc = if c >= 'A' && c <= 'Z' { ((c as u32) + 32) as u8 as char } else { c };
        assert(lc == ascii_lower(c)) by {
            if 'A' <= c <= 'Z' {
                assert(((c as u32) + 32) as u8 as char == ((c as u32) + 32) as char);
            }
        }
        l.push(lc);
        i = i + 1;
        assert(l@ =~= raw@.subrange(0, i as int).map_values(|c: char| ascii_lower(c)));
    }
    assert(raw@.subrange(0, raw.len() as int) =~= raw@);
    let start: usize = if l.len() > 0 && (l[0] == '+' || l[0] == '-') { 1 } else { 0 };
    let mut body: Vec<char> = Vec::new();
    let mut k = start;
    while k < l.len()
        invariant
            start <= k <= l.len(),
            body@ == l@.subrange(start as int, k as int),
        decreases l.len() - k,
    {
        body.push(l[k]);
        k = k + 1;
        assert(body@ =~= l@.subrange(start as int, k as int));
    }
    proof {
        let lv = s@.map_values(|c: char| ascii_lower(c));
        assert(lv == l@);
        if start == 1 {
            assert(body@ =~= lv.drop_first());
        } else {
            assert(body@ =~= lv);
        }
    }
    let inf = vec!['i', 'n', 'f'];
    let infinity = vec!['i', 'n', 'f', 'i', 'n', 'i', 't', 'y'];
    let nan = vec!['n', 'a', 'n'];
    if chars_eq(&body, &inf) || chars_eq(&body, &infinity) || chars_eq(&body, &nan) {
        return true;
    }
    decimal_number(&body)
}

/// Whether two character vectors are equal.
fn chars_eq(a: &Vec<char>, b: &Vec<char>) -> (r: bool)
    ensures
        r == (a@ == b@),
{
    if a.len() != b.len() {
        return false;
    }
    let mut i: usize = 0;
    while i < a.len()
        invariant
            a.len() == b.len(),
            i <= a.len(),
            forall|j: int| 0 <= j < i ==> a@[j] == b@[j],
        decreases a.len() - i,
    {
        if a[i] != b[i] {
            return false;
        }
        i = i + 1;
    }
    assert(a@ =~= b@);
    true
}

/// Whether a lower-cased text is a decimal number with an optional exponent.
fn decimal_number(s: &Vec<char>) -> (r: bool)
    ensures
        r == is_decimal_number(s@),
{
    let n = s.len();
    // The mantissa ends at the first `e`, or at the end.
    let mut m: usize = 0;
    while m < n && s[m] != 'e'
        invariant
            m <= n == s.len(),
            forall|j: int| 0 <= j < m ==> s@[j] != 'e',
        decreases n - m,
    {
        m = m + 1;
    }
    let mant = mantissa(s, m);
    let exp_ok = m == n || exponent_at(s, m);
    proof {
        if mant && exp_ok {
            assert(is_mantissa(s@.subrange(0, m as int)));
        } else {
            // Any split point other than `m` has an `e` inside the mantissa or no `e` first
            // in the exponent.
            assert forall|m2: int|
                0 <= m2 <= s@.len() && is_mantissa(s@.subrange(0, m2)) implies !(m2 == s@.len()
                || is_exponent(s@.subrange(m2, s@.len() as int))) by {
                if m2 < m {
                    if m2 < s@.len() {
                        assert(s@.subrange(m2, s@.len() as int)[0] == s@[m2]);
                    }
                } else if m2 > m {
                    lemma_mantissa_no_e(s@.subrange(0, m2), m as int);
                } else {
                }
            }
        }
    }
    mant && exp_ok
}

/// A mantissa holds no `e`.
proof fn lemma_mantissa_no_e(s: Seq<char>, i: int)
    requires
        is_mantissa(s),
        0 <= i < s.len(),
    ensures
        s[i] != 'e',
{
    if all_digits(s) {
        assert(is_digit(s[i]));
    } else {
        let d = choose|d: int|
            0 <= d < s.len() && s[d] == '.' && digits_or_empty(s.subrange(0, d)) && digits_or_empty(
                s.subrange(d + 1, s.len() as int),
            ) && (d > 0 || d + 1 < s.len());
        if i < d {
            assert(is_digit(s.subrange(0, d)[i]));
        } else if i > d {
            assert(is_digit(s.subrange(d + 1, s.len() as int)[i - d - 1]));
        }
    }
}

/// Whether the first `m` characters form a mantissa.
fn mantissa(s: &Vec<char>, m: usize) -> (r: bool)
    requires
        m <= s.len(),
    ensures
        r == is_mantissa(s@.subrange(0, m as int)),
{
    let ghost t = s@.subrange(0, m as int);
    // Find the first '.'.
    let mut d: usize = 0;
    while d < m && s[d] != '.'
        invariant
            d <= m <= s.len(),
            forall|j: int| 0 <= j < d ==> s@[j] != '.',
        decreases m - d,
    {
        d = d + 1;
    }
    if d == m {
        let r = m > 0 && digits_between(s, 0, m);
        proof {
            if !r && m > 0 {
                // No '.' so the second form does not apply either.
                assert forall|d2: int| 0 <= d2 < t.len() implies t[d2] != '.' by {
                    assert(t[d2] == s@[d2]);
                }
            }
            if m == 0 {
                assert(t.len() == 0);
            }
        }
        return r;
    }
    let left = digits_between(s, 0, d);
    let right = digits_between(s, d + 1, m);
    let r = left && right && (d > 0 || d + 1 < m);
    proof {
        assert(t.subrange(0, d as int) =~= s@.subrange(0, d as int));
        assert(t.subrange(d + 1, t.len() as int) =~= s@.subrange(d + 1, m as int));
        assert(t[d as int] == '.');
        if !r {
            // A second '.' would make the digits test fail, and the all-digits form needs no '.'.
            assert(!is_digit(t[d as int]));
            assert forall|d2: int|
                0 <= d2 < t.len() && t[d2] == '.' && digits_or_empty(t.subrange(0, d2))
                    && digits_or_empty(t.subrange(d2 + 1, t.len() as int)) implies !(d2 > 0 || d2
                + 1 < t.len()) || d2 == d by {
                if d2 < d {
                    assert(t[d2] == s@[d2]);
                } else if d2 > d {
                    assert(t.subrange(0, d2)[d as int] == '.');
                    assert(!is_digit(t.subrange(0, d2)[d as int]));
                }
            }
        }
    }
    r
}

} // verus!
