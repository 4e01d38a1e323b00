//! Decimal field parsing.
//!
//! The provider sends every numeric field as a string.  Volumes are
//! 64-bit signed integers; prices use the decimal notation that the
//! standard library's float parser documents (an optional sign, then
//! `inf`, `infinity` or `nan` ignoring case, or a mantissa with an
//! optional exponent).  This module gives both grammars an exact
//! specification and verified recognizers; the volume parser also
//! returns the value.

use vstd::prelude::*;

verus! {

/// An ASCII decimal digit.
pub open spec fn is_digit(c: char) -> bool {
    48 <= c as u32 <= 57
}

/// Numeric value of an ASCII decimal digit.
pub open spec fn digit_value(c: char) -> int {
    c as u32 - 48
}

/// Value of a digit string, most significant digit first.
pub open spec fn digits_value(s: Seq<char>) -> int
    decreases s.len(),
{
    if s.len() == 0 {
        0
    } else {
        digits_value(s.drop_last()) * 10 + digit_value(s.last())
    }
}

pub open spec fn all_digits(s: Seq<char>) -> bool {
    forall|i: int| 0 <= i < s.len() ==> is_digit(#[trigger] s[i])
}

/// Everything after a leading `+` or `-`, or the whole string if it has none.
pub open spec fn unsigned_part(s: Seq<char>) -> Seq<char> {
    if s.len() > 0 && (s[0] == '+' || s[0] == '-') {
        s.skip(1)
    } else {
        s
    }
}

pub open spec fn has_minus_sign(s: Seq<char>) -> bool {
    s.len() > 0 && s[0] == '-'
}

/// The integer a signed digit string denotes.
pub open spec fn signed_value(s: Seq<char>) -> int {
    if has_minus_sign(s) {
        -digits_value(unsigned_part(s))
    } else {
        digits_value(unsigned_part(s))
    }
}

/// The strings accepted when a 64-bit signed integer is read from
/// decimal text: an optional sign, one or more digits, nothing else,
/// and a value that fits the type.
pub open spec fn is_i64_string(s: Seq<char>) -> bool {
    &&& unsigned_part(s).len() > 0
    &&& all_digits(unsigned_part(s))
    &&& i64::MIN <= signed_value(s) <= i64::MAX
}

proof fn lemma_digits_value_nonneg(s: Seq<char>)
    requires
        all_digits(s),
    ensures
        digits_value(s) >= 0,
    decreases s.len(),
{
    if s.len() > 0 {
        assert(all_digits(s.drop_last()));
        lemma_digits_value_nonneg(s.drop_last());
    }
}

/// Appending one digit multiplies the value by ten and adds the digit.
proof fn lemma_digits_value_snoc(s: Seq<char>, k: int)
    requires
        0 < k <= s.len(),
    ensures
        digits_value(s.subrange(0, k)) == digits_value(s.subrange(0, k - 1)) * 10 + digit_value(
            s[k - 1],
        ),
{
    let p = s.subrange(0, k);
    assert(p.drop_last() =~= s.subrange(0, k - 1));
    assert(p.last() == s[k - 1]);
}

/// Once a digit prefix exceeds a bound, longer prefixes exceed it too.
proof fn lemma_digits_value_grows(s: Seq<char>, k: int, bound: int)
    requires
        0 <= k <= s.len(),
        all_digits(s),
        bound >= 0,
        digits_value(s.subrange(0, k)) > bound,
    ensures
        digits_value(s.subrange(0, s.len() as int)) > bound,
    decreases s.len() - k,
{
    if k < s.len() {
        let v = digits_value(s.subrange(0, k));
        lemma_digits_value_snoc(s, k + 1);
        assert(v * 10 >= v) by (nonlinear_arith)
            requires
                v >= 0,
        ;
        lemma_digits_value_grows(s, k + 1, bound);
    }
}

/// Parse a 64-bit signed integer from decimal text.  Succeeds on
/// exactly the strings of `is_i64_string`, and then returns their value.
pub fn parse_i64(s: &str) -> (r: Option<i64>)
    ensures
        r is Some <==> is_i64_string(s@),
        r is Some ==> r->0 as int == signed_value(s@),
{
    let n = s.unicode_len();
    let mut start: usize = 0;
    let mut negative = false;
    if n > 0 {
        let c = s.get_char(0);
        if c == '+' || c == '-' {
            start = 1;
            negative = c == '-';
        }
    }
    let u = s.substring_char(start, n);
    proof {
        assert(u@ =~= unsigned_part(s@));
        assert(negative == has_minus_sign(s@));
    }
    let m = n - start;
    if m == 0 {
        return None;
    }
    let magnitude_bound: u128 = 9223372036854775808;
    let mut mag: u128 = 0;
    let mut too_big = false;
    let mut i: usize = 0;
    while i < m
        invariant
            u@ == unsigned_part(s@),
            m == u@.len(),
            0 <= i <= m,
            all_digits(u@.subrange(0, i as int)),
            !too_big ==> mag <= magnitude_bound && mag == digits_value(u@.subrange(0, i as int)),
            too_big ==> digits_value(u@.subrange(0, i as int)) > magnitude_bound,
            magnitude_bound == 0x8000_0000_0000_0000,
        decreases m - i,
    {
        let c = u.get_char(i);
        let cu = c as u32;
        if cu < 48 || cu > 57 {
            proof {
                assert(!is_digit(unsigned_part(s@)[i as int]));
                assert(!all_digits(unsigned_part(s@)));
            }
            return None;
        }
        proof {
            assert(u@.subrange(0, i + 1).drop_last() =~= u@.subrange(0, i as int));
            lemma_digits_value_snoc(u@, i + 1);
        }
        if too_big {
            proof {
                lemma_digits_value_nonneg(u@.subrange(0, i as int));
                let v = digits_value(u@.subrange(0, i as int));
                assert(v * 10 >= v) by (nonlinear_arith)
                    requires
                        v >= 0,
                ;
            }
        } else {
            let d = (cu - 48) as u128;
            let next = mag * 10 + d;
            if next > magnitude_bound {
                too_big = true;
            } else {
                mag = next;
            }
        }
        i = i + 1;
    }
    proof {
        assert(u@.subrange(0, m as int) =~= u@);
        lemma_digits_value_nonneg(u@);
    }
    if too_big {
        return None;
    }
    if negative {
        if mag == magnitude_bound {
            Some(i64::MIN)
        } else {
            Some(-(mag as i64))
        }
    } else {
        if mag == magnitude_bound {
            None
        } else {
            Some(mag as i64)
        }
    }
}

/// Length of the digit run starting at position `i`.
pub open spec fn digit_run_len(s: Seq<char>, i: int) -> int
    decreases s.len() - i,
{
    if i < 0 || i >= s.len() || !is_digit(s[i]) {
        0
    } else {
        1 + digit_run_len(s, i + 1)
    }
}

/// One character, either case.
pub open spec fn either_case(c: char, lo: char, up: char) -> bool {
    c == lo || c == up
}

pub open spec fn is_inf_word(t: Seq<char>) -> bool {
    &&& t.len() == 3
    &&& either_case(t[0], 'i', 'I')
    &&& either_case(t[1], 'n', 'N')
    &&& either_case(t[2], 'f', 'F')
}

pub open spec fn is_infinity_word(t: Seq<char>) -> bool {
    &&& t.len() == 8
    &&& either_case(t[0], 'i', 'I')
    &&& either_case(t[1], 'n', 'N')
    &&& either_case(t[2], 'f', 'F')
    &&& either_case(t[3], 'i', 'I')
    &&& either_case(t[4], 'n', 'N')
    &&& either_case(t[5], 'i', 'I')
    &&& either_case(t[6], 't', 'T')
    &&& either_case(t[7], 'y', 'Y')
}

pub open spec fn is_nan_word(t: Seq<char>) -> bool {
    &&& t.len() == 3
    &&& either_case(t[0], 'n', 'N')
    &&& either_case(t[1], 'a', 'A')
    &&& either_case(t[2], 'n', 'N')
}

/// An exponent suffix starting at `i` and reaching the end of the
/// string: `e` or `E`, an optional sign, then one or more digits.
pub open spec fn is_exponent_at(t: Seq<char>, i: int) -> bool {
    &&& 0 <= i < t.len()
    &&& (t[i] == 'e' || t[i] == 'E')
    &&& {
        let j = if i + 1 < t.len() && (t[i + 1] == '+' || t[i + 1] == '-') {
            i + 2
        } else {
            i + 1
        };
        digit_run_len(t, j) > 0 && j + digit_run_len(t, j) == t.len()
    }
}

/// An unsigned decimal mantissa with an optional exponent: digits,
/// optionally a point with more digits, at least one digit in all,
/// then an optional exponent suffix.
pub open spec fn is_decimal_number(t: Seq<char>) -> bool {
    let d1 = digit_run_len(t, 0);
    if d1 == t.len() {
        d1 > 0
    } else if t[d1] == '.' {
        let d2 = digit_run_len(t, d1 + 1);
        (d1 > 0 || d2 > 0) && {
            let rest = d1 + 1 + d2;
            rest == t.len() || is_exponent_at(t, rest)
        }
    } else {
        d1 > 0 && is_exponent_at(t, d1)
    }
}

/// The strings accepted when a 64-bit float is read from decimal
/// text, as the standard library documents that grammar: an optional
/// sign, then `inf`, `infinity` or `nan` ignoring case, or a decimal
/// mantissa with an optional exponent.  Out-of-range magnitudes still
/// parse (they round to an infinity), so acceptance depends on the
/// grammar alone.
pub open spec fn is_float_string(s: Seq<char>) -> bool {
    let t = unsigned_part(s);
    ||| is_inf_word(t)
    ||| is_infinity_word(t)
    ||| is_nan_word(t)
    ||| is_decimal_number(t)
}

proof fn lemma_digit_run_bounds(s: Seq<char>, i: int)
    requires
        0 <= i <= s.len(),
    ensures
        0 <= digit_run_len(s, i),
        i + digit_run_len(s, i) <= s.len(),
    decreases s.len() - i,
{
    if i < s.len() && is_digit(s[i]) {
        lemma_digit_run_bounds(s, i + 1);
    }
}

/// Index of the first non-digit at or after `from`.
fn digit_run_end(t: &str, from: usize) -> (j: usize)
    requires
        from <= t@.len(),
    ensures
        j == from + digit_run_len(t@, from as int),
        from <= j <= t@.len(),
{
    let n = t.unicode_len();
    let mut j = from;
    while j < n
        invariant
            from <= j <= n,
            n == t@.len(),
            digit_run_len(t@, from as int) == j - from + digit_run_len(t@, j as int),
        decreases n - j,
    {
        let c = t.get_char(j);
        let cu = c as u32;
        if cu < 48 || cu > 57 {
            proof {
                lemma_digit_run_bounds(t@, from as int);
            }
            return j;
        }
        proof {
            lemma_digit_run_bounds(t@, j + 1);
        }
        j = j + 1;
    }
    proof {
        lemma_digit_run_bounds(t@, from as int);
    }
    j
}

/// Decide an exponent suffix running from `i` to the end.
fn is_exponent_from(t: &str, i: usize) -> (r: bool)
    requires
        i <= t@.len(),
    ensures
        r == is_exponent_at(t@, i as int),
{
    let n = t.unicode_len();
    if i == n {
        return false;
    }
    let c = t.get_char(i);
    if !(c == 'e' || c == 'E') {
        return false;
    }
    let j = if i + 1 < n {
        let cs = t.get_char(i + 1);
        if cs == '+' || cs == '-' {
            i + 2
        } else {
            i + 1
        }
    } else {
        i + 1
    };
    if j > n {
        return false;
    }
    let e = digit_run_end(t, j);
    e > j && e == n
}

/// Decide whether a price field would be accepted by the standard
/// float parser: exactly the strings of `is_float_string`.
pub fn is_float_literal(s: &str) -> (r: bool)
    ensures
        r == is_float_string(s@),
{
    let n = s.unicode_len();
    let mut start: usize = 0;
    if n > 0 {
        let c = s.get_char(0);
        if c == '+' || c == '-' {
            start = 1;
        }
    }
    let t = s.substring_char(start, n);
    proof {
        assert(t@ =~= unsigned_part(s@));
    }
    let m = n - start;
    if m == 3 {
        let c0 = t.get_char(0);
        let c1 = t.get_char(1);
        let c2 = t.get_char(2);
        if (c0 == 'i' || c0 == 'I') && (c1 == 'n' || c1 == 'N') && (c2 == 'f' || c2 == 'F') {
            return true;
        }
        if (c0 == 'n' || c0 == 'N') && (c1 == 'a' || c1 == 'A') && (c2 == 'n' || c2 == 'N') {
            return true;
        }
    }
    if m == 8 {
        let c0 = t.get_char(0);
        let c1 = t.get_char(1);
        let c2 = t.get_char(2);
        let c3 = t.get_char(3);
        let c4 = t.get_char(4);
        let c5 = t.get_char(5);
        let c6 = t.get_char(6);
        let c7 = t.get_char(7);
        if (c0 == 'i' || c0 == 'I') && (c1 == 'n' || c1 == 'N') && (c2 == 'f' || c2 == 'F') && (c3
            == 'i' || c3 == 'I') && (c4 == 'n' || c4 == 'N') && (c5 == 'i' || c5 == 'I') && (c6
            == 't' || c6 == 'T') && (c7 == 'y' || c7 == 'Y') {
            return true;
        }
    }
    let d1 = digit_run_end(t, 0);
    if d1 == m {
        return d1 > 0;
    }
    let c = t.get_char(d1);
    if c == '.' {
        let d2e = digit_run_end(t, d1 + 1);
        if d1 == 0 && d2e == 1 {
            return false;
        }
        if d2e == m {
            return true;
        }
        is_exponent_from(t, d2e)
    } else {
        if d1 == 0 {
            return false;
        }
        is_exponent_from(t, d1)
    }
}

} // verus!
