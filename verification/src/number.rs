//! The number token shared by the `d` path-data and `transform` list
//! grammars (SVG 1.1 §8.3.1 / §7.6): an optional sign, digits with at
//! most one `.`, and an optional exponent; tokens are separated by
//! whitespace and commas.

use vstd::prelude::*;

use crate::length::{float_literal, is_float_literal, not_digit_fn};
use crate::strings::{find_char, lemma_find_char, str_chars, string_from_chars};

verus! {

/// The separators between tokens: space, tab, LF, CR and `,`.
pub open spec fn is_token_sep(c: char) -> bool {
    c == ' ' || c == '\t' || c == '\n' || c == '\r' || c == ','
}

pub open spec fn not_token_sep_fn() -> spec_fn(char) -> bool {
    |c: char| !is_token_sep(c)
}

/// The position after the separators at `p`.
pub open spec fn skip_seps(s: Seq<char>, p: int) -> int {
    find_char(s, p, not_token_sep_fn())
}

pub open spec fn is_sign(c: char) -> bool {
    c == '+' || c == '-'
}

/// The position after the run of ASCII digits at `p`.
pub open spec fn digits_end(s: Seq<char>, p: int) -> int {
    find_char(s, p, not_digit_fn())
}

/// Where the digits of a number starting at `p` begin (after a sign).
pub open spec fn mantissa_start(s: Seq<char>, p: int) -> int {
    if p < s.len() && is_sign(s[p]) {
        p + 1
    } else {
        p
    }
}

/// The end of the integer digits.
pub open spec fn int_end(s: Seq<char>, p: int) -> int {
    digits_end(s, mantissa_start(s, p))
}

pub open spec fn has_dot(s: Seq<char>, p: int) -> bool {
    int_end(s, p) < s.len() && s[int_end(s, p)] == '.'
}

/// The end of the mantissa (integer digits, then `.` and fraction digits).
pub open spec fn frac_end(s: Seq<char>, p: int) -> int {
    if has_dot(s, p) {
        digits_end(s, int_end(s, p) + 1)
    } else {
        int_end(s, p)
    }
}

/// Whether the mantissa at `p` has at least one digit.
pub open spec fn has_mantissa_digit(s: Seq<char>, p: int) -> bool {
    int_end(s, p) > mantissa_start(s, p) || (has_dot(s, p) && frac_end(s, p) > int_end(s, p) + 1)
}

/// The end of the number token at `p`: the mantissa, then an `e` / `E`
/// with an optional sign and the digits that follow.
pub open spec fn number_end(s: Seq<char>, p: int) -> int {
    let b = frac_end(s, p);
    if b < s.len() && (s[b] == 'e' || s[b] == 'E') {
        let c = if b + 1 < s.len() && is_sign(s[b + 1]) {
            b + 2
        } else {
            b + 1
        };
        digits_end(s, c)
    } else {
        b
    }
}

/// Why a number token could not be read.
#[derive(Clone, Copy, Debug, PartialEq, Eq, Structural)]
pub enum NumberError {
    /// The token has no digit.
    Expected,
    /// The token is not a number `f32::from_str` accepts (an exponent
    /// marker without digits).
    Malformed,
}

/// The number token after the separators at `p`, and the position after
/// it.
pub open spec fn number_at(s: Seq<char>, p: int) -> Result<(Seq<char>, int), NumberError> {
    let q = skip_seps(s, p);
    if !has_mantissa_digit(s, q) {
        Err(NumberError::Expected)
    } else {
        let e = number_end(s, q);
        if float_literal(s.subrange(q, e)) {
            Ok((s.subrange(q, e), e))
        } else {
            Err(NumberError::Malformed)
        }
    }
}

/// The scanning positions stay ordered and inside the text.
pub proof fn lemma_number_bounds(s: Seq<char>, p: int)
    requires
        0 <= p <= s.len(),
    ensures
        p <= mantissa_start(s, p) <= int_end(s, p) <= frac_end(s, p) <= number_end(s, p) <= s.len(),
        has_mantissa_digit(s, p) ==> p < number_end(s, p),
{
    let m = mantissa_start(s, p);
    lemma_find_char(s, m, not_digit_fn());
    let a = int_end(s, p);
    if has_dot(s, p) {
        lemma_find_char(s, a + 1, not_digit_fn());
    }
    let b = frac_end(s, p);
    if b < s.len() && (s[b] == 'e' || s[b] == 'E') {
        let c = if b + 1 < s.len() && is_sign(s[b + 1]) {
            b + 2
        } else {
            b + 1
        };
        lemma_find_char(s, c, not_digit_fn());
    }
}

/// A number read at `p` ends after `p`.
pub proof fn lemma_number_at_advances(s: Seq<char>, p: int)
    requires
        0 <= p <= s.len(),
    ensures
        number_at(s, p) matches Ok((_, e)) ==> p < e <= s.len(),
{
    lemma_find_char(s, p, not_token_sep_fn());
    lemma_number_bounds(s, skip_seps(s, p));
}

/// The position after the separators at `p` (both grammars'
/// `skip_separators`).
pub fn skip_separators(v: &Vec<char>, p: usize) -> (r: usize)
    requires
        p <= v.len(),
    ensures
        r == skip_seps(v@, p as int),
        p <= r <= v.len(),
{
    let mut i: usize = p;
    proof {
        lemma_find_char(v@, p as int, not_token_sep_fn());
    }
    while i < v.len() && (v[i] == ' ' || v[i] == '\t' || v[i] == '\n' || v[i] == '\r' || v[i]
        == ',')
        invariant
            p <= i <= v.len(),
            skip_seps(v@, p as int) == skip_seps(v@, i as int),
        decreases v.len() - i,
    {
        i += 1;
    }
    i
}

fn skip_ascii_digits(v: &Vec<char>, p: usize) -> (r: usize)
    requires
        p <= v.len(),
    ensures
        r == digits_end(v@, p as int),
        p <= r <= v.len(),
{
    let mut i: usize = p;
    proof {
        lemma_find_char(v@, p as int, not_digit_fn());
    }
    while i < v.len() && '0' <= v[i] && v[i] <= '9'
        invariant
            p <= i <= v.len(),
            digits_end(v@, p as int) == digits_end(v@, i as int),
        decreases v.len() - i,
    {
        i += 1;
    }
    i
}

/// Read the number token after the separators at `p`: its text and the
/// position after it.
pub fn read_number_at(v: &Vec<char>, p: usize) -> (r: Result<(String, usize), NumberError>)
    requires
        p <= v.len(),
    ensures
        match r {
            Ok((lex, e)) => number_at(v@, p as int) == Ok::<(Seq<char>, int), NumberError>(
                (lex@, e as int),
            ),
            Err(k) => number_at(v@, p as int) == Err::<(Seq<char>, int), NumberError>(k),
        },
{
    let q: usize = skip_separators(v, p);
    proof {
        lemma_number_bounds(v@, q as int);
    }
    let m: usize = if q < v.len() && (v[q] == '+' || v[q] == '-') {
        q + 1
    } else {
        q
    };
    let a: usize = skip_ascii_digits(v, m);
    let dot: bool = a < v.len() && v[a] == '.';
    let b: usize = if dot {
        skip_ascii_digits(v, a + 1)
    } else {
        a
    };
    let saw_digit: bool = a > m || (dot && b > a + 1);
    if !saw_digit {
        return Err(NumberError::Expected);
    }
    let e: usize = if b < v.len() && (v[b] == 'e' || v[b] == 'E') {
        let c: usize = if b + 1 < v.len() && (v[b + 1] == '+' || v[b + 1] == '-') {
            b + 2
        } else {
            b + 1
        };
        skip_ascii_digits(v, c)
    } else {
        b
    };
    let lex = string_from_chars(v, q, e);
    let lv = str_chars(lex.as_str());
    let ok: bool = is_float_literal(&lv, lv.len());
    assert(lv@.take(lv.len() as int) =~= lex@);
    if ok {
        Ok((lex, e))
    } else {
        Err(NumberError::Malformed)
    }
}

/// The end of the mantissa at `p` (sign, digits, `.` and digits) and
/// whether it has a digit.
pub fn scan_mantissa(v: &Vec<char>, p: usize) -> (r: (usize, bool))
    requires
        p <= v.len(),
    ensures
        r.0 == frac_end(v@, p as int),
        r.1 == has_mantissa_digit(v@, p as int),
        p <= r.0 <= v.len(),
{
    proof {
        lemma_number_bounds(v@, p as int);
    }
    let m: usize = if p < v.len() && (v[p] == '+' || v[p] == '-') {
        p + 1
    } else {
        p
    };
    let a: usize = skip_ascii_digits(v, m);
    let dot: bool = a < v.len() && v[a] == '.';
    let b: usize = if dot {
        skip_ascii_digits(v, a + 1)
    } else {
        a
    };
    (b, a > m || (dot && b > a + 1))
}

/// The value of a run of ASCII digits.
pub open spec fn digits_value(s: Seq<char>) -> nat
    decreases s.len(),
{
    if s.len() == 0 {
        0
    } else {
        digits_value(s.drop_last()) * 10 + ((s.last() as int) - 48) as nat
    }
}

/// Every character is an ASCII digit.
pub open spec fn all_ascii_digits(s: Seq<char>) -> bool {
    forall|i: int| 0 <= i < s.len() ==> crate::strings::is_ascii_digit(#[trigger] s[i])
}

/// `u32::from_str`: an optional `+`, then one or more ASCII digits whose
/// value fits in a `u32`.
pub open spec fn u32_literal(s: Seq<char>) -> Option<u32> {
    let d = if s.len() > 0 && s[0] == '+' {
        s.drop_first()
    } else {
        s
    };
    if d.len() == 0 || !all_ascii_digits(d) {
        None
    } else if digits_value(d) <= u32::MAX {
        Some(digits_value(d) as u32)
    } else {
        None
    }
}

/// Read `s` as a `u32` literal; see [`u32_literal`].
pub fn parse_u32(s: &str) -> (r: Option<u32>)
    ensures
        r == u32_literal(s@),
{
    let v = str_chars(s);
    let start: usize = if v.len() > 0 && v[0] == '+' {
        1
    } else {
        0
    };
    let ghost d = if s@.len() > 0 && s@[0] == '+' {
        s@.drop_first()
    } else {
        s@
    };
    assert(d =~= v@.subrange(start as int, v@.len() as int));
    if start >= v.len() {
        return None;
    }
    let big: u64 = 4294967296;
    let mut acc: u64 = 0;
    let mut i: usize = start;
    while i < v.len()
        invariant
            start <= i <= v.len(),
            v@ == s@,
            d == v@.subrange(start as int, v@.len() as int),
            d == (if s@.len() > 0 && s@[0] == '+' {
                s@.drop_first()
            } else {
                s@
            }),
            big == 4294967296,
            forall|k: int| start <= k < i ==> crate::strings::is_ascii_digit(#[trigger] v@[k]),
            acc as int == if digits_value(v@.subrange(start as int, i as int)) < big {
                digits_value(v@.subrange(start as int, i as int)) as int
            } else {
                big as int
            },
        decreases v.len() - i,
    {
        let c = v[i];
        if !('0' <= c && c <= '9') {
            assert(d[i - start] == c);
            assert(!crate::strings::is_ascii_digit(d[i - start]));
            assert(!all_ascii_digits(d));
            return None;
        }
        let dg: u64 = ((c as u32) - 48) as u64;
        let ghost before = v@.subrange(start as int, i as int);
        let ghost after = v@.subrange(start as int, i + 1);
        assert(after.drop_last() =~= before);
        let ghost pv = digits_value(before);
        assert(digits_value(after) == pv * 10 + dg);
        let next: u64 = acc * 10 + dg;
        acc = if next < big {
            next
        } else {
            big
        };
        assert(acc as int == if digits_value(after) < big {
            digits_value(after) as int
        } else {
            big as int
        }) by (nonlinear_arith)
            requires
                digits_value(after) == pv * 10 + dg,
                dg < 10,
                acc == (if (if pv < big { pv as int } else { big as int }) * 10 + dg < big {
                    (if pv < big { pv as int } else { big as int }) * 10 + dg
                } else {
                    big as int
                }),
                big == 4294967296,
        ;
        i += 1;
    }
    assert(v@.subrange(start as int, i as int) =~= d);
    if acc < big {
        Some(acc as u32)
    } else {
        None
    }
}

} // verus!
