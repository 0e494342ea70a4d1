//! CSS Values L4 `<length-percentage>` text: the unit vocabulary, the
//! viewport axis a percentage resolves against, and the split of a
//! length into its numeric literal and its unit (the numeric value
//! itself is floating point and is converted by the caller).

use vstd::prelude::*;
use vstd::string::*;

use crate::strings::{
    find_char, is_ascii_digit, lemma_find_char, lower_seq, str_chars, str_eq, str_lower, str_trim,
    string_from_chars, trim,
};

verus! {

/// A CSS / SVG length unit (CSS Values L4 §6).
#[derive(Clone, Copy, Debug, PartialEq, Eq, Default, Structural)]
pub enum LengthUnit {
    /// Bare number — SVG user units.
    #[default]
    UserUnit,
    Px,
    Em,
    Rem,
    Percent,
    Vw,
    Vh,
    Vmin,
    Vmax,
    Pt,
    Cm,
    Mm,
    In,
    Pc,
    Q,
}

/// Which viewport axis a percentage resolves against (SVG 2 §7.10).
#[derive(Clone, Copy, Debug, PartialEq, Eq, Structural)]
pub enum LengthAxis {
    /// The viewport width.
    X,
    /// The viewport height.
    Y,
    /// `sqrt(w² + h²) / sqrt(2)`.
    Diagonal,
}

/// Why a length failed to parse.
#[derive(Clone, Copy, Debug, PartialEq, Eq, Structural)]
pub enum ParseError {
    /// Empty / whitespace-only input.
    Empty,
    /// No numeric prefix parses as a number.
    BadNumber,
    /// The unit suffix is not a CSS Values L4 unit.
    UnknownUnit,
}

pub open spec fn not_digit_fn() -> spec_fn(char) -> bool {
    |c: char| !is_ascii_digit(c)
}

/// A decimal floating-point literal as `f32::from_str` accepts it over
/// the characters `0-9 . + - e E`: an optional sign, digits with at most
/// one `.` and at least one digit, then optionally `e`/`E`, an optional
/// sign and at least one digit.
pub open spec fn float_literal(s: Seq<char>) -> bool {
    let st: int = if s.len() > 0 && (s[0] == '+' || s[0] == '-') {
        1
    } else {
        0
    };
    let a: int = find_char(s, st, not_digit_fn());
    let dot: bool = a < s.len() && s[a] == '.';
    let b: int = if dot {
        find_char(s, a + 1, not_digit_fn())
    } else {
        a
    };
    let ndigits: int = (a - st) + if dot {
        b - a - 1
    } else {
        0
    };
    if ndigits <= 0 {
        false
    } else if b >= s.len() {
        true
    } else if s[b] == 'e' || s[b] == 'E' {
        let c: int = if b + 1 < s.len() && (s[b + 1] == '+' || s[b + 1] == '-') {
            b + 2
        } else {
            b + 1
        };
        let d: int = find_char(s, c, not_digit_fn());
        d > c && d >= s.len()
    } else {
        false
    }
}

/// Characters the numeric prefix of a length may use.
pub open spec fn numeric_char(c: char) -> bool {
    is_ascii_digit(c) || c == '.' || c == '+' || c == '-' || c == 'e' || c == 'E'
}

pub open spec fn not_numeric_fn() -> spec_fn(char) -> bool {
    |c: char| !numeric_char(c)
}

/// Largest `j` in `1..=i` such that `t[..j]` is a float literal, or 0.
pub open spec fn best_prefix(t: Seq<char>, i: int) -> int
    decreases i,
{
    if i <= 0 {
        0
    } else if float_literal(t.take(i)) {
        i
    } else {
        best_prefix(t, i - 1)
    }
}

/// The unit a (trimmed, lower-cased) suffix names.
pub open spec fn unit_of(u: Seq<char>) -> Option<LengthUnit> {
    if u.len() == 0 {
        Some(LengthUnit::UserUnit)
    } else if u == "px"@ {
        Some(LengthUnit::Px)
    } else if u == "em"@ {
        Some(LengthUnit::Em)
    } else if u == "rem"@ {
        Some(LengthUnit::Rem)
    } else if u == "%"@ {
        Some(LengthUnit::Percent)
    } else if u == "vw"@ {
        Some(LengthUnit::Vw)
    } else if u == "vh"@ {
        Some(LengthUnit::Vh)
    } else if u == "vmin"@ {
        Some(LengthUnit::Vmin)
    } else if u == "vmax"@ {
        Some(LengthUnit::Vmax)
    } else if u == "pt"@ {
        Some(LengthUnit::Pt)
    } else if u == "pc"@ {
        Some(LengthUnit::Pc)
    } else if u == "cm"@ {
        Some(LengthUnit::Cm)
    } else if u == "mm"@ {
        Some(LengthUnit::Mm)
    } else if u == "in"@ {
        Some(LengthUnit::In)
    } else if u == "q"@ {
        Some(LengthUnit::Q)
    } else {
        None
    }
}

/// The numeric literal and unit of a length: within the trimmed input,
/// the longest prefix of the leading run of numeric characters that is
/// a float literal, and the unit named by the rest (trimmed,
/// case-insensitive).
pub open spec fn split_length_spec(input: Seq<char>) -> Result<(Seq<char>, LengthUnit), ParseError> {
    let t = trim(input);
    if t.len() == 0 {
        Err(ParseError::Empty)
    } else {
        let k = best_prefix(t, find_char(t, 0, not_numeric_fn()));
        if k == 0 {
            Err(ParseError::BadNumber)
        } else {
            match unit_of(lower_seq(trim(t.subrange(k, t.len() as int)))) {
                Some(u) => Ok((t.take(k), u)),
                None => Err(ParseError::UnknownUnit),
            }
        }
    }
}

fn skip_digits(v: &Vec<char>, start: usize, end: usize) -> (r: usize)
    requires
        start <= end <= v.len(),
    ensures
        r as int == find_char(v@.take(end as int), start as int, not_digit_fn()),
        start <= r <= end,
{
    let ghost s = v@.take(end as int);
    let mut i: usize = start;
    proof {
        lemma_find_char(s, start as int, not_digit_fn());
    }
    while i < end && '0' <= v[i] && v[i] <= '9'
        invariant
            start <= i <= end <= v.len(),
            s == v@.take(end as int),
            find_char(s, start as int, not_digit_fn()) == find_char(s, i as int, not_digit_fn()),
        decreases end - i,
    {
        i += 1;
    }
    i
}

/// Whether `v[..end]` is a float literal.
pub(crate) fn is_float_literal(v: &Vec<char>, end: usize) -> (b: bool)
    requires
        end <= v.len(),
    ensures
        b == float_literal(v@.take(end as int)),
{
    let ghost s = v@.take(end as int);
    let st: usize = if end > 0 && (v[0] == '+' || v[0] == '-') {
        1
    } else {
        0
    };
    let a: usize = skip_digits(v, st, end);
    let dot: bool = a < end && v[a] == '.';
    let b: usize = if dot {
        skip_digits(v, a + 1, end)
    } else {
        a
    };
    let ndigits: usize = (a - st) + if dot {
        b - a - 1
    } else {
        0
    };
    if ndigits == 0 {
        false
    } else if b >= end {
        true
    } else if v[b] == 'e' || v[b] == 'E' {
        let c: usize = if b + 1 < end && (v[b + 1] == '+' || v[b + 1] == '-') {
            b + 2
        } else {
            b + 1
        };
        let d: usize = skip_digits(v, c, end);
        d > c && d >= end
    } else {
        false
    }
}

/// Split a `<length-percentage>` into the text of its numeric value
/// (which `f32::from_str` accepts) and its unit.
pub fn split_length(input: &str) -> (r: Result<(String, LengthUnit), ParseError>)
    ensures
        match split_length_spec(input@) {
            Ok((n, u)) => r is Ok && r->Ok_0.0@ == n && r->Ok_0.1 == u,
            Err(e) => r == Err::<(String, LengthUnit), ParseError>(e),
        },
{
    let t = str_trim(input);
    let v = str_chars(t);
    if v.len() == 0 {
        return Err(ParseError::Empty);
    }
    let mut run: usize = 0;
    proof {
        lemma_find_char(t@, 0, not_numeric_fn());
    }
    while run < v.len() && (('0' <= v[run] && v[run] <= '9') || v[run] == '.' || v[run] == '+'
        || v[run] == '-' || v[run] == 'e' || v[run] == 'E')
        invariant
            run <= v.len(),
            v@ == t@,
            find_char(t@, 0, not_numeric_fn()) == find_char(t@, run as int, not_numeric_fn()),
        decreases v.len() - run,
    {
        run += 1;
    }
    let mut k: usize = run;
    while k > 0 && !is_float_literal(&v, k)
        invariant
            k <= run <= v.len(),
            v@ == t@,
            best_prefix(t@, run as int) == best_prefix(t@, k as int),
        decreases k,
    {
        k -= 1;
    }
    if k == 0 {
        return Err(ParseError::BadNumber);
    }
    let num = string_from_chars(&v, 0, k);
    let rest = string_from_chars(&v, k, v.len());
    let u = str_lower(str_trim(rest.as_str()));
    let u = u.as_str();
    let unit: LengthUnit = if str_chars(u).len() == 0 {
        LengthUnit::UserUnit
    } else if str_eq(u, "px") {
        LengthUnit::Px
    } else if str_eq(u, "em") {
        LengthUnit::Em
    } else if str_eq(u, "rem") {
        LengthUnit::Rem
    } else if str_eq(u, "%") {
        LengthUnit::Percent
    } else if str_eq(u, "vw") {
        LengthUnit::Vw
    } else if str_eq(u, "vh") {
        LengthUnit::Vh
    } else if str_eq(u, "vmin") {
        LengthUnit::Vmin
    } else if str_eq(u, "vmax") {
        LengthUnit::Vmax
    } else if str_eq(u, "pt") {
        LengthUnit::Pt
    } else if str_eq(u, "pc") {
        LengthUnit::Pc
    } else if str_eq(u, "cm") {
        LengthUnit::Cm
    } else if str_eq(u, "mm") {
        LengthUnit::Mm
    } else if str_eq(u, "in") {
        LengthUnit::In
    } else if str_eq(u, "q") {
        LengthUnit::Q
    } else {
        return Err(ParseError::UnknownUnit);
    };
    assert(num@ =~= t@.take(k as int));
    Ok((num, unit))
}


/// Each unit suffix names the unit of the same name, and no other text
/// does: for every (trimmed, lower-cased) suffix `u`, `u` is read as
/// centimetres exactly when it is `cm`, as millimetres exactly when it
/// is `mm`, and so on for every unit; the empty suffix, and only it, is
/// user units.
pub proof fn lemma_unit_names(u: Seq<char>)
    ensures
        (unit_of(u) == Some(LengthUnit::UserUnit)) == (u.len() == 0),
        (unit_of(u) == Some(LengthUnit::Px)) == (u == "px"@),
        (unit_of(u) == Some(LengthUnit::Em)) == (u == "em"@),
        (unit_of(u) == Some(LengthUnit::Rem)) == (u == "rem"@),
        (unit_of(u) == Some(LengthUnit::Percent)) == (u == "%"@),
        (unit_of(u) == Some(LengthUnit::Vw)) == (u == "vw"@),
        (unit_of(u) == Some(LengthUnit::Vh)) == (u == "vh"@),
        (unit_of(u) == Some(LengthUnit::Vmin)) == (u == "vmin"@),
        (unit_of(u) == Some(LengthUnit::Vmax)) == (u == "vmax"@),
        (unit_of(u) == Some(LengthUnit::Pt)) == (u == "pt"@),
        (unit_of(u) == Some(LengthUnit::Pc)) == (u == "pc"@),
        (unit_of(u) == Some(LengthUnit::Cm)) == (u == "cm"@),
        (unit_of(u) == Some(LengthUnit::Mm)) == (u == "mm"@),
        (unit_of(u) == Some(LengthUnit::In)) == (u == "in"@),
        (unit_of(u) == Some(LengthUnit::Q)) == (u == "q"@),
{
    reveal_strlit("px");
    reveal_strlit("em");
    reveal_strlit("rem");
    reveal_strlit("%");
    reveal_strlit("vw");
    reveal_strlit("vh");
    reveal_strlit("vmin");
    reveal_strlit("vmax");
    reveal_strlit("pt");
    reveal_strlit("pc");
    reveal_strlit("cm");
    reveal_strlit("mm");
    reveal_strlit("in");
    reveal_strlit("q");
    assert("px"@.len() == 2 && "px"@[0] == 'p' && "px"@[1] == 'x');
    assert("em"@.len() == 2 && "em"@[0] == 'e' && "em"@[1] == 'm');
    assert("rem"@.len() == 3 && "rem"@[0] == 'r' && "rem"@[1] == 'e' && "rem"@[2] == 'm');
    assert("%"@.len() == 1 && "%"@[0] == '%');
    assert("vw"@.len() == 2 && "vw"@[0] == 'v' && "vw"@[1] == 'w');
    assert("vh"@.len() == 2 && "vh"@[0] == 'v' && "vh"@[1] == 'h');
    assert("vmin"@.len() == 4 && "vmin"@[0] == 'v' && "vmin"@[1] == 'm' && "vmin"@[2] == 'i' && "vmin"@[3] == 'n');
    assert("vmax"@.len() == 4 && "vmax"@[0] == 'v' && "vmax"@[1] == 'm' && "vmax"@[2] == 'a' && "vmax"@[3] == 'x');
    assert("pt"@.len() == 2 && "pt"@[0] == 'p' && "pt"@[1] == 't');
    assert("pc"@.len() == 2 && "pc"@[0] == 'p' && "pc"@[1] == 'c');
    assert("cm"@.len() == 2 && "cm"@[0] == 'c' && "cm"@[1] == 'm');
    assert("mm"@.len() == 2 && "mm"@[0] == 'm' && "mm"@[1] == 'm');
    assert("in"@.len() == 2 && "in"@[0] == 'i' && "in"@[1] == 'n');
    assert("q"@.len() == 1 && "q"@[0] == 'q');
}

/// Splitting distinguishes units: two inputs read with the same number
/// text and the same unit have suffixes naming that unit, so a length
/// written with `cm` never reads as one written with `mm`.
pub proof fn lemma_unit_of_injective(a: Seq<char>, b: Seq<char>)
    requires
        unit_of(a) is Some,
        unit_of(a) == unit_of(b),
    ensures
        a == b,
{
    lemma_unit_names(a);
    lemma_unit_names(b);
}

} // verus!
