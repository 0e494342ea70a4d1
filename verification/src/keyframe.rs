//! Text-level pieces of CSS Animations L1 evaluation: the
//! `animation-direction` / `animation-fill-mode` keywords, the
//! `steps()` position, comma-separated longhand lists with modulo
//! indexing, declaration lookup, easing-function call syntax, and the
//! structure of `transform` function values.

use vstd::prelude::*;
use vstd::string::*;

use crate::number::{frac_end, has_mantissa_digit, parse_u32, scan_mantissa, u32_literal};
use crate::parser::last_index_of;
use crate::strings::{
    lower, comma_fn, comma_or_ws_fn, eq_ignore_case, first_non_ws, lower_seq, nonempty, split_by,
    split_each_trimmed, split_nonempty, split_trimmed, str_chars, trim_each, str_eq, str_eq_ignore_case, str_lower, str_trim,
    string_from_chars, strings_view, strs_view, trim, trim_start, trimmed_nonempty, Separator,
};

verus! {

/// `steps(<count>, start|end)` jump position.
#[derive(Clone, Copy, Debug, PartialEq, Eq, Structural)]
pub enum StepPosition {
    Start,
    End,
}

/// `animation-direction` (CSS Animations L1 §4.4).
#[derive(Clone, Copy, Debug, Default, PartialEq, Eq, Structural)]
pub enum AnimationDirection {
    #[default]
    Normal,
    Reverse,
    Alternate,
    AlternateReverse,
}

impl AnimationDirection {
    pub open spec fn spec_parse(t: Seq<char>) -> Option<AnimationDirection> {
        if t == "normal"@ {
            Some(AnimationDirection::Normal)
        } else if t == "reverse"@ {
            Some(AnimationDirection::Reverse)
        } else if t == "alternate"@ {
            Some(AnimationDirection::Alternate)
        } else if t == "alternate-reverse"@ {
            Some(AnimationDirection::AlternateReverse)
        } else {
            None
        }
    }

    /// Parse a direction keyword (whitespace-trimmed, ASCII
    /// case-insensitive); `None` for anything else.
    pub fn parse(s: &str) -> (r: Option<Self>)
        ensures
            r == Self::spec_parse(lower_seq(trim(s@))),
    {
        let t = str_lower(str_trim(s));
        let t = t.as_str();
        if str_eq(t, "normal") {
            Some(AnimationDirection::Normal)
        } else if str_eq(t, "reverse") {
            Some(AnimationDirection::Reverse)
        } else if str_eq(t, "alternate") {
            Some(AnimationDirection::Alternate)
        } else if str_eq(t, "alternate-reverse") {
            Some(AnimationDirection::AlternateReverse)
        } else {
            None
        }
    }
}

/// `animation-fill-mode` (CSS Animations L1 §4.7).
#[derive(Clone, Copy, Debug, Default, PartialEq, Eq, Structural)]
pub enum AnimationFillMode {
    /// `none`
    #[default]
    NoFill,
    Forwards,
    Backwards,
    Both,
}

impl AnimationFillMode {
    pub open spec fn spec_parse(t: Seq<char>) -> Option<AnimationFillMode> {
        if t == "none"@ {
            Some(AnimationFillMode::NoFill)
        } else if t == "forwards"@ {
            Some(AnimationFillMode::Forwards)
        } else if t == "backwards"@ {
            Some(AnimationFillMode::Backwards)
        } else if t == "both"@ {
            Some(AnimationFillMode::Both)
        } else {
            None
        }
    }

    /// Parse a fill-mode keyword (whitespace-trimmed, ASCII
    /// case-insensitive); `None` for anything else.
    pub fn parse(s: &str) -> (r: Option<Self>)
        ensures
            r == Self::spec_parse(lower_seq(trim(s@))),
    {
        let t = str_lower(str_trim(s));
        let t = t.as_str();
        if str_eq(t, "none") {
            Some(AnimationFillMode::NoFill)
        } else if str_eq(t, "forwards") {
            Some(AnimationFillMode::Forwards)
        } else if str_eq(t, "backwards") {
            Some(AnimationFillMode::Backwards)
        } else if str_eq(t, "both") {
            Some(AnimationFillMode::Both)
        } else {
            None
        }
    }
}

/// `v[idx % v.len()]`, or `default` for an empty list (CSS Animations
/// L1 §6 list pairing).
pub fn pick_or<T: Copy>(v: &[T], idx: usize, default: T) -> (r: T)
    ensures
        v@.len() == 0 ==> r == default,
        v@.len() > 0 ==> r == v@[idx as int % v@.len() as int],
{
    if v.len() == 0 {
        default
    } else {
        v[idx % v.len()]
    }
}

/// Longhand lists repeat (CSS Animations L1 §6): the item picked for
/// animation `idx + v.len()` is the one picked for `idx`.
pub proof fn lemma_pick_repeats<T>(v: Seq<T>, idx: int)
    requires
        v.len() > 0,
        idx >= 0,
    ensures
        v[(idx + v.len()) % (v.len() as int)] == v[idx % (v.len() as int)],
{
    vstd::arithmetic::div_mod::lemma_mod_add_multiples_vanish(idx, v.len() as int);
}

/// `v[idx % v.len()]`, or `T::default()` for an empty list.
pub fn pick_or_default<T: Copy + Default>(v: &[T], idx: usize) -> (r: T)
    ensures
        v@.len() == 0 ==> call_ensures(T::default, (), r),
        v@.len() > 0 ==> r == v@[idx as int % v@.len() as int],
{
    if v.len() == 0 {
        T::default()
    } else {
        v[idx % v.len()]
    }
}

/// The comma-separated items of a longhand list, trimmed, empty items
/// dropped.
pub fn split_csv(s: &str) -> (r: Vec<&str>)
    ensures
        strs_view(r@) == trimmed_nonempty(split_by(s@, comma_fn())),
{
    split_trimmed(s, Separator::Comma)
}

/// Index of the last declaration named `name` (ASCII
/// case-insensitively), or `-1`.
pub open spec fn last_decl_index(decls: Seq<(String, String)>, name: Seq<char>, i: int) -> int
    decreases i,
{
    if i <= 0 {
        -1
    } else if eq_ignore_case(decls[i - 1].0@, name) {
        i - 1
    } else {
        last_decl_index(decls, name, i - 1)
    }
}

pub proof fn lemma_last_decl_index(decls: Seq<(String, String)>, name: Seq<char>, i: int)
    requires
        0 <= i <= decls.len(),
    ensures
        -1 <= last_decl_index(decls, name, i) < i,
    decreases i,
{
    if i > 0 && !eq_ignore_case(decls[i - 1].0@, name) {
        lemma_last_decl_index(decls, name, i - 1);
    }
}

/// The value of the last declaration named `name` (later declarations
/// win in the cascade).
pub fn find_decl<'a>(decls: &'a [(String, String)], name: &str) -> (r: Option<&'a str>)
    ensures
        ({
            let k = last_decl_index(decls@, name@, decls@.len() as int);
            match r {
                Some(v) => k >= 0 && v@ == decls@[k].1@,
                None => k == -1,
            }
        }),
{
    let mut i: usize = decls.len();
    while i > 0
        invariant
            i <= decls.len(),
            last_decl_index(decls@, name@, decls@.len() as int) == last_decl_index(decls@, name@, i as int),
        decreases i,
    {
        if str_eq_ignore_case(decls[i - 1].0.as_str(), name) {
            return Some(decls[i - 1].1.as_str());
        }
        i -= 1;
    }
    None
}

/// `s.trim()` then, when it begins with `name` (ASCII case-insensitive),
/// the text between a following `(` (after optional whitespace) and a
/// final `)`.
pub open spec fn strip_call_spec(s: Seq<char>, name: Seq<char>) -> Option<Seq<char>> {
    let t = trim(s);
    if t.len() < name.len() || !eq_ignore_case(t.subrange(0, name.len() as int), name) {
        None
    } else {
        let a = trim_start(t.subrange(name.len() as int, t.len() as int));
        if a.len() >= 2 && a[0] == '(' && a.last() == ')' {
            Some(a.subrange(1, a.len() - 1))
        } else {
            None
        }
    }
}

/// The argument text of a CSS function call `name( ... )`.
pub fn strip_call<'a>(s: &'a str, name: &str) -> (r: Option<&'a str>)
    ensures
        match strip_call_spec(s@, name@) {
            Some(v) => r.is_some() && r.unwrap()@ == v,
            None => r.is_none(),
        },
{
    let t = str_trim(s);
    let tv = str_chars(t);
    let n: usize = str_chars(name).len();
    if tv.len() < n {
        return None;
    }
    let head = t.substring_char(0, n);
    if !str_eq_ignore_case(head, name) {
        return None;
    }
    let after = t.substring_char(n, tv.len());
    let av = str_chars(after);
    let mut a: usize = 0;
    proof {
        crate::strings::lemma_first_non_ws(after@, 0);
    }
    while a < av.len() && crate::strings::char_is_whitespace(av[a])
        invariant
            a <= av.len(),
            av@ == after@,
            first_non_ws(after@, 0) == first_non_ws(after@, a as int),
        decreases av.len() - a,
    {
        a += 1;
    }
    let ghost aa = trim_start(after@);
    assert(aa =~= av@.subrange(a as int, av@.len() as int));
    if av.len() - a >= 2 && av[a] == '(' && av[av.len() - 1] == ')' {
        Some(after.substring_char(a + 1, av.len() - 1))
    } else {
        None
    }
}

/// Index of the first `c` in `s` at or after `i`, or `-1`.
pub open spec fn first_index_of(s: Seq<char>, c: char, i: int) -> int
    decreases s.len() - i,
{
    if i < 0 || i >= s.len() {
        -1
    } else if s[i] == c {
        i
    } else {
        first_index_of(s, c, i + 1)
    }
}

pub proof fn lemma_first_index_of(s: Seq<char>, c: char, i: int)
    requires
        0 <= i,
    ensures
        first_index_of(s, c, i) == -1 || (i <= first_index_of(s, c, i) < s.len() && s[first_index_of(s, c, i)] == c),
    decreases s.len() - i,
{
    if i < s.len() && s[i] != c {
        lemma_first_index_of(s, c, i + 1);
    }
}

/// The name and arguments of a `fn(args)` transform value: the name is
/// the trimmed text before the first `(`, the arguments the non-empty
/// comma- or whitespace-separated pieces between it and the last `)`.
pub open spec fn split_transform_spec(s: Seq<char>) -> Option<(Seq<char>, Seq<Seq<char>>)> {
    let t = trim(s);
    let open = first_index_of(t, '(', 0);
    let close = last_index_of(t, ')');
    if open < 0 || close < 0 || close <= open {
        None
    } else {
        Some((trim(t.subrange(0, open)), nonempty(split_by(t.subrange(open + 1, close), comma_or_ws_fn()))))
    }
}

/// Split a CSS `transform` function value into its name and arguments.
pub fn split_transform(s: &str) -> (r: Option<(String, Vec<String>)>)
    ensures
        match split_transform_spec(s@) {
            Some((n, args)) => r.is_some() && r.unwrap().0@ == n && strings_view(r.unwrap().1@) == args,
            None => r.is_none(),
        },
{
    let t = str_trim(s);
    let v = str_chars(t);
    let mut open: usize = 0;
    proof {
        lemma_first_index_of(t@, '(', 0);
    }
    while open < v.len() && v[open] != '('
        invariant
            open <= v.len(),
            v@ == t@,
            first_index_of(t@, '(', 0) == first_index_of(t@, '(', open as int),
        decreases v.len() - open,
    {
        open += 1;
    }
    if open >= v.len() {
        return None;
    }
    let mut close: usize = v.len();
    proof {
        crate::parser::lemma_last_index_of(t@, ')');
        assert(t@.take(v.len() as int) =~= t@);
    }
    while close > 0 && v[close - 1] != ')'
        invariant
            close <= v.len(),
            v@ == t@,
            last_index_of(t@, ')') == last_index_of(t@.take(close as int), ')'),
        decreases close,
    {
        assert(t@.take(close as int).drop_last() =~= t@.take(close - 1));
        close -= 1;
    }
    if close == 0 {
        return None;
    }
    let close_idx: usize = close - 1;
    assert(t@.take(close as int).last() == ')');
    if close_idx <= open {
        return None;
    }
    let name_raw = t.substring_char(0, open);
    let name = crate::strings::to_owned_string(str_trim(name_raw));
    let inner = t.substring_char(open + 1, close_idx);
    let args = split_nonempty(inner, Separator::CommaOrWhitespace);
    Some((name, args))
}

/// The unit suffix of a number-with-unit: what follows an optional sign
/// and the run of digits and dots, after trimming; `None` when empty.
pub open spec fn unit_suffix_spec(s: Seq<char>) -> Option<Seq<char>> {
    let t = trim(s);
    let i0: int = if t.len() > 0 && (t[0] == '+' || t[0] == '-') {
        1
    } else {
        0
    };
    let i = crate::strings::find_char(t, i0, |c: char| !(crate::strings::is_ascii_digit(c) || c == '.'));
    if i >= t.len() {
        None
    } else {
        Some(t.subrange(i, t.len() as int))
    }
}

/// The unit suffix of a transform argument (`deg`, `px`, …), if any.
pub fn unit_suffix(s: &str) -> (r: Option<&str>)
    ensures
        match unit_suffix_spec(s@) {
            Some(u) => r.is_some() && r.unwrap()@ == u,
            None => r.is_none(),
        },
{
    let t = str_trim(s);
    let v = str_chars(t);
    let mut i: usize = 0;
    if i < v.len() && (v[i] == '+' || v[i] == '-') {
        i = 1;
    }
    let ghost i0 = i;
    let ghost pred = |c: char| !(crate::strings::is_ascii_digit(c) || c == '.');
    while i < v.len() && (('0' <= v[i] && v[i] <= '9') || v[i] == '.')
        invariant
            i0 <= i <= v.len(),
            v@ == t@,
            pred == |c: char| !(crate::strings::is_ascii_digit(c) || c == '.'),
            crate::strings::find_char(t@, i0 as int, pred) == crate::strings::find_char(t@, i as int, pred),
        decreases v.len() - i,
    {
        i += 1;
    }
    if i >= v.len() {
        None
    } else {
        Some(t.substring_char(i, v.len()))
    }
}

/// A clock value (`2s`, `150ms`, `.5`): the text of its number (sign,
/// digits and at most one `.`; at least one digit) and whether its unit
/// (trimmed, any case) is `ms`; any other unit counts as seconds. `None`
/// for an empty value or one without a number.
pub open spec fn clock_parts_spec(s: Seq<char>) -> Option<(Seq<char>, bool)> {
    let t = trim(s);
    if t.len() == 0 || !has_mantissa_digit(t, 0) {
        None
    } else {
        let b = frac_end(t, 0);
        Some((t.take(b), lower_seq(trim(t.subrange(b, t.len() as int))) == "ms"@))
    }
}

/// Split a clock value into its number text and whether it is in
/// milliseconds.
pub fn clock_parts(s: &str) -> (r: Option<(String, bool)>)
    ensures
        match r {
            Some((n, ms)) => clock_parts_spec(s@) == Some((n@, ms)),
            None => clock_parts_spec(s@) is None,
        },
{
    let t = str_trim(s);
    let v = str_chars(t);
    if v.len() == 0 {
        return None;
    }
    let (b, saw_digit) = scan_mantissa(&v, 0);
    if !saw_digit {
        return None;
    }
    let number = string_from_chars(&v, 0, b);
    let unit = str_lower(str_trim(t.substring_char(b, v.len())));
    let ms = str_eq(unit.as_str(), "ms");
    assert(v@.subrange(0, b as int) =~= t@.take(b as int));
    Some((number, ms))
}

/// An `<easing-function>` (CSS Easing Functions L1) as written, before
/// its `cubic-bezier()` arguments are read as numbers.
#[derive(Clone, Debug, PartialEq, Eq)]
pub enum EasingSyntax {
    Linear,
    Ease,
    EaseIn,
    EaseOut,
    EaseInOut,
    /// `cubic-bezier(x1, y1, x2, y2)`: the four argument texts, trimmed.
    CubicBezier(String, String, String, String),
    /// `steps(<count>[, <position>])`, `step-start`, `step-end`.
    Steps(u32, StepPosition),
}

/// [`EasingSyntax`] with its argument texts as character sequences.
pub enum EasingModel {
    Linear,
    Ease,
    EaseIn,
    EaseOut,
    EaseInOut,
    CubicBezier(Seq<char>, Seq<char>, Seq<char>, Seq<char>),
    Steps(u32, StepPosition),
}

impl View for EasingSyntax {
    type V = EasingModel;

    open spec fn view(&self) -> EasingModel {
        match self {
            EasingSyntax::Linear => EasingModel::Linear,
            EasingSyntax::Ease => EasingModel::Ease,
            EasingSyntax::EaseIn => EasingModel::EaseIn,
            EasingSyntax::EaseOut => EasingModel::EaseOut,
            EasingSyntax::EaseInOut => EasingModel::EaseInOut,
            EasingSyntax::CubicBezier(a, b, c, d) => EasingModel::CubicBezier(a@, b@, c@, d@),
            EasingSyntax::Steps(n, p) => EasingModel::Steps(*n, *p),
        }
    }
}

/// The comma-separated arguments of `l` as a call of `name`, each
/// trimmed.
pub open spec fn call_args(l: Seq<char>, name: Seq<char>) -> Option<Seq<Seq<char>>> {
    match strip_call_spec(l, name) {
        Some(a) => Some(trim_each(split_by(a, comma_fn()))),
        None => None,
    }
}

/// The jump position a `steps()` argument list names: `start` or
/// `jump-start` in second place, else the end.
pub open spec fn step_position_of(parts: Seq<Seq<char>>) -> StepPosition {
    if parts.len() >= 2 && (parts[1] == "start"@ || parts[1] == "jump-start"@) {
        StepPosition::Start
    } else {
        StepPosition::End
    }
}

/// What an `<easing-function>` value says: the keyword forms, a
/// `cubic-bezier()` call with exactly four arguments, or a `steps()`
/// call whose first argument is a `u32` literal; matched ASCII
/// case-insensitively after trimming. `None` otherwise.
pub open spec fn easing_spec(s: Seq<char>) -> Option<EasingModel> {
    let l = lower_seq(trim(s));
    if l.len() == 0 {
        None
    } else if l == "linear"@ {
        Some(EasingModel::Linear)
    } else if l == "ease"@ {
        Some(EasingModel::Ease)
    } else if l == "ease-in"@ {
        Some(EasingModel::EaseIn)
    } else if l == "ease-out"@ {
        Some(EasingModel::EaseOut)
    } else if l == "ease-in-out"@ {
        Some(EasingModel::EaseInOut)
    } else if l == "step-start"@ {
        Some(EasingModel::Steps(1, StepPosition::Start))
    } else if l == "step-end"@ {
        Some(EasingModel::Steps(1, StepPosition::End))
    } else if call_args(l, "cubic-bezier"@) is Some && call_args(l, "cubic-bezier"@)->0.len() == 4 {
        let p = call_args(l, "cubic-bezier"@)->0;
        Some(EasingModel::CubicBezier(p[0], p[1], p[2], p[3]))
    } else {
        match call_args(l, "steps"@) {
            Some(p) => match u32_literal(p[0]) {
                Some(n) => Some(EasingModel::Steps(n, step_position_of(p))),
                None => None,
            },
            None => None,
        }
    }
}

/// Read an `<easing-function>` value; see [`easing_spec`].
pub fn parse_easing(s: &str) -> (r: Option<EasingSyntax>)
    ensures
        match easing_spec(s@) {
            Some(m) => r is Some && r->0@ == m,
            None => r is None,
        },
        (r matches Some(EasingSyntax::Linear)) == (lower_seq(trim(s@)) == "linear"@),
        (r matches Some(EasingSyntax::Ease)) == (lower_seq(trim(s@)) == "ease"@),
        (r matches Some(EasingSyntax::EaseIn)) == (lower_seq(trim(s@)) == "ease-in"@),
        (r matches Some(EasingSyntax::EaseOut)) == (lower_seq(trim(s@)) == "ease-out"@),
        (r matches Some(EasingSyntax::EaseInOut)) == (lower_seq(trim(s@)) == "ease-in-out"@),
{
    proof {
        lemma_easing_keywords(s@);
    }
    let lower = str_lower(str_trim(s));
    let l = lower.as_str();
    if str_chars(l).len() == 0 {
        return None;
    }
    if str_eq(l, "linear") {
        return Some(EasingSyntax::Linear);
    }
    if str_eq(l, "ease") {
        return Some(EasingSyntax::Ease);
    }
    if str_eq(l, "ease-in") {
        return Some(EasingSyntax::EaseIn);
    }
    if str_eq(l, "ease-out") {
        return Some(EasingSyntax::EaseOut);
    }
    if str_eq(l, "ease-in-out") {
        return Some(EasingSyntax::EaseInOut);
    }
    if str_eq(l, "step-start") {
        return Some(EasingSyntax::Steps(1, StepPosition::Start));
    }
    if str_eq(l, "step-end") {
        return Some(EasingSyntax::Steps(1, StepPosition::End));
    }
    if let Some(args) = strip_call(l, "cubic-bezier") {
        let parts = split_each_trimmed(args, Separator::Comma);
        proof {
            assert(strs_view(parts@).len() == parts@.len());
        }
        if parts.len() == 4 {
            proof {
                assert(strs_view(parts@)[0] == parts@[0]@);
                assert(strs_view(parts@)[1] == parts@[1]@);
                assert(strs_view(parts@)[2] == parts@[2]@);
                assert(strs_view(parts@)[3] == parts@[3]@);
            }
            return Some(
                EasingSyntax::CubicBezier(
                    parts[0].to_owned(),
                    parts[1].to_owned(),
                    parts[2].to_owned(),
                    parts[3].to_owned(),
                ),
            );
        }
    }
    match strip_call(l, "steps") {
        None => None,
        Some(args) => {
            let parts = split_each_trimmed(args, Separator::Comma);
            proof {
                assert(split_by(args@, comma_fn()).len() >= 1);
                assert(strs_view(parts@).len() == parts@.len());
                assert(strs_view(parts@)[0] == parts@[0]@);
            }
            match parse_u32(parts[0]) {
                None => None,
                Some(n) => {
                    let position = if parts.len() >= 2 && (str_eq(parts[1], "start") || str_eq(
                        parts[1],
                        "jump-start",
                    )) {
                        StepPosition::Start
                    } else {
                        StepPosition::End
                    };
                    proof {
                        if parts.len() >= 2 {
                            assert(strs_view(parts@)[1] == parts@[1]@);
                        }
                    }
                    Some(EasingSyntax::Steps(n, position))
                },
            }
        },
    }
}

/// An `animation-iteration-count` value as written.
#[derive(Clone, Debug, PartialEq, Eq)]
pub enum IterationCount {
    /// `infinite`, in any ASCII case.
    Infinite,
    /// Any other value: its trimmed text, for the caller to read as a
    /// number.
    Number(String),
}

/// Classify an `animation-iteration-count` value after trimming.
pub fn iteration_count_syntax(s: &str) -> (r: IterationCount)
    ensures
        eq_ignore_case(trim(s@), "infinite"@) ==> r == IterationCount::Infinite,
        !eq_ignore_case(trim(s@), "infinite"@) ==> (r matches IterationCount::Number(t) && t@ == trim(
            s@,
        )),
{
    let t = str_trim(s);
    if str_eq_ignore_case(t, "infinite") {
        IterationCount::Infinite
    } else {
        IterationCount::Number(t.to_owned())
    }
}


/// The names of an `animation-name` list: its comma-separated items,
/// trimmed, with empty items and `none` (any ASCII case) dropped.
pub open spec fn named_only(items: Seq<Seq<char>>) -> Seq<Seq<char>>
    decreases items.len(),
{
    if items.len() == 0 {
        Seq::empty()
    } else {
        let r = named_only(items.drop_last());
        if eq_ignore_case(items.last(), "none"@) {
            r
        } else {
            r.push(items.last())
        }
    }
}

/// The animation names of an `animation-name` value, in order.
pub fn animation_names(raw: &str) -> (r: Vec<&str>)
    ensures
        strs_view(r@) == named_only(trimmed_nonempty(split_by(raw@, comma_fn()))),
{
    let items = split_csv(raw);
    let ghost iv = strs_view(items@);
    let mut out: Vec<&str> = Vec::new();
    let mut i: usize = 0;
    assert(iv.take(0) =~= Seq::<Seq<char>>::empty());
    assert(strs_view(out@) =~= Seq::<Seq<char>>::empty());
    while i < items.len()
        invariant
            i <= items@.len(),
            iv == strs_view(items@),
            iv.len() == items@.len(),
            strs_view(out@) == named_only(iv.take(i as int)),
        decreases items.len() - i,
    {
        proof {
            assert(iv.take(i + 1).drop_last() =~= iv.take(i as int));
            assert(iv.take(i + 1).last() == items@[i as int]@);
        }
        if !str_eq_ignore_case(items[i], "none") {
            let ghost before = out@;
            out.push(items[i]);
            assert(strs_view(out@) =~= strs_view(before).push(items@[i as int]@));
        }
        i += 1;
    }
    assert(iv.take(i as int) =~= iv);
    out
}

/// Position of the first entry at or after `i` whose property name is
/// `k` in any ASCII case, or `-1`.
pub open spec fn key_index(m: Seq<(Seq<char>, Seq<char>)>, k: Seq<char>, i: int) -> int
    decreases m.len() - i,
{
    if i < 0 || i >= m.len() {
        -1
    } else if eq_ignore_case(m[i].0, k) {
        i
    } else {
        key_index(m, k, i + 1)
    }
}

/// One property override merged in: the value of the first entry with
/// the same name (any ASCII case) is replaced, else the pair is
/// appended.
pub open spec fn merge_one(m: Seq<(Seq<char>, Seq<char>)>, kv: (Seq<char>, Seq<char>)) -> Seq<
    (Seq<char>, Seq<char>),
> {
    let j = key_index(m, kv.0, 0);
    if j >= 0 {
        m.update(j, (m[j].0, kv.1))
    } else {
        m.push(kv)
    }
}

/// Overrides merged in, in order.
pub open spec fn merge_all(m: Seq<(Seq<char>, Seq<char>)>, snap: Seq<(Seq<char>, Seq<char>)>) -> Seq<
    (Seq<char>, Seq<char>),
>
    decreases snap.len(),
{
    if snap.len() == 0 {
        m
    } else {
        merge_one(merge_all(m, snap.drop_last()), snap.last())
    }
}

pub open spec fn pairs_of(v: Seq<(String, String)>) -> Seq<(Seq<char>, Seq<char>)> {
    v.map_values(|p: (String, String)| (p.0@, p.1@))
}

proof fn lemma_key_index_range(m: Seq<(Seq<char>, Seq<char>)>, k: Seq<char>, i: int)
    requires
        0 <= i,
    ensures
        key_index(m, k, i) == -1 || (i <= key_index(m, k, i) < m.len() && eq_ignore_case(
            m[key_index(m, k, i)].0,
            k,
        )),
    decreases m.len() - i,
{
    if i < m.len() && !eq_ignore_case(m[i].0, k) {
        lemma_key_index_range(m, k, i + 1);
    }
}

fn key_position(m: &Vec<(String, String)>, k: &str) -> (r: Option<usize>)
    ensures
        match r {
            Some(j) => j < m@.len() && key_index(pairs_of(m@), k@, 0) == j as int,
            None => key_index(pairs_of(m@), k@, 0) == -1,
        },
{
    let ghost mv = pairs_of(m@);
    let mut j: usize = 0;
    while j < m.len()
        invariant
            j <= m@.len(),
            mv == pairs_of(m@),
            mv.len() == m@.len(),
            key_index(mv, k@, 0) == key_index(mv, k@, j as int),
        decreases m.len() - j,
    {
        assert(mv[j as int].0 == m@[j as int].0@);
        if str_eq_ignore_case(m[j].0.as_str(), k) {
            return Some(j);
        }
        j += 1;
    }
    None
}

/// Merge one animation's property overrides into `merged`: a later
/// animation overrides an earlier one on a shared property name (the
/// name compared in any ASCII case), new names are appended.
pub fn merge_overrides(merged: &mut Vec<(String, String)>, snap: &Vec<(String, String)>)
    ensures
        pairs_of(final(merged)@) == merge_all(pairs_of(old(merged)@), pairs_of(snap@)),
{
    let ghost m0 = pairs_of(old(merged)@);
    let ghost sv = pairs_of(snap@);
    let mut i: usize = 0;
    assert(sv.take(0) =~= Seq::<(Seq<char>, Seq<char>)>::empty());
    while i < snap.len()
        invariant
            i <= snap@.len(),
            sv == pairs_of(snap@),
            sv.len() == snap@.len(),
            m0 == pairs_of(old(merged)@),
            pairs_of(merged@) == merge_all(m0, sv.take(i as int)),
        decreases snap.len() - i,
    {
        let ghost before = pairs_of(merged@);
        proof {
            assert(sv.take(i + 1).drop_last() =~= sv.take(i as int));
            assert(sv.take(i + 1).last() == sv[i as int]);
            assert(sv[i as int] == (snap@[i as int].0@, snap@[i as int].1@));
        }
        match key_position(merged, snap[i].0.as_str()) {
            Some(j) => {
                let name = merged[j].0.clone();
                merged.set(j, (name, snap[i].1.clone()));
                assert(pairs_of(merged@) =~= before.update(j as int, (before[j as int].0, sv[i as int].1)));
            },
            None => {
                merged.push((snap[i].0.clone(), snap[i].1.clone()));
                assert(pairs_of(merged@) =~= before.push(sv[i as int]));
            },
        }
        i += 1;
    }
    assert(sv.take(i as int) =~= sv);
}

/// The value of the first entry named `k` (any ASCII case).
pub open spec fn value_for(m: Seq<(Seq<char>, Seq<char>)>, k: Seq<char>) -> Option<Seq<char>> {
    let j = key_index(m, k, 0);
    if 0 <= j < m.len() {
        Some(m[j].1)
    } else {
        None
    }
}

/// The value of the last override named `k` (any ASCII case).
pub open spec fn last_value(snap: Seq<(Seq<char>, Seq<char>)>, k: Seq<char>) -> Option<Seq<char>>
    decreases snap.len(),
{
    if snap.len() == 0 {
        None
    } else if eq_ignore_case(snap.last().0, k) {
        Some(snap.last().1)
    } else {
        last_value(snap.drop_last(), k)
    }
}

proof fn lemma_eq_ignore_case_trans(a: Seq<char>, b: Seq<char>, c: Seq<char>)
    requires
        eq_ignore_case(a, b),
    ensures
        eq_ignore_case(a, c) == eq_ignore_case(b, c),
{
    if eq_ignore_case(b, c) {
        assert forall|i: int| 0 <= i < a.len() implies lower(#[trigger] a[i]) == lower(c[i]) by {
            assert(lower(a[i]) == lower(b[i]));
            assert(lower(b[i]) == lower(c[i]));
        }
    }
    if eq_ignore_case(a, c) {
        assert forall|i: int| 0 <= i < b.len() implies lower(#[trigger] b[i]) == lower(c[i]) by {
            assert(lower(a[i]) == lower(b[i]));
            assert(lower(a[i]) == lower(c[i]));
        }
    }
}

proof fn lemma_key_index_same_keys(
    m: Seq<(Seq<char>, Seq<char>)>,
    n: Seq<(Seq<char>, Seq<char>)>,
    k: Seq<char>,
    i: int,
)
    requires
        m.len() == n.len(),
        forall|t: int| 0 <= t < m.len() ==> #[trigger] m[t].0 == n[t].0,
    ensures
        key_index(m, k, i) == key_index(n, k, i),
    decreases m.len() - i,
{
    if 0 <= i < m.len() && !eq_ignore_case(m[i].0, k) {
        lemma_key_index_same_keys(m, n, k, i + 1);
    }
}

proof fn lemma_key_index_push(m: Seq<(Seq<char>, Seq<char>)>, kv: (Seq<char>, Seq<char>), k: Seq<char>, i: int)
    requires
        0 <= i <= m.len(),
    ensures
        key_index(m.push(kv), k, i) == if key_index(m, k, i) >= 0 {
            key_index(m, k, i)
        } else if eq_ignore_case(kv.0, k) {
            m.len() as int
        } else {
            -1
        },
    decreases m.len() - i,
{
    if i < m.len() {
        assert(m.push(kv)[i] == m[i]);
        if !eq_ignore_case(m[i].0, k) {
            lemma_key_index_push(m, kv, k, i + 1);
        }
    } else {
        assert(m.push(kv)[i] == kv);
        assert(key_index(m, k, i) == -1);
        assert(key_index(m.push(kv), k, i + 1) == -1);
    }
}

proof fn lemma_key_index_equiv(m: Seq<(Seq<char>, Seq<char>)>, k1: Seq<char>, k2: Seq<char>, i: int)
    requires
        eq_ignore_case(k1, k2),
    ensures
        key_index(m, k1, i) == key_index(m, k2, i),
    decreases m.len() - i,
{
    if 0 <= i < m.len() {
        lemma_eq_ignore_case_trans(k1, k2, m[i].0);
        lemma_eq_ignore_case_sym(m[i].0, k1);
        lemma_eq_ignore_case_sym(m[i].0, k2);
        if !eq_ignore_case(m[i].0, k1) {
            lemma_key_index_equiv(m, k1, k2, i + 1);
        }
    }
}

proof fn lemma_eq_ignore_case_sym(a: Seq<char>, b: Seq<char>)
    ensures
        eq_ignore_case(a, b) == eq_ignore_case(b, a),
{
}

/// Later overrides win: after merging a list of overrides, the value
/// of property `k` is that of the last override named `k` (any ASCII
/// case) when there is one, and unchanged otherwise.
pub proof fn lemma_last_listed_wins(
    m: Seq<(Seq<char>, Seq<char>)>,
    snap: Seq<(Seq<char>, Seq<char>)>,
    k: Seq<char>,
)
    ensures
        value_for(merge_all(m, snap), k) == match last_value(snap, k) {
            Some(v) => Some(v),
            None => value_for(m, k),
        },
    decreases snap.len(),
{
    if snap.len() > 0 {
        let p = merge_all(m, snap.drop_last());
        lemma_last_listed_wins(m, snap.drop_last(), k);
        let kv = snap.last();
        let j = key_index(p, kv.0, 0);
        let kk = key_index(p, k, 0);
        lemma_key_index_range(p, kv.0, 0);
        lemma_key_index_range(p, k, 0);
        assert(merge_all(m, snap) == merge_one(p, kv));
        if j >= 0 {
            let q = p.update(j, (p[j].0, kv.1));
            assert(merge_one(p, kv) == q);
            assert forall|t: int| 0 <= t < p.len() implies #[trigger] p[t].0 == q[t].0 by {}
            lemma_key_index_same_keys(p, q, k, 0);
            if eq_ignore_case(kv.0, k) {
                lemma_key_index_equiv(p, kv.0, k, 0);
                assert(kk == j);
                assert(value_for(q, k) == Some(kv.1));
            } else {
                lemma_eq_ignore_case_trans(p[j].0, kv.0, k);
                if kk >= 0 {
                    assert(kk != j);
                    assert(q[kk] == p[kk]);
                }
                assert(value_for(q, k) == value_for(p, k));
            }
        } else {
            assert(merge_one(p, kv) == p.push(kv));
            lemma_key_index_push(p, kv, k, 0);
            if eq_ignore_case(kv.0, k) {
                lemma_key_index_equiv(p, kv.0, k, 0);
                assert(p.push(kv)[p.len() as int] == kv);
                assert(value_for(p.push(kv), k) == Some(kv.1));
            } else {
                if kk >= 0 {
                    assert(p.push(kv)[kk] == p[kk]);
                }
                assert(value_for(p.push(kv), k) == value_for(p, k));
            }
        }
    }
}


/// Each easing keyword names its own curve, and only that keyword gives
/// it: `ease-in` is the ease-in curve, `ease-out` the ease-out curve,
/// and so on (ASCII case-insensitive, surrounding whitespace ignored);
/// `step-start` and `step-end` are one step jumping at the start and at
/// the end.
pub proof fn lemma_easing_keywords(s: Seq<char>)
    ensures
        (easing_spec(s) == Some(EasingModel::Linear)) == (lower_seq(trim(s)) == "linear"@),
        (easing_spec(s) == Some(EasingModel::Ease)) == (lower_seq(trim(s)) == "ease"@),
        (easing_spec(s) == Some(EasingModel::EaseIn)) == (lower_seq(trim(s)) == "ease-in"@),
        (easing_spec(s) == Some(EasingModel::EaseOut)) == (lower_seq(trim(s)) == "ease-out"@),
        (easing_spec(s) == Some(EasingModel::EaseInOut)) == (lower_seq(trim(s)) == "ease-in-out"@),
        lower_seq(trim(s)) == "step-start"@ ==> easing_spec(s) == Some(
            EasingModel::Steps(1, StepPosition::Start),
        ),
        lower_seq(trim(s)) == "step-end"@ ==> easing_spec(s) == Some(
            EasingModel::Steps(1, StepPosition::End),
        ),
{
    reveal_strlit("linear");
    reveal_strlit("ease");
    reveal_strlit("ease-in");
    reveal_strlit("ease-out");
    reveal_strlit("ease-in-out");
    reveal_strlit("step-start");
    reveal_strlit("step-end");
    assert("linear"@.len() == 6 && "linear"@[0] == 'l' && "linear"@[1] == 'i' && "linear"@[2] == 'n' && "linear"@[3] == 'e' && "linear"@[4] == 'a' && "linear"@[5] == 'r');
    assert("ease"@.len() == 4 && "ease"@[0] == 'e' && "ease"@[1] == 'a' && "ease"@[2] == 's' && "ease"@[3] == 'e');
    assert("ease-in"@.len() == 7 && "ease-in"@[0] == 'e' && "ease-in"@[1] == 'a' && "ease-in"@[2] == 's' && "ease-in"@[3] == 'e' && "ease-in"@[4] == '-' && "ease-in"@[5] == 'i' && "ease-in"@[6] == 'n');
    assert("ease-out"@.len() == 8 && "ease-out"@[0] == 'e' && "ease-out"@[1] == 'a' && "ease-out"@[2] == 's' && "ease-out"@[3] == 'e' && "ease-out"@[4] == '-' && "ease-out"@[5] == 'o' && "ease-out"@[6] == 'u' && "ease-out"@[7] == 't');
    assert("ease-in-out"@.len() == 11 && "ease-in-out"@[0] == 'e' && "ease-in-out"@[1] == 'a' && "ease-in-out"@[2] == 's' && "ease-in-out"@[3] == 'e' && "ease-in-out"@[4] == '-' && "ease-in-out"@[5] == 'i' && "ease-in-out"@[6] == 'n' && "ease-in-out"@[7] == '-' && "ease-in-out"@[8] == 'o' && "ease-in-out"@[9] == 'u' && "ease-in-out"@[10] == 't');
    assert("step-start"@.len() == 10 && "step-start"@[0] == 's' && "step-start"@[1] == 't' && "step-start"@[2] == 'e' && "step-start"@[3] == 'p' && "step-start"@[4] == '-' && "step-start"@[5] == 's' && "step-start"@[6] == 't' && "step-start"@[7] == 'a' && "step-start"@[8] == 'r' && "step-start"@[9] == 't');
    assert("step-end"@.len() == 8 && "step-end"@[0] == 's' && "step-end"@[1] == 't' && "step-end"@[2] == 'e' && "step-end"@[3] == 'p' && "step-end"@[4] == '-' && "step-end"@[5] == 'e' && "step-end"@[6] == 'n' && "step-end"@[7] == 'd');
}


/// Each `animation-direction` keyword names its own direction; nothing
/// else is a direction.
pub proof fn lemma_direction_keywords(t: Seq<char>)
    ensures
        (AnimationDirection::spec_parse(t) == Some(AnimationDirection::Normal)) == (t == "normal"@),
        (AnimationDirection::spec_parse(t) == Some(AnimationDirection::Reverse)) == (t == "reverse"@),
        (AnimationDirection::spec_parse(t) == Some(AnimationDirection::Alternate)) == (t == "alternate"@),
        (AnimationDirection::spec_parse(t) == Some(AnimationDirection::AlternateReverse)) == (t == "alternate-reverse"@),
        (AnimationDirection::spec_parse(t) is None) == !(t == "normal"@ || t == "reverse"@ || t == "alternate"@ || t == "alternate-reverse"@),
{
    reveal_strlit("normal");
    reveal_strlit("reverse");
    reveal_strlit("alternate");
    reveal_strlit("alternate-reverse");
    assert("normal"@.len() == 6 && "normal"@[0] == 'n' && "normal"@[1] == 'o' && "normal"@[2] == 'r' && "normal"@[3] == 'm' && "normal"@[4] == 'a' && "normal"@[5] == 'l');
    assert("reverse"@.len() == 7 && "reverse"@[0] == 'r' && "reverse"@[1] == 'e' && "reverse"@[2] == 'v' && "reverse"@[3] == 'e' && "reverse"@[4] == 'r' && "reverse"@[5] == 's' && "reverse"@[6] == 'e');
    assert("alternate"@.len() == 9 && "alternate"@[0] == 'a' && "alternate"@[1] == 'l' && "alternate"@[2] == 't' && "alternate"@[3] == 'e' && "alternate"@[4] == 'r' && "alternate"@[5] == 'n' && "alternate"@[6] == 'a' && "alternate"@[7] == 't' && "alternate"@[8] == 'e');
    assert("alternate-reverse"@.len() == 17 && "alternate-reverse"@[0] == 'a' && "alternate-reverse"@[1] == 'l' && "alternate-reverse"@[2] == 't' && "alternate-reverse"@[3] == 'e' && "alternate-reverse"@[4] == 'r' && "alternate-reverse"@[5] == 'n' && "alternate-reverse"@[6] == 'a' && "alternate-reverse"@[7] == 't' && "alternate-reverse"@[8] == 'e' && "alternate-reverse"@[9] == '-' && "alternate-reverse"@[10] == 'r' && "alternate-reverse"@[11] == 'e' && "alternate-reverse"@[12] == 'v' && "alternate-reverse"@[13] == 'e' && "alternate-reverse"@[14] == 'r' && "alternate-reverse"@[15] == 's' && "alternate-reverse"@[16] == 'e');
}

/// Each `animation-fill-mode` keyword names its own fill mode (`none`
/// is no fill); nothing else is a fill mode.
pub proof fn lemma_fill_mode_keywords(t: Seq<char>)
    ensures
        (AnimationFillMode::spec_parse(t) == Some(AnimationFillMode::NoFill)) == (t == "none"@),
        (AnimationFillMode::spec_parse(t) == Some(AnimationFillMode::Forwards)) == (t == "forwards"@),
        (AnimationFillMode::spec_parse(t) == Some(AnimationFillMode::Backwards)) == (t == "backwards"@),
        (AnimationFillMode::spec_parse(t) == Some(AnimationFillMode::Both)) == (t == "both"@),
        (AnimationFillMode::spec_parse(t) is None) == !(t == "none"@ || t == "forwards"@ || t == "backwards"@ || t == "both"@),
{
    reveal_strlit("none");
    reveal_strlit("forwards");
    reveal_strlit("backwards");
    reveal_strlit("both");
    assert("none"@.len() == 4 && "none"@[0] == 'n' && "none"@[1] == 'o' && "none"@[2] == 'n' && "none"@[3] == 'e');
    assert("forwards"@.len() == 8 && "forwards"@[0] == 'f' && "forwards"@[1] == 'o' && "forwards"@[2] == 'r' && "forwards"@[3] == 'w' && "forwards"@[4] == 'a' && "forwards"@[5] == 'r' && "forwards"@[6] == 'd' && "forwards"@[7] == 's');
    assert("backwards"@.len() == 9 && "backwards"@[0] == 'b' && "backwards"@[1] == 'a' && "backwards"@[2] == 'c' && "backwards"@[3] == 'k' && "backwards"@[4] == 'w' && "backwards"@[5] == 'a' && "backwards"@[6] == 'r' && "backwards"@[7] == 'd' && "backwards"@[8] == 's');
    assert("both"@.len() == 4 && "both"@[0] == 'b' && "both"@[1] == 'o' && "both"@[2] == 't' && "both"@[3] == 'h');
}

/// `steps()` jumps at the start exactly when its second argument is
/// `start` or `jump-start`.
pub proof fn lemma_step_position(parts: Seq<Seq<char>>)
    ensures
        (step_position_of(parts) == StepPosition::Start) == (parts.len() >= 2 && (parts[1] == "start"@
            || parts[1] == "jump-start"@)),
        (step_position_of(parts) == StepPosition::End) == !(parts.len() >= 2 && (parts[1] == "start"@
            || parts[1] == "jump-start"@)),
{
}


/// Declaration lookup finds the last declaration of that name (ASCII
/// case-insensitively), as the cascade lets later declarations win: the
/// one it finds has the name and none after it (below `i`) does; when it
/// finds none, none of the first `i` has the name.
pub proof fn lemma_last_decl_wins(decls: Seq<(String, String)>, name: Seq<char>, i: int)
    requires
        0 <= i <= decls.len(),
    ensures
        ({
            let k = last_decl_index(decls, name, i);
            &&& k >= 0 ==> k < i && eq_ignore_case(decls[k].0@, name)
            &&& forall|j: int| k < j < i ==> !eq_ignore_case((#[trigger] decls[j]).0@, name)
        }),
    decreases i,
{
    if i > 0 && !eq_ignore_case(decls[i - 1].0@, name) {
        lemma_last_decl_wins(decls, name, i - 1);
    }
}

} // verus!
