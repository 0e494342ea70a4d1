//! The `transform` attribute grammar (SVG 1.1 §7.6): a sequence of
//! `name(args)` items separated by whitespace or commas. Each item is
//! read into its transform kind and its numbers as source text, with the
//! argument-count rules of §7.6.2–§7.6.8 checked; building the matrices
//! (floating point) and composing them left to right is the caller's.
//! A `matrix()` item written from six plain numbers reads back as them.

use vstd::prelude::*;
use vstd::string::*;

use crate::number::{
    lemma_number_at_advances, not_token_sep_fn, number_at, read_number_at, skip_separators,
    skip_seps, NumberError,
};
use crate::path_writer::{
    args_text, lemma_args_text_push, lemma_find_char_is, lemma_plain_in_context, plain_number,
};
use crate::strings::{
    find_char, is_ascii_alpha, push_char, push_str, lemma_find_char, lower_seq, str_chars, str_eq, string_from_chars,
    strings_view,
};

verus! {

/// The transform functions of SVG 1.1 §7.6.
#[derive(Clone, Copy, Debug, PartialEq, Eq, Structural)]
pub enum TransformKind {
    Matrix,
    Translate,
    Scale,
    Rotate,
    SkewX,
    SkewY,
}

/// Why a `transform` attribute failed to parse.
#[derive(Clone, Copy, Debug, PartialEq, Eq, Structural)]
pub enum TransformError {
    /// A separator-delimited item does not start with a letter.
    ExpectedName,
    /// The function name is not followed by `(`.
    ExpectedOpenParen,
    /// The text ends inside an argument list.
    Unterminated,
    /// An argument with no digit.
    ExpectedNumber,
    /// An argument that is not a valid number.
    MalformedNumber,
    /// `matrix()` without exactly six numbers.
    MatrixArity,
    /// `translate()` without a number.
    TranslateArity,
    /// `scale()` without a number.
    ScaleArity,
    /// `rotate()` without a number.
    RotateAngle,
    /// `rotate()` with two numbers or more than three.
    RotateArity,
    /// `skewX()` without a number.
    SkewXArity,
    /// `skewY()` without a number.
    SkewYArity,
    /// A function name that is not one of the six.
    UnknownFunction,
}

/// Message text of each error.
pub open spec fn transform_error_message(e: TransformError) -> Seq<char> {
    match e {
        TransformError::ExpectedName => "SVG transform: expected function name"@,
        TransformError::ExpectedOpenParen => "SVG transform: expected '(' after function name"@,
        TransformError::Unterminated => "SVG transform: unterminated arg list"@,
        TransformError::ExpectedNumber => "SVG transform: expected number"@,
        TransformError::MalformedNumber => "SVG transform: malformed number"@,
        TransformError::MatrixArity => "SVG transform: matrix() needs 6 numbers"@,
        TransformError::TranslateArity => "SVG transform: translate() needs at least 1 number"@,
        TransformError::ScaleArity => "SVG transform: scale() needs at least 1 number"@,
        TransformError::RotateAngle => "SVG transform: rotate() needs at least the angle"@,
        TransformError::RotateArity => "SVG transform: rotate() takes 1 or 3 numbers"@,
        TransformError::SkewXArity => "SVG transform: skewX() needs an angle"@,
        TransformError::SkewYArity => "SVG transform: skewY() needs an angle"@,
        TransformError::UnknownFunction => "SVG transform: unknown function"@,
    }
}

impl TransformError {
    /// The error text the SVG decoder reports.
    pub fn message(&self) -> (m: &'static str)
        ensures
            m@ == transform_error_message(*self),
    {
        match self {
            TransformError::ExpectedName => "SVG transform: expected function name",
            TransformError::ExpectedOpenParen => "SVG transform: expected '(' after function name",
            TransformError::Unterminated => "SVG transform: unterminated arg list",
            TransformError::ExpectedNumber => "SVG transform: expected number",
            TransformError::MalformedNumber => "SVG transform: malformed number",
            TransformError::MatrixArity => "SVG transform: matrix() needs 6 numbers",
            TransformError::TranslateArity => "SVG transform: translate() needs at least 1 number",
            TransformError::ScaleArity => "SVG transform: scale() needs at least 1 number",
            TransformError::RotateAngle => "SVG transform: rotate() needs at least the angle",
            TransformError::RotateArity => "SVG transform: rotate() takes 1 or 3 numbers",
            TransformError::SkewXArity => "SVG transform: skewX() needs an angle",
            TransformError::SkewYArity => "SVG transform: skewY() needs an angle",
            TransformError::UnknownFunction => "SVG transform: unknown function",
        }
    }
}

/// One item of a transform list.
#[derive(Clone, Debug)]
pub struct TransformCall {
    pub kind: TransformKind,
    /// The numbers as source text, in order.
    pub args: Vec<String>,
}

/// Mathematical model of a [`TransformCall`].
pub struct SCall {
    pub kind: TransformKind,
    pub args: Seq<Seq<char>>,
}

impl TransformCall {
    pub open spec fn model(&self) -> SCall {
        SCall { kind: self.kind, args: strings_view(self.args@) }
    }
}

pub open spec fn calls_model(v: Seq<TransformCall>) -> Seq<SCall> {
    v.map_values(|x: TransformCall| x.model())
}

pub open spec fn not_alpha_fn() -> spec_fn(char) -> bool {
    |c: char| !is_ascii_alpha(c)
}

pub open spec fn number_error(e: NumberError) -> TransformError {
    match e {
        NumberError::Expected => TransformError::ExpectedNumber,
        NumberError::Malformed => TransformError::MalformedNumber,
    }
}

/// The arguments from `p` up to the closing `)`, and the position of the
/// `)`.
pub open spec fn args_from(s: Seq<char>, p: nat) -> Result<(Seq<Seq<char>>, int), TransformError>
    decreases s.len() - p,
{
    let q = skip_seps(s, p as int);
    if q >= s.len() {
        Err(TransformError::Unterminated)
    } else if s[q] == ')' {
        Ok((Seq::empty(), q))
    } else {
        match number_at(s, q) {
            Err(e) => Err(number_error(e)),
            Ok((lex, e)) => {
                proof {
                    lemma_find_char(s, p as int, not_token_sep_fn());
                    lemma_number_at_advances(s, q);
                }
                match args_from(s, e as nat) {
                    Err(x) => Err(x),
                    Ok((rest, t)) => Ok((seq![lex] + rest, t)),
                }
            },
        }
    }
}

/// The transform a (lower-cased) function name and argument count make.
pub open spec fn kind_of(name: Seq<char>, n: nat) -> Result<TransformKind, TransformError> {
    if name == "matrix"@ {
        if n == 6 {
            Ok(TransformKind::Matrix)
        } else {
            Err(TransformError::MatrixArity)
        }
    } else if name == "translate"@ {
        if n >= 1 {
            Ok(TransformKind::Translate)
        } else {
            Err(TransformError::TranslateArity)
        }
    } else if name == "scale"@ {
        if n >= 1 {
            Ok(TransformKind::Scale)
        } else {
            Err(TransformError::ScaleArity)
        }
    } else if name == "rotate"@ {
        if n == 0 {
            Err(TransformError::RotateAngle)
        } else if n == 1 || n == 3 {
            Ok(TransformKind::Rotate)
        } else {
            Err(TransformError::RotateArity)
        }
    } else if name == "skewx"@ {
        if n >= 1 {
            Ok(TransformKind::SkewX)
        } else {
            Err(TransformError::SkewXArity)
        }
    } else if name == "skewy"@ {
        if n >= 1 {
            Ok(TransformKind::SkewY)
        } else {
            Err(TransformError::SkewYArity)
        }
    } else {
        Err(TransformError::UnknownFunction)
    }
}

/// The argument list ends at a `)` after its start.
#[verifier::spinoff_prover]
pub proof fn lemma_args_from_bounds(s: Seq<char>, p: nat)
    requires
        p <= s.len(),
    ensures
        args_from(s, p) matches Ok((_, t)) ==> p <= t < s.len() && s[t] == ')',
    decreases s.len() - p,
{
    lemma_find_char(s, p as int, not_token_sep_fn());
    let q = skip_seps(s, p as int);
    if q < s.len() && s[q] != ')' {
        lemma_number_at_advances(s, q);
        if let Ok((_, e)) = number_at(s, q) {
            lemma_args_from_bounds(s, e as nat);
        }
    }
}

/// The items of the transform list from `p` to the end.
pub open spec fn calls_from(s: Seq<char>, p: nat) -> Result<Seq<SCall>, TransformError>
    decreases s.len() - p,
{
    let q = skip_seps(s, p as int);
    if q >= s.len() {
        Ok(Seq::empty())
    } else {
        let ne = find_char(s, q, not_alpha_fn());
        if ne == q {
            Err(TransformError::ExpectedName)
        } else {
            let r = skip_seps(s, ne);
            if r >= s.len() || s[r] != '(' {
                Err(TransformError::ExpectedOpenParen)
            } else {
                proof {
                    lemma_find_char(s, p as int, not_token_sep_fn());
                    lemma_find_char(s, q, not_alpha_fn());
                    lemma_find_char(s, ne, not_token_sep_fn());
                    lemma_args_from_bounds(s, (r + 1) as nat);
                }
                match args_from(s, (r + 1) as nat) {
                    Err(x) => Err(x),
                    Ok((args, t)) => match kind_of(lower_seq(s.subrange(q, ne)), args.len()) {
                        Err(x) => Err(x),
                        Ok(kind) => match calls_from(s, (t + 1) as nat) {
                            Err(x) => Err(x),
                            Ok(rest) => Ok(seq![SCall { kind, args }] + rest),
                        },
                    },
                }
            }
        }
    }
}

/// The items of a whole `transform` attribute.
pub open spec fn transform_list_spec(src: Seq<char>) -> Result<Seq<SCall>, TransformError> {
    calls_from(src, 0)
}

/// Read the arguments after a `(`: the numbers and the position of the
/// closing `)`.
fn read_args(v: &Vec<char>, p: usize) -> (r: Result<(Vec<String>, usize), TransformError>)
    requires
        p <= v.len(),
    ensures
        match args_from(v@, p as nat) {
            Ok((a, t)) => r matches Ok((x, e)) && strings_view(x@) == a && e == t,
            Err(k) => r == Err::<(Vec<String>, usize), TransformError>(k),
        },
{
    let ghost s = v@;
    let mut out: Vec<String> = Vec::new();
    let mut pos: usize = p;
    proof {
        match args_from(s, p as nat) {
            Ok((a, t)) => {
                assert(Seq::<Seq<char>>::empty() + a =~= a);
            },
            Err(_) => {},
        }
    }
    loop
        invariant
            s == v@,
            p <= pos <= v.len(),
            args_from(s, p as nat) == match args_from(s, pos as nat) {
                Ok((a, t)) => Ok((strings_view(out@) + a, t)),
                Err(x) => Err(x),
            },
        decreases v.len() - pos,
    {
        let q: usize = skip_separators(v, pos);
        if q >= v.len() {
            return Err(TransformError::Unterminated);
        }
        if v[q] == ')' {
            assert(strings_view(out@) + Seq::<Seq<char>>::empty() =~= strings_view(out@));
            return Ok((out, q));
        }
        proof {
            lemma_number_at_advances(s, q as int);
            lemma_find_char(s, pos as int, not_token_sep_fn());
            lemma_find_char(s, q as int, not_token_sep_fn());
            assert(skip_seps(s, q as int) == q);
        }
        match read_number_at(v, q) {
            Ok((lex, e)) => {
                let ghost before = strings_view(out@);
                proof {
                    match args_from(s, e as nat) {
                        Ok((a, t)) => {
                            assert(before + (seq![lex@] + a) =~= before.push(lex@) + a);
                        },
                        Err(_) => {},
                    }
                }
                out.push(lex);
                assert(strings_view(out@) =~= before.push(out@.last()@));
                pos = e;
            },
            Err(NumberError::Expected) => {
                return Err(TransformError::ExpectedNumber);
            },
            Err(NumberError::Malformed) => {
                return Err(TransformError::MalformedNumber);
            },
        }
    }
}

fn kind_for(name: &str, n: usize) -> (r: Result<TransformKind, TransformError>)
    ensures
        r == kind_of(name@, n as nat),
{
    if str_eq(name, "matrix") {
        if n == 6 {
            Ok(TransformKind::Matrix)
        } else {
            Err(TransformError::MatrixArity)
        }
    } else if str_eq(name, "translate") {
        if n >= 1 {
            Ok(TransformKind::Translate)
        } else {
            Err(TransformError::TranslateArity)
        }
    } else if str_eq(name, "scale") {
        if n >= 1 {
            Ok(TransformKind::Scale)
        } else {
            Err(TransformError::ScaleArity)
        }
    } else if str_eq(name, "rotate") {
        if n == 0 {
            Err(TransformError::RotateAngle)
        } else if n == 1 || n == 3 {
            Ok(TransformKind::Rotate)
        } else {
            Err(TransformError::RotateArity)
        }
    } else if str_eq(name, "skewx") {
        if n >= 1 {
            Ok(TransformKind::SkewX)
        } else {
            Err(TransformError::SkewXArity)
        }
    } else if str_eq(name, "skewy") {
        if n >= 1 {
            Ok(TransformKind::SkewY)
        } else {
            Err(TransformError::SkewYArity)
        }
    } else {
        Err(TransformError::UnknownFunction)
    }
}

/// Read a `transform` attribute into its items. An empty or
/// separator-only string is the empty list (the identity).
pub fn parse_transform_list(src: &str) -> (r: Result<Vec<TransformCall>, TransformError>)
    ensures
        match r {
            Ok(v) => transform_list_spec(src@) == Ok::<Seq<SCall>, TransformError>(calls_model(v@)),
            Err(e) => transform_list_spec(src@) == Err::<Seq<SCall>, TransformError>(e),
        },
{
    let v = str_chars(src);
    let ghost s = src@;
    let mut out: Vec<TransformCall> = Vec::new();
    let mut pos: usize = 0;
    assert(calls_model(out@) =~= Seq::<SCall>::empty());
    proof {
        match calls_from(s, 0) {
            Ok(x) => {
                assert(Seq::<SCall>::empty() + x =~= x);
            },
            Err(_) => {},
        }
    }
    loop
        invariant
            v@ == s,
            s == src@,
            pos <= v.len(),
            calls_from(s, 0) == match calls_from(s, pos as nat) {
                Ok(x) => Ok(calls_model(out@) + x),
                Err(e) => Err(e),
            },
        decreases v.len() - pos,
    {
        let ghost p0 = pos;
        proof {
            lemma_find_char(s, pos as int, not_token_sep_fn());
        }
        let q: usize = skip_separators(&v, pos);
        if q >= v.len() {
            assert(calls_model(out@) + Seq::<SCall>::empty() =~= calls_model(out@));
            return Ok(out);
        }
        let mut ne: usize = q;
        proof {
            lemma_find_char(s, q as int, not_alpha_fn());
        }
        while ne < v.len() && (('A' <= v[ne] && v[ne] <= 'Z') || ('a' <= v[ne] && v[ne] <= 'z'))
            invariant
                q <= ne <= v.len(),
                v@ == s,
                find_char(s, q as int, not_alpha_fn()) == find_char(s, ne as int, not_alpha_fn()),
            decreases v.len() - ne,
        {
            ne += 1;
        }
        if ne == q {
            return Err(TransformError::ExpectedName);
        }
        let r: usize = skip_separators(&v, ne);
        if r >= v.len() || v[r] != '(' {
            return Err(TransformError::ExpectedOpenParen);
        }
        proof {
            lemma_args_from_bounds(s, (r + 1) as nat);
        }
        let (args, t) = match read_args(&v, r + 1) {
            Ok(x) => x,
            Err(e) => {
                return Err(e);
            },
        };
        let name = string_from_chars(&v, q, ne);
        let lname = crate::strings::str_lower(name.as_str());
        let kind = match kind_for(lname.as_str(), args.len()) {
            Ok(k) => k,
            Err(e) => {
                return Err(e);
            },
        };
        let ghost before = calls_model(out@);
        let call = TransformCall { kind, args };
        let ghost cm = call.model();
        out.push(call);
        proof {
            assert(calls_model(out@) =~= before.push(cm));
            match calls_from(s, (t + 1) as nat) {
                Ok(rest) => {
                    assert(before + (seq![cm] + rest) =~= calls_model(out@) + rest);
                },
                Err(_) => {},
            }
        }
        pos = t + 1;
    }
}

/// The text of a `matrix()` item: the name, `(`, the six numbers
/// separated by single spaces, `)`.
pub open spec fn matrix_text(a: Seq<Seq<char>>) -> Seq<char> {
    "matrix("@ + a[0] + args_text(a.drop_first()) + seq![')']
}

/// Numbers separated by spaces, then a `)`, read as those numbers up to
/// the `)`.
proof fn lemma_args_from_block(s: Seq<char>, p: int, a: Seq<Seq<char>>)
    requires
        0 <= p,
        p + args_text(a).len() < s.len(),
        s.subrange(p, p + args_text(a).len()) == args_text(a),
        s[p + args_text(a).len()] == ')',
        forall|i: int| 0 <= i < a.len() ==> plain_number(#[trigger] a[i]),
    ensures
        args_from(s, p as nat) == Ok::<(Seq<Seq<char>>, int), TransformError>(
            (a, p + args_text(a).len()),
        ),
    decreases a.len(),
{
    if a.len() == 0 {
        assert(args_text(a) =~= Seq::<char>::empty());
        lemma_find_char_is(s, p, p, not_token_sep_fn());
        assert(a =~= Seq::<Seq<char>>::empty());
    } else {
        let x = a[0];
        let xl = x.len() as int;
        let rest = a.drop_first();
        let tail = args_text(rest);
        let whole = args_text(a);
        assert(whole == seq![' '] + x + tail);
        let n = whole.len() as int;
        assert(s.subrange(p, p + n)[0] == s[p]);
        assert(s[p] == ' ');
        assert(s.subrange(p, p + n)[1] == s[p + 1]);
        assert(s.subrange(p + 1, p + 1 + xl) =~= whole.subrange(1, 1 + xl));
        assert(whole.subrange(1, 1 + xl) =~= x);
        if rest.len() > 0 {
            assert(tail[0] == ' ');
            assert(s.subrange(p, p + n)[1 + xl] == s[p + 1 + xl]);
        }
        assert(plain_number(a[0]));
        lemma_plain_in_context(s, p + 1, x);
        assert(s[p + 1] == x[0]);
        lemma_find_char_is(s, p, p + 1, not_token_sep_fn());
        lemma_find_char_is(s, p + 1, p + 1, not_token_sep_fn());
        let p2 = p + 1 + xl;
        assert(number_at(s, p + 1) == Ok::<(Seq<char>, int), NumberError>((x, p2)));
        assert(s.subrange(p2, p2 + tail.len()) =~= whole.subrange(1 + xl, n));
        assert(whole.subrange(1 + xl, n) =~= tail);
        assert forall|i: int| 0 <= i < rest.len() implies plain_number(#[trigger] rest[i]) by {
            assert(rest[i] == a[i + 1]);
        }
        lemma_args_from_block(s, p2, rest);
        assert(seq![x] + rest =~= a);
        assert(p2 + tail.len() == p + n);
    }
}

/// A written `matrix()` item reads back as a matrix with the same six
/// numbers, for numbers in plain decimal form.
pub proof fn lemma_matrix_round_trip(a: Seq<Seq<char>>)
    requires
        a.len() == 6,
        forall|i: int| 0 <= i < a.len() ==> plain_number(#[trigger] a[i]),
    ensures
        transform_list_spec(matrix_text(a)) == Ok::<Seq<SCall>, TransformError>(
            seq![SCall { kind: TransformKind::Matrix, args: a }],
        ),
{
    let s = matrix_text(a);
    let x = a[0];
    let xl = x.len() as int;
    let rest = a.drop_first();
    let tail = args_text(rest);
    let n = s.len() as int;
    reveal_strlit("matrix(");
    assert(s == "matrix("@ + x + tail + seq![')']);
    assert(n == 7 + xl + tail.len() + 1);
    assert(s[0] == 'm');
    lemma_find_char_is(s, 0, 0, not_token_sep_fn());
    assert forall|k: int| 0 <= k < 6 implies !not_alpha_fn()(#[trigger] s[k]) by {
        assert(s[k] == "matrix("@[k]);
    }
    assert(s[6] == '(');
    lemma_find_char_is(s, 0, 6, not_alpha_fn());
    lemma_find_char_is(s, 6, 6, not_token_sep_fn());
    assert(plain_number(a[0]));
    assert(s.subrange(7, 7 + xl) =~= x);
    let p2 = 7 + xl;
    if rest.len() > 0 {
        assert(tail[0] == ' ');
        assert(s[p2] == tail[0]);
    } else {
        assert(s[p2] == ')');
    }
    lemma_plain_in_context(s, 7, x);
    assert(s[7] == x[0]);
    lemma_find_char_is(s, 7, 7, not_token_sep_fn());
    assert(number_at(s, 7) == Ok::<(Seq<char>, int), NumberError>((x, p2)));
    assert(s.subrange(p2, p2 + tail.len()) =~= tail);
    assert(s[p2 + tail.len()] == ')');
    assert forall|i: int| 0 <= i < rest.len() implies plain_number(#[trigger] rest[i]) by {
        assert(rest[i] == a[i + 1]);
    }
    lemma_args_from_block(s, p2, rest);
    assert(seq![x] + rest =~= a);
    assert(args_from(s, 7) == Ok::<(Seq<Seq<char>>, int), TransformError>((a, n - 1)));
    assert(s.subrange(0, 6) =~= "matrix"@) by {
        reveal_strlit("matrix");
    }
    assert(lower_seq("matrix"@) =~= "matrix"@) by {
        reveal_strlit("matrix");
    }
    lemma_find_char_is(s, n, n, not_token_sep_fn());
    assert(calls_from(s, n as nat) == Ok::<Seq<SCall>, TransformError>(Seq::empty()));
    assert(seq![SCall { kind: TransformKind::Matrix, args: a }] + Seq::<SCall>::empty() =~= seq![
        SCall { kind: TransformKind::Matrix, args: a },
    ]);
}

/// Append `matrix(a b c d e f)` with the six numbers as given.
pub fn write_matrix(out: &mut String, a: &[String; 6])
    ensures
        final(out)@ == old(out)@ + matrix_text(strings_view(a@)),
{
    let ghost v = strings_view(a@);
    let ghost start = old(out)@;
    push_str(out, "matrix(");
    push_str(out, a[0].as_str());
    let mut i: usize = 1;
    assert(v.drop_first().subrange(0, 0) =~= Seq::<Seq<char>>::empty());
    assert(out@ =~= start + "matrix("@ + v[0] + args_text(v.drop_first().subrange(0, 0)));
    while i < 6
        invariant
            1 <= i <= 6,
            a@.len() == 6,
            v == strings_view(a@),
            out@ == start + "matrix("@ + v[0] + args_text(v.drop_first().subrange(0, i - 1)),
        decreases 6 - i,
    {
        push_char(out, ' ');
        push_str(out, a[i].as_str());
        proof {
            let d = v.drop_first();
            assert(d.subrange(0, i as int) =~= d.subrange(0, i - 1).push(d[i - 1]));
            lemma_args_text_push(d.subrange(0, i - 1), d[i - 1]);
            assert(d[i - 1] == a@[i as int]@);
        }
        i += 1;
        assert(out@ =~= start + "matrix("@ + v[0] + args_text(v.drop_first().subrange(0, i - 1)));
    }
    push_char(out, ')');
    assert(v.drop_first().subrange(0, 5) =~= v.drop_first());
    assert(out@ =~= start + matrix_text(v));
}


/// How many numbers each transform function takes (SVG 1.1 §7.6.2–§7.6.8):
/// six for `matrix`, one or three for `rotate`, at least one for the
/// others (a second `translate` / `scale` number is optional).
pub open spec fn takes_count(k: TransformKind, n: nat) -> bool {
    match k {
        TransformKind::Matrix => n == 6,
        TransformKind::Rotate => n == 1 || n == 3,
        _ => n >= 1,
    }
}

/// The (lower-case) function name of each transform.
pub open spec fn function_name(k: TransformKind) -> Seq<char> {
    match k {
        TransformKind::Matrix => "matrix"@,
        TransformKind::Translate => "translate"@,
        TransformKind::Scale => "scale"@,
        TransformKind::Rotate => "rotate"@,
        TransformKind::SkewX => "skewx"@,
        TransformKind::SkewY => "skewy"@,
    }
}

/// A function call is accepted exactly when its name names a transform
/// and it has a number count that transform takes; it is then that
/// transform. With no numbers, `translate`, `scale`, `skewX`, `skewY`
/// and `rotate` each report their own error.
pub proof fn lemma_transform_functions(name: Seq<char>, n: nat, k: TransformKind)
    ensures
        (kind_of(name, n) == Ok::<TransformKind, TransformError>(k)) == (name == function_name(k)
            && takes_count(k, n)),
        name == "translate"@ && n == 0 ==> kind_of(name, n) == Err::<TransformKind, TransformError>(
            TransformError::TranslateArity,
        ),
        name == "scale"@ && n == 0 ==> kind_of(name, n) == Err::<TransformKind, TransformError>(
            TransformError::ScaleArity,
        ),
        name == "rotate"@ && n == 0 ==> kind_of(name, n) == Err::<TransformKind, TransformError>(
            TransformError::RotateAngle,
        ),
        name == "skewx"@ && n == 0 ==> kind_of(name, n) == Err::<TransformKind, TransformError>(
            TransformError::SkewXArity,
        ),
        name == "skewy"@ && n == 0 ==> kind_of(name, n) == Err::<TransformKind, TransformError>(
            TransformError::SkewYArity,
        ),
{
    reveal_strlit("matrix");
    reveal_strlit("translate");
    reveal_strlit("scale");
    reveal_strlit("rotate");
    reveal_strlit("skewx");
    reveal_strlit("skewy");
    assert("matrix"@.len() == 6 && "matrix"@[0] == 'm' && "matrix"@[1] == 'a' && "matrix"@[2] == 't' && "matrix"@[3] == 'r' && "matrix"@[4] == 'i' && "matrix"@[5] == 'x');
    assert("translate"@.len() == 9 && "translate"@[0] == 't' && "translate"@[1] == 'r' && "translate"@[2] == 'a' && "translate"@[3] == 'n' && "translate"@[4] == 's' && "translate"@[5] == 'l' && "translate"@[6] == 'a' && "translate"@[7] == 't' && "translate"@[8] == 'e');
    assert("scale"@.len() == 5 && "scale"@[0] == 's' && "scale"@[1] == 'c' && "scale"@[2] == 'a' && "scale"@[3] == 'l' && "scale"@[4] == 'e');
    assert("rotate"@.len() == 6 && "rotate"@[0] == 'r' && "rotate"@[1] == 'o' && "rotate"@[2] == 't' && "rotate"@[3] == 'a' && "rotate"@[4] == 't' && "rotate"@[5] == 'e');
    assert("skewx"@.len() == 5 && "skewx"@[0] == 's' && "skewx"@[1] == 'k' && "skewx"@[2] == 'e' && "skewx"@[3] == 'w' && "skewx"@[4] == 'x');
    assert("skewy"@.len() == 5 && "skewy"@[0] == 's' && "skewy"@[1] == 'k' && "skewy"@[2] == 'e' && "skewy"@[3] == 'w' && "skewy"@[4] == 'y');
}

/// Every item of a transform list that reads has a number count its
/// function takes.
pub proof fn lemma_calls_take_their_counts(s: Seq<char>, p: nat)
    ensures
        calls_from(s, p) matches Ok(calls) ==> forall|i: int|
            0 <= i < calls.len() ==> takes_count(#[trigger] calls[i].kind, calls[i].args.len()),
    decreases s.len() - p,
{
    let q = skip_seps(s, p as int);
    if p <= s.len() {
        lemma_find_char(s, p as int, not_token_sep_fn());
    }
    if p <= s.len() && q < s.len() {
        let ne = find_char(s, q, not_alpha_fn());
        lemma_find_char(s, q, not_alpha_fn());
        if ne != q {
            let r = skip_seps(s, ne);
            lemma_find_char(s, ne, not_token_sep_fn());
            if r < s.len() && s[r] == '(' {
                lemma_args_from_bounds(s, (r + 1) as nat);
                if let Ok((args, t)) = args_from(s, (r + 1) as nat) {
                    let name = lower_seq(s.subrange(q, ne));
                    if let Ok(kind) = kind_of(name, args.len()) {
                        lemma_transform_functions(name, args.len(), kind);
                        lemma_calls_take_their_counts(s, (t + 1) as nat);
                        if let Ok(rest) = calls_from(s, (t + 1) as nat) {
                            let calls = seq![SCall { kind, args }] + rest;
                            assert forall|i: int| 0 <= i < calls.len() implies takes_count(
                                #[trigger] calls[i].kind,
                                calls[i].args.len(),
                            ) by {
                                if i > 0 {
                                    assert(calls[i] == rest[i - 1]);
                                }
                            }
                        }
                    }
                }
            }
        }
    }
}

} // verus!
