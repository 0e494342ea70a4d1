//! The `d` attribute mini-language (SVG 1.1 §8.3): the command letters,
//! their parameter lists and the implicit repeats, read into a list of
//! segments whose numbers are kept as their source text. The coordinate
//! arithmetic (relative forms, smooth-curve reflection) is floating point
//! and is done by the caller on these segments.
//!
//! Lexical rules (§8.3.1): numbers may carry a sign, one decimal point and
//! an exponent; whitespace and `,` separate numbers and commands; the arc
//! flags may be packed without separators. Further number tuples after a
//! command's parameters repeat the command (after `M` / `m` they are
//! line-tos).

use vstd::prelude::*;

use crate::number::{
    is_sign, lemma_number_at_advances, number_at, read_number_at, skip_seps, NumberError,
};
use crate::strings::{
    find_char, is_ascii_alpha, is_ascii_digit, is_ascii_upper, lemma_find_char, str_chars,
    strings_view,
};
use crate::number::not_token_sep_fn;

verus! {

/// Why a `d` attribute failed to parse.
#[derive(Clone, Copy, Debug, PartialEq, Eq, Structural)]
pub enum PathError {
    /// Something other than a command letter where a command is due.
    ExpectedCommand,
    /// A letter that is not one of the path commands.
    UnknownCommand,
    /// A parameter with no digit.
    ExpectedNumber,
    /// A parameter that is not a valid number (an exponent without digits).
    MalformedNumber,
    /// The text ends where an arc flag is due.
    ExpectedFlag,
    /// An arc flag other than `0` or `1`.
    BadFlag,
}

/// Message text of each error.
pub open spec fn path_error_message(e: PathError) -> Seq<char> {
    match e {
        PathError::ExpectedCommand => "SVG path: expected command letter"@,
        PathError::UnknownCommand => "SVG path: unknown command"@,
        PathError::ExpectedNumber => "SVG path: expected number"@,
        PathError::MalformedNumber => "SVG path: malformed number"@,
        PathError::ExpectedFlag => "SVG path: expected flag"@,
        PathError::BadFlag => "SVG path: arc flag must be 0 or 1"@,
    }
}

impl PathError {
    /// The error text the SVG decoder reports.
    pub fn message(&self) -> (m: &'static str)
        ensures
            m@ == path_error_message(*self),
    {
        match self {
            PathError::ExpectedCommand => "SVG path: expected command letter",
            PathError::UnknownCommand => "SVG path: unknown command",
            PathError::ExpectedNumber => "SVG path: expected number",
            PathError::MalformedNumber => "SVG path: malformed number",
            PathError::ExpectedFlag => "SVG path: expected flag",
            PathError::BadFlag => "SVG path: arc flag must be 0 or 1",
        }
    }
}

/// One command of a path with its parameters.
#[derive(Clone, Debug)]
pub struct PathSegment {
    /// The upper-case command letter: `M`, `L`, `H`, `V`, `C`, `S`, `Q`,
    /// `T`, `A` or `Z`. A coordinate pair repeated after `M` is an `L`.
    pub command: char,
    /// Upper-case (absolute) or lower-case (relative) form.
    pub absolute: bool,
    /// The numeric parameters as source text, in order; for `A` these
    /// are `rx ry x-axis-rotation x y` (the flags are separate).
    pub args: Vec<String>,
    /// `A` only: the large-arc flag.
    pub large_arc: bool,
    /// `A` only: the sweep flag.
    pub sweep: bool,
}

/// Mathematical model of a [`PathSegment`].
pub struct SSegment {
    pub command: char,
    pub absolute: bool,
    pub args: Seq<Seq<char>>,
    pub large_arc: bool,
    pub sweep: bool,
}

impl PathSegment {
    pub open spec fn model(&self) -> SSegment {
        SSegment {
            command: self.command,
            absolute: self.absolute,
            args: strings_view(self.args@),
            large_arc: self.large_arc,
            sweep: self.sweep,
        }
    }
}

pub open spec fn segments_model(v: Seq<PathSegment>) -> Seq<SSegment> {
    v.map_values(|x: PathSegment| x.model())
}

pub open spec fn number_error(e: NumberError) -> PathError {
    match e {
        NumberError::Expected => PathError::ExpectedNumber,
        NumberError::Malformed => PathError::MalformedNumber,
    }
}

/// `n` numbers read one after another from `p`, and the position after
/// the last.
pub open spec fn numbers_at(s: Seq<char>, p: int, n: nat) -> Result<(Seq<Seq<char>>, int), PathError>
    decreases n,
{
    if n == 0 {
        Ok((Seq::empty(), p))
    } else {
        match number_at(s, p) {
            Err(e) => Err(number_error(e)),
            Ok((lex, e)) => match numbers_at(s, e, (n - 1) as nat) {
                Err(x) => Err(x),
                Ok((rest, q)) => Ok((seq![lex] + rest, q)),
            },
        }
    }
}

/// An arc flag after the separators at `p`.
pub open spec fn flag_at(s: Seq<char>, p: int) -> Result<(bool, int), PathError> {
    let q = skip_seps(s, p);
    if q >= s.len() {
        Err(PathError::ExpectedFlag)
    } else if s[q] == '0' {
        Ok((false, q + 1))
    } else if s[q] == '1' {
        Ok((true, q + 1))
    } else {
        Err(PathError::BadFlag)
    }
}

/// The path command letters (upper case).
pub open spec fn is_path_command(c: char) -> bool {
    c == 'M' || c == 'L' || c == 'H' || c == 'V' || c == 'C' || c == 'S' || c == 'Q' || c == 'T'
        || c == 'A' || c == 'Z'
}

/// How many numbers a command other than `A` and `Z` takes.
pub open spec fn arity(c: char) -> nat {
    if c == 'H' || c == 'V' {
        1
    } else if c == 'C' {
        6
    } else if c == 'S' || c == 'Q' {
        4
    } else {
        2
    }
}

/// `char::to_ascii_uppercase`.
pub open spec fn upper(c: char) -> char {
    if 'a' <= c && c <= 'z' {
        ((c as u32) - 32) as char
    } else {
        c
    }
}

/// The parameters of one `cmd` (not `Z`) at `p`; `first` tells a
/// leading `M` from its repeats.
pub open spec fn segment_at(s: Seq<char>, p: int, cmd: char, absolute: bool, first: bool) -> Result<
    (SSegment, int),
    PathError,
> {
    if cmd == 'A' {
        match numbers_at(s, p, 3) {
            Err(x) => Err(x),
            Ok((a1, p1)) => match flag_at(s, p1) {
                Err(x) => Err(x),
                Ok((large_arc, p2)) => match flag_at(s, p2) {
                    Err(x) => Err(x),
                    Ok((sweep, p3)) => match numbers_at(s, p3, 2) {
                        Err(x) => Err(x),
                        Ok((a2, p4)) => Ok(
                            (SSegment { command: 'A', absolute, args: a1 + a2, large_arc, sweep }, p4),
                        ),
                    },
                },
            },
        }
    } else {
        match numbers_at(s, p, arity(cmd)) {
            Err(x) => Err(x),
            Ok((args, q)) => Ok(
                (
                    SSegment {
                        command: if cmd == 'M' && !first {
                            'L'
                        } else {
                            cmd
                        },
                        absolute,
                        args,
                        large_arc: false,
                        sweep: false,
                    },
                    q,
                ),
            ),
        }
    }
}

/// Whether a number starts at `p` (sign, `.` or digit).
pub open spec fn starts_number(s: Seq<char>, p: int) -> bool {
    0 <= p < s.len() && (is_sign(s[p]) || s[p] == '.' || is_ascii_digit(s[p]))
}

/// Reading a number moves forward.
#[verifier::spinoff_prover]
pub proof fn lemma_numbers_at_advance(s: Seq<char>, p: int, n: nat)
    requires
        0 <= p <= s.len(),
    ensures
        numbers_at(s, p, n) matches Ok((_, q)) ==> p <= q <= s.len() && (n > 0 ==> p < q),
    decreases n,
{
    if n > 0 {
        lemma_number_at_advances(s, p);
        if let Ok((_, e)) = number_at(s, p) {
            lemma_numbers_at_advance(s, e, (n - 1) as nat);
        }
    }
}

#[verifier::spinoff_prover]
proof fn lemma_flag_at_advances(s: Seq<char>, p: int)
    requires
        0 <= p <= s.len(),
    ensures
        flag_at(s, p) matches Ok((_, q)) ==> p < q <= s.len(),
{
    lemma_find_char(s, p, not_token_sep_fn());
}

/// A segment other than `Z` consumes text.
#[verifier::spinoff_prover]
pub proof fn lemma_segment_advances(s: Seq<char>, p: int, cmd: char, absolute: bool, first: bool)
    requires
        0 <= p <= s.len(),
        cmd != 'Z',
    ensures
        segment_at(s, p, cmd, absolute, first) matches Ok((_, q)) ==> p < q <= s.len(),
{
    if cmd == 'A' {
        lemma_numbers_at_advance(s, p, 3);
        if let Ok((_, p1)) = numbers_at(s, p, 3) {
            lemma_flag_at_advances(s, p1);
            if let Ok((_, p2)) = flag_at(s, p1) {
                lemma_flag_at_advances(s, p2);
                if let Ok((_, p3)) = flag_at(s, p2) {
                    lemma_numbers_at_advance(s, p3, 2);
                }
            }
        }
    } else {
        lemma_numbers_at_advance(s, p, arity(cmd));
    }
}

/// The run of one command letter at `p`: one parameter list, then more
/// as long as another number follows. Returns the segments and where the
/// next command is looked for.
pub open spec fn run_at(s: Seq<char>, p: nat, cmd: char, absolute: bool, first: bool) -> Result<
    (Seq<SSegment>, int),
    PathError,
>
    decreases s.len() - p,
{
    if !is_path_command(cmd) {
        Err(PathError::UnknownCommand)
    } else if cmd == 'Z' {
        Ok(
            (
                seq![
                    SSegment {
                        command: 'Z',
                        absolute,
                        args: Seq::empty(),
                        large_arc: false,
                        sweep: false,
                    },
                ],
                p as int,
            ),
        )
    } else if p > s.len() {
        Err(PathError::ExpectedNumber)
    } else {
        match segment_at(s, p as int, cmd, absolute, first) {
            Err(x) => Err(x),
            Ok((seg, q)) => {
                let r = skip_seps(s, q);
                if starts_number(s, r) {
                    proof {
                        lemma_segment_advances(s, p as int, cmd, absolute, first);
                        lemma_find_char(s, q, not_token_sep_fn());
                    }
                    match run_at(s, r as nat, cmd, absolute, false) {
                        Err(x) => Err(x),
                        Ok((segs, t)) => Ok((seq![seg] + segs, t)),
                    }
                } else {
                    Ok((seq![seg], r))
                }
            },
        }
    }
}

/// A run ends after where it starts.
#[verifier::spinoff_prover]
pub proof fn lemma_run_advances(s: Seq<char>, p: nat, cmd: char, absolute: bool, first: bool)
    requires
        p <= s.len(),
    ensures
        run_at(s, p, cmd, absolute, first) matches Ok((_, t)) ==> p <= t <= s.len(),
    decreases s.len() - p,
{
    if is_path_command(cmd) && cmd != 'Z' {
        lemma_segment_advances(s, p as int, cmd, absolute, first);
        if let Ok((_, q)) = segment_at(s, p as int, cmd, absolute, first) {
            lemma_find_char(s, q, not_token_sep_fn());
            let r = skip_seps(s, q);
            if starts_number(s, r) {
                lemma_run_advances(s, r as nat, cmd, absolute, false);
            }
        }
    }
}

/// A coordinate pair repeated after `M` is a line-to: in the run of one
/// `M` command, the first segment is the move-to and every later one an
/// `L`, all in the command's absolute or relative form.
pub proof fn lemma_moveto_run(s: Seq<char>, p: nat, absolute: bool, first: bool)
    requires
        p <= s.len(),
    ensures
        run_at(s, p, 'M', absolute, first) matches Ok((segs, _)) ==> {
            &&& segs.len() >= 1
            &&& segs[0].command == (if first {
                'M'
            } else {
                'L'
            })
            &&& forall|i: int| 1 <= i < segs.len() ==> (#[trigger] segs[i]).command == 'L'
            &&& forall|i: int| 0 <= i < segs.len() ==> (#[trigger] segs[i]).absolute == absolute
        },
    decreases s.len() - p,
{
    lemma_segment_advances(s, p as int, 'M', absolute, first);
    if let Ok((seg, q)) = segment_at(s, p as int, 'M', absolute, first) {
        lemma_find_char(s, q, not_token_sep_fn());
        let r = skip_seps(s, q);
        if starts_number(s, r) {
            lemma_moveto_run(s, r as nat, absolute, false);
            if let Ok((rest, _)) = run_at(s, r as nat, 'M', absolute, false) {
                let segs = seq![seg] + rest;
                assert forall|i: int| 1 <= i < segs.len() implies (#[trigger] segs[i]).command == 'L' by {
                    assert(segs[i] == rest[i - 1]);
                }
                assert forall|i: int| 0 <= i < segs.len() implies (#[trigger] segs[i]).absolute == absolute by {
                    if i > 0 {
                        assert(segs[i] == rest[i - 1]);
                    }
                }
            }
        }
    }
}

/// Every segment in the run of one command letter has that letter's
/// form: its command (a coordinate set repeated after `M` being an `L`)
/// and the absolute or relative form the letter's case gives, so
/// `X a b` reads as `X a X b` for every command `X`.
pub proof fn lemma_run_form(s: Seq<char>, p: nat, cmd: char, absolute: bool, first: bool)
    requires
        p <= s.len(),
    ensures
        run_at(s, p, cmd, absolute, first) matches Ok((segs, _)) ==> {
            &&& segs.len() >= 1
            &&& forall|i: int|
                0 <= i < segs.len() ==> (#[trigger] segs[i]).absolute == absolute && segs[i].command
                    == (if cmd == 'M' && (i > 0 || !first) {
                    'L'
                } else {
                    cmd
                })
        },
    decreases s.len() - p,
{
    if is_path_command(cmd) && cmd != 'Z' {
        lemma_segment_advances(s, p as int, cmd, absolute, first);
        if let Ok((seg, q)) = segment_at(s, p as int, cmd, absolute, first) {
            lemma_find_char(s, q, not_token_sep_fn());
            let r = skip_seps(s, q);
            if starts_number(s, r) {
                lemma_run_form(s, r as nat, cmd, absolute, false);
                if let Ok((rest, _)) = run_at(s, r as nat, cmd, absolute, false) {
                    let segs = seq![seg] + rest;
                    assert forall|i: int| 0 <= i < segs.len() implies (#[trigger] segs[i]).absolute
                        == absolute && segs[i].command == (if cmd == 'M' && (i > 0 || !first) {
                        'L'
                    } else {
                        cmd
                    }) by {
                        if i > 0 {
                            assert(segs[i] == rest[i - 1]);
                        }
                    }
                }
            }
        }
    }
}

/// Each segment read from a `d` attribute comes from a command letter of
/// the input: it is that letter's command (or `L` for a pair repeated
/// after `M`), absolute exactly when the letter is upper case.
pub proof fn lemma_segments_follow_letters(s: Seq<char>, p: nat)
    ensures
        commands_from(s, p) matches Ok(segs) ==> forall|i: int|
            #![trigger segs[i]]
            0 <= i < segs.len() ==> exists|q: int|
                #![trigger s[q]]
                p <= q < s.len() && is_ascii_alpha(s[q]) && segs[i].absolute == is_ascii_upper(s[q]) && (
                segs[i].command == upper(s[q]) || (upper(s[q]) == 'M' && segs[i].command == 'L')),
    decreases s.len() - p,
{
    if p <= s.len() {
        let q = skip_seps(s, p as int);
        lemma_find_char(s, p as int, not_token_sep_fn());
        if q < s.len() && is_ascii_alpha(s[q]) {
            let cmd = upper(s[q]);
            let abs = is_ascii_upper(s[q]);
            lemma_run_advances(s, (q + 1) as nat, cmd, abs, true);
            lemma_run_form(s, (q + 1) as nat, cmd, abs, true);
            if let Ok((segs, t)) = run_at(s, (q + 1) as nat, cmd, abs, true) {
                lemma_segments_follow_letters(s, t as nat);
                if let Ok(rest) = commands_from(s, t as nat) {
                    let all = segs + rest;
                    assert forall|i: int| #![trigger all[i]] 0 <= i < all.len() implies exists|w: int|
                        #![trigger s[w]]
                        p <= w < s.len() && is_ascii_alpha(s[w]) && all[i].absolute == is_ascii_upper(
                            s[w],
                        ) && (all[i].command == upper(s[w]) || (upper(s[w]) == 'M' && all[i].command
                            == 'L')) by {
                        if i < segs.len() {
                            assert(all[i] == segs[i]);
                            assert(s[q] == s[q]);
                        } else {
                            assert(all[i] == rest[i - segs.len()]);
                        }
                    }
                }
            }
        }
    }
}

/// How many numbers each path command carries (SVG 1.1 §8.3): a point
/// for moveto, lineto and the smooth quadratic, one coordinate for the
/// horizontal and vertical lines, three points for the cubic, two for
/// the smooth cubic and the quadratic, five numbers for the arc (radii,
/// rotation, end point; its two flags are held apart), none for
/// closepath.
pub open spec fn parameter_count(c: char) -> nat {
    if c == 'M' || c == 'L' || c == 'T' {
        2
    } else if c == 'H' || c == 'V' {
        1
    } else if c == 'C' {
        6
    } else if c == 'S' || c == 'Q' {
        4
    } else if c == 'A' {
        5
    } else {
        0
    }
}

proof fn lemma_numbers_at_count(s: Seq<char>, p: int, n: nat)
    ensures
        numbers_at(s, p, n) matches Ok((v, _)) ==> v.len() == n,
    decreases n,
{
    if n > 0 {
        if let Ok((_, e)) = number_at(s, p) {
            lemma_numbers_at_count(s, e, (n - 1) as nat);
        }
    }
}

proof fn lemma_run_parameter_counts(s: Seq<char>, p: nat, cmd: char, absolute: bool, first: bool)
    requires
        p <= s.len(),
    ensures
        run_at(s, p, cmd, absolute, first) matches Ok((segs, _)) ==> forall|i: int|
            0 <= i < segs.len() ==> (#[trigger] segs[i]).args.len() == parameter_count(
                segs[i].command,
            ),
    decreases s.len() - p,
{
    if is_path_command(cmd) && cmd != 'Z' {
        lemma_segment_advances(s, p as int, cmd, absolute, first);
        if cmd == 'A' {
            lemma_numbers_at_count(s, p as int, 3);
            if let Ok((_, p1)) = numbers_at(s, p as int, 3) {
                if let Ok((_, p2)) = flag_at(s, p1) {
                    if let Ok((_, p3)) = flag_at(s, p2) {
                        lemma_numbers_at_count(s, p3, 2);
                    }
                }
            }
        } else {
            lemma_numbers_at_count(s, p as int, arity(cmd));
        }
        if let Ok((seg, q)) = segment_at(s, p as int, cmd, absolute, first) {
            assert(seg.args.len() == parameter_count(seg.command));
            lemma_find_char(s, q, not_token_sep_fn());
            let r = skip_seps(s, q);
            if starts_number(s, r) {
                lemma_run_parameter_counts(s, r as nat, cmd, absolute, false);
                if let Ok((rest, _)) = run_at(s, r as nat, cmd, absolute, false) {
                    let segs = seq![seg] + rest;
                    assert forall|i: int| 0 <= i < segs.len() implies (#[trigger] segs[i]).args.len()
                        == parameter_count(segs[i].command) by {
                        if i > 0 {
                            assert(segs[i] == rest[i - 1]);
                        }
                    }
                }
            }
        }
    }
}

/// Every segment read from a `d` attribute carries the number of
/// parameters its command takes.
pub proof fn lemma_segment_parameter_counts(s: Seq<char>, p: nat)
    ensures
        commands_from(s, p) matches Ok(segs) ==> forall|i: int|
            0 <= i < segs.len() ==> (#[trigger] segs[i]).args.len() == parameter_count(
                segs[i].command,
            ),
    decreases s.len() - p,
{
    if p <= s.len() {
        let q = skip_seps(s, p as int);
        lemma_find_char(s, p as int, not_token_sep_fn());
        if q < s.len() && is_ascii_alpha(s[q]) {
            let cmd = upper(s[q]);
            let abs = is_ascii_upper(s[q]);
            lemma_run_advances(s, (q + 1) as nat, cmd, abs, true);
            lemma_run_parameter_counts(s, (q + 1) as nat, cmd, abs, true);
            if let Ok((segs, t)) = run_at(s, (q + 1) as nat, cmd, abs, true) {
                lemma_segment_parameter_counts(s, t as nat);
                if let Ok(rest) = commands_from(s, t as nat) {
                    let all = segs + rest;
                    assert forall|i: int| 0 <= i < all.len() implies (#[trigger] all[i]).args.len()
                        == parameter_count(all[i].command) by {
                        if i < segs.len() {
                            assert(all[i] == segs[i]);
                        } else {
                            assert(all[i] == rest[i - segs.len()]);
                        }
                    }
                }
            }
        }
    }
}

/// The segments of the commands from `p` to the end.
pub open spec fn commands_from(s: Seq<char>, p: nat) -> Result<Seq<SSegment>, PathError>
    decreases s.len() - p,
{
    let q = skip_seps(s, p as int);
    if q >= s.len() {
        Ok(Seq::empty())
    } else if !is_ascii_alpha(s[q]) {
        Err(PathError::ExpectedCommand)
    } else {
        proof {
            lemma_find_char(s, p as int, not_token_sep_fn());
            lemma_run_advances(s, (q + 1) as nat, upper(s[q]), is_ascii_upper(s[q]), true);
        }
        match run_at(s, (q + 1) as nat, upper(s[q]), is_ascii_upper(s[q]), true) {
            Err(x) => Err(x),
            Ok((segs, t)) => match commands_from(s, t as nat) {
                Err(x) => Err(x),
                Ok(rest) => Ok(segs + rest),
            },
        }
    }
}

/// The segments of a whole `d` attribute.
pub open spec fn path_segments_spec(d: Seq<char>) -> Result<Seq<SSegment>, PathError> {
    commands_from(d, 0)
}

/// `acc` followed by the segments of `r`, when `r` is a success.
pub open spec fn after(acc: Seq<SSegment>, r: Result<Seq<SSegment>, PathError>) -> Result<
    Seq<SSegment>,
    PathError,
> {
    match r {
        Ok(x) => Ok(acc + x),
        Err(e) => Err(e),
    }
}

pub open spec fn run_after(acc: Seq<SSegment>, r: Result<(Seq<SSegment>, int), PathError>) -> Result<
    (Seq<SSegment>, int),
    PathError,
> {
    match r {
        Ok((x, t)) => Ok((acc + x, t)),
        Err(e) => Err(e),
    }
}

/// The reading state over the characters of a `d` attribute.
struct PathDataParser {
    src: Vec<char>,
    pos: usize,
}

impl PathDataParser {
    fn new(d: &str) -> (p: Self)
        ensures
            p.src@ == d@,
            p.pos == 0,
    {
        PathDataParser { src: str_chars(d), pos: 0 }
    }

    fn skip_separators(&mut self)
        requires
            old(self).pos <= old(self).src.len(),
        ensures
            final(self).src@ == old(self).src@,
            final(self).pos == skip_seps(old(self).src@, old(self).pos as int),
            old(self).pos <= final(self).pos <= final(self).src.len(),
    {
        self.pos = crate::number::skip_separators(&self.src, self.pos);
    }

    fn peek_starts_number(&self) -> (b: bool)
        ensures
            b == starts_number(self.src@, self.pos as int),
    {
        if self.pos >= self.src.len() {
            return false;
        }
        let c = self.src[self.pos];
        c == '+' || c == '-' || c == '.' || ('0' <= c && c <= '9')
    }

    fn next_command(&mut self) -> (r: Result<Option<char>, PathError>)
        requires
            old(self).pos <= old(self).src.len(),
        ensures
            final(self).src@ == old(self).src@,
            ({
                let s = old(self).src@;
                let q = skip_seps(s, old(self).pos as int);
                &&& q >= s.len() ==> r == Ok::<Option<char>, PathError>(None)
                &&& q < s.len() && is_ascii_alpha(s[q]) ==> r == Ok::<Option<char>, PathError>(
                    Some(s[q]),
                ) && final(self).pos == q + 1
                &&& q < s.len() && !is_ascii_alpha(s[q]) ==> r == Err::<Option<char>, PathError>(
                    PathError::ExpectedCommand,
                )
            }),
    {
        self.skip_separators();
        if self.pos >= self.src.len() {
            return Ok(None);
        }
        let c = self.src[self.pos];
        if ('A' <= c && c <= 'Z') || ('a' <= c && c <= 'z') {
            self.pos += 1;
            Ok(Some(c))
        } else {
            Err(PathError::ExpectedCommand)
        }
    }

    /// Read one number token.
    fn read_number(&mut self) -> (r: Result<String, PathError>)
        requires
            old(self).pos <= old(self).src.len(),
        ensures
            final(self).src@ == old(self).src@,
            final(self).pos <= final(self).src.len(),
            match number_at(old(self).src@, old(self).pos as int) {
                Ok((lex, e)) => r matches Ok(x) && x@ == lex && final(self).pos == e,
                Err(k) => r == Err::<String, PathError>(number_error(k)),
            },
    {
        proof {
            lemma_number_at_advances(self.src@, self.pos as int);
        }
        match read_number_at(&self.src, self.pos) {
            Ok((lex, e)) => {
                self.pos = e;
                Ok(lex)
            },
            Err(NumberError::Expected) => Err(PathError::ExpectedNumber),
            Err(NumberError::Malformed) => Err(PathError::MalformedNumber),
        }
    }

    /// Read `n` number tokens.
    fn read_numbers(&mut self, n: usize) -> (r: Result<Vec<String>, PathError>)
        requires
            old(self).pos <= old(self).src.len(),
        ensures
            final(self).src@ == old(self).src@,
            final(self).pos <= final(self).src.len(),
            match numbers_at(old(self).src@, old(self).pos as int, n as nat) {
                Ok((a, e)) => r matches Ok(v) && strings_view(v@) == a && final(self).pos == e,
                Err(x) => r == Err::<Vec<String>, PathError>(x),
            },
    {
        let ghost s = self.src@;
        let ghost p0 = self.pos as int;
        let mut out: Vec<String> = Vec::new();
        let mut k: usize = 0;
        while k < n
            invariant
                k <= n,
                s == old(self).src@,
                p0 == old(self).pos,
                self.src@ == s,
                self.pos <= self.src.len(),
                numbers_at(s, p0, n as nat) == match numbers_at(s, self.pos as int, (n - k) as nat) {
                    Ok((a, e)) => Ok((strings_view(out@) + a, e)),
                    Err(x) => Err(x),
                },
            decreases n - k,
        {
            let ghost before = out@;
            match self.read_number() {
                Ok(x) => {
                    out.push(x);
                    proof {
                        assert(strings_view(out@) =~= strings_view(before).push(x@));
                        match numbers_at(s, self.pos as int, (n - k - 1) as nat) {
                            Ok((a, e)) => {
                                assert(strings_view(before) + (seq![x@] + a) =~= strings_view(out@)
                                    + a);
                            },
                            Err(_) => {},
                        }
                    }
                },
                Err(e) => {
                    return Err(e);
                },
            }
            k += 1;
        }
        assert(strings_view(out@) + Seq::<Seq<char>>::empty() =~= strings_view(out@));
        Ok(out)
    }

    /// Read a single-character flag (`0` or `1`) per §8.3.5; flags may be
    /// packed without separators.
    fn read_flag(&mut self) -> (r: Result<bool, PathError>)
        requires
            old(self).pos <= old(self).src.len(),
        ensures
            final(self).src@ == old(self).src@,
            final(self).pos <= final(self).src.len(),
            match flag_at(old(self).src@, old(self).pos as int) {
                Ok((b, e)) => r == Ok::<bool, PathError>(b) && final(self).pos == e,
                Err(x) => r == Err::<bool, PathError>(x),
            },
    {
        self.skip_separators();
        if self.pos >= self.src.len() {
            return Err(PathError::ExpectedFlag);
        }
        let c = self.src[self.pos];
        let val: bool = if c == '0' {
            false
        } else if c == '1' {
            true
        } else {
            return Err(PathError::BadFlag);
        };
        self.pos += 1;
        Ok(val)
    }

    /// Read the parameters of one `cmd` (not `Z`).
    fn read_segment(&mut self, cmd: char, absolute: bool, first: bool) -> (r: Result<
        PathSegment,
        PathError,
    >)
        requires
            old(self).pos <= old(self).src.len(),
        ensures
            final(self).src@ == old(self).src@,
            final(self).pos <= final(self).src.len(),
            match segment_at(old(self).src@, old(self).pos as int, cmd, absolute, first) {
                Ok((seg, e)) => r matches Ok(x) && x.model() == seg && final(self).pos == e,
                Err(x) => r == Err::<PathSegment, PathError>(x),
            },
    {
        if cmd == 'A' {
            let mut a1 = self.read_numbers(3)?;
            let large_arc = self.read_flag()?;
            let sweep = self.read_flag()?;
            let mut a2 = self.read_numbers(2)?;
            let ghost v1 = strings_view(a1@);
            let ghost v2 = strings_view(a2@);
            a1.append(&mut a2);
            assert(strings_view(a1@) =~= v1 + v2);
            Ok(PathSegment { command: 'A', absolute, args: a1, large_arc, sweep })
        } else {
            let n: usize = if cmd == 'H' || cmd == 'V' {
                1
            } else if cmd == 'C' {
                6
            } else if cmd == 'S' || cmd == 'Q' {
                4
            } else {
                2
            };
            let args = self.read_numbers(n)?;
            let command: char = if cmd == 'M' && !first {
                'L'
            } else {
                cmd
            };
            Ok(PathSegment { command, absolute, args, large_arc: false, sweep: false })
        }
    }
}

fn upper_char(c: char) -> (r: char)
    ensures
        r == upper(c),
{
    if 'a' <= c && c <= 'z' {
        let u: u32 = c as u32;
        let b: u8 = (u - 32) as u8;
        b as char
    } else {
        c
    }
}

impl PathDataParser {
    /// Read the run of one command letter: its parameter lists while
    /// another number follows.
    fn read_run(&mut self, cmd: char, absolute: bool) -> (r: Result<Vec<PathSegment>, PathError>)
        requires
            old(self).pos <= old(self).src.len(),
        ensures
            final(self).src@ == old(self).src@,
            final(self).pos <= final(self).src.len(),
            match run_at(old(self).src@, old(self).pos as nat, cmd, absolute, true) {
                Ok((segs, t)) => r matches Ok(v) && segments_model(v@) == segs && final(self).pos
                    == t,
                Err(x) => r == Err::<Vec<PathSegment>, PathError>(x),
            },
    {
        let ghost s = self.src@;
        let ghost start = self.pos;
        let mut out: Vec<PathSegment> = Vec::new();
        let mut first: bool = true;
        proof {
            match run_at(s, start as nat, cmd, absolute, true) {
                Ok((x, t)) => {
                    assert(Seq::<SSegment>::empty() + x =~= x);
                },
                Err(_) => {},
            }
        }
        if !(cmd == 'M' || cmd == 'L' || cmd == 'H' || cmd == 'V' || cmd == 'C' || cmd == 'S' || cmd
            == 'Q' || cmd == 'T' || cmd == 'A' || cmd == 'Z') {
            return Err(PathError::UnknownCommand);
        }
        if cmd == 'Z' {
            out.push(
                PathSegment { command: 'Z', absolute, args: Vec::new(), large_arc: false, sweep: false },
            );
            proof {
                assert(strings_view(Seq::<String>::empty()) =~= Seq::<Seq<char>>::empty());
                assert(segments_model(out@) =~= seq![out@[0].model()]);
            }
            return Ok(out);
        }
        loop
            invariant_except_break
                run_at(s, start as nat, cmd, absolute, true) == run_after(
                    segments_model(out@),
                    run_at(s, self.pos as nat, cmd, absolute, first),
                ),
            invariant
                s == old(self).src@,
                start == old(self).pos,
                self.src@ == s,
                start <= self.pos <= self.src.len(),
                cmd != 'Z',
                is_path_command(cmd),
            ensures
                run_at(s, start as nat, cmd, absolute, true) == Ok::<(Seq<SSegment>, int), PathError>(
                    (segments_model(out@), self.pos as int),
                ),
                self.src@ == s,
                self.pos <= self.src.len(),
            decreases self.src.len() - self.pos,
        {
            let ghost done = segments_model(out@);
            proof {
                lemma_segment_advances(s, self.pos as int, cmd, absolute, first);
            }
            let seg = match self.read_segment(cmd, absolute, first) {
                Ok(x) => x,
                Err(e) => {
                    return Err(e);
                },
            };
            out.push(seg);
            let ghost sm = out@.last().model();
            proof {
                assert(segments_model(out@) =~= done.push(sm));
            }
            first = false;
            self.skip_separators();
            if !self.peek_starts_number() {
                proof {
                    assert(done + seq![sm] =~= done.push(sm));
                }
                break;
            }
            proof {
                match run_at(s, self.pos as nat, cmd, absolute, false) {
                    Ok((segs, t)) => {
                        assert(done + (seq![sm] + segs) =~= done.push(sm) + segs);
                    },
                    Err(_) => {},
                }
            }
        }
        Ok(out)
    }
}

/// Parse a `d` attribute into its segments.
pub fn parse_path_segments(d: &str) -> (r: Result<Vec<PathSegment>, PathError>)
    ensures
        match r {
            Ok(v) => path_segments_spec(d@) == Ok::<Seq<SSegment>, PathError>(segments_model(v@)),
            Err(e) => path_segments_spec(d@) == Err::<Seq<SSegment>, PathError>(e),
        },
{
    let mut p = PathDataParser::new(d);
    let ghost s = d@;
    let mut out: Vec<PathSegment> = Vec::new();
    assert(segments_model(out@) =~= Seq::<SSegment>::empty());
    proof {
        match commands_from(s, 0) {
            Ok(x) => {
                assert(Seq::<SSegment>::empty() + x =~= x);
            },
            Err(_) => {},
        }
    }
    loop
        invariant
            s == d@,
            p.src@ == s,
            p.pos <= p.src.len(),
            commands_from(s, 0) == after(segments_model(out@), commands_from(s, p.pos as nat)),
        decreases p.src.len() - p.pos,
    {
        let ghost p_before = p.pos;
        proof {
            lemma_find_char(s, p.pos as int, not_token_sep_fn());
        }
        let c = match p.next_command() {
            Ok(Some(c)) => c,
            Ok(None) => {
                assert(commands_from(s, p_before as nat) == Ok::<Seq<SSegment>, PathError>(
                    Seq::empty(),
                ));
                assert(segments_model(out@) + Seq::<SSegment>::empty() =~= segments_model(out@));
                return Ok(out);
            },
            Err(e) => {
                assert(commands_from(s, p_before as nat) == Err::<Seq<SSegment>, PathError>(e));
                return Err(e);
            },
        };
        let absolute: bool = 'A' <= c && c <= 'Z';
        let cmd = upper_char(c);
        let ghost start = p.pos;
        proof {
            lemma_run_advances(s, start as nat, cmd, absolute, true);
        }
        assert(commands_from(s, p_before as nat) == match run_at(s, start as nat, cmd, absolute, true) {
            Err(x) => Err(x),
            Ok((segs, t)) => after(segs, commands_from(s, t as nat)),
        });
        let mut run = match p.read_run(cmd, absolute) {
            Ok(v) => v,
            Err(e) => {
                return Err(e);
            },
        };
        let ghost before = segments_model(out@);
        let ghost rm = segments_model(run@);
        out.append(&mut run);
        proof {
            assert(segments_model(out@) =~= before + rm);
            match commands_from(s, p.pos as nat) {
                Ok(rest) => {
                    assert(before + (rm + rest) =~= segments_model(out@) + rest);
                },
                Err(_) => {},
            }
        }
    }
}

} // verus!
