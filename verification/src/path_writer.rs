//! Writing path segments back as `d` attribute text: each segment's
//! command letter (upper case when absolute) followed by its parameters,
//! everything separated by single spaces, and the arc flags as `0` / `1`.
//! Text written this way reads back as the same segments.
use vstd::prelude::*;

use crate::length::{float_literal, not_digit_fn};
use crate::number::{
    digits_end, frac_end, has_dot, has_mantissa_digit, int_end, is_sign, mantissa_start, number_at,
    number_end, not_token_sep_fn, skip_seps,
};
use crate::path_data::{
    arity, commands_from, flag_at, is_path_command, numbers_at, path_segments_spec, run_at,
    segment_at, segments_model, starts_number, upper, PathSegment, SSegment,
};
use crate::strings::{
    char_lower, find_char, is_ascii_alpha, is_ascii_digit, is_ascii_upper, lemma_find_char, lower,
    push_char, push_str, strings_view,
};

verus! {

/// A number as the writer formats one: an optional `-`, digits, and
/// optionally `.` and more digits.
pub open spec fn plain_number(t: Seq<char>) -> bool {
    let m: int = if t.len() > 0 && t[0] == '-' {
        1
    } else {
        0
    };
    let a = digits_end(t, m);
    a > m && (a == t.len() || (t[a] == '.' && a + 1 < t.len() && digits_end(t, a + 1) == t.len()))
}

/// How many numbers a segment carries: five for `A` (the flags are
/// apart), none for `Z`.
pub open spec fn seg_arity(c: char) -> nat {
    if c == 'A' {
        5
    } else if c == 'Z' {
        0
    } else {
        arity(c)
    }
}

/// A segment as the reader produces one: a command letter, the right
/// number of parameters, each a plain number, and flags only on arcs.
pub open spec fn writable(g: SSegment) -> bool {
    &&& is_path_command(g.command)
    &&& g.args.len() == seg_arity(g.command)
    &&& forall|i: int| 0 <= i < g.args.len() ==> plain_number(#[trigger] g.args[i])
    &&& g.command != 'A' ==> !g.large_arc && !g.sweep
}

/// The command letter written for a segment.
pub open spec fn letter(g: SSegment) -> char {
    if g.absolute {
        g.command
    } else {
        lower(g.command)
    }
}

pub open spec fn flag_char(b: bool) -> char {
    if b {
        '1'
    } else {
        '0'
    }
}

/// Each parameter preceded by a space.
pub open spec fn args_text(a: Seq<Seq<char>>) -> Seq<char>
    decreases a.len(),
{
    if a.len() == 0 {
        Seq::empty()
    } else {
        seq![' '] + a[0] + args_text(a.drop_first())
    }
}

/// Where an arc's flags go among its parameters.
pub open spec fn arc_split(g: SSegment) -> int {
    if g.args.len() < 3 {
        g.args.len() as int
    } else {
        3
    }
}

/// The text of one segment.
pub open spec fn seg_text(g: SSegment) -> Seq<char> {
    seq![letter(g)] + if g.command == 'A' {
        args_text(g.args.subrange(0, arc_split(g))) + seq![
            ' ',
            flag_char(g.large_arc),
            ' ',
            flag_char(g.sweep),
        ] + args_text(g.args.subrange(arc_split(g), g.args.len() as int))
    } else {
        args_text(g.args)
    }
}

/// Each segment preceded by a space.
pub open spec fn rest_text(gs: Seq<SSegment>) -> Seq<char>
    decreases gs.len(),
{
    if gs.len() == 0 {
        Seq::empty()
    } else {
        seq![' '] + seg_text(gs[0]) + rest_text(gs.drop_first())
    }
}

/// The text of a whole path: the segments separated by spaces.
pub open spec fn path_text(gs: Seq<SSegment>) -> Seq<char> {
    if gs.len() == 0 {
        Seq::empty()
    } else {
        seg_text(gs[0]) + rest_text(gs.drop_first())
    }
}

pub(crate) proof fn lemma_args_text_push(a: Seq<Seq<char>>, x: Seq<char>)
    ensures
        args_text(a.push(x)) == args_text(a) + seq![' '] + x,
    decreases a.len(),
{
    if a.len() == 0 {
        assert(a.push(x).drop_first() =~= Seq::<Seq<char>>::empty());
        assert(args_text(a.push(x).drop_first()) == Seq::<char>::empty());
        assert(a.push(x)[0] == x);
        assert(args_text(a.push(x)) =~= seq![' '] + x);
    } else {
        assert(a.push(x).drop_first() =~= a.drop_first().push(x));
        lemma_args_text_push(a.drop_first(), x);
        assert(args_text(a.push(x)) =~= args_text(a) + seq![' '] + x);
    }
}

proof fn lemma_rest_text_push(gs: Seq<SSegment>, g: SSegment)
    ensures
        rest_text(gs.push(g)) == rest_text(gs) + seq![' '] + seg_text(g),
    decreases gs.len(),
{
    if gs.len() == 0 {
        assert(gs.push(g).drop_first() =~= Seq::<SSegment>::empty());
        assert(rest_text(gs.push(g).drop_first()) == Seq::<char>::empty());
        assert(gs.push(g)[0] == g);
        assert(rest_text(gs.push(g)) =~= seq![' '] + seg_text(g));
    } else {
        assert(gs.push(g).drop_first() =~= gs.drop_first().push(g));
        lemma_rest_text_push(gs.drop_first(), g);
        assert(rest_text(gs.push(g)) =~= rest_text(gs) + seq![' '] + seg_text(g));
    }
}

/// `find_char` stops at the first matching position.
pub(crate) proof fn lemma_find_char_is(s: Seq<char>, i: int, j: int, pred: spec_fn(char) -> bool)
    requires
        0 <= i <= j <= s.len(),
        forall|k: int| i <= k < j ==> !pred(#[trigger] s[k]),
        j == s.len() || pred(s[j]),
    ensures
        find_char(s, i, pred) == j,
    decreases j - i,
{
    if i < j {
        lemma_find_char_is(s, i + 1, j, pred);
    }
}

/// A plain number standing in `s` at `q`, followed by a space, a `)` or
/// the end, reads as a number token ending where it ends.
pub(crate) proof fn lemma_plain_in_context(s: Seq<char>, q: int, t: Seq<char>)
    requires
        0 <= q,
        q + t.len() <= s.len(),
        s.subrange(q, q + t.len()) == t,
        plain_number(t),
        q + t.len() == s.len() || s[q + t.len()] == ' ' || s[q + t.len()] == ')',
    ensures
        has_mantissa_digit(s, q),
        number_end(s, q) == q + t.len(),
        float_literal(t),
        is_sign(s[q]) || is_ascii_digit(s[q]),
{
    let n = t.len() as int;
    let m: int = if t.len() > 0 && t[0] == '-' {
        1
    } else {
        0
    };
    let a = digits_end(t, m);
    lemma_find_char(t, m, not_digit_fn());
    assert(forall|k: int| 0 <= k < n ==> s[q + k] == #[trigger] t[k]);
    if t[0] != '-' {
        assert(is_ascii_digit(t[0]));
    }
    assert(mantissa_start(s, q) == q + m);
    assert forall|k: int| q + m <= k < q + a implies !not_digit_fn()(#[trigger] s[k]) by {
        assert(s[k] == t[k - q]);
        assert(!not_digit_fn()(t[k - q]));
    }
    lemma_find_char_is(s, q + m, q + a, not_digit_fn());
    assert(int_end(s, q) == q + a);
    if a < n {
        assert(t[a] == '.');
        assert(s[q + a] == '.');
        assert(has_dot(s, q));
        lemma_find_char(t, a + 1, not_digit_fn());
        assert forall|k: int| q + a + 1 <= k < q + n implies !not_digit_fn()(#[trigger] s[k]) by {
            assert(s[k] == t[k - q]);
            assert(!not_digit_fn()(t[k - q]));
        }
        lemma_find_char_is(s, q + a + 1, q + n, not_digit_fn());
        assert(frac_end(s, q) == q + n);
    } else {
        assert(!has_dot(s, q));
        assert(frac_end(s, q) == q + n);
    }
    assert(number_end(s, q) == q + n);
}

/// A space then a plain number (then a space, a `)` or the end) reads as
/// that number.
pub(crate) proof fn lemma_number_at_ctx(s: Seq<char>, p: int, t: Seq<char>)
    requires
        0 <= p,
        p + 1 + t.len() <= s.len(),
        s[p] == ' ',
        s.subrange(p + 1, p + 1 + t.len()) == t,
        plain_number(t),
        p + 1 + t.len() == s.len() || s[p + 1 + t.len()] == ' ' || s[p + 1 + t.len()] == ')',
    ensures
        number_at(s, p) == Ok::<(Seq<char>, int), crate::number::NumberError>((t, p + 1 + t.len())),
{
    lemma_plain_in_context(s, p + 1, t);
    lemma_find_char_is(s, p, p + 1, not_token_sep_fn());
    assert(skip_seps(s, p) == p + 1);
}

/// `args_text(a)` standing in `s` at `p`, followed by a space or the end,
/// reads as the numbers `a`.
proof fn lemma_numbers_at_ctx(s: Seq<char>, p: int, a: Seq<Seq<char>>)
    requires
        0 <= p,
        p + args_text(a).len() <= s.len(),
        s.subrange(p, p + args_text(a).len()) == args_text(a),
        forall|i: int| 0 <= i < a.len() ==> plain_number(#[trigger] a[i]),
        p + args_text(a).len() == s.len() || s[p + args_text(a).len()] == ' ',
    ensures
        numbers_at(s, p, a.len()) == Ok::<(Seq<Seq<char>>, int), crate::path_data::PathError>(
            (a, p + args_text(a).len()),
        ),
    decreases a.len(),
{
    if a.len() > 0 {
        let x = a[0];
        let xl = x.len() as int;
        let rest = a.drop_first();
        let tail = args_text(rest);
        let whole = args_text(a);
        assert(whole == seq![' '] + x + tail);
        let n = whole.len() as int;
        assert(s[p] == whole[0]);
        assert(s.subrange(p + 1, p + 1 + xl) =~= whole.subrange(1, 1 + xl));
        assert(whole.subrange(1, 1 + xl) =~= x);
        if rest.len() > 0 {
            assert(tail[0] == ' ');
            assert(s[p + 1 + xl] == whole[1 + xl]);
        }
        assert(plain_number(a[0]));
        lemma_number_at_ctx(s, p, x);
        let p2 = p + 1 + x.len();
        assert(s.subrange(p2, p2 + tail.len()) =~= whole.subrange(1 + xl, n));
        assert(whole.subrange(1 + xl, n) =~= tail);
        assert forall|i: int| 0 <= i < rest.len() implies plain_number(#[trigger] rest[i]) by {
            assert(rest[i] == a[i + 1]);
        }
        lemma_numbers_at_ctx(s, p2, rest);
        assert(seq![x] + rest =~= a);
        assert(rest.len() == (a.len() - 1) as nat);
        assert(p2 + tail.len() == p + n);
    } else {
        assert(a =~= Seq::<Seq<char>>::empty());
    }
}

/// A space then a flag digit reads as that flag.
proof fn lemma_flag_at_ctx(s: Seq<char>, p: int, b: bool)
    requires
        0 <= p,
        p + 1 < s.len(),
        s[p] == ' ',
        s[p + 1] == flag_char(b),
    ensures
        flag_at(s, p) == Ok::<(bool, int), crate::path_data::PathError>((b, p + 2)),
{
    lemma_find_char_is(s, p, p + 1, not_token_sep_fn());
}

/// The letter written for a command reads back as that command, in the
/// right case, and starts neither a number nor a separator run.
proof fn lemma_letter(g: SSegment)
    requires
        is_path_command(g.command),
    ensures
        is_ascii_alpha(letter(g)),
        upper(letter(g)) == g.command,
        is_ascii_upper(letter(g)) == g.absolute,
        !is_sign(letter(g)),
        letter(g) != '.',
        !is_ascii_digit(letter(g)),
        not_token_sep_fn()(letter(g)),
{
    let c = g.command;
    assert('A' <= c <= 'Z');
    if !g.absolute {
        let l = lower(c);
        assert(l as u32 == c as u32 + 32);
        assert('a' <= l <= 'z');
        assert(upper(l) as u32 == l as u32 - 32);
    }
}

/// One segment standing in `s` at `P` (its letter already read), followed
/// by a space or the end, reads as that segment.
proof fn lemma_segment_ctx(s: Seq<char>, pos: int, g: SSegment)
    requires
        writable(g),
        g.command != 'Z',
        0 <= pos,
        pos + seg_text(g).len() <= s.len(),
        s.subrange(pos, pos + seg_text(g).len()) == seg_text(g),
        pos + seg_text(g).len() == s.len() || s[pos + seg_text(g).len()] == ' ',
    ensures
        segment_at(s, pos + 1, g.command, g.absolute, true) == Ok::<(SSegment, int), crate::path_data::PathError>(
            (g, pos + seg_text(g).len()),
        ),
{
    let t = seg_text(g);
    let n = t.len() as int;
    let e = pos + n;
    if g.command == 'A' {
        let k = arc_split(g);
        let a1 = g.args.subrange(0, k);
        let a2 = g.args.subrange(k, g.args.len() as int);
        assert(k == 3);
        let t1 = args_text(a1);
        let fl = seq![' ', flag_char(g.large_arc), ' ', flag_char(g.sweep)];
        let t2 = args_text(a2);
        assert(t == seq![letter(g)] + t1 + fl + t2);
        let l1 = t1.len() as int;
        let l2 = t2.len() as int;
        assert(s.subrange(pos + 1, pos + 1 + l1) =~= t.subrange(1, 1 + l1));
        assert(t.subrange(1, 1 + l1) =~= t1);
        assert(s[pos + 1 + l1] == t[1 + l1]);
        assert forall|i: int| 0 <= i < a1.len() implies plain_number(#[trigger] a1[i]) by {
            assert(a1[i] == g.args[i]);
        }
        lemma_numbers_at_ctx(s, pos + 1, a1);
        let p1 = pos + 1 + l1;
        assert(s[p1] == t[1 + l1]);
        assert(s[p1 + 1] == t[2 + l1]);
        lemma_flag_at_ctx(s, p1, g.large_arc);
        assert(s[p1 + 2] == t[3 + l1]);
        assert(s[p1 + 3] == t[4 + l1]);
        lemma_flag_at_ctx(s, p1 + 2, g.sweep);
        let p3 = p1 + 4;
        assert(s.subrange(p3, p3 + l2) =~= t.subrange(5 + l1, n));
        assert(t.subrange(5 + l1, n) =~= t2);
        assert forall|i: int| 0 <= i < a2.len() implies plain_number(#[trigger] a2[i]) by {
            assert(a2[i] == g.args[i + 3]);
        }
        lemma_numbers_at_ctx(s, p3, a2);
        assert(a1 + a2 =~= g.args);
        assert(p3 + l2 == e);
        assert(a1.len() == 3);
        assert(a2.len() == 2);
    } else {
        let ta = args_text(g.args);
        assert(t == seq![letter(g)] + ta);
        assert(s.subrange(pos + 1, pos + 1 + ta.len()) =~= t.subrange(1, n));
        assert(t.subrange(1, n) =~= ta);
        lemma_numbers_at_ctx(s, pos + 1, g.args);
        assert(g.args.len() == arity(g.command));
    }
}

/// Indexing into a suffix of `s`.
proof fn lemma_suffix_index(s: Seq<char>, a: int, w: Seq<char>)
    requires
        0 <= a <= s.len(),
        s.subrange(a, s.len() as int) == w,
    ensures
        w.len() == s.len() - a,
        forall|k: int| 0 <= k < w.len() ==> s[a + k] == #[trigger] w[k],
{
    assert forall|k: int| 0 <= k < w.len() implies s[a + k] == #[trigger] w[k] by {
        assert(s.subrange(a, s.len() as int)[k] == s[a + k]);
    }
}

/// The commands from `e` read as `h` then `tail` when the separators at
/// `e` lead to `h`'s text and the text after it reads as `tail`.
#[verifier::spinoff_prover]
proof fn lemma_command_step(s: Seq<char>, e: int, pos: int, h: SSegment, tail: Seq<SSegment>)
    requires
        0 <= e <= pos,
        pos + seg_text(h).len() <= s.len(),
        skip_seps(s, e) == pos,
        s.subrange(pos, s.len() as int) == seg_text(h) + rest_text(tail),
        writable(h),
        commands_from(s, (pos + seg_text(h).len()) as nat) == Ok::<Seq<SSegment>, crate::path_data::PathError>(tail),
        tail.len() > 0 ==> is_path_command(tail[0].command),
    ensures
        commands_from(s, e as nat) == Ok::<Seq<SSegment>, crate::path_data::PathError>(seq![h] + tail),
{
    let t = seg_text(h);
    let n = t.len() as int;
    let end = pos + n;
    let whole = t + rest_text(tail);
    lemma_suffix_index(s, pos, whole);
    assert(s[pos] == whole[0]);
    assert(whole[0] == letter(h));
    lemma_letter(h);
    assert(s.subrange(pos, end) =~= whole.subrange(0, n));
    assert(whole.subrange(0, n) =~= t);
    if tail.len() > 0 {
        assert(rest_text(tail)[0] == ' ');
        assert(s[end] == whole[n]);
        let t0 = tail[0];
        assert(s[end + 1] == whole[n + 1]);
        assert(whole[n + 1] == seg_text(t0)[0]);
        lemma_letter(t0);
        lemma_find_char_is(s, end, end + 1, not_token_sep_fn());
        assert(skip_seps(s, end) == end + 1);
        assert(!starts_number(s, end + 1));
    } else {
        assert(whole =~= t);
        assert(end == s.len());
        lemma_find_char_is(s, end, end, not_token_sep_fn());
        assert(skip_seps(s, end) == end);
    }
    let r = skip_seps(s, end);
    assert(commands_from(s, r as nat) == commands_from(s, end as nat));
    if h.command == 'Z' {
        assert(h.args =~= Seq::<Seq<char>>::empty());
        assert(n == 1);
        assert(run_at(s, (pos + 1) as nat, 'Z', h.absolute, true) == Ok::<(Seq<SSegment>, int), crate::path_data::PathError>(
            (seq![h], pos + 1),
        ));
    } else {
        lemma_segment_ctx(s, pos, h);
        assert(run_at(s, (pos + 1) as nat, h.command, h.absolute, true) == Ok::<(Seq<SSegment>, int), crate::path_data::PathError>(
            (seq![h], r),
        ));
    }
}

/// Text made of a space and a segment's text per segment reads as those
/// segments.
proof fn lemma_block(s: Seq<char>, e: int, hs: Seq<SSegment>)
    requires
        0 <= e <= s.len(),
        s.subrange(e, s.len() as int) == rest_text(hs),
        forall|i: int| 0 <= i < hs.len() ==> writable(#[trigger] hs[i]),
    ensures
        commands_from(s, e as nat) == Ok::<Seq<SSegment>, crate::path_data::PathError>(hs),
    decreases hs.len(),
{
    lemma_suffix_index(s, e, rest_text(hs));
    if hs.len() == 0 {
        assert(rest_text(hs) =~= Seq::<char>::empty());
        assert(e == s.len());
        lemma_find_char_is(s, e, e, not_token_sep_fn());
        assert(hs =~= Seq::<SSegment>::empty());
    } else {
        let h = hs[0];
        let tail = hs.drop_first();
        let whole = rest_text(hs);
        assert(whole == seq![' '] + seg_text(h) + rest_text(tail));
        assert(whole[0] == ' ');
        assert(s[e] == ' ');
        let pos = e + 1;
        assert(s.subrange(pos, s.len() as int) =~= whole.subrange(1, whole.len() as int));
        assert(whole.subrange(1, whole.len() as int) =~= seg_text(h) + rest_text(tail));
        assert(writable(h));
        assert(whole[1] == seg_text(h)[0]);
        assert(s[pos] == seg_text(h)[0]);
        lemma_letter(h);
        lemma_find_char_is(s, e, pos, not_token_sep_fn());
        let end = pos + seg_text(h).len();
        assert(s.subrange(end, s.len() as int) =~= whole.subrange(1 + seg_text(h).len() as int, whole.len() as int));
        assert(whole.subrange(1 + seg_text(h).len() as int, whole.len() as int) =~= rest_text(tail));
        assert forall|i: int| 0 <= i < tail.len() implies writable(#[trigger] tail[i]) by {
            assert(tail[i] == hs[i + 1]);
        }
        lemma_block(s, end, tail);
        if tail.len() > 0 {
            assert(writable(tail[0]));
        }
        lemma_command_step(s, e, pos, h, tail);
        assert(seq![h] + tail =~= hs);
    }
}

/// Writing segments and reading the text back gives the same segments,
/// for segments whose parameters are plain numbers and fit their commands.
#[verifier::spinoff_prover]
pub proof fn lemma_write_then_parse(gs: Seq<SSegment>)
    requires
        forall|i: int| 0 <= i < gs.len() ==> writable(#[trigger] gs[i]),
    ensures
        path_segments_spec(path_text(gs)) == Ok::<Seq<SSegment>, crate::path_data::PathError>(gs),
{
    let s = path_text(gs);
    if gs.len() == 0 {
        lemma_find_char_is(s, 0, 0, not_token_sep_fn());
        assert(gs =~= Seq::<SSegment>::empty());
    } else {
        let h = gs[0];
        let tail = gs.drop_first();
        assert(s == seg_text(h) + rest_text(tail));
        assert(writable(h));
        lemma_letter(h);
        assert(s[0] == seg_text(h)[0]);
        lemma_find_char_is(s, 0, 0, not_token_sep_fn());
        let end = seg_text(h).len() as int;
        assert(s.subrange(end, s.len() as int) =~= rest_text(tail));
        assert(s.subrange(0, s.len() as int) =~= s);
        assert forall|i: int| 0 <= i < tail.len() implies writable(#[trigger] tail[i]) by {
            assert(tail[i] == gs[i + 1]);
        }
        lemma_block(s, end, tail);
        if tail.len() > 0 {
            assert(writable(tail[0]));
        }
        lemma_command_step(s, 0, 0, h, tail);
        assert(seq![h] + tail =~= gs);
    }
}

proof fn lemma_path_text_push(gs: Seq<SSegment>, i: int)
    requires
        0 <= i < gs.len(),
    ensures
        path_text(gs.take(i + 1)) == path_text(gs.take(i)) + (if i > 0 {
            seq![' ']
        } else {
            Seq::empty()
        }) + seg_text(gs[i]),
{
    let a = gs.take(i);
    let b = gs.take(i + 1);
    if i == 0 {
        assert(b.drop_first() =~= Seq::<SSegment>::empty());
        assert(rest_text(b.drop_first()) == Seq::<char>::empty());
        assert(path_text(b) =~= seg_text(gs[0]));
        assert(path_text(a) == Seq::<char>::empty());
        assert(path_text(b) =~= path_text(a) + Seq::<char>::empty() + seg_text(gs[i]));
    } else {
        assert(b.drop_first() =~= a.drop_first().push(gs[i]));
        lemma_rest_text_push(a.drop_first(), gs[i]);
        assert(b[0] == a[0]);
        assert(path_text(b) =~= path_text(a) + seq![' '] + seg_text(gs[i]));
    }
}

/// Append `args[from..to]`, each after a space.
fn push_args(out: &mut String, args: &Vec<String>, from: usize, to: usize)
    requires
        from <= to <= args.len(),
    ensures
        final(out)@ == old(out)@ + args_text(strings_view(args@).subrange(from as int, to as int)),
{
    let ghost a = strings_view(args@);
    let mut i: usize = from;
    assert(a.subrange(from as int, from as int) =~= Seq::<Seq<char>>::empty());
    assert(out@ =~= old(out)@ + args_text(a.subrange(from as int, from as int)));
    while i < to
        invariant
            from <= i <= to <= args.len(),
            a == strings_view(args@),
            out@ == old(out)@ + args_text(a.subrange(from as int, i as int)),
        decreases to - i,
    {
        push_char(out, ' ');
        push_str(out, args[i].as_str());
        proof {
            assert(a.subrange(from as int, i + 1) =~= a.subrange(from as int, i as int).push(a[i as int]));
            lemma_args_text_push(a.subrange(from as int, i as int), a[i as int]);
            assert(a[i as int] == args@[i as int]@);
        }
        i += 1;
        assert(out@ =~= old(out)@ + args_text(a.subrange(from as int, i as int)));
    }
}

/// Append the text of one segment.
fn write_segment(out: &mut String, seg: &PathSegment)
    ensures
        final(out)@ == old(out)@ + seg_text(seg.model()),
{
    let ghost g = seg.model();
    let ghost start = old(out)@;
    let c: char = if seg.absolute {
        seg.command
    } else {
        char_lower(seg.command)
    };
    push_char(out, c);
    let n: usize = seg.args.len();
    if seg.command == 'A' {
        let k: usize = if n < 3 {
            n
        } else {
            3
        };
        push_args(out, &seg.args, 0, k);
        push_char(out, ' ');
        push_char(out, if seg.large_arc {
            '1'
        } else {
            '0'
        });
        push_char(out, ' ');
        push_char(out, if seg.sweep {
            '1'
        } else {
            '0'
        });
        push_args(out, &seg.args, k, n);
        assert(out@ =~= start + seg_text(g));
    } else {
        push_args(out, &seg.args, 0, n);
        assert(strings_view(seg.args@).subrange(0, n as int) =~= g.args);
        assert(out@ =~= start + seg_text(g));
    }
}

/// Append the `d` attribute text of `segs`: each segment's command letter
/// (upper case when absolute) and parameters, everything separated by
/// single spaces, the arc flags as `0` / `1`.
pub fn write_path_d(out: &mut String, segs: &[PathSegment])
    ensures
        final(out)@ == old(out)@ + path_text(segments_model(segs@)),
{
    let ghost gs = segments_model(segs@);
    let mut i: usize = 0;
    assert(gs.take(0) =~= Seq::<SSegment>::empty());
    assert(out@ =~= old(out)@ + path_text(gs.take(0)));
    while i < segs.len()
        invariant
            i <= segs@.len(),
            gs == segments_model(segs@),
            out@ == old(out)@ + path_text(gs.take(i as int)),
        decreases segs@.len() - i,
    {
        if i > 0 {
            push_char(out, ' ');
        }
        write_segment(out, &segs[i]);
        proof {
            lemma_path_text_push(gs, i as int);
            assert(gs[i as int] == segs@[i as int].model());
        }
        i += 1;
        assert(out@ =~= old(out)@ + path_text(gs.take(i as int)));
    }
    assert(gs.take(i as int) =~= gs);
}

} // verus!

verus! {

/// What every segment the reader produces satisfies: a command letter
/// and exactly the parameters that command takes.
pub open spec fn well_shaped(g: SSegment) -> bool {
    is_path_command(g.command) && g.args.len() == seg_arity(g.command)
}

proof fn lemma_numbers_at_len(s: Seq<char>, p: int, n: nat)
    ensures
        numbers_at(s, p, n) matches Ok((a, _)) ==> a.len() == n,
    decreases n,
{
    if n > 0 {
        if let Ok((_, e)) = number_at(s, p) {
            lemma_numbers_at_len(s, e, (n - 1) as nat);
        }
    }
}

proof fn lemma_segment_at_shape(s: Seq<char>, p: int, cmd: char, absolute: bool, first: bool)
    requires
        is_path_command(cmd),
        cmd != 'Z',
    ensures
        segment_at(s, p, cmd, absolute, first) matches Ok((g, _)) ==> well_shaped(g),
{
    if cmd == 'A' {
        lemma_numbers_at_len(s, p, 3);
        if let Ok((_, p1)) = numbers_at(s, p, 3) {
            if let Ok((_, p2)) = flag_at(s, p1) {
                if let Ok((_, p3)) = flag_at(s, p2) {
                    lemma_numbers_at_len(s, p3, 2);
                }
            }
        }
    } else {
        lemma_numbers_at_len(s, p, arity(cmd));
    }
}

proof fn lemma_run_at_shape(s: Seq<char>, p: nat, cmd: char, absolute: bool, first: bool)
    ensures
        run_at(s, p, cmd, absolute, first) matches Ok((segs, _)) ==> forall|i: int|
            0 <= i < segs.len() ==> well_shaped(#[trigger] segs[i]),
    decreases s.len() - p,
{
    if is_path_command(cmd) && cmd != 'Z' && p <= s.len() {
        lemma_segment_at_shape(s, p as int, cmd, absolute, first);
        if let Ok((seg, q)) = segment_at(s, p as int, cmd, absolute, first) {
            let r = skip_seps(s, q);
            if starts_number(s, r) {
                crate::path_data::lemma_segment_advances(s, p as int, cmd, absolute, first);
                lemma_find_char(s, q, not_token_sep_fn());
                lemma_run_at_shape(s, r as nat, cmd, absolute, false);
                if let Ok((segs, t)) = run_at(s, r as nat, cmd, absolute, false) {
                    let all = seq![seg] + segs;
                    assert forall|i: int| 0 <= i < all.len() implies well_shaped(#[trigger] all[i]) by {
                        if i > 0 {
                            assert(all[i] == segs[i - 1]);
                        }
                    }
                }
            }
        }
    }
}

proof fn lemma_commands_from_shape(s: Seq<char>, p: nat)
    ensures
        commands_from(s, p) matches Ok(segs) ==> forall|i: int|
            0 <= i < segs.len() ==> well_shaped(#[trigger] segs[i]),
    decreases s.len() - p,
{
    let q = skip_seps(s, p as int);
    if p <= s.len() {
        lemma_find_char(s, p as int, not_token_sep_fn());
    }
    if q < s.len() && is_ascii_alpha(s[q]) {
        let cmd = upper(s[q]);
        let abs = is_ascii_upper(s[q]);
        crate::path_data::lemma_run_advances(s, (q + 1) as nat, cmd, abs, true);
        lemma_run_at_shape(s, (q + 1) as nat, cmd, abs, true);
        if let Ok((segs, t)) = run_at(s, (q + 1) as nat, cmd, abs, true) {
            lemma_commands_from_shape(s, t as nat);
            if let Ok(rest) = commands_from(s, t as nat) {
                let all = segs + rest;
                assert forall|i: int| 0 <= i < all.len() implies well_shaped(#[trigger] all[i]) by {
                    if i >= segs.len() {
                        assert(all[i] == rest[i - segs.len()]);
                    } else {
                        assert(all[i] == segs[i]);
                    }
                }
            }
        }
    }
}

/// Every segment read from a `d` attribute carries a command letter and
/// exactly the parameters that command takes (two for `M` / `L` / `T`,
/// one for `H` / `V`, four for `S` / `Q`, six for `C`, five numbers for
/// `A`, none for `Z`), so a caller may index them without a check.
pub proof fn lemma_parsed_segments_well_shaped(d: Seq<char>)
    ensures
        path_segments_spec(d) matches Ok(segs) ==> forall|i: int|
            0 <= i < segs.len() ==> well_shaped(#[trigger] segs[i]),
{
    lemma_commands_from_shape(d, 0);
}

} // verus!
