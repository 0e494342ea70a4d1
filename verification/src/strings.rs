//! Character-level helpers shared by the parsers and writers: the
//! whitespace classes the SVG / XML grammars use, ASCII case folding,
//! trimming, and the small set of `String` operations the library needs.

use vstd::prelude::*;
use vstd::string::*;

verus! {

/// The XML whitespace class used between tokens (`' '`, tab, LF, CR).
pub open spec fn is_xml_ws(c: char) -> bool {
    c == ' ' || c == '\t' || c == '\n' || c == '\r'
}

/// Unicode `White_Space` — the class `char::is_whitespace` and
/// `str::trim` use.
pub open spec fn is_unicode_ws(c: char) -> bool {
    let u: u32 = c as u32;
    ||| 0x09 <= u <= 0x0D
    ||| u == 0x20
    ||| u == 0x85
    ||| u == 0xA0
    ||| u == 0x1680
    ||| 0x2000 <= u <= 0x200A
    ||| u == 0x2028
    ||| u == 0x2029
    ||| u == 0x202F
    ||| u == 0x205F
    ||| u == 0x3000
}

/// ASCII whitespace as `u8::is_ascii_whitespace` / `char::is_ascii_whitespace`
/// define it (space, tab, LF, form feed, CR).
pub open spec fn is_ascii_ws(c: char) -> bool {
    c == ' ' || c == '\t' || c == '\n' || c == '\x0C' || c == '\r'
}

pub open spec fn is_ascii_digit(c: char) -> bool {
    '0' <= c <= '9'
}

pub open spec fn is_ascii_upper(c: char) -> bool {
    'A' <= c <= 'Z'
}

pub open spec fn is_ascii_alpha(c: char) -> bool {
    'A' <= c <= 'Z' || 'a' <= c <= 'z'
}

/// `char::to_ascii_lowercase`.
pub open spec fn lower(c: char) -> char {
    if is_ascii_upper(c) {
        ((c as u32) + 32) as char
    } else {
        c
    }
}

/// `str::to_ascii_lowercase` on the character sequence.
pub open spec fn lower_seq(s: Seq<char>) -> Seq<char> {
    Seq::new(s.len(), |i: int| lower(s[i]))
}

/// `str::eq_ignore_ascii_case`.
pub open spec fn eq_ignore_case(a: Seq<char>, b: Seq<char>) -> bool {
    a.len() == b.len() && forall|i: int| 0 <= i < a.len() ==> lower(#[trigger] a[i]) == lower(b[i])
}

/// Index of the first character at or after `i` that is not Unicode
/// whitespace (or `s.len()`).
pub open spec fn first_non_ws(s: Seq<char>, i: int) -> int
    decreases s.len() - i,
{
    if i < s.len() && is_unicode_ws(s[i]) {
        first_non_ws(s, i + 1)
    } else {
        i
    }
}

/// One past the last character before `j` that is not Unicode
/// whitespace (or `lo` when everything in `lo..j` is whitespace).
pub open spec fn last_non_ws(s: Seq<char>, lo: int, j: int) -> int
    decreases j - lo,
{
    if lo < j && is_unicode_ws(s[j - 1]) {
        last_non_ws(s, lo, j - 1)
    } else {
        j
    }
}

/// `str::trim_start`.
pub open spec fn trim_start(s: Seq<char>) -> Seq<char> {
    s.subrange(first_non_ws(s, 0), s.len() as int)
}

/// `str::trim_end`.
pub open spec fn trim_end(s: Seq<char>) -> Seq<char> {
    s.subrange(0, last_non_ws(s, 0, s.len() as int))
}

/// `str::trim`.
pub open spec fn trim(s: Seq<char>) -> Seq<char> {
    let a: int = first_non_ws(s, 0);
    s.subrange(a, last_non_ws(s, a, s.len() as int))
}

pub proof fn lemma_first_non_ws(s: Seq<char>, i: int)
    requires
        0 <= i <= s.len(),
    ensures
        i <= first_non_ws(s, i) <= s.len(),
        forall|k: int| i <= k < first_non_ws(s, i) ==> is_unicode_ws(#[trigger] s[k]),
        first_non_ws(s, i) < s.len() ==> !is_unicode_ws(s[first_non_ws(s, i)]),
    decreases s.len() - i,
{
    if i < s.len() && is_unicode_ws(s[i]) {
        lemma_first_non_ws(s, i + 1);
    }
}

pub proof fn lemma_last_non_ws(s: Seq<char>, lo: int, j: int)
    requires
        0 <= lo <= j <= s.len(),
    ensures
        lo <= last_non_ws(s, lo, j) <= j,
        forall|k: int| last_non_ws(s, lo, j) <= k < j ==> is_unicode_ws(#[trigger] s[k]),
        last_non_ws(s, lo, j) > lo ==> !is_unicode_ws(s[last_non_ws(s, lo, j) - 1]),
    decreases j - lo,
{
    if lo < j && is_unicode_ws(s[j - 1]) {
        lemma_last_non_ws(s, lo, j - 1);
    }
}

/// `char::is_whitespace`.
pub fn char_is_whitespace(c: char) -> (b: bool)
    ensures
        b == is_unicode_ws(c),
{
    let u: u32 = c as u32;
    (0x09 <= u && u <= 0x0D) || u == 0x20 || u == 0x85 || u == 0xA0 || u == 0x1680 || (0x2000
        <= u && u <= 0x200A) || u == 0x2028 || u == 0x2029 || u == 0x202F || u == 0x205F || u
        == 0x3000
}

/// `char::is_ascii_whitespace`.
pub fn char_is_ascii_whitespace(c: char) -> (b: bool)
    ensures
        b == is_ascii_ws(c),
{
    c == ' ' || c == '\t' || c == '\n' || c == '\x0C' || c == '\r'
}

/// `char::to_ascii_lowercase`.
pub fn char_lower(c: char) -> (r: char)
    ensures
        r == lower(c),
{
    if 'A' <= c && c <= 'Z' {
        let u: u32 = (c as u32) + 32;
        ascii_char(u)
    } else {
        c
    }
}

/// The character with the given ASCII code.
pub fn ascii_char(u: u32) -> (c: char)
    requires
        u < 128,
    ensures
        c == u as char,
{
    let b: u8 = u as u8;
    b as char
}

/// The characters of `s`, in order.
pub fn str_chars(s: &str) -> (v: Vec<char>)
    ensures
        v@ == s@,
{
    let mut v: Vec<char> = Vec::new();
    for c in it: s.chars()
        invariant
            v@ == it.seq().take(it.index() as int),
            it.seq() == s@,
    {
        v.push(c);
    }
    v
}

/// Append one character (`String::push`).
#[verifier::external_body]
pub(crate) fn push_char(s: &mut String, c: char)
    ensures
        final(s)@ == old(s)@.push(c),
{
    s.push(c);
}

/// Append a string slice (`String::push_str`).
#[verifier::external_body]
pub(crate) fn push_str(s: &mut String, t: &str)
    ensures
        final(s)@ == old(s)@ + t@,
{
    s.push_str(t);
}

/// An owned copy of a string slice (`str::to_string`).
pub fn to_owned_string(s: &str) -> (r: String)
    ensures
        r@ == s@,
{
    s.to_owned()
}

/// The string made of `v[start..end]`.
pub fn string_from_chars(v: &Vec<char>, start: usize, end: usize) -> (r: String)
    requires
        start <= end <= v.len(),
    ensures
        r@ == v@.subrange(start as int, end as int),
{
    let mut r = String::new();
    let mut i: usize = start;
    while i < end
        invariant
            start <= i <= end <= v.len(),
            r@ == v@.subrange(start as int, i as int),
        decreases end - i,
    {
        push_char(&mut r, v[i]);
        i += 1;
    }
    r
}

/// `str::to_ascii_lowercase`.
pub fn str_lower(s: &str) -> (r: String)
    ensures
        r@ == lower_seq(s@),
{
    let v = str_chars(s);
    let mut r = String::new();
    let mut i: usize = 0;
    while i < v.len()
        invariant
            i <= v.len(),
            v@ == s@,
            r@ == lower_seq(s@).take(i as int),
        decreases v.len() - i,
    {
        let c = char_lower(v[i]);
        push_char(&mut r, c);
        i += 1;
        assert(r@ =~= lower_seq(s@).take(i as int));
    }
    assert(lower_seq(s@).take(i as int) =~= lower_seq(s@));
    r
}

/// `str::eq_ignore_ascii_case`.
pub fn str_eq_ignore_case(a: &str, b: &str) -> (r: bool)
    ensures
        r == eq_ignore_case(a@, b@),
{
    let va = str_chars(a);
    let vb = str_chars(b);
    if va.len() != vb.len() {
        return false;
    }
    let mut i: usize = 0;
    while i < va.len()
        invariant
            i <= va.len() == vb.len(),
            va@ == a@,
            vb@ == b@,
            forall|k: int| 0 <= k < i ==> lower(#[trigger] a@[k]) == lower(b@[k]),
        decreases va.len() - i,
    {
        if char_lower(va[i]) != char_lower(vb[i]) {
            return false;
        }
        i += 1;
    }
    true
}

/// Equality of two string slices.
pub fn str_eq(a: &str, b: &str) -> (r: bool)
    ensures
        r == (a@ == b@),
{
    let va = str_chars(a);
    let vb = str_chars(b);
    if va.len() != vb.len() {
        return false;
    }
    let mut i: usize = 0;
    while i < va.len()
        invariant
            i <= va.len() == vb.len(),
            va@ == a@,
            vb@ == b@,
            forall|k: int| 0 <= k < i ==> a@[k] == b@[k],
        decreases va.len() - i,
    {
        if va[i] != vb[i] {
            return false;
        }
        i += 1;
    }
    assert(a@ =~= b@);
    true
}

/// `str::trim`.
pub fn str_trim(s: &str) -> (r: &str)
    ensures
        r@ == trim(s@),
{
    let v = str_chars(s);
    let mut a: usize = 0;
    proof {
        lemma_first_non_ws(s@, 0);
    }
    while a < v.len() && char_is_whitespace(v[a])
        invariant
            a <= v.len(),
            v@ == s@,
            first_non_ws(s@, 0) == first_non_ws(s@, a as int),
        decreases v.len() - a,
    {
        a += 1;
    }
    let mut b: usize = v.len();
    while a < b && char_is_whitespace(v[b - 1])
        invariant
            a <= b <= v.len(),
            v@ == s@,
            first_non_ws(s@, 0) == a,
            last_non_ws(s@, a as int, s@.len() as int) == last_non_ws(s@, a as int, b as int),
        decreases b - a,
    {
        b -= 1;
    }
    s.substring_char(a, b)
}

} // verus!

verus! {

/// First index `>= i` whose character satisfies `pred`, or the end.
pub open spec fn find_char(s: Seq<char>, i: int, pred: spec_fn(char) -> bool) -> int
    decreases s.len() - i,
{
    if 0 <= i < s.len() && !pred(s[i]) {
        find_char(s, i + 1, pred)
    } else {
        i
    }
}

pub proof fn lemma_find_char(s: Seq<char>, i: int, pred: spec_fn(char) -> bool)
    requires
        0 <= i <= s.len(),
    ensures
        i <= find_char(s, i, pred) <= s.len(),
        find_char(s, i, pred) < s.len() ==> pred(s[find_char(s, i, pred)]),
        forall|k: int| i <= k < find_char(s, i, pred) ==> !pred(#[trigger] s[k]),
    decreases s.len() - i,
{
    if i < s.len() && !pred(s[i]) {
        lemma_find_char(s, i + 1, pred);
    }
}

pub proof fn lemma_find_char_shift(s: Seq<char>, a: int, i: int, pred: spec_fn(char) -> bool)
    requires
        0 <= a <= i <= s.len(),
    ensures
        find_char(s.subrange(a, s.len() as int), i - a, pred) == find_char(s, i, pred) - a,
    decreases s.len() - i,
{
    if i < s.len() && !pred(s[i]) {
        lemma_find_char_shift(s, a, i + 1, pred);
    }
}

/// The pieces of `s` between separator characters (`str::split` with a
/// character predicate): always one more piece than separators.
pub open spec fn split_by(s: Seq<char>, sep: spec_fn(char) -> bool) -> Seq<Seq<char>>
    decreases s.len(),
{
    let i: int = find_char(s, 0, sep);
    proof {
        lemma_find_char(s, 0, sep);
    }
    if i >= s.len() {
        seq![s]
    } else {
        seq![s.subrange(0, i)] + split_by(s.subrange(i + 1, s.len() as int), sep)
    }
}

/// The trimmed, non-empty pieces, in order.
pub open spec fn trimmed_nonempty(ps: Seq<Seq<char>>) -> Seq<Seq<char>>
    decreases ps.len(),
{
    if ps.len() == 0 {
        Seq::empty()
    } else {
        let rest = trimmed_nonempty(ps.drop_last());
        if trim(ps.last()).len() > 0 {
            rest.push(trim(ps.last()))
        } else {
            rest
        }
    }
}

/// The non-empty pieces, in order.
pub open spec fn nonempty(ps: Seq<Seq<char>>) -> Seq<Seq<char>>
    decreases ps.len(),
{
    if ps.len() == 0 {
        Seq::empty()
    } else {
        let rest = nonempty(ps.drop_last());
        if ps.last().len() > 0 {
            rest.push(ps.last())
        } else {
            rest
        }
    }
}

pub open spec fn is_comma(c: char) -> bool {
    c == ','
}

pub open spec fn is_comma_or_ws(c: char) -> bool {
    c == ',' || is_unicode_ws(c)
}

pub open spec fn is_semicolon(c: char) -> bool {
    c == ';'
}

pub open spec fn semicolon_fn() -> spec_fn(char) -> bool {
    |c: char| is_semicolon(c)
}

pub open spec fn comma_fn() -> spec_fn(char) -> bool {
    |c: char| is_comma(c)
}

pub open spec fn comma_or_ws_fn() -> spec_fn(char) -> bool {
    |c: char| is_comma_or_ws(c)
}

/// The separator classes the list attributes use.
#[derive(Clone, Copy)]
pub enum Separator {
    /// `,`
    Comma,
    /// `,` or Unicode whitespace
    CommaOrWhitespace,
    /// `;`
    Semicolon,
}

pub open spec fn sep_fn(k: Separator) -> spec_fn(char) -> bool {
    match k {
        Separator::Comma => comma_fn(),
        Separator::CommaOrWhitespace => comma_or_ws_fn(),
        Separator::Semicolon => semicolon_fn(),
    }
}

fn is_sep(k: Separator, c: char) -> (b: bool)
    ensures
        b == sep_fn(k)(c),
{
    match k {
        Separator::Comma => c == ',',
        Separator::CommaOrWhitespace => c == ',' || char_is_whitespace(c),
        Separator::Semicolon => c == ';',
    }
}

/// Views of a sequence of string slices.
pub open spec fn strs_view(v: Seq<&str>) -> Seq<Seq<char>> {
    v.map_values(|x: &str| x@)
}

/// Views of a sequence of strings.
pub open spec fn strings_view(v: Seq<String>) -> Seq<Seq<char>> {
    v.map_values(|x: String| x@)
}

/// Split `s` at the separator class, trim each piece, and keep the
/// non-empty ones.
pub fn split_trimmed<'a>(s: &'a str, k: Separator) -> (r: Vec<&'a str>)
    ensures
        strs_view(r@) == trimmed_nonempty(split_by(s@, sep_fn(k))),
{
    let v = str_chars(s);
    let ghost sep = sep_fn(k);
    let mut out: Vec<&'a str> = Vec::new();
    let ghost mut pieces: Seq<Seq<char>> = Seq::empty();
    let mut start: usize = 0;
    assert(s@.subrange(0, s@.len() as int) =~= s@);
    loop
        invariant
            start <= v.len(),
            v@ == s@,
            sep == sep_fn(k),
            split_by(s@, sep) == pieces + split_by(s@.subrange(start as int, s@.len() as int), sep),
            strs_view(out@) == trimmed_nonempty(pieces),
        decreases v.len() - start,
    {
        let ghost rest = s@.subrange(start as int, s@.len() as int);
        let mut i: usize = start;
        proof {
            lemma_find_char(s@, start as int, sep);
        }
        while i < v.len() && !is_sep(k, v[i])
            invariant
                start <= i <= v.len(),
                v@ == s@,
                sep == sep_fn(k),
                find_char(s@, start as int, sep) == find_char(s@, i as int, sep),
            decreases v.len() - i,
        {
            i += 1;
        }
        proof {
            lemma_find_char_shift(s@, start as int, start as int, sep);
            assert(rest.subrange(0, i - start) =~= s@.subrange(start as int, i as int));
        }
        let piece = s.substring_char(start, i);
        let t = str_trim(piece);
        let ghost old_out = out@;
        let ghost np = pieces.push(piece@);
        if str_chars(t).len() > 0 {
            out.push(t);
            assert(strs_view(out@) =~= strs_view(old_out).push(t@));
        }
        proof {
            assert(np.drop_last() =~= pieces);
            assert(strs_view(out@) == trimmed_nonempty(np));
        }
        if i >= v.len() {
            proof {
                assert(split_by(rest, sep) == seq![rest]);
                assert(rest =~= piece@);
                assert(split_by(s@, sep) =~= np);
            }
            return out;
        }
        proof {
            assert(rest.subrange(i - start + 1, rest.len() as int) =~= s@.subrange(
                i + 1,
                s@.len() as int,
            ));
            assert(split_by(s@, sep) =~= np + split_by(s@.subrange(i + 1, s@.len() as int), sep));
            pieces = np;
        }
        start = i + 1;
    }
}

/// Each piece trimmed.
pub open spec fn trim_each(ps: Seq<Seq<char>>) -> Seq<Seq<char>> {
    ps.map_values(|p: Seq<char>| trim(p))
}

/// Split `s` at the separator class and trim every piece, empty ones
/// included (`s.split(..).map(str::trim)`).
pub fn split_each_trimmed<'a>(s: &'a str, k: Separator) -> (r: Vec<&'a str>)
    ensures
        strs_view(r@) == trim_each(split_by(s@, sep_fn(k))),
{
    let v = str_chars(s);
    let ghost sep = sep_fn(k);
    let mut out: Vec<&'a str> = Vec::new();
    let ghost mut pieces: Seq<Seq<char>> = Seq::empty();
    let mut start: usize = 0;
    assert(s@.subrange(0, s@.len() as int) =~= s@);
    loop
        invariant
            start <= v.len(),
            v@ == s@,
            sep == sep_fn(k),
            split_by(s@, sep) == pieces + split_by(s@.subrange(start as int, s@.len() as int), sep),
            strs_view(out@) == trim_each(pieces),
        decreases v.len() - start,
    {
        let ghost rest = s@.subrange(start as int, s@.len() as int);
        let mut i: usize = start;
        proof {
            lemma_find_char(s@, start as int, sep);
        }
        while i < v.len() && !is_sep(k, v[i])
            invariant
                start <= i <= v.len(),
                v@ == s@,
                sep == sep_fn(k),
                find_char(s@, start as int, sep) == find_char(s@, i as int, sep),
            decreases v.len() - i,
        {
            i += 1;
        }
        proof {
            lemma_find_char_shift(s@, start as int, start as int, sep);
            assert(rest.subrange(0, i - start) =~= s@.subrange(start as int, i as int));
        }
        let piece = s.substring_char(start, i);
        let t = str_trim(piece);
        let ghost old_out = out@;
        let ghost np = pieces.push(piece@);
        out.push(t);
        proof {
            assert(strs_view(out@) =~= strs_view(old_out).push(t@));
            assert(strs_view(out@) =~= trim_each(np));
        }
        if i >= v.len() {
            proof {
                assert(split_by(rest, sep) == seq![rest]);
                assert(rest =~= piece@);
                assert(split_by(s@, sep) =~= np);
            }
            return out;
        }
        proof {
            assert(rest.subrange(i - start + 1, rest.len() as int) =~= s@.subrange(
                i + 1,
                s@.len() as int,
            ));
            assert(split_by(s@, sep) =~= np + split_by(s@.subrange(i + 1, s@.len() as int), sep));
            pieces = np;
        }
        start = i + 1;
    }
}

/// Split `s` at the separator class and keep the non-empty pieces as
/// owned strings.
pub fn split_nonempty(s: &str, k: Separator) -> (r: Vec<String>)
    ensures
        strings_view(r@) == nonempty(split_by(s@, sep_fn(k))),
{
    let v = str_chars(s);
    let ghost sep = sep_fn(k);
    let mut out: Vec<String> = Vec::new();
    let ghost mut pieces: Seq<Seq<char>> = Seq::empty();
    let mut start: usize = 0;
    assert(s@.subrange(0, s@.len() as int) =~= s@);
    loop
        invariant
            start <= v.len(),
            v@ == s@,
            sep == sep_fn(k),
            split_by(s@, sep) == pieces + split_by(s@.subrange(start as int, s@.len() as int), sep),
            strings_view(out@) == nonempty(pieces),
        decreases v.len() - start,
    {
        let ghost rest = s@.subrange(start as int, s@.len() as int);
        let mut i: usize = start;
        proof {
            lemma_find_char(s@, start as int, sep);
        }
        while i < v.len() && !is_sep(k, v[i])
            invariant
                start <= i <= v.len(),
                v@ == s@,
                sep == sep_fn(k),
                find_char(s@, start as int, sep) == find_char(s@, i as int, sep),
            decreases v.len() - i,
        {
            i += 1;
        }
        proof {
            lemma_find_char_shift(s@, start as int, start as int, sep);
            assert(rest.subrange(0, i - start) =~= s@.subrange(start as int, i as int));
        }
        let piece = string_from_chars(&v, start, i);
        let ghost old_out = out@;
        let ghost np = pieces.push(piece@);
        let ghost pv = piece@;
        if i > start {
            out.push(piece);
            assert(strings_view(out@) =~= strings_view(old_out).push(pv));
        }
        proof {
            assert(np.drop_last() =~= pieces);
            assert(strings_view(out@) == nonempty(np));
        }
        if i >= v.len() {
            proof {
                assert(split_by(rest, sep) == seq![rest]);
                assert(rest =~= pv);
                assert(split_by(s@, sep) =~= np);
            }
            return out;
        }
        proof {
            assert(rest.subrange(i - start + 1, rest.len() as int) =~= s@.subrange(
                i + 1,
                s@.len() as int,
            ));
            assert(split_by(s@, sep) =~= np + split_by(s@.subrange(i + 1, s@.len() as int), sep));
            pieces = np;
        }
        start = i + 1;
    }
}

} // verus!
