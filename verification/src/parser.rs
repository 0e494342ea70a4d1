//! Hand-rolled XML reader and the small helpers the SVG layer uses on the
//! resulting tree: entity decoding, text / attribute escaping, qualified
//! name handling, attribute lookup, and the `.svgz` gzip framing.
//!
//! The reader works on the document's characters. Every delimiter of the
//! grammar is ASCII, so scanning characters is the same as scanning the
//! UTF-8 bytes of the input; slices between delimiters are always whole
//! characters.

use std::io::Read;
use std::io::Write;

use vstd::prelude::*;
use vstd::string::*;
use vstd::utf8::{decode_utf8, valid_utf8};
use crate::strings::{
    eq_ignore_case, is_xml_ws, lower_seq, push_char, push_str, str_chars, str_eq_ignore_case, str_lower,
    string_from_chars,
};

verus! {

/// One XML element parsed from the input.
#[derive(Debug)]
pub struct Element {
    /// Tag name as it appeared in the source (e.g. `svg`,
    /// `svg:rect`).
    pub name: String,
    /// `(name, value)` pairs in source order. Values have already had
    /// their entity references decoded.
    pub attrs: Vec<(String, String)>,
    /// Element children — interleaved elements and text runs in source
    /// order.
    pub children: Vec<Node>,
}

/// One node in the XML tree.
#[derive(Debug)]
pub enum Node {
    Element(Element),
    Text(String),
}

/// Mathematical model of a [`Node`].
pub enum SNode {
    Element(SElement),
    Text(Seq<char>),
}

/// Mathematical model of an [`Element`].
pub struct SElement {
    pub name: Seq<char>,
    pub attrs: Seq<(Seq<char>, Seq<char>)>,
    pub children: Seq<SNode>,
}

impl Node {
    pub open spec fn model(self) -> SNode
        decreases self,
    {
        match self {
            Node::Element(e) => SNode::Element(e.model()),
            Node::Text(t) => SNode::Text(t@),
        }
    }
}

pub open spec fn attrs_model(a: Seq<(String, String)>) -> Seq<(Seq<char>, Seq<char>)> {
    a.map_values(|p: (String, String)| (p.0@, p.1@))
}

impl Element {
    pub open spec fn model(self) -> SElement
        decreases self,
    {
        SElement {
            name: self.name@,
            attrs: attrs_model(self.attrs@),
            children: nodes_model(self.children@),
        }
    }
}

/// Models of a sequence of nodes, element-wise.
pub open spec fn nodes_model(s: Seq<Node>) -> Seq<SNode>
    decreases s,
{
    if s.len() == 0 {
        Seq::empty()
    } else {
        nodes_model(s.subrange(0, s.len() - 1)).push(s[s.len() - 1].model())
    }
}

pub proof fn lemma_nodes_model(s: Seq<Node>)
    ensures
        nodes_model(s).len() == s.len(),
        forall|i: int| 0 <= i < s.len() ==> #[trigger] nodes_model(s)[i] == s[i].model(),
    decreases s.len(),
{
    if s.len() > 0 {
        lemma_nodes_model(s.subrange(0, s.len() - 1));
    }
}

pub proof fn lemma_nodes_model_push(s: Seq<Node>, n: Node)
    ensures
        nodes_model(s.push(n)) == nodes_model(s).push(n.model()),
{
    assert(s.push(n).subrange(0, s.len() as int) =~= s);
}

// ---------------------------------------------------------------------
// Entities
// ---------------------------------------------------------------------

/// Number of bytes of the UTF-8 encoding of `c`.
pub open spec fn utf8_width(c: char) -> int {
    let u: u32 = c as u32;
    if u < 0x80 {
        1
    } else if u < 0x800 {
        2
    } else if u < 0x10000 {
        3
    } else {
        4
    }
}

/// Scan an entity body starting at `j` (just after `&`), with `nbytes`
/// bytes already buffered. Returns `(end, next, found)`: the body is
/// `s[start..end]`, scanning resumes at `next`, and `found` tells
/// whether a terminating `;` was seen. A body that grows past 16 bytes
/// is abandoned without a `;`; scanning resumes at the character that
/// would have extended it, so no character is lost.
pub open spec fn entity_scan(s: Seq<char>, j: int, nbytes: int) -> (int, int, bool)
    decreases s.len() - j,
{
    if j >= s.len() {
        (s.len() as int, s.len() as int, false)
    } else if s[j] == ';' {
        (j, j + 1, true)
    } else if nbytes > 16 {
        (j, j, false)
    } else {
        entity_scan(s, j + 1, nbytes + utf8_width(s[j]))
    }
}

pub proof fn lemma_entity_scan(s: Seq<char>, j: int, nbytes: int)
    requires
        0 <= j <= s.len(),
    ensures
        entity_scan(s, j, nbytes).0 <= entity_scan(s, j, nbytes).1 <= s.len(),
        j <= entity_scan(s, j, nbytes).0,
        j < s.len() && nbytes <= 16 ==> j < entity_scan(s, j, nbytes).1,
        !entity_scan(s, j, nbytes).2 ==> entity_scan(s, j, nbytes).0 == entity_scan(s, j, nbytes).1,
        entity_scan(s, j, nbytes).2 ==> s[entity_scan(s, j, nbytes).0] == ';'
            && entity_scan(s, j, nbytes).1 == entity_scan(s, j, nbytes).0 + 1,
        forall|k: int| j <= k < entity_scan(s, j, nbytes).0 ==> #[trigger] s[k] != ';',
    decreases s.len() - j,
{
    if j < s.len() && s[j] != ';' && nbytes <= 16 {
        lemma_entity_scan(s, j + 1, nbytes + utf8_width(s[j]));
    }
}

/// Value of a digit character in the given radix, if it is one.
pub open spec fn digit_value(c: char, radix: u32) -> Option<u32> {
    let d: int = if '0' <= c <= '9' {
        (c as u32) - ('0' as u32)
    } else if 'a' <= c <= 'z' {
        (c as u32) - ('a' as u32) + 10
    } else if 'A' <= c <= 'Z' {
        (c as u32) - ('A' as u32) + 10
    } else {
        99
    };
    if d < radix {
        Some(d as u32)
    } else {
        None
    }
}

/// Numeric value of a string of digits (most significant first).
pub open spec fn digits_value(d: Seq<char>, radix: u32) -> int
    decreases d.len(),
{
    if d.len() == 0 {
        0
    } else {
        digits_value(d.drop_last(), radix) * radix + digit_value(d.last(), radix).unwrap() as int
    }
}

pub open spec fn all_digits(d: Seq<char>, radix: u32) -> bool {
    forall|i: int| 0 <= i < d.len() ==> #[trigger] digit_value(d[i], radix).is_some()
}

/// `u32::from_str_radix`: an optional `+`, then at least one digit, and a
/// value that fits in `u32`.
pub open spec fn parse_u32_radix(s: Seq<char>, radix: u32) -> Option<u32> {
    let d: Seq<char> = if s.len() > 0 && s[0] == '+' {
        s.drop_first()
    } else {
        s
    };
    if d.len() == 0 || !all_digits(d, radix) || digits_value(d, radix) > u32::MAX {
        None
    } else {
        Some(digits_value(d, radix) as u32)
    }
}

/// Unicode scalar values (`char::from_u32` succeeds on exactly these).
pub open spec fn is_scalar_value(u: u32) -> bool {
    u <= 0x10FFFF && !(0xD800 <= u <= 0xDFFF)
}

/// The character a numeric reference body (`#65`, `#x41`) denotes.
pub open spec fn numeric_entity(ent: Seq<char>) -> Option<char> {
    if ent.len() > 0 && ent[0] == '#' {
        let rest: Seq<char> = ent.drop_first();
        let cp: Option<u32> = if rest.len() > 0 && (rest[0] == 'x' || rest[0] == 'X') {
            parse_u32_radix(rest.drop_first(), 16)
        } else {
            parse_u32_radix(rest, 10)
        };
        match cp {
            Some(u) => if is_scalar_value(u) {
                Some(u as char)
            } else {
                None
            },
            None => None,
        }
    } else {
        None
    }
}

/// What a complete `&body;` reference decodes to.
pub open spec fn entity_value(ent: Seq<char>) -> Seq<char> {
    if ent == seq!['a', 'm', 'p'] {
        seq!['&']
    } else if ent == seq!['l', 't'] {
        seq!['<']
    } else if ent == seq!['g', 't'] {
        seq!['>']
    } else if ent == seq!['q', 'u', 'o', 't'] {
        seq!['"']
    } else if ent == seq!['a', 'p', 'o', 's'] {
        seq!['\'']
    } else {
        match numeric_entity(ent) {
            Some(c) => seq![c],
            None => seq!['&'] + ent + seq![';'],
        }
    }
}

/// Decoding of the XML predefined entities and numeric character
/// references; anything unrecognised is kept verbatim.
pub open spec fn decode_spec(s: Seq<char>) -> Seq<char>
    decreases s.len(),
{
    if s.len() == 0 {
        Seq::empty()
    } else if s[0] != '&' {
        seq![s[0]] + decode_spec(s.drop_first())
    } else {
        let r: (int, int, bool) = entity_scan(s, 1, 0);
        let ent: Seq<char> = s.subrange(1, r.0);
        let piece: Seq<char> = if r.2 {
            entity_value(ent)
        } else {
            seq!['&'] + ent
        };
        proof {
            lemma_entity_scan(s, 1, 0);
        }
        piece + decode_spec(s.subrange(r.1, s.len() as int))
    }
}

pub proof fn lemma_entity_scan_shift(s: Seq<char>, i: int, j: int, nbytes: int)
    requires
        0 <= i <= j <= s.len(),
    ensures
        ({
            let a = entity_scan(s, j, nbytes);
            let b = entity_scan(s.subrange(i, s.len() as int), j - i, nbytes);
            b.0 == a.0 - i && b.1 == a.1 - i && b.2 == a.2
        }),
    decreases s.len() - j,
{
    if j < s.len() && s[j] != ';' && nbytes <= 16 {
        lemma_entity_scan_shift(s, i, j + 1, nbytes + utf8_width(s[j]));
    }
}

fn char_utf8_width(c: char) -> (w: usize)
    ensures
        w == utf8_width(c),
{
    let u: u32 = c as u32;
    if u < 0x80 {
        1
    } else if u < 0x800 {
        2
    } else if u < 0x10000 {
        3
    } else {
        4
    }
}

/// `char::from_u32`: the character with code point `u`, when `u` is a
/// Unicode scalar value.
#[verifier::external_body]
fn char_from_u32(u: u32) -> (r: Option<char>)
    ensures
        r == (if is_scalar_value(u) {
            Some(u as char)
        } else {
            None
        }),
{
    char::from_u32(u)
}

fn digit_of(c: char, radix: u32) -> (r: Option<u32>)
    requires
        radix == 10 || radix == 16,
    ensures
        r == digit_value(c, radix),
{
    let d: u32 = if '0' <= c && c <= '9' {
        (c as u32) - ('0' as u32)
    } else if 'a' <= c && c <= 'z' {
        (c as u32) - ('a' as u32) + 10
    } else if 'A' <= c && c <= 'Z' {
        (c as u32) - ('A' as u32) + 10
    } else {
        99
    };
    if d < radix {
        Some(d)
    } else {
        None
    }
}

proof fn lemma_digits_value_nonneg(d: Seq<char>, radix: u32)
    requires
        radix >= 1,
    ensures
        digits_value(d, radix) >= 0,
    decreases d.len(),
{
    if d.len() > 0 {
        lemma_digits_value_nonneg(d.drop_last(), radix);
        let v = digits_value(d.drop_last(), radix);
        assert(v * radix >= 0) by (nonlinear_arith)
            requires
                v >= 0,
                radix >= 1,
        ;
    }
}

proof fn lemma_digits_value_mono(d: Seq<char>, k: int, radix: u32)
    requires
        radix >= 1,
        0 <= k <= d.len(),
    ensures
        digits_value(d.take(k), radix) <= digits_value(d, radix),
    decreases d.len() - k,
{
    if k < d.len() {
        lemma_digits_value_mono(d, k + 1, radix);
        assert(d.take(k + 1).drop_last() =~= d.take(k));
        lemma_digits_value_nonneg(d.take(k), radix);
        let v = digits_value(d.take(k), radix);
        assert(v * radix >= v) by (nonlinear_arith)
            requires
                v >= 0,
                radix >= 1,
        ;
    } else {
        assert(d.take(k) =~= d);
    }
}

/// `u32::from_str_radix(v[start..end], radix)`.
fn parse_u32_digits(v: &Vec<char>, start: usize, end: usize, radix: u32) -> (r: Option<u32>)
    requires
        start <= end <= v.len(),
        radix == 10 || radix == 16,
    ensures
        r == parse_u32_radix(v@.subrange(start as int, end as int), radix),
{
    let ghost s = v@.subrange(start as int, end as int);
    let mut i: usize = start;
    if i < end && v[i] == '+' {
        i += 1;
    }
    let ghost d = v@.subrange(i as int, end as int);
    assert(d =~= (if s.len() > 0 && s[0] == '+' {
        s.drop_first()
    } else {
        s
    }));
    if i == end {
        return None;
    }
    let d0: usize = i;
    let mut acc: u64 = 0;
    let mut overflow: bool = false;
    while i < end
        invariant
            d0 <= i <= end <= v.len(),
            radix == 10 || radix == 16,
            d == v@.subrange(d0 as int, end as int),
            s == v@.subrange(start as int, end as int),
            d == (if s.len() > 0 && s[0] == '+' {
                s.drop_first()
            } else {
                s
            }),
            d.len() > 0,
            all_digits(d.take(i - d0), radix),
            overflow ==> digits_value(d.take(i - d0), radix) > u32::MAX,
            !overflow ==> acc == digits_value(d.take(i - d0), radix),
            acc <= u32::MAX,
        decreases end - i,
    {
        let k: Ghost<int> = Ghost(i - d0);
        assert(d.take(k@ + 1).drop_last() =~= d.take(k@));
        assert(d.take(k@ + 1).last() == v@[i as int]);
        match digit_of(v[i], radix) {
            None => {
                assert(!all_digits(d, radix)) by {
                    assert(d[k@] == v@[i as int]);
                    assert(0 <= k@ < d.len());
                    assert(!digit_value(d[k@], radix).is_some());
                }
                assert(parse_u32_radix(s, radix) == None::<u32>);
                return None;
            },
            Some(dg) => {
                if !overflow {
                    assert(acc * (radix as u64) <= 0xFFFF_FFFFu64 * 16) by (nonlinear_arith)
                        requires
                            acc <= 0xFFFF_FFFFu64,
                            radix <= 16,
                    ;
                    let nv: u64 = acc * (radix as u64) + (dg as u64);
                    if nv > 0xFFFF_FFFF {
                        overflow = true;
                    } else {
                        acc = nv;
                    }
                } else {
                    proof {
                        lemma_digits_value_mono(d.take(k@ + 1), k@, radix);
                        assert(d.take(k@ + 1).take(k@) =~= d.take(k@));
                    }
                }
                assert(all_digits(d.take(k@ + 1), radix)) by {
                    assert forall|j: int| 0 <= j < d.take(k@ + 1).len() implies #[trigger] digit_value(
                        d.take(k@ + 1)[j],
                        radix,
                    ).is_some() by {
                        if j < k@ {
                            assert(d.take(k@ + 1)[j] == d.take(k@)[j]);
                        }
                    }
                }
                i += 1;
            },
        }
    }
    assert(d.take(i - d0) =~= d);
    if overflow {
        None
    } else {
        Some(acc as u32)
    }
}

/// Decode the XML predefined entities + numeric character references.
/// Anything not recognised is left verbatim, which keeps a round-trip
/// honest when the input contains an unusual entity.
pub fn decode_entities(s: &str) -> (r: String)
    ensures
        r@ == decode_spec(s@),
{
    let v = str_chars(s);
    assert(v@.subrange(0, v@.len() as int) =~= v@);
    decode_chars(&v, 0, v.len())
}

/// [`decode_entities`] on `v[start..end]`.
pub fn decode_chars(v: &Vec<char>, start: usize, end: usize) -> (r: String)
    requires
        start <= end <= v.len(),
    ensures
        r@ == decode_spec(v@.subrange(start as int, end as int)),
{
    let ghost s = v@.subrange(start as int, end as int);
    let mut out = String::new();
    let mut i: usize = start;
    while i < end
        invariant
            start <= i <= end <= v.len(),
            s == v@.subrange(start as int, end as int),
            out@ + decode_spec(v@.subrange(i as int, end as int)) == decode_spec(s),
        decreases end - i,
    {
        let ghost t = v@.subrange(i as int, end as int);
        let c = v[i];
        if c != '&' {
            push_char(&mut out, c);
            assert(t.drop_first() =~= v@.subrange(i + 1, end as int));
            assert(out@ + decode_spec(v@.subrange(i + 1, end as int)) =~= decode_spec(s));
            i += 1;
        } else {
            // Buffer up to the next ';', giving up (without consuming the
            // next character) after 16 bytes.
            let mut j: usize = i + 1;
            let mut nbytes: usize = 0;
            let mut found: bool = false;
            let mut ent_end: usize = end;
            proof {
                lemma_entity_scan_shift(v@.subrange(0, end as int), i as int, (i + 1) as int, 0);
                assert(v@.subrange(0, end as int).subrange(i as int, end as int) =~= t);
            }
            while j < end
                invariant_except_break
                    i < j <= end <= v.len(),
                    nbytes <= 16 + 4,
                    entity_scan(t, (j - i) as int, nbytes as int) == entity_scan(t, 1, 0),
                    t == v@.subrange(i as int, end as int),
                    ent_end == end,
                    !found,
                ensures
                    ({
                        let r = entity_scan(t, 1, 0);
                        r.0 == ent_end - i && r.1 == j - i && r.2 == found
                    }),
                    j <= end,
                decreases end - j,
            {
                let nc = v[j];
                assert(t[(j - i) as int] == nc);
                if nc == ';' {
                    assert(entity_scan(t, (j - i) as int, nbytes as int) == ((j - i) as int, (j - i
                        + 1) as int, true));
                    found = true;
                    ent_end = j;
                    j += 1;
                    break;
                }
                if nbytes > 16 {
                    assert(entity_scan(t, (j - i) as int, nbytes as int) == ((j - i) as int, (j
                        - i) as int, false));
                    ent_end = j;
                    break;
                }
                nbytes += char_utf8_width(nc);
                j += 1;
            }
            let ghost r = entity_scan(t, 1, 0);
            proof {
                lemma_entity_scan(t, 1, 0);
            }
            assert(t.subrange(1, r.0) =~= v@.subrange(i + 1, ent_end as int));
            if !found {
                push_char(&mut out, '&');
                let ent = string_from_chars(v, i + 1, ent_end);
                push_str(&mut out, ent.as_str());
            } else {
                decode_reference(v, i + 1, ent_end, &mut out);
            }
            assert(t.subrange(r.1, t.len() as int) =~= v@.subrange(j as int, end as int));
            assert(out@ + decode_spec(v@.subrange(j as int, end as int)) =~= decode_spec(s));
            i = j;
        }
    }
    assert(v@.subrange(i as int, end as int) =~= Seq::<char>::empty());
    assert(out@ =~= decode_spec(s));
    out
}

pub(crate) fn seq_is(v: &Vec<char>, start: usize, end: usize, lit: &str) -> (b: bool)
    requires
        start <= end <= v.len(),
    ensures
        b == (v@.subrange(start as int, end as int) == lit@),
{
    let l = str_chars(lit);
    if l.len() != end - start {
        return false;
    }
    let mut k: usize = 0;
    while k < l.len()
        invariant
            k <= l.len() == end - start,
            start <= end <= v.len(),
            l@ == lit@,
            forall|m: int| 0 <= m < k ==> v@[start + m] == lit@[m],
        decreases l.len() - k,
    {
        if v[start + k] != l[k] {
            assert(v@.subrange(start as int, end as int)[k as int] != lit@[k as int]);
            return false;
        }
        k += 1;
    }
    assert(v@.subrange(start as int, end as int) =~= lit@);
    true
}

/// Append the decoding of the complete reference `&v[start..end];`.
fn decode_reference(v: &Vec<char>, start: usize, end: usize, out: &mut String)
    requires
        start <= end <= v.len(),
    ensures
        final(out)@ == old(out)@ + entity_value(v@.subrange(start as int, end as int)),
{
    let ghost ent = v@.subrange(start as int, end as int);
    proof {
        reveal_strlit("amp");
        reveal_strlit("lt");
        reveal_strlit("gt");
        reveal_strlit("quot");
        reveal_strlit("apos");
        assert("amp"@ =~= seq!['a', 'm', 'p']);
        assert("lt"@ =~= seq!['l', 't']);
        assert("gt"@ =~= seq!['g', 't']);
        assert("quot"@ =~= seq!['q', 'u', 'o', 't']);
        assert("apos"@ =~= seq!['a', 'p', 'o', 's']);
    }
    if seq_is(v, start, end, "amp") {
        push_char(out, '&');
    } else if seq_is(v, start, end, "lt") {
        push_char(out, '<');
    } else if seq_is(v, start, end, "gt") {
        push_char(out, '>');
    } else if seq_is(v, start, end, "quot") {
        push_char(out, '"');
    } else if seq_is(v, start, end, "apos") {
        push_char(out, '\'');
    } else {
        let mut cp: Option<u32> = None;
        if start < end && v[start] == '#' {
            if start + 1 < end && (v[start + 1] == 'x' || v[start + 1] == 'X') {
                cp = parse_u32_digits(v, start + 2, end, 16);
                assert(ent.drop_first().drop_first() =~= v@.subrange(start + 2, end as int));
            } else {
                cp = parse_u32_digits(v, start + 1, end, 10);
                assert(ent.drop_first() =~= v@.subrange(start + 1, end as int));
            }
        }
        let mut done: bool = false;
        if let Some(u) = cp {
            if let Some(c) = char_from_u32(u) {
                push_char(out, c);
                done = true;
            }
        }
        if !done {
            push_char(out, '&');
            let body = string_from_chars(v, start, end);
            push_str(out, body.as_str());
            push_char(out, ';');
        }
        assert(final(out)@ =~= old(out)@ + entity_value(ent));
    }
}

} // verus!

verus! {

// ---------------------------------------------------------------------
// Escaping
// ---------------------------------------------------------------------

/// Escape of one character in XML text content.
pub open spec fn esc_text_char(c: char) -> Seq<char> {
    if c == '&' {
        seq!['&', 'a', 'm', 'p', ';']
    } else if c == '<' {
        seq!['&', 'l', 't', ';']
    } else if c == '>' {
        seq!['&', 'g', 't', ';']
    } else {
        seq![c]
    }
}

/// Escape of one character in a `"`-quoted attribute value.
pub open spec fn esc_attr_char(c: char) -> Seq<char> {
    if c == '"' {
        seq!['&', 'q', 'u', 'o', 't', ';']
    } else {
        esc_text_char(c)
    }
}

pub open spec fn escape_text_spec(s: Seq<char>) -> Seq<char>
    decreases s.len(),
{
    if s.len() == 0 {
        Seq::empty()
    } else {
        esc_text_char(s[0]) + escape_text_spec(s.drop_first())
    }
}

pub open spec fn escape_attr_spec(s: Seq<char>) -> Seq<char>
    decreases s.len(),
{
    if s.len() == 0 {
        Seq::empty()
    } else {
        esc_attr_char(s[0]) + escape_attr_spec(s.drop_first())
    }
}

pub proof fn lemma_escape_text_push(s: Seq<char>, c: char)
    ensures
        escape_text_spec(s.push(c)) == escape_text_spec(s) + esc_text_char(c),
    decreases s.len(),
{
    if s.len() == 0 {
        assert(s.push(c).drop_first() =~= Seq::<char>::empty());
        reveal_with_fuel(escape_text_spec, 2);
        assert(escape_text_spec(s.push(c)) =~= esc_text_char(c));
    } else {
        lemma_escape_text_push(s.drop_first(), c);
        assert(s.push(c).drop_first() =~= s.drop_first().push(c));
        assert(escape_text_spec(s.push(c)) =~= escape_text_spec(s) + esc_text_char(c));
    }
}

pub proof fn lemma_escape_attr_push(s: Seq<char>, c: char)
    ensures
        escape_attr_spec(s.push(c)) == escape_attr_spec(s) + esc_attr_char(c),
    decreases s.len(),
{
    if s.len() == 0 {
        assert(s.push(c).drop_first() =~= Seq::<char>::empty());
        reveal_with_fuel(escape_attr_spec, 2);
        assert(escape_attr_spec(s.push(c)) =~= esc_attr_char(c));
    } else {
        lemma_escape_attr_push(s.drop_first(), c);
        assert(s.push(c).drop_first() =~= s.drop_first().push(c));
        assert(escape_attr_spec(s.push(c)) =~= escape_attr_spec(s) + esc_attr_char(c));
    }
}

/// Escape a string for use as XML text content (`&`, `<`, `>`).
pub fn escape_text(s: &str) -> (r: String)
    ensures
        r@ == escape_text_spec(s@),
{
    let v = str_chars(s);
    let mut out = String::new();
    let mut i: usize = 0;
    while i < v.len()
        invariant
            i <= v.len(),
            v@ == s@,
            out@ == escape_text_spec(s@.take(i as int)),
        decreases v.len() - i,
    {
        let c = v[i];
        proof {
            lemma_escape_text_push(s@.take(i as int), c);
            assert(s@.take(i as int).push(c) =~= s@.take(i + 1));
            reveal_strlit("&amp;");
            reveal_strlit("&lt;");
            reveal_strlit("&gt;");
        }
        if c == '&' {
            push_str(&mut out, "&amp;");
        } else if c == '<' {
            push_str(&mut out, "&lt;");
        } else if c == '>' {
            push_str(&mut out, "&gt;");
        } else {
            push_char(&mut out, c);
        }
        assert(out@ =~= escape_text_spec(s@.take(i + 1)));
        i += 1;
    }
    assert(s@.take(i as int) =~= s@);
    out
}

/// Escape a string for use as an XML attribute value quoted with `"`
/// (`&`, `<`, `>`, `"`).
pub fn escape_attr(s: &str) -> (r: String)
    ensures
        r@ == escape_attr_spec(s@),
{
    let v = str_chars(s);
    let mut out = String::new();
    let mut i: usize = 0;
    while i < v.len()
        invariant
            i <= v.len(),
            v@ == s@,
            out@ == escape_attr_spec(s@.take(i as int)),
        decreases v.len() - i,
    {
        let c = v[i];
        proof {
            lemma_escape_attr_push(s@.take(i as int), c);
            assert(s@.take(i as int).push(c) =~= s@.take(i + 1));
            reveal_strlit("&amp;");
            reveal_strlit("&lt;");
            reveal_strlit("&gt;");
            reveal_strlit("&quot;");
        }
        if c == '&' {
            push_str(&mut out, "&amp;");
        } else if c == '<' {
            push_str(&mut out, "&lt;");
        } else if c == '>' {
            push_str(&mut out, "&gt;");
        } else if c == '"' {
            push_str(&mut out, "&quot;");
        } else {
            push_char(&mut out, c);
        }
        assert(out@ =~= escape_attr_spec(s@.take(i + 1)));
        i += 1;
    }
    assert(s@.take(i as int) =~= s@);
    out
}

/// Decoding an escaped character followed by anything gives the
/// character followed by the decoding of the rest.
pub(crate) proof fn lemma_decode_escaped_char(e: Seq<char>, c: char, rest: Seq<char>)
    requires
        e == esc_attr_char(c) || e == esc_text_char(c),
    ensures
        decode_spec(e + rest) == seq![c] + decode_spec(rest),
{
    let t = e + rest;
    reveal_with_fuel(entity_scan, 6);
    if c == '&' || c == '<' || c == '>' || (c == '"' && e == esc_attr_char(c)) {
        assert(t[0] == '&');
        let r = entity_scan(t, 1, 0);
        assert(t.subrange(r.1, t.len() as int) =~= rest);
        let ent = t.subrange(1, r.0);
        if c == '&' {
            assert(ent =~= seq!['a', 'm', 'p']);
        } else if c == '<' {
            assert(ent =~= seq!['l', 't']);
        } else if c == '>' {
            assert(ent =~= seq!['g', 't']);
        } else {
            assert(ent =~= seq!['q', 'u', 'o', 't']);
        }
        assert(entity_value(ent) =~= seq![c]);
    } else {
        assert(e =~= seq![c]);
        assert(t.drop_first() =~= rest);
    }
}

/// Decoding undoes attribute escaping.
pub proof fn lemma_decode_escape_attr(s: Seq<char>)
    ensures
        decode_spec(escape_attr_spec(s)) == s,
    decreases s.len(),
{
    if s.len() > 0 {
        lemma_decode_escape_attr(s.drop_first());
        lemma_decode_escaped_char(esc_attr_char(s[0]), s[0], escape_attr_spec(s.drop_first()));
        assert(seq![s[0]] + s.drop_first() =~= s);
    }
}

/// Escaping is minimal: text without `&`, `<` and `>` is written as is.
pub proof fn lemma_escape_text_plain(s: Seq<char>)
    requires
        forall|i: int| 0 <= i < s.len() ==> #[trigger] s[i] != '&' && s[i] != '<' && s[i] != '>',
    ensures
        escape_text_spec(s) == s,
    decreases s.len(),
{
    if s.len() > 0 {
        assert forall|i: int| 0 <= i < s.drop_first().len() implies #[trigger] s.drop_first()[i] != '&'
            && s.drop_first()[i] != '<' && s.drop_first()[i] != '>' by {
            assert(s.drop_first()[i] == s[i + 1]);
        }
        lemma_escape_text_plain(s.drop_first());
        assert(seq![s[0]] + s.drop_first() =~= s);
    }
}

/// Attribute escaping is minimal: a value without `&`, `<`, `>` and `"`
/// is written as is.
pub proof fn lemma_escape_attr_plain(s: Seq<char>)
    requires
        forall|i: int|
            0 <= i < s.len() ==> #[trigger] s[i] != '&' && s[i] != '<' && s[i] != '>' && s[i] != '"',
    ensures
        escape_attr_spec(s) == s,
    decreases s.len(),
{
    if s.len() > 0 {
        assert forall|i: int| 0 <= i < s.drop_first().len() implies #[trigger] s.drop_first()[i] != '&'
            && s.drop_first()[i] != '<' && s.drop_first()[i] != '>' && s.drop_first()[i] != '"' by {
            assert(s.drop_first()[i] == s[i + 1]);
        }
        lemma_escape_attr_plain(s.drop_first());
        assert(seq![s[0]] + s.drop_first() =~= s);
    }
}

/// Decoding leaves text without `&` unchanged.
pub proof fn lemma_decode_plain(s: Seq<char>)
    requires
        forall|i: int| 0 <= i < s.len() ==> #[trigger] s[i] != '&',
    ensures
        decode_spec(s) == s,
    decreases s.len(),
{
    if s.len() > 0 {
        assert forall|i: int| 0 <= i < s.drop_first().len() implies #[trigger] s.drop_first()[i] != '&' by {
            assert(s.drop_first()[i] == s[i + 1]);
        }
        lemma_decode_plain(s.drop_first());
        assert(seq![s[0]] + s.drop_first() =~= s);
    }
}

/// Decoding undoes text escaping.
pub proof fn lemma_decode_escape_text(s: Seq<char>)
    ensures
        decode_spec(escape_text_spec(s)) == s,
    decreases s.len(),
{
    if s.len() > 0 {
        lemma_decode_escape_text(s.drop_first());
        lemma_decode_escaped_char(esc_text_char(s[0]), s[0], escape_text_spec(s.drop_first()));
        assert(seq![s[0]] + s.drop_first() =~= s);
    }
}

} // verus!

verus! {

// ---------------------------------------------------------------------
// Qualified names and lookups
// ---------------------------------------------------------------------

/// Index of the last `c` in `s`, or `-1`.
pub open spec fn last_index_of(s: Seq<char>, c: char) -> int
    decreases s.len(),
{
    if s.len() == 0 {
        -1
    } else if s.last() == c {
        s.len() - 1
    } else {
        last_index_of(s.drop_last(), c)
    }
}

pub proof fn lemma_last_index_of(s: Seq<char>, c: char)
    ensures
        -1 <= last_index_of(s, c) < s.len(),
        last_index_of(s, c) >= 0 ==> s[last_index_of(s, c)] == c,
        forall|k: int| last_index_of(s, c) < k < s.len() ==> #[trigger] s[k] != c,
    decreases s.len(),
{
    if s.len() > 0 && s.last() != c {
        lemma_last_index_of(s.drop_last(), c);
        assert forall|k: int| last_index_of(s, c) < k < s.len() implies #[trigger] s[k] != c by {
            if k < s.len() - 1 {
                assert(s[k] == s.drop_last()[k]);
            }
        }
    }
}

/// The local part of a `prefix:local` qualified name (everything after
/// the last `:`), or the whole name.
pub open spec fn local_part(s: Seq<char>) -> Seq<char> {
    let k: int = last_index_of(s, ':');
    if k >= 0 {
        s.subrange(k + 1, s.len() as int)
    } else {
        s
    }
}

/// The local part of a name is the name's tail after its prefix: it
/// holds no `:`, and the name is some prefix followed by it, that prefix
/// empty or ending in `:`.
pub proof fn lemma_local_part(s: Seq<char>)
    ensures
        local_part(s).len() <= s.len(),
        s.subrange(s.len() - local_part(s).len(), s.len() as int) == local_part(s),
        forall|k: int| 0 <= k < local_part(s).len() ==> #[trigger] local_part(s)[k] != ':',
        local_part(s).len() < s.len() ==> s[s.len() - local_part(s).len() - 1] == ':',
{
    lemma_last_index_of(s, ':');
    let k = last_index_of(s, ':');
    let l = local_part(s);
    if k >= 0 {
        assert forall|j: int| 0 <= j < l.len() implies #[trigger] l[j] != ':' by {
            assert(l[j] == s[k + 1 + j]);
        }
        assert(s.subrange(s.len() - l.len(), s.len() as int) =~= l);
    } else {
        assert forall|j: int| 0 <= j < l.len() implies #[trigger] l[j] != ':' by {
            assert(l[j] == s[j]);
        }
        assert(s.subrange(0, s.len() as int) =~= s);
    }
}

/// The local part of a qualified name, ASCII-lower-cased.
pub open spec fn tag_local_spec(s: Seq<char>) -> Seq<char> {
    lower_seq(local_part(s))
}

/// Return the local part of a `prefix:local` qualified name, lower-cased.
pub fn tag_local(name: &str) -> (r: String)
    ensures
        r@ == tag_local_spec(name@),
{
    let v = str_chars(name);
    let mut k: usize = v.len();
    assert(name@.take(v.len() as int) =~= name@);
    while k > 0 && v[k - 1] != ':'
        invariant
            k <= v.len(),
            v@ == name@,
            last_index_of(name@, ':') == last_index_of(name@.take(k as int), ':'),
        decreases k,
    {
        assert(name@.take(k as int).drop_last() =~= name@.take(k - 1));
        k -= 1;
    }
    let start: usize = if k > 0 {
        assert(name@.take(k as int).last() == ':');
        k
    } else {
        0
    };
    assert(name@.take(v.len() as int) =~= name@);
    let local = string_from_chars(&v, start, v.len());
    assert(local@ =~= local_part(name@));
    str_lower(local.as_str())
}

/// Index of the first attribute whose local name matches `name`
/// case-insensitively, or `-1`.
pub open spec fn attr_index_from(
    attrs: Seq<(Seq<char>, Seq<char>)>,
    name: Seq<char>,
    i: int,
) -> int
    decreases attrs.len() - i,
{
    if i >= attrs.len() {
        -1
    } else if eq_ignore_case(tag_local_spec(attrs[i].0), name) {
        i
    } else {
        attr_index_from(attrs, name, i + 1)
    }
}

pub open spec fn attr_index(attrs: Seq<(Seq<char>, Seq<char>)>, name: Seq<char>) -> int {
    attr_index_from(attrs, name, 0)
}

/// The value of the first attribute of `el` whose local name equals
/// `name` (ASCII case-insensitively).
pub open spec fn attr_spec(el: SElement, name: Seq<char>) -> Option<Seq<char>> {
    let k: int = attr_index(el.attrs, name);
    if k >= 0 {
        Some(el.attrs[k].1)
    } else {
        None
    }
}

pub proof fn lemma_attr_index_from(attrs: Seq<(Seq<char>, Seq<char>)>, name: Seq<char>, i: int)
    requires
        0 <= i,
    ensures
        attr_index_from(attrs, name, i) == -1 || i <= attr_index_from(attrs, name, i)
            < attrs.len(),
    decreases attrs.len() - i,
{
    if i < attrs.len() && !eq_ignore_case(tag_local_spec(attrs[i].0), name) {
        lemma_attr_index_from(attrs, name, i + 1);
    }
}

/// Look up an attribute by local name (case-insensitive).
pub fn attr<'a>(el: &'a Element, name: &str) -> (r: Option<&'a str>)
    ensures
        match attr_spec(el.model(), name@) {
            Some(v) => r.is_some() && r.unwrap()@ == v,
            None => r.is_none(),
        },
{
    let ghost am = attrs_model(el.attrs@);
    let mut i: usize = 0;
    while i < el.attrs.len()
        invariant
            i <= el.attrs.len(),
            am == attrs_model(el.attrs@),
            am.len() == el.attrs@.len(),
            attr_index(am, name@) == attr_index_from(am, name@, i as int),
        decreases el.attrs.len() - i,
    {
        let local = tag_local(el.attrs[i].0.as_str());
        assert(am[i as int].0 == el.attrs@[i as int].0@);
        if str_eq_ignore_case(local.as_str(), name) {
            assert(am[i as int].1 == el.attrs@[i as int].1@);
            return Some(el.attrs[i].1.as_str());
        }
        i += 1;
    }
    None
}

/// Whether a node is an element whose local name matches `name`.
pub open spec fn is_named_element(n: Node, name: Seq<char>) -> bool {
    match n {
        Node::Element(e) => eq_ignore_case(tag_local_spec(e.name@), name),
        Node::Text(_) => false,
    }
}

/// Index of the first node of `nodes[i..]` that is an element named
/// `name`, or `-1`.
pub open spec fn element_index_from(nodes: Seq<Node>, name: Seq<char>, i: int) -> int
    decreases nodes.len() - i,
{
    if i >= nodes.len() {
        -1
    } else if is_named_element(nodes[i], name) {
        i
    } else {
        element_index_from(nodes, name, i + 1)
    }
}

/// Attribute lookup finds the first attribute whose local name matches
/// (ASCII case-insensitively): the attribute it finds matches, and none
/// before it does; when it finds none, none matches.
pub proof fn lemma_attr_first_match(attrs: Seq<(Seq<char>, Seq<char>)>, name: Seq<char>, i: int)
    requires
        0 <= i,
    ensures
        ({
            let k = attr_index_from(attrs, name, i);
            &&& k >= 0 ==> i <= k < attrs.len() && eq_ignore_case(tag_local_spec(attrs[k].0), name)
            &&& forall|j: int|
                i <= j < attrs.len() && (k < 0 || j < k) ==> !eq_ignore_case(
                    tag_local_spec(#[trigger] attrs[j].0),
                    name,
                )
        }),
    decreases attrs.len() - i,
{
    if i < attrs.len() && !eq_ignore_case(tag_local_spec(attrs[i].0), name) {
        lemma_attr_first_match(attrs, name, i + 1);
    }
}

/// `find_element` finds the first element of that local name: the node
/// it finds is such an element, and no node before it is.
pub proof fn lemma_element_first_match(nodes: Seq<Node>, name: Seq<char>, i: int)
    requires
        0 <= i,
    ensures
        ({
            let k = element_index_from(nodes, name, i);
            &&& k >= 0 ==> i <= k < nodes.len() && is_named_element(nodes[k], name)
            &&& forall|j: int|
                i <= j < nodes.len() && (k < 0 || j < k) ==> !is_named_element(#[trigger] nodes[j], name)
        }),
    decreases nodes.len() - i,
{
    if i < nodes.len() && !is_named_element(nodes[i], name) {
        lemma_element_first_match(nodes, name, i + 1);
    }
}

/// Find the first element among `nodes` (no descent) whose local name
/// equals `name` case-insensitively.
pub fn find_element<'a>(nodes: &'a [Node], name: &str) -> (r: Option<&'a Element>)
    ensures
        ({
            let k = element_index_from(nodes@, name@, 0);
            match r {
                Some(e) => k >= 0 && k < nodes@.len() && nodes@[k] == Node::Element(*e),
                None => k == -1,
            }
        }),
{
    let mut i: usize = 0;
    while i < nodes.len()
        invariant
            i <= nodes.len(),
            element_index_from(nodes@, name@, 0) == element_index_from(nodes@, name@, i as int),
        decreases nodes.len() - i,
    {
        if let Node::Element(e) = &nodes[i] {
            let local = tag_local(e.name.as_str());
            if str_eq_ignore_case(local.as_str(), name) {
                return Some(e);
            }
        }
        i += 1;
    }
    None
}

// ---------------------------------------------------------------------
// Byte-level framing
// ---------------------------------------------------------------------

/// The bytes start with the RFC 1952 gzip magic `1f 8b`.
pub open spec fn has_gzip_magic(b: Seq<u8>) -> bool {
    b.len() >= 2 && b[0] == 0x1f && b[1] == 0x8b
}

/// `true` when `bytes` starts with the RFC 1952 gzip magic (`1f 8b`),
/// indicating an `.svgz` (gzip-compressed SVG) payload.
pub fn is_gzip(bytes: &[u8]) -> (r: bool)
    ensures
        r == has_gzip_magic(bytes@),
{
    bytes.len() >= 2 && bytes[0] == 0x1f && bytes[1] == 0x8b
}

} // verus!

verus! {

// ---------------------------------------------------------------------
// The reader: grammar as spec functions
// ---------------------------------------------------------------------

/// Errors the XML reader reports.
#[derive(Debug, Clone, Copy, PartialEq, Eq, Structural)]
pub enum XmlError {
    /// `<` followed directly by whitespace, `>` or `/`.
    EmptyTagName,
    /// `/` inside a tag not followed by `>`.
    MalformedSelfClosingTag,
    /// `name=` at the end of the input.
    AttributeMissingValue,
    /// The input ends inside a start tag.
    TruncatedElement,
    /// `</...` without a closing `>`.
    TruncatedCloseTag,
    /// An element nested deeper than [`MAX_XML_DEPTH`].
    TooDeep,
}

/// How many elements may be open at once: an element inside this many
/// open elements is refused.
pub const MAX_XML_DEPTH: usize = 128;

pub open spec fn lit_pi_open() -> Seq<char> {
    seq!['<', '?']
}

pub open spec fn lit_pi_close() -> Seq<char> {
    seq!['?', '>']
}

pub open spec fn lit_comment_open() -> Seq<char> {
    seq!['<', '!', '-', '-']
}

pub open spec fn lit_comment_close() -> Seq<char> {
    seq!['-', '-', '>']
}

pub open spec fn lit_bang() -> Seq<char> {
    seq!['<', '!']
}

pub open spec fn lit_gt() -> Seq<char> {
    seq!['>']
}

pub open spec fn lit_cdata_open() -> Seq<char> {
    seq!['<', '!', '[', 'C', 'D', 'A', 'T', 'A', '[']
}

pub open spec fn lit_cdata_close() -> Seq<char> {
    seq![']', ']', '>']
}

pub open spec fn lit_end_tag() -> Seq<char> {
    seq!['<', '/']
}

/// `s[p..]` starts with `lit`.
pub open spec fn starts_at(s: Seq<char>, p: int, lit: Seq<char>) -> bool {
    0 <= p && p + lit.len() <= s.len() && s.subrange(p, p + lit.len()) == lit
}

/// First index `>= q` where `needle` occurs, or `-1`.
pub open spec fn find_from(s: Seq<char>, q: int, needle: Seq<char>) -> int
    decreases s.len() - q,
{
    if q < 0 || needle.len() == 0 || q + needle.len() > s.len() {
        -1
    } else if starts_at(s, q, needle) {
        q
    } else {
        find_from(s, q + 1, needle)
    }
}

/// Position just past the first `needle` at or after `p`, or the end of
/// the input when there is none.
pub open spec fn skip_past(s: Seq<char>, p: int, needle: Seq<char>) -> int {
    let f: int = find_from(s, p, needle);
    if f >= 0 {
        f + needle.len()
    } else {
        s.len() as int
    }
}

/// First index `>= p` that is not XML whitespace.
pub open spec fn skip_ws(s: Seq<char>, p: int) -> int
    decreases s.len() - p,
{
    if 0 <= p < s.len() && is_xml_ws(s[p]) {
        skip_ws(s, p + 1)
    } else {
        p
    }
}

/// First index `>= p` whose character satisfies `stop`, or the end.
pub open spec fn scan(s: Seq<char>, p: int, stop: spec_fn(char) -> bool) -> int
    decreases s.len() - p,
{
    if 0 <= p < s.len() && !stop(s[p]) {
        scan(s, p + 1, stop)
    } else {
        p
    }
}

pub open spec fn stop_lt(c: char) -> bool {
    c == '<'
}

pub open spec fn stop_name(c: char) -> bool {
    is_xml_ws(c) || c == '>' || c == '/'
}

pub open spec fn stop_attr_name(c: char) -> bool {
    is_xml_ws(c) || c == '=' || c == '>' || c == '/'
}

pub open spec fn stop_quote(q: char) -> spec_fn(char) -> bool {
    |c: char| c == q
}

pub open spec fn stop_lt_fn() -> spec_fn(char) -> bool {
    |c: char| stop_lt(c)
}

pub open spec fn stop_name_fn() -> spec_fn(char) -> bool {
    |c: char| stop_name(c)
}

pub open spec fn stop_attr_name_fn() -> spec_fn(char) -> bool {
    |c: char| stop_attr_name(c)
}

pub proof fn lemma_find_from(s: Seq<char>, q: int, needle: Seq<char>)
    requires
        0 <= q,
        needle.len() > 0,
    ensures
        find_from(s, q, needle) == -1 || (q <= find_from(s, q, needle) && starts_at(
            s,
            find_from(s, q, needle),
            needle,
        )),
        forall|k: int|
            q <= k && (find_from(s, q, needle) == -1 || k < find_from(s, q, needle)) ==> !#[trigger] starts_at(s, k, needle),
    decreases s.len() - q,
{
    if q + needle.len() <= s.len() && !starts_at(s, q, needle) {
        lemma_find_from(s, q + 1, needle);
    }
}

pub proof fn lemma_skip_past(s: Seq<char>, p: int, needle: Seq<char>)
    requires
        0 <= p < s.len(),
        needle.len() > 0,
    ensures
        p < skip_past(s, p, needle) <= s.len(),
{
    lemma_find_from(s, p, needle);
}

pub proof fn lemma_skip_ws(s: Seq<char>, p: int)
    requires
        0 <= p <= s.len(),
    ensures
        p <= skip_ws(s, p) <= s.len(),
        skip_ws(s, p) < s.len() ==> !is_xml_ws(s[skip_ws(s, p)]),
        skip_ws(s, skip_ws(s, p)) == skip_ws(s, p),
    decreases s.len() - p,
{
    if p < s.len() && is_xml_ws(s[p]) {
        lemma_skip_ws(s, p + 1);
    }
}

pub proof fn lemma_scan(s: Seq<char>, p: int, stop: spec_fn(char) -> bool)
    requires
        0 <= p <= s.len(),
    ensures
        p <= scan(s, p, stop) <= s.len(),
        scan(s, p, stop) < s.len() ==> stop(s[scan(s, p, stop)]),
        forall|k: int| p <= k < scan(s, p, stop) ==> !stop(#[trigger] s[k]),
    decreases s.len() - p,
{
    if p < s.len() && !stop(s[p]) {
        lemma_scan(s, p + 1, stop);
    }
}

/// Eat XML declarations, processing instructions, comments, `<!DOCTYPE`
/// and other `<!` declarations, and whitespace, starting at `p` (already
/// past whitespace).
pub open spec fn prolog_from(s: Seq<char>, p: int) -> int
    decreases s.len() - p,
{
    if 0 <= p < s.len() && (starts_at(s, p, lit_pi_open()) || starts_at(s, p, lit_bang())) {
        let q: int = if starts_at(s, p, lit_pi_open()) {
            skip_past(s, p, lit_pi_close())
        } else if starts_at(s, p, lit_comment_open()) {
            skip_past(s, p, lit_comment_close())
        } else {
            skip_past(s, p, lit_gt())
        };
        proof {
            lemma_skip_past(s, p, lit_pi_close());
            lemma_skip_past(s, p, lit_comment_close());
            lemma_skip_past(s, p, lit_gt());
            lemma_skip_ws(s, q);
        }
        prolog_from(s, skip_ws(s, q))
    } else {
        p
    }
}

/// Where the document body starts.
pub open spec fn skip_prolog(s: Seq<char>) -> int {
    prolog_from(s, skip_ws(s, 0))
}

/// Read one node at `p`: a text run, a CDATA section, or an element
/// (skipping comments and stray processing instructions on the way).
/// `None` means an end tag or the end of the input was reached. `d` is
/// the number of elements open around `p`.
pub open spec fn parse_node_spec(s: Seq<char>, p: int, d: nat) -> Result<(Option<SNode>, int), XmlError>
    decreases s.len() - p, 1int,
{
    if p < 0 || p > s.len() {
        Ok((None, p))
    } else {
        let t: int = scan(s, p, stop_lt_fn());
        if t > p {
            Ok((Some(SNode::Text(decode_spec(s.subrange(p, t)))), t))
        } else if p >= s.len() {
            Ok((None, p))
        } else if starts_at(s, p, lit_comment_open()) {
            let q: int = skip_past(s, p, lit_comment_close());
            proof {
                lemma_skip_past(s, p, lit_comment_close());
            }
            parse_node_spec(s, q, d)
        } else if starts_at(s, p, lit_cdata_open()) {
            let ds: int = p + 9;
            let f: int = find_from(s, ds, lit_cdata_close());
            if f >= 0 {
                Ok((Some(SNode::Text(s.subrange(ds, f))), f + 3))
            } else {
                Ok((Some(SNode::Text(s.subrange(ds, s.len() as int))), s.len() as int))
            }
        } else if starts_at(s, p, lit_pi_open()) {
            let q: int = skip_past(s, p, lit_pi_close());
            proof {
                lemma_skip_past(s, p, lit_pi_close());
            }
            parse_node_spec(s, q, d)
        } else if starts_at(s, p, lit_end_tag()) {
            Ok((None, p))
        } else {
            match parse_element_spec(s, p, d) {
                Ok((e, q)) => Ok((Some(SNode::Element(e)), q)),
                Err(x) => Err(x),
            }
        }
    }
}

/// Read an element whose `<` is at `p`, inside `d` open elements; it is
/// refused when that is already [`MAX_XML_DEPTH`].
pub open spec fn parse_element_spec(s: Seq<char>, p: int, d: nat) -> Result<(SElement, int), XmlError>
    decreases s.len() - p, 0int,
{
    if p < 0 || p >= s.len() {
        Err(XmlError::TruncatedElement)
    } else if d >= MAX_XML_DEPTH {
        Err(XmlError::TooDeep)
    } else {
        let ne: int = scan(s, p + 1, stop_name_fn());
        proof {
            lemma_scan(s, p + 1, stop_name_fn());
        }
        let name: Seq<char> = s.subrange(p + 1, ne);
        if name.len() == 0 {
            Err(XmlError::EmptyTagName)
        } else {
            attrs_spec(s, ne, name, Seq::empty(), d)
        }
    }
}

/// Read attributes from `p` up to the end of the start tag, then the
/// children when the tag is not self-closing.
pub open spec fn attrs_spec(
    s: Seq<char>,
    p: int,
    name: Seq<char>,
    attrs: Seq<(Seq<char>, Seq<char>)>,
    d: nat,
) -> Result<(SElement, int), XmlError>
    decreases s.len() - p, 0int,
{
    if p < 0 || p > s.len() {
        Err(XmlError::TruncatedElement)
    } else {
        let q: int = skip_ws(s, p);
        proof {
            lemma_skip_ws(s, p);
        }
        if q >= s.len() {
            Err(XmlError::TruncatedElement)
        } else if s[q] == '>' {
            match children_spec(s, q + 1, Seq::empty(), d + 1) {
                Ok((ch, r)) => Ok((SElement { name, attrs, children: ch }, r)),
                Err(x) => Err(x),
            }
        } else if s[q] == '/' {
            let r: int = skip_ws(s, q + 1);
            if r < s.len() && s[r] == '>' {
                Ok((SElement { name, attrs, children: Seq::empty() }, r + 1))
            } else {
                Err(XmlError::MalformedSelfClosingTag)
            }
        } else {
            let ae: int = scan(s, q, stop_attr_name_fn());
            proof {
                lemma_scan(s, q, stop_attr_name_fn());
                lemma_skip_ws(s, ae);
            }
            let an: Seq<char> = s.subrange(q, ae);
            let r: int = skip_ws(s, ae);
            if r >= s.len() || s[r] != '=' {
                let attrs2 = if an.len() > 0 {
                    attrs.push((an, Seq::<char>::empty()))
                } else {
                    attrs
                };
                if r > p {
                    attrs_spec(s, r, name, attrs2, d)
                } else {
                    Err(XmlError::TruncatedElement)
                }
            } else {
                let vq: int = skip_ws(s, r + 1);
                proof {
                    lemma_skip_ws(s, r + 1);
                }
                if vq >= s.len() {
                    Err(XmlError::AttributeMissingValue)
                } else {
                    let quote: char = s[vq];
                    if quote == '"' || quote == '\'' {
                        let ve: int = scan(s, vq + 1, stop_quote(quote));
                        proof {
                            lemma_scan(s, vq + 1, stop_quote(quote));
                        }
                        let nx: int = if ve < s.len() {
                            ve + 1
                        } else {
                            ve
                        };
                        attrs_spec(s, nx, name, attrs.push((an, decode_spec(s.subrange(vq + 1, ve)))), d)
                    } else {
                        let ve: int = scan(s, vq, stop_name_fn());
                        proof {
                            lemma_scan(s, vq, stop_name_fn());
                        }
                        attrs_spec(s, ve, name, attrs.push((an, decode_spec(s.subrange(vq, ve)))), d)
                    }
                }
            }
        }
    }
}

/// Read children from `p` until an end tag (consumed; its name is not
/// checked), an end of the input, or a node reader that stops; `d`
/// elements are open around them.
pub open spec fn children_spec(s: Seq<char>, p: int, acc: Seq<SNode>, d: nat) -> Result<
    (Seq<SNode>, int),
    XmlError,
>
    decreases s.len() - p, 2int,
{
    if p < 0 || p >= s.len() {
        Ok((acc, p))
    } else if starts_at(s, p, lit_end_tag()) {
        let f: int = find_from(s, p, lit_gt());
        if f < 0 {
            Err(XmlError::TruncatedCloseTag)
        } else {
            Ok((acc, f + 1))
        }
    } else {
        match parse_node_spec(s, p, d) {
            Err(x) => Err(x),
            Ok((None, q)) => Ok((acc, q)),
            Ok((Some(n), q)) => if p < q <= s.len() {
                children_spec(s, q, acc.push(n), d)
            } else {
                Ok((acc.push(n), q))
            },
        }
    }
}

/// Top-level nodes from `p` on.
pub open spec fn nodes_from(s: Seq<char>, p: int, acc: Seq<SNode>) -> Result<Seq<SNode>, XmlError>
    decreases s.len() - p,
{
    if p < 0 || p >= s.len() {
        Ok(acc)
    } else {
        match parse_node_spec(s, p, 0) {
            Err(x) => Err(x),
            Ok((None, _)) => Ok(acc),
            Ok((Some(n), q)) => if p < q <= s.len() {
                nodes_from(s, q, acc.push(n))
            } else {
                Ok(acc.push(n))
            },
        }
    }
}

/// The document reader: skip the prolog, then read top-level nodes
/// until the input ends or a stray end tag is met.
pub open spec fn parse_xml_spec(s: Seq<char>) -> Result<Seq<SNode>, XmlError> {
    nodes_from(s, skip_prolog(s), Seq::empty())
}

} // verus!

verus! {

// ---------------------------------------------------------------------
// The reader: executable code
// ---------------------------------------------------------------------

proof fn lemma_literals()
    ensures
        "<?"@ == lit_pi_open(),
        "?>"@ == lit_pi_close(),
        "<!--"@ == lit_comment_open(),
        "-->"@ == lit_comment_close(),
        "<!"@ == lit_bang(),
        ">"@ == lit_gt(),
        "<![CDATA["@ == lit_cdata_open(),
        "]]>"@ == lit_cdata_close(),
        "</"@ == lit_end_tag(),
{
    reveal_strlit("<?");
    reveal_strlit("?>");
    reveal_strlit("<!--");
    reveal_strlit("-->");
    reveal_strlit("<!");
    reveal_strlit(">");
    reveal_strlit("<![CDATA[");
    reveal_strlit("]]>");
    reveal_strlit("</");
    assert("<?"@ =~= lit_pi_open());
    assert("?>"@ =~= lit_pi_close());
    assert("<!--"@ =~= lit_comment_open());
    assert("-->"@ =~= lit_comment_close());
    assert("<!"@ =~= lit_bang());
    assert(">"@ =~= lit_gt());
    assert("<![CDATA["@ =~= lit_cdata_open());
    assert("]]>"@ =~= lit_cdata_close());
    assert("</"@ =~= lit_end_tag());
}

/// Model of a node-reader result.
pub open spec fn node_res_model(r: Result<(Option<Node>, usize), XmlError>) -> Result<
    (Option<SNode>, int),
    XmlError,
> {
    match r {
        Ok((n, q)) => Ok(
            (
                match n {
                    Some(x) => Some(x.model()),
                    None => None,
                },
                q as int,
            ),
        ),
        Err(e) => Err(e),
    }
}

/// Model of an element-reader result.
pub open spec fn elem_res_model(r: Result<(Element, usize), XmlError>) -> Result<
    (SElement, int),
    XmlError,
> {
    match r {
        Ok((e, q)) => Ok((e.model(), q as int)),
        Err(x) => Err(x),
    }
}

/// Model of a children-reader result.
pub open spec fn children_res_model(r: Result<(Vec<Node>, usize), XmlError>) -> Result<
    (Seq<SNode>, int),
    XmlError,
> {
    match r {
        Ok((v, q)) => Ok((nodes_model(v@), q as int)),
        Err(x) => Err(x),
    }
}

/// Model of a document-reader result.
pub open spec fn doc_res_model(r: Result<Vec<Node>, XmlError>) -> Result<Seq<SNode>, XmlError> {
    match r {
        Ok(v) => Ok(nodes_model(v@)),
        Err(x) => Err(x),
    }
}

fn starts_at_x(s: &Vec<char>, p: usize, lit: &str) -> (b: bool)
    requires
        p <= s.len(),
    ensures
        b == starts_at(s@, p as int, lit@),
{
    let l = str_chars(lit);
    if l.len() > s.len() - p {
        return false;
    }
    let mut k: usize = 0;
    while k < l.len()
        invariant
            k <= l.len(),
            p + l.len() <= s.len(),
            l@ == lit@,
            forall|m: int| 0 <= m < k ==> s@[p + m] == lit@[m],
        decreases l.len() - k,
    {
        if s[p + k] != l[k] {
            assert(s@.subrange(p as int, p + l.len())[k as int] != lit@[k as int]);
            return false;
        }
        k += 1;
    }
    assert(s@.subrange(p as int, p + l.len()) =~= lit@);
    true
}

fn find_x(s: &Vec<char>, q: usize, lit: &str) -> (r: Option<usize>)
    requires
        q <= s.len(),
        lit@.len() > 0,
    ensures
        match r {
            Some(f) => f as int == find_from(s@, q as int, lit@) && q <= f && f + lit@.len()
                <= s.len(),
            None => find_from(s@, q as int, lit@) == -1,
        },
{
    let n: usize = str_chars(lit).len();
    let mut k: usize = q;
    proof {
        lemma_find_from(s@, q as int, lit@);
    }
    while k <= s.len() && n <= s.len() - k
        invariant
            q <= k,
            k <= s.len() + 1,
            n == lit@.len(),
            n > 0,
            find_from(s@, q as int, lit@) == find_from(s@, k as int, lit@),
            find_from(s@, q as int, lit@) == -1 || q <= find_from(s@, q as int, lit@),
        decreases s.len() + 1 - k,
    {
        if starts_at_x(s, k, lit) {
            return Some(k);
        }
        k += 1;
    }
    None
}

fn skip_ws_x(s: &Vec<char>, p: usize) -> (r: usize)
    requires
        p <= s.len(),
    ensures
        r as int == skip_ws(s@, p as int),
        p <= r <= s.len(),
{
    let mut k: usize = p;
    while k < s.len() && (s[k] == ' ' || s[k] == '\t' || s[k] == '\n' || s[k] == '\r')
        invariant
            p <= k <= s.len(),
            skip_ws(s@, p as int) == skip_ws(s@, k as int),
        decreases s.len() - k,
    {
        k += 1;
    }
    k
}

fn is_name_stop(c: char) -> (b: bool)
    ensures
        b == stop_name(c),
{
    c == ' ' || c == '\t' || c == '\n' || c == '\r' || c == '>' || c == '/'
}

fn scan_lt_x(s: &Vec<char>, p: usize) -> (r: usize)
    requires
        p <= s.len(),
    ensures
        r as int == scan(s@, p as int, stop_lt_fn()),
        p <= r <= s.len(),
{
    let mut k: usize = p;
    while k < s.len() && s[k] != '<'
        invariant
            p <= k <= s.len(),
            scan(s@, p as int, stop_lt_fn()) == scan(s@, k as int, stop_lt_fn()),
        decreases s.len() - k,
    {
        k += 1;
    }
    k
}

fn scan_name_x(s: &Vec<char>, p: usize) -> (r: usize)
    requires
        p <= s.len(),
    ensures
        r as int == scan(s@, p as int, stop_name_fn()),
        p <= r <= s.len(),
{
    let mut k: usize = p;
    while k < s.len() && !is_name_stop(s[k])
        invariant
            p <= k <= s.len(),
            scan(s@, p as int, stop_name_fn()) == scan(s@, k as int, stop_name_fn()),
        decreases s.len() - k,
    {
        k += 1;
    }
    k
}

fn scan_attr_name_x(s: &Vec<char>, p: usize) -> (r: usize)
    requires
        p <= s.len(),
    ensures
        r as int == scan(s@, p as int, stop_attr_name_fn()),
        p <= r <= s.len(),
{
    let mut k: usize = p;
    while k < s.len() && !is_name_stop(s[k]) && s[k] != '='
        invariant
            p <= k <= s.len(),
            scan(s@, p as int, stop_attr_name_fn()) == scan(s@, k as int, stop_attr_name_fn()),
        decreases s.len() - k,
    {
        k += 1;
    }
    k
}

fn scan_quote_x(s: &Vec<char>, p: usize, quote: char) -> (r: usize)
    requires
        p <= s.len(),
    ensures
        r as int == scan(s@, p as int, stop_quote(quote)),
        p <= r <= s.len(),
{
    let mut k: usize = p;
    while k < s.len() && s[k] != quote
        invariant
            p <= k <= s.len(),
            scan(s@, p as int, stop_quote(quote)) == scan(s@, k as int, stop_quote(quote)),
        decreases s.len() - k,
    {
        k += 1;
    }
    k
}

/// Position just past the first `lit` at or after `p`, or the end.
fn skip_past_x(s: &Vec<char>, p: usize, lit: &str) -> (r: usize)
    requires
        p < s.len(),
        lit@.len() > 0,
    ensures
        r as int == skip_past(s@, p as int, lit@),
        p < r <= s.len(),
{
    proof {
        lemma_skip_past(s@, p as int, lit@);
    }
    match find_x(s, p, lit) {
        Some(f) => f + str_chars(lit).len(),
        None => s.len(),
    }
}

fn skip_prolog_x(s: &Vec<char>) -> (r: usize)
    ensures
        r as int == skip_prolog(s@),
        r <= s.len(),
{
    proof {
        lemma_literals();
    }
    let mut p: usize = skip_ws_x(s, 0);
    while p < s.len() && (starts_at_x(s, p, "<?") || starts_at_x(s, p, "<!"))
        invariant
            p <= s.len(),
            skip_prolog(s@) == prolog_from(s@, p as int),
            "<?"@ == lit_pi_open(),
            "?>"@ == lit_pi_close(),
            "<!--"@ == lit_comment_open(),
            "-->"@ == lit_comment_close(),
            "<!"@ == lit_bang(),
            ">"@ == lit_gt(),
        decreases s.len() - p,
    {
        let q: usize = if starts_at_x(s, p, "<?") {
            skip_past_x(s, p, "?>")
        } else if starts_at_x(s, p, "<!--") {
            skip_past_x(s, p, "-->")
        } else {
            skip_past_x(s, p, ">")
        };
        p = skip_ws_x(s, q);
    }
    p
}

fn parse_node_x(s: &Vec<char>, p: usize, d: usize) -> (r: Result<(Option<Node>, usize), XmlError>)
    requires
        p <= s.len(),
        d <= MAX_XML_DEPTH,
    ensures
        node_res_model(r) == parse_node_spec(s@, p as int, d as nat),
        r is Ok ==> p <= r->Ok_0.1 <= s.len(),
        (r is Ok && r->Ok_0.0 is Some) ==> p < r->Ok_0.1,
    decreases s.len() - p, 1int,
{
    proof {
        lemma_literals();
    }
    let t: usize = scan_lt_x(s, p);
    if t > p {
        let raw = string_from_chars(s, p, t);
        let text = decode_entities(raw.as_str());
        return Ok((Some(Node::Text(text)), t));
    }
    if p >= s.len() {
        return Ok((None, p));
    }
    if starts_at_x(s, p, "<!--") {
        let q: usize = skip_past_x(s, p, "-->");
        return parse_node_x(s, q, d);
    }
    if starts_at_x(s, p, "<![CDATA[") {
        let ds: usize = p + 9;
        match find_x(s, ds, "]]>") {
            Some(f) => {
                let raw = string_from_chars(s, ds, f);
                return Ok((Some(Node::Text(raw)), f + 3));
            },
            None => {
                let raw = string_from_chars(s, ds, s.len());
                return Ok((Some(Node::Text(raw)), s.len()));
            },
        }
    }
    if starts_at_x(s, p, "<?") {
        let q: usize = skip_past_x(s, p, "?>");
        return parse_node_x(s, q, d);
    }
    if starts_at_x(s, p, "</") {
        return Ok((None, p));
    }
    match parse_element_x(s, p, d) {
        Ok((e, q)) => Ok((Some(Node::Element(e)), q)),
        Err(x) => Err(x),
    }
}

fn parse_element_x(s: &Vec<char>, p: usize, d: usize) -> (r: Result<(Element, usize), XmlError>)
    requires
        p < s.len(),
        d <= MAX_XML_DEPTH,
    ensures
        elem_res_model(r) == parse_element_spec(s@, p as int, d as nat),
        r is Ok ==> p < r->Ok_0.1 <= s.len(),
    decreases s.len() - p, 0int,
{
    if d >= MAX_XML_DEPTH {
        return Err(XmlError::TooDeep);
    }
    let ne: usize = scan_name_x(s, p + 1);
    if ne == p + 1 {
        return Err(XmlError::EmptyTagName);
    }
    let name = string_from_chars(s, p + 1, ne);
    let mut attrs: Vec<(String, String)> = Vec::new();
    let mut cur: usize = ne;
    assert(attrs_model(attrs@) =~= Seq::<(Seq<char>, Seq<char>)>::empty());
    loop
        invariant
            p < cur <= s.len(),
            d < MAX_XML_DEPTH,
            name@ == s@.subrange(p + 1, ne as int),
            parse_element_spec(s@, p as int, d as nat) == attrs_spec(
                s@,
                cur as int,
                name@,
                attrs_model(attrs@),
                d as nat,
            ),
        decreases s.len() - cur,
    {
        let q: usize = skip_ws_x(s, cur);
        proof {
            lemma_skip_ws(s@, cur as int);
        }
        if q >= s.len() {
            return Err(XmlError::TruncatedElement);
        }
        if s[q] == '>' {
            match parse_children_x(s, q + 1, d + 1) {
                Ok((children, r)) => {
                    return Ok((Element { name, attrs, children }, r));
                },
                Err(x) => {
                    return Err(x);
                },
            }
        }
        if s[q] == '/' {
            let r: usize = skip_ws_x(s, q + 1);
            if r < s.len() && s[r] == '>' {
                return Ok((Element { name, attrs, children: Vec::new() }, r + 1));
            }
            return Err(XmlError::MalformedSelfClosingTag);
        }
        let ae: usize = scan_attr_name_x(s, q);
        let r: usize = skip_ws_x(s, ae);
        proof {
            lemma_scan(s@, q as int, stop_attr_name_fn());
            lemma_skip_ws(s@, ae as int);
        }
        if r >= s.len() || s[r] != '=' {
            if ae > q {
                let an = string_from_chars(s, q, ae);
                let ghost old_attrs = attrs@;
                attrs.push((an, String::new()));
                proof {
                    assert(attrs_model(attrs@) =~= attrs_model(old_attrs).push(
                        (s@.subrange(q as int, ae as int), Seq::<char>::empty()),
                    ));
                }
            } else {
                // `q` is past whitespace, and `>` / `/` were handled above,
                // so an empty name here means `s[q]` is `=`, i.e. `r == q`.
                assert(s@[q as int] == '=');
                assert(false);
            }
            cur = r;
        } else {
            let an = string_from_chars(s, q, ae);
            let vq: usize = skip_ws_x(s, r + 1);
            if vq >= s.len() {
                return Err(XmlError::AttributeMissingValue);
            }
            let quote: char = s[vq];
            let ghost old_attrs = attrs@;
            if quote == '"' || quote == '\'' {
                let ve: usize = scan_quote_x(s, vq + 1, quote);
                let raw = string_from_chars(s, vq + 1, ve);
                let value = decode_entities(raw.as_str());
                attrs.push((an, value));
                cur = if ve < s.len() {
                    ve + 1
                } else {
                    ve
                };
                proof {
                    assert(attrs_model(attrs@) =~= attrs_model(old_attrs).push(
                        (s@.subrange(q as int, ae as int), decode_spec(s@.subrange(vq + 1, ve as int))),
                    ));
                }
            } else {
                let ve: usize = scan_name_x(s, vq);
                let raw = string_from_chars(s, vq, ve);
                let value = decode_entities(raw.as_str());
                attrs.push((an, value));
                cur = ve;
                proof {
                    assert(attrs_model(attrs@) =~= attrs_model(old_attrs).push(
                        (s@.subrange(q as int, ae as int), decode_spec(s@.subrange(vq as int, ve as int))),
                    ));
                }
            }
        }
    }
}

fn parse_children_x(s: &Vec<char>, p: usize, d: usize) -> (r: Result<(Vec<Node>, usize), XmlError>)
    requires
        p <= s.len(),
        d <= MAX_XML_DEPTH,
    ensures
        children_res_model(r) == children_spec(s@, p as int, Seq::empty(), d as nat),
        r is Ok ==> p <= r->Ok_0.1 <= s.len(),
    decreases s.len() - p, 2int,
{
    proof {
        lemma_literals();
    }
    let mut children: Vec<Node> = Vec::new();
    let mut cur: usize = p;
    assert(nodes_model(children@) =~= Seq::<SNode>::empty());
    loop
        invariant
            p <= cur <= s.len(),
            d <= MAX_XML_DEPTH,
            children_spec(s@, p as int, Seq::empty(), d as nat) == children_spec(
                s@,
                cur as int,
                nodes_model(children@),
                d as nat,
            ),
            "</"@ == lit_end_tag(),
            ">"@ == lit_gt(),
        decreases s.len() - cur,
    {
        if cur >= s.len() {
            return Ok((children, cur));
        }
        if starts_at_x(s, cur, "</") {
            match find_x(s, cur, ">") {
                None => {
                    return Err(XmlError::TruncatedCloseTag);
                },
                Some(f) => {
                    return Ok((children, f + 1));
                },
            }
        }
        match parse_node_x(s, cur, d) {
            Err(x) => {
                return Err(x);
            },
            Ok((None, q)) => {
                return Ok((children, q));
            },
            Ok((Some(n), q)) => {
                let ghost old = children@;
                children.push(n);
                proof {
                    lemma_nodes_model_push(old, n);
                }
                cur = q;
            },
        }
    }
}

/// Parse an XML document into its top-level nodes, reporting the
/// library's own error kinds.
pub fn parse_xml_nodes(src: &str) -> (r: Result<Vec<Node>, XmlError>)
    ensures
        doc_res_model(r) == parse_xml_spec(src@),
{
    let s = str_chars(src);
    let mut cur: usize = skip_prolog_x(&s);
    let mut out: Vec<Node> = Vec::new();
    assert(nodes_model(out@) =~= Seq::<SNode>::empty());
    while cur < s.len()
        invariant
            cur <= s.len(),
            s@ == src@,
            parse_xml_spec(src@) == nodes_from(s@, cur as int, nodes_model(out@)),
        decreases s.len() - cur,
    {
        match parse_node_x(&s, cur, 0) {
            Err(x) => {
                return Err(x);
            },
            Ok((None, _)) => {
                return Ok(out);
            },
            Ok((Some(n), q)) => {
                let ghost old = out@;
                out.push(n);
                proof {
                    lemma_nodes_model_push(old, n);
                }
                cur = q;
            },
        }
    }
    Ok(out)
}

} // verus!

verus! {

// ---------------------------------------------------------------------
// Public entry points with the framework's error type
// ---------------------------------------------------------------------

/// The framework's error type, carried opaquely.
#[verifier::external_type_specification]
#[verifier::external_body]
pub struct ExCoreError(oxideav_core::Error);

/// `oxideav_core::Error::invalid`: an `InvalidData` error carrying
/// `msg`. Nothing is claimed about the value.
#[verifier::external_body]
fn invalid_data(msg: &str) -> oxideav_core::Error {
    oxideav_core::Error::invalid(msg)
}

/// Message text of each reader error.
pub open spec fn xml_error_message(e: XmlError) -> Seq<char> {
    match e {
        XmlError::EmptyTagName => "XML: empty tag name"@,
        XmlError::MalformedSelfClosingTag => "XML: malformed self-closing tag"@,
        XmlError::AttributeMissingValue => "XML: attribute missing value"@,
        XmlError::TruncatedElement => "XML: truncated element"@,
        XmlError::TruncatedCloseTag => "XML: truncated close tag"@,
        XmlError::TooDeep => "XML: nesting deeper than MAX_XML_DEPTH"@,
    }
}

impl XmlError {
    /// The message reported for this error.
    pub fn message(&self) -> (m: &'static str)
        ensures
            m@ == xml_error_message(*self),
    {
        match self {
            XmlError::EmptyTagName => "XML: empty tag name",
            XmlError::MalformedSelfClosingTag => "XML: malformed self-closing tag",
            XmlError::AttributeMissingValue => "XML: attribute missing value",
            XmlError::TruncatedElement => "XML: truncated element",
            XmlError::TruncatedCloseTag => "XML: truncated close tag",
            XmlError::TooDeep => "XML: nesting deeper than MAX_XML_DEPTH",
        }
    }
}

/// Parse an XML document into a sequence of top-level nodes. SVG files
/// always contain a single `<svg>` root, but the reader doesn't
/// hard-code that — the caller picks the root.
pub fn parse_xml(src: &str) -> (r: oxideav_core::Result<Vec<Node>>)
    ensures
        match parse_xml_spec(src@) {
            Ok(ns) => r is Ok && nodes_model(r->Ok_0@) == ns,
            Err(_) => r is Err,
        },
{
    match parse_xml_nodes(src) {
        Ok(v) => Ok(v),
        Err(e) => Err(invalid_data(e.message())),
    }
}

/// What `String::from_utf8_lossy` yields for the given bytes.
pub uninterp spec fn utf8_lossy(bytes: Seq<u8>) -> Seq<char>;

/// `String::from_utf8_lossy(bytes).into_owned()`. The result is named
/// [`utf8_lossy`]; on valid UTF-8 it is the plain decoding (the
/// replacement of invalid sequences by U+FFFD is not spelled out).
#[verifier::external_body]
fn from_utf8_lossy(bytes: &[u8]) -> (r: String)
    ensures
        r@ == utf8_lossy(bytes@),
        valid_utf8(bytes@) ==> r@ == decode_utf8(bytes@),
{
    String::from_utf8_lossy(bytes).into_owned()
}

/// The bytes with a leading UTF-8 byte-order mark removed.
pub open spec fn strip_bom(b: Seq<u8>) -> Seq<u8> {
    if b.len() >= 3 && b[0] == 0xEF && b[1] == 0xBB && b[2] == 0xBF {
        b.subrange(3, b.len() as int)
    } else {
        b
    }
}

/// Strip the optional UTF-8 BOM and decode the bytes as UTF-8 (lossy
/// for invalid sequences).
pub fn decode_utf8_lossy_stripping_bom(bytes: &[u8]) -> (r: String)
    ensures
        r@ == utf8_lossy(strip_bom(bytes@)),
        valid_utf8(strip_bom(bytes@)) ==> r@ == decode_utf8(strip_bom(bytes@)),
{
    if bytes.len() >= 3 && bytes[0] == 0xEF && bytes[1] == 0xBB && bytes[2] == 0xBF {
        let rest = &bytes[3..bytes.len()];
        assert(rest@ =~= strip_bom(bytes@));
        from_utf8_lossy(rest)
    } else {
        from_utf8_lossy(bytes)
    }
}

/// What inflating a gzip stream with `flate2::read::GzDecoder` yields
/// (`None` when the stream is malformed).
pub uninterp spec fn gunzip(data: Seq<u8>) -> Option<Seq<u8>>;

/// What reading at most `limit` bytes from `flate2::read::GzDecoder`
/// over `data` yields (`None` when the decoder reports an error first).
pub uninterp spec fn gunzip_prefix(data: Seq<u8>, limit: nat) -> Option<Seq<u8>>;

/// What `flate2::write::GzEncoder` at the default level produces
/// (`None` when `write_all` or `finish` reports an error).
pub uninterp spec fn gzip_encode(data: Seq<u8>) -> Option<Seq<u8>>;

/// The first `limit` bytes of `b` (all of them when shorter).
pub open spec fn first_bytes(b: Seq<u8>, limit: nat) -> Seq<u8> {
    if b.len() < limit {
        b
    } else {
        b.take(limit as int)
    }
}

/// The most bytes a `.svgz` payload may inflate to (128 MiB); a larger
/// payload is refused.
pub const MAX_SVGZ_INFLATED: u64 = 134217728;

/// `flate2::read::GzDecoder::new(bytes).take(limit).read_to_end(..)`:
/// inflates at most `limit` bytes. The result is named
/// [`gunzip_prefix`]. The decoder reports end of stream only after the
/// gzip trailer checked out, and a well-formed stream never reports an
/// error, so: a well-formed stream gives its first `limit` inflated
/// bytes (all of them when shorter); fewer than `limit` bytes come back
/// only from a stream that ended well-formed there; an error comes only
/// from a malformed stream. What a malformed stream gives before its
/// error shows is not spelled out beyond the name.
#[verifier::external_body]
fn gz_decode_limited(bytes: &[u8], limit: u64) -> (r: oxideav_core::Result<Vec<u8>>)
    ensures
        r is Ok <==> gunzip_prefix(bytes@, limit as nat) is Some,
        r matches Ok(v) ==> Some(v@) == gunzip_prefix(bytes@, limit as nat),
        r matches Ok(v) ==> v@.len() <= limit,
        r matches Ok(v) ==> (v@.len() < limit ==> gunzip(bytes@) == Some(v@)),
        r matches Ok(v) ==> (gunzip(bytes@) matches Some(full) ==> v@ == first_bytes(full, limit as nat)),
        r is Err ==> gunzip(bytes@) is None,
{
    let mut decoder = flate2::read::GzDecoder::new(bytes).take(limit);
    let mut out = Vec::new();
    decoder.read_to_end(&mut out).map_err(
        |e| oxideav_core::Error::invalid(format!("SVG: gzip inflate failed: {e}")),
    )?;
    Ok(out)
}

/// `flate2::write::GzEncoder` over a `Vec<u8>` at the default level:
/// `write_all` then `finish`. The result is named [`gzip_encode`] (the
/// fixed level and the fixed header, mtime 0 and OS byte 255, make it a
/// function of the input); a successful output starts with the gzip
/// magic `1f 8b` (written by the header builder) and inflates back to
/// the input.
#[verifier::external_body]
fn gz_encode(bytes: &[u8]) -> (r: oxideav_core::Result<Vec<u8>>)
    ensures
        r is Ok <==> gzip_encode(bytes@) is Some,
        r matches Ok(z) ==> {
            &&& Some(z@) == gzip_encode(bytes@)
            &&& has_gzip_magic(z@)
            &&& gunzip(z@) == Some(bytes@)
        },
{
    let mut encoder = flate2::write::GzEncoder::new(Vec::new(), flate2::Compression::default());
    encoder.write_all(bytes).map_err(
        |e| oxideav_core::Error::invalid(format!("SVG: gzip deflate failed: {e}")),
    )?;
    encoder.finish().map_err(
        |e| oxideav_core::Error::invalid(format!("SVG: gzip finish failed: {e}")),
    )
}

/// Inflate a gzip-compressed SVG payload (`.svgz`) into the raw XML
/// bytes. Fails when the input is not a valid gzip stream, and refuses a
/// stream that inflates past [`MAX_SVGZ_INFLATED`] bytes without
/// materialising more than one byte beyond that cap.
pub fn inflate_gzip(bytes: &[u8]) -> (r: oxideav_core::Result<Vec<u8>>)
    ensures
        r is Ok <==> (gunzip(bytes@) matches Some(full) && full.len() <= MAX_SVGZ_INFLATED),
        r matches Ok(v) ==> Some(v@) == gunzip(bytes@),
{
    let v = match gz_decode_limited(bytes, MAX_SVGZ_INFLATED + 1) {
        Ok(v) => v,
        Err(e) => {
            return Err(e);
        },
    };
    if v.len() as u64 > MAX_SVGZ_INFLATED {
        return Err(invalid_data("SVG: .svgz payload inflates past MAX_SVGZ_INFLATED"));
    }
    proof {
        if let Some(full) = gunzip(bytes@) {
            if full.len() > MAX_SVGZ_INFLATED {
                assert(v@.len() == MAX_SVGZ_INFLATED + 1);
            }
        }
    }
    Ok(v)
}

/// Deflate (gzip) the SVG bytes for `.svgz` output at the default
/// compression level. The result is [`gzip_encode`] of the input; a
/// successful result is recognised by [`is_gzip`] and inflates back to
/// the input.
pub fn deflate_gzip(bytes: &[u8]) -> (r: oxideav_core::Result<Vec<u8>>)
    ensures
        r is Ok <==> gzip_encode(bytes@) is Some,
        r matches Ok(z) ==> {
            &&& Some(z@) == gzip_encode(bytes@)
            &&& has_gzip_magic(z@)
            &&& gunzip(z@) == Some(bytes@)
        },
{
    gz_encode(bytes)
}

} // verus!
