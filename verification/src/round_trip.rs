//! The reader reads back what the inline writer writes: for an element
//! whose names are well-formed, whose text children are non-empty and
//! not adjacent, and which nests no deeper than `MAX_XML_DEPTH`,
//! `parse_xml` of `write_inline_element`'s output is that element.

use vstd::prelude::*;

use crate::encoder::{
    attr_text, attrs_text, cdata_end, cdata_split, children_height, descriptive_spec, direct_text,
    height, indent, inline_children, inline_node, inline_spec, lemma_children_height, replace_all,
    script_spec,
};
use crate::parser::{
    attrs_spec, children_spec, decode_spec, esc_attr_char, lemma_decode_plain, esc_text_char, escape_attr_spec,
    escape_text_spec, find_from, lemma_decode_escape_attr, lemma_find_from, lit_cdata_close, lemma_decode_escape_text, lit_bang,
    lit_cdata_open, lit_comment_open, lit_end_tag, lit_gt, lit_pi_open, nodes_from,
    parse_element_spec, parse_node_spec, parse_xml_spec, prolog_from, scan, skip_prolog, skip_ws,
    starts_at, stop_attr_name, stop_attr_name_fn, stop_lt_fn, stop_name, stop_name_fn,
    stop_quote, SElement, SNode, MAX_XML_DEPTH,
};
use crate::strings::{is_xml_ws, trim};

verus! {

/// An element name the reader delimits exactly: non-empty, without
/// whitespace, `>` or `/`, and not starting with `!` or `?`.
pub open spec fn element_name_ok(n: Seq<char>) -> bool {
    &&& n.len() > 0
    &&& n[0] != '!'
    &&& n[0] != '?'
    &&& forall|i: int| 0 <= i < n.len() ==> !stop_name(#[trigger] n[i])
}

/// An attribute name the reader delimits exactly: non-empty, without
/// whitespace, `=`, `>` or `/`.
pub open spec fn attr_name_ok(n: Seq<char>) -> bool {
    &&& n.len() > 0
    &&& forall|i: int| 0 <= i < n.len() ==> !stop_attr_name(#[trigger] n[i])
}

pub open spec fn attrs_ok(a: Seq<(Seq<char>, Seq<char>)>) -> bool {
    forall|i: int| 0 <= i < a.len() ==> attr_name_ok(#[trigger] a[i].0)
}

/// A tree the inline form writes unambiguously.
pub open spec fn wf_element(e: SElement) -> bool
    decreases e,
{
    &&& element_name_ok(e.name)
    &&& attrs_ok(e.attrs)
    &&& wf_children(e.children)
}

/// Well-formed children: each well-formed, no two text runs in a row.
pub open spec fn wf_children(cs: Seq<SNode>) -> bool
    decreases cs,
{
    if cs.len() == 0 {
        true
    } else {
        &&& wf_children(cs.subrange(0, cs.len() - 1))
        &&& wf_node(cs[cs.len() - 1])
        &&& (cs.len() >= 2 ==> !(cs[cs.len() - 1] is Text && cs[cs.len() - 2] is Text))
    }
}

/// A well-formed node: a well-formed element or a non-empty text run.
pub open spec fn wf_node(n: SNode) -> bool
    decreases n,
{
    match n {
        SNode::Element(c) => wf_element(c),
        SNode::Text(t) => t.len() > 0,
    }
}

#[verifier::spinoff_prover]
pub(crate) proof fn lemma_wf_children(cs: Seq<SNode>)
    requires
        wf_children(cs),
    ensures
        forall|i: int| 0 <= i < cs.len() ==> wf_node(#[trigger] cs[i]),
        forall|i: int| 0 <= i && i + 1 < cs.len() && (#[trigger] cs[i]) is Text ==> !(cs[i + 1] is Text),
    decreases cs.len(),
{
    if cs.len() > 0 {
        let init = cs.subrange(0, cs.len() - 1);
        lemma_wf_children(init);
        assert forall|i: int| 0 <= i < cs.len() implies wf_node(#[trigger] cs[i]) by {
            if i < cs.len() - 1 {
                assert(cs[i] == init[i]);
            }
        }
        assert forall|i: int| 0 <= i && i + 1 < cs.len() && (#[trigger] cs[i]) is Text implies !(
        cs[i + 1] is Text) by {
            if i + 1 < cs.len() - 1 {
                assert(cs[i] == init[i]);
                assert(cs[i + 1] == init[i + 1]);
            }
        }
    }
}

#[verifier::spinoff_prover]
pub(crate) proof fn lemma_starts_split(s: Seq<char>, p: int, a: Seq<char>, b: Seq<char>)
    requires
        starts_at(s, p, a + b),
    ensures
        starts_at(s, p, a),
        starts_at(s, p + a.len(), b),
{
    let w = s.subrange(p, p + (a + b).len());
    assert(w == a + b);
    assert forall|i: int| 0 <= i < a.len() implies #[trigger] s.subrange(p, p + a.len())[i] == a[i] by {
        assert(w[i] == (a + b)[i]);
    }
    assert(s.subrange(p, p + a.len()) =~= a);
    assert forall|i: int| 0 <= i < b.len() implies #[trigger] s.subrange(p + a.len(), p + a.len() + b.len())[i] == b[i] by {
        assert(w[a.len() + i] == (a + b)[a.len() + i]);
    }
    assert(s.subrange(p + a.len(), p + a.len() + b.len()) =~= b);
}

#[verifier::spinoff_prover]
pub(crate) proof fn lemma_starts_index(s: Seq<char>, p: int, a: Seq<char>, i: int)
    requires
        starts_at(s, p, a),
        0 <= i < a.len(),
    ensures
        s[p + i] == a[i],
{
    assert(s.subrange(p, p + a.len())[i] == a[i]);
}

#[verifier::spinoff_prover]
pub(crate) proof fn lemma_scan_exact(s: Seq<char>, p: int, j: int, stop: spec_fn(char) -> bool)
    requires
        0 <= p <= j < s.len(),
        forall|k: int| p <= k < j ==> !stop(#[trigger] s[k]),
        stop(s[j]),
    ensures
        scan(s, p, stop) == j,
    decreases j - p,
{
    if p < j {
        lemma_scan_exact(s, p + 1, j, stop);
    }
}

#[verifier::spinoff_prover]
pub(crate) proof fn lemma_find_gt_exact(s: Seq<char>, p: int, j: int)
    requires
        0 <= p <= j < s.len(),
        forall|k: int| p <= k < j ==> #[trigger] s[k] != '>',
        s[j] == '>',
    ensures
        find_from(s, p, lit_gt()) == j,
    decreases j - p,
{
    if p < j {
        assert(s.subrange(p, p + 1)[0] == s[p]);
        assert(!starts_at(s, p, lit_gt()));
        lemma_find_gt_exact(s, p + 1, j);
    } else {
        assert(s.subrange(p, p + 1) =~= lit_gt());
    }
}

#[verifier::spinoff_prover]
pub(crate) proof fn lemma_escape_text_chars(t: Seq<char>)
    ensures
        forall|i: int| 0 <= i < escape_text_spec(t).len() ==> #[trigger] escape_text_spec(t)[i] != '<',
        t.len() > 0 ==> escape_text_spec(t).len() > 0,
    decreases t.len(),
{
    if t.len() > 0 {
        lemma_escape_text_chars(t.drop_first());
        let e = esc_text_char(t[0]);
        let r = escape_text_spec(t.drop_first());
        assert forall|i: int| 0 <= i < (e + r).len() implies #[trigger] (e + r)[i] != '<' by {
            if i >= e.len() {
                assert((e + r)[i] == r[i - e.len()]);
            }
        }
    }
}

#[verifier::spinoff_prover]
proof fn lemma_escape_attr_chars(t: Seq<char>)
    ensures
        forall|i: int| 0 <= i < escape_attr_spec(t).len() ==> #[trigger] escape_attr_spec(t)[i] != '"',
    decreases t.len(),
{
    if t.len() > 0 {
        lemma_escape_attr_chars(t.drop_first());
        let e = esc_attr_char(t[0]);
        let r = escape_attr_spec(t.drop_first());
        assert forall|i: int| 0 <= i < (e + r).len() implies #[trigger] (e + r)[i] != '"' by {
            if i >= e.len() {
                assert((e + r)[i] == r[i - e.len()]);
            }
        }
    }
}

#[verifier::spinoff_prover]
proof fn lemma_attrs_text_append(a: Seq<(Seq<char>, Seq<char>)>, b: Seq<(Seq<char>, Seq<char>)>)
    ensures
        attrs_text(a + b) == attrs_text(a) + attrs_text(b),
    decreases b.len(),
{
    if b.len() == 0 {
        assert(a + b =~= a);
        assert(attrs_text(a) + Seq::<char>::empty() =~= attrs_text(a));
    } else {
        lemma_attrs_text_append(a, b.drop_last());
        assert((a + b).drop_last() =~= a + b.drop_last());
        assert((a + b).last() == b.last());
    }
}

#[verifier::spinoff_prover]
proof fn lemma_inline_children_append(a: Seq<SNode>, b: Seq<SNode>)
    ensures
        inline_children(a + b) == inline_children(a) + inline_children(b),
    decreases b.len(),
{
    if b.len() == 0 {
        assert(a + b =~= a);
        assert(inline_children(a) + Seq::<char>::empty() =~= inline_children(a));
    } else {
        let bi = b.subrange(0, b.len() - 1);
        lemma_inline_children_append(a, bi);
        assert((a + b).subrange(0, (a + b).len() - 1) =~= a + bi);
        assert((a + b)[(a + b).len() - 1] == b[b.len() - 1]);
    }
}

#[verifier::spinoff_prover]
proof fn lemma_inline_children_single(n: SNode)
    ensures
        inline_children(seq![n]) == inline_node(n),
{
    assert(seq![n].subrange(0, 0) =~= Seq::<SNode>::empty());
    assert(inline_children(Seq::<SNode>::empty()) == Seq::<char>::empty());
    assert(seq![n][0] == n);
    assert(inline_children(seq![n]) =~= Seq::<char>::empty() + inline_node(n));
}

/// The first character the inline form of a node writes.
#[verifier::spinoff_prover]
proof fn lemma_inline_node_first(n: SNode)
    requires
        wf_node(n),
    ensures
        inline_node(n).len() > 0,
        n is Element ==> inline_node(n)[0] == '<',
        n is Text ==> inline_node(n)[0] != '<',
{
    match n {
        SNode::Element(c) => {
        },
        SNode::Text(t) => {
            lemma_escape_text_chars(t);
        },
    }
}

#[verifier::spinoff_prover]
proof fn lemma_attrs_text_push(a: Seq<(Seq<char>, Seq<char>)>, x: (Seq<char>, Seq<char>))
    ensures
        attrs_text(a.push(x)) == attrs_text(a) + attr_text(x.0, x.1),
{
    assert(a.push(x).drop_last() =~= a);
    assert(a.push(x).last() == x);
}

#[verifier::spinoff_prover]
proof fn lemma_attrs_text_first(attrs: Seq<(Seq<char>, Seq<char>)>)
    requires
        attrs.len() > 0,
    ensures
        attrs_text(attrs).len() > 0,
        attrs_text(attrs)[0] == ' ',
    decreases attrs.len(),
{
    let x = attrs_text(attrs.drop_last());
    let y = attr_text(attrs.last().0, attrs.last().1);
    assert(attrs_text(attrs) == x + y);
    assert(y[0] == ' ');
    if attrs.len() > 1 {
        lemma_attrs_text_first(attrs.drop_last());
        assert((x + y)[0] == x[0]);
    } else {
        assert(attrs.drop_last() =~= Seq::<(Seq<char>, Seq<char>)>::empty());
        assert(x == Seq::<char>::empty());
        assert((x + y)[0] == y[0]);
    }
}

/// One attribute as the writer wrote it is read as that attribute.
#[verifier::spinoff_prover]
proof fn lemma_attr_step(
    s: Seq<char>,
    pos: int,
    name: Seq<char>,
    acc: Seq<(Seq<char>, Seq<char>)>,
    an: Seq<char>,
    av: Seq<char>,
    d: nat,
)
    requires
        attr_name_ok(an),
        0 <= pos,
        starts_at(s, pos, attr_text(an, av)),
    ensures
        attrs_spec(s, pos, name, acc, d) == attrs_spec(
            s,
            pos + attr_text(an, av).len(),
            name,
            acc.push((an, av)),
            d,
        ),
{
    let esc = escape_attr_spec(av);
    let at = attr_text(an, av);
    let q = pos + 1;
    let ae = q + an.len();
    let vq = ae + 1;
    let ve = vq + 1 + esc.len();
    assert(at =~= seq![' '] + an + seq!['=', '"'] + esc + seq!['"']);
    lemma_starts_index(s, pos, at, 0);
    assert forall|i: int| 0 <= i < an.len() implies s[q + i] == an[i] by {
        lemma_starts_index(s, pos, at, 1 + i);
    }
    lemma_starts_index(s, pos, at, 1 + an.len() as int);
    lemma_starts_index(s, pos, at, 2 + an.len() as int);
    lemma_starts_index(s, pos, at, at.len() - 1);
    assert forall|i: int| 0 <= i < esc.len() implies s[vq + 1 + i] == esc[i] by {
        lemma_starts_index(s, pos, at, 3 + an.len() + i);
    }
    assert(s[q] == an[0]);
    assert(!stop_attr_name(an[0]));
    assert(skip_ws(s, q) == q);
    assert(skip_ws(s, pos) == q);
    assert forall|i: int| q <= i < ae implies !stop_attr_name_fn()(#[trigger] s[i]) by {
        assert(s[q + (i - q)] == an[i - q]);
    }
    lemma_scan_exact(s, q, ae, stop_attr_name_fn());
    assert(s.subrange(q, ae) =~= an);
    assert(skip_ws(s, ae) == ae);
    assert(skip_ws(s, ae + 1) == ae + 1);
    lemma_escape_attr_chars(av);
    assert forall|i: int| vq + 1 <= i < ve implies !stop_quote('"')(#[trigger] s[i]) by {
        assert(s[vq + 1 + (i - vq - 1)] == esc[i - vq - 1]);
    }
    lemma_scan_exact(s, vq + 1, ve, stop_quote('"'));
    assert(s.subrange(vq + 1, ve) =~= esc);
    lemma_decode_escape_attr(av);
}

/// The reader goes through the attribute list the writer wrote.
#[verifier::spinoff_prover]
pub(crate) proof fn lemma_attrs_rt(
    s: Seq<char>,
    base: int,
    name: Seq<char>,
    attrs: Seq<(Seq<char>, Seq<char>)>,
    k: int,
    d: nat,
)
    requires
        0 <= base,
        0 <= k <= attrs.len(),
        attrs_ok(attrs),
        starts_at(s, base, attrs_text(attrs)),
    ensures
        attrs_spec(s, base + attrs_text(attrs.take(k)).len(), name, attrs.take(k), d) == attrs_spec(
            s,
            base + attrs_text(attrs).len(),
            name,
            attrs,
            d,
        ),
    decreases attrs.len() - k,
{
    if k == attrs.len() {
        assert(attrs.take(k) =~= attrs);
    } else {
        let pre = attrs.take(k);
        let x = attrs[k];
        let rest = attrs.subrange(k + 1, attrs.len() as int);
        assert(attrs.take(k + 1) =~= pre.push(x));
        assert(attrs =~= pre.push(x) + rest);
        lemma_attrs_text_append(pre.push(x), rest);
        lemma_attrs_text_push(pre, x);
        let t0 = attrs_text(pre);
        let at = attr_text(x.0, x.1);
        lemma_starts_split(s, base, t0 + at, attrs_text(rest));
        lemma_starts_split(s, base, t0, at);
        assert(attr_name_ok(x.0));
        lemma_attr_step(s, base + t0.len(), name, pre, x.0, x.1, d);
        assert(x == (x.0, x.1));
        lemma_attrs_rt(s, base, name, attrs, k + 1, d);
    }
}

/// The start tag as the writer wrote it leads the reader to the
/// attribute list.
#[verifier::spinoff_prover]
pub(crate) proof fn lemma_start_tag(s: Seq<char>, p: int, e: SElement, c0: char, d: nat)
    requires
        d < MAX_XML_DEPTH,
        element_name_ok(e.name),
        0 <= p,
        c0 == '/' || c0 == '>',
        starts_at(s, p, seq!['<'] + e.name + attrs_text(e.attrs) + seq![c0]),
    ensures
        parse_element_spec(s, p, d) == attrs_spec(s, p + 1 + e.name.len(), e.name, Seq::empty(), d),
{
    let name = e.name;
    let a = attrs_text(e.attrs);
    let ne = p + 1 + name.len();
    lemma_starts_split(s, p, seq!['<'] + name + a, seq![c0]);
    lemma_starts_split(s, p, seq!['<'] + name, a);
    lemma_starts_split(s, p, seq!['<'], name);
    lemma_starts_index(s, p, seq!['<'], 0);
    lemma_starts_index(s, ne + a.len(), seq![c0], 0);
    assert forall|i: int| p + 1 <= i < ne implies !stop_name_fn()(#[trigger] s[i]) by {
        lemma_starts_index(s, p + 1, name, i - p - 1);
    }
    if e.attrs.len() > 0 {
        lemma_attrs_text_first(e.attrs);
        lemma_starts_index(s, ne, a, 0);
    } else {
        assert(a == Seq::<char>::empty());
    }
    assert(stop_name(s[ne]));
    lemma_scan_exact(s, p + 1, ne, stop_name_fn());
    assert(s.subrange(p + 1, ne) =~= name);
}

/// The reader reads back an element where the writer wrote it.
#[verifier::spinoff_prover]
proof fn lemma_element_rt(s: Seq<char>, p: int, e: SElement, d: nat)
    requires
        wf_element(e),
        0 <= p,
        starts_at(s, p, inline_spec(e)),
        d + height(e) <= MAX_XML_DEPTH,
    ensures
        parse_element_spec(s, p, d) == Ok::<(SElement, int), crate::parser::XmlError>(
            (e, p + inline_spec(e).len()),
        ),
    decreases e, 0int,
{
    let name = e.name;
    let a = attrs_text(e.attrs);
    let head = seq!['<'] + name + a;
    let ne = p + 1 + name.len();
    let te = ne + a.len();
    assert(e.attrs.take(0) =~= Seq::<(Seq<char>, Seq<char>)>::empty());
    if e.children.len() == 0 {
        let tail = seq!['/', '>'];
        assert(inline_spec(e) =~= head + tail);
        assert(head + tail =~= (head + seq!['/']) + seq!['>']);
        lemma_starts_split(s, p, head + seq!['/'], seq!['>']);
        lemma_start_tag(s, p, e, '/', d);
        lemma_starts_split(s, p, head, tail);
        lemma_starts_split(s, p, seq!['<'] + name, a);
        lemma_attrs_rt(s, ne, name, e.attrs, 0, d);
        lemma_starts_index(s, te, tail, 0);
        lemma_starts_index(s, te, tail, 1);
        assert(skip_ws(s, te) == te);
        assert(skip_ws(s, te + 1) == te + 1);
        assert(e.children =~= Seq::<SNode>::empty());
    } else {
        let ic = inline_children(e.children);
        let closing = seq!['<', '/'] + name + seq!['>'];
        let tail = seq!['>'] + (ic + closing);
        assert(inline_spec(e) =~= head + tail);
        assert(head + tail =~= (head + seq!['>']) + (ic + closing));
        lemma_starts_split(s, p, head + seq!['>'], ic + closing);
        lemma_start_tag(s, p, e, '>', d);
        lemma_starts_split(s, p, head, seq!['>']);
        lemma_starts_split(s, p, seq!['<'] + name, a);
        lemma_attrs_rt(s, ne, name, e.attrs, 0, d);
        lemma_starts_index(s, te, seq!['>'], 0);
        assert(skip_ws(s, te) == te);
        assert(e.children.take(0) =~= Seq::<SNode>::empty());
        lemma_children_rt(s, te + 1, e.children, 0, name, d + 1);
    }
}

/// A text run as the writer wrote it, followed by `<`, is read as that
/// text.
#[verifier::spinoff_prover]
proof fn lemma_text_node(s: Seq<char>, pos: int, t: Seq<char>, d: nat)
    requires
        t.len() > 0,
        0 <= pos,
        starts_at(s, pos, escape_text_spec(t)),
        pos + escape_text_spec(t).len() < s.len(),
        s[pos + escape_text_spec(t).len()] == '<',
    ensures
        parse_node_spec(s, pos, d) == Ok::<(Option<SNode>, int), crate::parser::XmlError>(
            (Some(SNode::Text(t)), pos + escape_text_spec(t).len()),
        ),
{
    let esc = escape_text_spec(t);
    let q = pos + esc.len();
    lemma_escape_text_chars(t);
    assert forall|i: int| pos <= i < q implies !stop_lt_fn()(#[trigger] s[i]) by {
        lemma_starts_index(s, pos, esc, i - pos);
    }
    lemma_scan_exact(s, pos, q, stop_lt_fn());
    assert(s.subrange(pos, q) =~= esc);
    lemma_decode_escape_text(t);
}

/// An element as the writer wrote it is read as that element node.
#[verifier::spinoff_prover]
proof fn lemma_element_node(s: Seq<char>, pos: int, c: SElement, d: nat)
    requires
        wf_element(c),
        0 <= pos,
        starts_at(s, pos, inline_spec(c)),
        d + height(c) <= MAX_XML_DEPTH,
    ensures
        parse_node_spec(s, pos, d) == Ok::<(Option<SNode>, int), crate::parser::XmlError>(
            (Some(SNode::Element(c)), pos + inline_spec(c).len()),
        ),
        !starts_at(s, pos, lit_end_tag()),
        !starts_at(s, pos, lit_pi_open()),
        !starts_at(s, pos, lit_bang()),
    decreases c, 1int,
{
    let nn = inline_spec(c);
    assert(nn[0] == '<');
    assert(nn[1] == c.name[0]);
    lemma_starts_index(s, pos, nn, 0);
    lemma_starts_index(s, pos, nn, 1);
    assert(!stop_name(c.name[0]));
    assert(!starts_at(s, pos, lit_end_tag())) by {
        assert(s.subrange(pos, pos + 2)[1] == s[pos + 1]);
    }
    assert(!starts_at(s, pos, lit_comment_open())) by {
        if pos + 4 <= s.len() {
            assert(s.subrange(pos, pos + 4)[1] == s[pos + 1]);
        }
    }
    assert(!starts_at(s, pos, lit_cdata_open())) by {
        if pos + 9 <= s.len() {
            assert(s.subrange(pos, pos + 9)[1] == s[pos + 1]);
        }
    }
    assert(!starts_at(s, pos, lit_pi_open())) by {
        assert(s.subrange(pos, pos + 2)[1] == s[pos + 1]);
    }
    assert(!starts_at(s, pos, lit_bang())) by {
        assert(s.subrange(pos, pos + 2)[1] == s[pos + 1]);
    }
    assert(scan(s, pos, stop_lt_fn()) == pos);
    lemma_element_rt(s, pos, c, d);
}

/// One child read inside an element.
#[verifier::spinoff_prover]
pub(crate) proof fn lemma_children_step(
    s: Seq<char>,
    pos: int,
    acc: Seq<SNode>,
    n: SNode,
    q: int,
    d: nat,
)
    requires
        0 <= pos < q <= s.len(),
        !starts_at(s, pos, lit_end_tag()),
        parse_node_spec(s, pos, d) == Ok::<(Option<SNode>, int), crate::parser::XmlError>((Some(n), q)),
    ensures
        children_spec(s, pos, acc, d) == children_spec(s, q, acc.push(n), d),
{
}

/// The reader reads back the children the writer wrote, and the end
/// tag after them.
#[verifier::rlimit(60)]
#[verifier::spinoff_prover]
proof fn lemma_children_rt(s: Seq<char>, p0: int, cs: Seq<SNode>, k: int, name: Seq<char>, d: nat)
    requires
        wf_children(cs),
        d + children_height(cs) <= MAX_XML_DEPTH,
        element_name_ok(name),
        0 <= p0,
        0 <= k <= cs.len(),
        starts_at(s, p0, inline_children(cs) + (seq!['<', '/'] + name + seq!['>'])),
    ensures
        children_spec(s, p0 + inline_children(cs.take(k)).len(), cs.take(k), d) == Ok::<
            (Seq<SNode>, int),
            crate::parser::XmlError,
        >((cs, p0 + inline_children(cs).len() + name.len() + 3)),
    decreases cs, cs.len() - k,
{
    let closing = seq!['<', '/'] + name + seq!['>'];
    let pre = cs.take(k);
    let post = cs.subrange(k, cs.len() as int);
    assert(cs =~= pre + post);
    lemma_inline_children_append(pre, post);
    let pos = p0 + inline_children(pre).len();
    let ce = p0 + inline_children(cs).len();
    lemma_starts_split(s, p0, inline_children(cs), closing);
    if k == cs.len() {
        assert(pre =~= cs);
        lemma_starts_index(s, ce, closing, 0);
        lemma_starts_index(s, ce, closing, 1);
        assert(s.subrange(ce, ce + 2) =~= lit_end_tag());
        assert forall|j: int| ce <= j < ce + 2 + name.len() implies #[trigger] s[j] != '>' by {
            lemma_starts_index(s, ce, closing, j - ce);
            if j >= ce + 2 {
                assert(closing[j - ce] == name[j - ce - 2]);
                assert(!stop_name(name[j - ce - 2]));
            }
        }
        lemma_starts_index(s, ce, closing, 2 + name.len() as int);
        lemma_find_gt_exact(s, ce, ce + 2 + name.len());
    } else {
        lemma_wf_children(cs);
        let n = cs[k];
        let rest = cs.subrange(k + 1, cs.len() as int);
        assert(post =~= seq![n] + rest);
        lemma_inline_children_append(seq![n], rest);
        lemma_inline_children_single(n);
        let nn = inline_node(n);
        lemma_starts_split(s, p0, inline_children(pre), inline_children(post));
        lemma_starts_split(s, pos, nn, inline_children(rest));
        let q = pos + nn.len();
        assert(cs.take(k + 1) =~= pre.push(n));
        assert(pre.push(n).subrange(0, k) =~= pre);
        assert(inline_children(cs.take(k + 1)) == inline_children(pre) + nn);
        match n {
            SNode::Text(t) => {
                // What follows the text starts with `<`: the next node is
                // an element, or the end tag comes.
                if k + 1 < cs.len() {
                    assert(rest[0] == cs[k + 1]);
                    lemma_inline_children_append(seq![rest[0]], rest.drop_first());
                    assert(seq![rest[0]] + rest.drop_first() =~= rest);
                    lemma_inline_children_single(rest[0]);
                    lemma_inline_node_first(rest[0]);
                    lemma_starts_index(s, q, inline_children(rest), 0);
                } else {
                    assert(rest =~= Seq::<SNode>::empty());
                    assert(q == ce);
                    lemma_starts_index(s, ce, closing, 0);
                }
                lemma_escape_text_chars(t);
                lemma_starts_index(s, pos, nn, 0);
                assert(!starts_at(s, pos, lit_end_tag())) by {
                    assert(s.subrange(pos, pos + 2)[0] == s[pos]);
                }
                lemma_text_node(s, pos, t, d);
                lemma_children_step(s, pos, pre, n, q, d);
            },
            SNode::Element(c) => {
                assert(decreases_to!(cs => cs[k]));
                lemma_children_height(cs, k);
                lemma_element_node(s, pos, c, d);
                lemma_children_step(s, pos, pre, n, q, d);
            },
        }
        lemma_children_rt(s, p0, cs, k + 1, name, d);
    }
}

/// Reading the inline form of a well-formed element gives back exactly
/// that element as the only top-level node: what
/// `write_inline_element` writes, `parse_xml` reads back.
#[verifier::spinoff_prover]
pub proof fn lemma_parse_inline_round_trip(e: SElement)
    requires
        wf_element(e),
        height(e) <= MAX_XML_DEPTH,
    ensures
        parse_xml_spec(inline_spec(e)) == Ok::<Seq<SNode>, crate::parser::XmlError>(
            seq![SNode::Element(e)],
        ),
{
    let s = inline_spec(e);
    assert(s.subrange(0, s.len() as int) =~= s);
    lemma_element_node(s, 0, e, 0);
    assert(s[0] == '<');
    assert(skip_ws(s, 0) == 0);
    assert(prolog_from(s, 0) == 0);
    assert(skip_prolog(s) == 0);
    assert(nodes_from(s, s.len() as int, seq![SNode::Element(e)]) == Ok::<
        Seq<SNode>,
        crate::parser::XmlError,
    >(seq![SNode::Element(e)]));
    assert(Seq::<SNode>::empty().push(SNode::Element(e)) =~= seq![SNode::Element(e)]);
}

#[verifier::spinoff_prover]
pub(crate) proof fn lemma_indent_ws(d: nat)
    ensures
        indent(d).len() == 2 * d,
        forall|i: int| 0 <= i < indent(d).len() ==> #[trigger] indent(d)[i] == ' ',
    decreases d,
{
    if d > 0 {
        lemma_indent_ws((d - 1) as nat);
        let a = indent((d - 1) as nat);
        assert forall|i: int| 0 <= i < indent(d).len() implies #[trigger] indent(d)[i] == ' ' by {
            if i < a.len() {
                assert(indent(d)[i] == a[i]);
            }
        }
    }
}

#[verifier::spinoff_prover]
pub(crate) proof fn lemma_skip_ws_run(s: Seq<char>, p: int, k: int)
    requires
        0 <= p <= k < s.len(),
        forall|i: int| p <= i < k ==> #[trigger] s[i] == ' ',
        !is_xml_ws(s[k]),
    ensures
        skip_ws(s, p) == k,
    decreases k - p,
{
    if p < k {
        lemma_skip_ws_run(s, p + 1, k);
    }
}

/// A line `indent + l + "\n"` whose `l` is read as the node `n` reads as
/// `n` and the line break.
#[verifier::spinoff_prover]
pub(crate) proof fn lemma_top_line(depth: nat, l: Seq<char>, n: SNode)
    requires
        l.len() >= 2,
        l[0] == '<',
        l[1] != '?' && l[1] != '!',
        parse_node_spec(indent(depth) + l + seq!['\n'], indent(depth).len() as int, 0) == Ok::<
            (Option<SNode>, int),
            crate::parser::XmlError,
        >((Some(n), (indent(depth).len() + l.len()) as int)),
    ensures
        parse_xml_spec(indent(depth) + l + seq!['\n']) == Ok::<Seq<SNode>, crate::parser::XmlError>(
            seq![n, SNode::Text(seq!['\n'])],
        ),
{
    let ind = indent(depth);
    let s = ind + l + seq!['\n'];
    let k = ind.len() as int;
    let q = k + l.len();
    lemma_indent_ws(depth);
    assert(s[k] == '<');
    assert(s[k + 1] == l[1]);
    assert forall|i: int| 0 <= i < k implies #[trigger] s[i] == ' ' by {
        assert(s[i] == ind[i]);
    }
    lemma_skip_ws_run(s, 0, k);
    assert(!starts_at(s, k, lit_pi_open())) by {
        assert(s.subrange(k, k + 2)[1] == s[k + 1]);
    }
    assert(!starts_at(s, k, lit_bang())) by {
        assert(s.subrange(k, k + 2)[1] == s[k + 1]);
    }
    assert(prolog_from(s, k) == k);
    assert(skip_prolog(s) == k);
    // The line break.
    assert(s[q] == '\n');
    assert(scan(s, q + 1, stop_lt_fn()) == q + 1);
    assert(scan(s, q, stop_lt_fn()) == q + 1);
    assert(s.subrange(q, q + 1) =~= seq!['\n']);
    lemma_decode_plain(seq!['\n']);
    let one = Seq::<SNode>::empty().push(n);
    assert(parse_node_spec(s, q, 0) == Ok::<(Option<SNode>, int), crate::parser::XmlError>(
        (Some(SNode::Text(seq!['\n'])), q + 1),
    ));
    assert(nodes_from(s, q + 1, one.push(SNode::Text(seq!['\n']))) == Ok::<
        Seq<SNode>,
        crate::parser::XmlError,
    >(one.push(SNode::Text(seq!['\n']))));
    assert(nodes_from(s, q, one) == nodes_from(s, q + 1, one.push(SNode::Text(seq!['\n']))));
    assert(nodes_from(s, k, Seq::empty()) == nodes_from(s, q, one));
    assert(one.push(SNode::Text(seq!['\n'])) =~= seq![n, SNode::Text(seq!['\n'])]);
}

/// Reading an indented line of inline output gives back the element,
/// followed by the line break as a text node: what
/// `write_mixed_content_element` writes, `parse_xml` reads back.
#[verifier::spinoff_prover]
pub proof fn lemma_parse_line_round_trip(e: SElement, depth: nat)
    requires
        wf_element(e),
        height(e) <= MAX_XML_DEPTH,
    ensures
        parse_xml_spec(indent(depth) + inline_spec(e) + seq!['\n']) == Ok::<
            Seq<SNode>,
            crate::parser::XmlError,
        >(seq![SNode::Element(e), SNode::Text(seq!['\n'])]),
{
    let ind = indent(depth);
    let l = inline_spec(e);
    let s = ind + l + seq!['\n'];
    let k = ind.len() as int;
    assert(s.subrange(k, k + l.len()) =~= l);
    lemma_element_node(s, k, e, 0);
    assert(l[1] == e.name[0]);
    lemma_top_line(depth, l, SNode::Element(e));
}

/// The element a `<title>` / `<desc>` item stands for.
pub open spec fn descriptive_element(tag: Seq<char>, text: Seq<char>, lang: Option<Seq<char>>) -> SElement {
    SElement {
        name: tag,
        attrs: match lang {
            Some(l) => seq![(seq!['l', 'a', 'n', 'g'], l)],
            None => Seq::empty(),
        },
        children: if text.len() == 0 {
            Seq::empty()
        } else {
            seq![SNode::Text(text)]
        },
    }
}

/// Reading a written `<title>` / `<desc>` item gives back its tag, its
/// `lang` and its text: what `write_descriptive` writes, `parse_xml`
/// reads back.
#[verifier::rlimit(40)]
#[verifier::spinoff_prover]
pub proof fn lemma_parse_descriptive_round_trip(
    tag: Seq<char>,
    text: Seq<char>,
    lang: Option<Seq<char>>,
    depth: nat,
)
    requires
        element_name_ok(tag),
    ensures
        parse_xml_spec(descriptive_spec(tag, text, lang, depth)) == Ok::<
            Seq<SNode>,
            crate::parser::XmlError,
        >(seq![SNode::Element(descriptive_element(tag, text, lang)), SNode::Text(seq!['\n'])]),
{
    let e = descriptive_element(tag, text, lang);
    let lang_name = seq!['l', 'a', 'n', 'g'];
    let lang_text = match lang {
        Some(l) => attr_text(lang_name, l),
        None => Seq::<char>::empty(),
    };
    assert(attrs_text(e.attrs) == lang_text) by {
        match lang {
            Some(l) => {
                lemma_attrs_text_push(Seq::empty(), (lang_name, l));
                assert(Seq::<(Seq<char>, Seq<char>)>::empty().push((lang_name, l)) =~= e.attrs);
                assert(attrs_text(Seq::<(Seq<char>, Seq<char>)>::empty()) == Seq::<char>::empty());
                assert(attrs_text(e.attrs) =~= attr_text(lang_name, l));
            },
            None => {},
        }
    }
    let tail = if text.len() == 0 {
        seq!['/', '>']
    } else {
        seq!['>'] + escape_text_spec(text) + seq!['<', '/'] + tag + seq!['>']
    };
    assert(inline_spec(e) == seq!['<'] + tag + lang_text + tail) by {
        if text.len() > 0 {
            lemma_inline_children_single(SNode::Text(text));
            assert(inline_children(e.children) == escape_text_spec(text));
        }
    }
    assert(wf_children(e.children)) by {
        assert(wf_children(Seq::<SNode>::empty()));
        if text.len() > 0 {
            assert(e.children.subrange(0, 0) =~= Seq::<SNode>::empty());
            assert(wf_node(SNode::Text(text)));
        }
    }
    assert(attrs_ok(e.attrs));
    assert(wf_element(e));
    assert(height(e) == 1) by {
        if text.len() > 0 {
            assert(e.children.subrange(0, e.children.len() - 1) =~= Seq::<SNode>::empty());
            assert(children_height(Seq::<SNode>::empty()) == 0);
            assert(e.children[e.children.len() - 1] is Text);
            assert(children_height(e.children) == 0);
        } else {
            assert(children_height(e.children) == 0);
        }
    }
    assert(descriptive_spec(tag, text, lang, depth) =~= indent(depth) + inline_spec(e) + seq!['\n']);
    lemma_parse_line_round_trip(e, depth);
}

// ---------------------------------------------------------------------
// CDATA-wrapped script bodies
// ---------------------------------------------------------------------

/// The text nodes the reader makes of a body written in CDATA sections
/// by `write_script_element`: a `]]>` in the body ends one section after
/// its `]]` and the next section starts with its `>`.
pub open spec fn cdata_pieces(b: Seq<char>) -> Seq<SNode>
    decreases b.len(),
{
    let i = find_from(b, 0, cdata_end());
    if i < 0 {
        seq![SNode::Text(b)]
    } else {
        proof {
            lemma_find_from(b, 0, cdata_end());
        }
        seq![SNode::Text(b.take(i) + seq![']', ']'])] + cdata_pieces(
            seq!['>'] + b.subrange(i + 3, b.len() as int),
        )
    }
}

#[verifier::spinoff_prover]
proof fn lemma_direct_text_append(a: Seq<SNode>, b: Seq<SNode>)
    ensures
        direct_text(a + b) == direct_text(a) + direct_text(b),
    decreases b.len(),
{
    if b.len() == 0 {
        assert(a + b =~= a);
        assert(direct_text(a) + Seq::<char>::empty() =~= direct_text(a));
    } else {
        lemma_direct_text_append(a, b.drop_last());
        assert((a + b).drop_last() =~= a + b.drop_last());
        assert((a + b).last() == b.last());
    }
}

#[verifier::spinoff_prover]
proof fn lemma_direct_text_single(t: Seq<char>)
    ensures
        direct_text(seq![SNode::Text(t)]) == t,
{
    assert(seq![SNode::Text(t)].drop_last() =~= Seq::<SNode>::empty());
    assert(direct_text(Seq::<SNode>::empty()) == Seq::<char>::empty());
    assert(Seq::<char>::empty() + t =~= t);
}

/// The sections read back as the body: no character is lost or added.
#[verifier::spinoff_prover]
pub proof fn lemma_cdata_pieces_text(b: Seq<char>)
    ensures
        direct_text(cdata_pieces(b)) == b,
    decreases b.len(),
{
    let i = find_from(b, 0, cdata_end());
    lemma_find_from(b, 0, cdata_end());
    if i < 0 {
        lemma_direct_text_single(b);
    } else {
        let rest = seq!['>'] + b.subrange(i + 3, b.len() as int);
        let head = b.take(i) + seq![']', ']'];
        lemma_cdata_pieces_text(rest);
        lemma_direct_text_append(seq![SNode::Text(head)], cdata_pieces(rest));
        lemma_direct_text_single(head);
        assert(b.subrange(i, i + 3) == cdata_end());
        assert(head + rest =~= b);
    }
}

/// Replacing leaves alone a prefix where the pattern does not start.
#[verifier::spinoff_prover]
proof fn lemma_replace_prefix(s: Seq<char>, i: int, pat: Seq<char>, rep: Seq<char>)
    requires
        0 <= i <= s.len(),
        pat.len() > 0,
        forall|j: int| 0 <= j < i ==> !starts_at(s, j, pat),
    ensures
        replace_all(s, pat, rep) == s.take(i) + replace_all(s.subrange(i, s.len() as int), pat, rep),
    decreases i,
{
    if i == 0 {
        assert(s.subrange(0, s.len() as int) =~= s);
        assert(s.take(0) + replace_all(s, pat, rep) =~= replace_all(s, pat, rep));
    } else {
        let t = s.drop_first();
        assert(!starts_at(s, 0, pat));
        assert(!(pat.len() <= s.len() && s.subrange(0, pat.len() as int) == pat));
        assert forall|j: int| 0 <= j < i - 1 implies !starts_at(t, j, pat) by {
            if starts_at(t, j, pat) {
                assert(s.subrange(j + 1, j + 1 + pat.len()) =~= t.subrange(j, j + pat.len()));
                assert(starts_at(s, j + 1, pat));
            }
        }
        lemma_replace_prefix(t, i - 1, pat, rep);
        assert(t.subrange(i - 1, t.len() as int) =~= s.subrange(i, s.len() as int));
        assert(seq![s[0]] + t.take(i - 1) =~= s.take(i));
    }
}

#[verifier::spinoff_prover]
proof fn lemma_no_close_in(s: Seq<char>, ds: int, b: Seq<char>, j: int)
    requires
        0 <= ds,
        starts_at(s, ds, b),
        0 <= j,
        j + 3 <= b.len(),
        !starts_at(b, j, lit_cdata_close()),
    ensures
        !starts_at(s, ds + j, lit_cdata_close()),
{
    if starts_at(s, ds + j, lit_cdata_close()) {
        assert forall|m: int| 0 <= m < 3 implies #[trigger] b.subrange(j, j + 3)[m] == lit_cdata_close()[m] by {
            lemma_starts_index(s, ds, b, j + m);
            assert(s.subrange(ds + j, ds + j + 3)[m] == s[ds + j + m]);
        }
        assert(b.subrange(j, j + 3) =~= lit_cdata_close());
    }
}

#[verifier::spinoff_prover]
proof fn lemma_not_close_at(s: Seq<char>, j: int)
    requires
        0 <= j,
        j + 2 < s.len(),
        s[j + 2] != '>',
    ensures
        !starts_at(s, j, lit_cdata_close()),
{
    if starts_at(s, j, lit_cdata_close()) {
        assert(s.subrange(j, j + 3)[2] == s[j + 2]);
    }
}

/// Where the first `]]>` at or after `p` is, from the positions before
/// it and the match there.
#[verifier::spinoff_prover]
proof fn lemma_find_close_exact(s: Seq<char>, p: int, f: int)
    requires
        0 <= p <= f,
        forall|j: int| p <= j < f ==> !starts_at(s, j, lit_cdata_close()),
        starts_at(s, f, lit_cdata_close()),
    ensures
        find_from(s, p, lit_cdata_close()) == f,
    decreases f - p,
{
    if p < f {
        lemma_find_close_exact(s, p + 1, f);
    }
}

/// The reader reads the CDATA sections the writer wrote, then the end
/// tag.
#[verifier::rlimit(60)]
#[verifier::spinoff_prover]
proof fn lemma_cdata_children(
    s: Seq<char>,
    p: int,
    b: Seq<char>,
    acc: Seq<SNode>,
    name: Seq<char>,
    d: nat,
)
    requires
        0 <= p,
        element_name_ok(name),
        starts_at(
            s,
            p,
            lit_cdata_open() + replace_all(b, cdata_end(), cdata_split()) + lit_cdata_close() + (
            seq!['<', '/'] + name + seq!['>']),
        ),
    ensures
        children_spec(s, p, acc, d) == Ok::<(Seq<SNode>, int), crate::parser::XmlError>(
            (
                acc + cdata_pieces(b),
                p + 9 + replace_all(b, cdata_end(), cdata_split()).len() + 3 + name.len() + 3,
            ),
        ),
    decreases b.len(),
{
    let ce = cdata_end();
    let cs = cdata_split();
    let r = replace_all(b, ce, cs);
    let closing = seq!['<', '/'] + name + seq!['>'];
    assert(ce =~= lit_cdata_close());
    let ds = p + 9;
    lemma_starts_split(s, p, lit_cdata_open() + r + lit_cdata_close(), closing);
    lemma_starts_split(s, p, lit_cdata_open() + r, lit_cdata_close());
    lemma_starts_split(s, p, lit_cdata_open(), r);
    lemma_starts_index(s, p, lit_cdata_open(), 0);
    lemma_starts_index(s, p, lit_cdata_open(), 2);
    assert(scan(s, p, stop_lt_fn()) == p);
    assert(!starts_at(s, p, lit_comment_open())) by {
        assert(s.subrange(p, p + 4)[2] == s[p + 2]);
    }
    assert(!starts_at(s, p, lit_end_tag())) by {
        assert(s.subrange(p, p + 2)[1] == s[p + 1]);
        lemma_starts_index(s, p, lit_cdata_open(), 1);
    }
    let i = find_from(b, 0, ce);
    lemma_find_from(b, 0, ce);
    if i < 0 {
        // One section: the whole body.
        assert forall|j: int| 0 <= j < b.len() implies !starts_at(b, j, ce) by {}
        lemma_replace_prefix(b, b.len() as int, ce, cs);
        assert(b.take(b.len() as int) =~= b);
        assert(b.subrange(b.len() as int, b.len() as int) =~= Seq::<char>::empty());
        assert(r =~= b);
        let f = ds + b.len();
        assert forall|j: int| ds <= j < f implies !starts_at(s, j, lit_cdata_close()) by {
            if j - ds + 3 <= b.len() {
                lemma_no_close_in(s, ds, b, j - ds);
            } else {
                lemma_starts_index(s, f, lit_cdata_close(), j + 2 - f);
                lemma_not_close_at(s, j);
            }
        }
        lemma_find_close_exact(s, ds, f);
        assert(s.subrange(ds, f) =~= b);
        let q = f + 3;
        let ce_end = q + 2 + name.len();
        lemma_starts_index(s, q, closing, 0);
        lemma_starts_index(s, q, closing, 1);
        assert(s.subrange(q, q + 2) =~= lit_end_tag());
        assert forall|j: int| q <= j < ce_end implies #[trigger] s[j] != '>' by {
            lemma_starts_index(s, q, closing, j - q);
            if j >= q + 2 {
                assert(closing[j - q] == name[j - q - 2]);
                assert(!stop_name(name[j - q - 2]));
            }
        }
        lemma_starts_index(s, q, closing, 2 + name.len() as int);
        lemma_find_gt_exact(s, q, ce_end);
        assert(parse_node_spec(s, p, d) == Ok::<(Option<SNode>, int), crate::parser::XmlError>(
            (Some(SNode::Text(b)), q),
        ));
        lemma_children_step(s, p, acc, SNode::Text(b), q, d);
        assert(cdata_pieces(b) == seq![SNode::Text(b)]);
        assert(children_spec(s, q, acc.push(SNode::Text(b)), d) == Ok::<
            (Seq<SNode>, int),
            crate::parser::XmlError,
        >((acc.push(SNode::Text(b)), ce_end + 1)));
        assert(acc.push(SNode::Text(b)) =~= acc + seq![SNode::Text(b)]);
    } else {
        let b0 = b.take(i);
        let b1 = b.subrange(i + 3, b.len() as int);
        let rest = seq!['>'] + b1;
        let head = b0 + seq![']', ']'];
        // The body as written: the first `]]>` split across two sections.
        lemma_replace_prefix(b, i, ce, cs);
        let tail = b.subrange(i, b.len() as int);
        assert(tail.subrange(0, 3) =~= b.subrange(i, i + 3));
        assert(tail.subrange(3, tail.len() as int) =~= b1);
        assert(replace_all(tail, ce, cs) == cs + replace_all(b1, ce, cs));
        assert(rest.drop_first() =~= b1);
        assert(!(ce.len() <= rest.len() && rest.subrange(0, 3) == ce)) by {
            if ce.len() <= rest.len() {
                assert(rest.subrange(0, 3)[0] == '>');
            }
        }
        assert(replace_all(rest, ce, cs) == seq!['>'] + replace_all(b1, ce, cs));
        let rb1 = replace_all(b1, ce, cs);
        assert(r == b0 + cs + rb1);
        // The first section ends at the `]]>` inside the split.
        let f = ds + i + 2;
        lemma_starts_split(s, ds, b0 + cs, rb1);
        lemma_starts_split(s, ds, b0, cs);
        assert forall|j: int| ds <= j < f implies !starts_at(s, j, lit_cdata_close()) by {
            if j - ds + 3 <= i {
                assert(!starts_at(b, j - ds, ce));
                assert(b0.subrange(j - ds, j - ds + 3) =~= b.subrange(j - ds, j - ds + 3));
                lemma_no_close_in(s, ds, b0, j - ds);
            } else {
                lemma_starts_index(s, ds + i, cs, j + 2 - ds - i);
                lemma_not_close_at(s, j);
            }
        }
        assert(starts_at(s, f, lit_cdata_close())) by {
            assert forall|m: int| 0 <= m < 3 implies #[trigger] s.subrange(f, f + 3)[m] == lit_cdata_close()[m] by {
                lemma_starts_index(s, ds + i, cs, 2 + m);
            }
            assert(s.subrange(f, f + 3) =~= lit_cdata_close());
        }
        lemma_find_close_exact(s, ds, f);
        assert forall|m: int| 0 <= m < head.len() implies #[trigger] s.subrange(ds, f)[m] == head[m] by {
            if m < i {
                lemma_starts_index(s, ds, b0, m);
            } else {
                lemma_starts_index(s, ds + i, cs, m - i);
            }
        }
        assert(s.subrange(ds, f) =~= head);
        let q = f + 3;
        // What follows is a CDATA-wrapped body again: `>` and the rest.
        let cs_tail = cs.subrange(5, 15);
        assert(cs_tail =~= lit_cdata_open() + seq!['>']);
        let after = lit_cdata_open() + replace_all(rest, ce, cs) + lit_cdata_close() + closing;
        assert(lit_cdata_open() + r + lit_cdata_close() + closing =~= lit_cdata_open() + (r + (
        lit_cdata_close() + closing)));
        lemma_starts_split(s, p, lit_cdata_open(), r + (lit_cdata_close() + closing));
        assert(r + (lit_cdata_close() + closing) =~= (b0 + cs.subrange(0, 5)) + after);
        lemma_starts_split(s, ds, b0 + cs.subrange(0, 5), after);
        assert(rest.len() < b.len());
        assert(parse_node_spec(s, p, d) == Ok::<(Option<SNode>, int), crate::parser::XmlError>(
            (Some(SNode::Text(head)), q),
        ));
        lemma_children_step(s, p, acc, SNode::Text(head), q, d);
        assert(cdata_pieces(b) == seq![SNode::Text(head)] + cdata_pieces(rest));
        lemma_cdata_children(s, q, rest, acc.push(SNode::Text(head)), name, d);
        assert(acc.push(SNode::Text(head)) + cdata_pieces(rest) =~= acc + (seq![SNode::Text(head)]
            + cdata_pieces(rest)));
    }
}

/// The element the reader makes of a written `<script>` with a
/// non-blank body: its name and attributes, and the CDATA sections.
pub open spec fn script_element(e: SElement) -> SElement {
    SElement { name: e.name, attrs: e.attrs, children: cdata_pieces(direct_text(e.children)) }
}

/// The text of a written non-blank `<script>` without its indentation and
/// line break.
pub open spec fn script_line(e: SElement) -> Seq<char> {
    seq!['<'] + e.name + attrs_text(e.attrs) + seq!['>'] + (lit_cdata_open() + replace_all(
        direct_text(e.children),
        cdata_end(),
        cdata_split(),
    ) + lit_cdata_close() + (seq!['<', '/'] + e.name + seq!['>']))
}

#[verifier::spinoff_prover]
proof fn lemma_script_text(e: SElement, depth: nat)
    requires
        trim(direct_text(e.children)).len() > 0,
    ensures
        script_spec(e, depth) == indent(depth) + script_line(e) + seq!['\n'],
{
    assert(script_spec(e, depth) =~= indent(depth) + script_line(e) + seq!['\n']);
}

/// A written non-blank `<script>` is read as its element node.
#[verifier::rlimit(40)]
#[verifier::spinoff_prover]
proof fn lemma_script_node(s: Seq<char>, k: int, e: SElement)
    requires
        0 <= k,
        element_name_ok(e.name),
        attrs_ok(e.attrs),
        starts_at(s, k, script_line(e)),
    ensures
        parse_node_spec(s, k, 0) == Ok::<(Option<SNode>, int), crate::parser::XmlError>(
            (Some(SNode::Element(script_element(e))), k + script_line(e).len()),
        ),
{
    let body = direct_text(e.children);
    let r = replace_all(body, cdata_end(), cdata_split());
    let name = e.name;
    let a = attrs_text(e.attrs);
    let closing = seq!['<', '/'] + name + seq!['>'];
    let start = seq!['<'] + name + a + seq!['>'];
    let part = lit_cdata_open() + r + lit_cdata_close() + closing;
    let l = script_line(e);
    assert(l == start + part);
    lemma_starts_split(s, k, start, part);
    lemma_start_tag(s, k, e, '>', 0);
    let ne = k + 1 + name.len();
    let te = ne + a.len();
    lemma_starts_split(s, k, seq!['<'] + name + a, seq!['>']);
    lemma_starts_split(s, k, seq!['<'] + name, a);
    assert(e.attrs.take(0) =~= Seq::<(Seq<char>, Seq<char>)>::empty());
    lemma_attrs_rt(s, ne, name, e.attrs, 0, 0);
    lemma_starts_index(s, te, seq!['>'], 0);
    assert(skip_ws(s, te) == te);
    lemma_cdata_children(s, te + 1, body, Seq::empty(), name, 1);
    assert(Seq::<SNode>::empty() + cdata_pieces(body) =~= cdata_pieces(body));
    assert(parse_element_spec(s, k, 0) == Ok::<(SElement, int), crate::parser::XmlError>(
        (script_element(e), k + l.len()),
    ));
    lemma_starts_index(s, k, l, 0);
    lemma_starts_index(s, k, l, 1);
    assert(l[1] == name[0]);
    assert(!stop_name(name[0]));
    assert(!starts_at(s, k, lit_end_tag())) by {
        assert(s.subrange(k, k + 2)[1] == s[k + 1]);
    }
    assert(!starts_at(s, k, lit_comment_open())) by {
        if k + 4 <= s.len() {
            assert(s.subrange(k, k + 4)[1] == s[k + 1]);
        }
    }
    assert(!starts_at(s, k, lit_cdata_open())) by {
        if k + 9 <= s.len() {
            assert(s.subrange(k, k + 9)[1] == s[k + 1]);
        }
    }
    assert(!starts_at(s, k, lit_pi_open())) by {
        assert(s.subrange(k, k + 2)[1] == s[k + 1]);
    }
    assert(scan(s, k, stop_lt_fn()) == k);
}

/// Reading a written `<script>` whose body is not blank gives back its
/// name, its attributes and its body text (in CDATA sections that
/// concatenate to the body): what `write_script_element` writes,
/// `parse_xml` reads back.
#[verifier::spinoff_prover]
pub proof fn lemma_parse_script_round_trip(e: SElement, depth: nat)
    requires
        element_name_ok(e.name),
        attrs_ok(e.attrs),
        trim(direct_text(e.children)).len() > 0,
    ensures
        parse_xml_spec(script_spec(e, depth)) == Ok::<Seq<SNode>, crate::parser::XmlError>(
            seq![SNode::Element(script_element(e)), SNode::Text(seq!['\n'])],
        ),
        direct_text(script_element(e).children) == direct_text(e.children),
{
    let l = script_line(e);
    let s = indent(depth) + l + seq!['\n'];
    let k = indent(depth).len() as int;
    lemma_script_text(e, depth);
    assert(s.subrange(k, k + l.len()) =~= l);
    lemma_script_node(s, k, e);
    assert(l[1] == e.name[0]);
    lemma_top_line(depth, l, SNode::Element(script_element(e)));
    lemma_cdata_pieces_text(direct_text(e.children));
}

} // verus!
