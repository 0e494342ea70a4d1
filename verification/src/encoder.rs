//! Serialisation of preserved source fragments: verbatim elements
//! (pretty-printed, inline for mixed content, CDATA-wrapped scripts),
//! `<title>` / `<desc>` items, and the attribute lists of re-wrapped
//! `<a>` links and marker references.

use vstd::prelude::*;
use vstd::string::*;

use crate::parser::{
    attrs_model, escape_attr, escape_attr_spec, escape_text_spec, lemma_nodes_model, nodes_model,
    Element, Node, SElement, SNode,
};
use crate::preserved::{DescriptiveText, LinkBinding, MarkerRefBinding};
use crate::strings::{push_char, push_str, str_chars, str_trim, trim};

verus! {

/// `depth` levels of two-space indentation.
pub open spec fn indent(depth: nat) -> Seq<char>
    decreases depth,
{
    if depth == 0 {
        Seq::empty()
    } else {
        indent((depth - 1) as nat) + seq![' ', ' ']
    }
}

/// ` name="value"` with the value attribute-escaped.
pub open spec fn attr_text(name: Seq<char>, value: Seq<char>) -> Seq<char> {
    seq![' '] + name + seq!['=', '"'] + escape_attr_spec(value) + seq!['"']
}

/// The attribute list of a start tag.
pub open spec fn attrs_text(attrs: Seq<(Seq<char>, Seq<char>)>) -> Seq<char>
    decreases attrs.len(),
{
    if attrs.len() == 0 {
        Seq::empty()
    } else {
        attrs_text(attrs.drop_last()) + attr_text(attrs.last().0, attrs.last().1)
    }
}

/// An optional attribute: nothing when absent.
pub open spec fn opt_attr_text(name: Seq<char>, value: Option<String>) -> Seq<char> {
    match value {
        Some(v) => attr_text(name, v@),
        None => Seq::empty(),
    }
}

/// Inline serialisation of an element and its subtree: no indentation
/// and no inserted whitespace; text escaped but otherwise verbatim.
pub open spec fn inline_spec(e: SElement) -> Seq<char>
    decreases e,
{
    seq!['<'] + e.name + attrs_text(e.attrs) + if e.children.len() == 0 {
        seq!['/', '>']
    } else {
        seq!['>'] + inline_children(e.children) + seq!['<', '/'] + e.name + seq!['>']
    }
}

pub open spec fn inline_children(cs: Seq<SNode>) -> Seq<char>
    decreases cs,
{
    if cs.len() == 0 {
        Seq::empty()
    } else {
        inline_children(cs.subrange(0, cs.len() - 1)) + inline_node(cs[cs.len() - 1])
    }
}

pub open spec fn inline_node(n: SNode) -> Seq<char>
    decreases n,
{
    match n {
        SNode::Element(c) => inline_spec(c),
        SNode::Text(t) => escape_text_spec(t),
    }
}

/// Pretty-printed serialisation at `depth`: one element or non-blank
/// (trimmed) text run per line, children indented one level deeper.
pub open spec fn raw_spec(e: SElement, depth: nat) -> Seq<char>
    decreases e,
{
    indent(depth) + seq!['<'] + e.name + attrs_text(e.attrs) + if e.children.len() == 0 {
        seq!['/', '>', '\n']
    } else {
        seq!['>', '\n'] + raw_children(e.children, depth + 1) + indent(depth) + seq!['<', '/']
            + e.name + seq!['>', '\n']
    }
}

pub open spec fn raw_children(cs: Seq<SNode>, depth: nat) -> Seq<char>
    decreases cs,
{
    if cs.len() == 0 {
        Seq::empty()
    } else {
        raw_children(cs.subrange(0, cs.len() - 1), depth) + raw_node(cs[cs.len() - 1], depth)
    }
}

pub open spec fn raw_node(n: SNode, depth: nat) -> Seq<char>
    decreases n,
{
    match n {
        SNode::Element(c) => raw_spec(c, depth),
        SNode::Text(t) => if trim(t).len() > 0 {
            indent(depth) + escape_text_spec(trim(t)) + seq!['\n']
        } else {
            Seq::empty()
        },
    }
}

/// Nesting height of an element (1 for a leaf).
pub open spec fn height(e: SElement) -> nat
    decreases e,
{
    1 + children_height(e.children)
}

pub open spec fn children_height(cs: Seq<SNode>) -> nat
    decreases cs,
{
    if cs.len() == 0 {
        0
    } else {
        let a = children_height(cs.subrange(0, cs.len() - 1));
        let b = match cs[cs.len() - 1] {
            SNode::Element(c) => height(c),
            SNode::Text(_) => 0,
        };
        if a >= b {
            a
        } else {
            b
        }
    }
}

pub proof fn lemma_children_height(cs: Seq<SNode>, i: int)
    requires
        0 <= i < cs.len(),
    ensures
        cs[i] matches SNode::Element(c) ==> height(c) <= children_height(cs),
    decreases cs.len(),
{
    if i < cs.len() - 1 {
        lemma_children_height(cs.subrange(0, cs.len() - 1), i);
    }
}

/// Concatenation of the direct text children.
pub open spec fn direct_text(cs: Seq<SNode>) -> Seq<char>
    decreases cs.len(),
{
    if cs.len() == 0 {
        Seq::empty()
    } else {
        direct_text(cs.drop_last()) + match cs.last() {
            SNode::Text(t) => t,
            SNode::Element(_) => Seq::empty(),
        }
    }
}

/// Left-to-right, non-overlapping replacement of every `pat` by `rep`
/// (`str::replace`).
pub open spec fn replace_all(s: Seq<char>, pat: Seq<char>, rep: Seq<char>) -> Seq<char>
    decreases s.len(),
{
    if s.len() == 0 || pat.len() == 0 {
        s
    } else if pat.len() <= s.len() && s.subrange(0, pat.len() as int) == pat {
        rep + replace_all(s.subrange(pat.len() as int, s.len() as int), pat, rep)
    } else {
        seq![s[0]] + replace_all(s.drop_first(), pat, rep)
    }
}

pub open spec fn cdata_end() -> Seq<char> {
    seq![']', ']', '>']
}

pub open spec fn cdata_split() -> Seq<char> {
    seq![']', ']', ']', ']', '>', '<', '!', '[', 'C', 'D', 'A', 'T', 'A', '[', '>']
}

/// A `<script>` element: its direct text as one CDATA section (with any
/// `]]>` split across two sections), or self-closing when that text is
/// blank.
pub open spec fn script_spec(e: SElement, depth: nat) -> Seq<char> {
    let body = direct_text(e.children);
    indent(depth) + seq!['<'] + e.name + attrs_text(e.attrs) + if trim(body).len() == 0 {
        seq!['/', '>', '\n']
    } else {
        seq!['>', '<', '!', '[', 'C', 'D', 'A', 'T', 'A', '['] + replace_all(body, cdata_end(), cdata_split())
            + seq![']', ']', '>', '<', '/'] + e.name + seq!['>', '\n']
    }
}

/// A `<title>` / `<desc>` item.
pub open spec fn descriptive_spec(tag: Seq<char>, text: Seq<char>, lang: Option<Seq<char>>, depth: nat) -> Seq<
    char,
> {
    indent(depth) + seq!['<'] + tag + match lang {
        Some(l) => attr_text(seq!['l', 'a', 'n', 'g'], l),
        None => Seq::empty(),
    } + if text.len() == 0 {
        seq!['/', '>', '\n']
    } else {
        seq!['>'] + escape_text_spec(text) + seq!['<', '/'] + tag + seq!['>', '\n']
    }
}

pub(crate) fn push_indent(out: &mut String, depth: usize)
    ensures
        final(out)@ == old(out)@ + indent(depth as nat),
{
    let mut k: usize = 0;
    while k < depth
        invariant
            k <= depth,
            out@ == old(out)@ + indent(k as nat),
        decreases depth - k,
    {
        push_char(out, ' ');
        push_char(out, ' ');
        k += 1;
        assert(out@ =~= old(out)@ + indent(k as nat));
    }
}

pub(crate) fn push_attr(out: &mut String, name: &str, value: &str)
    ensures
        final(out)@ == old(out)@ + attr_text(name@, value@),
{
    push_char(out, ' ');
    push_str(out, name);
    push_char(out, '=');
    push_char(out, '"');
    let esc = escape_attr(value);
    push_str(out, esc.as_str());
    push_char(out, '"');
    assert(out@ =~= old(out)@ + attr_text(name@, value@));
}

pub(crate) fn push_opt_attr(out: &mut String, name: &str, value: &Option<String>)
    ensures
        final(out)@ == old(out)@ + opt_attr_text(name@, *value),
{
    match value {
        Some(v) => push_attr(out, name, v.as_str()),
        None => {
            assert(out@ =~= old(out)@ + opt_attr_text(name@, *value));
        },
    }
}

pub(crate) fn push_attrs(out: &mut String, attrs: &Vec<(String, String)>)
    ensures
        final(out)@ == old(out)@ + attrs_text(attrs_model(attrs@)),
{
    let ghost am = attrs_model(attrs@);
    let mut i: usize = 0;
    while i < attrs.len()
        invariant
            i <= attrs.len(),
            am == attrs_model(attrs@),
            out@ == old(out)@ + attrs_text(am.take(i as int)),
        decreases attrs.len() - i,
    {
        push_attr(out, attrs[i].0.as_str(), attrs[i].1.as_str());
        proof {
            assert(am.take(i + 1).drop_last() =~= am.take(i as int));
            assert(am[i as int] == (attrs@[i as int].0@, attrs@[i as int].1@));
        }
        i += 1;
        assert(out@ =~= old(out)@ + attrs_text(am.take(i as int)));
    }
    assert(am.take(i as int) =~= am);
}

/// The text escape used in element content (`<`, `>`, `&`).
fn escape_text(s: &str) -> (r: String)
    ensures
        r@ == escape_text_spec(s@),
{
    crate::parser::escape_text(s)
}

/// Append the link attributes of a re-wrapped `<a>` (the caller has
/// written `<a` and closes the tag): each typed attribute the source
/// carried, then the verbatim extra attributes in document order.
pub fn write_link_attrs(out: &mut String, link: &LinkBinding)
    ensures
        final(out)@ == old(out)@ + opt_attr_text("href"@, link.href) + opt_attr_text(
            "target"@,
            link.target,
        ) + opt_attr_text("download"@, link.download) + opt_attr_text("ping"@, link.ping)
            + opt_attr_text("rel"@, link.rel) + opt_attr_text("hreflang"@, link.hreflang)
            + opt_attr_text("type"@, link.type_) + opt_attr_text(
            "referrerpolicy"@,
            link.referrerpolicy,
        ) + attrs_text(attrs_model(link.extra_attrs@)),
{
    push_opt_attr(out, "href", &link.href);
    push_opt_attr(out, "target", &link.target);
    push_opt_attr(out, "download", &link.download);
    push_opt_attr(out, "ping", &link.ping);
    push_opt_attr(out, "rel", &link.rel);
    push_opt_attr(out, "hreflang", &link.hreflang);
    push_opt_attr(out, "type", &link.type_);
    push_opt_attr(out, "referrerpolicy", &link.referrerpolicy);
    push_attrs(out, &link.extra_attrs);
}

/// Append the `marker-start` / `marker-mid` / `marker-end` references
/// the source carried onto an already-opened tag.
pub fn write_marker_attrs(out: &mut String, binding: &MarkerRefBinding)
    ensures
        final(out)@ == old(out)@ + opt_attr_text("marker-start"@, binding.marker_start)
            + opt_attr_text("marker-mid"@, binding.marker_mid) + opt_attr_text(
            "marker-end"@,
            binding.marker_end,
        ),
{
    push_opt_attr(out, "marker-start", &binding.marker_start);
    push_opt_attr(out, "marker-mid", &binding.marker_mid);
    push_opt_attr(out, "marker-end", &binding.marker_end);
}

/// Emit a `<title>` or `<desc>` item (`tag` names which) at `depth`,
/// with its `lang` when the source carried one; an empty text body
/// emits self-closing.
pub fn write_descriptive(out: &mut String, tag: &str, item: &DescriptiveText, depth: usize)
    ensures
        final(out)@ == old(out)@ + descriptive_spec(
            tag@,
            item.text@,
            match item.lang {
                Some(l) => Some(l@),
                None => None,
            },
            depth as nat,
        ),
{
    proof {
        reveal_strlit("lang");
        assert("lang"@ =~= seq!['l', 'a', 'n', 'g']);
    }
    push_indent(out, depth);
    push_char(out, '<');
    push_str(out, tag);
    if let Some(lang) = &item.lang {
        push_attr(out, "lang", lang.as_str());
    }
    if str_chars(item.text.as_str()).len() == 0 {
        push_char(out, '/');
        push_char(out, '>');
        push_char(out, '\n');
    } else {
        push_char(out, '>');
        let esc = escape_text(item.text.as_str());
        push_str(out, esc.as_str());
        push_char(out, '<');
        push_char(out, '/');
        push_str(out, tag);
        push_char(out, '>');
        push_char(out, '\n');
    }
    assert(out@ =~= old(out)@ + descriptive_spec(
        tag@,
        item.text@,
        match item.lang {
            Some(l) => Some(l@),
            None => None,
        },
        depth as nat,
    ));
}

/// Serialise an [`Element`] verbatim (pretty-printed) at indent level
/// `depth`.
pub fn write_element_verbatim(out: &mut String, el: &Element, depth: usize)
    requires
        depth + height(el.model()) <= usize::MAX,
    ensures
        final(out)@ == old(out)@ + raw_spec(el.model(), depth as nat),
{
    write_raw_element(out, el, depth);
}

/// Serialise an element whose subtree carries mixed content (text
/// interleaved with child elements) on one line at `depth`: the
/// content is written inline so no whitespace is inserted or removed.
pub fn write_mixed_content_element(out: &mut String, el: &Element, depth: usize)
    ensures
        final(out)@ == old(out)@ + indent(depth as nat) + inline_spec(el.model()) + seq!['\n'],
{
    push_indent(out, depth);
    write_inline_element(out, el);
    push_char(out, '\n');
    assert(out@ =~= old(out)@ + indent(depth as nat) + inline_spec(el.model()) + seq!['\n']);
}

/// Inline (no indentation, no inserted whitespace) serialisation of an
/// element and its subtree.
pub fn write_inline_element(out: &mut String, el: &Element)
    ensures
        final(out)@ == old(out)@ + inline_spec(el.model()),
    decreases el,
{
    let ghost m = el.model();
    push_char(out, '<');
    push_str(out, el.name.as_str());
    push_attrs(out, &el.attrs);
    proof {
        lemma_nodes_model(el.children@);
    }
    if el.children.len() == 0 {
        push_char(out, '/');
        push_char(out, '>');
        assert(out@ =~= old(out)@ + inline_spec(m));
        return;
    }
    push_char(out, '>');
    let ghost mid = out@;
    let mut i: usize = 0;
    while i < el.children.len()
        invariant
            i <= el.children.len(),
            m == el.model(),
            m.children == nodes_model(el.children@),
            m.children.len() == el.children@.len(),
            forall|k: int| 0 <= k < el.children@.len() ==> #[trigger] m.children[k] == el.children@[k].model(),
            out@ == mid + inline_children(m.children.take(i as int)),
        decreases el.children.len() - i,
    {
        let ghost before = out@;
        let ghost cm = m.children[i as int];
        match &el.children[i] {
            Node::Element(c) => {
                write_inline_element(out, c);
                assert(cm == SNode::Element(c.model()));
            },
            Node::Text(t) => {
                let esc = escape_text(t.as_str());
                push_str(out, esc.as_str());
                assert(cm == SNode::Text(t@));
            },
        }
        proof {
            assert(m.children.take(i + 1).subrange(0, i as int) =~= m.children.take(i as int));
            assert(m.children.take(i + 1)[i as int] == cm);
            assert(out@ == before + inline_node(cm));
        }
        i += 1;
    }
    assert(m.children.take(i as int) =~= m.children);
    push_char(out, '<');
    push_char(out, '/');
    push_str(out, el.name.as_str());
    push_char(out, '>');
    assert(out@ =~= old(out)@ + inline_spec(m));
}

/// Pretty-printed verbatim serialisation of an element at `depth`.
fn write_raw_element(out: &mut String, el: &Element, depth: usize)
    requires
        depth + height(el.model()) <= usize::MAX,
    ensures
        final(out)@ == old(out)@ + raw_spec(el.model(), depth as nat),
    decreases el,
{
    let ghost m = el.model();
    push_indent(out, depth);
    push_char(out, '<');
    push_str(out, el.name.as_str());
    push_attrs(out, &el.attrs);
    proof {
        lemma_nodes_model(el.children@);
    }
    if el.children.len() == 0 {
        push_char(out, '/');
        push_char(out, '>');
        push_char(out, '\n');
        assert(out@ =~= old(out)@ + raw_spec(m, depth as nat));
        return;
    }
    push_char(out, '>');
    push_char(out, '\n');
    let ghost mid = out@;
    let mut i: usize = 0;
    while i < el.children.len()
        invariant
            i <= el.children.len(),
            m == el.model(),
            depth + height(m) <= usize::MAX,
            m.children == nodes_model(el.children@),
            m.children.len() == el.children@.len(),
            forall|k: int| 0 <= k < el.children@.len() ==> #[trigger] m.children[k] == el.children@[k].model(),
            out@ == mid + raw_children(m.children.take(i as int), (depth + 1) as nat),
        decreases el.children.len() - i,
    {
        proof {
            lemma_children_height(m.children, i as int);
        }
        let ghost before = out@;
        let ghost cm = m.children[i as int];
        match &el.children[i] {
            Node::Element(c) => {
                assert(cm == SNode::Element(c.model()));
                write_raw_element(out, c, depth + 1);
            },
            Node::Text(t) => {
                assert(cm == SNode::Text(t@));
                let trimmed = str_trim(t.as_str());
                if str_chars(trimmed).len() > 0 {
                    push_indent(out, depth + 1);
                    let esc = escape_text(trimmed);
                    push_str(out, esc.as_str());
                    push_char(out, '\n');
                }
                assert(out@ =~= before + raw_node(cm, (depth + 1) as nat));
            },
        }
        proof {
            assert(m.children.take(i + 1).subrange(0, i as int) =~= m.children.take(i as int));
            assert(m.children.take(i + 1)[i as int] == cm);
            assert(out@ == before + raw_node(cm, (depth + 1) as nat));
        }
        i += 1;
    }
    assert(m.children.take(i as int) =~= m.children);
    push_indent(out, depth);
    push_char(out, '<');
    push_char(out, '/');
    push_str(out, el.name.as_str());
    push_char(out, '>');
    push_char(out, '\n');
    assert(out@ =~= old(out)@ + raw_spec(m, depth as nat));
}

} // verus!

verus! {

proof fn lemma_direct_text_step(cs: Seq<SNode>, i: int)
    requires
        0 <= i < cs.len(),
    ensures
        direct_text(cs.take(i + 1)) == direct_text(cs.take(i)) + match cs[i] {
            SNode::Text(t) => t,
            SNode::Element(_) => Seq::empty(),
        },
{
    assert(cs.take(i + 1).drop_last() =~= cs.take(i));
}

/// `str::replace(pat, rep)` on the characters `v`.
pub(crate) fn replace_chars(v: &Vec<char>, pat: &str, rep: &str) -> (r: String)
    requires
        pat@.len() > 0,
    ensures
        r@ == replace_all(v@, pat@, rep@),
{
    let p = str_chars(pat);
    let mut out = String::new();
    let mut i: usize = 0;
    assert(v@.subrange(0, v@.len() as int) =~= v@);
    while i < v.len()
        invariant
            i <= v.len(),
            p@ == pat@,
            p@.len() > 0,
            out@ + replace_all(v@.subrange(i as int, v@.len() as int), pat@, rep@) == replace_all(
                v@,
                pat@,
                rep@,
            ),
        decreases v.len() - i,
    {
        let ghost t = v@.subrange(i as int, v@.len() as int);
        let mut is_match: bool = p.len() <= v.len() - i;
        let mut k: usize = 0;
        while is_match && k < p.len()
            invariant
                k <= p.len(),
                p@ == pat@,
                i <= v.len(),
                is_match ==> p.len() <= v.len() - i,
                is_match ==> forall|m: int| 0 <= m < k ==> v@[i + m] == pat@[m],
                !is_match ==> !(pat@.len() <= t.len() && t.subrange(0, pat@.len() as int) == pat@),
                t == v@.subrange(i as int, v@.len() as int),
            decreases p.len() - k + if is_match {
                1int
            } else {
                0int
            },
        {
            if v[i + k] != p[k] {
                assert(t.subrange(0, pat@.len() as int)[k as int] != pat@[k as int]);
                is_match = false;
            } else {
                k += 1;
            }
        }
        if is_match {
            assert(t.subrange(0, pat@.len() as int) =~= pat@);
            assert(t.subrange(pat@.len() as int, t.len() as int) =~= v@.subrange(
                (i + p.len()) as int,
                v@.len() as int,
            ));
            push_str(&mut out, rep);
            i += p.len();
        } else {
            assert(t.drop_first() =~= v@.subrange(i + 1, v@.len() as int));
            push_char(&mut out, v[i]);
            i += 1;
        }
    }
    assert(v@.subrange(i as int, v@.len() as int) =~= Seq::<char>::empty());
    out
}

/// Emit a `<script>` element with its body wrapped in CDATA so `<` and
/// `&` in the code survive a later parse; a `]]>` inside the body is
/// split across two CDATA sections. A blank body emits self-closing.
pub fn write_script_element(out: &mut String, el: &Element, depth: usize)
    ensures
        final(out)@ == old(out)@ + script_spec(el.model(), depth as nat),
{
    let ghost m = el.model();
    proof {
        lemma_nodes_model(el.children@);
        reveal_strlit("]]>");
        reveal_strlit("]]]]><![CDATA[>");
        reveal_strlit("><![CDATA[");
        reveal_strlit("]]></");
        assert("]]>"@ =~= cdata_end());
        assert("]]]]><![CDATA[>"@ =~= cdata_split());
    }
    push_indent(out, depth);
    push_char(out, '<');
    push_str(out, el.name.as_str());
    push_attrs(out, &el.attrs);
    let mut body: Vec<char> = Vec::new();
    let mut i: usize = 0;
    while i < el.children.len()
        invariant
            i <= el.children.len(),
            m == el.model(),
            m.children == nodes_model(el.children@),
            m.children.len() == el.children@.len(),
            forall|k: int| 0 <= k < el.children@.len() ==> #[trigger] m.children[k] == el.children@[k].model(),
            body@ == direct_text(m.children.take(i as int)),
        decreases el.children.len() - i,
    {
        proof {
            lemma_direct_text_step(m.children, i as int);
        }
        if let Node::Text(t) = &el.children[i] {
            assert(m.children[i as int] == SNode::Text(t@));
            let tv = str_chars(t.as_str());
            let mut k: usize = 0;
            let ghost b0 = body@;
            while k < tv.len()
                invariant
                    k <= tv.len(),
                    body@ == b0 + tv@.take(k as int),
                decreases tv.len() - k,
            {
                body.push(tv[k]);
                k += 1;
                assert(body@ =~= b0 + tv@.take(k as int));
            }
            assert(tv@.take(k as int) =~= t@);
        } else {
            assert(body@ =~= direct_text(m.children.take(i + 1)));
        }
        i += 1;
    }
    assert(m.children.take(i as int) =~= m.children);
    let body_str = replace_chars(&body, "]]>", "]]]]><![CDATA[>");
    let mut a: usize = 0;
    let mut blank: bool = true;
    while a < body.len()
        invariant
            a <= body.len(),
            blank <==> (forall|k: int| 0 <= k < a ==> crate::strings::is_unicode_ws(#[trigger] body@[k])),
        decreases body.len() - a,
    {
        if !crate::strings::char_is_whitespace(body[a]) {
            blank = false;
        }
        a += 1;
    }
    proof {
        crate::strings::lemma_first_non_ws(body@, 0);
        crate::strings::lemma_last_non_ws(body@, crate::strings::first_non_ws(body@, 0), body@.len() as int);
        if blank {
            if crate::strings::first_non_ws(body@, 0) < body@.len() {
                assert(crate::strings::is_unicode_ws(body@[crate::strings::first_non_ws(body@, 0)]));
            }
            assert(trim(body@).len() == 0);
        } else {
            let w = choose|k: int| 0 <= k < body@.len() && !crate::strings::is_unicode_ws(body@[k]);
            assert(0 <= w < body@.len() && !crate::strings::is_unicode_ws(body@[w]));
            assert(crate::strings::first_non_ws(body@, 0) <= w);
            assert(crate::strings::last_non_ws(body@, crate::strings::first_non_ws(body@, 0), body@.len() as int) > w);
            assert(trim(body@).len() > 0);
        }
    }
    if blank {
        push_char(out, '/');
        push_char(out, '>');
        push_char(out, '\n');
    } else {
        push_str(out, "><![CDATA[");
        push_str(out, body_str.as_str());
        push_str(out, "]]></");
        push_str(out, el.name.as_str());
        push_char(out, '>');
        push_char(out, '\n');
    }
    assert(out@ =~= old(out)@ + script_spec(m, depth as nat));
}

} // verus!
