//! The reader reads back what the pretty-printing verbatim writer writes,
//! up to whitespace: the writer indents and puts one element or text
//! run per line, so the reader sees whitespace text runs between the
//! elements and around each text; with text runs trimmed and blank runs
//! dropped, the element read is the element written (for elements that
//! nest no deeper than `MAX_XML_DEPTH`).

use vstd::prelude::*;

use crate::encoder::{
    attrs_text, children_height, height, indent, lemma_children_height, raw_children, raw_node,
    raw_spec,
};
use crate::parser::{
    children_spec, decode_spec, escape_text_spec, lemma_decode_escape_text, lemma_decode_plain,
    lit_cdata_open, lit_comment_open, lit_end_tag, lit_pi_open, parse_element_spec,
    parse_node_spec, parse_xml_spec, scan, skip_ws, starts_at, stop_lt_fn, stop_name, SElement,
    SNode, MAX_XML_DEPTH,
};
use crate::round_trip::{
    attrs_ok, element_name_ok, lemma_attrs_rt, lemma_children_step, lemma_escape_text_chars,
    lemma_find_gt_exact, lemma_scan_exact, lemma_start_tag, lemma_starts_index, lemma_starts_split,
    lemma_top_line, lemma_wf_children, wf_children, wf_element, wf_node,
};
use crate::strings::{
    first_non_ws, is_unicode_ws, last_non_ws, lemma_first_non_ws, lemma_last_non_ws, trim,
};

verus! {

/// A tree with its text runs trimmed and its blank text runs dropped.
pub open spec fn norm_element(e: SElement) -> SElement
    decreases e,
{
    SElement { name: e.name, attrs: e.attrs, children: norm_children(e.children) }
}

pub open spec fn norm_children(cs: Seq<SNode>) -> Seq<SNode>
    decreases cs,
{
    if cs.len() == 0 {
        Seq::empty()
    } else {
        norm_node(cs[0]) + norm_children(cs.subrange(1, cs.len() as int))
    }
}

pub open spec fn norm_node(n: SNode) -> Seq<SNode>
    decreases n,
{
    match n {
        SNode::Element(c) => seq![SNode::Element(norm_element(c))],
        SNode::Text(t) => if trim(t).len() == 0 {
            Seq::empty()
        } else {
            seq![SNode::Text(trim(t))]
        },
    }
}

/// `raw_spec` without its indentation.
pub open spec fn raw_tag(e: SElement, depth: nat) -> Seq<char> {
    seq!['<'] + e.name + attrs_text(e.attrs) + if e.children.len() == 0 {
        seq!['/', '>', '\n']
    } else {
        seq!['>', '\n'] + raw_children(e.children, depth + 1) + indent(depth) + seq!['<', '/']
            + e.name + seq!['>', '\n']
    }
}

#[verifier::spinoff_prover]
proof fn lemma_raw_spec_split(e: SElement, depth: nat)
    ensures
        raw_spec(e, depth) == indent(depth) + raw_tag(e, depth),
{
    assert(raw_spec(e, depth) =~= indent(depth) + raw_tag(e, depth));
}

#[verifier::spinoff_prover]
proof fn lemma_norm_children_append(a: Seq<SNode>, b: Seq<SNode>)
    ensures
        norm_children(a + b) == norm_children(a) + norm_children(b),
    decreases a.len(),
{
    if a.len() == 0 {
        assert(a + b =~= b);
        assert(Seq::<SNode>::empty() + norm_children(b) =~= norm_children(b));
    } else {
        let a1 = a.subrange(1, a.len() as int);
        lemma_norm_children_append(a1, b);
        assert((a + b).subrange(1, (a + b).len() as int) =~= a1 + b);
        assert((a + b)[0] == a[0]);
        assert(norm_node(a[0]) + (norm_children(a1) + norm_children(b)) =~= (norm_node(a[0])
            + norm_children(a1)) + norm_children(b));
    }
}

#[verifier::spinoff_prover]
proof fn lemma_norm_children_single(n: SNode)
    ensures
        norm_children(seq![n]) == norm_node(n),
{
    assert(seq![n].subrange(1, 1) =~= Seq::<SNode>::empty());
    assert(norm_children(Seq::<SNode>::empty()) == Seq::<SNode>::empty());
    assert(norm_node(n) + Seq::<SNode>::empty() =~= norm_node(n));
}

#[verifier::spinoff_prover]
proof fn lemma_raw_children_append(a: Seq<SNode>, b: Seq<SNode>, d: nat)
    ensures
        raw_children(a + b, d) == raw_children(a, d) + raw_children(b, d),
    decreases b.len(),
{
    if b.len() == 0 {
        assert(a + b =~= a);
        assert(raw_children(a, d) + Seq::<char>::empty() =~= raw_children(a, d));
    } else {
        let bi = b.subrange(0, b.len() - 1);
        lemma_raw_children_append(a, bi, d);
        assert((a + b).subrange(0, (a + b).len() - 1) =~= a + bi);
        assert((a + b)[(a + b).len() - 1] == b[b.len() - 1]);
    }
}

#[verifier::spinoff_prover]
proof fn lemma_raw_children_single(n: SNode, d: nat)
    ensures
        raw_children(seq![n], d) == raw_node(n, d),
{
    assert(seq![n].subrange(0, 0) =~= Seq::<SNode>::empty());
    assert(raw_children(Seq::<SNode>::empty(), d) == Seq::<char>::empty());
    assert(seq![n][0] == n);
    assert(raw_children(seq![n], d) =~= Seq::<char>::empty() + raw_node(n, d));
}

/// Reading a run of the children does not depend on what was read
/// before it.
#[verifier::spinoff_prover]
proof fn lemma_children_acc(s: Seq<char>, p: int, acc: Seq<SNode>, pd: nat)
    ensures
        children_spec(s, p, acc, pd) == match children_spec(s, p, Seq::empty(), pd) {
            Ok((x, q)) => Ok((acc + x, q)),
            Err(e) => Err(e),
        },
    decreases s.len() - p,
{
    if p < 0 || p >= s.len() {
        assert(acc + Seq::<SNode>::empty() =~= acc);
    } else if starts_at(s, p, lit_end_tag()) {
        assert(acc + Seq::<SNode>::empty() =~= acc);
    } else {
        match parse_node_spec(s, p, pd) {
            Err(_) => {},
            Ok((None, q)) => {
                assert(acc + Seq::<SNode>::empty() =~= acc);
            },
            Ok((Some(n), q)) => {
                if p < q <= s.len() {
                    lemma_children_acc(s, q, acc.push(n), pd);
                    lemma_children_acc(s, q, Seq::<SNode>::empty().push(n), pd);
                    match children_spec(s, q, Seq::empty(), pd) {
                        Ok((x, r)) => {
                            assert(acc.push(n) + x =~= acc + (Seq::<SNode>::empty().push(n) + x));
                        },
                        Err(_) => {},
                    }
                } else {
                    assert(acc.push(n) =~= acc + Seq::<SNode>::empty().push(n));
                }
            },
        }
    }
}

#[verifier::spinoff_prover]
proof fn lemma_decode_prefix_plain(w: Seq<char>, rest: Seq<char>)
    requires
        forall|i: int| 0 <= i < w.len() ==> #[trigger] w[i] != '&',
    ensures
        decode_spec(w + rest) == w + decode_spec(rest),
    decreases w.len(),
{
    if w.len() > 0 {
        let t = w + rest;
        assert(t[0] == w[0]);
        assert(t.drop_first() =~= w.drop_first() + rest);
        assert forall|i: int| 0 <= i < w.drop_first().len() implies #[trigger] w.drop_first()[i] != '&' by {
            assert(w.drop_first()[i] == w[i + 1]);
        }
        lemma_decode_prefix_plain(w.drop_first(), rest);
        assert(seq![w[0]] + (w.drop_first() + decode_spec(rest)) =~= w + decode_spec(rest));
    } else {
        assert(w + rest =~= rest);
        assert(w + decode_spec(rest) =~= decode_spec(rest));
    }
}

#[verifier::spinoff_prover]
proof fn lemma_decode_escape_prefix(t: Seq<char>, rest: Seq<char>)
    ensures
        decode_spec(escape_text_spec(t) + rest) == t + decode_spec(rest),
    decreases t.len(),
{
    if t.len() == 0 {
        assert(escape_text_spec(t) + rest =~= rest);
        assert(t + decode_spec(rest) =~= decode_spec(rest));
    } else {
        lemma_decode_escape_prefix(t.drop_first(), rest);
        let e = crate::parser::esc_text_char(t[0]);
        assert(escape_text_spec(t) + rest =~= e + (escape_text_spec(t.drop_first()) + rest));
        crate::parser::lemma_decode_escaped_char(e, t[0], escape_text_spec(t.drop_first()) + rest);
        assert(seq![t[0]] + (t.drop_first() + decode_spec(rest)) =~= t + decode_spec(rest));
    }
}

/// Spaces and line breaks only.
pub open spec fn layout_ws(w: Seq<char>) -> bool {
    forall|i: int| 0 <= i < w.len() ==> (#[trigger] w[i] == ' ' || w[i] == '\n')
}

#[verifier::spinoff_prover]
proof fn lemma_first_non_ws_at(s: Seq<char>, i: int, k: int)
    requires
        0 <= i <= k <= s.len(),
        forall|m: int| i <= m < k ==> is_unicode_ws(#[trigger] s[m]),
        k < s.len() ==> !is_unicode_ws(s[k]),
    ensures
        first_non_ws(s, i) == k,
    decreases k - i,
{
    if i < k {
        lemma_first_non_ws_at(s, i + 1, k);
    }
}

#[verifier::spinoff_prover]
proof fn lemma_last_non_ws_at(s: Seq<char>, lo: int, j: int, k: int)
    requires
        0 <= lo <= k <= j <= s.len(),
        forall|m: int| k <= m < j ==> is_unicode_ws(#[trigger] s[m]),
        k > lo ==> !is_unicode_ws(s[k - 1]),
    ensures
        last_non_ws(s, lo, j) == k,
    decreases j - k,
{
    if k < j {
        lemma_last_non_ws_at(s, lo, j - 1, k);
    }
}

#[verifier::spinoff_prover]
proof fn lemma_trim_around(w1: Seq<char>, x: Seq<char>, w2: Seq<char>)
    requires
        layout_ws(w1),
        layout_ws(w2),
        x.len() > 0,
        !is_unicode_ws(x[0]),
        !is_unicode_ws(x.last()),
    ensures
        trim(w1 + x + w2) == x,
{
    let s = w1 + x + w2;
    let a = w1.len() as int;
    let b = a + x.len();
    assert forall|m: int| 0 <= m < a implies is_unicode_ws(#[trigger] s[m]) by {
        assert(s[m] == w1[m]);
    }
    assert(s[a] == x[0]);
    lemma_first_non_ws_at(s, 0, a);
    assert forall|m: int| b <= m < s.len() implies is_unicode_ws(#[trigger] s[m]) by {
        assert(s[m] == w2[m - b]);
    }
    assert(s[b - 1] == x.last());
    lemma_last_non_ws_at(s, a, s.len() as int, b);
    assert(s.subrange(a, b) =~= x);
}

#[verifier::spinoff_prover]
proof fn lemma_trim_blank(w: Seq<char>)
    requires
        layout_ws(w),
    ensures
        trim(w).len() == 0,
{
    lemma_first_non_ws(w, 0);
    let a = first_non_ws(w, 0);
    if a < w.len() {
        assert(w[a] == ' ' || w[a] == '\n');
    }
    lemma_last_non_ws(w, a, w.len() as int);
}

#[verifier::spinoff_prover]
proof fn lemma_trim_ends(t: Seq<char>)
    requires
        trim(t).len() > 0,
    ensures
        !is_unicode_ws(trim(t)[0]),
        !is_unicode_ws(trim(t).last()),
{
    lemma_first_non_ws(t, 0);
    let a = first_non_ws(t, 0);
    lemma_last_non_ws(t, a, t.len() as int);
    let b = last_non_ws(t, a, t.len() as int);
    assert(trim(t)[0] == t[a]);
    assert(trim(t).last() == t[b - 1]);
}

#[verifier::spinoff_prover]
proof fn lemma_indent_layout(d: nat)
    ensures
        layout_ws(indent(d)),
{
    crate::round_trip::lemma_indent_ws(d);
}

/// A whitespace run around an optional trimmed text, as the writer puts
/// it between two tags, is read as one text node that normalises like
/// the text child.
#[verifier::rlimit(40)]
#[verifier::spinoff_prover]
proof fn lemma_run(s: Seq<char>, p: int, x: Seq<char>, w: Seq<char>, d: nat, n: Seq<SNode>, pd: nat)
    requires
        0 <= p,
        layout_ws(w),
        n == (if x.len() == 0 {
            Seq::<SNode>::empty()
        } else {
            seq![SNode::Text(x)]
        }),
        x.len() > 0 ==> !is_unicode_ws(x[0]) && !is_unicode_ws(x.last()),
        starts_at(
            s,
            p,
            seq!['\n'] + (if x.len() == 0 {
                Seq::<char>::empty()
            } else {
                indent(d) + escape_text_spec(x) + seq!['\n']
            }) + w + seq!['<'],
        ),
    ensures
        ({
            let run = seq!['\n'] + (if x.len() == 0 {
                Seq::<char>::empty()
            } else {
                indent(d) + escape_text_spec(x) + seq!['\n']
            }) + w;
            &&& parse_node_spec(s, p, pd) matches Ok((Some(SNode::Text(dr)), q)) && q == p + run.len()
                && norm_node(SNode::Text(dr)) == n
            &&& !starts_at(s, p, lit_end_tag())
        }),
{
    let mid = if x.len() == 0 {
        Seq::<char>::empty()
    } else {
        indent(d) + escape_text_spec(x) + seq!['\n']
    };
    let run = seq!['\n'] + mid + w;
    let q = p + run.len();
    lemma_starts_split(s, p, run, seq!['<']);
    lemma_starts_index(s, q, seq!['<'], 0);
    lemma_starts_index(s, p, run, 0);
    lemma_escape_text_chars(x);
    lemma_indent_layout(d);
    assert forall|i: int| p <= i < q implies !stop_lt_fn()(#[trigger] s[i]) by {
        lemma_starts_index(s, p, run, i - p);
        let k = i - p;
        if k >= 1 && k < 1 + mid.len() && x.len() > 0 {
            let k2 = k - 1;
            if k2 >= indent(d).len() && k2 < indent(d).len() + escape_text_spec(x).len() {
                assert(mid[k2] == escape_text_spec(x)[k2 - indent(d).len()]);
            }
        }
    }
    lemma_scan_exact(s, p, q, stop_lt_fn());
    assert(s.subrange(p, q) =~= run);
    assert(!starts_at(s, p, lit_end_tag())) by {
        assert(s.subrange(p, p + 2)[0] == s[p]);
    }
    // What the run decodes to, and its trimmed form.
    if x.len() == 0 {
        assert(run =~= seq!['\n'] + w);
        assert(layout_ws(run));
        assert forall|i: int| 0 <= i < run.len() implies #[trigger] run[i] != '&' by {}
        lemma_decode_plain(run);
        lemma_trim_blank(run);
    } else {
        let w1 = seq!['\n'] + indent(d);
        let w2 = seq!['\n'] + w;
        assert(run =~= w1 + (escape_text_spec(x) + w2));
        assert(layout_ws(w1));
        assert(layout_ws(w2));
        assert forall|i: int| 0 <= i < w1.len() implies #[trigger] w1[i] != '&' by {}
        assert forall|i: int| 0 <= i < w2.len() implies #[trigger] w2[i] != '&' by {}
        lemma_decode_prefix_plain(w1, escape_text_spec(x) + w2);
        lemma_decode_escape_prefix(x, w2);
        lemma_decode_plain(w2);
        assert(decode_spec(run) == w1 + (x + w2));
        assert(w1 + (x + w2) =~= w1 + x + w2);
        lemma_trim_around(w1, x, w2);
    }
}

/// The reader reads a pretty-printed element back, up to whitespace; it
/// stops before the writer's final line break.
#[verifier::spinoff_prover]
proof fn lemma_raw_element(s: Seq<char>, p: int, e: SElement, d: nat, pd: nat)
    requires
        wf_element(e),
        0 <= p,
        starts_at(s, p, raw_tag(e, d)),
        pd + height(e) <= MAX_XML_DEPTH,
    ensures
        parse_element_spec(s, p, pd) matches Ok((e2, q)) && q == p + raw_tag(e, d).len() - 1
            && norm_element(e2) == norm_element(e),
    decreases e, 0int,
{
    let name = e.name;
    let a = attrs_text(e.attrs);
    let head = seq!['<'] + name + a;
    let ne = p + 1 + name.len();
    let te = ne + a.len();
    assert(e.attrs.take(0) =~= Seq::<(Seq<char>, Seq<char>)>::empty());
    if e.children.len() == 0 {
        let tail = seq!['/', '>', '\n'];
        assert(raw_tag(e, d) =~= (head + seq!['/']) + seq!['>', '\n']);
        lemma_starts_split(s, p, head + seq!['/'], seq!['>', '\n']);
        lemma_start_tag(s, p, e, '/', pd);
        assert(raw_tag(e, d) =~= head + tail);
        lemma_starts_split(s, p, head, tail);
        lemma_starts_split(s, p, seq!['<'] + name, a);
        lemma_attrs_rt(s, ne, name, e.attrs, 0, pd);
        lemma_starts_index(s, te, tail, 0);
        lemma_starts_index(s, te, tail, 1);
        assert(skip_ws(s, te) == te);
        assert(skip_ws(s, te + 1) == te + 1);
        assert(e.children =~= Seq::<SNode>::empty());
        assert(norm_children(Seq::<SNode>::empty()) == Seq::<SNode>::empty());
    } else {
        let rc = raw_children(e.children, d + 1);
        let closing = seq!['<', '/'] + name + seq!['>'];
        let rest = rc + indent(d) + closing;
        assert(raw_tag(e, d) =~= (head + seq!['>']) + (seq!['\n'] + rest + seq!['\n']));
        lemma_starts_split(s, p, head + seq!['>'], seq!['\n'] + rest + seq!['\n']);
        lemma_start_tag(s, p, e, '>', pd);
        lemma_starts_split(s, p, head, seq!['>']);
        lemma_starts_split(s, p, seq!['<'] + name, a);
        lemma_attrs_rt(s, ne, name, e.attrs, 0, pd);
        lemma_starts_index(s, te, seq!['>'], 0);
        assert(skip_ws(s, te) == te);
        let g = te + 1;
        assert(seq!['\n'] + rest + seq!['\n'] =~= seq!['\n'] + (rest + seq!['\n']));
        lemma_starts_split(s, g, seq!['\n'], rest + seq!['\n']);
        lemma_starts_split(s, g + 1, rest, seq!['\n']);
        lemma_starts_index(s, g, seq!['\n'], 0);
        assert(e.children.subrange(0, e.children.len() as int) =~= e.children);
        lemma_raw_children(s, g, e.children, 0, d, name, pd + 1);
    }
}

/// An element node read where the writer put one.
#[verifier::spinoff_prover]
proof fn lemma_raw_node(s: Seq<char>, t: int, c: SElement, d: nat, pd: nat)
    requires
        wf_element(c),
        0 <= t,
        starts_at(s, t, raw_tag(c, d)),
        pd + height(c) <= MAX_XML_DEPTH,
    ensures
        parse_node_spec(s, t, pd) matches Ok((Some(SNode::Element(c2)), q)) && q == t + raw_tag(c, d).len()
            - 1 && norm_element(c2) == norm_element(c),
        !starts_at(s, t, lit_end_tag()),
    decreases c, 1int,
{
    let l = raw_tag(c, d);
    assert(l[0] == '<');
    assert(l[1] == c.name[0]);
    lemma_starts_index(s, t, l, 0);
    lemma_starts_index(s, t, l, 1);
    assert(!stop_name(c.name[0]));
    assert(!starts_at(s, t, lit_end_tag())) by {
        assert(s.subrange(t, t + 2)[1] == s[t + 1]);
    }
    assert(!starts_at(s, t, lit_comment_open())) by {
        if t + 4 <= s.len() {
            assert(s.subrange(t, t + 4)[1] == s[t + 1]);
        }
    }
    assert(!starts_at(s, t, lit_cdata_open())) by {
        if t + 9 <= s.len() {
            assert(s.subrange(t, t + 9)[1] == s[t + 1]);
        }
    }
    assert(!starts_at(s, t, lit_pi_open())) by {
        assert(s.subrange(t, t + 2)[1] == s[t + 1]);
    }
    assert(scan(s, t, stop_lt_fn()) == t);
    lemma_raw_element(s, t, c, d, pd);
}

/// The optional text child at `i` of pretty-printed children, as the
/// writer puts it and as it normalises.
pub open spec fn lead_text(cs: Seq<SNode>, i: int) -> Seq<char> {
    if 0 <= i < cs.len() && cs[i] is Text {
        trim(cs[i]->Text_0)
    } else {
        Seq::empty()
    }
}

/// The index of the first child at or after `i` that is not the leading
/// text.
pub open spec fn after_lead(cs: Seq<SNode>, i: int) -> int {
    if 0 <= i < cs.len() && cs[i] is Text {
        i + 1
    } else {
        i
    }
}

pub open spec fn text_line(x: Seq<char>, d: nat) -> Seq<char> {
    if x.len() == 0 {
        Seq::empty()
    } else {
        indent(d) + escape_text_spec(x) + seq!['\n']
    }
}

pub open spec fn text_nodes(x: Seq<char>) -> Seq<SNode> {
    if x.len() == 0 {
        Seq::empty()
    } else {
        seq![SNode::Text(x)]
    }
}

/// The children from `i` are the leading text, then the rest.
#[verifier::spinoff_prover]
proof fn lemma_post_split(cs: Seq<SNode>, i: int, d: nat)
    requires
        0 <= i <= cs.len(),
    ensures
        raw_children(cs.subrange(i, cs.len() as int), d) == text_line(lead_text(cs, i), d)
            + raw_children(cs.subrange(after_lead(cs, i), cs.len() as int), d),
        norm_children(cs.subrange(i, cs.len() as int)) == text_nodes(lead_text(cs, i))
            + norm_children(cs.subrange(after_lead(cs, i), cs.len() as int)),
        lead_text(cs, i).len() > 0 ==> !is_unicode_ws(lead_text(cs, i)[0]) && !is_unicode_ws(
            lead_text(cs, i).last(),
        ),
{
    let n = cs.len() as int;
    let post = cs.subrange(i, n);
    let j = after_lead(cs, i);
    let x = lead_text(cs, i);
    if i < n && cs[i] is Text {
        assert(post =~= seq![cs[i]] + cs.subrange(j, n));
        lemma_raw_children_append(seq![cs[i]], cs.subrange(j, n), d);
        lemma_raw_children_single(cs[i], d);
        lemma_norm_children_append(seq![cs[i]], cs.subrange(j, n));
        lemma_norm_children_single(cs[i]);
        if x.len() > 0 {
            lemma_trim_ends(cs[i]->Text_0);
        }
    } else {
        assert(post =~= cs.subrange(j, n));
        assert(Seq::<char>::empty() + raw_children(post, d) =~= raw_children(post, d));
        assert(Seq::<SNode>::empty() + norm_children(post) =~= norm_children(post));
    }
}

/// The characters at `p + off ..` of a text that starts at `p` with
/// `a` are those of `a` from `off`.
#[verifier::spinoff_prover]
proof fn lemma_starts_suffix(s: Seq<char>, p: int, a: Seq<char>, off: int)
    requires
        0 <= p,
        0 <= off <= a.len(),
        starts_at(s, p, a),
    ensures
        starts_at(s, p + off, a.subrange(off, a.len() as int)),
{
    assert(a =~= a.subrange(0, off) + a.subrange(off, a.len() as int));
    lemma_starts_split(s, p, a.subrange(0, off), a.subrange(off, a.len() as int));
}

/// The last children: the leading text, then the end tag.
#[verifier::rlimit(40)]
#[verifier::spinoff_prover]
proof fn lemma_children_tail(s: Seq<char>, p: int, x: Seq<char>, d: nat, name: Seq<char>, pd: nat)
    requires
        element_name_ok(name),
        0 <= p,
        p < s.len() && s[p] == '\n',
        x.len() > 0 ==> !is_unicode_ws(x[0]) && !is_unicode_ws(x.last()),
        starts_at(s, p + 1, text_line(x, d + 1) + indent(d) + (seq!['<', '/'] + name + seq!['>'])),
    ensures
        children_spec(s, p, Seq::empty(), pd) matches Ok((ps, end)) && norm_children(ps) == text_nodes(x)
            && end == p + 1 + text_line(x, d + 1).len() + indent(d).len() + name.len() + 3,
{
    let closing = seq!['<', '/'] + name + seq!['>'];
    let mid = text_line(x, d + 1);
    let w = indent(d);
    lemma_indent_layout(d);
    let whole = mid + w + closing;
    assert(seq!['\n'] + whole =~= (seq!['\n'] + mid + w + seq!['<']) + closing.subrange(1, closing.len() as int));
    assert(starts_at(s, p, seq!['\n'] + whole)) by {
        assert(s.subrange(p, p + 1) =~= seq!['\n']);
        assert forall|m: int| 0 <= m < (seq!['\n'] + whole).len() implies #[trigger] s.subrange(p, p + (seq!['\n'] + whole).len())[m]
            == (seq!['\n'] + whole)[m] by {
            if m >= 1 {
                lemma_starts_index(s, p + 1, whole, m - 1);
            }
        }
        assert(s.subrange(p, p + (seq!['\n'] + whole).len()) =~= seq!['\n'] + whole);
    }
    lemma_starts_split(s, p, seq!['\n'] + mid + w + seq!['<'], closing.subrange(1, closing.len() as int));
    lemma_run(s, p, x, w, d + 1, text_nodes(x), pd);
    let t = p + 1 + mid.len() + w.len();
    lemma_starts_suffix(s, p + 1, whole, (mid.len() + w.len()) as int);
    assert(whole.subrange((mid.len() + w.len()) as int, whole.len() as int) =~= closing);
    let ce = t + 2 + name.len();
    lemma_starts_index(s, t, closing, 0);
    lemma_starts_index(s, t, closing, 1);
    assert(s.subrange(t, t + 2) =~= lit_end_tag());
    assert forall|m: int| t <= m < ce implies #[trigger] s[m] != '>' by {
        lemma_starts_index(s, t, closing, m - t);
        if m >= t + 2 {
            assert(closing[m - t] == name[m - t - 2]);
            assert(!stop_name(name[m - t - 2]));
        }
    }
    lemma_starts_index(s, t, closing, 2 + name.len() as int);
    lemma_find_gt_exact(s, t, ce);
    if let Ok((Some(node), q)) = parse_node_spec(s, p, pd) {
        lemma_children_step(s, p, Seq::empty(), node, q, pd);
        lemma_children_acc(s, q, Seq::<SNode>::empty().push(node), pd);
        assert(children_spec(s, q, Seq::<SNode>::empty(), pd) == Ok::<
            (Seq<SNode>, int),
            crate::parser::XmlError,
        >((Seq::<SNode>::empty(), ce + 1)));
        assert(Seq::<SNode>::empty().push(node) + Seq::<SNode>::empty() =~= seq![node]);
        lemma_norm_children_single(node);
    }
}

/// A text node, an element node, then the rest of the children.
#[verifier::spinoff_prover]
proof fn lemma_children_combine(
    s: Seq<char>,
    p: int,
    t: int,
    q: int,
    tnode: SNode,
    enode: SNode,
    ps2: Seq<SNode>,
    end: int,
    pd: nat,
)
    requires
        0 <= p < t < q <= s.len(),
        !starts_at(s, p, lit_end_tag()),
        !starts_at(s, t, lit_end_tag()),
        parse_node_spec(s, p, pd) == Ok::<(Option<SNode>, int), crate::parser::XmlError>((Some(tnode), t)),
        parse_node_spec(s, t, pd) == Ok::<(Option<SNode>, int), crate::parser::XmlError>((Some(enode), q)),
        children_spec(s, q, Seq::empty(), pd) == Ok::<(Seq<SNode>, int), crate::parser::XmlError>((ps2, end)),
    ensures
        children_spec(s, p, Seq::empty(), pd) == Ok::<(Seq<SNode>, int), crate::parser::XmlError>(
            (seq![tnode, enode] + ps2, end),
        ),
        norm_children(seq![tnode, enode] + ps2) == norm_node(tnode) + norm_node(enode) + norm_children(ps2),
{
    lemma_children_step(s, p, Seq::empty(), tnode, t, pd);
    lemma_children_acc(s, t, Seq::<SNode>::empty().push(tnode), pd);
    lemma_children_step(s, t, Seq::empty(), enode, q, pd);
    lemma_children_acc(s, q, Seq::<SNode>::empty().push(enode), pd);
    assert(Seq::<SNode>::empty().push(tnode) + (Seq::<SNode>::empty().push(enode) + ps2) =~= seq![tnode, enode] + ps2);
    assert(seq![tnode, enode] + ps2 =~= seq![tnode] + (seq![enode] + ps2));
    lemma_norm_children_append(seq![tnode], seq![enode] + ps2);
    lemma_norm_children_append(seq![enode], ps2);
    lemma_norm_children_single(tnode);
    lemma_norm_children_single(enode);
    assert(norm_node(tnode) + (norm_node(enode) + norm_children(ps2)) =~= norm_node(tnode) + norm_node(enode)
        + norm_children(ps2));
}

/// After the leading text comes an element (texts are never adjacent).
#[verifier::spinoff_prover]
proof fn lemma_next_is_element(cs: Seq<SNode>, i: int)
    requires
        wf_children(cs),
        0 <= i,
        after_lead(cs, i) < cs.len(),
    ensures
        cs[after_lead(cs, i)] is Element,
        wf_node(cs[after_lead(cs, i)]),
{
    lemma_wf_children(cs);
    if after_lead(cs, i) > i {
        assert(cs[i] is Text);
    }
}

/// Where the run before an element child and the child itself stand.
#[verifier::spinoff_prover]
proof fn lemma_elem_layout(s: Seq<char>, p: int, mid: Seq<char>, w: Seq<char>, tag: Seq<char>, rest: Seq<char>)
    requires
        0 <= p,
        p < s.len() && s[p] == '\n',
        tag.len() > 0 && tag[0] == '<',
        starts_at(s, p + 1, mid + w + tag + rest),
    ensures
        starts_at(s, p, seq!['\n'] + mid + w + seq!['<']),
        starts_at(s, p + 1 + mid.len() + w.len(), tag),
        starts_at(s, p + 1 + mid.len() + w.len() + tag.len(), rest),
{
    let whole = mid + w + tag + rest;
    let pre = seq!['\n'] + mid + w + seq!['<'];
    assert forall|m: int| 0 <= m < pre.len() implies #[trigger] s.subrange(p, p + pre.len())[m] == pre[m] by {
        if m >= 1 {
            lemma_starts_index(s, p + 1, whole, m - 1);
            if m == 1 + mid.len() + w.len() {
                assert(whole[m - 1] == tag[0]);
            }
        }
    }
    assert(s.subrange(p, p + pre.len()) =~= pre);
    lemma_starts_split(s, p + 1, mid + w + tag, rest);
    lemma_starts_split(s, p + 1, mid + w, tag);
}

/// The reader reads the pretty-printed children from the line break at
/// `p` (after the start tag, or after the element child `i - 1`) to the
/// end tag, up to whitespace.
#[verifier::rlimit(60)]
#[verifier::spinoff_prover]
proof fn lemma_raw_children(
    s: Seq<char>,
    p: int,
    cs: Seq<SNode>,
    i: int,
    d: nat,
    name: Seq<char>,
    pd: nat,
)
    requires
        wf_children(cs),
        pd + children_height(cs) <= MAX_XML_DEPTH,
        element_name_ok(name),
        0 <= p,
        0 <= i <= cs.len(),
        i > 0 ==> cs[i - 1] is Element,
        p < s.len() && s[p] == '\n',
        starts_at(
            s,
            p + 1,
            raw_children(cs.subrange(i, cs.len() as int), d + 1) + indent(d) + (seq!['<', '/'] + name
                + seq!['>']),
        ),
    ensures
        children_spec(s, p, Seq::empty(), pd) matches Ok((ps, end)) && norm_children(ps) == norm_children(
            cs.subrange(i, cs.len() as int),
        ) && end == p + 1 + raw_children(cs.subrange(i, cs.len() as int), d + 1).len() + indent(
            d,
        ).len() + name.len() + 3,
    decreases cs, cs.len() - i,
{
    let n = cs.len() as int;
    let closing = seq!['<', '/'] + name + seq!['>'];
    let x = lead_text(cs, i);
    let j = after_lead(cs, i);
    let mid = text_line(x, d + 1);
    lemma_post_split(cs, i, d + 1);
    let rj = raw_children(cs.subrange(j, n), d + 1);
    assert(raw_children(cs.subrange(i, n), d + 1) + indent(d) + closing =~= mid + (rj + indent(d)
        + closing));
    if j == n {
        assert(cs.subrange(j, n) =~= Seq::<SNode>::empty());
        assert(rj == Seq::<char>::empty());
        assert(norm_children(cs.subrange(j, n)) == Seq::<SNode>::empty());
        assert(mid + (rj + indent(d) + closing) =~= mid + indent(d) + closing);
        lemma_children_tail(s, p, x, d, name, pd);
        assert(text_nodes(x) + Seq::<SNode>::empty() =~= text_nodes(x));
    } else {
        lemma_next_is_element(cs, i);
        let c = cs[j]->Element_0;
        assert(cs[j] == SNode::Element(c));
        let after = cs.subrange(j + 1, n);
        assert(cs.subrange(j, n) =~= seq![cs[j]] + after);
        lemma_raw_children_append(seq![cs[j]], after, d + 1);
        lemma_raw_children_single(cs[j], d + 1);
        lemma_norm_children_append(seq![cs[j]], after);
        lemma_norm_children_single(cs[j]);
        lemma_raw_spec_split(c, d + 1);
        let tag = raw_tag(c, d + 1);
        let w = indent(d + 1);
        let rest = raw_children(after, d + 1) + indent(d) + closing;
        assert(mid + (rj + indent(d) + closing) =~= mid + w + tag + rest);
        lemma_indent_layout(d + 1);
        lemma_elem_layout(s, p, mid, w, tag, rest);
        lemma_run(s, p, x, w, d + 1, text_nodes(x), pd);
        let t = p + 1 + mid.len() + w.len();
        assert(decreases_to!(cs => cs[j]));
        lemma_children_height(cs, j);
        lemma_raw_node(s, t, c, d + 1, pd);
        let q = t + tag.len() - 1;
        lemma_starts_index(s, t, tag, tag.len() - 1);
        assert(after =~= cs.subrange(j + 1, n));
        lemma_raw_children(s, q, cs, j + 1, d, name, pd);
        if let Ok((Some(tnode), t1)) = parse_node_spec(s, p, pd) {
            if let Ok((Some(enode), q1)) = parse_node_spec(s, t, pd) {
                if let Ok((ps2, end2)) = children_spec(s, q, Seq::empty(), pd) {
                    lemma_children_combine(s, p, t, q, tnode, enode, ps2, end2, pd);
                    assert(text_nodes(x) + norm_node(cs[j]) + norm_children(after) =~= text_nodes(x) + (
                    norm_node(cs[j]) + norm_children(after)));
                }
            }
        }
    }
}

/// Reading the pretty-printed verbatim form of a well-formed element
/// gives back that element up to whitespace (text runs trimmed, blank
/// runs dropped), then the final line break: what
/// `write_element_verbatim` writes, `parse_xml` reads back.
#[verifier::spinoff_prover]
#[verifier::rlimit(60)]
pub proof fn lemma_parse_verbatim_round_trip(e: SElement, depth: nat)
    requires
        wf_element(e),
        height(e) <= MAX_XML_DEPTH,
    ensures
        parse_xml_spec(raw_spec(e, depth)) matches Ok(ns) && ns.len() == 2 && (ns[1] == SNode::Text(
            seq!['\n'],
        )) && (ns[0] matches SNode::Element(e2) && norm_element(e2) == norm_element(e)),
{
    let tag = raw_tag(e, depth);
    let l = tag.subrange(0, tag.len() - 1);
    lemma_raw_spec_split(e, depth);
    assert(tag.last() == '\n');
    assert(tag =~= l + seq!['\n']);
    let s = indent(depth) + l + seq!['\n'];
    assert(raw_spec(e, depth) =~= s);
    let k = indent(depth).len() as int;
    assert(s.subrange(k, k + tag.len()) =~= tag);
    lemma_raw_node(s, k, e, depth, 0);
    assert(l[0] == '<');
    assert(l[1] == e.name[0]);
    if let Ok((Some(n), q)) = parse_node_spec(s, k, 0) {
        lemma_top_line(depth, l, n);
    }
}

} // verus!
