//! The `<text>` pieces that are not shaping: the `text-anchor` keyword,
//! the `side` of a `<textPath>`, the text run a `<textPath>` lays out,
//! and the error of the one-shot font-resolver hook.

use vstd::prelude::*;
use vstd::string::*;

use crate::parser::{lemma_nodes_model, nodes_model, tag_local, tag_local_spec, Element, Node, SElement, SNode};
use crate::strings::{eq_ignore_case, push_str, str_eq, str_eq_ignore_case, str_trim, trim};

verus! {

/// The global font resolver hook is one-shot: only the first
/// registration wins, later ones get this error.
#[derive(Debug, Clone, Copy, PartialEq, Eq, Structural)]
pub struct ResolverAlreadySet;

impl ResolverAlreadySet {
    /// The error text.
    pub fn message(&self) -> (m: &'static str)
        ensures
            m@ == "font resolver was already set"@,
    {
        "font resolver was already set"
    }
}

/// SVG 2 §11.10.1 `text-anchor`.
#[derive(Clone, Copy, Debug, PartialEq, Eq, Structural)]
pub enum TextAnchor {
    Start,
    Middle,
    End,
}

/// The `text-anchor` keyword (trimmed, any ASCII case); anything else —
/// `inherit` included — keeps `fallback`.
pub open spec fn text_anchor_spec(raw: Seq<char>, fallback: TextAnchor) -> TextAnchor {
    let t = trim(raw);
    if eq_ignore_case(t, "start"@) {
        TextAnchor::Start
    } else if eq_ignore_case(t, "middle"@) {
        TextAnchor::Middle
    } else if eq_ignore_case(t, "end"@) {
        TextAnchor::End
    } else {
        fallback
    }
}

/// Case-insensitive `text-anchor` keyword parser.
pub fn parse_text_anchor(raw: &str, fallback: TextAnchor) -> (r: TextAnchor)
    ensures
        r == text_anchor_spec(raw@, fallback),
{
    let t = str_trim(raw);
    if str_eq_ignore_case(t, "start") {
        TextAnchor::Start
    } else if str_eq_ignore_case(t, "middle") {
        TextAnchor::Middle
    } else if str_eq_ignore_case(t, "end") {
        TextAnchor::End
    } else {
        fallback
    }
}

/// SVG 2 §11.8.2 `side` of a `<textPath>`.
#[derive(Clone, Copy, Debug, PartialEq, Eq, Structural)]
pub enum Side {
    Left,
    Right,
}

/// `right` (trimmed, exact) flips the side; anything else, or no
/// attribute, is `left`.
pub open spec fn side_spec(s: Option<Seq<char>>) -> Side {
    match s {
        Some(v) => if trim(v) == "right"@ {
            Side::Right
        } else {
            Side::Left
        },
        None => Side::Left,
    }
}

pub fn parse_side(s: Option<&str>) -> (r: Side)
    ensures
        r == side_spec(
            match s {
                Some(v) => Some(v@),
                None => None,
            },
        ),
{
    match s {
        Some(v) => {
            if str_eq(str_trim(v), "right") {
                Side::Right
            } else {
                Side::Left
            }
        },
        None => Side::Left,
    }
}

/// The text a `<textPath>` lays out: its text children, and recursively
/// those of its `<tspan>` children, in document order; other elements
/// contribute nothing.
pub open spec fn text_run_spec(e: SElement) -> Seq<char>
    decreases e,
{
    text_run_children(e.children)
}

pub open spec fn text_run_children(cs: Seq<SNode>) -> Seq<char>
    decreases cs,
{
    if cs.len() == 0 {
        Seq::empty()
    } else {
        text_run_children(cs.subrange(0, cs.len() - 1)) + text_run_node(cs[cs.len() - 1])
    }
}

pub open spec fn text_run_node(n: SNode) -> Seq<char>
    decreases n,
{
    match n {
        SNode::Element(c) => if tag_local_spec(c.name) == "tspan"@ {
            text_run_spec(c)
        } else {
            Seq::empty()
        },
        SNode::Text(t) => t,
    }
}

/// Concatenate the text run of `el` into a new string.
pub fn collect_text_run(el: &Element) -> (r: String)
    ensures
        r@ == text_run_spec(el.model()),
{
    let mut s = String::new();
    collect_text_run_into(el, &mut s);
    assert(s@ =~= text_run_spec(el.model()));
    s
}

/// Append the text run of `el` to `out`.
pub fn collect_text_run_into(el: &Element, out: &mut String)
    ensures
        final(out)@ == old(out)@ + text_run_spec(el.model()),
    decreases el,
{
    let ghost m = el.model();
    proof {
        lemma_nodes_model(el.children@);
    }
    let ghost start = out@;
    let mut i: usize = 0;
    assert(m.children.take(0) =~= Seq::<SNode>::empty());
    assert(start + Seq::<char>::empty() =~= start);
    while i < el.children.len()
        invariant
            i <= el.children.len(),
            m == el.model(),
            m.children == nodes_model(el.children@),
            m.children.len() == el.children@.len(),
            forall|k: int| 0 <= k < el.children@.len() ==> #[trigger] m.children[k] == el.children@[k].model(),
            out@ == start + text_run_children(m.children.take(i as int)),
        decreases el.children.len() - i,
    {
        let ghost before = out@;
        let ghost cm = m.children[i as int];
        match &el.children[i] {
            Node::Text(t) => {
                push_str(out, t.as_str());
                assert(cm == SNode::Text(t@));
            },
            Node::Element(c) => {
                assert(cm == SNode::Element(c.model()));
                let local = tag_local(c.name.as_str());
                if str_eq(local.as_str(), "tspan") {
                    collect_text_run_into(c, out);
                } else {
                    assert(out@ =~= before + Seq::<char>::empty());
                }
            },
        }
        proof {
            assert(m.children.take(i + 1).subrange(0, i as int) =~= m.children.take(i as int));
            assert(m.children.take(i + 1)[i as int] == cm);
            assert(out@ == before + text_run_node(cm));
            assert(out@ =~= start + text_run_children(m.children.take(i + 1)));
        }
        i += 1;
    }
    assert(m.children.take(i as int) =~= m.children);
}


/// `text-anchor`: `start`, `middle` and `end` (any ASCII case, surrounding
/// whitespace ignored) name their own anchor; anything else keeps the
/// fallback.
pub proof fn lemma_text_anchor_keywords(raw: Seq<char>, fallback: TextAnchor)
    ensures
        eq_ignore_case(trim(raw), "start"@) ==> text_anchor_spec(raw, fallback) == TextAnchor::Start,
        eq_ignore_case(trim(raw), "middle"@) ==> text_anchor_spec(raw, fallback) == TextAnchor::Middle,
        eq_ignore_case(trim(raw), "end"@) ==> text_anchor_spec(raw, fallback) == TextAnchor::End,
        !eq_ignore_case(trim(raw), "start"@) && !eq_ignore_case(trim(raw), "middle"@)
            && !eq_ignore_case(trim(raw), "end"@) ==> text_anchor_spec(raw, fallback) == fallback,
{
    reveal_strlit("start");
    reveal_strlit("middle");
    reveal_strlit("end");
    let t = trim(raw);
    if eq_ignore_case(t, "middle"@) {
        assert(!eq_ignore_case(t, "start"@));
    }
    if eq_ignore_case(t, "end"@) {
        assert(!eq_ignore_case(t, "start"@));
        assert(!eq_ignore_case(t, "middle"@));
    }
}

/// `side`: `right` (surrounding whitespace ignored) is the right side;
/// anything else, or no attribute, the left.
pub proof fn lemma_side_keywords(s: Option<Seq<char>>)
    ensures
        (side_spec(s) == Side::Right) == (s matches Some(v) && trim(v) == "right"@),
{
}

} // verus!
