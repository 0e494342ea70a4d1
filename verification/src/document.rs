//! Writing a whole SVG document from a [`SceneText`] and the
//! [`PreservedExtras`] side channel: the root element, a `<defs>` block
//! (preserved definitions, then the gradients, clip paths and masks the
//! scene uses, each clip path or mask replaced by the author's own
//! definition where its geometry is bound to one), root `<title>` /
//! `<desc>`, the scene in tree order, then the preserved trailing
//! elements. Each scene node picks up, by its tree-path, the source id,
//! `<a>` wrapper, `<use>` / `<switch>` / `<text>` source element,
//! `filter` and marker references, rendering hints and inline
//! animations recorded for it; a later record for the same position
//! replaces an earlier one.

use vstd::prelude::*;

use crate::def_ids::{push_decimal, synth_id};
use crate::encoder::{
    attr_text, attrs_text, descriptive_spec, height, indent, inline_spec, opt_attr_text, push_attr,
    push_attrs, push_indent, push_opt_attr, raw_spec, script_spec, write_descriptive,
    write_element_verbatim, write_link_attrs, write_marker_attrs, write_mixed_content_element,
    write_script_element,
};
use crate::image::{href_encodable, image_element_text, plain_attr_text, write_image_element, ImageAttrs};
use crate::parser::{
    attrs_model, deflate_gzip, escape_attr, escape_attr_spec, gunzip, gzip_encode, has_gzip_magic,
    Element,
};
use vstd::utf8::encode_utf8;
use crate::path_data::segments_model;
use crate::path_writer::{path_text, write_path_d};
use crate::preserved::{
    AnimationFragment, BindingValue, DescriptiveText, IdScenePath, LinkBinding, PreservedExtras,
    ScenePathKeyed, UseBinding,
};
use crate::preserved::{ClipRuleBinding, RefBinding};
use crate::scene::{
    element_id, find_last, find_ref, find_with_id, last_at, last_ref, last_with_id, ClipText,
    GradientText, PaintText, SceneGroup, SceneNode, ScenePath, SceneText, StopText,
};
use crate::strings::{push_char, push_str, str_trim, trim};

verus! {

/// The deepest element tree, and the deepest scene, the writer takes:
/// a quarter of the address space, so that indentation depths fit.
pub open spec fn tree_limit() -> nat {
    (usize::MAX / 4) as nat
}

/// Nesting height of a scene node (1 for a leaf).
pub open spec fn node_height(n: SceneNode) -> nat
    decreases n,
{
    match n {
        SceneNode::Group(g) => 1 + nodes_height(g.children@),
        SceneNode::SoftMask { mask, content } => 1 + node_height(*content),
        _ => 1,
    }
}

pub open spec fn nodes_height(cs: Seq<SceneNode>) -> nat
    decreases cs,
{
    if cs.len() == 0 {
        0
    } else {
        let a = nodes_height(cs.subrange(0, cs.len() - 1));
        let b = node_height(cs[cs.len() - 1]);
        if a >= b {
            a
        } else {
            b
        }
    }
}

pub proof fn lemma_nodes_height(cs: Seq<SceneNode>, i: int)
    requires
        0 <= i < cs.len(),
    ensures
        node_height(cs[i]) <= nodes_height(cs),
    decreases cs.len(),
{
    if i < cs.len() - 1 {
        lemma_nodes_height(cs.subrange(0, cs.len() - 1), i);
    }
}

/// Every element of `v` is at most [`tree_limit`] deep.
#[verifier::opaque]
pub open spec fn elems_fit(v: Seq<Element>) -> bool {
    forall|i: int| 0 <= i < v.len() ==> height(#[trigger] v[i].model()) <= tree_limit()
}

/// The preserved element trees are at most [`tree_limit`] deep.
#[verifier::opaque]
pub open spec fn extras_fit(x: PreservedExtras) -> bool {
    &&& elems_fit(x.defs_targets@)
    &&& elems_fit(x.filters@)
    &&& elems_fit(x.patterns@)
    &&& elems_fit(x.markers@)
    &&& elems_fit(x.gradients@)
    &&& elems_fit(x.clip_paths_raw@)
    &&& elems_fit(x.masks_raw@)
    &&& elems_fit(x.foreign_objects@)
    &&& elems_fit(x.views@)
    &&& elems_fit(x.metadata@)
    &&& forall|i: int|
        0 <= i < x.animations@.len() ==> height(#[trigger] x.animations@[i].element.model())
            <= tree_limit()
    &&& forall|i: int|
        0 <= i < x.switches@.len() ==> height(#[trigger] x.switches@[i].element.model())
            <= tree_limit()
}

/// The scene, and each mask's content, is at most [`tree_limit`] deep.
#[verifier::opaque]
pub open spec fn scene_fits(sc: SceneText) -> bool {
    &&& nodes_height(sc.children@) <= tree_limit()
    &&& forall|i: int|
        0 <= i < sc.masks@.len() ==> node_height(#[trigger] sc.masks@[i].content) <= tree_limit()
}

pub proof fn lemma_last_at_in<T: ScenePathKeyed>(v: Seq<T>, p: Seq<usize>)
    ensures
        last_at(v, p) matches Some(b) ==> exists|i: int| 0 <= i < v.len() && v[i] == b,
    decreases v.len(),
{
    if v.len() > 0 {
        if v.last().scene_path() == p {
            assert(v[v.len() - 1] == v.last());
        } else {
            lemma_last_at_in(v.drop_last(), p);
            if let Some(b) = last_at(v.drop_last(), p) {
                let i = choose|i: int| 0 <= i < v.drop_last().len() && v.drop_last()[i] == b;
                assert(v[i] == b);
            }
        }
    }
}

/// The record of `v` for position `p` when records apply (`live`).
pub open spec fn bind<T: ScenePathKeyed>(v: Seq<T>, p: Seq<usize>, live: bool) -> Option<T> {
    if live {
        last_at(v, p)
    } else {
        None
    }
}

/// The record of `v` for position `p` when records apply.
pub fn bind_exec<'a, T: ScenePathKeyed>(v: &'a Vec<T>, p: &Vec<usize>, live: bool) -> (r: Option<
    &'a T,
>)
    ensures
        match bind(v@, p@, live) {
            Some(b) => r matches Some(x) && *x == b,
            None => r is None,
        },
{
    if live {
        find_last(v, p)
    } else {
        None
    }
}

/// ` name="value"` for the record of `v` at `p`, or nothing.
pub open spec fn value_attr<T: ScenePathKeyed + BindingValue>(
    name: Seq<char>,
    v: Seq<T>,
    p: Seq<usize>,
    live: bool,
) -> Seq<char> {
    match bind(v, p, live) {
        Some(b) => attr_text(name, b.value()),
        None => Seq::empty(),
    }
}

fn write_value_attr<T: ScenePathKeyed + BindingValue>(
    out: &mut String,
    name: &str,
    v: &Vec<T>,
    p: &Vec<usize>,
    live: bool,
)
    ensures
        final(out)@ == old(out)@ + value_attr(name@, v@, p@, live),
{
    match bind_exec(v, p, live) {
        Some(b) => push_attr(out, name, b.value_str()),
        None => {
            assert(out@ =~= old(out)@ + value_attr(name@, v@, p@, live));
        },
    }
}

/// The rendering-hint attributes recorded for position `p`, in writing
/// order.
#[verifier::opaque]
pub open spec fn hint_attrs(x: PreservedExtras, p: Seq<usize>, live: bool) -> Seq<char> {
    value_attr("paint-order"@, x.paint_orders@, p, live) + value_attr(
        "vector-effect"@,
        x.vector_effects@,
        p,
        live,
    ) + value_attr("shape-rendering"@, x.shape_renderings@, p, live) + value_attr(
        "text-rendering"@,
        x.text_renderings@,
        p,
        live,
    ) + value_attr("color-rendering"@, x.color_renderings@, p, live) + value_attr(
        "color-interpolation"@,
        x.color_interpolations@,
        p,
        live,
    ) + value_attr("overflow"@, x.overflows@, p, live) + value_attr(
        "pointer-events"@,
        x.pointer_eventss@,
        p,
        live,
    ) + value_attr("cursor"@, x.cursors@, p, live) + value_attr(
        "dominant-baseline"@,
        x.dominant_baselines@,
        p,
        live,
    )
}

#[verifier::spinoff_prover]
fn write_hint_attrs(out: &mut String, x: &PreservedExtras, p: &Vec<usize>, live: bool)
    ensures
        final(out)@ == old(out)@ + hint_attrs(*x, p@, live),
{
    let ghost start = old(out)@;
    write_value_attr(out, "paint-order", &x.paint_orders, p, live);
    write_value_attr(out, "vector-effect", &x.vector_effects, p, live);
    write_value_attr(out, "shape-rendering", &x.shape_renderings, p, live);
    write_value_attr(out, "text-rendering", &x.text_renderings, p, live);
    write_value_attr(out, "color-rendering", &x.color_renderings, p, live);
    write_value_attr(out, "color-interpolation", &x.color_interpolations, p, live);
    write_value_attr(out, "overflow", &x.overflows, p, live);
    write_value_attr(out, "pointer-events", &x.pointer_eventss, p, live);
    write_value_attr(out, "cursor", &x.cursors, p, live);
    write_value_attr(out, "dominant-baseline", &x.dominant_baselines, p, live);
    reveal(hint_attrs);
    assert(out@ =~= start + hint_attrs(*x, p@, live));
}

/// The marker references recorded for position `p`.
#[verifier::opaque]
pub open spec fn marker_text(x: PreservedExtras, p: Seq<usize>, live: bool) -> Seq<char> {
    match bind(x.marker_refs@, p, live) {
        Some(m) => opt_attr_text("marker-start"@, m.marker_start) + opt_attr_text(
            "marker-mid"@,
            m.marker_mid,
        ) + opt_attr_text("marker-end"@, m.marker_end),
        None => Seq::empty(),
    }
}

#[verifier::spinoff_prover]
fn write_marker_text(out: &mut String, x: &PreservedExtras, p: &Vec<usize>, live: bool)
    ensures
        final(out)@ == old(out)@ + marker_text(*x, p@, live),
{
    reveal(marker_text);
    match bind_exec(&x.marker_refs, p, live) {
        Some(m) => {
            write_marker_attrs(out, m);
            assert(out@ =~= old(out)@ + marker_text(*x, p@, live));
        },
        None => {
            assert(out@ =~= old(out)@ + marker_text(*x, p@, live));
        },
    }
}

/// The source id recorded for position `p`.
pub open spec fn id_at(x: PreservedExtras, p: Seq<usize>, live: bool) -> Option<Seq<char>> {
    match bind(x.id_paths@, p, live) {
        Some(b) => Some(b.id@),
        None => None,
    }
}

pub open spec fn opt_str(o: Option<&str>) -> Option<Seq<char>> {
    match o {
        Some(s) => Some(s@),
        None => None,
    }
}

fn id_at_exec<'a>(x: &'a PreservedExtras, p: &Vec<usize>, live: bool) -> (r: Option<&'a str>)
    ensures
        opt_str(r) == id_at(*x, p@, live),
{
    match bind_exec(&x.id_paths, p, live) {
        Some(b) => Some(b.id.as_str()),
        None => None,
    }
}

/// ` id="…"` when an id is given.
pub open spec fn id_attr(id: Option<Seq<char>>) -> Seq<char> {
    match id {
        Some(i) => attr_text("id"@, i),
        None => Seq::empty(),
    }
}

#[verifier::spinoff_prover]
fn write_id_attr(out: &mut String, id: Option<&str>)
    ensures
        final(out)@ == old(out)@ + id_attr(opt_str(id)),
{
    match id {
        Some(i) => push_attr(out, "id", i),
        None => {
            assert(out@ =~= old(out)@ + id_attr(opt_str(id)));
        },
    }
}

/// Whether the animation was declared in the element with id `id`.
pub open spec fn parent_is(f: AnimationFragment, id: Seq<char>) -> bool {
    f.parent_id matches Some(p) && p@ == id
}

/// The animations declared in the element with id `id`, in order.
pub open spec fn anims_for(a: Seq<AnimationFragment>, id: Seq<char>, depth: nat) -> Seq<char>
    decreases a.len(),
{
    if a.len() == 0 {
        Seq::empty()
    } else {
        anims_for(a.drop_last(), id, depth) + if parent_is(a.last(), id) {
            raw_spec(a.last().element.model(), depth)
        } else {
            Seq::empty()
        }
    }
}

/// The animations inlined at a node with source id `id`.
pub open spec fn inline_anims(x: PreservedExtras, id: Option<Seq<char>>, depth: nat) -> Seq<char> {
    match id {
        Some(i) => anims_for(x.animations@, i, depth),
        None => Seq::empty(),
    }
}

/// Whether a node with source id `id` has animations to inline.
pub open spec fn has_inline(x: PreservedExtras, id: Option<Seq<char>>) -> bool {
    match id {
        Some(i) => exists|k: int| 0 <= k < x.animations@.len() && parent_is(#[trigger] x.animations@[k], i),
        None => false,
    }
}

#[verifier::spinoff_prover]
fn is_parent(f: &AnimationFragment, id: &str) -> (b: bool)
    ensures
        b == parent_is(*f, id@),
{
    match &f.parent_id {
        Some(p) => crate::strings::str_eq(p.as_str(), id),
        None => false,
    }
}

#[verifier::spinoff_prover]
fn has_inline_exec(x: &PreservedExtras, id: Option<&str>) -> (b: bool)
    ensures
        b == has_inline(*x, opt_str(id)),
{
    match id {
        Some(i) => {
            let mut k: usize = 0;
            while k < x.animations.len()
                invariant
                    k <= x.animations@.len(),
                    id == Some(i),
                    forall|j: int| 0 <= j < k ==> !parent_is(#[trigger] x.animations@[j], i@),
                decreases x.animations.len() - k,
            {
                if is_parent(&x.animations[k], i) {
                    assert(parent_is(x.animations@[k as int], i@));
                    return true;
                }
                k += 1;
            }
            false
        },
        None => false,
    }
}

#[verifier::spinoff_prover]
fn write_inline_anims(out: &mut String, x: &PreservedExtras, id: Option<&str>, depth: usize)
    requires
        depth + tree_limit() <= usize::MAX,
        extras_fit(*x),
    ensures
        final(out)@ == old(out)@ + inline_anims(*x, opt_str(id), depth as nat),
{
    match id {
        Some(i) => {
            let ghost a = x.animations@;
            let mut k: usize = 0;
            assert(a.take(0) =~= Seq::<AnimationFragment>::empty());
            while k < x.animations.len()
                invariant
                    k <= a.len(),
                    a == x.animations@,
                    depth + tree_limit() <= usize::MAX,
                    extras_fit(*x),
                    out@ == old(out)@ + anims_for(a.take(k as int), i@, depth as nat),
                decreases a.len() - k,
            {
                let f = &x.animations[k];
                if is_parent(f, i) {
                    assert(height(a[k as int].element.model()) <= tree_limit()) by {
                        reveal(extras_fit);
                    }
                    write_element_verbatim(out, &f.element, depth);
                }
                proof {
                    assert(a.take(k + 1).drop_last() =~= a.take(k as int));
                    assert(a.take(k + 1).last() == a[k as int]);
                }
                k += 1;
            }
            assert(a.take(k as int) =~= a);
        },
        None => {
            assert(out@ =~= old(out)@ + inline_anims(*x, opt_str(id), depth as nat));
        },
    }
}

/// `<title>` / `<desc>` items, each at `depth`.
pub open spec fn items_text(items: Seq<DescriptiveText>, tag: Seq<char>, depth: nat) -> Seq<char>
    decreases items.len(),
{
    if items.len() == 0 {
        Seq::empty()
    } else {
        items_text(items.drop_last(), tag, depth) + descriptive_spec(
            tag,
            items.last().text@,
            match items.last().lang {
                Some(l) => Some(l@),
                None => None,
            },
            depth,
        )
    }
}

/// The `<title>` items, then the `<desc>` items, recorded for the
/// container at `p`.
#[verifier::opaque]
pub open spec fn desc_block(x: PreservedExtras, p: Seq<usize>, live: bool, depth: nat) -> Seq<char> {
    (match bind(x.titles@, p, live) {
        Some(b) => items_text(b.items@, "title"@, depth),
        None => Seq::empty(),
    }) + match bind(x.descs@, p, live) {
        Some(b) => items_text(b.items@, "desc"@, depth),
        None => Seq::empty(),
    }
}

#[verifier::spinoff_prover]
fn write_items(out: &mut String, items: &Vec<DescriptiveText>, tag: &str, depth: usize)
    ensures
        final(out)@ == old(out)@ + items_text(items@, tag@, depth as nat),
{
    let ghost v = items@;
    let mut k: usize = 0;
    assert(v.take(0) =~= Seq::<DescriptiveText>::empty());
    while k < items.len()
        invariant
            k <= v.len(),
            v == items@,
            out@ == old(out)@ + items_text(v.take(k as int), tag@, depth as nat),
        decreases v.len() - k,
    {
        write_descriptive(out, tag, &items[k], depth);
        proof {
            assert(v.take(k + 1).drop_last() =~= v.take(k as int));
            assert(v.take(k + 1).last() == v[k as int]);
        }
        k += 1;
    }
    assert(v.take(k as int) =~= v);
}

#[verifier::spinoff_prover]
fn write_desc_block(out: &mut String, x: &PreservedExtras, p: &Vec<usize>, live: bool, depth: usize)
    ensures
        final(out)@ == old(out)@ + desc_block(*x, p@, live, depth as nat),
{
    let ghost start = old(out)@;
    match bind_exec(&x.titles, p, live) {
        Some(b) => write_items(out, &b.items, "title", depth),
        None => {},
    }
    match bind_exec(&x.descs, p, live) {
        Some(b) => write_items(out, &b.items, "desc", depth),
        None => {},
    }
    reveal(desc_block);
    assert(out@ =~= start + desc_block(*x, p@, live, depth as nat));
}

/// Attributes written as given, without escaping (number text).
pub open spec fn plain_attrs_text(a: Seq<(String, String)>) -> Seq<char>
    decreases a.len(),
{
    if a.len() == 0 {
        Seq::empty()
    } else {
        plain_attrs_text(a.drop_last()) + plain_attr_text(a.last().0@, a.last().1@)
    }
}

#[verifier::spinoff_prover]
fn push_plain(out: &mut String, name: &str, value: &str)
    ensures
        final(out)@ == old(out)@ + plain_attr_text(name@, value@),
{
    push_char(out, ' ');
    push_str(out, name);
    push_str(out, "=\"");
    push_str(out, value);
    push_char(out, '"');
    proof {
        reveal_strlit("=\"");
    }
    assert(out@ =~= old(out)@ + plain_attr_text(name@, value@));
}

#[verifier::spinoff_prover]
fn write_plain_attrs(out: &mut String, a: &Vec<(String, String)>)
    ensures
        final(out)@ == old(out)@ + plain_attrs_text(a@),
{
    let ghost v = a@;
    let mut k: usize = 0;
    assert(v.take(0) =~= Seq::<(String, String)>::empty());
    while k < a.len()
        invariant
            k <= v.len(),
            v == a@,
            out@ == old(out)@ + plain_attrs_text(v.take(k as int)),
        decreases v.len() - k,
    {
        push_plain(out, a[k].0.as_str(), a[k].1.as_str());
        proof {
            assert(v.take(k + 1).drop_last() =~= v.take(k as int));
            assert(v.take(k + 1).last() == v[k as int]);
        }
        k += 1;
    }
    assert(v.take(k as int) =~= v);
}

/// An optional attribute written as given.
pub open spec fn opt_plain(name: Seq<char>, v: Option<String>) -> Seq<char> {
    match v {
        Some(t) => plain_attr_text(name, t@),
        None => Seq::empty(),
    }
}

#[verifier::spinoff_prover]
fn write_opt_plain(out: &mut String, name: &str, v: &Option<String>)
    ensures
        final(out)@ == old(out)@ + opt_plain(name@, *v),
{
    match v {
        Some(t) => push_plain(out, name, t.as_str()),
        None => {
            assert(out@ =~= old(out)@ + opt_plain(name@, *v));
        },
    }
}

/// `url(#id)` with the id attribute-escaped.
pub open spec fn url_ref(id: Seq<char>) -> Seq<char> {
    "url(#"@ + escape_attr_spec(id) + ")"@
}

#[verifier::spinoff_prover]
fn push_url_ref(out: &mut String, id: &str)
    ensures
        final(out)@ == old(out)@ + url_ref(id@),
{
    push_str(out, "url(#");
    let e = escape_attr(id);
    push_str(out, e.as_str());
    push_str(out, ")");
    assert(out@ =~= old(out)@ + url_ref(id@));
}

/// The id of the gradient at position `i`.
pub open spec fn gradient_id(i: int) -> Seq<char> {
    synth_id("grad"@, i)
}

/// The value of a `fill` / `stroke` attribute.
pub open spec fn paint_value(sc: SceneText, pt: PaintText) -> Seq<char> {
    match pt {
        PaintText::Absent => "none"@,
        PaintText::Color(c) => c@,
        PaintText::Gradient(i) => if i < sc.gradients@.len() {
            url_ref(gradient_id(i as int))
        } else {
            "none"@
        },
    }
}

/// A synthetic id: `prefix` and the one-based position.
#[verifier::spinoff_prover]
fn synth_id_exec(prefix: &str, i: usize) -> (r: String)
    requires
        i < usize::MAX,
    ensures
        r@ == synth_id(prefix@, i as int),
{
    let mut s = String::new();
    push_str(&mut s, prefix);
    push_decimal(&mut s, (i + 1) as u128);
    assert(s@ =~= synth_id(prefix@, i as int));
    s
}

#[verifier::spinoff_prover]
fn write_paint_value(out: &mut String, sc: &SceneText, pt: &PaintText)
    ensures
        final(out)@ == old(out)@ + paint_value(*sc, *pt),
{
    match pt {
        PaintText::Absent => push_str(out, "none"),
        PaintText::Color(c) => push_str(out, c.as_str()),
        PaintText::Gradient(i) => {
            if *i < sc.gradients.len() {
                let id = synth_id_exec("grad", *i);
                push_url_ref(out, id.as_str());
            } else {
                push_str(out, "none");
            }
        },
    }
}

/// ` name="<paint>"`.
pub open spec fn paint_attr(sc: SceneText, name: Seq<char>, pt: PaintText) -> Seq<char> {
    " "@ + name + "=\""@ + paint_value(sc, pt) + "\""@
}

#[verifier::spinoff_prover]
fn write_paint_attr(out: &mut String, sc: &SceneText, name: &str, pt: &PaintText)
    ensures
        final(out)@ == old(out)@ + paint_attr(*sc, name@, *pt),
{
    push_str(out, " ");
    push_str(out, name);
    push_str(out, "=\"");
    write_paint_value(out, sc, pt);
    push_str(out, "\"");
    assert(out@ =~= old(out)@ + paint_attr(*sc, name@, *pt));
}

/// The paint attributes of a path: `fill`, then the stroke paint and
/// attributes when it is stroked, then `fill-rule="evenodd"`.
#[verifier::opaque]
pub open spec fn paint_attrs(sc: SceneText, q: ScenePath) -> Seq<char> {
    paint_attr(sc, "fill"@, q.fill) + (match q.stroke {
        Some(s) => paint_attr(sc, "stroke"@, s.paint) + plain_attrs_text(s.attrs@),
        None => Seq::empty(),
    }) + if q.even_odd {
        " fill-rule=\"evenodd\""@
    } else {
        Seq::empty()
    }
}

#[verifier::spinoff_prover]
fn write_paint_attrs(out: &mut String, sc: &SceneText, q: &ScenePath)
    ensures
        final(out)@ == old(out)@ + paint_attrs(*sc, *q),
{
    let ghost start = old(out)@;
    write_paint_attr(out, sc, "fill", &q.fill);
    match &q.stroke {
        Some(s) => {
            write_paint_attr(out, sc, "stroke", &s.paint);
            write_plain_attrs(out, &s.attrs);
        },
        None => {},
    }
    if q.even_odd {
        push_str(out, " fill-rule=\"evenodd\"");
    }
    reveal(paint_attrs);
    assert(out@ =~= start + paint_attrs(*sc, *q));
}


/// The attributes of a re-wrapped `<a>`.
pub open spec fn link_attrs(link: LinkBinding) -> Seq<char> {
    opt_attr_text("href"@, link.href) + opt_attr_text("target"@, link.target) + opt_attr_text(
        "download"@,
        link.download,
    ) + opt_attr_text("ping"@, link.ping) + opt_attr_text("rel"@, link.rel) + opt_attr_text(
        "hreflang"@,
        link.hreflang,
    ) + opt_attr_text("type"@, link.type_) + opt_attr_text("referrerpolicy"@, link.referrerpolicy)
        + attrs_text(attrs_model(link.extra_attrs@))
}

/// The source id a clip path or mask fingerprint is bound to, when the
/// author's definition with that id was preserved.
pub open spec fn ref_override(refs: Seq<RefBinding>, raws: Seq<Element>, fp: Seq<char>) -> Option<
    Seq<char>,
> {
    match last_ref(refs, fp) {
        Some(o) => if last_with_id(raws, o) is Some {
            Some(o)
        } else {
            None
        },
        None => None,
    }
}

fn override_exec<'a>(refs: &'a Vec<RefBinding>, raws: &Vec<Element>, fp: &str) -> (r: Option<&'a str>)
    ensures
        opt_str(r) == ref_override(refs@, raws@, fp@),
{
    match find_ref(refs, fp) {
        Some(o) => match find_with_id(raws, o) {
            Some(_) => Some(o),
            None => None,
        },
        None => None,
    }
}

/// The id the clip path at position `i` is referred to by.
pub open spec fn clip_id(sc: SceneText, x: PreservedExtras, i: int) -> Seq<char> {
    match ref_override(x.clip_refs@, x.clip_paths_raw@, sc.clips@[i].fingerprint@) {
        Some(o) => o,
        None => synth_id("clip"@, i),
    }
}

/// The id the mask at position `i` is referred to by.
pub open spec fn mask_id(sc: SceneText, x: PreservedExtras, i: int) -> Seq<char> {
    match ref_override(x.mask_refs@, x.masks_raw@, sc.masks@[i].fingerprint@) {
        Some(o) => o,
        None => synth_id("mask"@, i),
    }
}

#[verifier::spinoff_prover]
fn clip_id_exec(sc: &SceneText, x: &PreservedExtras, i: usize) -> (r: String)
    requires
        i < sc.clips@.len(),
    ensures
        r@ == clip_id(*sc, *x, i as int),
{
    assert(i < sc.clips.len());
    match override_exec(&x.clip_refs, &x.clip_paths_raw, sc.clips[i].fingerprint.as_str()) {
        Some(o) => o.to_owned(),
        None => synth_id_exec("clip", i),
    }
}

#[verifier::spinoff_prover]
fn mask_id_exec(sc: &SceneText, x: &PreservedExtras, i: usize) -> (r: String)
    requires
        i < sc.masks@.len(),
    ensures
        r@ == mask_id(*sc, *x, i as int),
{
    assert(i < sc.masks.len());
    match override_exec(&x.mask_refs, &x.masks_raw, sc.masks[i].fingerprint.as_str()) {
        Some(o) => o.to_owned(),
        None => synth_id_exec("mask", i),
    }
}

/// ` clip-path="url(#…)"` for a group's clip path, when it resolves.
#[verifier::opaque]
pub open spec fn clip_attr(sc: SceneText, x: PreservedExtras, clip: Option<usize>, live: bool) -> Seq<
    char,
> {
    match clip {
        Some(i) => if live && i < sc.clips@.len() {
            " clip-path=\""@ + url_ref(clip_id(sc, x, i as int)) + "\""@
        } else {
            Seq::empty()
        },
        None => Seq::empty(),
    }
}

#[verifier::spinoff_prover]
fn write_clip_attr(out: &mut String, sc: &SceneText, x: &PreservedExtras, clip: Option<usize>, live: bool)
    ensures
        final(out)@ == old(out)@ + clip_attr(*sc, *x, clip, live),
{
    match clip {
        Some(i) => {
            if live && i < sc.clips.len() {
                let id = clip_id_exec(sc, x, i);
                push_str(out, " clip-path=\"");
                push_url_ref(out, id.as_str());
                push_str(out, "\"");
            }
        },
        None => {},
    }
    reveal(clip_attr);
    assert(out@ =~= old(out)@ + clip_attr(*sc, *x, clip, live));
}

/// ` mask="url(#…)"` for soft-masked content, when its mask resolves to
/// a non-empty id.
#[verifier::opaque]
pub open spec fn mask_attr(sc: SceneText, x: PreservedExtras, mask: Option<usize>, live: bool) -> Seq<
    char,
> {
    match mask {
        Some(i) => if live && i < sc.masks@.len() && mask_id(sc, x, i as int).len() > 0 {
            " mask=\""@ + url_ref(mask_id(sc, x, i as int)) + "\""@
        } else {
            Seq::empty()
        },
        None => Seq::empty(),
    }
}

#[verifier::spinoff_prover]
fn write_mask_attr(out: &mut String, sc: &SceneText, x: &PreservedExtras, mask: Option<usize>, live: bool)
    ensures
        final(out)@ == old(out)@ + mask_attr(*sc, *x, mask, live),
{
    match mask {
        Some(i) => {
            if live && i < sc.masks.len() {
                let id = mask_id_exec(sc, x, i);
                if crate::strings::str_chars(id.as_str()).len() > 0 {
                    push_str(out, " mask=\"");
                    push_url_ref(out, id.as_str());
                    push_str(out, "\"");
                }
            }
        },
        None => {},
    }
    reveal(mask_attr);
    assert(out@ =~= old(out)@ + mask_attr(*sc, *x, mask, live));
}

/// The end of an element that may hold inline animations: the
/// animations and a close tag, or `/>`.
#[verifier::opaque]
pub open spec fn element_tail(tag: Seq<char>, x: PreservedExtras, idh: Option<Seq<char>>, depth: nat) -> Seq<
    char,
> {
    if has_inline(x, idh) {
        ">\n"@ + inline_anims(x, idh, depth + 1) + indent(depth) + "</"@ + tag + ">\n"@
    } else {
        "/>\n"@
    }
}

#[verifier::spinoff_prover]
fn write_element_tail(out: &mut String, tag: &str, x: &PreservedExtras, idh: Option<&str>, depth: usize)
    requires
        depth + 1 + tree_limit() <= usize::MAX,
        extras_fit(*x),
    ensures
        final(out)@ == old(out)@ + element_tail(tag@, *x, opt_str(idh), depth as nat),
{
    let ghost start = old(out)@;
    if has_inline_exec(x, idh) {
        push_str(out, ">\n");
        write_inline_anims(out, x, idh, depth + 1);
        push_indent(out, depth);
        push_str(out, "</");
        push_str(out, tag);
        push_str(out, ">\n");
    } else {
        push_str(out, "/>\n");
    }
    reveal(element_tail);
    assert(out@ =~= start + element_tail(tag@, *x, opt_str(idh), depth as nat));
}

/// A group collapsed back to the `<use>` it was instantiated from.
#[verifier::opaque]
pub open spec fn use_text(u: UseBinding, x: PreservedExtras, idh: Option<Seq<char>>, depth: nat) -> Seq<
    char,
> {
    indent(depth) + "<use"@ + opt_attr_text("id"@, u.id) + attr_text("href"@, u.href@) + opt_attr_text(
        "x"@,
        u.x,
    ) + opt_attr_text("y"@, u.y) + opt_attr_text("width"@, u.width) + opt_attr_text(
        "height"@,
        u.height,
    ) + opt_attr_text("transform"@, u.transform) + attrs_text(attrs_model(u.extra_attrs@))
        + element_tail("use"@, x, idh, depth)
}

#[verifier::spinoff_prover]
#[verifier::rlimit(30)]
fn write_use(out: &mut String, u: &UseBinding, x: &PreservedExtras, idh: Option<&str>, depth: usize)
    requires
        depth + 1 + tree_limit() <= usize::MAX,
        extras_fit(*x),
    ensures
        final(out)@ == old(out)@ + use_text(*u, *x, opt_str(idh), depth as nat),
{
    let ghost start = old(out)@;
    push_indent(out, depth);
    push_str(out, "<use");
    push_opt_attr(out, "id", &u.id);
    push_attr(out, "href", u.href.as_str());
    push_opt_attr(out, "x", &u.x);
    push_opt_attr(out, "y", &u.y);
    push_opt_attr(out, "width", &u.width);
    push_opt_attr(out, "height", &u.height);
    push_opt_attr(out, "transform", &u.transform);
    push_attrs(out, &u.extra_attrs);
    write_element_tail(out, "use", x, idh, depth);
    reveal(use_text);
    assert(out@ =~= start + use_text(*u, *x, opt_str(idh), depth as nat));
}

/// The start tag of a group.
#[verifier::opaque]
pub open spec fn group_open(
    g: SceneGroup,
    sc: SceneText,
    x: PreservedExtras,
    p: Seq<usize>,
    live: bool,
    idh: Option<Seq<char>>,
    depth: nat,
) -> Seq<char> {
    indent(depth) + "<g"@ + id_attr(idh) + opt_plain("transform"@, g.transform) + opt_plain(
        "opacity"@,
        g.opacity,
    ) + clip_attr(sc, x, g.clip, live) + value_attr("filter"@, x.filter_refs@, p, live)
        + marker_text(x, p, live) + hint_attrs(x, p, live) + ">\n"@
}

#[verifier::spinoff_prover]
#[verifier::rlimit(30)]
fn write_group_open(
    out: &mut String,
    g: &SceneGroup,
    sc: &SceneText,
    x: &PreservedExtras,
    p: &Vec<usize>,
    live: bool,
    idh: Option<&str>,
    depth: usize,
)
    ensures
        final(out)@ == old(out)@ + group_open(*g, *sc, *x, p@, live, opt_str(idh), depth as nat),
{
    let ghost start = old(out)@;
    push_indent(out, depth);
    push_str(out, "<g");
    write_id_attr(out, idh);
    write_opt_plain(out, "transform", &g.transform);
    write_opt_plain(out, "opacity", &g.opacity);
    write_clip_attr(out, sc, x, g.clip, live);
    write_value_attr(out, "filter", &x.filter_refs, p, live);
    write_marker_text(out, x, p, live);
    write_hint_attrs(out, x, p, live);
    push_str(out, ">\n");
    reveal(group_open);
    assert(out@ =~= start + group_open(*g, *sc, *x, p@, live, opt_str(idh), depth as nat));
}

/// ` pathLength="…"` recorded for position `p`.
#[verifier::opaque]
pub open spec fn path_length_attr(x: PreservedExtras, p: Seq<usize>, live: bool) -> Seq<char> {
    match bind(x.path_lengths@, p, live) {
        Some(b) => plain_attr_text("pathLength"@, b.path_length@),
        None => Seq::empty(),
    }
}

/// A `<path>` element.
#[verifier::opaque]
pub open spec fn path_elem(
    q: ScenePath,
    sc: SceneText,
    x: PreservedExtras,
    p: Seq<usize>,
    live: bool,
    idh: Option<Seq<char>>,
    depth: nat,
) -> Seq<char> {
    indent(depth) + "<path"@ + id_attr(idh) + " d=\""@ + path_text(segments_model(q.d@)) + "\""@
        + paint_attrs(sc, q) + path_length_attr(x, p, live) + marker_text(x, p, live) + hint_attrs(
        x,
        p,
        live,
    ) + element_tail("path"@, x, idh, depth)
}

#[verifier::spinoff_prover]
#[verifier::rlimit(30)]
fn write_path_elem(
    out: &mut String,
    q: &ScenePath,
    sc: &SceneText,
    x: &PreservedExtras,
    p: &Vec<usize>,
    live: bool,
    idh: Option<&str>,
    depth: usize,
)
    requires
        depth + 1 + tree_limit() <= usize::MAX,
        extras_fit(*x),
    ensures
        final(out)@ == old(out)@ + path_elem(*q, *sc, *x, p@, live, opt_str(idh), depth as nat),
{
    let ghost start = old(out)@;
    push_indent(out, depth);
    push_str(out, "<path");
    write_id_attr(out, idh);
    push_str(out, " d=\"");
    let ghost c1 = out@;
    let segs = q.d.as_slice();
    write_path_d(out, segs);
    assert(segs@ == q.d@);
    assert(out@ == c1 + path_text(segments_model(q.d@)));
    push_str(out, "\"");
    write_paint_attrs(out, sc, q);
    let ghost c2 = out@;
    match bind_exec(&x.path_lengths, p, live) {
        Some(b) => push_plain(out, "pathLength", b.path_length.as_str()),
        None => {},
    }
    reveal(path_length_attr);
    assert(out@ =~= c2 + path_length_attr(*x, p@, live));
    write_marker_text(out, x, p, live);
    write_hint_attrs(out, x, p, live);
    write_element_tail(out, "path", x, idh, depth);
    reveal(path_elem);
    assert(out@ =~= start + path_elem(*q, *sc, *x, p@, live, opt_str(idh), depth as nat));
}

/// A scene node at position `p` and indentation `depth`; `live` is
/// false inside mask definitions, where no side-channel record applies.
#[verifier::opaque]
pub open spec fn node_text(
    n: SceneNode,
    p: Seq<usize>,
    depth: nat,
    sc: SceneText,
    x: PreservedExtras,
    live: bool,
) -> Seq<char>
    decreases n,
{
    let idh = id_at(x, p, live);
    match bind(x.texts@, p, live) {
        Some(t) => indent(depth) + inline_spec(t.element.model()) + "\n"@,
        None => match n {
            SceneNode::Group(g) => match bind(x.switches@, p, live) {
                Some(s) => raw_spec(s.element.model(), depth),
                None => match bind(x.uses@, p, live) {
                    Some(u) => use_text(u, x, idh, depth),
                    None => {
                        let link = bind(x.links@, p, live);
                        let gd: nat = if link is Some {
                            depth + 1
                        } else {
                            depth
                        };
                        (match link {
                            Some(l) => indent(depth) + "<a"@ + link_attrs(l) + ">\n"@,
                            None => Seq::empty(),
                        }) + group_open(g, sc, x, p, live, idh, gd) + desc_block(x, p, live, gd + 1)
                            + children_text(g.children@, p, gd + 1, sc, x, live) + inline_anims(
                            x,
                            idh,
                            gd + 1,
                        ) + indent(gd) + "</g>\n"@ + match link {
                            Some(l) => indent(depth) + "</a>\n"@,
                            None => Seq::empty(),
                        }
                    },
                },
            },
            SceneNode::Path(q) => path_elem(q, sc, x, p, live, idh, depth),
            SceneNode::SoftMask { mask, content } => indent(depth) + "<g"@ + id_attr(idh) + mask_attr(
                sc,
                x,
                mask,
                live,
            ) + ">\n"@ + node_text(*content, p, depth + 1, sc, x, live) + inline_anims(
                x,
                idh,
                depth + 1,
            ) + indent(depth) + "</g>\n"@,
            SceneNode::Image => Seq::empty(),
        },
    }
}

/// The children of a group at position `p`, child `i` at `p` + `[i]`.
pub open spec fn children_text(
    cs: Seq<SceneNode>,
    p: Seq<usize>,
    depth: nat,
    sc: SceneText,
    x: PreservedExtras,
    live: bool,
) -> Seq<char>
    decreases cs,
{
    if cs.len() == 0 {
        Seq::empty()
    } else {
        children_text(cs.subrange(0, cs.len() - 1), p, depth, sc, x, live) + node_text(
            cs[cs.len() - 1],
            p.push((cs.len() - 1) as usize),
            depth,
            sc,
            x,
            live,
        )
    }
}

/// The `<a>` start tag of a re-wrapped link.
pub open spec fn link_open(link: Option<LinkBinding>, depth: nat) -> Seq<char> {
    match link {
        Some(l) => indent(depth) + "<a"@ + link_attrs(l) + ">\n"@,
        None => Seq::empty(),
    }
}

/// The `<a>` end tag of a re-wrapped link.
pub open spec fn link_close(link: Option<LinkBinding>, depth: nat) -> Seq<char> {
    match link {
        Some(l) => indent(depth) + "</a>\n"@,
        None => Seq::empty(),
    }
}

/// The indentation of a group's own element: one deeper when it is
/// wrapped in a link.
pub open spec fn group_depth(x: PreservedExtras, p: Seq<usize>, live: bool, depth: nat) -> nat {
    if bind(x.links@, p, live) is Some {
        depth + 1
    } else {
        depth
    }
}

proof fn lemma_group_text(g: SceneGroup, p: Seq<usize>, depth: nat, sc: SceneText, x: PreservedExtras, live: bool)
    requires
        bind(x.texts@, p, live) is None,
        bind(x.switches@, p, live) is None,
        bind(x.uses@, p, live) is None,
    ensures
        node_text(SceneNode::Group(g), p, depth, sc, x, live) == link_open(bind(x.links@, p, live), depth)
            + group_element(g, p, group_depth(x, p, live, depth), sc, x, live) + link_close(
            bind(x.links@, p, live),
            depth,
        ),
{
    reveal_with_fuel(node_text, 1);
    let link = bind(x.links@, p, live);
    let gd = group_depth(x, p, live, depth);
    let t = node_text(SceneNode::Group(g), p, depth, sc, x, live);
    assert(t == (match link {
        Some(l) => indent(depth) + "<a"@ + link_attrs(l) + ">\n"@,
        None => Seq::empty(),
    }) + group_open(g, sc, x, p, live, id_at(x, p, live), gd) + desc_block(x, p, live, gd + 1)
        + children_text(g.children@, p, gd + 1, sc, x, live) + inline_anims(x, id_at(x, p, live), gd + 1)
        + indent(gd) + "</g>\n"@ + match link {
        Some(l) => indent(depth) + "</a>\n"@,
        None => Seq::empty(),
    });
    assert(t =~= link_open(link, depth) + group_element(g, p, gd, sc, x, live) + link_close(link, depth));
}

#[verifier::spinoff_prover]
fn write_children(
    out: &mut String,
    cs: &Vec<SceneNode>,
    depth: usize,
    sc: &SceneText,
    x: &PreservedExtras,
    live: bool,
    path: &mut Vec<usize>,
)
    requires
        depth + 2 * nodes_height(cs@) + tree_limit() + 4 <= usize::MAX,
        extras_fit(*x),
    ensures
        final(out)@ == old(out)@ + children_text(cs@, old(path)@, depth as nat, *sc, *x, live),
        final(path)@ == old(path)@,
    decreases cs, 0nat,
{
    let ghost p = old(path)@;
    let ghost v = cs@;
    let mut i: usize = 0;
    assert(v.take(0) =~= Seq::<SceneNode>::empty());
    while i < cs.len()
        invariant
            i <= v.len(),
            v == cs@,
            path@ == p,
            extras_fit(*x),
            depth + 2 * nodes_height(v) + tree_limit() + 4 <= usize::MAX,
            out@ == old(out)@ + children_text(v.take(i as int), p, depth as nat, *sc, *x, live),
        decreases v.len() - i,
    {
        proof {
            lemma_nodes_height(v, i as int);
        }
        path.push(i);
        write_node(out, &cs[i], depth, sc, x, live, path);
        let _ = path.pop();
        proof {
            assert(p.push(i).drop_last() =~= p);
            assert(v.take(i + 1).subrange(0, i as int) =~= v.take(i as int));
            assert(v.take(i + 1)[i as int] == v[i as int]);
        }
        i += 1;
    }
    assert(v.take(i as int) =~= v);
}

/// A group's own element: start tag, `<title>` / `<desc>`, children,
/// inline animations and end tag.
pub open spec fn group_element(
    g: SceneGroup,
    p: Seq<usize>,
    gd: nat,
    sc: SceneText,
    x: PreservedExtras,
    live: bool,
) -> Seq<char> {
    group_open(g, sc, x, p, live, id_at(x, p, live), gd) + desc_block(x, p, live, gd + 1)
        + children_text(g.children@, p, gd + 1, sc, x, live) + inline_anims(x, id_at(x, p, live), gd + 1)
        + indent(gd) + "</g>\n"@
}

#[verifier::spinoff_prover]
fn write_group_element(
    out: &mut String,
    g: &SceneGroup,
    gd: usize,
    sc: &SceneText,
    x: &PreservedExtras,
    live: bool,
    path: &mut Vec<usize>,
    idh: Option<&str>,
)
    requires
        gd + 1 + 2 * nodes_height(g.children@) + tree_limit() + 4 <= usize::MAX,
        extras_fit(*x),
        opt_str(idh) == id_at(*x, old(path)@, live),
    ensures
        final(out)@ == old(out)@ + group_element(*g, old(path)@, gd as nat, *sc, *x, live),
        final(path)@ == old(path)@,
    decreases g, 0nat,
{
    let ghost p = old(path)@;
    write_group_open(out, g, sc, x, path, live, idh, gd);
    write_desc_block(out, x, path, live, gd + 1);
    write_children(out, &g.children, gd + 1, sc, x, live, path);
    write_inline_anims(out, x, idh, gd + 1);
    push_indent(out, gd);
    push_str(out, "</g>\n");
    assert(out@ =~= old(out)@ + group_element(*g, p, gd as nat, *sc, *x, live));
}

#[verifier::spinoff_prover]
#[verifier::rlimit(100)]
fn write_group_node(
    out: &mut String,
    g: &SceneGroup,
    depth: usize,
    sc: &SceneText,
    x: &PreservedExtras,
    live: bool,
    path: &mut Vec<usize>,
)
    requires
        depth + 2 * node_height(SceneNode::Group(*g)) + tree_limit() + 4 <= usize::MAX,
        extras_fit(*x),
        bind(x.texts@, old(path)@, live) is None,
    ensures
        final(out)@ == old(out)@ + node_text(SceneNode::Group(*g), old(path)@, depth as nat, *sc, *x, live),
        final(path)@ == old(path)@,
    decreases g, 1nat,
{
    let ghost start = old(out)@;
    let ghost p = old(path)@;
    let idh = id_at_exec(x, path, live);
    match bind_exec(&x.switches, path, live) {
        Some(s) => {
            proof {
                lemma_last_at_in(x.switches@, p);
                reveal(extras_fit);
            }
            write_element_verbatim(out, &s.element, depth);
            proof {
                reveal(node_text);
            }
            return;
        },
        None => {},
    }
    match bind_exec(&x.uses, path, live) {
        Some(u) => {
            write_use(out, u, x, idh, depth);
            proof {
                reveal(node_text);
            }
            return;
        },
        None => {},
    }
    let link = bind_exec(&x.links, path, live);
    let gd: usize = match link {
        Some(_) => depth + 1,
        None => depth,
    };
    match link {
        Some(l) => {
            push_indent(out, depth);
            push_str(out, "<a");
            write_link_attrs(out, l);
            push_str(out, ">\n");
        },
        None => {},
    }
    let ghost a0 = out@;
    let ghost lk = bind(x.links@, p, live);
    assert(a0 =~= start + link_open(lk, depth as nat));
    proof {
        assert(node_height(SceneNode::Group(*g)) == 1 + nodes_height(g.children@));
    }
    write_group_element(out, g, gd, sc, x, live, path, idh);
    let ghost b0 = out@;
    match link {
        Some(_) => {
            push_indent(out, depth);
            push_str(out, "</a>\n");
        },
        None => {},
    }
    assert(out@ =~= b0 + link_close(lk, depth as nat));
    proof {
        lemma_group_text(*g, p, depth as nat, *sc, *x, live);
    }
    assert(out@ =~= start + node_text(SceneNode::Group(*g), p, depth as nat, *sc, *x, live));
}

#[verifier::spinoff_prover]
#[verifier::rlimit(50)]
fn write_node(
    out: &mut String,
    n: &SceneNode,
    depth: usize,
    sc: &SceneText,
    x: &PreservedExtras,
    live: bool,
    path: &mut Vec<usize>,
)
    requires
        depth + 2 * node_height(*n) + tree_limit() + 4 <= usize::MAX,
        extras_fit(*x),
    ensures
        final(out)@ == old(out)@ + node_text(*n, old(path)@, depth as nat, *sc, *x, live),
        final(path)@ == old(path)@,
    decreases n, 0nat,
{
    let ghost start = old(out)@;
    let ghost p = old(path)@;
    reveal(node_text);
    let idh = id_at_exec(x, path, live);
    match bind_exec(&x.texts, path, live) {
        Some(t) => {
            write_mixed_content_element(out, &t.element, depth);
            proof {
                reveal_strlit("\n");
            }
            assert(out@ =~= start + node_text(*n, p, depth as nat, *sc, *x, live));
            return;
        },
        None => {},
    }
    match n {
        SceneNode::Group(g) => {
            write_group_node(out, g, depth, sc, x, live, path);
        },
        SceneNode::Path(q) => {
            write_path_elem(out, q, sc, x, path, live, idh, depth);
        },
        SceneNode::SoftMask { mask, content } => {
            push_indent(out, depth);
            push_str(out, "<g");
            write_id_attr(out, idh);
            write_mask_attr(out, sc, x, *mask, live);
            push_str(out, ">\n");
            write_node(out, content, depth + 1, sc, x, live, path);
            write_inline_anims(out, x, idh, depth + 1);
            push_indent(out, depth);
            push_str(out, "</g>\n");
            assert(out@ =~= start + node_text(*n, p, depth as nat, *sc, *x, live));
        },
        SceneNode::Image => {
            assert(out@ =~= start + node_text(*n, p, depth as nat, *sc, *x, live));
        },
    }
}


/// Elements written verbatim at `depth`, in order.
pub open spec fn raws_text(v: Seq<Element>, depth: nat) -> Seq<char>
    decreases v.len(),
{
    if v.len() == 0 {
        Seq::empty()
    } else {
        raws_text(v.drop_last(), depth) + raw_spec(v.last().model(), depth)
    }
}

#[verifier::spinoff_prover]
fn write_raws(out: &mut String, v: &Vec<Element>, depth: usize)
    requires
        elems_fit(v@),
        depth + tree_limit() <= usize::MAX,
    ensures
        final(out)@ == old(out)@ + raws_text(v@, depth as nat),
{
    let ghost w = v@;
    let mut k: usize = 0;
    assert(w.take(0) =~= Seq::<Element>::empty());
    while k < v.len()
        invariant
            k <= w.len(),
            w == v@,
            elems_fit(w),
            depth + tree_limit() <= usize::MAX,
            out@ == old(out)@ + raws_text(w.take(k as int), depth as nat),
        decreases w.len() - k,
    {
        assert(height(w[k as int].model()) <= tree_limit()) by {
            reveal(elems_fit);
        }
        write_element_verbatim(out, &v[k], depth);
        proof {
            assert(w.take(k + 1).drop_last() =~= w.take(k as int));
            assert(w.take(k + 1).last() == w[k as int]);
        }
        k += 1;
    }
    assert(w.take(k as int) =~= w);
}

/// `<style>` elements with their trimmed bodies in CDATA sections.
pub open spec fn styles_text(v: Seq<String>) -> Seq<char>
    decreases v.len(),
{
    if v.len() == 0 {
        Seq::empty()
    } else {
        styles_text(v.drop_last()) + "    <style><![CDATA["@ + trim(v.last()@) + "]]></style>\n"@
    }
}

#[verifier::spinoff_prover]
fn write_styles(out: &mut String, v: &Vec<String>)
    ensures
        final(out)@ == old(out)@ + styles_text(v@),
{
    let ghost w = v@;
    let mut k: usize = 0;
    assert(w.take(0) =~= Seq::<String>::empty());
    while k < v.len()
        invariant
            k <= w.len(),
            w == v@,
            out@ == old(out)@ + styles_text(w.take(k as int)),
        decreases w.len() - k,
    {
        push_str(out, "    <style><![CDATA[");
        push_str(out, str_trim(v[k].as_str()));
        push_str(out, "]]></style>\n");
        proof {
            assert(w.take(k + 1).drop_last() =~= w.take(k as int));
            assert(w.take(k + 1).last() == w[k as int]);
        }
        k += 1;
    }
    assert(w.take(k as int) =~= w);
}

/// Gradient stops.
pub open spec fn stops_text(v: Seq<StopText>) -> Seq<char>
    decreases v.len(),
{
    if v.len() == 0 {
        Seq::empty()
    } else {
        stops_text(v.drop_last()) + "      <stop"@ + plain_attr_text("offset"@, v.last().offset@)
            + plain_attr_text("stop-color"@, v.last().color@) + opt_plain(
            "stop-opacity"@,
            v.last().opacity,
        ) + "/>\n"@
    }
}

#[verifier::spinoff_prover]
fn write_stops(out: &mut String, v: &Vec<StopText>)
    ensures
        final(out)@ == old(out)@ + stops_text(v@),
{
    let ghost w = v@;
    let mut k: usize = 0;
    assert(w.take(0) =~= Seq::<StopText>::empty());
    while k < v.len()
        invariant
            k <= w.len(),
            w == v@,
            out@ == old(out)@ + stops_text(w.take(k as int)),
        decreases w.len() - k,
    {
        push_str(out, "      <stop");
        push_plain(out, "offset", v[k].offset.as_str());
        push_plain(out, "stop-color", v[k].color.as_str());
        write_opt_plain(out, "stop-opacity", &v[k].opacity);
        push_str(out, "/>\n");
        proof {
            assert(w.take(k + 1).drop_last() =~= w.take(k as int));
            assert(w.take(k + 1).last() == w[k as int]);
        }
        k += 1;
    }
    assert(w.take(k as int) =~= w);
}

pub open spec fn gradient_tag(g: GradientText) -> Seq<char> {
    if g.radial {
        "radialGradient"@
    } else {
        "linearGradient"@
    }
}

/// A gradient definition with id `id`.
pub open spec fn gradient_def(g: GradientText, id: Seq<char>) -> Seq<char> {
    "    <"@ + gradient_tag(g) + attr_text("id"@, id) + plain_attrs_text(g.geometry@)
        + " gradientUnits=\"userSpaceOnUse\""@ + plain_attrs_text(g.focal@) + opt_plain(
        "spreadMethod"@,
        g.spread,
    ) + ">\n"@ + stops_text(g.stops@) + "    </"@ + gradient_tag(g) + ">\n"@
}

#[verifier::spinoff_prover]
fn write_gradient_def(out: &mut String, g: &GradientText, id: &str)
    ensures
        final(out)@ == old(out)@ + gradient_def(*g, id@),
{
    let tag = if g.radial {
        "radialGradient"
    } else {
        "linearGradient"
    };
    push_str(out, "    <");
    push_str(out, tag);
    push_attr(out, "id", id);
    write_plain_attrs(out, &g.geometry);
    push_str(out, " gradientUnits=\"userSpaceOnUse\"");
    write_plain_attrs(out, &g.focal);
    write_opt_plain(out, "spreadMethod", &g.spread);
    push_str(out, ">\n");
    write_stops(out, &g.stops);
    push_str(out, "    </");
    push_str(out, tag);
    push_str(out, ">\n");
    assert(out@ =~= old(out)@ + gradient_def(*g, id@));
}

/// The first `n` scene gradients, except those whose id a preserved
/// gradient definition already carries.
#[verifier::opaque]
pub open spec fn gradient_defs(sc: SceneText, x: PreservedExtras, n: nat) -> Seq<char>
    decreases n,
{
    if n == 0 {
        Seq::empty()
    } else {
        let i = n - 1;
        gradient_defs(sc, x, (n - 1) as nat) + if last_with_id(x.gradients@, gradient_id(i)) is Some {
            Seq::empty()
        } else {
            gradient_def(sc.gradients@[i], gradient_id(i))
        }
    }
}

#[verifier::spinoff_prover]
fn write_gradient_defs(out: &mut String, sc: &SceneText, x: &PreservedExtras)
    ensures
        final(out)@ == old(out)@ + gradient_defs(*sc, *x, sc.gradients@.len()),
{
    let mut k: usize = 0;
    proof {
        reveal_with_fuel(gradient_defs, 1);
    }
    assert(out@ =~= old(out)@ + gradient_defs(*sc, *x, 0));
    while k < sc.gradients.len()
        invariant
            k <= sc.gradients@.len(),
            out@ == old(out)@ + gradient_defs(*sc, *x, k as nat),
        decreases sc.gradients@.len() - k,
    {
        proof {
            reveal_with_fuel(gradient_defs, 2);
        }
        let id = synth_id_exec("grad", k);
        match find_with_id(&x.gradients, id.as_str()) {
            Some(_) => {},
            None => write_gradient_def(out, &sc.gradients[k], id.as_str()),
        }
        k += 1;
    }
}

/// The clip rule recorded for the clip geometry with fingerprint `fp`.
pub open spec fn last_rule(v: Seq<ClipRuleBinding>, fp: Seq<char>) -> Option<Seq<char>>
    decreases v.len(),
{
    if v.len() == 0 {
        None
    } else if v.last().path_fingerprint@ == fp {
        Some(v.last().clip_rule@)
    } else {
        last_rule(v.drop_last(), fp)
    }
}

fn find_rule<'a>(v: &'a Vec<ClipRuleBinding>, fp: &str) -> (r: Option<&'a str>)
    ensures
        opt_str(r) == last_rule(v@, fp@),
{
    let mut i: usize = v.len();
    assert(v@.take(i as int) =~= v@);
    while i > 0
        invariant
            i <= v@.len(),
            last_rule(v@, fp@) == last_rule(v@.take(i as int), fp@),
        decreases i,
    {
        let ghost t = v@.take(i as int);
        assert(t.drop_last() =~= v@.take(i - 1));
        assert(t.last() == v@[i - 1]);
        i -= 1;
        if crate::strings::str_eq(v[i].path_fingerprint.as_str(), fp) {
            return Some(v[i].clip_rule.as_str());
        }
    }
    assert(v@.take(0) =~= Seq::<ClipRuleBinding>::empty());
    None
}

/// A clip path synthesised from its geometry.
pub open spec fn synth_clip(c: ClipText, id: Seq<char>, rule: Option<Seq<char>>) -> Seq<char> {
    "    <clipPath id=\""@ + escape_attr_spec(id) + "\">\n      <path d=\""@ + path_text(
        segments_model(c.d@),
    ) + (match rule {
        Some(r) => "\" clip-rule=\""@ + escape_attr_spec(r),
        None => Seq::empty(),
    }) + "\"/>\n    </clipPath>\n"@
}

/// The definition of the clip path at position `i`: the author's own,
/// when its geometry is bound to one, else synthesised.
pub open spec fn clip_def(sc: SceneText, x: PreservedExtras, i: int) -> Seq<char> {
    let c = sc.clips@[i];
    let synth = synth_clip(c, synth_id("clip"@, i), last_rule(x.clip_rules@, c.fingerprint@));
    match ref_override(x.clip_refs@, x.clip_paths_raw@, c.fingerprint@) {
        Some(o) => match last_with_id(x.clip_paths_raw@, o) {
            Some(e) => raw_spec(e.model(), 2),
            None => synth,
        },
        None => synth,
    }
}

#[verifier::opaque]
pub open spec fn clip_defs(sc: SceneText, x: PreservedExtras, n: nat) -> Seq<char>
    decreases n,
{
    if n == 0 {
        Seq::empty()
    } else {
        clip_defs(sc, x, (n - 1) as nat) + clip_def(sc, x, n - 1)
    }
}

pub proof fn lemma_last_with_id_in(v: Seq<Element>, id: Seq<char>)
    ensures
        last_with_id(v, id) matches Some(e) ==> exists|i: int| 0 <= i < v.len() && v[i] == e,
    decreases v.len(),
{
    if v.len() > 0 {
        if element_id(v.last().model()) == Some(id) {
            assert(v[v.len() - 1] == v.last());
        } else {
            lemma_last_with_id_in(v.drop_last(), id);
            if let Some(e) = last_with_id(v.drop_last(), id) {
                let i = choose|i: int| 0 <= i < v.drop_last().len() && v.drop_last()[i] == e;
                assert(v[i] == e);
            }
        }
    }
}

#[verifier::spinoff_prover]
fn write_clip_def(out: &mut String, sc: &SceneText, x: &PreservedExtras, i: usize)
    requires
        i < sc.clips@.len(),
        extras_fit(*x),
    ensures
        final(out)@ == old(out)@ + clip_def(*sc, *x, i as int),
{
    assert(i < sc.clips.len());
    let c = &sc.clips[i];
    match override_exec(&x.clip_refs, &x.clip_paths_raw, c.fingerprint.as_str()) {
        Some(o) => match find_with_id(&x.clip_paths_raw, o) {
            Some(e) => {
                proof {
                    lemma_last_with_id_in(x.clip_paths_raw@, o@);
                    reveal(extras_fit);
                    reveal(elems_fit);
                }
                write_element_verbatim(out, e, 2);
                return;
            },
            None => {},
        },
        None => {},
    }
    let ghost start = out@;
    let id = synth_id_exec("clip", i);
    push_str(out, "    <clipPath id=\"");
    let e = escape_attr(id.as_str());
    push_str(out, e.as_str());
    push_str(out, "\">\n      <path d=\"");
    write_path_d(out, c.d.as_slice());
    match find_rule(&x.clip_rules, c.fingerprint.as_str()) {
        Some(r) => {
            push_str(out, "\" clip-rule=\"");
            let er = escape_attr(r);
            push_str(out, er.as_str());
        },
        None => {},
    }
    push_str(out, "\"/>\n    </clipPath>\n");
    assert(out@ =~= start + synth_clip(*c, synth_id("clip"@, i as int), last_rule(x.clip_rules@, c.fingerprint@)));
}

/// A mask synthesised from its content, which is written with no
/// side-channel record applying.
pub open spec fn synth_mask(sc: SceneText, x: PreservedExtras, i: int) -> Seq<char> {
    let m = sc.masks@[i];
    "    <mask id=\""@ + escape_attr_spec(synth_id("mask"@, i)) + "\""@ + (if m.alpha {
        " mask-type=\"alpha\""@
    } else {
        Seq::empty()
    }) + ">\n"@ + node_text(m.content, Seq::empty(), 3, sc, x, false) + "    </mask>\n"@
}

/// The definition of the mask at position `i`: the author's own, when
/// its content is bound to one, else synthesised.
pub open spec fn mask_def(sc: SceneText, x: PreservedExtras, i: int) -> Seq<char> {
    let m = sc.masks@[i];
    match ref_override(x.mask_refs@, x.masks_raw@, m.fingerprint@) {
        Some(o) => match last_with_id(x.masks_raw@, o) {
            Some(e) => raw_spec(e.model(), 2),
            None => synth_mask(sc, x, i),
        },
        None => synth_mask(sc, x, i),
    }
}

#[verifier::opaque]
pub open spec fn mask_defs(sc: SceneText, x: PreservedExtras, n: nat) -> Seq<char>
    decreases n,
{
    if n == 0 {
        Seq::empty()
    } else {
        mask_defs(sc, x, (n - 1) as nat) + mask_def(sc, x, n - 1)
    }
}

#[verifier::spinoff_prover]
fn write_mask_def(out: &mut String, sc: &SceneText, x: &PreservedExtras, i: usize)
    requires
        i < sc.masks@.len(),
        extras_fit(*x),
        scene_fits(*sc),
    ensures
        final(out)@ == old(out)@ + mask_def(*sc, *x, i as int),
{
    assert(i < sc.masks.len());
    let m = &sc.masks[i];
    match override_exec(&x.mask_refs, &x.masks_raw, m.fingerprint.as_str()) {
        Some(o) => match find_with_id(&x.masks_raw, o) {
            Some(e) => {
                proof {
                    lemma_last_with_id_in(x.masks_raw@, o@);
                    reveal(extras_fit);
                    reveal(elems_fit);
                }
                write_element_verbatim(out, e, 2);
                return;
            },
            None => {},
        },
        None => {},
    }
    let ghost start = out@;
    let id = synth_id_exec("mask", i);
    push_str(out, "    <mask id=\"");
    let e = escape_attr(id.as_str());
    push_str(out, e.as_str());
    push_str(out, "\"");
    if m.alpha {
        push_str(out, " mask-type=\"alpha\"");
    }
    push_str(out, ">\n");
    let mut path: Vec<usize> = Vec::new();
    proof {
        reveal(scene_fits);
        assert(node_height(sc.masks@[i as int].content) <= tree_limit());
        assert(path@ =~= Seq::<usize>::empty());
    }
    write_node(out, &m.content, 3, sc, x, false, &mut path);
    push_str(out, "    </mask>\n");
    assert(out@ =~= start + synth_mask(*sc, *x, i as int));
}

/// Whether some preserved definition or scene resource needs `<defs>`.
pub open spec fn has_defs(sc: SceneText, x: PreservedExtras) -> bool {
    sc.gradients@.len() > 0 || sc.clips@.len() > 0 || sc.masks@.len() > 0 || x.styles@.len() > 0
        || x.filters@.len() > 0 || x.patterns@.len() > 0 || x.markers@.len() > 0 || x.gradients@.len()
        > 0 || x.defs_targets@.len() > 0
}

/// The preserved definitions, in writing order.
#[verifier::opaque]
pub open spec fn preserved_defs(x: PreservedExtras) -> Seq<char> {
    raws_text(x.defs_targets@, 2) + styles_text(x.styles@) + raws_text(x.filters@, 2) + raws_text(
        x.patterns@,
        2,
    ) + raws_text(x.markers@, 2) + raws_text(x.gradients@, 2)
}

/// The `<defs>` block.
pub open spec fn defs_text(sc: SceneText, x: PreservedExtras) -> Seq<char> {
    if has_defs(sc, x) {
        "  <defs>\n"@ + preserved_defs(x) + gradient_defs(sc, x, sc.gradients@.len()) + clip_defs(
            sc,
            x,
            sc.clips@.len(),
        ) + mask_defs(sc, x, sc.masks@.len()) + "  </defs>\n"@
    } else {
        Seq::empty()
    }
}

proof fn lemma_extras_fit(x: PreservedExtras)
    requires
        extras_fit(x),
    ensures
        elems_fit(x.defs_targets@),
        elems_fit(x.filters@),
        elems_fit(x.patterns@),
        elems_fit(x.markers@),
        elems_fit(x.gradients@),
        elems_fit(x.foreign_objects@),
        elems_fit(x.views@),
        elems_fit(x.metadata@),
{
    reveal(extras_fit);
}

#[verifier::spinoff_prover]
fn write_preserved_defs(out: &mut String, x: &PreservedExtras)
    requires
        extras_fit(*x),
    ensures
        final(out)@ == old(out)@ + preserved_defs(*x),
{
    proof {
        lemma_extras_fit(*x);
    }
    write_raws(out, &x.defs_targets, 2);
    write_styles(out, &x.styles);
    write_raws(out, &x.filters, 2);
    write_raws(out, &x.patterns, 2);
    write_raws(out, &x.markers, 2);
    write_raws(out, &x.gradients, 2);
    reveal(preserved_defs);
    assert(out@ =~= old(out)@ + preserved_defs(*x));
}

#[verifier::spinoff_prover]
fn write_clip_defs(out: &mut String, sc: &SceneText, x: &PreservedExtras)
    requires
        extras_fit(*x),
    ensures
        final(out)@ == old(out)@ + clip_defs(*sc, *x, sc.clips@.len()),
{
    let mut k: usize = 0;
    proof {
        reveal_with_fuel(clip_defs, 1);
    }
    assert(out@ =~= old(out)@ + clip_defs(*sc, *x, 0));
    while k < sc.clips.len()
        invariant
            k <= sc.clips@.len(),
            extras_fit(*x),
            out@ == old(out)@ + clip_defs(*sc, *x, k as nat),
        decreases sc.clips@.len() - k,
    {
        write_clip_def(out, sc, x, k);
        proof {
            reveal_with_fuel(clip_defs, 2);
        }
        k += 1;
    }
}

#[verifier::spinoff_prover]
fn write_mask_defs(out: &mut String, sc: &SceneText, x: &PreservedExtras)
    requires
        extras_fit(*x),
        scene_fits(*sc),
    ensures
        final(out)@ == old(out)@ + mask_defs(*sc, *x, sc.masks@.len()),
{
    let mut k: usize = 0;
    proof {
        reveal_with_fuel(mask_defs, 1);
    }
    assert(out@ =~= old(out)@ + mask_defs(*sc, *x, 0));
    while k < sc.masks.len()
        invariant
            k <= sc.masks@.len(),
            extras_fit(*x),
            scene_fits(*sc),
            out@ == old(out)@ + mask_defs(*sc, *x, k as nat),
        decreases sc.masks@.len() - k,
    {
        write_mask_def(out, sc, x, k);
        proof {
            reveal_with_fuel(mask_defs, 2);
        }
        k += 1;
    }
}

#[verifier::spinoff_prover]
fn write_defs(out: &mut String, sc: &SceneText, x: &PreservedExtras)
    requires
        extras_fit(*x),
        scene_fits(*sc),
    ensures
        final(out)@ == old(out)@ + defs_text(*sc, *x),
{
    let ghost start = old(out)@;
    let any = sc.gradients.len() > 0 || sc.clips.len() > 0 || sc.masks.len() > 0 || x.styles.len() > 0
        || x.filters.len() > 0 || x.patterns.len() > 0 || x.markers.len() > 0 || x.gradients.len() > 0
        || x.defs_targets.len() > 0;
    if !any {
        assert(out@ =~= start + defs_text(*sc, *x));
        return;
    }
    push_str(out, "  <defs>\n");
    write_preserved_defs(out, x);
    write_gradient_defs(out, sc, x);
    write_clip_defs(out, sc, x);
    write_mask_defs(out, sc, x);
    push_str(out, "  </defs>\n");
    assert(out@ =~= start + defs_text(*sc, *x));
}


/// `<script>` elements at `depth`.
pub open spec fn scripts_text(v: Seq<Element>, depth: nat) -> Seq<char>
    decreases v.len(),
{
    if v.len() == 0 {
        Seq::empty()
    } else {
        scripts_text(v.drop_last(), depth) + script_spec(v.last().model(), depth)
    }
}

#[verifier::spinoff_prover]
fn write_scripts(out: &mut String, v: &Vec<Element>, depth: usize)
    ensures
        final(out)@ == old(out)@ + scripts_text(v@, depth as nat),
{
    let ghost w = v@;
    let mut k: usize = 0;
    assert(w.take(0) =~= Seq::<Element>::empty());
    while k < v.len()
        invariant
            k <= w.len(),
            w == v@,
            out@ == old(out)@ + scripts_text(w.take(k as int), depth as nat),
        decreases w.len() - k,
    {
        write_script_element(out, &v[k], depth);
        proof {
            assert(w.take(k + 1).drop_last() =~= w.take(k as int));
            assert(w.take(k + 1).last() == w[k as int]);
        }
        k += 1;
    }
    assert(w.take(k as int) =~= w);
}

/// Every preserved image's `href` can be written back.
pub open spec fn images_encodable(x: PreservedExtras) -> bool {
    forall|i: int| 0 <= i < x.images@.len() ==> href_encodable(#[trigger] x.images@[i].href@)
}

/// `<image>` elements, one indentation level deep.
pub open spec fn images_text(v: Seq<ImageAttrs>) -> Seq<char>
    decreases v.len(),
{
    if v.len() == 0 {
        Seq::empty()
    } else {
        images_text(v.drop_last()) + image_element_text("  "@, v.last())
    }
}

#[verifier::spinoff_prover]
fn write_images(out: &mut String, x: &PreservedExtras)
    requires
        images_encodable(*x),
    ensures
        final(out)@ == old(out)@ + images_text(x.images@),
{
    let ghost w = x.images@;
    let mut k: usize = 0;
    assert(w.take(0) =~= Seq::<ImageAttrs>::empty());
    while k < x.images.len()
        invariant
            k <= w.len(),
            w == x.images@,
            images_encodable(*x),
            out@ == old(out)@ + images_text(w.take(k as int)),
        decreases w.len() - k,
    {
        assert(href_encodable(w[k as int].href@));
        write_image_element(out, "  ", &x.images[k]);
        proof {
            assert(w.take(k + 1).drop_last() =~= w.take(k as int));
            assert(w.take(k + 1).last() == w[k as int]);
        }
        k += 1;
    }
    assert(w.take(k as int) =~= w);
}

/// Whether some recorded source id is `id`.
pub open spec fn known_id(ids: Seq<IdScenePath>, id: Seq<char>) -> bool {
    exists|k: int| 0 <= k < ids.len() && (#[trigger] ids[k]).id@ == id
}

/// An animation that is not inlined at a scene node: it names no
/// parent, or one no recorded source id names.
pub open spec fn is_orphan(f: AnimationFragment, ids: Seq<IdScenePath>) -> bool {
    match f.parent_id {
        Some(pid) => !known_id(ids, pid@),
        None => true,
    }
}

/// The animations not inlined anywhere, each after a comment naming its
/// parent when it has one.
pub open spec fn orphans_text(a: Seq<AnimationFragment>, ids: Seq<IdScenePath>) -> Seq<char>
    decreases a.len(),
{
    if a.len() == 0 {
        Seq::empty()
    } else {
        orphans_text(a.drop_last(), ids) + if is_orphan(a.last(), ids) {
            (match a.last().parent_id {
                Some(pid) => "  <!-- animation parent: #"@ + pid@ + " -->\n"@,
                None => Seq::empty(),
            }) + raw_spec(a.last().element.model(), 1)
        } else {
            Seq::empty()
        }
    }
}

#[verifier::spinoff_prover]
fn known_id_exec(ids: &Vec<IdScenePath>, id: &str) -> (b: bool)
    ensures
        b == known_id(ids@, id@),
{
    let mut k: usize = 0;
    while k < ids.len()
        invariant
            k <= ids@.len(),
            forall|j: int| 0 <= j < k ==> (#[trigger] ids@[j]).id@ != id@,
        decreases ids.len() - k,
    {
        if crate::strings::str_eq(ids[k].id.as_str(), id) {
            assert(ids@[k as int].id@ == id@);
            return true;
        }
        k += 1;
    }
    false
}

#[verifier::spinoff_prover]
fn write_orphans(out: &mut String, x: &PreservedExtras)
    requires
        extras_fit(*x),
    ensures
        final(out)@ == old(out)@ + orphans_text(x.animations@, x.id_paths@),
{
    let ghost a = x.animations@;
    let mut k: usize = 0;
    assert(a.take(0) =~= Seq::<AnimationFragment>::empty());
    while k < x.animations.len()
        invariant
            k <= a.len(),
            a == x.animations@,
            extras_fit(*x),
            out@ == old(out)@ + orphans_text(a.take(k as int), x.id_paths@),
        decreases a.len() - k,
    {
        let f = &x.animations[k];
        let orphan = match &f.parent_id {
            Some(pid) => !known_id_exec(&x.id_paths, pid.as_str()),
            None => true,
        };
        if orphan {
            match &f.parent_id {
                Some(pid) => {
                    push_str(out, "  <!-- animation parent: #");
                    push_str(out, pid.as_str());
                    push_str(out, " -->\n");
                },
                None => {},
            }
            assert(height(a[k as int].element.model()) <= tree_limit()) by {
                reveal(extras_fit);
            }
            write_element_verbatim(out, &f.element, 1);
        }
        proof {
            assert(a.take(k + 1).drop_last() =~= a.take(k as int));
            assert(a.take(k + 1).last() == a[k as int]);
        }
        k += 1;
    }
    assert(a.take(k as int) =~= a);
}

/// What follows the scene: preserved foreign objects, views, metadata,
/// scripts and images, the animations not inlined, and the end tag.
pub open spec fn trailer_text(x: PreservedExtras) -> Seq<char> {
    raws_text(x.foreign_objects@, 1) + raws_text(x.views@, 1) + raws_text(x.metadata@, 1)
        + scripts_text(x.scripts@, 1) + images_text(x.images@) + orphans_text(
        x.animations@,
        x.id_paths@,
    ) + "</svg>\n"@
}

#[verifier::spinoff_prover]
fn write_trailer(out: &mut String, x: &PreservedExtras)
    requires
        extras_fit(*x),
        images_encodable(*x),
    ensures
        final(out)@ == old(out)@ + trailer_text(*x),
{
    proof {
        lemma_extras_fit(*x);
    }
    write_raws(out, &x.foreign_objects, 1);
    write_raws(out, &x.views, 1);
    write_raws(out, &x.metadata, 1);
    write_scripts(out, &x.scripts, 1);
    write_images(out, x);
    write_orphans(out, x);
    push_str(out, "</svg>\n");
    assert(out@ =~= old(out)@ + trailer_text(*x));
}

/// The XML declaration and the root start tag.
pub open spec fn header_text(sc: SceneText, x: PreservedExtras) -> Seq<char> {
    "<?xml version=\"1.0\" encoding=\"UTF-8\"?>\n"@ + "<svg xmlns=\"http://www.w3.org/2000/svg\""@
        + plain_attr_text("width"@, sc.width@) + plain_attr_text("height"@, sc.height@) + opt_plain(
        "viewBox"@,
        sc.view_box,
    ) + opt_attr_text("preserveAspectRatio"@, x.root_preserve_aspect_ratio) + ">\n"@
}

/// The document the writer produces for a scene and its side channel.
pub open spec fn svg_document_spec(sc: SceneText, x: PreservedExtras) -> Seq<char> {
    header_text(sc, x) + defs_text(sc, x) + desc_block(x, Seq::empty(), true, 1) + children_text(
        sc.children@,
        Seq::empty(),
        1,
        sc,
        x,
        true,
    ) + trailer_text(x)
}

/// Serialise a scene, re-emitting every preserved definition, reference
/// and fragment of `extras` where it belongs.
#[verifier::spinoff_prover]
pub fn write_svg_document(scene: &SceneText, extras: &PreservedExtras) -> (r: String)
    requires
        extras_fit(*extras),
        scene_fits(*scene),
        images_encodable(*extras),
    ensures
        r@ == svg_document_spec(*scene, *extras),
{
    let mut out = String::new();
    push_str(&mut out, "<?xml version=\"1.0\" encoding=\"UTF-8\"?>\n");
    push_str(&mut out, "<svg xmlns=\"http://www.w3.org/2000/svg\"");
    push_plain(&mut out, "width", scene.width.as_str());
    push_plain(&mut out, "height", scene.height.as_str());
    write_opt_plain(&mut out, "viewBox", &scene.view_box);
    push_opt_attr(&mut out, "preserveAspectRatio", &extras.root_preserve_aspect_ratio);
    push_str(&mut out, ">\n");
    let ghost h = out@;
    assert(h =~= header_text(*scene, *extras));
    write_defs(&mut out, scene, extras);
    let mut path: Vec<usize> = Vec::new();
    assert(path@ =~= Seq::<usize>::empty());
    write_desc_block(&mut out, extras, &path, true, 1);
    proof {
        reveal(scene_fits);
    }
    write_children(&mut out, &scene.children, 1, scene, extras, true, &mut path);
    write_trailer(&mut out, extras);
    assert(out@ =~= svg_document_spec(*scene, *extras));
    out
}

/// [`write_svg_document`] as UTF-8, gzip-compressed (`.svgz`).
#[verifier::spinoff_prover]
pub fn write_svgz_document(scene: &SceneText, extras: &PreservedExtras) -> (r: oxideav_core::Result<
    Vec<u8>,
>)
    requires
        extras_fit(*extras),
        scene_fits(*scene),
        images_encodable(*extras),
    ensures
        r is Ok <==> gzip_encode(encode_utf8(svg_document_spec(*scene, *extras))) is Some,
        r matches Ok(z) ==> {
            &&& Some(z@) == gzip_encode(encode_utf8(svg_document_spec(*scene, *extras)))
            &&& has_gzip_magic(z@)
            &&& gunzip(z@) == Some(encode_utf8(svg_document_spec(*scene, *extras)))
        },
{
    let doc = write_svg_document(scene, extras);
    let bytes = doc.as_str().as_bytes();
    deflate_gzip(bytes)
}


proof fn lemma_empty_extras_fit(x: PreservedExtras)
    requires
        x.is_empty_spec(),
    ensures
        extras_fit(x),
        images_encodable(x),
{
    reveal(extras_fit);
    reveal(elems_fit);
}

/// [`write_svg_document`] with an empty side channel, as UTF-8 bytes.
#[verifier::spinoff_prover]
pub fn write_svg(scene: &SceneText) -> (r: Vec<u8>)
    requires
        scene_fits(*scene),
    ensures
        forall|x: PreservedExtras|
            x.is_empty_spec() ==> r@ == encode_utf8(#[trigger] svg_document_spec(*scene, x)),
{
    let extras = PreservedExtras::new();
    proof {
        lemma_empty_extras_fit(extras);
    }
    let doc = write_svg_document(scene, &extras);
    let r = vstd::slice::slice_to_vec(doc.as_str().as_bytes());
    assert forall|x: PreservedExtras|
        x.is_empty_spec() implies r@ == encode_utf8(#[trigger] svg_document_spec(*scene, x)) by {
        lemma_empty_same_records(extras, x);
        lemma_document_records(*scene, extras, x);
    }
    r
}

/// [`write_svg`], gzip-compressed (`.svgz`).
#[verifier::spinoff_prover]
pub fn write_svgz(scene: &SceneText) -> (r: oxideav_core::Result<Vec<u8>>)
    requires
        scene_fits(*scene),
    ensures
        forall|x: PreservedExtras|
            #![trigger svg_document_spec(*scene, x)]
            x.is_empty_spec() ==> {
                &&& (r is Ok <==> gzip_encode(encode_utf8(svg_document_spec(*scene, x))) is Some)
                &&& r matches Ok(z) ==> {
                    &&& Some(z@) == gzip_encode(encode_utf8(svg_document_spec(*scene, x)))
                    &&& gunzip(z@) == Some(encode_utf8(svg_document_spec(*scene, x)))
                }
            },
{
    let extras = PreservedExtras::new();
    proof {
        lemma_empty_extras_fit(extras);
    }
    let r = write_svgz_document(scene, &extras);
    assert forall|x: PreservedExtras| x.is_empty_spec() implies {
        &&& (r is Ok <==> gzip_encode(encode_utf8(#[trigger] svg_document_spec(*scene, x))) is Some)
        &&& r matches Ok(z) ==> {
            &&& Some(z@) == gzip_encode(encode_utf8(svg_document_spec(*scene, x)))
            &&& gunzip(z@) == Some(encode_utf8(svg_document_spec(*scene, x)))
        }
    } by {
        lemma_empty_same_records(extras, x);
        lemma_document_records(*scene, extras, x);
    }
    r
}


/// Two side channels holding the same records.
pub open spec fn same_records(a: PreservedExtras, b: PreservedExtras) -> bool {
    &&& a.root_preserve_aspect_ratio == b.root_preserve_aspect_ratio
    &&& a.styles@ == b.styles@
    &&& a.filters@ == b.filters@
    &&& a.animations@ == b.animations@
    &&& a.foreign_objects@ == b.foreign_objects@
    &&& a.scripts@ == b.scripts@
    &&& a.id_paths@ == b.id_paths@
    &&& a.patterns@ == b.patterns@
    &&& a.markers@ == b.markers@
    &&& a.gradients@ == b.gradients@
    &&& a.images@ == b.images@
    &&& a.path_lengths@ == b.path_lengths@
    &&& a.views@ == b.views@
    &&& a.links@ == b.links@
    &&& a.titles@ == b.titles@
    &&& a.descs@ == b.descs@
    &&& a.metadata@ == b.metadata@
    &&& a.paint_orders@ == b.paint_orders@
    &&& a.vector_effects@ == b.vector_effects@
    &&& a.clip_rules@ == b.clip_rules@
    &&& a.shape_renderings@ == b.shape_renderings@
    &&& a.text_renderings@ == b.text_renderings@
    &&& a.color_renderings@ == b.color_renderings@
    &&& a.color_interpolations@ == b.color_interpolations@
    &&& a.overflows@ == b.overflows@
    &&& a.pointer_eventss@ == b.pointer_eventss@
    &&& a.cursors@ == b.cursors@
    &&& a.dominant_baselines@ == b.dominant_baselines@
    &&& a.uses@ == b.uses@
    &&& a.defs_targets@ == b.defs_targets@
    &&& a.switches@ == b.switches@
    &&& a.texts@ == b.texts@
    &&& a.filter_refs@ == b.filter_refs@
    &&& a.clip_paths_raw@ == b.clip_paths_raw@
    &&& a.masks_raw@ == b.masks_raw@
    &&& a.clip_refs@ == b.clip_refs@
    &&& a.mask_refs@ == b.mask_refs@
    &&& a.marker_refs@ == b.marker_refs@
}

proof fn lemma_node_text_records(
    n: SceneNode,
    p: Seq<usize>,
    depth: nat,
    sc: SceneText,
    a: PreservedExtras,
    b: PreservedExtras,
    live: bool,
)
    requires
        same_records(a, b),
    ensures
        node_text(n, p, depth, sc, a, live) == node_text(n, p, depth, sc, b, live),
    decreases n, 1nat,
{
    reveal_with_fuel(node_text, 1);
    reveal(hint_attrs);
    reveal(marker_text);
    reveal(desc_block);
    reveal(group_open);
    reveal(use_text);
    reveal(path_elem);
    reveal(clip_attr);
    reveal(mask_attr);
    reveal(element_tail);
    reveal(path_length_attr);
    match n {
        SceneNode::Group(g) => {
            lemma_children_text_records(g.children@, p, depth, sc, a, b, live);
            lemma_children_text_records(g.children@, p, depth + 1, sc, a, b, live);
            lemma_children_text_records(g.children@, p, depth + 2, sc, a, b, live);
        },
        SceneNode::SoftMask { mask, content } => {
            lemma_node_text_records(*content, p, depth + 1, sc, a, b, live);
        },
        _ => {},
    }
}

proof fn lemma_children_text_records(
    cs: Seq<SceneNode>,
    p: Seq<usize>,
    depth: nat,
    sc: SceneText,
    a: PreservedExtras,
    b: PreservedExtras,
    live: bool,
)
    requires
        same_records(a, b),
    ensures
        children_text(cs, p, depth, sc, a, live) == children_text(cs, p, depth, sc, b, live),
    decreases cs, 0nat,
{
    reveal_with_fuel(node_text, 1);
    if cs.len() > 0 {
        let sub = cs.subrange(0, cs.len() - 1);
        let q = p.push((cs.len() - 1) as usize);
        lemma_children_text_records(sub, p, depth, sc, a, b, live);
        lemma_node_text_records(cs[cs.len() - 1], q, depth, sc, a, b, live);
        assert(children_text(cs, p, depth, sc, a, live) == children_text(sub, p, depth, sc, a, live)
            + node_text(cs[cs.len() - 1], q, depth, sc, a, live));
        assert(children_text(cs, p, depth, sc, b, live) == children_text(sub, p, depth, sc, b, live)
            + node_text(cs[cs.len() - 1], q, depth, sc, b, live));
    }
}

proof fn lemma_defs_records(sc: SceneText, a: PreservedExtras, b: PreservedExtras, n: nat)
    requires
        same_records(a, b),
    ensures
        gradient_defs(sc, a, n) == gradient_defs(sc, b, n),
        clip_defs(sc, a, n) == clip_defs(sc, b, n),
        mask_defs(sc, a, n) == mask_defs(sc, b, n),
    decreases n,
{
    reveal_with_fuel(gradient_defs, 1);
    reveal_with_fuel(clip_defs, 1);
    reveal_with_fuel(mask_defs, 1);
    if n > 0 {
        lemma_defs_records(sc, a, b, (n - 1) as nat);
        lemma_node_text_records(sc.masks@[n - 1].content, Seq::empty(), 3, sc, a, b, false);
    }
}

/// What the writer produces depends on the records the side channel
/// holds, not on which value holds them.
pub proof fn lemma_document_records(sc: SceneText, a: PreservedExtras, b: PreservedExtras)
    requires
        same_records(a, b),
    ensures
        svg_document_spec(sc, a) == svg_document_spec(sc, b),
{
    reveal(preserved_defs);
    reveal(desc_block);
    lemma_defs_records(sc, a, b, sc.gradients@.len());
    lemma_defs_records(sc, a, b, sc.clips@.len());
    lemma_defs_records(sc, a, b, sc.masks@.len());
    lemma_children_text_records(sc.children@, Seq::empty(), 1, sc, a, b, true);
}

proof fn lemma_empty_same_records(a: PreservedExtras, b: PreservedExtras)
    requires
        a.is_empty_spec(),
        b.is_empty_spec(),
    ensures
        same_records(a, b),
{
    assert(a.styles@ =~= b.styles@);
    assert(a.filters@ =~= b.filters@);
    assert(a.animations@ =~= b.animations@);
    assert(a.foreign_objects@ =~= b.foreign_objects@);
    assert(a.scripts@ =~= b.scripts@);
    assert(a.id_paths@ =~= b.id_paths@);
    assert(a.patterns@ =~= b.patterns@);
    assert(a.markers@ =~= b.markers@);
    assert(a.gradients@ =~= b.gradients@);
    assert(a.images@ =~= b.images@);
    assert(a.path_lengths@ =~= b.path_lengths@);
    assert(a.views@ =~= b.views@);
    assert(a.links@ =~= b.links@);
    assert(a.titles@ =~= b.titles@);
    assert(a.descs@ =~= b.descs@);
    assert(a.metadata@ =~= b.metadata@);
    assert(a.paint_orders@ =~= b.paint_orders@);
    assert(a.vector_effects@ =~= b.vector_effects@);
    assert(a.clip_rules@ =~= b.clip_rules@);
    assert(a.shape_renderings@ =~= b.shape_renderings@);
    assert(a.text_renderings@ =~= b.text_renderings@);
    assert(a.color_renderings@ =~= b.color_renderings@);
    assert(a.color_interpolations@ =~= b.color_interpolations@);
    assert(a.overflows@ =~= b.overflows@);
    assert(a.pointer_eventss@ =~= b.pointer_eventss@);
    assert(a.cursors@ =~= b.cursors@);
    assert(a.dominant_baselines@ =~= b.dominant_baselines@);
    assert(a.uses@ =~= b.uses@);
    assert(a.defs_targets@ =~= b.defs_targets@);
    assert(a.switches@ =~= b.switches@);
    assert(a.texts@ =~= b.texts@);
    assert(a.filter_refs@ =~= b.filter_refs@);
    assert(a.clip_paths_raw@ =~= b.clip_paths_raw@);
    assert(a.masks_raw@ =~= b.masks_raw@);
    assert(a.clip_refs@ =~= b.clip_refs@);
    assert(a.mask_refs@ =~= b.mask_refs@);
    assert(a.marker_refs@ =~= b.marker_refs@);
}
} // verus!
