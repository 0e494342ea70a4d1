//! The structure of a `<filter>` element (W3C Filter Effects): which
//! children are recognised primitives, in source order, and how their
//! inputs chain (§6.2): a primitive without `in` reads the output of the
//! primitive just before it, by its `result` name when it has one, and
//! the first primitive reads `SourceGraphic`. The numeric
//! attributes of each primitive are floating point and are read by the
//! caller from the child at the recorded position.
use vstd::prelude::*;
use vstd::string::*;

use crate::filter::{FilterInput, SFilterInput};
use crate::parser::{
    attr, attr_spec, lemma_nodes_model, nodes_model, tag_local, tag_local_spec, Element, Node,
    SElement, SNode,
};
use crate::strings::{str_eq, str_trim, to_owned_string, trim};

verus! {

/// The filter primitives the graph reader recognises.
#[derive(Clone, Copy, Debug, PartialEq, Eq, Structural)]
pub enum PrimitiveKind {
    GaussianBlur,
    Offset,
    Flood,
    Composite,
    Blend,
    Morphology,
    ColorMatrix,
    Merge,
    ComponentTransfer,
    DropShadow,
    ConvolveMatrix,
    Turbulence,
    DisplacementMap,
    DiffuseLighting,
    SpecularLighting,
    Image,
    Tile,
}

/// The primitive a lower-cased local element name names.
pub open spec fn primitive_kind_spec(local: Seq<char>) -> Option<PrimitiveKind> {
    if local == "fegaussianblur"@ {
        Some(PrimitiveKind::GaussianBlur)
    } else if local == "feoffset"@ {
        Some(PrimitiveKind::Offset)
    } else if local == "feflood"@ {
        Some(PrimitiveKind::Flood)
    } else if local == "fecomposite"@ {
        Some(PrimitiveKind::Composite)
    } else if local == "feblend"@ {
        Some(PrimitiveKind::Blend)
    } else if local == "femorphology"@ {
        Some(PrimitiveKind::Morphology)
    } else if local == "fecolormatrix"@ {
        Some(PrimitiveKind::ColorMatrix)
    } else if local == "femerge"@ {
        Some(PrimitiveKind::Merge)
    } else if local == "fecomponenttransfer"@ {
        Some(PrimitiveKind::ComponentTransfer)
    } else if local == "fedropshadow"@ {
        Some(PrimitiveKind::DropShadow)
    } else if local == "feconvolvematrix"@ {
        Some(PrimitiveKind::ConvolveMatrix)
    } else if local == "feturbulence"@ {
        Some(PrimitiveKind::Turbulence)
    } else if local == "fedisplacementmap"@ {
        Some(PrimitiveKind::DisplacementMap)
    } else if local == "fediffuselighting"@ {
        Some(PrimitiveKind::DiffuseLighting)
    } else if local == "fespecularlighting"@ {
        Some(PrimitiveKind::SpecularLighting)
    } else if local == "feimage"@ {
        Some(PrimitiveKind::Image)
    } else if local == "fetile"@ {
        Some(PrimitiveKind::Tile)
    } else {
        None
    }
}

/// Recognise a primitive by its lower-cased local element name.
pub fn primitive_kind(local: &str) -> (r: Option<PrimitiveKind>)
    ensures
        r == primitive_kind_spec(local@),
{
    if str_eq(local, "fegaussianblur") {
        Some(PrimitiveKind::GaussianBlur)
    } else if str_eq(local, "feoffset") {
        Some(PrimitiveKind::Offset)
    } else if str_eq(local, "feflood") {
        Some(PrimitiveKind::Flood)
    } else if str_eq(local, "fecomposite") {
        Some(PrimitiveKind::Composite)
    } else if str_eq(local, "feblend") {
        Some(PrimitiveKind::Blend)
    } else if str_eq(local, "femorphology") {
        Some(PrimitiveKind::Morphology)
    } else if str_eq(local, "fecolormatrix") {
        Some(PrimitiveKind::ColorMatrix)
    } else if str_eq(local, "femerge") {
        Some(PrimitiveKind::Merge)
    } else if str_eq(local, "fecomponenttransfer") {
        Some(PrimitiveKind::ComponentTransfer)
    } else if str_eq(local, "fedropshadow") {
        Some(PrimitiveKind::DropShadow)
    } else if str_eq(local, "feconvolvematrix") {
        Some(PrimitiveKind::ConvolveMatrix)
    } else if str_eq(local, "feturbulence") {
        Some(PrimitiveKind::Turbulence)
    } else if str_eq(local, "fedisplacementmap") {
        Some(PrimitiveKind::DisplacementMap)
    } else if str_eq(local, "fediffuselighting") {
        Some(PrimitiveKind::DiffuseLighting)
    } else if str_eq(local, "fespecularlighting") {
        Some(PrimitiveKind::SpecularLighting)
    } else if str_eq(local, "feimage") {
        Some(PrimitiveKind::Image)
    } else if str_eq(local, "fetile") {
        Some(PrimitiveKind::Tile)
    } else {
        None
    }
}

/// Primitives with an `in` slot (all but the generators).
pub open spec fn takes_input(k: PrimitiveKind) -> bool {
    !(k == PrimitiveKind::Flood || k == PrimitiveKind::Turbulence || k == PrimitiveKind::Image)
}

/// Primitives with an `in2` slot.
pub open spec fn takes_input2(k: PrimitiveKind) -> bool {
    k == PrimitiveKind::Composite || k == PrimitiveKind::Blend || k == PrimitiveKind::DisplacementMap
}

/// The `in` of a primitive: its own attribute, else the output of the
/// preceding primitive (`prev`), else `SourceGraphic`.
pub open spec fn default_input(c: SElement, prev: Option<SFilterInput>) -> SFilterInput {
    match attr_spec(c, "in"@) {
        Some(v) => FilterInput::spec_parse(trim(v)),
        None => match prev {
            Some(p) => p,
            None => SFilterInput::SourceGraphic,
        },
    }
}

/// How the primitives after `o` refer to its output: by its `result`
/// name, or, when it has none, as the preceding primitive's output.
pub open spec fn output_input(o: SOutline) -> SFilterInput {
    match o.result {
        Some(r) => SFilterInput::Reference(r),
        None => SFilterInput::Previous,
    }
}

/// The `in2` of a primitive: its attribute, else `SourceGraphic`.
pub open spec fn second_input(c: SElement) -> SFilterInput {
    match attr_spec(c, "in2"@) {
        Some(v) => FilterInput::spec_parse(trim(v)),
        None => SFilterInput::SourceGraphic,
    }
}

/// The inputs of the `<feMergeNode>` children of a `<feMerge>`, in order.
pub open spec fn merge_inputs_spec(cs: Seq<SNode>, prev: Option<SFilterInput>) -> Seq<SFilterInput>
    decreases cs.len(),
{
    if cs.len() == 0 {
        Seq::empty()
    } else {
        let rest = merge_inputs_spec(cs.drop_last(), prev);
        match cs.last() {
            SNode::Element(m) => if tag_local_spec(m.name) == "femergenode"@ {
                rest.push(default_input(m, prev))
            } else {
                rest
            },
            SNode::Text(_) => rest,
        }
    }
}

/// One recognised primitive of a filter, with its resolved inputs.
#[derive(Clone, Debug)]
pub struct PrimitiveOutline {
    pub kind: PrimitiveKind,
    /// Position of the primitive's element among the filter's children.
    pub index: usize,
    /// The `in` input, for primitives that have one.
    pub input: Option<FilterInput>,
    /// The `in2` input, for primitives that have one.
    pub input2: Option<FilterInput>,
    /// `<feMerge>` only: the inputs of its `<feMergeNode>` children.
    pub merge_inputs: Vec<FilterInput>,
    /// The trimmed `result` name, when given.
    pub result: Option<String>,
}

/// Model of a [`PrimitiveOutline`].
pub struct SOutline {
    pub kind: PrimitiveKind,
    pub index: int,
    pub input: Option<SFilterInput>,
    pub input2: Option<SFilterInput>,
    pub merge_inputs: Seq<SFilterInput>,
    pub result: Option<Seq<char>>,
}

pub open spec fn opt_input_model(i: Option<FilterInput>) -> Option<SFilterInput> {
    match i {
        Some(x) => Some(x.model()),
        None => None,
    }
}

pub open spec fn inputs_model(v: Seq<FilterInput>) -> Seq<SFilterInput> {
    v.map_values(|x: FilterInput| x.model())
}

pub open spec fn opt_string_model(s: Option<String>) -> Option<Seq<char>> {
    match s {
        Some(x) => Some(x@),
        None => None,
    }
}

impl PrimitiveOutline {
    pub open spec fn model(&self) -> SOutline {
        SOutline {
            kind: self.kind,
            index: self.index as int,
            input: opt_input_model(self.input),
            input2: opt_input_model(self.input2),
            merge_inputs: inputs_model(self.merge_inputs@),
            result: opt_string_model(self.result),
        }
    }
}

pub open spec fn outlines_model(v: Seq<PrimitiveOutline>) -> Seq<SOutline> {
    v.map_values(|x: PrimitiveOutline| x.model())
}

/// The outline of the primitive element `c` at position `i`.
pub open spec fn outline_of(c: SElement, k: PrimitiveKind, i: int, prev: Option<SFilterInput>) -> SOutline {
    SOutline {
        kind: k,
        index: i,
        input: if takes_input(k) {
            Some(default_input(c, prev))
        } else {
            None
        },
        input2: if takes_input2(k) {
            Some(second_input(c))
        } else {
            None
        },
        merge_inputs: if k == PrimitiveKind::Merge {
            merge_inputs_spec(c.children, prev)
        } else {
            Seq::empty()
        },
        result: match attr_spec(c, "result"@) {
            Some(r) => Some(trim(r)),
            None => None,
        },
    }
}

/// The outlines of the recognised primitives among `cs`, and how a
/// primitive after them reads the last one's output (`None` while there
/// is none).
pub open spec fn outline_state(cs: Seq<SNode>) -> (Seq<SOutline>, Option<SFilterInput>)
    decreases cs.len(),
{
    if cs.len() == 0 {
        (Seq::empty(), None)
    } else {
        let before = outline_state(cs.drop_last());
        match cs.last() {
            SNode::Element(c) => match primitive_kind_spec(tag_local_spec(c.name)) {
                Some(k) => {
                    let o = outline_of(c, k, cs.len() - 1, before.1);
                    (before.0.push(o), Some(output_input(o)))
                },
                None => before,
            },
            SNode::Text(_) => before,
        }
    }
}

/// A child element that names a recognised primitive.
pub open spec fn is_primitive_node(n: SNode) -> bool {
    n matches SNode::Element(c) && primitive_kind_spec(tag_local_spec(c.name)) is Some
}

/// Filter Effects §6.2, over the outlines of a filter's children `cs`:
/// each outline stands for a recognised primitive child, in source
/// order; a primitive with an input slot and no `in` attribute reads
/// `SourceGraphic` when it is the first primitive and otherwise the
/// output of the primitive just before it, named or not. Every
/// recognised child has its outline.
pub proof fn lemma_implicit_input_chain(cs: Seq<SNode>)
    ensures
        ({
            let os = outline_state(cs).0;
            &&& outline_state(cs).1 == (if os.len() == 0 {
                None
            } else {
                Some(output_input(os.last()))
            })
            &&& forall|j: int, k: int| 0 <= j < k < os.len() ==> os[j].index < os[k].index
            &&& forall|i: int|
                0 <= i < cs.len() && #[trigger] is_primitive_node(cs[i]) ==> exists|j: int|
                    0 <= j < os.len() && #[trigger] os[j].index == i
            &&& forall|j: int|
                #![trigger os[j]]
                0 <= j < os.len() ==> {
                    &&& 0 <= os[j].index < cs.len()
                    &&& cs[os[j].index] matches SNode::Element(c) && primitive_kind_spec(
                        tag_local_spec(c.name),
                    ) == Some(os[j].kind) && (takes_input(os[j].kind) && attr_spec(c, "in"@) is None
                        ==> os[j].input == Some(
                        if j == 0 {
                            SFilterInput::SourceGraphic
                        } else {
                            output_input(os[j - 1])
                        },
                    ))
                }
        }),
    decreases cs.len(),
{
    if cs.len() > 0 {
        let p = cs.drop_last();
        lemma_implicit_input_chain(p);
        let ps = outline_state(p).0;
        let os = outline_state(cs).0;
        assert forall|j: int| 0 <= j < ps.len() implies #[trigger] cs[ps[j].index] == p[ps[j].index] by {}
        assert forall|i: int| 0 <= i < p.len() implies #[trigger] cs[i] == p[i] by {}
        match cs.last() {
            SNode::Element(c) => match primitive_kind_spec(tag_local_spec(c.name)) {
                Some(k) => {
                    assert(os == ps.push(outline_of(c, k, cs.len() - 1, outline_state(p).1)));
                    assert(cs[cs.len() - 1] == cs.last());
                    assert forall|i: int|
                        0 <= i < cs.len() && #[trigger] is_primitive_node(cs[i]) implies exists|j: int|
                            0 <= j < os.len() && #[trigger] os[j].index == i by {
                        if i == cs.len() - 1 {
                            assert(os[ps.len() as int].index == i);
                        } else {
                            assert(is_primitive_node(p[i]));
                            let j = choose|j: int| 0 <= j < ps.len() && #[trigger] ps[j].index == i;
                            assert(os[j] == ps[j]);
                        }
                    }
                },
                None => {},
            },
            SNode::Text(_) => {},
        }
    }
}

/// The `in` of a primitive element, given the preceding output.
fn default_input_x(c: &Element, prev: &Option<FilterInput>) -> (r: FilterInput)
    ensures
        r.model() == default_input(c.model(), opt_input_model(*prev)),
{
    match attr(c, "in") {
        Some(s) => FilterInput::from_str(s),
        None => match prev {
            Some(p) => p.duplicate(),
            None => FilterInput::SourceGraphic,
        },
    }
}

fn merge_inputs(m: &Element, prev: &Option<FilterInput>) -> (r: Vec<FilterInput>)
    ensures
        inputs_model(r@) == merge_inputs_spec(m.model().children, opt_input_model(*prev)),
{
    let ghost cs = nodes_model(m.children@);
    let mut out: Vec<FilterInput> = Vec::new();
    let mut j: usize = 0;
    proof {
        lemma_nodes_model(m.children@);
        assert(cs.take(0) =~= Seq::<SNode>::empty());
        assert(inputs_model(out@) =~= Seq::<SFilterInput>::empty());
    }
    while j < m.children.len()
        invariant
            j <= m.children@.len(),
            cs == nodes_model(m.children@),
            cs.len() == m.children@.len(),
            forall|k: int| 0 <= k < m.children@.len() ==> #[trigger] cs[k] == m.children@[k].model(),
            inputs_model(out@) == merge_inputs_spec(cs.take(j as int), opt_input_model(*prev)),
        decreases m.children@.len() - j,
    {
        let ghost t = cs.take(j + 1);
        assert(t.drop_last() =~= cs.take(j as int));
        assert(t.last() == m.children@[j as int].model());
        match &m.children[j] {
            Node::Element(c) => {
                let local = tag_local(c.name.as_str());
                if str_eq(local.as_str(), "femergenode") {
                    let x = default_input_x(c, prev);
                    let ghost old = out@;
                    out.push(x);
                    assert(inputs_model(out@) =~= inputs_model(old).push(x.model()));
                }
            },
            Node::Text(_) => {},
        }
        j += 1;
    }
    assert(cs.take(j as int) =~= cs);
    out
}

/// The recognised primitives of a `<filter>` element, in source order,
/// each input without `in` reading the preceding primitive's output;
/// other children are skipped.
pub fn filter_outline(el: &Element) -> (r: Vec<PrimitiveOutline>)
    ensures
        outlines_model(r@) == outline_state(el.model().children).0,
{
    let ghost cs = nodes_model(el.children@);
    let mut out: Vec<PrimitiveOutline> = Vec::new();
    let mut prev: Option<FilterInput> = None;
    let mut i: usize = 0;
    proof {
        lemma_nodes_model(el.children@);
        assert(cs.take(0) =~= Seq::<SNode>::empty());
        assert(outlines_model(out@) =~= Seq::<SOutline>::empty());
    }
    while i < el.children.len()
        invariant
            i <= el.children@.len(),
            cs == nodes_model(el.children@),
            cs.len() == el.children@.len(),
            forall|k: int| 0 <= k < el.children@.len() ==> #[trigger] cs[k] == el.children@[k].model(),
            outlines_model(out@) == outline_state(cs.take(i as int)).0,
            opt_input_model(prev) == outline_state(cs.take(i as int)).1,
        decreases el.children@.len() - i,
    {
        let ghost t = cs.take(i + 1);
        assert(t.drop_last() =~= cs.take(i as int));
        assert(t.last() == el.children@[i as int].model());
        match &el.children[i] {
            Node::Element(c) => {
                let local = tag_local(c.name.as_str());
                match primitive_kind(local.as_str()) {
                    Some(k) => {
                        let takes_in = !(k == PrimitiveKind::Flood || k == PrimitiveKind::Turbulence
                            || k == PrimitiveKind::Image);
                        let input = if takes_in {
                            Some(default_input_x(c, &prev))
                        } else {
                            None
                        };
                        let takes_in2 = k == PrimitiveKind::Composite || k == PrimitiveKind::Blend
                            || k == PrimitiveKind::DisplacementMap;
                        let input2 = if takes_in2 {
                            match attr(c, "in2") {
                                Some(s) => Some(FilterInput::from_str(s)),
                                None => Some(FilterInput::SourceGraphic),
                            }
                        } else {
                            None
                        };
                        let merged = if k == PrimitiveKind::Merge {
                            merge_inputs(c, &prev)
                        } else {
                            Vec::new()
                        };
                        let result = match attr(c, "result") {
                            Some(r) => Some(to_owned_string(str_trim(r))),
                            None => None,
                        };
                        let o = PrimitiveOutline {
                            kind: k,
                            index: i,
                            input,
                            input2,
                            merge_inputs: merged,
                            result: result.clone(),
                        };
                        let ghost old = out@;
                        out.push(o);
                        proof {
                            if k != PrimitiveKind::Merge {
                                assert(inputs_model(o.merge_inputs@) =~= Seq::<SFilterInput>::empty());
                            }
                            assert(outlines_model(out@) =~= outlines_model(old).push(o.model()));
                        }
                        prev = match result {
                            Some(r) => Some(FilterInput::Reference(r)),
                            None => Some(FilterInput::Previous),
                        };
                    },
                    None => {},
                }
            },
            Node::Text(_) => {},
        }
        i += 1;
    }
    assert(cs.take(i as int) =~= cs);
    out
}


/// The element name (local, lower-case) of each primitive.
pub open spec fn element_name(k: PrimitiveKind) -> Seq<char> {
    match k {
        PrimitiveKind::GaussianBlur => "fegaussianblur"@,
        PrimitiveKind::Offset => "feoffset"@,
        PrimitiveKind::Flood => "feflood"@,
        PrimitiveKind::Composite => "fecomposite"@,
        PrimitiveKind::Blend => "feblend"@,
        PrimitiveKind::Morphology => "femorphology"@,
        PrimitiveKind::ColorMatrix => "fecolormatrix"@,
        PrimitiveKind::Merge => "femerge"@,
        PrimitiveKind::ComponentTransfer => "fecomponenttransfer"@,
        PrimitiveKind::DropShadow => "fedropshadow"@,
        PrimitiveKind::ConvolveMatrix => "feconvolvematrix"@,
        PrimitiveKind::Turbulence => "feturbulence"@,
        PrimitiveKind::DisplacementMap => "fedisplacementmap"@,
        PrimitiveKind::DiffuseLighting => "fediffuselighting"@,
        PrimitiveKind::SpecularLighting => "fespecularlighting"@,
        PrimitiveKind::Image => "feimage"@,
        PrimitiveKind::Tile => "fetile"@,
    }
}

/// A lower-cased local element name is read as primitive `k` exactly
/// when it is `k`'s own element name (`fecolormatrix` is the colour
/// matrix, `fecomponenttransfer` the component transfer, …), so no two
/// names read as the same primitive.
pub proof fn lemma_primitive_names(local: Seq<char>, k: PrimitiveKind)
    ensures
        (primitive_kind_spec(local) == Some(k)) == (local == element_name(k)),
{
    reveal_strlit("fegaussianblur");
    reveal_strlit("feoffset");
    reveal_strlit("feflood");
    reveal_strlit("fecomposite");
    reveal_strlit("feblend");
    reveal_strlit("femorphology");
    reveal_strlit("fecolormatrix");
    reveal_strlit("femerge");
    reveal_strlit("fecomponenttransfer");
    reveal_strlit("fedropshadow");
    reveal_strlit("feconvolvematrix");
    reveal_strlit("feturbulence");
    reveal_strlit("fedisplacementmap");
    reveal_strlit("fediffuselighting");
    reveal_strlit("fespecularlighting");
    reveal_strlit("feimage");
    reveal_strlit("fetile");
    assert("fegaussianblur"@.len() == 14 && "fegaussianblur"@[0] == 'f' && "fegaussianblur"@[1] == 'e' && "fegaussianblur"@[2] == 'g' && "fegaussianblur"@[3] == 'a' && "fegaussianblur"@[4] == 'u' && "fegaussianblur"@[5] == 's' && "fegaussianblur"@[6] == 's' && "fegaussianblur"@[7] == 'i' && "fegaussianblur"@[8] == 'a' && "fegaussianblur"@[9] == 'n' && "fegaussianblur"@[10] == 'b' && "fegaussianblur"@[11] == 'l' && "fegaussianblur"@[12] == 'u' && "fegaussianblur"@[13] == 'r');
    assert("feoffset"@.len() == 8 && "feoffset"@[0] == 'f' && "feoffset"@[1] == 'e' && "feoffset"@[2] == 'o' && "feoffset"@[3] == 'f' && "feoffset"@[4] == 'f' && "feoffset"@[5] == 's' && "feoffset"@[6] == 'e' && "feoffset"@[7] == 't');
    assert("feflood"@.len() == 7 && "feflood"@[0] == 'f' && "feflood"@[1] == 'e' && "feflood"@[2] == 'f' && "feflood"@[3] == 'l' && "feflood"@[4] == 'o' && "feflood"@[5] == 'o' && "feflood"@[6] == 'd');
    assert("fecomposite"@.len() == 11 && "fecomposite"@[0] == 'f' && "fecomposite"@[1] == 'e' && "fecomposite"@[2] == 'c' && "fecomposite"@[3] == 'o' && "fecomposite"@[4] == 'm' && "fecomposite"@[5] == 'p' && "fecomposite"@[6] == 'o' && "fecomposite"@[7] == 's' && "fecomposite"@[8] == 'i' && "fecomposite"@[9] == 't' && "fecomposite"@[10] == 'e');
    assert("feblend"@.len() == 7 && "feblend"@[0] == 'f' && "feblend"@[1] == 'e' && "feblend"@[2] == 'b' && "feblend"@[3] == 'l' && "feblend"@[4] == 'e' && "feblend"@[5] == 'n' && "feblend"@[6] == 'd');
    assert("femorphology"@.len() == 12 && "femorphology"@[0] == 'f' && "femorphology"@[1] == 'e' && "femorphology"@[2] == 'm' && "femorphology"@[3] == 'o' && "femorphology"@[4] == 'r' && "femorphology"@[5] == 'p' && "femorphology"@[6] == 'h' && "femorphology"@[7] == 'o' && "femorphology"@[8] == 'l' && "femorphology"@[9] == 'o' && "femorphology"@[10] == 'g' && "femorphology"@[11] == 'y');
    assert("fecolormatrix"@.len() == 13 && "fecolormatrix"@[0] == 'f' && "fecolormatrix"@[1] == 'e' && "fecolormatrix"@[2] == 'c' && "fecolormatrix"@[3] == 'o' && "fecolormatrix"@[4] == 'l' && "fecolormatrix"@[5] == 'o' && "fecolormatrix"@[6] == 'r' && "fecolormatrix"@[7] == 'm' && "fecolormatrix"@[8] == 'a' && "fecolormatrix"@[9] == 't' && "fecolormatrix"@[10] == 'r' && "fecolormatrix"@[11] == 'i' && "fecolormatrix"@[12] == 'x');
    assert("femerge"@.len() == 7 && "femerge"@[0] == 'f' && "femerge"@[1] == 'e' && "femerge"@[2] == 'm' && "femerge"@[3] == 'e' && "femerge"@[4] == 'r' && "femerge"@[5] == 'g' && "femerge"@[6] == 'e');
    assert("fecomponenttransfer"@.len() == 19 && "fecomponenttransfer"@[0] == 'f' && "fecomponenttransfer"@[1] == 'e' && "fecomponenttransfer"@[2] == 'c' && "fecomponenttransfer"@[3] == 'o' && "fecomponenttransfer"@[4] == 'm' && "fecomponenttransfer"@[5] == 'p' && "fecomponenttransfer"@[6] == 'o' && "fecomponenttransfer"@[7] == 'n' && "fecomponenttransfer"@[8] == 'e' && "fecomponenttransfer"@[9] == 'n' && "fecomponenttransfer"@[10] == 't' && "fecomponenttransfer"@[11] == 't' && "fecomponenttransfer"@[12] == 'r' && "fecomponenttransfer"@[13] == 'a' && "fecomponenttransfer"@[14] == 'n' && "fecomponenttransfer"@[15] == 's' && "fecomponenttransfer"@[16] == 'f' && "fecomponenttransfer"@[17] == 'e' && "fecomponenttransfer"@[18] == 'r');
    assert("fedropshadow"@.len() == 12 && "fedropshadow"@[0] == 'f' && "fedropshadow"@[1] == 'e' && "fedropshadow"@[2] == 'd' && "fedropshadow"@[3] == 'r' && "fedropshadow"@[4] == 'o' && "fedropshadow"@[5] == 'p' && "fedropshadow"@[6] == 's' && "fedropshadow"@[7] == 'h' && "fedropshadow"@[8] == 'a' && "fedropshadow"@[9] == 'd' && "fedropshadow"@[10] == 'o' && "fedropshadow"@[11] == 'w');
    assert("feconvolvematrix"@.len() == 16 && "feconvolvematrix"@[0] == 'f' && "feconvolvematrix"@[1] == 'e' && "feconvolvematrix"@[2] == 'c' && "feconvolvematrix"@[3] == 'o' && "feconvolvematrix"@[4] == 'n' && "feconvolvematrix"@[5] == 'v' && "feconvolvematrix"@[6] == 'o' && "feconvolvematrix"@[7] == 'l' && "feconvolvematrix"@[8] == 'v' && "feconvolvematrix"@[9] == 'e' && "feconvolvematrix"@[10] == 'm' && "feconvolvematrix"@[11] == 'a' && "feconvolvematrix"@[12] == 't' && "feconvolvematrix"@[13] == 'r' && "feconvolvematrix"@[14] == 'i' && "feconvolvematrix"@[15] == 'x');
    assert("feturbulence"@.len() == 12 && "feturbulence"@[0] == 'f' && "feturbulence"@[1] == 'e' && "feturbulence"@[2] == 't' && "feturbulence"@[3] == 'u' && "feturbulence"@[4] == 'r' && "feturbulence"@[5] == 'b' && "feturbulence"@[6] == 'u' && "feturbulence"@[7] == 'l' && "feturbulence"@[8] == 'e' && "feturbulence"@[9] == 'n' && "feturbulence"@[10] == 'c' && "feturbulence"@[11] == 'e');
    assert("fedisplacementmap"@.len() == 17 && "fedisplacementmap"@[0] == 'f' && "fedisplacementmap"@[1] == 'e' && "fedisplacementmap"@[2] == 'd' && "fedisplacementmap"@[3] == 'i' && "fedisplacementmap"@[4] == 's' && "fedisplacementmap"@[5] == 'p' && "fedisplacementmap"@[6] == 'l' && "fedisplacementmap"@[7] == 'a' && "fedisplacementmap"@[8] == 'c' && "fedisplacementmap"@[9] == 'e' && "fedisplacementmap"@[10] == 'm' && "fedisplacementmap"@[11] == 'e' && "fedisplacementmap"@[12] == 'n' && "fedisplacementmap"@[13] == 't' && "fedisplacementmap"@[14] == 'm' && "fedisplacementmap"@[15] == 'a' && "fedisplacementmap"@[16] == 'p');
    assert("fediffuselighting"@.len() == 17 && "fediffuselighting"@[0] == 'f' && "fediffuselighting"@[1] == 'e' && "fediffuselighting"@[2] == 'd' && "fediffuselighting"@[3] == 'i' && "fediffuselighting"@[4] == 'f' && "fediffuselighting"@[5] == 'f' && "fediffuselighting"@[6] == 'u' && "fediffuselighting"@[7] == 's' && "fediffuselighting"@[8] == 'e' && "fediffuselighting"@[9] == 'l' && "fediffuselighting"@[10] == 'i' && "fediffuselighting"@[11] == 'g' && "fediffuselighting"@[12] == 'h' && "fediffuselighting"@[13] == 't' && "fediffuselighting"@[14] == 'i' && "fediffuselighting"@[15] == 'n' && "fediffuselighting"@[16] == 'g');
    assert("fespecularlighting"@.len() == 18 && "fespecularlighting"@[0] == 'f' && "fespecularlighting"@[1] == 'e' && "fespecularlighting"@[2] == 's' && "fespecularlighting"@[3] == 'p' && "fespecularlighting"@[4] == 'e' && "fespecularlighting"@[5] == 'c' && "fespecularlighting"@[6] == 'u' && "fespecularlighting"@[7] == 'l' && "fespecularlighting"@[8] == 'a' && "fespecularlighting"@[9] == 'r' && "fespecularlighting"@[10] == 'l' && "fespecularlighting"@[11] == 'i' && "fespecularlighting"@[12] == 'g' && "fespecularlighting"@[13] == 'h' && "fespecularlighting"@[14] == 't' && "fespecularlighting"@[15] == 'i' && "fespecularlighting"@[16] == 'n' && "fespecularlighting"@[17] == 'g');
    assert("feimage"@.len() == 7 && "feimage"@[0] == 'f' && "feimage"@[1] == 'e' && "feimage"@[2] == 'i' && "feimage"@[3] == 'm' && "feimage"@[4] == 'a' && "feimage"@[5] == 'g' && "feimage"@[6] == 'e');
    assert("fetile"@.len() == 6 && "fetile"@[0] == 'f' && "fetile"@[1] == 'e' && "fetile"@[2] == 't' && "fetile"@[3] == 'i' && "fetile"@[4] == 'l' && "fetile"@[5] == 'e');
}

/// Distinct recognised names are distinct primitives.
pub proof fn lemma_primitive_kind_injective(a: Seq<char>, b: Seq<char>)
    requires
        primitive_kind_spec(a) is Some,
        primitive_kind_spec(a) == primitive_kind_spec(b),
    ensures
        a == b,
{
    let k = primitive_kind_spec(a)->0;
    lemma_primitive_names(a, k);
    lemma_primitive_names(b, k);
}

} // verus!
