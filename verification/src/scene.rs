//! The scene a document writer serialises, with every number already
//! formatted as text: groups, paths and soft-masked content in tree
//! order, plus the distinct gradients, clip paths and masks the scene
//! refers to (by position), in order of first use. Also the lookups the
//! writer makes into the side-channel records: by tree-path, by
//! fingerprint and by element id, each where a later record replaces an
//! earlier one.

use vstd::prelude::*;

use crate::parser::{Element, SElement};
use crate::path_data::PathSegment;
use crate::preserved::{RefBinding, ScenePathKeyed};
use crate::strings::{eq_ignore_case, str_eq, str_eq_ignore_case};

verus! {

/// A `fill` / `stroke` value.
#[derive(Clone, Debug)]
pub enum PaintText {
    /// Written as `none` (no paint, or a paint server the writer does
    /// not emit).
    Absent,
    /// A colour, written as given (`#rrggbb`, `rgba(…)`).
    Color(String),
    /// The gradient at this position of [`SceneText::gradients`].
    Gradient(usize),
}

/// The stroke of a path: its paint and the stroke attributes that differ
/// from their initial values, names and number text in writing order.
#[derive(Clone, Debug)]
pub struct StrokeText {
    pub paint: PaintText,
    pub attrs: Vec<(String, String)>,
}

/// A path with its geometry and paint.
#[derive(Clone, Debug)]
pub struct ScenePath {
    pub d: Vec<PathSegment>,
    pub fill: PaintText,
    pub stroke: Option<StrokeText>,
    /// `fill-rule="evenodd"`.
    pub even_odd: bool,
}

/// A group: its transform and opacity text when not the identity / 1,
/// the clip path it uses (a position in [`SceneText::clips`]), and its
/// children.
#[derive(Debug)]
pub struct SceneGroup {
    pub transform: Option<String>,
    pub opacity: Option<String>,
    pub clip: Option<usize>,
    pub children: Vec<SceneNode>,
}

/// One node of the scene.
#[derive(Debug)]
pub enum SceneNode {
    Group(SceneGroup),
    Path(ScenePath),
    /// Content drawn through the mask at a position of
    /// [`SceneText::masks`] (`None` when it has none).
    SoftMask { mask: Option<usize>, content: Box<SceneNode> },
    /// A raster image node, which the writer does not emit.
    Image,
}

/// One gradient stop: offset, `#rrggbb` colour and, when not opaque,
/// its opacity.
#[derive(Clone, Debug)]
pub struct StopText {
    pub offset: String,
    pub color: String,
    pub opacity: Option<String>,
}

/// A gradient paint server: `x1 y1 x2 y2` (linear) or `cx cy r`
/// (radial) before `gradientUnits`, the focal point after it (radial),
/// the spread method when not `pad`, and the stops.
#[derive(Clone, Debug)]
pub struct GradientText {
    pub radial: bool,
    pub geometry: Vec<(String, String)>,
    pub focal: Vec<(String, String)>,
    pub spread: Option<String>,
    pub stops: Vec<StopText>,
}

/// A clip path: the fingerprint of its geometry and the geometry.
#[derive(Clone, Debug)]
pub struct ClipText {
    pub fingerprint: String,
    pub d: Vec<PathSegment>,
}

/// A mask: the fingerprint of its kind and content, whether it is an
/// alpha mask, and its content.
#[derive(Debug)]
pub struct MaskText {
    pub fingerprint: String,
    pub alpha: bool,
    pub content: SceneNode,
}

/// A whole scene: the canvas size and view box text, the children of the
/// root group, and the distinct paint servers, clip paths and masks.
#[derive(Debug)]
pub struct SceneText {
    pub width: String,
    pub height: String,
    /// `min-x min-y width height`.
    pub view_box: Option<String>,
    pub children: Vec<SceneNode>,
    pub gradients: Vec<GradientText>,
    pub clips: Vec<ClipText>,
    pub masks: Vec<MaskText>,
}

/// The last record of `v` that belongs to position `p`.
pub open spec fn last_at<T: ScenePathKeyed>(v: Seq<T>, p: Seq<usize>) -> Option<T>
    decreases v.len(),
{
    if v.len() == 0 {
        None
    } else if v.last().scene_path() == p {
        Some(v.last())
    } else {
        last_at(v.drop_last(), p)
    }
}

/// Equality of two tree-paths.
pub fn same_path(a: &Vec<usize>, b: &Vec<usize>) -> (r: bool)
    ensures
        r == (a@ == b@),
{
    if a.len() != b.len() {
        return false;
    }
    let mut i: usize = 0;
    while i < a.len()
        invariant
            i <= a.len() == b.len(),
            forall|k: int| 0 <= k < i ==> a@[k] == b@[k],
        decreases a.len() - i,
    {
        if a[i] != b[i] {
            return false;
        }
        i += 1;
    }
    assert(a@ =~= b@);
    true
}

/// The last record of `v` that belongs to position `p`.
pub fn find_last<'a, T: ScenePathKeyed>(v: &'a Vec<T>, p: &Vec<usize>) -> (r: Option<&'a T>)
    ensures
        match last_at(v@, p@) {
            Some(b) => r matches Some(x) && *x == b,
            None => r is None,
        },
{
    let mut i: usize = v.len();
    assert(v@.take(i as int) =~= v@);
    while i > 0
        invariant
            i <= v@.len(),
            last_at(v@, p@) == last_at(v@.take(i as int), p@),
        decreases i,
    {
        let ghost t = v@.take(i as int);
        assert(t.drop_last() =~= v@.take(i - 1));
        assert(t.last() == v@[i - 1]);
        i -= 1;
        if same_path(v[i].path_ref(), p) {
            return Some(&v[i]);
        }
    }
    assert(v@.take(0) =~= Seq::<T>::empty());
    None
}

/// The source id the last binding with fingerprint `fp` refers to.
pub open spec fn last_ref(v: Seq<RefBinding>, fp: Seq<char>) -> Option<Seq<char>>
    decreases v.len(),
{
    if v.len() == 0 {
        None
    } else if v.last().fingerprint@ == fp {
        Some(v.last().ref_id@)
    } else {
        last_ref(v.drop_last(), fp)
    }
}

/// The source id the last binding with fingerprint `fp` refers to.
pub fn find_ref<'a>(v: &'a Vec<RefBinding>, fp: &str) -> (r: Option<&'a str>)
    ensures
        match last_ref(v@, fp@) {
            Some(id) => r matches Some(x) && x@ == id,
            None => r is None,
        },
{
    let mut i: usize = v.len();
    assert(v@.take(i as int) =~= v@);
    while i > 0
        invariant
            i <= v@.len(),
            last_ref(v@, fp@) == last_ref(v@.take(i as int), fp@),
        decreases i,
    {
        let ghost t = v@.take(i as int);
        assert(t.drop_last() =~= v@.take(i - 1));
        assert(t.last() == v@[i - 1]);
        i -= 1;
        if str_eq(v[i].fingerprint.as_str(), fp) {
            return Some(v[i].ref_id.as_str());
        }
    }
    assert(v@.take(0) =~= Seq::<RefBinding>::empty());
    None
}

/// Position of the first attribute from `i` on whose name is `id` in any
/// ASCII case, or `-1`.
pub open spec fn id_attr_from(attrs: Seq<(Seq<char>, Seq<char>)>, i: int) -> int
    decreases attrs.len() - i,
{
    if i < 0 || i >= attrs.len() {
        -1
    } else if eq_ignore_case(attrs[i].0, "id"@) {
        i
    } else {
        id_attr_from(attrs, i + 1)
    }
}

/// The value of an element's first `id` attribute (name compared in any
/// ASCII case).
pub open spec fn element_id(e: SElement) -> Option<Seq<char>> {
    let k = id_attr_from(e.attrs, 0);
    if 0 <= k < e.attrs.len() {
        Some(e.attrs[k].1)
    } else {
        None
    }
}

proof fn lemma_id_attr_from(attrs: Seq<(Seq<char>, Seq<char>)>, i: int)
    requires
        0 <= i,
    ensures
        id_attr_from(attrs, i) == -1 || i <= id_attr_from(attrs, i) < attrs.len(),
    decreases attrs.len() - i,
{
    if i < attrs.len() && !eq_ignore_case(attrs[i].0, "id"@) {
        lemma_id_attr_from(attrs, i + 1);
    }
}

/// The value of an element's first `id` attribute.
pub fn element_id_of(e: &Element) -> (r: Option<&str>)
    ensures
        match element_id(e.model()) {
            Some(v) => r matches Some(x) && x@ == v,
            None => r is None,
        },
{
    let ghost am = e.model().attrs;
    let mut i: usize = 0;
    proof {
        lemma_id_attr_from(am, 0);
    }
    while i < e.attrs.len()
        invariant
            i <= e.attrs.len(),
            am == e.model().attrs,
            am.len() == e.attrs@.len(),
            id_attr_from(am, 0) == id_attr_from(am, i as int),
        decreases e.attrs.len() - i,
    {
        assert(am[i as int] == (e.attrs@[i as int].0@, e.attrs@[i as int].1@));
        if str_eq_ignore_case(e.attrs[i].0.as_str(), "id") {
            return Some(e.attrs[i].1.as_str());
        }
        i += 1;
    }
    None
}

/// The last element of `v` whose id is `id`.
pub open spec fn last_with_id(v: Seq<Element>, id: Seq<char>) -> Option<Element>
    decreases v.len(),
{
    if v.len() == 0 {
        None
    } else if element_id(v.last().model()) == Some(id) {
        Some(v.last())
    } else {
        last_with_id(v.drop_last(), id)
    }
}

/// The last element of `v` whose id is `id`.
pub fn find_with_id<'a>(v: &'a Vec<Element>, id: &str) -> (r: Option<&'a Element>)
    ensures
        match last_with_id(v@, id@) {
            Some(e) => r matches Some(x) && *x == e,
            None => r is None,
        },
{
    let mut i: usize = v.len();
    assert(v@.take(i as int) =~= v@);
    while i > 0
        invariant
            i <= v@.len(),
            last_with_id(v@, id@) == last_with_id(v@.take(i as int), id@),
        decreases i,
    {
        let ghost t = v@.take(i as int);
        assert(t.drop_last() =~= v@.take(i - 1));
        assert(t.last() == v@[i - 1]);
        i -= 1;
        match element_id_of(&v[i]) {
            Some(x) => {
                if str_eq(x, id) {
                    return Some(&v[i]);
                }
            },
            None => {},
        }
    }
    assert(v@.take(0) =~= Seq::<Element>::empty());
    None
}

} // verus!
