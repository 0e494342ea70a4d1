//! Side-channel records the encoder uses to re-emit source-document
//! features the scene graph does not model: each record pairs a
//! scene-graph tree-path (child indices from the root group) with the
//! verbatim source values to restore there.

use vstd::prelude::*;

use crate::image::ImageAttrs;
use crate::parser::Element;

verus! {

/// The SVG 2 §13.7.4 `marker-start` / `marker-mid` / `marker-end`
/// references of one shape.
#[derive(Clone, Debug, Default)]
pub struct MarkerRefBinding {
    /// Tree-path of the shape.
    pub path: Vec<usize>,
    pub marker_start: Option<String>,
    pub marker_mid: Option<String>,
    pub marker_end: Option<String>,
}

/// A clip-path / mask reference: the fingerprint of the flattened
/// geometry paired with the source id it referred to.
#[derive(Clone, Debug)]
pub struct RefBinding {
    pub fingerprint: String,
    pub ref_id: String,
}

/// A `filter="..."` reference on the group at `path`, verbatim.
#[derive(Clone, Debug)]
pub struct FilterRefBinding {
    pub path: Vec<usize>,
    pub filter: String,
}

/// A `<switch>` element captured verbatim, keyed by the tree-path of the
/// group the decoder produced for it.
#[derive(Debug)]
pub struct SwitchBinding {
    pub path: Vec<usize>,
    pub element: Element,
}

/// An animation element (`<animate>`, `<set>`, `<animateTransform>`)
/// with the id of the parent it was declared in.
#[derive(Debug)]
pub struct AnimationFragment {
    pub parent_id: Option<String>,
    pub element: Element,
}

/// A source `id` and the tree-path of the node it names.
#[derive(Clone, Debug)]
pub struct IdScenePath {
    pub id: String,
    pub path: Vec<usize>,
}

/// One `<a>` element wrapping the group at `path`, with the link
/// attributes it carried.
#[derive(Clone, Debug, Default)]
pub struct LinkBinding {
    pub path: Vec<usize>,
    /// `href` (or the deprecated `xlink:href`); `None` for a bare `<a>`.
    pub href: Option<String>,
    pub target: Option<String>,
    pub download: Option<String>,
    pub ping: Option<String>,
    pub rel: Option<String>,
    pub hreflang: Option<String>,
    pub type_: Option<String>,
    pub referrerpolicy: Option<String>,
    /// Every other attribute of the source `<a>` (`id`, `class`,
    /// `style`, `transform`, …) in document order.
    pub extra_attrs: Vec<(String, String)>,
}

/// One `<use>` element, collapsed back from the instance the decoder
/// flattened into the group at `path`.
#[derive(Clone, Debug, Default)]
pub struct UseBinding {
    pub path: Vec<usize>,
    /// The referenced id, e.g. `#sym`.
    pub href: String,
    pub x: Option<String>,
    pub y: Option<String>,
    pub width: Option<String>,
    pub height: Option<String>,
    pub transform: Option<String>,
    pub id: Option<String>,
    pub extra_attrs: Vec<(String, String)>,
}

/// `paint-order` of the node at `path`.
#[derive(Clone, Debug)]
pub struct PaintOrderBinding {
    pub path: Vec<usize>,
    pub paint_order: String,
}

/// `shape-rendering` of the node at `path`.
#[derive(Clone, Debug)]
pub struct ShapeRenderingBinding {
    pub path: Vec<usize>,
    pub shape_rendering: String,
}

/// `text-rendering` of the node at `path`.
#[derive(Clone, Debug)]
pub struct TextRenderingBinding {
    pub path: Vec<usize>,
    pub text_rendering: String,
}

/// `color-rendering` of the node at `path`.
#[derive(Clone, Debug)]
pub struct ColorRenderingBinding {
    pub path: Vec<usize>,
    pub color_rendering: String,
}

/// `color-interpolation` of the node at `path`.
#[derive(Clone, Debug)]
pub struct ColorInterpolationBinding {
    pub path: Vec<usize>,
    pub color_interpolation: String,
}

/// `overflow` of the node at `path`.
#[derive(Clone, Debug)]
pub struct OverflowBinding {
    pub path: Vec<usize>,
    pub overflow: String,
}

/// `dominant-baseline` of the node at `path`.
#[derive(Clone, Debug)]
pub struct DominantBaselineBinding {
    pub path: Vec<usize>,
    pub dominant_baseline: String,
}

/// `pointer-events` of the node at `path`.
#[derive(Clone, Debug)]
pub struct PointerEventsBinding {
    pub path: Vec<usize>,
    pub pointer_events: String,
}

/// `cursor` of the node at `path`.
#[derive(Clone, Debug)]
pub struct CursorBinding {
    pub path: Vec<usize>,
    pub cursor: String,
}

/// `vector-effect` of the node at `path`.
#[derive(Clone, Debug)]
pub struct VectorEffectBinding {
    pub path: Vec<usize>,
    pub vector_effect: String,
}

/// `clip-rule` declared on a shape inside a `<clipPath>`.
#[derive(Clone, Debug)]
pub struct ClipRuleBinding {
    pub clip_path_id: String,
    pub path_fingerprint: String,
    pub clip_rule: String,
}

/// One `<title>` or `<desc>`: its text content and optional `lang`.
#[derive(Clone, Debug, Default, PartialEq, Eq)]
pub struct DescriptiveText {
    pub text: String,
    pub lang: Option<String>,
}

/// The `<title>` / `<desc>` children of the container at
/// `parent_path`, in document order.
#[derive(Clone, Debug)]
pub struct DescriptiveBinding {
    pub parent_path: Vec<usize>,
    pub items: Vec<DescriptiveText>,
}


/// The author's `pathLength` of the shape at `path`, as number text.
#[derive(Clone, Debug)]
pub struct PathLengthBinding {
    pub path: Vec<usize>,
    pub path_length: String,
}

/// A `<text>` element captured verbatim, keyed by the tree-path of the
/// node its shaped glyph outlines were flattened into.
#[derive(Debug)]
pub struct TextBinding {
    pub path: Vec<usize>,
    pub element: Element,
}

/// A record that belongs to one scene-graph position.
pub trait ScenePathKeyed {
    /// The tree-path (child indices from the root group) it belongs to.
    spec fn scene_path(&self) -> Seq<usize>;

    fn path_ref(&self) -> (r: &Vec<usize>)
        ensures
            r@ == self.scene_path(),
    ;
}

/// A record that carries one attribute value.
pub trait BindingValue {
    spec fn value(&self) -> Seq<char>;

    fn value_str(&self) -> (r: &str)
        ensures
            r@ == self.value(),
    ;
}

/// Side-channel buffer of source fragments and per-position attributes
/// that the writer re-emits beside the scene graph.
#[derive(Debug, Default)]
pub struct PreservedExtras {
    /// `<style>` bodies (CSS source).
    pub styles: Vec<String>,
    /// `<filter>` elements, verbatim.
    pub filters: Vec<Element>,
    /// Animation elements with the id of the parent they were declared in.
    pub animations: Vec<AnimationFragment>,
    /// `<foreignObject>` elements, verbatim.
    pub foreign_objects: Vec<Element>,
    /// `<script>` elements, verbatim.
    pub scripts: Vec<Element>,
    /// The root `preserveAspectRatio` value.
    pub root_preserve_aspect_ratio: Option<String>,
    /// Source ids and the positions of the nodes they name.
    pub id_paths: Vec<IdScenePath>,
    /// `<pattern>` paint servers, verbatim.
    pub patterns: Vec<Element>,
    /// `<marker>` definitions, verbatim.
    pub markers: Vec<Element>,
    /// Gradient definitions, verbatim.
    pub gradients: Vec<Element>,
    /// `<image>` elements.
    pub images: Vec<ImageAttrs>,
    pub path_lengths: Vec<PathLengthBinding>,
    /// `<view>` elements, verbatim.
    pub views: Vec<Element>,
    pub links: Vec<LinkBinding>,
    pub titles: Vec<DescriptiveBinding>,
    pub descs: Vec<DescriptiveBinding>,
    /// `<metadata>` elements, verbatim.
    pub metadata: Vec<Element>,
    pub paint_orders: Vec<PaintOrderBinding>,
    pub vector_effects: Vec<VectorEffectBinding>,
    pub clip_rules: Vec<ClipRuleBinding>,
    pub shape_renderings: Vec<ShapeRenderingBinding>,
    pub text_renderings: Vec<TextRenderingBinding>,
    pub color_renderings: Vec<ColorRenderingBinding>,
    pub color_interpolations: Vec<ColorInterpolationBinding>,
    pub overflows: Vec<OverflowBinding>,
    pub pointer_eventss: Vec<PointerEventsBinding>,
    pub cursors: Vec<CursorBinding>,
    pub dominant_baselines: Vec<DominantBaselineBinding>,
    pub uses: Vec<UseBinding>,
    /// Id-bearing `<defs>` children that `<use>` references target.
    pub defs_targets: Vec<Element>,
    pub switches: Vec<SwitchBinding>,
    pub texts: Vec<TextBinding>,
    pub filter_refs: Vec<FilterRefBinding>,
    /// `<clipPath>` definitions, verbatim.
    pub clip_paths_raw: Vec<Element>,
    /// `<mask>` definitions, verbatim.
    pub masks_raw: Vec<Element>,
    pub clip_refs: Vec<RefBinding>,
    pub mask_refs: Vec<RefBinding>,
    pub marker_refs: Vec<MarkerRefBinding>,
}

impl PreservedExtras {
    /// An empty buffer.
    pub fn new() -> (r: Self)
        ensures
            r.is_empty_spec(),
    {
        PreservedExtras {
            styles: Vec::new(),
            filters: Vec::new(),
            animations: Vec::new(),
            foreign_objects: Vec::new(),
            scripts: Vec::new(),
            root_preserve_aspect_ratio: None,
            id_paths: Vec::new(),
            patterns: Vec::new(),
            markers: Vec::new(),
            gradients: Vec::new(),
            images: Vec::new(),
            path_lengths: Vec::new(),
            views: Vec::new(),
            links: Vec::new(),
            titles: Vec::new(),
            descs: Vec::new(),
            metadata: Vec::new(),
            paint_orders: Vec::new(),
            vector_effects: Vec::new(),
            clip_rules: Vec::new(),
            shape_renderings: Vec::new(),
            text_renderings: Vec::new(),
            color_renderings: Vec::new(),
            color_interpolations: Vec::new(),
            overflows: Vec::new(),
            pointer_eventss: Vec::new(),
            cursors: Vec::new(),
            dominant_baselines: Vec::new(),
            uses: Vec::new(),
            defs_targets: Vec::new(),
            switches: Vec::new(),
            texts: Vec::new(),
            filter_refs: Vec::new(),
            clip_paths_raw: Vec::new(),
            masks_raw: Vec::new(),
            clip_refs: Vec::new(),
            mask_refs: Vec::new(),
            marker_refs: Vec::new(),
        }
    }

    /// Every list is empty and no root `preserveAspectRatio` is set.
    pub open spec fn is_empty_spec(&self) -> bool {
        &&& self.styles@.len() == 0
        &&& self.filters@.len() == 0
        &&& self.animations@.len() == 0
        &&& self.foreign_objects@.len() == 0
        &&& self.scripts@.len() == 0
        &&& self.root_preserve_aspect_ratio is None
        &&& self.id_paths@.len() == 0
        &&& self.patterns@.len() == 0
        &&& self.markers@.len() == 0
        &&& self.gradients@.len() == 0
        &&& self.images@.len() == 0
        &&& self.path_lengths@.len() == 0
        &&& self.views@.len() == 0
        &&& self.links@.len() == 0
        &&& self.titles@.len() == 0
        &&& self.descs@.len() == 0
        &&& self.metadata@.len() == 0
        &&& self.paint_orders@.len() == 0
        &&& self.vector_effects@.len() == 0
        &&& self.clip_rules@.len() == 0
        &&& self.shape_renderings@.len() == 0
        &&& self.text_renderings@.len() == 0
        &&& self.color_renderings@.len() == 0
        &&& self.color_interpolations@.len() == 0
        &&& self.overflows@.len() == 0
        &&& self.pointer_eventss@.len() == 0
        &&& self.cursors@.len() == 0
        &&& self.dominant_baselines@.len() == 0
        &&& self.uses@.len() == 0
        &&& self.defs_targets@.len() == 0
        &&& self.switches@.len() == 0
        &&& self.texts@.len() == 0
        &&& self.filter_refs@.len() == 0
        &&& self.clip_paths_raw@.len() == 0
        &&& self.masks_raw@.len() == 0
        &&& self.clip_refs@.len() == 0
        &&& self.mask_refs@.len() == 0
        &&& self.marker_refs@.len() == 0
    }

    /// `true` when the buffer holds nothing the writer would emit.
    pub fn is_empty(&self) -> (b: bool)
        ensures
            b == self.is_empty_spec(),
    {
        self.styles.len() == 0 && self.filters.len() == 0 && self.animations.len() == 0
            && self.foreign_objects.len() == 0 && self.scripts.len() == 0
            && self.root_preserve_aspect_ratio.is_none() && self.id_paths.len() == 0
            && self.patterns.len() == 0 && self.markers.len() == 0 && self.gradients.len() == 0
            && self.images.len() == 0 && self.path_lengths.len() == 0 && self.views.len() == 0
            && self.links.len() == 0 && self.titles.len() == 0 && self.descs.len() == 0
            && self.metadata.len() == 0 && self.paint_orders.len() == 0
            && self.vector_effects.len() == 0 && self.clip_rules.len() == 0
            && self.shape_renderings.len() == 0 && self.text_renderings.len() == 0
            && self.color_renderings.len() == 0 && self.color_interpolations.len() == 0
            && self.overflows.len() == 0 && self.pointer_eventss.len() == 0
            && self.cursors.len() == 0 && self.dominant_baselines.len() == 0
            && self.uses.len() == 0 && self.defs_targets.len() == 0 && self.switches.len() == 0
            && self.texts.len() == 0 && self.filter_refs.len() == 0
            && self.clip_paths_raw.len() == 0 && self.masks_raw.len() == 0
            && self.clip_refs.len() == 0 && self.mask_refs.len() == 0
            && self.marker_refs.len() == 0
    }
}

impl ScenePathKeyed for IdScenePath {
    open spec fn scene_path(&self) -> Seq<usize> {
        self.path@
    }

    fn path_ref(&self) -> (r: &Vec<usize>) {
        &self.path
    }
}

impl BindingValue for IdScenePath {
    open spec fn value(&self) -> Seq<char> {
        self.id@
    }

    fn value_str(&self) -> (r: &str) {
        self.id.as_str()
    }
}

impl ScenePathKeyed for PathLengthBinding {
    open spec fn scene_path(&self) -> Seq<usize> {
        self.path@
    }

    fn path_ref(&self) -> (r: &Vec<usize>) {
        &self.path
    }
}

impl BindingValue for PathLengthBinding {
    open spec fn value(&self) -> Seq<char> {
        self.path_length@
    }

    fn value_str(&self) -> (r: &str) {
        self.path_length.as_str()
    }
}

impl ScenePathKeyed for LinkBinding {
    open spec fn scene_path(&self) -> Seq<usize> {
        self.path@
    }

    fn path_ref(&self) -> (r: &Vec<usize>) {
        &self.path
    }
}

impl ScenePathKeyed for PaintOrderBinding {
    open spec fn scene_path(&self) -> Seq<usize> {
        self.path@
    }

    fn path_ref(&self) -> (r: &Vec<usize>) {
        &self.path
    }
}

impl BindingValue for PaintOrderBinding {
    open spec fn value(&self) -> Seq<char> {
        self.paint_order@
    }

    fn value_str(&self) -> (r: &str) {
        self.paint_order.as_str()
    }
}

impl ScenePathKeyed for VectorEffectBinding {
    open spec fn scene_path(&self) -> Seq<usize> {
        self.path@
    }

    fn path_ref(&self) -> (r: &Vec<usize>) {
        &self.path
    }
}

impl BindingValue for VectorEffectBinding {
    open spec fn value(&self) -> Seq<char> {
        self.vector_effect@
    }

    fn value_str(&self) -> (r: &str) {
        self.vector_effect.as_str()
    }
}

impl ScenePathKeyed for ShapeRenderingBinding {
    open spec fn scene_path(&self) -> Seq<usize> {
        self.path@
    }

    fn path_ref(&self) -> (r: &Vec<usize>) {
        &self.path
    }
}

impl BindingValue for ShapeRenderingBinding {
    open spec fn value(&self) -> Seq<char> {
        self.shape_rendering@
    }

    fn value_str(&self) -> (r: &str) {
        self.shape_rendering.as_str()
    }
}

impl ScenePathKeyed for TextRenderingBinding {
    open spec fn scene_path(&self) -> Seq<usize> {
        self.path@
    }

    fn path_ref(&self) -> (r: &Vec<usize>) {
        &self.path
    }
}

impl BindingValue for TextRenderingBinding {
    open spec fn value(&self) -> Seq<char> {
        self.text_rendering@
    }

    fn value_str(&self) -> (r: &str) {
        self.text_rendering.as_str()
    }
}

impl ScenePathKeyed for ColorRenderingBinding {
    open spec fn scene_path(&self) -> Seq<usize> {
        self.path@
    }

    fn path_ref(&self) -> (r: &Vec<usize>) {
        &self.path
    }
}

impl BindingValue for ColorRenderingBinding {
    open spec fn value(&self) -> Seq<char> {
        self.color_rendering@
    }

    fn value_str(&self) -> (r: &str) {
        self.color_rendering.as_str()
    }
}

impl ScenePathKeyed for ColorInterpolationBinding {
    open spec fn scene_path(&self) -> Seq<usize> {
        self.path@
    }

    fn path_ref(&self) -> (r: &Vec<usize>) {
        &self.path
    }
}

impl BindingValue for ColorInterpolationBinding {
    open spec fn value(&self) -> Seq<char> {
        self.color_interpolation@
    }

    fn value_str(&self) -> (r: &str) {
        self.color_interpolation.as_str()
    }
}

impl ScenePathKeyed for OverflowBinding {
    open spec fn scene_path(&self) -> Seq<usize> {
        self.path@
    }

    fn path_ref(&self) -> (r: &Vec<usize>) {
        &self.path
    }
}

impl BindingValue for OverflowBinding {
    open spec fn value(&self) -> Seq<char> {
        self.overflow@
    }

    fn value_str(&self) -> (r: &str) {
        self.overflow.as_str()
    }
}

impl ScenePathKeyed for PointerEventsBinding {
    open spec fn scene_path(&self) -> Seq<usize> {
        self.path@
    }

    fn path_ref(&self) -> (r: &Vec<usize>) {
        &self.path
    }
}

impl BindingValue for PointerEventsBinding {
    open spec fn value(&self) -> Seq<char> {
        self.pointer_events@
    }

    fn value_str(&self) -> (r: &str) {
        self.pointer_events.as_str()
    }
}

impl ScenePathKeyed for CursorBinding {
    open spec fn scene_path(&self) -> Seq<usize> {
        self.path@
    }

    fn path_ref(&self) -> (r: &Vec<usize>) {
        &self.path
    }
}

impl BindingValue for CursorBinding {
    open spec fn value(&self) -> Seq<char> {
        self.cursor@
    }

    fn value_str(&self) -> (r: &str) {
        self.cursor.as_str()
    }
}

impl ScenePathKeyed for DominantBaselineBinding {
    open spec fn scene_path(&self) -> Seq<usize> {
        self.path@
    }

    fn path_ref(&self) -> (r: &Vec<usize>) {
        &self.path
    }
}

impl BindingValue for DominantBaselineBinding {
    open spec fn value(&self) -> Seq<char> {
        self.dominant_baseline@
    }

    fn value_str(&self) -> (r: &str) {
        self.dominant_baseline.as_str()
    }
}

impl ScenePathKeyed for UseBinding {
    open spec fn scene_path(&self) -> Seq<usize> {
        self.path@
    }

    fn path_ref(&self) -> (r: &Vec<usize>) {
        &self.path
    }
}

impl ScenePathKeyed for SwitchBinding {
    open spec fn scene_path(&self) -> Seq<usize> {
        self.path@
    }

    fn path_ref(&self) -> (r: &Vec<usize>) {
        &self.path
    }
}

impl ScenePathKeyed for TextBinding {
    open spec fn scene_path(&self) -> Seq<usize> {
        self.path@
    }

    fn path_ref(&self) -> (r: &Vec<usize>) {
        &self.path
    }
}

impl ScenePathKeyed for FilterRefBinding {
    open spec fn scene_path(&self) -> Seq<usize> {
        self.path@
    }

    fn path_ref(&self) -> (r: &Vec<usize>) {
        &self.path
    }
}

impl BindingValue for FilterRefBinding {
    open spec fn value(&self) -> Seq<char> {
        self.filter@
    }

    fn value_str(&self) -> (r: &str) {
        self.filter.as_str()
    }
}

impl ScenePathKeyed for MarkerRefBinding {
    open spec fn scene_path(&self) -> Seq<usize> {
        self.path@
    }

    fn path_ref(&self) -> (r: &Vec<usize>) {
        &self.path
    }
}

impl ScenePathKeyed for DescriptiveBinding {
    open spec fn scene_path(&self) -> Seq<usize> {
        self.parent_path@
    }

    fn path_ref(&self) -> (r: &Vec<usize>) {
        &self.parent_path
    }
}

} // verus!
