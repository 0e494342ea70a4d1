//! Keyword vocabulary of `<filter>` primitive graphs (W3C Filter
//! Effects): primitive inputs, edge modes, compositing / blending
//! operators, channel selectors, `preserveAspectRatio`, `crossorigin`,
//! and the flood colour record, with the attribute parsers that map
//! source text onto them.

use vstd::prelude::*;
use vstd::string::*;

use crate::parser::{attr, attr_spec, Element};
use crate::strings::{first_non_ws, is_unicode_ws, last_non_ws, str_eq, str_trim, to_owned_string, trim};

verus! {

/// One source of pixels feeding a primitive's `in` / `in2` slot.
#[derive(Clone, Debug, PartialEq, Eq)]
pub enum FilterInput {
    /// `SourceGraphic` — the rasterised element the filter applies to.
    SourceGraphic,
    /// `SourceAlpha` — `SourceGraphic` reduced to its alpha channel.
    SourceAlpha,
    /// `BackgroundImage` — pixels behind the filter region.
    BackgroundImage,
    /// `BackgroundAlpha` — `BackgroundImage` reduced to alpha.
    BackgroundAlpha,
    /// `FillPaint` — the element's `fill` paint server.
    FillPaint,
    /// `StrokePaint` — the element's `stroke` paint server.
    StrokePaint,
    /// Reference to an earlier primitive's `result="name"`.
    Reference(String),
    /// The output of the immediately preceding primitive, which carries
    /// no `result` name (the implicit chain of Filter Effects §6.2).
    Previous,
}

/// Model of a [`FilterInput`] with the reference name as characters.
pub enum SFilterInput {
    SourceGraphic,
    SourceAlpha,
    BackgroundImage,
    BackgroundAlpha,
    FillPaint,
    StrokePaint,
    Reference(Seq<char>),
    Previous,
}

impl FilterInput {
    pub open spec fn model(self) -> SFilterInput {
        match self {
            FilterInput::SourceGraphic => SFilterInput::SourceGraphic,
            FilterInput::SourceAlpha => SFilterInput::SourceAlpha,
            FilterInput::BackgroundImage => SFilterInput::BackgroundImage,
            FilterInput::BackgroundAlpha => SFilterInput::BackgroundAlpha,
            FilterInput::FillPaint => SFilterInput::FillPaint,
            FilterInput::StrokePaint => SFilterInput::StrokePaint,
            FilterInput::Reference(s) => SFilterInput::Reference(s@),
            FilterInput::Previous => SFilterInput::Previous,
        }
    }

    /// A copy with the same model.
    pub fn duplicate(&self) -> (r: Self)
        ensures
            r.model() == self.model(),
    {
        match self {
            FilterInput::SourceGraphic => FilterInput::SourceGraphic,
            FilterInput::SourceAlpha => FilterInput::SourceAlpha,
            FilterInput::BackgroundImage => FilterInput::BackgroundImage,
            FilterInput::BackgroundAlpha => FilterInput::BackgroundAlpha,
            FilterInput::FillPaint => FilterInput::FillPaint,
            FilterInput::StrokePaint => FilterInput::StrokePaint,
            FilterInput::Reference(s) => FilterInput::Reference(s.clone()),
            FilterInput::Previous => FilterInput::Previous,
        }
    }

    /// The input a (trimmed) keyword names; anything else is a result
    /// reference.
    pub open spec fn spec_parse(t: Seq<char>) -> SFilterInput {
        if t == "SourceGraphic"@ {
            SFilterInput::SourceGraphic
        } else if t == "SourceAlpha"@ {
            SFilterInput::SourceAlpha
        } else if t == "BackgroundImage"@ {
            SFilterInput::BackgroundImage
        } else if t == "BackgroundAlpha"@ {
            SFilterInput::BackgroundAlpha
        } else if t == "FillPaint"@ {
            SFilterInput::FillPaint
        } else if t == "StrokePaint"@ {
            SFilterInput::StrokePaint
        } else {
            SFilterInput::Reference(t)
        }
    }

    /// Parse an `in` / `in2` value (surrounding whitespace ignored).
    pub fn from_str(s: &str) -> (r: Self)
        ensures
            r.model() == Self::spec_parse(trim(s@)),
    {
        let t = str_trim(s);
        if str_eq(t, "SourceGraphic") {
            FilterInput::SourceGraphic
        } else if str_eq(t, "SourceAlpha") {
            FilterInput::SourceAlpha
        } else if str_eq(t, "BackgroundImage") {
            FilterInput::BackgroundImage
        } else if str_eq(t, "BackgroundAlpha") {
            FilterInput::BackgroundAlpha
        } else if str_eq(t, "FillPaint") {
            FilterInput::FillPaint
        } else if str_eq(t, "StrokePaint") {
            FilterInput::StrokePaint
        } else {
            FilterInput::Reference(to_owned_string(t))
        }
    }
}

/// The default input of a primitive (Filter Effects §6.2): its own `in`
/// attribute when present, else the output of the preceding primitive
/// (`prev`), else, for the first primitive, `SourceGraphic`.
pub open spec fn input_or_default_spec(el: Element, prev: Option<FilterInput>) -> SFilterInput {
    match attr_spec(el.model(), "in"@) {
        Some(v) => FilterInput::spec_parse(trim(v)),
        None => match prev {
            Some(p) => p.model(),
            None => SFilterInput::SourceGraphic,
        },
    }
}

/// The `in` input of a primitive, with the §6.2 implicit chaining;
/// `prev` is what the preceding primitive's output is called, `None`
/// for the first primitive.
pub fn input_or_default(el: &Element, prev: &Option<FilterInput>) -> (r: FilterInput)
    ensures
        r.model() == input_or_default_spec(*el, *prev),
{
    match attr(el, "in") {
        Some(s) => FilterInput::from_str(s),
        None => match prev {
            Some(p) => p.duplicate(),
            None => FilterInput::SourceGraphic,
        },
    }
}

/// `color-interpolation-filters`: the colour space a primitive's maths
/// runs in (Filter Effects §10).
#[derive(Clone, Copy, Debug, Default, PartialEq, Eq, Structural)]
pub enum ColorInterpolationFilters {
    /// `auto`, which this implementation resolves to `linearRGB`.
    #[default]
    Auto,
    /// `sRGB`.
    Srgb,
    /// `linearRGB`, the initial value.
    LinearRgb,
}

/// Whether filter maths happens on linearised values: for `linearRGB`,
/// and for `auto`, which §10 lets the implementation resolve either way.
pub fn working_space_is_linear(space: ColorInterpolationFilters) -> (r: bool)
    ensures
        r == (space != ColorInterpolationFilters::Srgb),
{
    match space {
        ColorInterpolationFilters::Srgb => false,
        _ => true,
    }
}

/// `edgeMode` on `<feGaussianBlur>`.
#[derive(Clone, Copy, Debug, Default, PartialEq, Eq, Structural)]
pub enum EdgeMode {
    /// Repeat the edge pixel (absent / unknown values map here).
    #[default]
    Duplicate,
    /// Toroidal sampling.
    Wrap,
    /// `none` — beyond-edge samples are transparent black.
    Zero,
}

impl EdgeMode {
    pub open spec fn spec_parse(t: Seq<char>) -> EdgeMode {
        if t == "wrap"@ {
            EdgeMode::Wrap
        } else if t == "none"@ {
            EdgeMode::Zero
        } else {
            EdgeMode::Duplicate
        }
    }

    /// Parse an `edgeMode` value; unknown keywords give the default.
    pub fn from_str(s: &str) -> (r: Self)
        ensures
            r == Self::spec_parse(trim(s@)),
    {
        let t = str_trim(s);
        if str_eq(t, "wrap") {
            EdgeMode::Wrap
        } else if str_eq(t, "none") {
            EdgeMode::Zero
        } else {
            EdgeMode::Duplicate
        }
    }
}

/// `edgeMode` on `<feConvolveMatrix>`.
#[derive(Clone, Copy, Debug, Default, PartialEq, Eq, Structural)]
pub enum ConvolveEdgeMode {
    /// Default: `duplicate`.
    #[default]
    Duplicate,
    /// Toroidal sampling.
    Wrap,
    /// `none` — beyond-edge samples are transparent black.
    Zero,
}

impl ConvolveEdgeMode {
    pub open spec fn spec_parse(t: Seq<char>) -> ConvolveEdgeMode {
        if t == "wrap"@ {
            ConvolveEdgeMode::Wrap
        } else if t == "none"@ {
            ConvolveEdgeMode::Zero
        } else {
            ConvolveEdgeMode::Duplicate
        }
    }

    /// Parse an `edgeMode` value; unknown keywords give the default.
    pub fn from_str(s: &str) -> (r: Self)
        ensures
            r == Self::spec_parse(trim(s@)),
    {
        let t = str_trim(s);
        if str_eq(t, "wrap") {
            ConvolveEdgeMode::Wrap
        } else if str_eq(t, "none") {
            ConvolveEdgeMode::Zero
        } else {
            ConvolveEdgeMode::Duplicate
        }
    }
}

/// `<feTurbulence type>`.
#[derive(Clone, Copy, Debug, Default, PartialEq, Eq, Structural)]
pub enum TurbulenceKind {
    /// Default — `turbulence`.
    #[default]
    Turbulence,
    /// `fractalNoise`.
    FractalNoise,
}

impl TurbulenceKind {
    /// Parse a `type` value: `fractalNoise`, anything else turbulence.
    pub fn from_str(s: &str) -> (r: Self)
        ensures
            r == (if trim(s@) == "fractalNoise"@ {
                TurbulenceKind::FractalNoise
            } else {
                TurbulenceKind::Turbulence
            }),
    {
        let t = str_trim(s);
        if str_eq(t, "fractalNoise") {
            TurbulenceKind::FractalNoise
        } else {
            TurbulenceKind::Turbulence
        }
    }
}

/// Alignment keyword for `preserveAspectRatio` (SVG 2 §8.10).
#[derive(Clone, Copy, Debug, Default, PartialEq, Eq, Structural)]
pub enum PreserveAspectRatioAlign {
    /// `none` — stretch each axis independently.
    NoAlign,
    XMinYMin,
    XMidYMin,
    XMaxYMin,
    XMinYMid,
    /// Default — `xMidYMid`.
    #[default]
    XMidYMid,
    XMaxYMid,
    XMinYMax,
    XMidYMax,
    XMaxYMax,
}

impl PreserveAspectRatioAlign {
    pub open spec fn spec_parse(t: Seq<char>) -> PreserveAspectRatioAlign {
        if t == "none"@ {
            PreserveAspectRatioAlign::NoAlign
        } else if t == "xMinYMin"@ {
            PreserveAspectRatioAlign::XMinYMin
        } else if t == "xMidYMin"@ {
            PreserveAspectRatioAlign::XMidYMin
        } else if t == "xMaxYMin"@ {
            PreserveAspectRatioAlign::XMaxYMin
        } else if t == "xMinYMid"@ {
            PreserveAspectRatioAlign::XMinYMid
        } else if t == "xMaxYMid"@ {
            PreserveAspectRatioAlign::XMaxYMid
        } else if t == "xMinYMax"@ {
            PreserveAspectRatioAlign::XMinYMax
        } else if t == "xMidYMax"@ {
            PreserveAspectRatioAlign::XMidYMax
        } else if t == "xMaxYMax"@ {
            PreserveAspectRatioAlign::XMaxYMax
        } else {
            PreserveAspectRatioAlign::XMidYMid
        }
    }

    /// Parse an alignment keyword; unknown keywords give `xMidYMid`.
    pub fn from_str(s: &str) -> (r: Self)
        ensures
            r == Self::spec_parse(trim(s@)),
    {
        let t = str_trim(s);
        if str_eq(t, "none") {
            PreserveAspectRatioAlign::NoAlign
        } else if str_eq(t, "xMinYMin") {
            PreserveAspectRatioAlign::XMinYMin
        } else if str_eq(t, "xMidYMin") {
            PreserveAspectRatioAlign::XMidYMin
        } else if str_eq(t, "xMaxYMin") {
            PreserveAspectRatioAlign::XMaxYMin
        } else if str_eq(t, "xMinYMid") {
            PreserveAspectRatioAlign::XMinYMid
        } else if str_eq(t, "xMaxYMid") {
            PreserveAspectRatioAlign::XMaxYMid
        } else if str_eq(t, "xMinYMax") {
            PreserveAspectRatioAlign::XMinYMax
        } else if str_eq(t, "xMidYMax") {
            PreserveAspectRatioAlign::XMidYMax
        } else if str_eq(t, "xMaxYMax") {
            PreserveAspectRatioAlign::XMaxYMax
        } else {
            PreserveAspectRatioAlign::XMidYMid
        }
    }
}

/// Meet-or-slice modifier of `preserveAspectRatio`.
#[derive(Clone, Copy, Debug, Default, PartialEq, Eq, Structural)]
pub enum MeetOrSlice {
    /// Default — fit inside the viewport.
    #[default]
    Meet,
    /// Fill the viewport.
    Slice,
}

impl MeetOrSlice {
    /// Parse `meet` / `slice`; anything but `slice` is `meet`.
    pub fn from_str(s: &str) -> (r: Self)
        ensures
            r == (if trim(s@) == "slice"@ {
                MeetOrSlice::Slice
            } else {
                MeetOrSlice::Meet
            }),
    {
        let t = str_trim(s);
        if str_eq(t, "slice") {
            MeetOrSlice::Slice
        } else {
            MeetOrSlice::Meet
        }
    }
}

/// `preserveAspectRatio`: alignment plus meet-or-slice.
#[derive(Clone, Copy, Debug, PartialEq, Eq, Structural)]
pub struct PreserveAspectRatio {
    pub align: PreserveAspectRatioAlign,
    pub meet_or_slice: MeetOrSlice,
}

impl Default for PreserveAspectRatio {
    /// `xMidYMid meet`.
    fn default() -> (r: Self)
        ensures
            r == (PreserveAspectRatio {
                align: PreserveAspectRatioAlign::XMidYMid,
                meet_or_slice: MeetOrSlice::Meet,
            }),
    {
        PreserveAspectRatio {
            align: PreserveAspectRatioAlign::XMidYMid,
            meet_or_slice: MeetOrSlice::Meet,
        }
    }
}

/// First index `>= i` that is Unicode whitespace, or the end.
pub open spec fn first_ws(s: Seq<char>, i: int) -> int
    decreases s.len() - i,
{
    if 0 <= i < s.len() && !is_unicode_ws(s[i]) {
        first_ws(s, i + 1)
    } else {
        i
    }
}

/// The whitespace-separated token starting the search at `i`
/// (`split_whitespace`), as `(start, end)`, when there is one.
pub open spec fn token_at(s: Seq<char>, i: int) -> Option<(int, int)> {
    let a: int = first_non_ws(s, i);
    if 0 <= a < s.len() {
        Some((a, first_ws(s, a)))
    } else {
        None
    }
}

proof fn lemma_first_ws(s: Seq<char>, i: int)
    requires
        0 <= i <= s.len(),
    ensures
        i <= first_ws(s, i) <= s.len(),
        first_ws(s, i) < s.len() ==> is_unicode_ws(s[first_ws(s, i)]),
        forall|k: int| i <= k < first_ws(s, i) ==> !is_unicode_ws(#[trigger] s[k]),
    decreases s.len() - i,
{
    if i < s.len() && !is_unicode_ws(s[i]) {
        lemma_first_ws(s, i + 1);
    }
}

/// The alignment and modifier of a `preserveAspectRatio` value: its
/// first and second whitespace-separated tokens, each defaulting when
/// absent.
pub open spec fn par_spec(s: Seq<char>) -> PreserveAspectRatio {
    let t1 = token_at(s, 0);
    let align = match t1 {
        Some((a, b)) => PreserveAspectRatioAlign::spec_parse(trim(s.subrange(a, b))),
        None => PreserveAspectRatioAlign::XMidYMid,
    };
    let mos = match t1 {
        Some((a, b)) => match token_at(s, b) {
            Some((c, d)) => if trim(s.subrange(c, d)) == "slice"@ {
                MeetOrSlice::Slice
            } else {
                MeetOrSlice::Meet
            },
            None => MeetOrSlice::Meet,
        },
        None => MeetOrSlice::Meet,
    };
    PreserveAspectRatio { align, meet_or_slice: mos }
}

/// Next whitespace-separated token of `s` from character index `i`.
fn next_token(s: &str, v: &Vec<char>, i: usize) -> (r: Option<(usize, usize)>)
    requires
        v@ == s@,
        i <= v.len(),
    ensures
        match r {
            Some((a, b)) => token_at(s@, i as int) == Some((a as int, b as int)) && a <= b <= v.len(),
            None => token_at(s@, i as int).is_none(),
        },
{
    let mut a: usize = i;
    proof {
        crate::strings::lemma_first_non_ws(s@, i as int);
    }
    while a < v.len() && crate::strings::char_is_whitespace(v[a])
        invariant
            i <= a <= v.len(),
            v@ == s@,
            first_non_ws(s@, i as int) == first_non_ws(s@, a as int),
        decreases v.len() - a,
    {
        a += 1;
    }
    if a >= v.len() {
        return None;
    }
    let mut b: usize = a;
    while b < v.len() && !crate::strings::char_is_whitespace(v[b])
        invariant
            a <= b <= v.len(),
            v@ == s@,
            first_ws(s@, a as int) == first_ws(s@, b as int),
        decreases v.len() - b,
    {
        b += 1;
    }
    Some((a, b))
}

impl PreserveAspectRatio {
    /// Parse a `preserveAspectRatio` value: the first token is the
    /// alignment, the second (if any) `meet` / `slice`.
    pub fn from_str(s: &str) -> (r: Self)
        ensures
            r == par_spec(s@),
    {
        let v = crate::strings::str_chars(s);
        match next_token(s, &v, 0) {
            None => PreserveAspectRatio {
                align: PreserveAspectRatioAlign::XMidYMid,
                meet_or_slice: MeetOrSlice::Meet,
            },
            Some((a, b)) => {
                let t1 = s.substring_char(a, b);
                let align = PreserveAspectRatioAlign::from_str(t1);
                let mos = match next_token(s, &v, b) {
                    Some((c, d)) => MeetOrSlice::from_str(s.substring_char(c, d)),
                    None => MeetOrSlice::Meet,
                };
                PreserveAspectRatio { align, meet_or_slice: mos }
            },
        }
    }
}

/// `crossorigin` (HTML CORS settings attribute).
#[derive(Clone, Copy, Debug, PartialEq, Eq, Structural)]
pub enum CrossOrigin {
    /// `anonymous` (also the empty value).
    Anonymous,
    /// `use-credentials`.
    UseCredentials,
}

impl CrossOrigin {
    pub open spec fn spec_parse(t: Seq<char>) -> Option<CrossOrigin> {
        if t.len() == 0 || t == "anonymous"@ {
            Some(CrossOrigin::Anonymous)
        } else if t == "use-credentials"@ {
            Some(CrossOrigin::UseCredentials)
        } else {
            None
        }
    }

    /// Parse a `crossorigin` value; the empty value means anonymous,
    /// an unknown keyword gives `None`.
    pub fn from_str(s: &str) -> (r: Option<Self>)
        ensures
            r == Self::spec_parse(trim(s@)),
    {
        let t = str_trim(s);
        if crate::strings::str_chars(t).len() == 0 || str_eq(t, "anonymous") {
            Some(CrossOrigin::Anonymous)
        } else if str_eq(t, "use-credentials") {
            Some(CrossOrigin::UseCredentials)
        } else {
            None
        }
    }

    pub open spec fn canonical_keyword(self) -> Seq<char> {
        match self {
            CrossOrigin::Anonymous => "anonymous"@,
            CrossOrigin::UseCredentials => "use-credentials"@,
        }
    }

    /// The canonical keyword.
    pub fn as_canonical_str(&self) -> (r: &'static str)
        ensures
            r@ == self.canonical_keyword(),
    {
        match self {
            CrossOrigin::Anonymous => "anonymous",
            CrossOrigin::UseCredentials => "use-credentials",
        }
    }
}

/// The keyword `as_canonical_str` writes reads back as the same value.
pub proof fn lemma_cross_origin_round_trip(c: CrossOrigin)
    ensures
        CrossOrigin::spec_parse(trim(c.canonical_keyword())) == Some(c),
{
    reveal_strlit("anonymous");
    reveal_strlit("use-credentials");
    let k = c.canonical_keyword();
    assert(!is_unicode_ws(k[0]) && !is_unicode_ws(k.last()));
    assert(first_non_ws(k, 0) == 0);
    assert(last_non_ws(k, 0, k.len() as int) == k.len());
    assert(k.subrange(0, k.len() as int) =~= k);
}

/// `xChannelSelector` / `yChannelSelector` on `<feDisplacementMap>`.
#[derive(Clone, Copy, Debug, Default, PartialEq, Eq, Structural)]
pub enum ChannelSelector {
    R,
    G,
    B,
    /// Default — `A`.
    #[default]
    A,
}

impl ChannelSelector {
    pub open spec fn spec_parse(t: Seq<char>) -> ChannelSelector {
        if t == "R"@ {
            ChannelSelector::R
        } else if t == "G"@ {
            ChannelSelector::G
        } else if t == "B"@ {
            ChannelSelector::B
        } else {
            ChannelSelector::A
        }
    }

    /// Parse a channel letter; anything else selects alpha.
    pub fn from_str(s: &str) -> (r: Self)
        ensures
            r == Self::spec_parse(trim(s@)),
    {
        let t = str_trim(s);
        if str_eq(t, "R") {
            ChannelSelector::R
        } else if str_eq(t, "G") {
            ChannelSelector::G
        } else if str_eq(t, "B") {
            ChannelSelector::B
        } else {
            ChannelSelector::A
        }
    }
}

/// A resolved RGBA colour (`flood-color`, `lighting-color`).
#[derive(Clone, Copy, Debug, PartialEq, Eq, Structural)]
pub struct FloodColor {
    pub r: u8,
    pub g: u8,
    pub b: u8,
    pub a: u8,
}

impl Default for FloodColor {
    /// Opaque black.
    fn default() -> (c: Self)
        ensures
            c == (FloodColor { r: 0, g: 0, b: 0, a: 255 }),
    {
        FloodColor { r: 0, g: 0, b: 0, a: 255 }
    }
}

/// The `flood-color` for a value whose paint parse gave `parsed` (`Some`
/// for a plain colour): that colour, else (`currentColor`, anything
/// unknown) opaque black.
pub fn flood_color_from_paint(parsed: Option<FloodColor>) -> (c: FloodColor)
    ensures
        c == (match parsed {
            Some(p) => p,
            None => FloodColor { r: 0, g: 0, b: 0, a: 255 },
        }),
{
    match parsed {
        Some(p) => p,
        None => FloodColor::default(),
    }
}

/// The `lighting-color` for an attribute that is absent (`None`) or whose
/// paint parse gave `Some(parsed)`: the parsed colour when there is one,
/// else the initial value, opaque white.
pub fn lighting_color_from_paint(attr: Option<Option<FloodColor>>) -> (c: FloodColor)
    ensures
        c == (match attr {
            Some(Some(p)) => p,
            _ => FloodColor { r: 255, g: 255, b: 255, a: 255 },
        }),
{
    match attr {
        Some(Some(p)) => p,
        _ => FloodColor { r: 255, g: 255, b: 255, a: 255 },
    }
}

/// `<feComposite operator>`.
#[derive(Clone, Copy, Debug, Default, PartialEq, Eq, Structural)]
pub enum CompositeOperator {
    #[default]
    Over,
    In,
    Out,
    Atop,
    Xor,
    /// `k1*i1*i2 + k2*i1 + k3*i2 + k4`.
    Arithmetic,
}

impl CompositeOperator {
    pub open spec fn spec_parse(t: Seq<char>) -> CompositeOperator {
        if t == "in"@ {
            CompositeOperator::In
        } else if t == "out"@ {
            CompositeOperator::Out
        } else if t == "atop"@ {
            CompositeOperator::Atop
        } else if t == "xor"@ {
            CompositeOperator::Xor
        } else if t == "arithmetic"@ {
            CompositeOperator::Arithmetic
        } else {
            CompositeOperator::Over
        }
    }

    /// Parse an `operator` value; unknown keywords give `over`.
    pub fn from_str(s: &str) -> (r: Self)
        ensures
            r == Self::spec_parse(trim(s@)),
    {
        let t = str_trim(s);
        if str_eq(t, "in") {
            CompositeOperator::In
        } else if str_eq(t, "out") {
            CompositeOperator::Out
        } else if str_eq(t, "atop") {
            CompositeOperator::Atop
        } else if str_eq(t, "xor") {
            CompositeOperator::Xor
        } else if str_eq(t, "arithmetic") {
            CompositeOperator::Arithmetic
        } else {
            CompositeOperator::Over
        }
    }
}

/// `<feBlend mode>` (CSS Compositing and Blending 1).
#[derive(Clone, Copy, Debug, Default, PartialEq, Eq, Structural)]
pub enum BlendMode {
    #[default]
    Normal,
    Multiply,
    Screen,
    Darken,
    Lighten,
    Overlay,
    ColorDodge,
    ColorBurn,
    HardLight,
    SoftLight,
    Difference,
    Exclusion,
    Hue,
    Saturation,
    Color,
    Luminosity,
}

impl BlendMode {
    pub open spec fn spec_parse(t: Seq<char>) -> BlendMode {
        if t == "multiply"@ {
            BlendMode::Multiply
        } else if t == "screen"@ {
            BlendMode::Screen
        } else if t == "darken"@ {
            BlendMode::Darken
        } else if t == "lighten"@ {
            BlendMode::Lighten
        } else if t == "overlay"@ {
            BlendMode::Overlay
        } else if t == "color-dodge"@ {
            BlendMode::ColorDodge
        } else if t == "color-burn"@ {
            BlendMode::ColorBurn
        } else if t == "hard-light"@ {
            BlendMode::HardLight
        } else if t == "soft-light"@ {
            BlendMode::SoftLight
        } else if t == "difference"@ {
            BlendMode::Difference
        } else if t == "exclusion"@ {
            BlendMode::Exclusion
        } else if t == "hue"@ {
            BlendMode::Hue
        } else if t == "saturation"@ {
            BlendMode::Saturation
        } else if t == "color"@ {
            BlendMode::Color
        } else if t == "luminosity"@ {
            BlendMode::Luminosity
        } else {
            BlendMode::Normal
        }
    }

    /// Parse a `mode` value; unknown keywords give `normal`.
    pub fn from_str(s: &str) -> (r: Self)
        ensures
            r == Self::spec_parse(trim(s@)),
    {
        let t = str_trim(s);
        if str_eq(t, "multiply") {
            BlendMode::Multiply
        } else if str_eq(t, "screen") {
            BlendMode::Screen
        } else if str_eq(t, "darken") {
            BlendMode::Darken
        } else if str_eq(t, "lighten") {
            BlendMode::Lighten
        } else if str_eq(t, "overlay") {
            BlendMode::Overlay
        } else if str_eq(t, "color-dodge") {
            BlendMode::ColorDodge
        } else if str_eq(t, "color-burn") {
            BlendMode::ColorBurn
        } else if str_eq(t, "hard-light") {
            BlendMode::HardLight
        } else if str_eq(t, "soft-light") {
            BlendMode::SoftLight
        } else if str_eq(t, "difference") {
            BlendMode::Difference
        } else if str_eq(t, "exclusion") {
            BlendMode::Exclusion
        } else if str_eq(t, "hue") {
            BlendMode::Hue
        } else if str_eq(t, "saturation") {
            BlendMode::Saturation
        } else if str_eq(t, "color") {
            BlendMode::Color
        } else if str_eq(t, "luminosity") {
            BlendMode::Luminosity
        } else {
            BlendMode::Normal
        }
    }
}

/// `<feMorphology operator>`.
#[derive(Clone, Copy, Debug, Default, PartialEq, Eq, Structural)]
pub enum MorphologyOperator {
    #[default]
    Erode,
    Dilate,
}

impl MorphologyOperator {
    /// Parse an `operator` value: `dilate`, anything else erode.
    pub fn from_str(s: &str) -> (r: Self)
        ensures
            r == (if trim(s@) == "dilate"@ {
                MorphologyOperator::Dilate
            } else {
                MorphologyOperator::Erode
            }),
    {
        let t = str_trim(s);
        if str_eq(t, "dilate") {
            MorphologyOperator::Dilate
        } else {
            MorphologyOperator::Erode
        }
    }
}


/// `edgeMode` keywords: `wrap` wraps, `none` reads zero beyond the edge,
/// anything else duplicates the border.
pub proof fn lemma_edge_mode_keywords(t: Seq<char>)
    ensures
        (EdgeMode::spec_parse(t) == EdgeMode::Wrap) == (t == "wrap"@),
        (EdgeMode::spec_parse(t) == EdgeMode::Zero) == (t == "none"@),
        (EdgeMode::spec_parse(t) == EdgeMode::Duplicate) == !(t == "wrap"@ || t == "none"@),
{
    reveal_strlit("wrap");
    reveal_strlit("none");
    assert("wrap"@.len() == 4 && "wrap"@[0] == 'w' && "wrap"@[1] == 'r' && "wrap"@[2] == 'a' && "wrap"@[3] == 'p');
    assert("none"@.len() == 4 && "none"@[0] == 'n' && "none"@[1] == 'o' && "none"@[2] == 'n' && "none"@[3] == 'e');
}

/// `<feConvolveMatrix>` `edgeMode` keywords: `wrap`, `none`, anything else
/// duplicate.
pub proof fn lemma_convolve_edge_mode_keywords(t: Seq<char>)
    ensures
        (ConvolveEdgeMode::spec_parse(t) == ConvolveEdgeMode::Wrap) == (t == "wrap"@),
        (ConvolveEdgeMode::spec_parse(t) == ConvolveEdgeMode::Zero) == (t == "none"@),
        (ConvolveEdgeMode::spec_parse(t) == ConvolveEdgeMode::Duplicate) == !(t == "wrap"@ || t == "none"@),
{
    reveal_strlit("wrap");
    reveal_strlit("none");
    assert("wrap"@.len() == 4 && "wrap"@[0] == 'w' && "wrap"@[1] == 'r' && "wrap"@[2] == 'a' && "wrap"@[3] == 'p');
    assert("none"@.len() == 4 && "none"@[0] == 'n' && "none"@[1] == 'o' && "none"@[2] == 'n' && "none"@[3] == 'e');
}

/// Each alignment keyword names its own alignment; anything else
/// (`xMidYMid` among it) is the default `xMidYMid`.
pub proof fn lemma_align_keywords(t: Seq<char>)
    ensures
        (PreserveAspectRatioAlign::spec_parse(t) == PreserveAspectRatioAlign::NoAlign) == (t == "none"@),
        (PreserveAspectRatioAlign::spec_parse(t) == PreserveAspectRatioAlign::XMinYMin) == (t == "xMinYMin"@),
        (PreserveAspectRatioAlign::spec_parse(t) == PreserveAspectRatioAlign::XMidYMin) == (t == "xMidYMin"@),
        (PreserveAspectRatioAlign::spec_parse(t) == PreserveAspectRatioAlign::XMaxYMin) == (t == "xMaxYMin"@),
        (PreserveAspectRatioAlign::spec_parse(t) == PreserveAspectRatioAlign::XMinYMid) == (t == "xMinYMid"@),
        (PreserveAspectRatioAlign::spec_parse(t) == PreserveAspectRatioAlign::XMaxYMid) == (t == "xMaxYMid"@),
        (PreserveAspectRatioAlign::spec_parse(t) == PreserveAspectRatioAlign::XMinYMax) == (t == "xMinYMax"@),
        (PreserveAspectRatioAlign::spec_parse(t) == PreserveAspectRatioAlign::XMidYMax) == (t == "xMidYMax"@),
        (PreserveAspectRatioAlign::spec_parse(t) == PreserveAspectRatioAlign::XMaxYMax) == (t == "xMaxYMax"@),
        (PreserveAspectRatioAlign::spec_parse(t) == PreserveAspectRatioAlign::XMidYMid) == !(t == "none"@ || t == "xMinYMin"@ || t == "xMidYMin"@ || t == "xMaxYMin"@ || t == "xMinYMid"@ || t == "xMaxYMid"@ || t == "xMinYMax"@ || t == "xMidYMax"@ || t == "xMaxYMax"@),
{
    reveal_strlit("none");
    reveal_strlit("xMinYMin");
    reveal_strlit("xMidYMin");
    reveal_strlit("xMaxYMin");
    reveal_strlit("xMinYMid");
    reveal_strlit("xMaxYMid");
    reveal_strlit("xMinYMax");
    reveal_strlit("xMidYMax");
    reveal_strlit("xMaxYMax");
    assert("none"@.len() == 4 && "none"@[0] == 'n' && "none"@[1] == 'o' && "none"@[2] == 'n' && "none"@[3] == 'e');
    assert("xMinYMin"@.len() == 8 && "xMinYMin"@[0] == 'x' && "xMinYMin"@[1] == 'M' && "xMinYMin"@[2] == 'i' && "xMinYMin"@[3] == 'n' && "xMinYMin"@[4] == 'Y' && "xMinYMin"@[5] == 'M' && "xMinYMin"@[6] == 'i' && "xMinYMin"@[7] == 'n');
    assert("xMidYMin"@.len() == 8 && "xMidYMin"@[0] == 'x' && "xMidYMin"@[1] == 'M' && "xMidYMin"@[2] == 'i' && "xMidYMin"@[3] == 'd' && "xMidYMin"@[4] == 'Y' && "xMidYMin"@[5] == 'M' && "xMidYMin"@[6] == 'i' && "xMidYMin"@[7] == 'n');
    assert("xMaxYMin"@.len() == 8 && "xMaxYMin"@[0] == 'x' && "xMaxYMin"@[1] == 'M' && "xMaxYMin"@[2] == 'a' && "xMaxYMin"@[3] == 'x' && "xMaxYMin"@[4] == 'Y' && "xMaxYMin"@[5] == 'M' && "xMaxYMin"@[6] == 'i' && "xMaxYMin"@[7] == 'n');
    assert("xMinYMid"@.len() == 8 && "xMinYMid"@[0] == 'x' && "xMinYMid"@[1] == 'M' && "xMinYMid"@[2] == 'i' && "xMinYMid"@[3] == 'n' && "xMinYMid"@[4] == 'Y' && "xMinYMid"@[5] == 'M' && "xMinYMid"@[6] == 'i' && "xMinYMid"@[7] == 'd');
    assert("xMaxYMid"@.len() == 8 && "xMaxYMid"@[0] == 'x' && "xMaxYMid"@[1] == 'M' && "xMaxYMid"@[2] == 'a' && "xMaxYMid"@[3] == 'x' && "xMaxYMid"@[4] == 'Y' && "xMaxYMid"@[5] == 'M' && "xMaxYMid"@[6] == 'i' && "xMaxYMid"@[7] == 'd');
    assert("xMinYMax"@.len() == 8 && "xMinYMax"@[0] == 'x' && "xMinYMax"@[1] == 'M' && "xMinYMax"@[2] == 'i' && "xMinYMax"@[3] == 'n' && "xMinYMax"@[4] == 'Y' && "xMinYMax"@[5] == 'M' && "xMinYMax"@[6] == 'a' && "xMinYMax"@[7] == 'x');
    assert("xMidYMax"@.len() == 8 && "xMidYMax"@[0] == 'x' && "xMidYMax"@[1] == 'M' && "xMidYMax"@[2] == 'i' && "xMidYMax"@[3] == 'd' && "xMidYMax"@[4] == 'Y' && "xMidYMax"@[5] == 'M' && "xMidYMax"@[6] == 'a' && "xMidYMax"@[7] == 'x');
    assert("xMaxYMax"@.len() == 8 && "xMaxYMax"@[0] == 'x' && "xMaxYMax"@[1] == 'M' && "xMaxYMax"@[2] == 'a' && "xMaxYMax"@[3] == 'x' && "xMaxYMax"@[4] == 'Y' && "xMaxYMax"@[5] == 'M' && "xMaxYMax"@[6] == 'a' && "xMaxYMax"@[7] == 'x');
}

/// `R`, `G`, `B` select their channel; anything else selects alpha.
pub proof fn lemma_channel_keywords(t: Seq<char>)
    ensures
        (ChannelSelector::spec_parse(t) == ChannelSelector::R) == (t == "R"@),
        (ChannelSelector::spec_parse(t) == ChannelSelector::G) == (t == "G"@),
        (ChannelSelector::spec_parse(t) == ChannelSelector::B) == (t == "B"@),
        (ChannelSelector::spec_parse(t) == ChannelSelector::A) == !(t == "R"@ || t == "G"@ || t == "B"@),
{
    reveal_strlit("R");
    reveal_strlit("G");
    reveal_strlit("B");
    assert("R"@.len() == 1 && "R"@[0] == 'R');
    assert("G"@.len() == 1 && "G"@[0] == 'G');
    assert("B"@.len() == 1 && "B"@[0] == 'B');
}

/// Each compositing keyword names its own operator; anything else is
/// `over`.
pub proof fn lemma_composite_keywords(t: Seq<char>)
    ensures
        (CompositeOperator::spec_parse(t) == CompositeOperator::In) == (t == "in"@),
        (CompositeOperator::spec_parse(t) == CompositeOperator::Out) == (t == "out"@),
        (CompositeOperator::spec_parse(t) == CompositeOperator::Atop) == (t == "atop"@),
        (CompositeOperator::spec_parse(t) == CompositeOperator::Xor) == (t == "xor"@),
        (CompositeOperator::spec_parse(t) == CompositeOperator::Arithmetic) == (t == "arithmetic"@),
        (CompositeOperator::spec_parse(t) == CompositeOperator::Over) == !(t == "in"@ || t == "out"@ || t == "atop"@ || t == "xor"@ || t == "arithmetic"@),
{
    reveal_strlit("in");
    reveal_strlit("out");
    reveal_strlit("atop");
    reveal_strlit("xor");
    reveal_strlit("arithmetic");
    assert("in"@.len() == 2 && "in"@[0] == 'i' && "in"@[1] == 'n');
    assert("out"@.len() == 3 && "out"@[0] == 'o' && "out"@[1] == 'u' && "out"@[2] == 't');
    assert("atop"@.len() == 4 && "atop"@[0] == 'a' && "atop"@[1] == 't' && "atop"@[2] == 'o' && "atop"@[3] == 'p');
    assert("xor"@.len() == 3 && "xor"@[0] == 'x' && "xor"@[1] == 'o' && "xor"@[2] == 'r');
    assert("arithmetic"@.len() == 10 && "arithmetic"@[0] == 'a' && "arithmetic"@[1] == 'r' && "arithmetic"@[2] == 'i' && "arithmetic"@[3] == 't' && "arithmetic"@[4] == 'h' && "arithmetic"@[5] == 'm' && "arithmetic"@[6] == 'e' && "arithmetic"@[7] == 't' && "arithmetic"@[8] == 'i' && "arithmetic"@[9] == 'c');
}

/// Each blend-mode keyword names its own mode; anything else is
/// `normal`.
pub proof fn lemma_blend_keywords(t: Seq<char>)
    ensures
        (BlendMode::spec_parse(t) == BlendMode::Multiply) == (t == "multiply"@),
        (BlendMode::spec_parse(t) == BlendMode::Screen) == (t == "screen"@),
        (BlendMode::spec_parse(t) == BlendMode::Darken) == (t == "darken"@),
        (BlendMode::spec_parse(t) == BlendMode::Lighten) == (t == "lighten"@),
        (BlendMode::spec_parse(t) == BlendMode::Overlay) == (t == "overlay"@),
        (BlendMode::spec_parse(t) == BlendMode::ColorDodge) == (t == "color-dodge"@),
        (BlendMode::spec_parse(t) == BlendMode::ColorBurn) == (t == "color-burn"@),
        (BlendMode::spec_parse(t) == BlendMode::HardLight) == (t == "hard-light"@),
        (BlendMode::spec_parse(t) == BlendMode::SoftLight) == (t == "soft-light"@),
        (BlendMode::spec_parse(t) == BlendMode::Difference) == (t == "difference"@),
        (BlendMode::spec_parse(t) == BlendMode::Exclusion) == (t == "exclusion"@),
        (BlendMode::spec_parse(t) == BlendMode::Hue) == (t == "hue"@),
        (BlendMode::spec_parse(t) == BlendMode::Saturation) == (t == "saturation"@),
        (BlendMode::spec_parse(t) == BlendMode::Color) == (t == "color"@),
        (BlendMode::spec_parse(t) == BlendMode::Luminosity) == (t == "luminosity"@),
        (BlendMode::spec_parse(t) == BlendMode::Normal) == !(t == "multiply"@ || t == "screen"@ || t == "darken"@ || t == "lighten"@ || t == "overlay"@ || t == "color-dodge"@ || t == "color-burn"@ || t == "hard-light"@ || t == "soft-light"@ || t == "difference"@ || t == "exclusion"@ || t == "hue"@ || t == "saturation"@ || t == "color"@ || t == "luminosity"@),
{
    reveal_strlit("multiply");
    reveal_strlit("screen");
    reveal_strlit("darken");
    reveal_strlit("lighten");
    reveal_strlit("overlay");
    reveal_strlit("color-dodge");
    reveal_strlit("color-burn");
    reveal_strlit("hard-light");
    reveal_strlit("soft-light");
    reveal_strlit("difference");
    reveal_strlit("exclusion");
    reveal_strlit("hue");
    reveal_strlit("saturation");
    reveal_strlit("color");
    reveal_strlit("luminosity");
    assert("multiply"@.len() == 8 && "multiply"@[0] == 'm' && "multiply"@[1] == 'u' && "multiply"@[2] == 'l' && "multiply"@[3] == 't' && "multiply"@[4] == 'i' && "multiply"@[5] == 'p' && "multiply"@[6] == 'l' && "multiply"@[7] == 'y');
    assert("screen"@.len() == 6 && "screen"@[0] == 's' && "screen"@[1] == 'c' && "screen"@[2] == 'r' && "screen"@[3] == 'e' && "screen"@[4] == 'e' && "screen"@[5] == 'n');
    assert("darken"@.len() == 6 && "darken"@[0] == 'd' && "darken"@[1] == 'a' && "darken"@[2] == 'r' && "darken"@[3] == 'k' && "darken"@[4] == 'e' && "darken"@[5] == 'n');
    assert("lighten"@.len() == 7 && "lighten"@[0] == 'l' && "lighten"@[1] == 'i' && "lighten"@[2] == 'g' && "lighten"@[3] == 'h' && "lighten"@[4] == 't' && "lighten"@[5] == 'e' && "lighten"@[6] == 'n');
    assert("overlay"@.len() == 7 && "overlay"@[0] == 'o' && "overlay"@[1] == 'v' && "overlay"@[2] == 'e' && "overlay"@[3] == 'r' && "overlay"@[4] == 'l' && "overlay"@[5] == 'a' && "overlay"@[6] == 'y');
    assert("color-dodge"@.len() == 11 && "color-dodge"@[0] == 'c' && "color-dodge"@[1] == 'o' && "color-dodge"@[2] == 'l' && "color-dodge"@[3] == 'o' && "color-dodge"@[4] == 'r' && "color-dodge"@[5] == '-' && "color-dodge"@[6] == 'd' && "color-dodge"@[7] == 'o' && "color-dodge"@[8] == 'd' && "color-dodge"@[9] == 'g' && "color-dodge"@[10] == 'e');
    assert("color-burn"@.len() == 10 && "color-burn"@[0] == 'c' && "color-burn"@[1] == 'o' && "color-burn"@[2] == 'l' && "color-burn"@[3] == 'o' && "color-burn"@[4] == 'r' && "color-burn"@[5] == '-' && "color-burn"@[6] == 'b' && "color-burn"@[7] == 'u' && "color-burn"@[8] == 'r' && "color-burn"@[9] == 'n');
    assert("hard-light"@.len() == 10 && "hard-light"@[0] == 'h' && "hard-light"@[1] == 'a' && "hard-light"@[2] == 'r' && "hard-light"@[3] == 'd' && "hard-light"@[4] == '-' && "hard-light"@[5] == 'l' && "hard-light"@[6] == 'i' && "hard-light"@[7] == 'g' && "hard-light"@[8] == 'h' && "hard-light"@[9] == 't');
    assert("soft-light"@.len() == 10 && "soft-light"@[0] == 's' && "soft-light"@[1] == 'o' && "soft-light"@[2] == 'f' && "soft-light"@[3] == 't' && "soft-light"@[4] == '-' && "soft-light"@[5] == 'l' && "soft-light"@[6] == 'i' && "soft-light"@[7] == 'g' && "soft-light"@[8] == 'h' && "soft-light"@[9] == 't');
    assert("difference"@.len() == 10 && "difference"@[0] == 'd' && "difference"@[1] == 'i' && "difference"@[2] == 'f' && "difference"@[3] == 'f' && "difference"@[4] == 'e' && "difference"@[5] == 'r' && "difference"@[6] == 'e' && "difference"@[7] == 'n' && "difference"@[8] == 'c' && "difference"@[9] == 'e');
    assert("exclusion"@.len() == 9 && "exclusion"@[0] == 'e' && "exclusion"@[1] == 'x' && "exclusion"@[2] == 'c' && "exclusion"@[3] == 'l' && "exclusion"@[4] == 'u' && "exclusion"@[5] == 's' && "exclusion"@[6] == 'i' && "exclusion"@[7] == 'o' && "exclusion"@[8] == 'n');
    assert("hue"@.len() == 3 && "hue"@[0] == 'h' && "hue"@[1] == 'u' && "hue"@[2] == 'e');
    assert("saturation"@.len() == 10 && "saturation"@[0] == 's' && "saturation"@[1] == 'a' && "saturation"@[2] == 't' && "saturation"@[3] == 'u' && "saturation"@[4] == 'r' && "saturation"@[5] == 'a' && "saturation"@[6] == 't' && "saturation"@[7] == 'i' && "saturation"@[8] == 'o' && "saturation"@[9] == 'n');
    assert("color"@.len() == 5 && "color"@[0] == 'c' && "color"@[1] == 'o' && "color"@[2] == 'l' && "color"@[3] == 'o' && "color"@[4] == 'r');
    assert("luminosity"@.len() == 10 && "luminosity"@[0] == 'l' && "luminosity"@[1] == 'u' && "luminosity"@[2] == 'm' && "luminosity"@[3] == 'i' && "luminosity"@[4] == 'n' && "luminosity"@[5] == 'o' && "luminosity"@[6] == 's' && "luminosity"@[7] == 'i' && "luminosity"@[8] == 't' && "luminosity"@[9] == 'y');
}

/// `crossorigin`: empty or `anonymous` is anonymous, `use-credentials`
/// uses credentials, anything else is not a CORS setting.
pub proof fn lemma_cross_origin_keywords(t: Seq<char>)
    ensures
        (CrossOrigin::spec_parse(t) == Some(CrossOrigin::Anonymous)) == (t.len() == 0 || t == "anonymous"@),
        (CrossOrigin::spec_parse(t) == Some(CrossOrigin::UseCredentials)) == (t == "use-credentials"@),
        (CrossOrigin::spec_parse(t) is None) == !(t.len() == 0 || t == "anonymous"@ || t == "use-credentials"@),
{
    reveal_strlit("anonymous");
    reveal_strlit("use-credentials");
    assert("anonymous"@.len() == 9 && "anonymous"@[0] == 'a' && "anonymous"@[1] == 'n' && "anonymous"@[2] == 'o' && "anonymous"@[3] == 'n' && "anonymous"@[4] == 'y' && "anonymous"@[5] == 'm' && "anonymous"@[6] == 'o' && "anonymous"@[7] == 'u' && "anonymous"@[8] == 's');
    assert("use-credentials"@.len() == 15 && "use-credentials"@[0] == 'u' && "use-credentials"@[1] == 's' && "use-credentials"@[2] == 'e' && "use-credentials"@[3] == '-' && "use-credentials"@[4] == 'c' && "use-credentials"@[5] == 'r' && "use-credentials"@[6] == 'e' && "use-credentials"@[7] == 'd' && "use-credentials"@[8] == 'e' && "use-credentials"@[9] == 'n' && "use-credentials"@[10] == 't' && "use-credentials"@[11] == 'i' && "use-credentials"@[12] == 'a' && "use-credentials"@[13] == 'l' && "use-credentials"@[14] == 's');
}

/// Each input keyword names its own pixel source; any other text is a
/// reference to the `result` of that name.
pub proof fn lemma_filter_input_keywords(t: Seq<char>)
    ensures
        FilterInput::spec_parse(t) matches SFilterInput::Reference(r) ==> r == t,
        !(FilterInput::spec_parse(t) is Previous),
        (FilterInput::spec_parse(t) == SFilterInput::SourceGraphic) == (t == "SourceGraphic"@),
        (FilterInput::spec_parse(t) == SFilterInput::SourceAlpha) == (t == "SourceAlpha"@),
        (FilterInput::spec_parse(t) == SFilterInput::BackgroundImage) == (t == "BackgroundImage"@),
        (FilterInput::spec_parse(t) == SFilterInput::BackgroundAlpha) == (t == "BackgroundAlpha"@),
        (FilterInput::spec_parse(t) == SFilterInput::FillPaint) == (t == "FillPaint"@),
        (FilterInput::spec_parse(t) == SFilterInput::StrokePaint) == (t == "StrokePaint"@),
{
    reveal_strlit("SourceGraphic");
    reveal_strlit("SourceAlpha");
    reveal_strlit("BackgroundImage");
    reveal_strlit("BackgroundAlpha");
    reveal_strlit("FillPaint");
    reveal_strlit("StrokePaint");
    assert("SourceGraphic"@.len() == 13 && "SourceGraphic"@[0] == 'S' && "SourceGraphic"@[1] == 'o' && "SourceGraphic"@[2] == 'u' && "SourceGraphic"@[3] == 'r' && "SourceGraphic"@[4] == 'c' && "SourceGraphic"@[5] == 'e' && "SourceGraphic"@[6] == 'G' && "SourceGraphic"@[7] == 'r' && "SourceGraphic"@[8] == 'a' && "SourceGraphic"@[9] == 'p' && "SourceGraphic"@[10] == 'h' && "SourceGraphic"@[11] == 'i' && "SourceGraphic"@[12] == 'c');
    assert("SourceAlpha"@.len() == 11 && "SourceAlpha"@[0] == 'S' && "SourceAlpha"@[1] == 'o' && "SourceAlpha"@[2] == 'u' && "SourceAlpha"@[3] == 'r' && "SourceAlpha"@[4] == 'c' && "SourceAlpha"@[5] == 'e' && "SourceAlpha"@[6] == 'A' && "SourceAlpha"@[7] == 'l' && "SourceAlpha"@[8] == 'p' && "SourceAlpha"@[9] == 'h' && "SourceAlpha"@[10] == 'a');
    assert("BackgroundImage"@.len() == 15 && "BackgroundImage"@[0] == 'B' && "BackgroundImage"@[1] == 'a' && "BackgroundImage"@[2] == 'c' && "BackgroundImage"@[3] == 'k' && "BackgroundImage"@[4] == 'g' && "BackgroundImage"@[5] == 'r' && "BackgroundImage"@[6] == 'o' && "BackgroundImage"@[7] == 'u' && "BackgroundImage"@[8] == 'n' && "BackgroundImage"@[9] == 'd' && "BackgroundImage"@[10] == 'I' && "BackgroundImage"@[11] == 'm' && "BackgroundImage"@[12] == 'a' && "BackgroundImage"@[13] == 'g' && "BackgroundImage"@[14] == 'e');
    assert("BackgroundAlpha"@.len() == 15 && "BackgroundAlpha"@[0] == 'B' && "BackgroundAlpha"@[1] == 'a' && "BackgroundAlpha"@[2] == 'c' && "BackgroundAlpha"@[3] == 'k' && "BackgroundAlpha"@[4] == 'g' && "BackgroundAlpha"@[5] == 'r' && "BackgroundAlpha"@[6] == 'o' && "BackgroundAlpha"@[7] == 'u' && "BackgroundAlpha"@[8] == 'n' && "BackgroundAlpha"@[9] == 'd' && "BackgroundAlpha"@[10] == 'A' && "BackgroundAlpha"@[11] == 'l' && "BackgroundAlpha"@[12] == 'p' && "BackgroundAlpha"@[13] == 'h' && "BackgroundAlpha"@[14] == 'a');
    assert("FillPaint"@.len() == 9 && "FillPaint"@[0] == 'F' && "FillPaint"@[1] == 'i' && "FillPaint"@[2] == 'l' && "FillPaint"@[3] == 'l' && "FillPaint"@[4] == 'P' && "FillPaint"@[5] == 'a' && "FillPaint"@[6] == 'i' && "FillPaint"@[7] == 'n' && "FillPaint"@[8] == 't');
    assert("StrokePaint"@.len() == 11 && "StrokePaint"@[0] == 'S' && "StrokePaint"@[1] == 't' && "StrokePaint"@[2] == 'r' && "StrokePaint"@[3] == 'o' && "StrokePaint"@[4] == 'k' && "StrokePaint"@[5] == 'e' && "StrokePaint"@[6] == 'P' && "StrokePaint"@[7] == 'a' && "StrokePaint"@[8] == 'i' && "StrokePaint"@[9] == 'n' && "StrokePaint"@[10] == 't');
}

} // verus!
