use oxideav_svg::filter::{
    working_space_is_linear, BlendMode, ColorInterpolationFilters, ChannelSelector, CompositeOperator, ConvolveEdgeMode, CrossOrigin, EdgeMode,
    FilterInput, FloodColor, MeetOrSlice, MorphologyOperator, PreserveAspectRatio,
    PreserveAspectRatioAlign, TurbulenceKind, flood_color_from_paint, input_or_default, lighting_color_from_paint,
};
use oxideav_svg::filter_eval::edge_sample;
use oxideav_svg::parser::Element;

#[test]
fn preserve_aspect_ratio_alignment_keywords_round_trip() {
    for (s, want) in [
        ("none", PreserveAspectRatioAlign::NoAlign),
        ("xMinYMin", PreserveAspectRatioAlign::XMinYMin),
        ("xMidYMin", PreserveAspectRatioAlign::XMidYMin),
        ("xMaxYMin", PreserveAspectRatioAlign::XMaxYMin),
        ("xMinYMid", PreserveAspectRatioAlign::XMinYMid),
        ("xMidYMid", PreserveAspectRatioAlign::XMidYMid),
        ("xMaxYMid", PreserveAspectRatioAlign::XMaxYMid),
        ("xMinYMax", PreserveAspectRatioAlign::XMinYMax),
        ("xMidYMax", PreserveAspectRatioAlign::XMidYMax),
        ("xMaxYMax", PreserveAspectRatioAlign::XMaxYMax),
    ] {
        assert_eq!(PreserveAspectRatioAlign::from_str(s), want, "for {s}");
    }
    // Unknown → default xMidYMid per spec.
    assert_eq!(
        PreserveAspectRatioAlign::from_str("not-a-real-value"),
        PreserveAspectRatioAlign::XMidYMid
    );
}

#[test]
fn edge_sample_modes() {
    assert_eq!(edge_sample(-1, 4, EdgeMode::Zero), None);
    assert_eq!(edge_sample(4, 4, EdgeMode::Zero), None);
    assert_eq!(edge_sample(2, 4, EdgeMode::Zero), Some(2));
    assert_eq!(edge_sample(-3, 4, EdgeMode::Duplicate), Some(0));
    assert_eq!(edge_sample(9, 4, EdgeMode::Duplicate), Some(3));
    assert_eq!(edge_sample(-1, 4, EdgeMode::Wrap), Some(3));
    assert_eq!(edge_sample(5, 4, EdgeMode::Wrap), Some(1));
    assert_eq!(edge_sample(0, 0, EdgeMode::Duplicate), None);
}

#[test]
fn edge_sample_wraps_far_negative_coordinates() {
    assert_eq!(edge_sample(-9, 4, EdgeMode::Wrap), Some(3));
    assert_eq!(edge_sample(-8, 4, EdgeMode::Wrap), Some(0));
    assert_eq!(edge_sample(0, 0, EdgeMode::Wrap), None);
    assert_eq!(edge_sample(0, 0, EdgeMode::Zero), None);
}

#[test]
fn preserve_aspect_ratio_full_attribute() {
    assert_eq!(
        PreserveAspectRatio::from_str("xMinYMax slice"),
        PreserveAspectRatio {
            align: PreserveAspectRatioAlign::XMinYMax,
            meet_or_slice: MeetOrSlice::Slice
        }
    );
    assert_eq!(
        PreserveAspectRatio::from_str("defer none"),
        PreserveAspectRatio {
            align: PreserveAspectRatioAlign::XMidYMid,
            meet_or_slice: MeetOrSlice::Meet
        }
    );
    assert_eq!(PreserveAspectRatio::from_str(""), PreserveAspectRatio::default());
    assert_eq!(
        PreserveAspectRatio::default(),
        PreserveAspectRatio {
            align: PreserveAspectRatioAlign::XMidYMid,
            meet_or_slice: MeetOrSlice::Meet
        }
    );
}

#[test]
fn keyword_enums_parse_and_default() {
    assert_eq!(EdgeMode::from_str(" wrap "), EdgeMode::Wrap);
    assert_eq!(EdgeMode::from_str("none"), EdgeMode::Zero);
    assert_eq!(EdgeMode::from_str("bogus"), EdgeMode::Duplicate);
    assert_eq!(ConvolveEdgeMode::from_str("none"), ConvolveEdgeMode::Zero);
    assert_eq!(ConvolveEdgeMode::from_str("bogus"), ConvolveEdgeMode::default());
    assert_eq!(TurbulenceKind::from_str("fractalNoise"), TurbulenceKind::FractalNoise);
    assert_eq!(TurbulenceKind::from_str("x"), TurbulenceKind::Turbulence);
    assert_eq!(ChannelSelector::from_str("R"), ChannelSelector::R);
    assert_eq!(ChannelSelector::from_str("q"), ChannelSelector::A);
    assert_eq!(CompositeOperator::from_str("arithmetic"), CompositeOperator::Arithmetic);
    assert_eq!(CompositeOperator::from_str("x"), CompositeOperator::Over);
    assert_eq!(BlendMode::from_str("multiply"), BlendMode::Multiply);
    assert_eq!(BlendMode::from_str("x"), BlendMode::Normal);
    assert_eq!(MorphologyOperator::from_str("dilate"), MorphologyOperator::Dilate);
    assert_eq!(MorphologyOperator::from_str("x"), MorphologyOperator::Erode);
    assert_eq!(MeetOrSlice::from_str("slice"), MeetOrSlice::Slice);
    assert_eq!(FloodColor::default(), FloodColor { r: 0, g: 0, b: 0, a: 255 });
}

#[test]
fn cross_origin_keywords() {
    assert_eq!(CrossOrigin::from_str(""), Some(CrossOrigin::Anonymous));
    assert_eq!(CrossOrigin::from_str("anonymous"), Some(CrossOrigin::Anonymous));
    assert_eq!(CrossOrigin::from_str(" use-credentials "), Some(CrossOrigin::UseCredentials));
    assert_eq!(CrossOrigin::from_str("nope"), None);
    assert_eq!(CrossOrigin::UseCredentials.as_canonical_str(), "use-credentials");
    assert_eq!(CrossOrigin::Anonymous.as_canonical_str(), "anonymous");
}

#[test]
fn filter_inputs_and_defaults() {
    assert_eq!(FilterInput::from_str("SourceAlpha"), FilterInput::SourceAlpha);
    assert_eq!(FilterInput::from_str(" blur1 "), FilterInput::Reference("blur1".to_string()));
    let with_in = Element {
        name: "feOffset".to_string(),
        attrs: vec![("in".to_string(), "StrokePaint".to_string())],
        children: Vec::new(),
    };
    assert_eq!(input_or_default(&with_in, &None), FilterInput::StrokePaint);
    let without = Element { name: "feOffset".to_string(), attrs: Vec::new(), children: Vec::new() };
    assert_eq!(input_or_default(&without, &None), FilterInput::SourceGraphic);
    assert_eq!(
        input_or_default(&without, &Some(FilterInput::Reference("prev".to_string()))),
        FilterInput::Reference("prev".to_string())
    );
    assert_eq!(input_or_default(&without, &Some(FilterInput::Previous)), FilterInput::Previous);
    assert_eq!(input_or_default(&with_in, &Some(FilterInput::Previous)), FilterInput::StrokePaint);
}

#[test]
fn cross_origin_keyword_reads_back() {
    for c in [CrossOrigin::Anonymous, CrossOrigin::UseCredentials] {
        assert_eq!(CrossOrigin::from_str(c.as_canonical_str()), Some(c));
    }
}

#[test]
fn edge_samples_stay_inside_the_axis() {
    for len in 1usize..6 {
        for c in -20isize..20 {
            for mode in [EdgeMode::Zero, EdgeMode::Duplicate, EdgeMode::Wrap] {
                if let Some(i) = edge_sample(c, len, mode) {
                    assert!(i < len);
                }
            }
        }
    }
}

#[test]
fn flood_color_falls_back_to_opaque_black() {
    let red = FloodColor { r: 255, g: 0, b: 0, a: 128 };
    assert_eq!(flood_color_from_paint(Some(red)), red);
    assert_eq!(
        flood_color_from_paint(None),
        FloodColor { r: 0, g: 0, b: 0, a: 255 }
    );
}

#[test]
fn lighting_color_falls_back_to_opaque_white() {
    let white = FloodColor { r: 255, g: 255, b: 255, a: 255 };
    let teal = FloodColor { r: 0, g: 128, b: 128, a: 255 };
    assert_eq!(lighting_color_from_paint(None), white);
    assert_eq!(lighting_color_from_paint(Some(None)), white);
    assert_eq!(lighting_color_from_paint(Some(Some(teal))), teal);
}

#[test]
fn only_srgb_filters_in_gamma_space() {
    assert!(working_space_is_linear(ColorInterpolationFilters::Auto));
    assert!(working_space_is_linear(ColorInterpolationFilters::LinearRgb));
    assert!(!working_space_is_linear(ColorInterpolationFilters::Srgb));
    assert_eq!(ColorInterpolationFilters::default(), ColorInterpolationFilters::Auto);
}
