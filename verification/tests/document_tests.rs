use oxideav_svg::document::{write_svg, write_svg_document, write_svgz, write_svgz_document};
use oxideav_svg::parser::{inflate_gzip, parse_xml, Element, Node};
use oxideav_svg::path_data::parse_path_segments;
use oxideav_svg::preserved::{
    AnimationFragment, DescriptiveBinding, DescriptiveText, IdScenePath, LinkBinding,
    PaintOrderBinding, PathLengthBinding, PreservedExtras, RefBinding, SwitchBinding, TextBinding,
    UseBinding,
};
use oxideav_svg::scene::{
    ClipText, GradientText, MaskText, PaintText, SceneGroup, SceneNode, ScenePath, SceneText,
    StopText, StrokeText,
};

fn first(src: &str) -> Element {
    match parse_xml(src).unwrap().into_iter().next().unwrap() {
        Node::Element(e) => e,
        Node::Text(_) => panic!("expected element"),
    }
}

fn path(d: &str, fill: PaintText) -> SceneNode {
    SceneNode::Path(ScenePath {
        d: parse_path_segments(d).unwrap(),
        fill,
        stroke: None,
        even_odd: false,
    })
}

fn group(children: Vec<SceneNode>) -> SceneNode {
    SceneNode::Group(SceneGroup { transform: None, opacity: None, clip: None, children })
}

fn scene(children: Vec<SceneNode>) -> SceneText {
    SceneText {
        width: "10".into(),
        height: "10".into(),
        view_box: None,
        children,
        gradients: Vec::new(),
        clips: Vec::new(),
        masks: Vec::new(),
    }
}

fn red_triangle() -> SceneText {
    let mut s = scene(vec![path("M 0 0 L 10 0 L 10 10 Z", PaintText::Color("#ff0000".into()))]);
    s.view_box = Some("0 0 10 10".into());
    s
}

#[test]
fn writes_minimal_svg_with_red_triangle() {
    let bytes = write_svg(&red_triangle());
    let s = std::str::from_utf8(&bytes).unwrap();
    assert!(s.starts_with("<?xml"));
    assert!(s.contains("<svg"));
    assert!(s.contains("fill=\"#ff0000\""));
    assert!(s.contains("d=\"M 0 0 L 10 0 L 10 10 Z\""));
    assert!(s.ends_with("</svg>\n"));
}

#[test]
fn whole_document_for_a_single_path() {
    let s = String::from_utf8(write_svg(&red_triangle())).unwrap();
    assert_eq!(
        s,
        "<?xml version=\"1.0\" encoding=\"UTF-8\"?>\n\
         <svg xmlns=\"http://www.w3.org/2000/svg\" width=\"10\" height=\"10\" viewBox=\"0 0 10 10\">\n\
         \x20 <path d=\"M 0 0 L 10 0 L 10 10 Z\" fill=\"#ff0000\"/>\n\
         </svg>\n"
    );
}

fn gradient() -> GradientText {
    GradientText {
        radial: false,
        geometry: vec![
            ("x1".into(), "0".into()),
            ("y1".into(), "0".into()),
            ("x2".into(), "10".into()),
            ("y2".into(), "0".into()),
        ],
        focal: Vec::new(),
        spread: None,
        stops: vec![
            StopText { offset: "0".into(), color: "#ff0000".into(), opacity: None },
            StopText { offset: "1".into(), color: "#0000ff".into(), opacity: Some("0.5".into()) },
        ],
    }
}

#[test]
fn writes_gradient_def_when_referenced() {
    let mut sc = scene(vec![path("M 0 0 L 10 10", PaintText::Gradient(0))]);
    sc.gradients.push(gradient());
    let s = write_svg_document(&sc, &PreservedExtras::new());
    assert!(s.contains("<defs>"));
    assert!(s.contains("<linearGradient"));
    assert!(s.contains("url(#grad1)"));
    assert!(s.contains(
        "  <defs>\n    <linearGradient id=\"grad1\" x1=\"0\" y1=\"0\" x2=\"10\" y2=\"0\" \
         gradientUnits=\"userSpaceOnUse\">\n      <stop offset=\"0\" stop-color=\"#ff0000\"/>\n      \
         <stop offset=\"1\" stop-color=\"#0000ff\" stop-opacity=\"0.5\"/>\n    </linearGradient>\n  </defs>\n"
    ));
}

#[test]
fn author_gradient_keeps_its_id_and_is_not_written_twice() {
    let mut sc = scene(vec![path("M 0 0 L 1 1", PaintText::Gradient(0))]);
    sc.gradients.push(gradient());
    let mut x = PreservedExtras::new();
    x.gradients.push(first("<linearGradient id=\"grad1\" gradientTransform=\"rotate(45)\"/>"));
    let s = write_svg_document(&sc, &x);
    assert_eq!(s.matches("<linearGradient").count(), 1);
    assert!(s.contains("<linearGradient id=\"grad1\" gradientTransform=\"rotate(45)\"/>"));
    assert!(s.contains("fill=\"url(#grad1)\""));
}

#[test]
fn unknown_gradient_position_paints_none() {
    let sc = scene(vec![path("M 0 0", PaintText::Gradient(3))]);
    let s = write_svg_document(&sc, &PreservedExtras::new());
    assert!(s.contains("fill=\"none\""));
    assert!(!s.contains("<defs>"));
}

#[test]
fn stroke_attributes_follow_the_stroke_paint() {
    let sc = scene(vec![SceneNode::Path(ScenePath {
        d: parse_path_segments("M 0 0 L 1 1").unwrap(),
        fill: PaintText::Absent,
        stroke: Some(StrokeText {
            paint: PaintText::Color("#000000".into()),
            attrs: vec![("stroke-width".into(), "2".into()), ("stroke-dasharray".into(), "1,2".into())],
        }),
        even_odd: true,
    })]);
    let s = write_svg_document(&sc, &PreservedExtras::new());
    assert!(s.contains(
        "<path d=\"M 0 0 L 1 1\" fill=\"none\" stroke=\"#000000\" stroke-width=\"2\" \
         stroke-dasharray=\"1,2\" fill-rule=\"evenodd\"/>"
    ));
}

#[test]
fn group_carries_transform_opacity_and_synthesised_clip() {
    let mut sc = scene(vec![SceneNode::Group(SceneGroup {
        transform: Some("matrix(1 0 0 1 5 5)".into()),
        opacity: Some("0.5".into()),
        clip: Some(0),
        children: vec![path("M 0 0", PaintText::Absent)],
    })]);
    sc.clips.push(ClipText { fingerprint: "fp".into(), d: parse_path_segments("M 0 0 L 4 4 Z").unwrap() });
    let mut x = PreservedExtras::new();
    x.clip_rules.push(oxideav_svg::preserved::ClipRuleBinding {
        clip_path_id: "c".into(),
        path_fingerprint: "fp".into(),
        clip_rule: "evenodd".into(),
    });
    let s = write_svg_document(&sc, &x);
    assert!(s.contains(
        "    <clipPath id=\"clip1\">\n      <path d=\"M 0 0 L 4 4 Z\" clip-rule=\"evenodd\"/>\n    </clipPath>\n"
    ));
    assert!(s.contains(
        "  <g transform=\"matrix(1 0 0 1 5 5)\" opacity=\"0.5\" clip-path=\"url(#clip1)\">\n    <path d=\"M 0 0\" fill=\"none\"/>\n  </g>\n"
    ));
}

#[test]
fn bound_clip_path_reuses_the_author_definition_and_id() {
    let mut sc = scene(vec![SceneNode::Group(SceneGroup {
        transform: None,
        opacity: None,
        clip: Some(0),
        children: Vec::new(),
    })]);
    sc.clips.push(ClipText { fingerprint: "fp".into(), d: parse_path_segments("M 0 0").unwrap() });
    let mut x = PreservedExtras::new();
    x.clip_paths_raw.push(first("<clipPath id=\"round\" clipPathUnits=\"objectBoundingBox\"><circle r=\"1\"/></clipPath>"));
    x.clip_refs.push(RefBinding { fingerprint: "fp".into(), ref_id: "round".into() });
    let s = write_svg_document(&sc, &x);
    assert!(s.contains("clip-path=\"url(#round)\""));
    assert!(s.contains(
        "    <clipPath id=\"round\" clipPathUnits=\"objectBoundingBox\">\n      <circle r=\"1\"/>\n    </clipPath>\n"
    ));
    assert!(!s.contains("clip1"));
}

#[test]
fn clip_binding_to_a_missing_definition_falls_back_to_synthesis() {
    let mut sc = scene(vec![SceneNode::Group(SceneGroup {
        transform: None,
        opacity: None,
        clip: Some(0),
        children: Vec::new(),
    })]);
    sc.clips.push(ClipText { fingerprint: "fp".into(), d: parse_path_segments("M 0 0").unwrap() });
    let mut x = PreservedExtras::new();
    x.clip_refs.push(RefBinding { fingerprint: "fp".into(), ref_id: "gone".into() });
    let s = write_svg_document(&sc, &x);
    assert!(s.contains("clip-path=\"url(#clip1)\""));
    assert!(s.contains("<clipPath id=\"clip1\">"));
}

#[test]
fn soft_mask_wraps_content_and_defines_the_mask() {
    let mut sc = scene(vec![SceneNode::SoftMask {
        mask: Some(0),
        content: Box::new(path("M 1 1", PaintText::Color("#00ff00".into()))),
    }]);
    sc.masks.push(MaskText {
        fingerprint: "m".into(),
        alpha: true,
        content: path("M 0 0", PaintText::Color("#ffffff".into())),
    });
    let mut x = PreservedExtras::new();
    x.id_paths.push(IdScenePath { id: "r1".into(), path: vec![0] });
    let s = write_svg_document(&sc, &x);
    assert!(s.contains(
        "    <mask id=\"mask1\" mask-type=\"alpha\">\n      <path d=\"M 0 0\" fill=\"#ffffff\"/>\n    </mask>\n"
    ));
    assert!(s.contains(
        "  <g id=\"r1\" mask=\"url(#mask1)\">\n    <path id=\"r1\" d=\"M 1 1\" fill=\"#00ff00\"/>\n  </g>\n"
    ));
}

#[test]
fn node_ids_links_and_hints_follow_tree_paths() {
    let sc = scene(vec![group(vec![path("M 0 0", PaintText::Absent), path("M 1 1", PaintText::Absent)])]);
    let mut x = PreservedExtras::new();
    x.id_paths.push(IdScenePath { id: "old".into(), path: vec![0, 1] });
    x.id_paths.push(IdScenePath { id: "p2".into(), path: vec![0, 1] });
    x.links.push(LinkBinding { path: vec![0], href: Some("https://a.example/?x=1&y=2".into()), ..LinkBinding::default() });
    x.paint_orders.push(PaintOrderBinding { path: vec![0, 0], paint_order: "stroke".into() });
    x.path_lengths.push(PathLengthBinding { path: vec![0, 0], path_length: "100".into() });
    let s = write_svg_document(&sc, &x);
    assert!(s.contains(
        "  <a href=\"https://a.example/?x=1&amp;y=2\">\n    <g>\n      \
         <path d=\"M 0 0\" fill=\"none\" pathLength=\"100\" paint-order=\"stroke\"/>\n      \
         <path id=\"p2\" d=\"M 1 1\" fill=\"none\"/>\n    </g>\n  </a>\n"
    ));
}

#[test]
fn use_switch_and_text_replace_their_flattened_nodes() {
    let sc = scene(vec![
        group(vec![path("M 9 9", PaintText::Absent)]),
        group(vec![path("M 8 8", PaintText::Absent)]),
        path("M 7 7", PaintText::Absent),
    ]);
    let mut x = PreservedExtras::new();
    x.uses.push(UseBinding { path: vec![0], href: "#sym".into(), x: Some("5".into()), ..UseBinding::default() });
    x.switches.push(SwitchBinding { path: vec![1], element: first("<switch><g systemLanguage=\"fr\"/><g/></switch>") });
    x.texts.push(TextBinding { path: vec![2], element: first("<text x=\"1\">Hello <tspan>world</tspan></text>") });
    let s = write_svg_document(&sc, &x);
    assert!(s.contains("  <use href=\"#sym\" x=\"5\"/>\n"));
    assert!(s.contains("  <switch>\n    <g systemLanguage=\"fr\"/>\n    <g/>\n  </switch>\n"));
    assert!(s.contains("  <text x=\"1\">Hello <tspan>world</tspan></text>\n"));
    assert!(!s.contains("M 9 9") && !s.contains("M 8 8") && !s.contains("M 7 7"));
}

#[test]
fn animations_inline_at_their_parent_or_trail_with_a_comment() {
    let sc = scene(vec![path("M 0 0", PaintText::Absent)]);
    let mut x = PreservedExtras::new();
    x.id_paths.push(IdScenePath { id: "box".into(), path: vec![0] });
    x.animations.push(AnimationFragment { parent_id: Some("box".into()), element: first("<animate attributeName=\"x\"/>") });
    x.animations.push(AnimationFragment { parent_id: Some("ghost".into()), element: first("<set to=\"1\"/>") });
    x.animations.push(AnimationFragment { parent_id: None, element: first("<animateTransform/>") });
    let s = write_svg_document(&sc, &x);
    assert!(s.contains(
        "  <path id=\"box\" d=\"M 0 0\" fill=\"none\">\n    <animate attributeName=\"x\"/>\n  </path>\n"
    ));
    assert!(s.ends_with(
        "  <!-- animation parent: #ghost -->\n  <set to=\"1\"/>\n  <animateTransform/>\n</svg>\n"
    ));
}

#[test]
fn defs_and_trailing_fragments_come_in_order() {
    let sc = scene(Vec::new());
    let mut x = PreservedExtras::new();
    x.styles.push("  rect { fill: red }  ".into());
    x.filters.push(first("<filter id=\"f\"/>"));
    x.defs_targets.push(first("<symbol id=\"sym\"/>"));
    x.markers.push(first("<marker id=\"m\"/>"));
    x.root_preserve_aspect_ratio = Some("xMinYMin meet".into());
    x.titles.push(DescriptiveBinding {
        parent_path: Vec::new(),
        items: vec![DescriptiveText { text: "T & U".into(), lang: Some("en".into()) }],
    });
    x.metadata.push(first("<metadata/>"));
    x.scripts.push(first("<script><![CDATA[if (a < b) {}]]></script>"));
    let s = write_svg_document(&sc, &x);
    assert_eq!(
        s,
        "<?xml version=\"1.0\" encoding=\"UTF-8\"?>\n\
         <svg xmlns=\"http://www.w3.org/2000/svg\" width=\"10\" height=\"10\" preserveAspectRatio=\"xMinYMin meet\">\n\
         \x20 <defs>\n    <symbol id=\"sym\"/>\n    <style><![CDATA[rect { fill: red }]]></style>\n    \
         <filter id=\"f\"/>\n    <marker id=\"m\"/>\n  </defs>\n  <title lang=\"en\">T &amp; U</title>\n  \
         <metadata/>\n  <script><![CDATA[if (a < b) {}]]></script>\n</svg>\n"
    );
}

#[test]
fn extras_new_is_empty() {
    let mut x = PreservedExtras::new();
    assert!(x.is_empty());
    x.styles.push("a{}".into());
    assert!(!x.is_empty());
}

#[test]
fn svgz_inflates_back_to_the_document() {
    let sc = red_triangle();
    let z = write_svgz(&sc).unwrap();
    assert_eq!(&z[..2], &[0x1f, 0x8b]);
    assert_eq!(inflate_gzip(&z).unwrap(), write_svg(&sc));
    let x = PreservedExtras::new();
    let z2 = write_svgz_document(&sc, &x).unwrap();
    assert_eq!(inflate_gzip(&z2).unwrap(), write_svg_document(&sc, &x).into_bytes());
}
