use oxideav_svg::fragment::{fragment_target, svg_view_attributes, FragmentTarget};

fn pairs(v: &[(String, String)]) -> Vec<(&str, &str)> {
    v.iter().map(|(a, b)| (a.as_str(), b.as_str())).collect()
}

#[test]
fn fragment_forms() {
    assert!(matches!(fragment_target(""), FragmentTarget::Root));
    assert!(matches!(fragment_target("  #  "), FragmentTarget::Root));
    assert!(matches!(fragment_target("t=10"), FragmentTarget::Root));
    assert!(matches!(fragment_target("xywh=0,0,10,10"), FragmentTarget::Root));
    assert!(matches!(fragment_target("track=a"), FragmentTarget::Root));
    assert!(matches!(fragment_target("id=x"), FragmentTarget::Root));
    match fragment_target("#MyView") {
        FragmentTarget::Name(n) => assert_eq!(n, "MyView"),
        _ => panic!(),
    }
    match fragment_target("svgView(viewBox(0,0,200,200))") {
        FragmentTarget::SvgView(inner) => assert_eq!(inner, "viewBox(0,0,200,200)"),
        _ => panic!(),
    }
    // Without the closing parenthesis it is a name.
    match fragment_target("svgView(viewBox") {
        FragmentTarget::Name(n) => assert_eq!(n, "svgView(viewBox"),
        _ => panic!(),
    }
    // Only the last character is checked for the closing parenthesis.
    match fragment_target("svgView(viewBox(0,0,1,1)") {
        FragmentTarget::SvgView(inner) => assert_eq!(inner, "viewBox(0,0,1,1"),
        _ => panic!(),
    }
}

#[test]
fn svg_view_items_in_order() {
    let items = svg_view_attributes("preserveAspectRatio(xMinYMin);viewBox(0,0,50,50)");
    assert_eq!(
        pairs(&items),
        vec![("preserveAspectRatio", "xMinYMin"), ("viewBox", "0,0,50,50")]
    );
}

#[test]
fn svg_view_tolerates_percent_encoded_semicolons_and_drops_malformed() {
    let items = svg_view_attributes(" viewBox( 0 0 10 10 ) %3B zoomAndPan(disable)%3b;bogus; broken(1 ;transform(scale(2) ");
    assert_eq!(
        pairs(&items),
        vec![("viewBox", "0 0 10 10"), ("zoomAndPan", "disable"), ("transform", "scale(2")]
    );
    assert!(svg_view_attributes("").is_empty());
}
