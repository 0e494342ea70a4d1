use oxideav_svg::parser::{parse_xml, Node};
use oxideav_svg::text::{
    collect_text_run, parse_side, parse_text_anchor, ResolverAlreadySet, Side, TextAnchor,
};

#[test]
fn text_anchor_keywords() {
    assert_eq!(parse_text_anchor(" MIDDLE ", TextAnchor::Start), TextAnchor::Middle);
    assert_eq!(parse_text_anchor("end", TextAnchor::Start), TextAnchor::End);
    assert_eq!(parse_text_anchor("start", TextAnchor::End), TextAnchor::Start);
    assert_eq!(parse_text_anchor("inherit", TextAnchor::End), TextAnchor::End);
}

#[test]
fn side_keyword() {
    assert_eq!(parse_side(Some(" right ")), Side::Right);
    assert_eq!(parse_side(Some("Right")), Side::Left);
    assert_eq!(parse_side(None), Side::Left);
}

#[test]
fn text_run_includes_tspans_only() {
    let nodes = parse_xml("<textPath>Hello <tspan>brave <b>x</b><svg:tspan>new</svg:tspan></tspan> world<a>no</a></textPath>").unwrap();
    let el = match &nodes[0] {
        Node::Element(e) => e,
        _ => panic!(),
    };
    assert_eq!(collect_text_run(el), "Hello brave new world");
}

#[test]
fn resolver_error_message() {
    assert_eq!(ResolverAlreadySet.message(), "font resolver was already set");
}
