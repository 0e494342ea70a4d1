use oxideav_svg::encoder::{
    write_descriptive, write_element_verbatim, write_inline_element, write_link_attrs,
    write_marker_attrs, write_mixed_content_element, write_script_element,
};
use oxideav_svg::parser::{parse_xml, Element, Node};
use oxideav_svg::preserved::{DescriptiveText, LinkBinding, MarkerRefBinding};

fn first(src: &str) -> Element {
    match parse_xml(src).unwrap().into_iter().next().unwrap() {
        Node::Element(e) => e,
        Node::Text(_) => panic!("expected element"),
    }
}

#[test]
fn verbatim_element_is_pretty_printed() {
    let el = first("<pattern id=\"p\"><rect x='1'/>  <text>  a&lt;b  </text>\n</pattern>");
    let mut out = String::new();
    write_element_verbatim(&mut out, &el, 1);
    assert_eq!(
        out,
        "  <pattern id=\"p\">\n    <rect x=\"1\"/>\n    <text>\n      a&lt;b\n    </text>\n  </pattern>\n"
    );
}

#[test]
fn mixed_content_is_written_inline() {
    let el = first("<text x=\"1\">Hello <tspan fill=\"red\">big</tspan> world</text>");
    let mut out = String::new();
    write_mixed_content_element(&mut out, &el, 2);
    assert_eq!(out, "    <text x=\"1\">Hello <tspan fill=\"red\">big</tspan> world</text>\n");
    let mut inline = String::new();
    write_inline_element(&mut inline, &el);
    assert_eq!(inline, "<text x=\"1\">Hello <tspan fill=\"red\">big</tspan> world</text>");
}

#[test]
fn script_body_is_wrapped_in_cdata() {
    let el = Element {
        name: "script".to_string(),
        attrs: vec![("type".to_string(), "text/javascript".to_string())],
        children: vec![
            Node::Text("if (a < b && c) { x = \"]]>\"; }".to_string()),
            Node::Element(first("<ignored/>")),
        ],
    };
    let mut out = String::new();
    write_script_element(&mut out, &el, 0);
    assert_eq!(
        out,
        "<script type=\"text/javascript\"><![CDATA[if (a < b && c) { x = \"]]]]><![CDATA[>\"; }]]></script>\n"
    );
    let blank = first("<script>  </script>");
    let mut out = String::new();
    write_script_element(&mut out, &blank, 1);
    assert_eq!(out, "  <script/>\n");
}

#[test]
fn descriptive_items() {
    let mut out = String::new();
    write_descriptive(
        &mut out,
        "title",
        &DescriptiveText { text: "A & B".to_string(), lang: Some("en".to_string()) },
        1,
    );
    write_descriptive(&mut out, "desc", &DescriptiveText { text: String::new(), lang: None }, 0);
    assert_eq!(out, "  <title lang=\"en\">A &amp; B</title>\n<desc/>\n");
}

#[test]
fn link_and_marker_attributes() {
    let link = LinkBinding {
        path: vec![0, 1],
        href: Some("https://example.com/?a=1&b=\"2\"".to_string()),
        target: Some("_blank".to_string()),
        download: None,
        ping: None,
        rel: Some("noopener".to_string()),
        hreflang: None,
        type_: Some("text/html".to_string()),
        referrerpolicy: None,
        extra_attrs: vec![("class".to_string(), "nav".to_string())],
    };
    let mut out = String::from("<a");
    write_link_attrs(&mut out, &link);
    assert_eq!(
        out,
        "<a href=\"https://example.com/?a=1&amp;b=&quot;2&quot;\" target=\"_blank\" rel=\"noopener\" type=\"text/html\" class=\"nav\""
    );
    let markers = MarkerRefBinding {
        path: vec![2],
        marker_start: Some("url(#s)".to_string()),
        marker_mid: None,
        marker_end: Some("url(#e)".to_string()),
    };
    let mut out = String::new();
    write_marker_attrs(&mut out, &markers);
    assert_eq!(out, " marker-start=\"url(#s)\" marker-end=\"url(#e)\"");
}
