use oxideav_svg::parser::{
    attr, decode_entities, decode_utf8_lossy_stripping_bom, deflate_gzip, escape_attr, escape_text,
    find_element, inflate_gzip, is_gzip, parse_xml, parse_xml_nodes, tag_local, Element, Node,
    XmlError,
};

#[test]
fn parses_self_closing_with_attrs() {
    let nodes = parse_xml(r#"<rect x="1" y="2" width="3" height="4"/>"#).unwrap();
    assert_eq!(nodes.len(), 1);
    if let Node::Element(e) = &nodes[0] {
        assert_eq!(e.name, "rect");
        assert_eq!(e.attrs.len(), 4);
        assert_eq!(e.attrs[0], ("x".into(), "1".into()));
        assert!(e.children.is_empty());
    } else {
        panic!("expected element");
    }
}

#[test]
fn parses_nested_elements_and_text() {
    let src = r#"<g><rect x="0"/></g>"#;
    let nodes = parse_xml(src).unwrap();
    let g = match &nodes[0] {
        Node::Element(e) => e,
        _ => panic!(),
    };
    assert_eq!(g.name, "g");
    let rect = match &g.children[0] {
        Node::Element(e) => e,
        _ => panic!(),
    };
    assert_eq!(rect.name, "rect");
}

#[test]
fn skips_xml_declaration_and_comment() {
    let src = "<?xml version=\"1.0\"?>\n<!-- hello -->\n<svg/>";
    let nodes = parse_xml(src).unwrap();
    assert_eq!(nodes.len(), 1);
    if let Node::Element(e) = &nodes[0] {
        assert_eq!(e.name, "svg");
    }
}

#[test]
fn decodes_named_and_numeric_entities() {
    assert_eq!(decode_entities("&amp;&lt;&gt;&quot;&apos;"), "&<>\"'");
    assert_eq!(decode_entities("&#65;&#x42;"), "AB");
    // Unknown entity passes through verbatim.
    assert_eq!(decode_entities("&unknown;rest"), "&unknown;rest");
}

#[test]
fn escape_helpers_are_minimal_and_round_trip() {
    let attr = escape_attr("a&b<c>d\"e");
    assert_eq!(attr, "a&amp;b&lt;c&gt;d&quot;e");
    let text = escape_text("a&b<c>d");
    assert_eq!(text, "a&amp;b&lt;c&gt;d");
}

#[test]
fn tolerates_namespaced_attrs() {
    let nodes = parse_xml(
        r#"<svg xmlns="http://www.w3.org/2000/svg" xmlns:xlink="http://www.w3.org/1999/xlink"/>"#,
    )
    .unwrap();
    let svg = match &nodes[0] {
        Node::Element(e) => e,
        _ => panic!(),
    };
    assert_eq!(svg.attrs.len(), 2);
}

#[test]
fn decode_after_escape_is_identity() {
    for s in ["", "plain", "a&b<c>d\"e'f", "&amp;", "<<>>&&\"\"", "ünïcödé & <tags>"] {
        assert_eq!(decode_entities(&escape_text(s)), s);
        assert_eq!(decode_entities(&escape_attr(s)), s);
    }
}

#[test]
fn decodes_numeric_edge_cases() {
    // Out-of-range and surrogate code points stay verbatim.
    assert_eq!(decode_entities("&#xD800;"), "&#xD800;");
    assert_eq!(decode_entities("&#x110000;"), "&#x110000;");
    // A reference without `;` is not decoded.
    assert_eq!(decode_entities("&amp rest"), "&amp rest");
    assert_eq!(decode_entities("&#x263A;"), "\u{263A}");
    assert_eq!(decode_entities("a&#10;b"), "a\nb");
}

#[test]
fn reads_text_cdata_and_decoded_attribute_values() {
    let nodes = parse_xml("<t a='x&amp;y' b=bare>1 &lt; 2<![CDATA[<raw>]]></t>").unwrap();
    let t = match &nodes[0] {
        Node::Element(e) => e,
        _ => panic!(),
    };
    assert_eq!(t.attrs[0], ("a".to_string(), "x&y".to_string()));
    assert_eq!(t.attrs[1], ("b".to_string(), "bare".to_string()));
    assert_eq!(t.children.len(), 2);
    match &t.children[0] {
        Node::Text(s) => assert_eq!(s, "1 < 2"),
        _ => panic!(),
    }
    match &t.children[1] {
        Node::Text(s) => assert_eq!(s, "<raw>"),
        _ => panic!(),
    }
}

#[test]
fn reader_errors_have_their_kinds() {
    assert_eq!(parse_xml_nodes("< a/>").unwrap_err(), XmlError::EmptyTagName);
    assert_eq!(parse_xml_nodes("<a / x>").unwrap_err(), XmlError::MalformedSelfClosingTag);
    assert_eq!(parse_xml_nodes("<a b=").unwrap_err(), XmlError::AttributeMissingValue);
    assert_eq!(parse_xml_nodes("<a b='1'").unwrap_err(), XmlError::TruncatedElement);
    assert_eq!(parse_xml_nodes("<a></a").unwrap_err(), XmlError::TruncatedCloseTag);
    assert_eq!(XmlError::EmptyTagName.message(), "XML: empty tag name");
    assert!(parse_xml("<a b=").is_err());
}

#[test]
fn attribute_without_value_is_empty() {
    let nodes = parse_xml_nodes("<input disabled/>").unwrap();
    match &nodes[0] {
        Node::Element(e) => {
            assert_eq!(e.attrs, vec![("disabled".to_string(), String::new())]);
        },
        _ => panic!(),
    }
}

#[test]
fn tag_local_strips_prefix_and_lowercases() {
    assert_eq!(tag_local("svg:Rect"), "rect");
    assert_eq!(tag_local("a:b:TEXT"), "text");
    assert_eq!(tag_local("g"), "g");
}

#[test]
fn attr_and_find_element_look_up_by_name() {
    let nodes = parse_xml("<!-- c --><svg:svg id=\"root\" id=\"second\"><g/></svg:svg>").unwrap();
    let svg: &Element = find_element(&nodes, "svg").unwrap();
    assert_eq!(attr(svg, "id"), Some("root"));
    assert_eq!(attr(svg, "missing"), None);
    assert!(find_element(&nodes, "g").is_none());
}

#[test]
fn gzip_round_trip_and_magic() {
    let svg = b"<svg xmlns=\"http://www.w3.org/2000/svg\"/>".to_vec();
    let z = deflate_gzip(&svg).unwrap();
    assert!(is_gzip(&z));
    assert_ne!(z, svg);
    assert_eq!(inflate_gzip(&z).unwrap(), svg);
    assert!(!is_gzip(&svg));
    assert!(!is_gzip(&[0x1f]));
    assert!(inflate_gzip(b"not gzip").is_err());
}

#[test]
fn bom_is_stripped_and_invalid_utf8_replaced() {
    assert_eq!(decode_utf8_lossy_stripping_bom(b"\xEF\xBB\xBF<svg/>"), "<svg/>");
    assert_eq!(decode_utf8_lossy_stripping_bom(b"<svg/>"), "<svg/>");
    assert_eq!(decode_utf8_lossy_stripping_bom(b"a\xFFb"), "a\u{FFFD}b");
}

#[test]
fn escaping_is_minimal_and_plain_text_decodes_to_itself() {
    let plain = "no special characters here, 'quotes' ok";
    assert_eq!(escape_text(plain), plain);
    assert_eq!(escape_attr("a'b c"), "a'b c");
    assert_eq!(escape_attr("say \"hi\""), "say &quot;hi&quot;");
    assert_eq!(decode_entities(plain), plain);
}

#[test]
fn runaway_entity_keeps_every_character() {
    let s = "&abcdefghijklmnopqXYZ";
    assert_eq!(decode_entities(s), s);
    assert_eq!(decode_entities("&abcdefghijklmnopqr&amp;"), "&abcdefghijklmnopqr&");
    assert_eq!(decode_entities("&abcdefghijklmnopq&lt;"), "&abcdefghijklmnopq<");
}

fn nested(n: usize) -> String {
    "<g>".repeat(n) + &"</g>".repeat(n)
}

#[test]
fn nesting_past_the_depth_cap_is_refused() {
    assert!(parse_xml(&nested(200)).is_err());
    assert_eq!(parse_xml_nodes(&nested(129)).err(), Some(XmlError::TooDeep));
    assert!(parse_xml(&nested(oxideav_svg::parser::MAX_XML_DEPTH)).is_ok());
    assert_eq!(XmlError::TooDeep.message(), "XML: nesting deeper than MAX_XML_DEPTH");
}
