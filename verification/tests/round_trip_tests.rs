use oxideav_svg::encoder::{
    write_descriptive, write_element_verbatim, write_inline_element, write_mixed_content_element, write_script_element,
};
use oxideav_svg::preserved::DescriptiveText;
use oxideav_svg::parser::{decode_entities, escape_attr, escape_text, parse_xml, Element, Node};

fn text(s: &str) -> Node {
    Node::Text(s.to_string())
}

fn element(name: &str, attrs: &[(&str, &str)], children: Vec<Node>) -> Element {
    Element {
        name: name.to_string(),
        attrs: attrs.iter().map(|(k, v)| (k.to_string(), v.to_string())).collect(),
        children,
    }
}

fn same(a: &Element, b: &Element) -> bool {
    a.name == b.name
        && a.attrs == b.attrs
        && a.children.len() == b.children.len()
        && a.children.iter().zip(b.children.iter()).all(|(x, y)| match (x, y) {
            (Node::Element(p), Node::Element(q)) => same(p, q),
            (Node::Text(p), Node::Text(q)) => p == q,
            _ => false,
        })
}

#[test]
fn inline_output_reads_back_as_the_element() {
    let e = element(
        "svg:text",
        &[("x", "1 < 2 & \"q\""), ("data-empty", "")],
        vec![
            text("Hello <world> & "),
            Node::Element(element("tspan", &[("fill", "red")], vec![text("  ")])),
            Node::Element(element("br", &[], vec![])),
            text(" tail\n"),
        ],
    );
    let mut out = String::new();
    write_inline_element(&mut out, &e);
    let nodes = parse_xml(&out).unwrap();
    assert_eq!(nodes.len(), 1);
    match &nodes[0] {
        Node::Element(back) => assert!(same(back, &e)),
        Node::Text(_) => panic!("expected element"),
    }
}

#[test]
fn decoding_undoes_escaping() {
    let s = "if (a < b && c > d) { say(\"hi\"); }";
    assert_eq!(decode_entities(&escape_text(s)), s);
    assert_eq!(decode_entities(&escape_attr(s)), s);
}

fn texts(children: &[Node]) -> String {
    let mut s = String::new();
    for c in children {
        if let Node::Text(t) = c {
            s.push_str(t);
        }
    }
    s
}

#[test]
fn mixed_content_line_reads_back_with_its_line_break() {
    let e = element("text", &[("x", "5")], vec![text("a "), Node::Element(element("tspan", &[], vec![text("b")])), text(" c")]);
    let mut out = String::new();
    write_mixed_content_element(&mut out, &e, 3);
    let nodes = parse_xml(&out).unwrap();
    assert_eq!(nodes.len(), 2);
    match (&nodes[0], &nodes[1]) {
        (Node::Element(back), Node::Text(nl)) => {
            assert!(same(back, &e));
            assert_eq!(nl, "\n");
        },
        _ => panic!(),
    }
}

#[test]
fn descriptive_item_reads_back() {
    let mut out = String::new();
    write_descriptive(
        &mut out,
        "desc",
        &DescriptiveText { text: "x < y & \"z\"".to_string(), lang: Some("fr-CA".to_string()) },
        2,
    );
    let nodes = parse_xml(&out).unwrap();
    match &nodes[0] {
        Node::Element(d) => {
            assert_eq!(d.name, "desc");
            assert_eq!(d.attrs, vec![("lang".to_string(), "fr-CA".to_string())]);
            assert_eq!(texts(&d.children), "x < y & \"z\"");
        },
        _ => panic!(),
    }
}

#[test]
fn script_body_reads_back_through_cdata() {
    let body = "if (a < b && c) { s = \"]]>\" + ']]]>'; }";
    let e = element("script", &[("type", "module")], vec![text(body)]);
    let mut out = String::new();
    write_script_element(&mut out, &e, 1);
    let nodes = parse_xml(&out).unwrap();
    assert_eq!(nodes.len(), 2);
    match &nodes[0] {
        Node::Element(back) => {
            assert_eq!(back.name, "script");
            assert_eq!(back.attrs, vec![("type".to_string(), "module".to_string())]);
            assert_eq!(back.children.len(), 3);
            assert_eq!(texts(&back.children), body);
        },
        _ => panic!(),
    }
}

fn normalised(e: &Element) -> Element {
    let mut children = Vec::new();
    for c in &e.children {
        match c {
            Node::Text(t) => {
                if !t.trim().is_empty() {
                    children.push(Node::Text(t.trim().to_string()));
                }
            },
            Node::Element(x) => children.push(Node::Element(normalised(x))),
        }
    }
    Element { name: e.name.clone(), attrs: e.attrs.clone(), children }
}

#[test]
fn verbatim_output_reads_back_up_to_whitespace() {
    let e = element(
        "pattern",
        &[("id", "p&1"), ("width", "10")],
        vec![
            text("  lead <text>  "),
            Node::Element(element("rect", &[("x", "1")], vec![])),
            text("   "),
            Node::Element(element("g", &[], vec![text("inner"), Node::Element(element("circle", &[("r", "2")], vec![]))])),
            text("tail"),
        ],
    );
    let mut out = String::new();
    write_element_verbatim(&mut out, &e, 2);
    let nodes = parse_xml(&out).unwrap();
    assert_eq!(nodes.len(), 2);
    match (&nodes[0], &nodes[1]) {
        (Node::Element(back), Node::Text(nl)) => {
            assert!(same(&normalised(back), &normalised(&e)));
            assert_eq!(nl, "\n");
        },
        _ => panic!(),
    }
}
