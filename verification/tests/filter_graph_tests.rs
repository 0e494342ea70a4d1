use oxideav_svg::filter::FilterInput;
use oxideav_svg::filter_graph::{filter_outline, PrimitiveKind, PrimitiveOutline};
use oxideav_svg::parser::{parse_xml, tag_local, Element, Node};

fn find_filter(nodes: &[Node]) -> Option<&Element> {
    for n in nodes {
        if let Node::Element(e) = n {
            if tag_local(&e.name) == "filter" {
                return Some(e);
            }
            if let Some(f) = find_filter(&e.children) {
                return Some(f);
            }
        }
    }
    None
}

fn outline(src: &str) -> Vec<PrimitiveOutline> {
    let nodes = parse_xml(src).expect("parse_xml ok");
    filter_outline(find_filter(&nodes).expect("no <filter> found"))
}

#[test]
fn implicit_input_chain_threads_previous_result() {
    let g = outline(
        r##"<svg xmlns="http://www.w3.org/2000/svg">
          <filter id="f">
            <feGaussianBlur stdDeviation="3" result="b"/>
            <feOffset dx="5" dy="5"/>
          </filter>
        </svg>"##,
    );
    assert_eq!(g.len(), 2);
    assert_eq!(g[1].kind, PrimitiveKind::Offset);
    assert_eq!(g[1].input, Some(FilterInput::Reference("b".into())));
}

#[test]
fn unknown_primitive_is_skipped() {
    let g = outline(
        r##"<svg xmlns="http://www.w3.org/2000/svg">
          <filter id="f">
            <feGaussianBlur stdDeviation="2"/>
            <feComposite operator="over"/>
            <feBogusPrimitive/>
          </filter>
        </svg>"##,
    );
    assert_eq!(g.len(), 2, "unknown <feBogusPrimitive> should be skipped");
    assert_eq!(g[1].kind, PrimitiveKind::Composite);
    assert_eq!(g[1].input2, Some(FilterInput::SourceGraphic));
}

#[test]
fn parses_merge_in_order() {
    let g = outline(
        r##"<svg xmlns="http://www.w3.org/2000/svg">
          <filter id="f">
            <feFlood result="bg" flood-color="#000000"/>
            <feGaussianBlur in="SourceAlpha" stdDeviation="2" result="blur"/>
            <feMerge>
              <feMergeNode in="bg"/>
              <feMergeNode in="blur"/>
              <feMergeNode in="SourceGraphic"/>
            </feMerge>
          </filter>
        </svg>"##,
    );
    // bg, blur, merge (3 primitives)
    assert_eq!(g.len(), 3);
    assert_eq!(g[2].kind, PrimitiveKind::Merge);
    let inputs = &g[2].merge_inputs;
    assert_eq!(inputs.len(), 3);
    assert_eq!(inputs[0], FilterInput::Reference("bg".into()));
    assert_eq!(inputs[1], FilterInput::Reference("blur".into()));
    assert_eq!(inputs[2], FilterInput::SourceGraphic);
    assert_eq!(g[0].input, None);
    assert_eq!(g[1].input, Some(FilterInput::SourceAlpha));
}

#[test]
fn merge_node_without_in_falls_back_to_previous_result() {
    let g = outline(
        r##"<svg xmlns="http://www.w3.org/2000/svg">
          <filter id="f">
            <feGaussianBlur stdDeviation="2" result="blurred"/>
            <feMerge>
              <feMergeNode/>
              <feMergeNode in="SourceGraphic"/>
            </feMerge>
          </filter>
        </svg>"##,
    );
    let inputs = &g[1].merge_inputs;
    assert_eq!(inputs[0], FilterInput::Reference("blurred".into()));
    assert_eq!(inputs[1], FilterInput::SourceGraphic);
}

#[test]
fn lighting_threads_input_chain_from_previous_result() {
    let g = outline(
        r##"<svg xmlns="http://www.w3.org/2000/svg">
          <filter id="f">
            <feGaussianBlur stdDeviation="1" result="b"/>
            <feDiffuseLighting>
              <feDistantLight azimuth="0" elevation="45"/>
            </feDiffuseLighting>
          </filter>
        </svg>"##,
    );
    assert_eq!(g[1].kind, PrimitiveKind::DiffuseLighting);
    assert_eq!(g[1].input, Some(FilterInput::Reference("b".into())));
}

#[test]
fn fe_tile_implicit_input_threads_previous_result() {
    let g = outline(
        r##"<svg xmlns="http://www.w3.org/2000/svg">
          <filter id="f">
            <feGaussianBlur stdDeviation="2" result="b"/>
            <feTile/>
          </filter>
        </svg>"##,
    );
    assert_eq!(g[1].kind, PrimitiveKind::Tile);
    assert_eq!(g[1].input, Some(FilterInput::Reference("b".into())));
}

#[test]
fn fe_tile_first_primitive_defaults_to_source_graphic() {
    let g = outline(
        r##"<svg xmlns="http://www.w3.org/2000/svg">
          <filter id="f">
            <feTile/>
          </filter>
        </svg>"##,
    );
    assert_eq!(g[0].input, Some(FilterInput::SourceGraphic));
}

#[test]
fn results_are_trimmed_and_each_primitive_reads_the_one_before() {
    let g = outline(
        r##"<filter>
            <svg:feFlood result=" a "/>
            <FEOFFSET/>
            <feBlend in2=" SourceAlpha " result="c"/>
            <feTurbulence/>
            <feDisplacementMap/>
          </filter>"##,
    );
    assert_eq!(g.len(), 5);
    assert_eq!(g[0].result, Some("a".to_string()));
    assert_eq!(g[1].kind, PrimitiveKind::Offset);
    assert_eq!(g[1].input, Some(FilterInput::Reference("a".into())));
    assert_eq!(g[2].input, Some(FilterInput::Previous));
    assert_eq!(g[2].input2, Some(FilterInput::SourceAlpha));
    assert_eq!(g[3].input, None);
    assert_eq!(g[4].input, Some(FilterInput::Previous));
    assert_eq!(g[4].input2, Some(FilterInput::SourceGraphic));
    assert_eq!(g[1].index, 3);
}

#[test]
fn unnamed_previous_primitive_feeds_the_next_one() {
    let g = outline(
        r##"<svg xmlns="http://www.w3.org/2000/svg">
          <filter id="f"><feGaussianBlur stdDeviation="2"/><feOffset dx="5" dy="5"/></filter>
        </svg>"##,
    );
    assert_eq!(g.len(), 2);
    assert_eq!(g[0].input, Some(FilterInput::SourceGraphic));
    assert_eq!(g[1].kind, PrimitiveKind::Offset);
    assert_eq!(g[1].input, Some(FilterInput::Previous));
    assert_ne!(g[1].input, Some(FilterInput::SourceGraphic));
}

#[test]
fn unnamed_primitive_after_a_named_one_is_the_one_read() {
    let g = outline(
        r##"<svg xmlns="http://www.w3.org/2000/svg">
          <filter id="f">
            <feFlood result="bg"/>
            <feGaussianBlur stdDeviation="2"/>
            <feOffset dx="1"/>
            <feMerge><feMergeNode/><feMergeNode in="bg"/></feMerge>
          </filter>
        </svg>"##,
    );
    assert_eq!(g.len(), 4);
    assert_eq!(g[1].input, Some(FilterInput::Reference("bg".into())));
    assert_eq!(g[2].input, Some(FilterInput::Previous));
    assert_eq!(g[3].merge_inputs, vec![FilterInput::Previous, FilterInput::Reference("bg".into())]);
}
