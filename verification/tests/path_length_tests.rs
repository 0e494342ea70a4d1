use oxideav_svg::path_length::path_length_literal;

fn parse_path_length(v: Option<&str>) -> Option<f32> {
    path_length_literal(v).map(|s| s.parse::<f32>().unwrap())
}

#[test]
fn parse_basic() {
    assert_eq!(parse_path_length(None), None);
    assert_eq!(parse_path_length(Some("")), None);
    assert_eq!(parse_path_length(Some("  ")), None);
    assert_eq!(parse_path_length(Some("100")), Some(100.0));
    assert_eq!(parse_path_length(Some("  42.5 ")), Some(42.5));
    assert_eq!(parse_path_length(Some("0")), Some(0.0));
    // Negative is an error per §9.6.1.
    assert_eq!(parse_path_length(Some("-5")), None);
    assert_eq!(parse_path_length(Some("not-a-number")), None);
    // Unit suffix is tolerated (longest-prefix-parses).
    assert_eq!(parse_path_length(Some("100px")), Some(100.0));
}

#[test]
fn literal_text_is_the_longest_parsing_prefix() {
    assert_eq!(path_length_literal(Some(" 1.5e2px ")), Some("1.5e2".to_string()));
    assert_eq!(path_length_literal(Some("12e")), Some("12".to_string()));
    assert_eq!(path_length_literal(Some("3.-")), Some("3.".to_string()));
    assert_eq!(path_length_literal(Some("+7")), Some("+7".to_string()));
    assert_eq!(path_length_literal(Some(".5")), Some(".5".to_string()));
}

#[test]
fn negative_zero_and_bare_signs_are_rejected() {
    assert_eq!(path_length_literal(Some("-0")), None);
    assert_eq!(path_length_literal(Some("-0.0e3")), None);
    assert_eq!(path_length_literal(Some("+")), None);
    assert_eq!(path_length_literal(Some(".")), None);
    assert_eq!(path_length_literal(Some("e5")), None);
}
