use oxideav_svg::keyframe::{
    animation_names, merge_overrides, clock_parts, find_decl, pick_or, pick_or_default, split_csv, split_transform, strip_call, unit_suffix,
    AnimationDirection, AnimationFillMode,
};
use oxideav_svg::length::{split_length, LengthUnit, ParseError};

#[test]
fn direction_and_fill_mode_keywords() {
    assert_eq!(AnimationDirection::parse(" Alternate-Reverse "), Some(AnimationDirection::AlternateReverse));
    assert_eq!(AnimationDirection::parse("sideways"), None);
    assert_eq!(AnimationFillMode::parse("BOTH"), Some(AnimationFillMode::Both));
    assert_eq!(AnimationFillMode::parse("none"), Some(AnimationFillMode::NoFill));
    assert_eq!(AnimationFillMode::parse(""), None);
}

#[test]
fn list_helpers() {
    assert_eq!(split_csv(" a , ,b,"), vec!["a", "b"]);
    assert_eq!(pick_or(&[1, 2, 3], 4, 9), 2);
    assert_eq!(pick_or::<i32>(&[], 4, 9), 9);
    assert_eq!(pick_or_default::<u32>(&[], 1), 0);
    assert_eq!(pick_or_default(&[5u32, 6], 3), 6);
    let decls = vec![
        ("Opacity".to_string(), "0".to_string()),
        ("fill".to_string(), "red".to_string()),
        ("opacity".to_string(), "1".to_string()),
    ];
    assert_eq!(find_decl(&decls, "OPACITY"), Some("1"));
    assert_eq!(find_decl(&decls, "stroke"), None);
}

#[test]
fn call_and_transform_splitting() {
    assert_eq!(strip_call(" Steps (4, end)", "steps"), Some("4, end"));
    assert_eq!(strip_call("steps4)", "steps"), None);
    assert_eq!(
        split_transform(" rotate( 45, 5 5 ) "),
        Some(("rotate".to_string(), vec!["45".to_string(), "5".to_string(), "5".to_string()]))
    );
    assert_eq!(split_transform(")x("), None);
    assert_eq!(unit_suffix("-12.5deg"), Some("deg"));
    assert_eq!(unit_suffix("12"), None);
}

#[test]
fn length_text_splits_number_and_unit() {
    assert_eq!(split_length("12"), Ok(("12".to_string(), LengthUnit::UserUnit)));
    assert_eq!(split_length(" -1.5E2Px "), Ok(("-1.5E2".to_string(), LengthUnit::Px)));
    assert_eq!(split_length("1em"), Ok(("1".to_string(), LengthUnit::Em)));
    assert_eq!(split_length("50%"), Ok(("50".to_string(), LengthUnit::Percent)));
    assert_eq!(split_length("3 vmin"), Ok(("3".to_string(), LengthUnit::Vmin)));
    assert_eq!(split_length("  "), Err(ParseError::Empty));
    assert_eq!(split_length("px"), Err(ParseError::BadNumber));
    assert_eq!(split_length("5furlongs"), Err(ParseError::UnknownUnit));
}

#[test]
fn clock_values_split_into_number_and_unit() {
    assert_eq!(clock_parts(" 2s "), Some(("2".to_string(), false)));
    assert_eq!(clock_parts("150MS"), Some(("150".to_string(), true)));
    assert_eq!(clock_parts("-.5 ms"), Some(("-.5".to_string(), true)));
    assert_eq!(clock_parts("3.min"), Some(("3.".to_string(), false)));
    assert_eq!(clock_parts("s"), None);
    assert_eq!(clock_parts(""), None);
}

#[test]
fn longhand_lists_repeat() {
    let v = [10u32, 20, 30];
    for idx in 0..10usize {
        assert_eq!(pick_or(&v, idx + v.len(), 0), pick_or(&v, idx, 0));
    }
}

#[test]
fn case_insensitive_suffix() {
    for src in ["12PX", "12Px", "12pX", "12px"] {
        assert_eq!(split_length(src).unwrap().1, LengthUnit::Px);
    }
}

#[test]
fn empty_and_invalid_inputs_error() {
    assert_eq!(split_length(""), Err(ParseError::Empty));
    assert_eq!(split_length("   "), Err(ParseError::Empty));
    assert_eq!(split_length("abc"), Err(ParseError::BadNumber));
    assert_eq!(split_length("12foo"), Err(ParseError::UnknownUnit));
}

#[test]
fn em_does_not_steal_e_exponent_marker() {
    let (number, unit) = split_length("3.5em").unwrap();
    assert_eq!(unit, LengthUnit::Em);
    assert_eq!(number, "3.5");
}

#[test]
fn animation_names_drop_none_and_blanks() {
    assert_eq!(animation_names(" fade , NONE,, slide ,none"), vec!["fade", "slide"]);
    assert!(animation_names("none").is_empty());
}

#[test]
fn later_animation_overrides_shared_properties() {
    let mut merged = vec![("opacity".to_string(), "0.5".to_string())];
    merge_overrides(&mut merged, &vec![("fill".to_string(), "red".to_string())]);
    merge_overrides(
        &mut merged,
        &vec![("OPACITY".to_string(), "1".to_string()), ("fill".to_string(), "blue".to_string())],
    );
    assert_eq!(
        merged,
        vec![("opacity".to_string(), "1".to_string()), ("fill".to_string(), "blue".to_string())]
    );
}
