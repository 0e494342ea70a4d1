use oxideav_svg::keyframe::{
    iteration_count_syntax, parse_easing, EasingSyntax, IterationCount, StepPosition,
};
use oxideav_svg::number::parse_u32;

#[test]
fn timing_function_parse_named_keywords() {
    assert_eq!(parse_easing("linear"), Some(EasingSyntax::Linear));
    assert_eq!(parse_easing("ease"), Some(EasingSyntax::Ease));
    // ease-in-out and ease-out and ease-in should be distinct.
    assert_ne!(parse_easing("ease-in"), parse_easing("ease-out"));
    assert_ne!(parse_easing("ease-in"), parse_easing("ease-in-out"));
}

#[test]
fn timing_function_parse_cubic_bezier() {
    match parse_easing("cubic-bezier(0.1, 0.2, 0.3, 0.4)").unwrap() {
        EasingSyntax::CubicBezier(x1, y1, x2, y2) => {
            let x1: f32 = x1.parse().unwrap();
            let y1: f32 = y1.parse().unwrap();
            let x2: f32 = x2.parse().unwrap();
            let y2: f32 = y2.parse().unwrap();
            assert!((x1 - 0.1).abs() < 1e-6);
            assert!((y1 - 0.2).abs() < 1e-6);
            assert!((x2 - 0.3).abs() < 1e-6);
            assert!((y2 - 0.4).abs() < 1e-6);
        },
        _ => panic!("expected CubicBezier"),
    }
}

#[test]
fn timing_function_parse_steps() {
    assert_eq!(parse_easing("steps(4, end)"), Some(EasingSyntax::Steps(4, StepPosition::End)));
    // Default is end.
    assert_eq!(parse_easing("steps(2)"), Some(EasingSyntax::Steps(2, StepPosition::End)));
    assert_eq!(parse_easing("steps(3, start)"), Some(EasingSyntax::Steps(3, StepPosition::Start)));
}

#[test]
fn easing_keywords_ignore_case_and_whitespace() {
    assert_eq!(parse_easing("  EASE-In-Out "), Some(EasingSyntax::EaseInOut));
    assert_eq!(parse_easing("Step-Start"), Some(EasingSyntax::Steps(1, StepPosition::Start)));
    assert_eq!(parse_easing("step-end"), Some(EasingSyntax::Steps(1, StepPosition::End)));
    assert_eq!(parse_easing("STEPS(5, Jump-Start)"), Some(EasingSyntax::Steps(5, StepPosition::Start)));
    assert_eq!(parse_easing("steps(5, jump-both)"), Some(EasingSyntax::Steps(5, StepPosition::End)));
}

#[test]
fn easing_rejects_malformed_values() {
    assert_eq!(parse_easing(""), None);
    assert_eq!(parse_easing("   "), None);
    assert_eq!(parse_easing("bounce"), None);
    assert_eq!(parse_easing("cubic-bezier(1, 2, 3)"), None);
    assert_eq!(parse_easing("steps(-1)"), None);
    assert_eq!(parse_easing("steps(1.5)"), None);
    assert_eq!(parse_easing("steps()"), None);
    assert_eq!(parse_easing("steps(4294967296)"), None);
}

#[test]
fn cubic_bezier_keeps_argument_text() {
    assert_eq!(
        parse_easing("cubic-bezier( .25 ,x, 1e1,  -2 )"),
        Some(EasingSyntax::CubicBezier(
            ".25".to_string(),
            "x".to_string(),
            "1e1".to_string(),
            "-2".to_string()
        ))
    );
}

#[test]
fn u32_literals() {
    assert_eq!(parse_u32("0"), Some(0));
    assert_eq!(parse_u32("+17"), Some(17));
    assert_eq!(parse_u32("007"), Some(7));
    assert_eq!(parse_u32("4294967295"), Some(u32::MAX));
    assert_eq!(parse_u32("4294967296"), None);
    assert_eq!(parse_u32("99999999999999999999999"), None);
    assert_eq!(parse_u32(""), None);
    assert_eq!(parse_u32("+"), None);
    assert_eq!(parse_u32("-1"), None);
    assert_eq!(parse_u32(" 1"), None);
    assert_eq!(parse_u32("1a"), None);
    for s in ["0", "+17", "007", "4294967295", "4294967296", "", "+", "-1", " 1", "1a", "-0"] {
        assert_eq!(parse_u32(s), s.parse::<u32>().ok(), "{}", s);
    }
}

#[test]
fn iteration_count_keyword_and_number_text() {
    assert_eq!(iteration_count_syntax("infinite"), IterationCount::Infinite);
    assert_eq!(iteration_count_syntax("  INFINITE "), IterationCount::Infinite);
    assert_eq!(iteration_count_syntax(" 2.5 "), IterationCount::Number("2.5".to_string()));
    assert_eq!(iteration_count_syntax("infinity"), IterationCount::Number("infinity".to_string()));
    assert_eq!(iteration_count_syntax(""), IterationCount::Number(String::new()));
}
