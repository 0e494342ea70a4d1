use oxideav_svg::transform::{parse_transform_list, TransformError, TransformKind};

#[test]
fn empty_list_is_identity() {
    assert!(parse_transform_list("").unwrap().is_empty());
    assert!(parse_transform_list("   \n\t").unwrap().is_empty());
}

#[test]
fn items_in_order_with_their_numbers() {
    let calls = parse_transform_list("translate(10 0) scale(2), rotate(180 5 5)").unwrap();
    assert_eq!(calls.len(), 3);
    assert_eq!(calls[0].kind, TransformKind::Translate);
    assert_eq!(calls[0].args, vec!["10".to_string(), "0".to_string()]);
    assert_eq!(calls[1].kind, TransformKind::Scale);
    assert_eq!(calls[1].args, vec!["2".to_string()]);
    assert_eq!(calls[2].kind, TransformKind::Rotate);
    assert_eq!(calls[2].args.len(), 3);
}

#[test]
fn names_are_case_insensitive() {
    let calls = parse_transform_list("skewX(45) SKEWY(-1.5e1) Matrix(1,0,0,1,5,7)").unwrap();
    assert_eq!(calls[0].kind, TransformKind::SkewX);
    assert_eq!(calls[1].kind, TransformKind::SkewY);
    assert_eq!(calls[1].args, vec!["-1.5e1".to_string()]);
    assert_eq!(calls[2].kind, TransformKind::Matrix);
}

#[test]
fn transform_errors() {
    assert_eq!(parse_transform_list("(1)").unwrap_err(), TransformError::ExpectedName);
    assert_eq!(parse_transform_list("scale 2").unwrap_err(), TransformError::ExpectedOpenParen);
    assert_eq!(parse_transform_list("scale(2").unwrap_err(), TransformError::Unterminated);
    assert_eq!(parse_transform_list("scale(x)").unwrap_err(), TransformError::ExpectedNumber);
    assert_eq!(parse_transform_list("scale(1e)").unwrap_err(), TransformError::MalformedNumber);
    assert_eq!(parse_transform_list("matrix(1 2 3)").unwrap_err(), TransformError::MatrixArity);
    assert_eq!(parse_transform_list("translate()").unwrap_err(), TransformError::TranslateArity);
    assert_eq!(parse_transform_list("scale()").unwrap_err(), TransformError::ScaleArity);
    assert_eq!(parse_transform_list("rotate()").unwrap_err(), TransformError::RotateAngle);
    assert_eq!(parse_transform_list("rotate(1 2)").unwrap_err(), TransformError::RotateArity);
    assert_eq!(parse_transform_list("skewX()").unwrap_err(), TransformError::SkewXArity);
    assert_eq!(parse_transform_list("skewY()").unwrap_err(), TransformError::SkewYArity);
    assert_eq!(parse_transform_list("shear(1)").unwrap_err(), TransformError::UnknownFunction);
    assert_eq!(
        TransformError::RotateArity.message(),
        "SVG transform: rotate() takes 1 or 3 numbers"
    );
}

#[test]
fn matrix_text_reads_back() {
    let nums = ["1", "0", "-0.5", "1", "12.25", "-3"].map(|s| s.to_string());
    let mut out = String::new();
    oxideav_svg::transform::write_matrix(&mut out, &nums);
    assert_eq!(out, "matrix(1 0 -0.5 1 12.25 -3)");
    let calls = parse_transform_list(&out).unwrap();
    assert_eq!(calls.len(), 1);
    assert_eq!(calls[0].kind, TransformKind::Matrix);
    assert_eq!(calls[0].args, nums.to_vec());
}
