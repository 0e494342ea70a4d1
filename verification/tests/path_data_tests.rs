use oxideav_svg::path_data::{parse_path_segments, PathError, PathSegment};

fn args(s: &PathSegment) -> Vec<&str> {
    s.args.iter().map(|a| a.as_str()).collect()
}

#[test]
fn segments_of_move_line_close() {
    let segs = parse_path_segments("M 10 20 L 30 40 Z").unwrap();
    assert_eq!(segs.len(), 3);
    assert_eq!(segs[0].command, 'M');
    assert!(segs[0].absolute);
    assert_eq!(args(&segs[0]), vec!["10", "20"]);
    assert_eq!(segs[1].command, 'L');
    assert_eq!(args(&segs[1]), vec!["30", "40"]);
    assert_eq!(segs[2].command, 'Z');
    assert!(segs[2].args.is_empty());
}

#[test]
fn repeated_pairs_after_move_are_line_tos() {
    let segs = parse_path_segments("m 0 0 10 10 20 20").unwrap();
    assert_eq!(segs.len(), 3);
    assert_eq!(segs[0].command, 'M');
    assert!(!segs[0].absolute);
    assert_eq!(segs[1].command, 'L');
    assert!(!segs[1].absolute);
    assert_eq!(args(&segs[2]), vec!["20", "20"]);
}

#[test]
fn numbers_without_separators() {
    let segs = parse_path_segments("M0 0L-5-5").unwrap();
    assert_eq!(args(&segs[1]), vec!["-5", "-5"]);
    let segs = parse_path_segments("M1.5 .5 L 1e2 -.25").unwrap();
    assert_eq!(args(&segs[0]), vec!["1.5", ".5"]);
    assert_eq!(args(&segs[1]), vec!["1e2", "-.25"]);
    let segs = parse_path_segments("M0.5.5").unwrap();
    assert_eq!(args(&segs[0]), vec!["0.5", ".5"]);
}

#[test]
fn arc_flags_and_parameters() {
    let segs = parse_path_segments("M 0 0 A 5 10 90 1 0 10 0").unwrap();
    assert_eq!(segs[1].command, 'A');
    assert_eq!(args(&segs[1]), vec!["5", "10", "90", "10", "0"]);
    assert!(segs[1].large_arc);
    assert!(!segs[1].sweep);
    // Packed flags.
    let segs = parse_path_segments("M 0 0 a 5 5 0 0110 0").unwrap();
    assert!(!segs[1].large_arc);
    assert!(segs[1].sweep);
    assert_eq!(args(&segs[1]), vec!["5", "5", "0", "10", "0"]);
}

#[test]
fn curve_commands_take_their_parameter_counts() {
    let segs = parse_path_segments("M 0 0 C 10 0 10 10 0 10 S -10 20 0 20 Q 5 5 10 0 T 20 0 H 3 V 4").unwrap();
    let cmds: Vec<char> = segs.iter().map(|s| s.command).collect();
    assert_eq!(cmds, vec!['M', 'C', 'S', 'Q', 'T', 'H', 'V']);
    assert_eq!(segs[1].args.len(), 6);
    assert_eq!(segs[2].args.len(), 4);
    assert_eq!(segs[3].args.len(), 4);
    assert_eq!(segs[4].args.len(), 2);
    assert_eq!(args(&segs[5]), vec!["3"]);
    assert_eq!(args(&segs[6]), vec!["4"]);
}

#[test]
fn path_errors() {
    assert_eq!(parse_path_segments("10 10").unwrap_err(), PathError::ExpectedCommand);
    assert_eq!(parse_path_segments("M 0 0 X 1").unwrap_err(), PathError::UnknownCommand);
    assert_eq!(parse_path_segments("M 0").unwrap_err(), PathError::ExpectedNumber);
    assert_eq!(parse_path_segments("M 1e 0").unwrap_err(), PathError::MalformedNumber);
    assert_eq!(parse_path_segments("M 0 0 A 1 1 0").unwrap_err(), PathError::ExpectedFlag);
    assert_eq!(parse_path_segments("M 0 0 A 1 1 0 2 0 1 1").unwrap_err(), PathError::BadFlag);
    assert_eq!(PathError::BadFlag.message(), "SVG path: arc flag must be 0 or 1");
    assert!(parse_path_segments("").unwrap().is_empty());
    assert!(parse_path_segments(" ,\t").unwrap().is_empty());
}

#[test]
fn implied_repeats_equal_explicit_commands() {
    let implied = parse_path_segments("M 0 0 10 10 20 20").unwrap();
    let explicit = parse_path_segments("M 0 0 L 10 10 L 20 20").unwrap();
    assert_eq!(implied.len(), explicit.len());
    for (a, b) in implied.iter().zip(explicit.iter()) {
        assert_eq!(a.command, b.command);
        assert_eq!(a.absolute, b.absolute);
        assert_eq!(a.args, b.args);
    }
    let implied = parse_path_segments("c1 2 3 4 5 6 7 8 9 10 11 12").unwrap();
    assert_eq!(implied.len(), 2);
    assert!(implied.iter().all(|s| s.command == 'C' && !s.absolute && s.args.len() == 6));
}

#[test]
fn every_parsed_segment_has_its_command_arity() {
    for d in ["M1 2 3 4 5 6", "m1,2l3-4h5v6c1 2 3 4 5 6s1 2 3 4q1 2 3 4t5 6a1 2 3 1 0 4 5z", "A 1 1 0 11 2 2 3 3 0 0 1 4 4"] {
        for seg in parse_path_segments(d).unwrap() {
            let want = match seg.command {
                'A' => 5,
                'Z' => 0,
                'H' | 'V' => 1,
                'C' => 6,
                'S' | 'Q' => 4,
                _ => 2,
            };
            assert_eq!(seg.args.len(), want, "{:?} in {}", seg, d);
        }
    }
}
