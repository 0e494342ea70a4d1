use oxideav_svg::path_data::{parse_path_segments, PathSegment};
use oxideav_svg::path_writer::write_path_d;

fn seg(command: char, absolute: bool, args: &[&str]) -> PathSegment {
    PathSegment {
        command,
        absolute,
        args: args.iter().map(|a| a.to_string()).collect(),
        large_arc: false,
        sweep: false,
    }
}

fn same(a: &PathSegment, b: &PathSegment) -> bool {
    a.command == b.command
        && a.absolute == b.absolute
        && a.args == b.args
        && a.large_arc == b.large_arc
        && a.sweep == b.sweep
}

#[test]
fn writes_triangle_text() {
    let segs = vec![
        seg('M', true, &["0", "0"]),
        seg('L', true, &["10", "0"]),
        seg('L', true, &["10", "10"]),
        seg('Z', true, &[]),
    ];
    let mut out = String::new();
    write_path_d(&mut out, &segs);
    assert_eq!(out, "M 0 0 L 10 0 L 10 10 Z");
}

#[test]
fn writes_arc_flags_between_parameters() {
    let mut a = seg('A', true, &["5", "5", "30", "10", "-2.5"]);
    a.large_arc = true;
    let mut out = String::from("d:");
    write_path_d(&mut out, &[a]);
    assert_eq!(out, "d:A 5 5 30 1 0 10 -2.5");
}

#[test]
fn relative_segments_use_lower_case() {
    let segs = vec![seg('M', false, &["1", "2"]), seg('H', false, &["3"]), seg('Z', false, &[])];
    let mut out = String::new();
    write_path_d(&mut out, &segs);
    assert_eq!(out, "m 1 2 h 3 z");
}

#[test]
fn empty_path_writes_nothing() {
    let mut out = String::from("x");
    write_path_d(&mut out, &[]);
    assert_eq!(out, "x");
}

#[test]
fn written_text_reads_back_as_the_same_segments() {
    let mut arc = seg('A', false, &["1.25", "2", "-45", "0.5", "7"]);
    arc.sweep = true;
    let segs = vec![
        seg('M', true, &["-1", "0.5"]),
        seg('C', true, &["1", "2", "3", "4", "5", "6"]),
        seg('S', false, &["1", "1", "2", "2"]),
        seg('Q', true, &["0", "0", "1", "1"]),
        seg('T', true, &["3", "3"]),
        seg('V', true, &["-10"]),
        arc,
        seg('Z', true, &[]),
        seg('M', true, &["9", "9"]),
        seg('L', false, &["0.125", "-0.125"]),
    ];
    let mut out = String::new();
    write_path_d(&mut out, &segs);
    let back = parse_path_segments(&out).unwrap();
    assert_eq!(back.len(), segs.len());
    for (a, b) in back.iter().zip(segs.iter()) {
        assert!(same(a, b), "{:?} != {:?}", a, b);
    }
}
