use oxideav_svg::def_ids::{push_decimal, DefIds};

#[test]
fn decimal_formatting() {
    let mut s = String::from("grad");
    push_decimal(&mut s, 0);
    assert_eq!(s, "grad0");
    let mut s = String::new();
    push_decimal(&mut s, 1207);
    assert_eq!(s, "1207");
    let mut s = String::new();
    push_decimal(&mut s, u128::MAX);
    assert_eq!(s, u128::MAX.to_string());
}

#[test]
fn ids_count_from_one_in_order_of_first_sight() {
    let mut c: DefIds<u32> = DefIds::new("grad");
    assert!(c.is_empty());
    c.ensure("L:0:0:1:1".to_string(), 10);
    c.ensure("R:5:5:2".to_string(), 20);
    assert_eq!(c.len(), 2);
    assert_eq!(c.lookup("L:0:0:1:1"), Some("grad1"));
    assert_eq!(c.lookup("R:5:5:2"), Some("grad2"));
    assert_eq!(c.id_at(1), "grad2");
    assert_eq!(c.fingerprint_at(0), "L:0:0:1:1");
    assert_eq!(*c.item_at(1), 20);
}

#[test]
fn repeated_fingerprint_is_written_once() {
    let mut c: DefIds<u32> = DefIds::new("clip");
    c.ensure("p1".to_string(), 1);
    c.ensure("p1".to_string(), 2);
    c.ensure("p2".to_string(), 3);
    c.ensure("p1".to_string(), 4);
    assert_eq!(c.len(), 2);
    assert_eq!(*c.item_at(0), 1);
    assert_eq!(*c.item_at(1), 3);
    assert_eq!(c.lookup("p1"), Some("clip1"));
    assert_eq!(c.lookup("p2"), Some("clip2"));
}

#[test]
fn unknown_fingerprint_has_no_id() {
    let mut c: DefIds<()> = DefIds::new("mask");
    assert_eq!(c.lookup("x"), None);
    c.ensure("y".to_string(), ());
    assert_eq!(c.lookup("x"), None);
}

#[test]
fn source_id_replaces_synthetic_id() {
    let mut c: DefIds<()> = DefIds::new("clip");
    c.ensure("a".to_string(), ());
    c.ensure("b".to_string(), ());
    c.set_override("clip2".to_string(), "roundedCorners".to_string());
    assert_eq!(c.lookup("a"), Some("clip1"));
    assert_eq!(c.lookup("b"), Some("roundedCorners"));
    assert_eq!(c.override_of("clip2"), Some("roundedCorners"));
    assert_eq!(c.override_of("clip1"), None);
    c.set_override("clip2".to_string(), "second".to_string());
    assert_eq!(c.lookup("b"), Some("second"));
    assert_eq!(c.id_at(1), "clip2");
}

#[test]
fn many_entries_get_multi_digit_ids() {
    let mut c: DefIds<usize> = DefIds::new("grad");
    for i in 0..12 {
        c.ensure(format!("fp{}", i), i);
    }
    assert_eq!(c.len(), 12);
    assert_eq!(c.lookup("fp9"), Some("grad10"));
    assert_eq!(c.lookup("fp11"), Some("grad12"));
}
