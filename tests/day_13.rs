use everybody_codes::day_13::{Day13, ValueRange, Wheel};

const EXAMPLE2: &str = "10-15\n12-13\n20-21\n19-23\n30-37";

#[test]
fn day_13_test_part_2() {
    let parsed = Day13::parse(EXAMPLE2).unwrap();
    assert_eq!(Day13::part_2(&parsed), 30);
}

#[test]
fn day_13_part_1_examples() {
    let cases = [
        ("72\n58\n47\n61\n67", 67),
        ("72\n58\n47\n61\n67\n2", 47),
        ("72\n58\n47\n61\n67\n2\n3\n4\n5\n6\n7", 2),
        ("72\n58\n47\n61\n67\n2\n3\n4\n5\n6\n7\n8", 2),
    ];
    for (input, expected) in cases {
        let parsed = Day13::parse(input).unwrap();
        assert_eq!(Day13::part_1(&parsed), expected);
    }
}

#[test]
fn day_13_spin_zero_is_one() {
    let w = Day13::parse("5-7\n9").unwrap();
    // dial: 1, 5, 6, 7, 9 (counterclockwise)
    assert_eq!(w.spin(0), 1);
    assert_eq!(w.spin(5), 1);
    assert_eq!(w.spin(1), 5);
    assert_eq!(w.spin(3), 7);
    assert_eq!(w.spin(4), 9);
}

#[test]
fn day_13_value_range_access() {
    let r = ValueRange { start: 10, end: 15 };
    assert_eq!(r.len(), 6);
    assert_eq!(r.get(5), Some(15));
    assert_eq!(r.get(6), None);
    assert_eq!(r.get_rev(0), Some(15));
    assert_eq!(r.get_rev(5), Some(10));
}

#[test]
fn day_13_parse_rejects_reversed_range() {
    assert!(Day13::parse("7-5").is_err());
    assert!(Day13::parse("a").is_err());
    let w: Wheel = Day13::parse("3\n").unwrap();
    assert_eq!(w.values.len(), 1);
}
