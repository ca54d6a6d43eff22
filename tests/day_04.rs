use everybody_codes::day_04::{Day04, Gear};

const EXAMPLE1: &str = "128\n64\n32\n16\n8";
const EXAMPLE2: &str = "102\n75\n50\n35\n13";
const EXAMPLE3: &str = "5\n5|10\n10|20\n5";
const EXAMPLE4: &str = "5\n7|21\n18|36\n27|27\n10|50\n10|50\n11";

#[test]
fn day_04_part_1_examples() {
    assert_eq!(Day04::part_1(&Day04::parse(EXAMPLE1).unwrap()), 32_400);
    assert_eq!(Day04::part_1(&Day04::parse(EXAMPLE2).unwrap()), 15_888);
}

#[test]
fn day_04_part_2_examples() {
    assert_eq!(Day04::part_2(&Day04::parse(EXAMPLE1).unwrap()), 625_000_000_000);
    assert_eq!(Day04::part_2(&Day04::parse(EXAMPLE2).unwrap()), 1_274_509_803_922);
}

#[test]
fn day_04_part_3_examples() {
    assert_eq!(Day04::part_3(&Day04::parse(EXAMPLE3).unwrap()), Some(400));
    assert_eq!(Day04::part_3(&Day04::parse(EXAMPLE4).unwrap()), Some(6_818));
}

#[test]
fn day_04_parse_gears() {
    assert_eq!(Day04::parse("5\n7|21\n").unwrap(), vec![Gear::Single(5), Gear::Double(7, 21)]);
    assert!(Day04::parse("5\n7|").is_err());
    assert_eq!(Day04::part_3(&vec![Gear::Single(5)]), None);
}
