use everybody_codes::day_11::{phase_1, phase_2, phase_2_fast, Day11};

const EXAMPLE1: &str = "9\n1\n1\n4\n9\n6";
const EXAMPLE2: &str = "805\n706\n179\n48\n158\n150\n232\n885\n598\n524\n423";
const EXAMPLE2_SORTED: &str = "48\n150\n158\n179\n232\n423\n524\n598\n706\n805\n885";

#[test]
fn day_11_test_part_1() {
    let input = Day11::parse(EXAMPLE1).unwrap();
    let result = Day11::part_1(&input);
    assert_eq!(result, 109);
}

#[test]
fn day_11_part_2_examples() {
    let input = Day11::parse(EXAMPLE1).unwrap();
    assert_eq!(Day11::part_2(&input), Some(11));
    let input = Day11::parse(EXAMPLE2).unwrap();
    assert_eq!(Day11::part_2(&input), Some(1579));
}

#[test]
fn day_11_part_3_example() {
    let input = Day11::parse(EXAMPLE2_SORTED).unwrap();
    assert_eq!(Day11::part_3(&input), 1378);
}

#[test]
fn day_11_phases_move_one_bird() {
    let mut v = vec![3, 1, 2];
    assert!(phase_1(&mut v));
    assert_eq!(v, vec![2, 2, 2]);
    assert!(!phase_1(&mut v));
    let mut w = vec![1, 3, 2];
    assert!(phase_2(&mut w));
    assert_eq!(w, vec![2, 2, 2]);
    assert_eq!(phase_2_fast(&vec![1, 2, 3]), 1);
}
