use everybody_codes::day_03::{sort_values, Day03};

const EXAMPLE1: &str = "10,5,1,10,3,8,5,2,2";
const EXAMPLE2: &str = "4,51,13,64,57,51,82,57,16,88,89,48,32,49,49,2,84,65,49,43,9,13,2,3,75,72,63,48,61,14,40,77";

#[test]
fn day_03_test_part_1() {
    let input = Day03::parse(EXAMPLE1).unwrap();
    let result = Day03::part_1(&input);
    assert_eq!(result, 29);
}

#[test]
fn day_03_test_part_2() {
    let input = Day03::parse(EXAMPLE2).unwrap();
    let result = Day03::part_2(&input);
    assert_eq!(result, 781);
}

#[test]
fn day_03_test_part_3() {
    let input = Day03::parse(EXAMPLE2).unwrap();
    let result = Day03::part_3(&input);
    assert_eq!(result, 3);
}

#[test]
fn day_03_sorting_keeps_values() {
    let mut v = vec![5, 1, 4, 1, 3];
    sort_values(&mut v);
    assert_eq!(v, vec![1, 1, 3, 4, 5]);
    let mut e: Vec<u16> = Vec::new();
    sort_values(&mut e);
    assert!(e.is_empty());
}

#[test]
fn day_03_empty_and_single() {
    assert_eq!(Day03::part_3(&vec![]), 0);
    assert_eq!(Day03::part_1(&vec![7, 7]), 7);
    assert!(Day03::parse("1,70000").is_err());
}
