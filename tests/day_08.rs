use everybody_codes::day_08::{all_crossings, best_cut, center_crossings, cut_threads, Day08};

const EXAMPLE1: &str = "1,5,2,6,8,4,1,7,3";
const EXAMPLE2: &str = "1,5,2,6,8,4,1,7,3,5,7,8,2";
const EXAMPLE3: &str = "1,5,2,6,8,4,1,7,3,6";

#[test]
fn day_08_test_part_1() {
    let input = Day08::parse(EXAMPLE1).unwrap();
    let result = center_crossings(&input, 8);
    assert_eq!(result, 4);
}

#[test]
fn day_08_test_part_2() {
    let input = Day08::parse(EXAMPLE2).unwrap();
    let result = all_crossings(&input);
    assert_eq!(result, 21);
}

#[test]
fn day_08_test_part_3() {
    let input = Day08::parse(EXAMPLE3).unwrap();
    let result = best_cut(&input, 8);
    assert_eq!(result, 7);
}

#[test]
fn day_08_parse_rejects_bad_numbers() {
    assert!(Day08::parse("1,,2").is_err());
    assert!(Day08::parse("1,70000").is_err());
    assert!(Day08::parse("1,x").is_err());
    assert_eq!(Day08::parse("+3,4").unwrap(), vec![3, 4]);
}

#[test]
fn day_08_cut_counts_exact_thread() {
    // A single thread from 1 to 5: a cut from 1 to 5 severs it, a cut from 2 to 4 does not.
    assert_eq!(cut_threads(&[1, 5], 1, 5), 1);
    assert_eq!(cut_threads(&[1, 5], 2, 4), 0);
    assert_eq!(cut_threads(&[1, 5], 3, 7), 1);
}

#[test]
fn day_08_single_nail_has_no_threads() {
    assert_eq!(center_crossings(&[4], 8), 0);
    assert_eq!(all_crossings(&[4]), 0);
    assert_eq!(Day08::part_1(&vec![1, 17, 2]), 1);
}
