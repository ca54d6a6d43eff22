use everybody_codes::day_16::{bricks_for_wall_length, longest_wall, spell_for_wall, Day16};

#[test]
fn day_16_test_part_1() {
    let input = Day16::parse("1,2,3,5,9").unwrap();
    let result = Day16::part_1(&input);
    assert_eq!(result, 193);
}

#[test]
fn day_16_test_part_2() {
    let input = Day16::parse("1,2,2,2,2,3,1,2,3,3,1,3,1,2,3,2,1,4,1,3,2,2,1,3,2,2").unwrap();
    let result = Day16::part_2(&input);
    assert_eq!(result, 270);
}

#[test]
fn day_16_test_part_3() {
    let input = Day16::parse("1,2,2,2,2,3,1,2,3,3,1,3,1,2,3,2,1,4,1,3,2,2,1,3,2,2").unwrap();
    let result = Day16::part_3(&input);
    assert_eq!(result, 94_439_495_762_954);
}

#[test]
fn day_16_bricks_formula() {
    // 10/1 + 10/3 + 10/4 = 10 + 3 + 2
    assert_eq!(bricks_for_wall_length(&[1, 3, 4], 10), 15);
    assert_eq!(bricks_for_wall_length(&[], 10), 0);
    assert_eq!(bricks_for_wall_length(&[1, 1], u64::MAX), u64::MAX);
}

#[test]
fn day_16_spell_from_wall() {
    assert_eq!(spell_for_wall(&[1, 2, 2, 2, 2, 3, 1, 2, 3, 3]), vec![1, 2, 3, 5, 9]);
    assert_eq!(spell_for_wall(&[0, 0, 0]), Vec::<u64>::new());
}

#[test]
fn day_16_longest_wall_exact_and_below() {
    // Spell [1]: a wall of length l uses l bricks.
    assert_eq!(longest_wall(&[1], 100), 100);
    // Spell [2]: lengths 2k and 2k+1 use k bricks; exactly 5 bricks gives one of 10, 11.
    let r = longest_wall(&[2], 5);
    assert!(r == 10 || r == 11);
}
