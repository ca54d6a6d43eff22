use everybody_codes::day_06::{number_of_pairings, number_of_pairings_shortcut, Day06};

fn part_3_case(input: &str, dist_limit: usize, cycles: usize) -> usize {
    number_of_pairings_shortcut(input, cycles, dist_limit, dist_limit).into_iter().sum()
}

#[test]
fn day_06_part_1_example() {
    assert_eq!(Day06::part_1(&"ABabACacBCbca".to_string()), 5);
}

#[test]
fn day_06_part_2_example() {
    assert_eq!(Day06::part_2(&"ABabACacBCbca".to_string()), 11);
}

#[test]
fn day_06_part_3_examples() {
    assert_eq!(part_3_case("AABCBABCABCabcabcABCCBAACBCa", 10, 1), 34);
    assert_eq!(part_3_case("AABCBABCABCabcabcABCCBAACBCa", 10, 2), 72);
    assert_eq!(part_3_case("AABCBABCABCabcabcABCCBAACBCa", 1_000, 1_000), 3_442_321);
}

#[test]
fn day_06_pairs_need_mentor_in_reach() {
    // The mentor is two places before the novice.
    assert_eq!(number_of_pairings("Axa", 1, 2, 0), [1, 0, 0]);
    assert_eq!(number_of_pairings("Axa", 1, 1, 0), [0, 0, 0]);
    // Looking ahead finds the mentor after the novice.
    assert_eq!(number_of_pairings("bB", 1, 0, 1), [0, 1, 0]);
    assert_eq!(number_of_pairings("", 3, 1, 1), [0, 0, 0]);
}
