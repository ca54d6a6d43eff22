use everybody_codes::day_18::{Day18, ParseError};

const EXAMPLE1: &str = "Plant 1 with thickness 1:\n- free branch with thickness 1\n\nPlant 2 with thickness 1:\n- free branch with thickness 1\n\nPlant 3 with thickness 1:\n- free branch with thickness 1\n\nPlant 4 with thickness 17:\n- branch to Plant 1 with thickness 15\n- branch to Plant 2 with thickness 3\n\nPlant 5 with thickness 24:\n- branch to Plant 2 with thickness 11\n- branch to Plant 3 with thickness 13\n\nPlant 6 with thickness 15:\n- branch to Plant 3 with thickness 14\n\nPlant 7 with thickness 10:\n- branch to Plant 4 with thickness 15\n- branch to Plant 5 with thickness 21\n- branch to Plant 6 with thickness 34";

const EXAMPLE2: &str = "Plant 1 with thickness 1:\n- free branch with thickness 1\n\nPlant 2 with thickness 1:\n- free branch with thickness 1\n\nPlant 3 with thickness 1:\n- free branch with thickness 1\n\nPlant 4 with thickness 10:\n- branch to Plant 1 with thickness -25\n- branch to Plant 2 with thickness 17\n- branch to Plant 3 with thickness 12\n\nPlant 5 with thickness 14:\n- branch to Plant 1 with thickness 14\n- branch to Plant 2 with thickness -26\n- branch to Plant 3 with thickness 15\n\nPlant 6 with thickness 150:\n- branch to Plant 4 with thickness 5\n- branch to Plant 5 with thickness 6\n\n\n1 0 1\n0 0 1\n0 1 1";

const EXAMPLE3: &str = "Plant 1 with thickness 1:\n- free branch with thickness 1\n\nPlant 2 with thickness 1:\n- free branch with thickness 1\n\nPlant 3 with thickness 1:\n- free branch with thickness 1\n\nPlant 4 with thickness 1:\n- free branch with thickness 1\n\nPlant 5 with thickness 8:\n- branch to Plant 1 with thickness -8\n- branch to Plant 2 with thickness 11\n- branch to Plant 3 with thickness 13\n- branch to Plant 4 with thickness -7\n\nPlant 6 with thickness 7:\n- branch to Plant 1 with thickness 14\n- branch to Plant 2 with thickness -9\n- branch to Plant 3 with thickness 12\n- branch to Plant 4 with thickness 9\n\nPlant 7 with thickness 23:\n- branch to Plant 5 with thickness 17\n- branch to Plant 6 with thickness 18\n\n\n0 1 0 0\n0 1 0 1\n0 1 1 1\n1 1 0 1";

#[test]
fn day_18_test_part_1() {
    let input = Day18::parse(EXAMPLE1).unwrap();
    let result = Day18::part_1(&input);
    assert_eq!(result, 774);
}

#[test]
fn day_18_test_part_2() {
    let input = Day18::parse(EXAMPLE2).unwrap();
    let result = Day18::part_2(&input);
    assert_eq!(result, 324);
}

#[test]
fn day_18_test_part_3() {
    let input = Day18::parse(EXAMPLE3).unwrap();
    let result = Day18::part_3(&input);
    assert_eq!(result, 946);
}

#[test]
fn day_18_parse_shapes() {
    let input = Day18::parse(EXAMPLE2).unwrap();
    assert_eq!(input.plants.len(), 6);
    assert_eq!(input.test_cases, vec![0b101, 0b100, 0b110]);
    assert!(input.plants[0].is_free());
    assert_eq!(input.plants[3].branches[0].thickness, -25);
    assert_eq!(Day18::parse("Plant x with thickness 1:").unwrap_err(), ParseError::InvalidNumber);
    assert_eq!(Day18::parse("Tree 1 with thickness 1:").unwrap_err(), ParseError::SyntaxError);
    // A branch from a plant that comes later is refused.
    assert_eq!(
        Day18::parse("Plant 1 with thickness 1:\n- branch to Plant 2 with thickness 1").unwrap_err(),
        ParseError::SyntaxError
    );
}
