use everybody_codes::day_19::{find_path, Day19, Opening, ParseError};

const EXAMPLE1: &str = "7,7,2\n12,0,4\n15,5,3\n24,1,6\n28,5,5\n40,8,2";
const EXAMPLE2: &str = "7,7,2\n7,1,3\n12,0,4\n15,5,3\n24,1,6\n28,5,5\n40,3,3\n40,8,2";

#[test]
fn day_19_test_part_1() {
    let input = Day19::parse(EXAMPLE1).unwrap();
    let result = Day19::part_1(&input);
    assert_eq!(result, 24);
}

#[test]
fn day_19_test_part_2() {
    let input = Day19::parse(EXAMPLE2).unwrap();
    let result = Day19::part_2(&input);
    assert_eq!(result, 22);
}

#[test]
fn day_19_single_gap() {
    // Wall 4 ahead, gap at height 2: two flaps up, two glides.
    let walls = [Opening { ahead: 4, start: 2, height: 1 }];
    assert_eq!(find_path(&walls), 3);
    assert_eq!(find_path(&[]), 0);
}

#[test]
fn day_19_parse_errors() {
    assert_eq!(Day19::parse("1,2"), Err(ParseError::SyntaxError));
    assert_eq!(Day19::parse("1,2,x"), Err(ParseError::InvalidNumber));
    assert_eq!(Day19::parse("1,-2,3").unwrap(), vec![Opening { ahead: 1, start: -2, height: 3 }]);
}
