use everybody_codes::day_14::{evolve, parse_grid, simulate, Day14, Grid, ParseError, Tile};

const EXAMPLE1: &str = ".#.##.\n##..#.\n..##.#\n.#.##.\n.###..\n###.##";
const EXAMPLE2: &str = "#......#\n..#..#..\n.##..##.\n...##...\n...##...\n.##..##.\n..#..#..\n#......#";

#[test]
fn day_14_test_part_1() {
    let input = Day14::parse(EXAMPLE1).unwrap();
    let result = Day14::part_1(&input);
    assert_eq!(result, 200);
}

#[test]
fn day_14_test_part_3() {
    let input = Day14::parse(EXAMPLE2).unwrap();
    let result = Day14::part_3(&input);
    assert_eq!(result, 278_388_552);
}

#[test]
fn day_14_one_round() {
    // A lone dark tile has no lit diagonals (an even count): it lights up.
    let g = parse_grid(".").unwrap();
    let mut next = parse_grid("#").unwrap();
    evolve(&g, &mut next);
    assert_eq!(next.data, vec![Tile::Active]);
    // A lone lit tile has none either: it goes dark.
    let g = parse_grid("#").unwrap();
    evolve(&g, &mut next);
    assert_eq!(next.data, vec![Tile::Inactive]);
    assert_eq!(simulate(&parse_grid(".").unwrap(), 3), 2);
}

#[test]
fn day_14_pattern_match_and_errors() {
    let big: Grid = parse_grid("...\n.#.\n...").unwrap();
    let small = parse_grid("#").unwrap();
    assert!(big.slice_eq((1, 1), &small));
    assert!(!big.slice_eq((0, 0), &small));
    assert_eq!(Day14::parse("#x"), Err(ParseError::InvalidTile(b'x')));
    assert_eq!(Day14::parse("#\n##"), Err(ParseError::SyntaxError));
}
