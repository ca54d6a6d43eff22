use everybody_codes::day_15::{sort_dedup, Day15, Direction, Instruction, Pos};

const EXAMPLE1: &str = "L6,L3,L6,R3,L6,L3,L3,R6,L6,R6,L6,L6,R3,L3,L3,R3,R3,L6,L6,L3";

#[test]
fn day_15_test_part_1() {
    let input = Day15::parse(EXAMPLE1).unwrap();
    let result = Day15::part_1(&input);
    assert_eq!(result, 16);
}

#[test]
fn day_15_test_part_3() {
    let input = Day15::parse(EXAMPLE1).unwrap();
    let result = Day15::part_3(&input);
    assert_eq!(result, 16);
}

#[test]
fn day_15_pieces() {
    assert_eq!(Direction::Up.turn_left(), Direction::Left);
    assert_eq!(Direction::Left.turn_right(), Direction::Up);
    assert_eq!(Pos::new(1, -2).manhattan_dist(Pos::new(-3, 4)), 10);
    let mut v = vec![5, -1, 5, 3, -1];
    sort_dedup(&mut v);
    assert_eq!(v, vec![-1, 3, 5]);
    assert_eq!(Day15::parse("L2,R10").unwrap(), vec![Instruction::Left(2), Instruction::Right(10)]);
    assert!(Day15::parse("X2").is_err());
    assert!(Day15::within_limits(&vec![Instruction::Left(3)]));
    assert!(!Day15::within_limits(&vec![Instruction::Left(2_000_000)]));
}
