use everybody_codes::day_01::{Day01, Input, Instruction, ParseError};

const EXAMPLE1: &str = "Vyrdax,Drakzyph,Fyrryn,Elarzris\n\nR3,L2,R3,L1";
const EXAMPLE2: &str = "Vyrdax,Drakzyph,Fyrryn,Elarzris\n\nR3,L2,R3,L3";

#[test]
fn day_01_test_parse() {
    let result: Input = Day01::parse(EXAMPLE1).unwrap();
    assert_eq!(result.names, ["Vyrdax", "Drakzyph", "Fyrryn", "Elarzris"]);
    assert_eq!(
        result.instructions,
        [
            Instruction::Right(3),
            Instruction::Left(2),
            Instruction::Right(3),
            Instruction::Left(1),
        ]
    );
}

#[test]
fn day_01_test_part_1() {
    let input = Day01::parse(EXAMPLE1).unwrap();
    let result = Day01::part_1(&input);
    assert_eq!(result, "Fyrryn");
}

#[test]
fn day_01_test_part_2() {
    let input = Day01::parse(EXAMPLE1).unwrap();
    let result = Day01::part_2(&input);
    assert_eq!(result, "Elarzris");
}

#[test]
fn day_01_test_part_3() {
    let input = Day01::parse(EXAMPLE2).unwrap();
    let result = Day01::part_3(&input);
    assert_eq!(result, "Drakzyph");
}

#[test]
fn day_01_parse_errors() {
    assert_eq!(Day01::parse("a,b\nx\nR1"), Err(ParseError::SyntaxError));
    assert_eq!(Day01::parse("a,b\n\nX1"), Err(ParseError::SyntaxError));
    assert_eq!(Day01::parse("a,b\n\nR"), Err(ParseError::InvalidNumber));
    assert_eq!(Day01::parse("a,b\n"), Err(ParseError::SyntaxError));
}

#[test]
fn day_01_moves_clamp_and_wrap() {
    let input = Day01::parse("a,b,c\n\nL5,R1,R9").unwrap();
    // clamped: 0 -> 0 -> 1 -> 2
    assert_eq!(Day01::part_1(&input), "c");
    // circular: 0 -> 1 -> 2 -> (2 + 9) % 3 = 2
    assert_eq!(Day01::part_2(&input), "c");
    // swaps with 5 % 3 ... (-5) % 3 = 1: b,a,c; then 1: a,b,c; then 0: a,b,c
    assert_eq!(Day01::part_3(&input), "a");
}
