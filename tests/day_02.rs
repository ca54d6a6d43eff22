use everybody_codes::day_02::{is_engraved, Complex, Day02, ParseError};

const EXAMPLE1: &str = "A=[25,9]";
const EXAMPLE2: &str = "A=[35300,-64910]";

#[test]
fn day_02_test_parse() {
    let result = Day02::parse(EXAMPLE1).unwrap();
    assert_eq!(result, Complex::new(25, 9));
}

#[test]
fn day_02_test_part_1() {
    let input = Day02::parse(EXAMPLE1).unwrap();
    let result = Day02::part_1(&input);
    assert_eq!(result, Complex::new(357, 862));
}

#[test]
fn day_02_test_part_2() {
    let input = Day02::parse(EXAMPLE2).unwrap();
    let result = Day02::part_2(&input);
    assert_eq!(result, 4_076);
}

#[test]
fn day_02_test_part_3() {
    let input = Day02::parse(EXAMPLE2).unwrap();
    let result = Day02::part_3(&input);
    assert_eq!(result, 406_954);
}

#[test]
fn day_02_complex_arithmetic() {
    let mut a = Complex::new(3, -4);
    a.mul_assign(Complex::new(2, 5));
    // (3 - 4i)(2 + 5i) = 6 + 15i - 8i + 20 = 26 + 7i
    assert_eq!(a, Complex::new(26, 7));
    a.div_assign(-5);
    // division rounds toward zero
    assert_eq!(a, Complex::new(-5, -1));
    a.add_assign(Complex::new(5, 1));
    assert_eq!(a, Complex::new(0, 0));
}

#[test]
fn day_02_exceeds_limit() {
    assert!(Complex::new(-1001, 0).exceeds(1000));
    assert!(!Complex::new(-1000, 1000).exceeds(1000));
    assert!(Complex::new(0, i64::MIN).exceeds(u64::MAX / 2));
}

#[test]
fn day_02_engraving_of_points() {
    assert!(is_engraved(Complex::new(0, 0)));
    assert!(!is_engraved(Complex::new(2_000_000, 0)));
}

#[test]
fn day_02_parse_errors() {
    assert_eq!(Day02::parse("A=[1;2]"), Err(ParseError::SyntaxError));
    assert_eq!(Day02::parse("B=[1,2]"), Err(ParseError::SyntaxError));
    assert_eq!(Day02::parse("A=[1,x]"), Err(ParseError::InvalidNumber));
    assert_eq!(Day02::parse("A=[-7,+8]"), Ok(Complex::new(-7, 8)));
}
