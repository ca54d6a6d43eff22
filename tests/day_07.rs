use everybody_codes::day_07::{is_valid, Day07};

const EXAMPLE1: &str = "Oronris,Urakris,Oroneth,Uraketh\n\nr > a,i,o\ni > p,w\nn > e,r\no > n,m\nk > f,r\na > k\nU > r\ne > t\nO > r\nt > h";

const EXAMPLE2: &str = "Xanverax,Khargyth,Nexzeth,Helther,Braerex,Tirgryph,Kharverax\n\nr > v,e,a,g,y\na > e,v,x,r\ne > r,x,v,t\nh > a,e,v\ng > r,y\ny > p,t\ni > v,r\nK > h\nv > e\nB > r\nt > h\nN > e\np > h\nH > e\nl > t\nz > e\nX > a\nn > v\nx > z\nT > i\n";

#[test]
fn day_07_test_part_1() {
    let input = Day07::parse(EXAMPLE1).unwrap();
    let result = Day07::part_1(&input);
    assert_eq!(result, "Oroneth");
}

#[test]
fn day_07_test_part_2() {
    let input = Day07::parse(EXAMPLE2).unwrap();
    let result = Day07::part_2(&input);
    assert_eq!(result, 23);
}

#[test]
fn day_07_rules_and_validity() {
    let input = Day07::parse("Ab,Ba\n\nA > b,c\n").unwrap();
    assert!(input.rules.is_valid(b'A', b'b'));
    assert!(!input.rules.is_valid(b'B', b'a'));
    assert_eq!(input.rules.first_valid(b'A'), Some(b'b'));
    assert_eq!(input.rules.next_valid(b'A', b'b'), Some(b'c'));
    assert_eq!(input.rules.next_valid(b'A', b'c'), None);
    assert!(is_valid("Ab", &input));
    assert!(!is_valid("Ba", &input));
    assert_eq!(Day07::part_1(&input), "Ab");
    assert_eq!(Day07::part_2(&input), 1);
}

#[test]
fn day_07_parse_errors() {
    assert!(Day07::parse("A\nx\nA > b").is_err());
    assert!(Day07::parse("A\n\nA -> b").is_err());
    assert!(Day07::parse("A\n\nA > bc").is_err());
}

const EXAMPLE3: &str = "Xaryt\n\nX > a,o\na > r,t\nr > y,e,a\nh > a,e,v\nt > h\nv > e\ny > p,t";

const EXAMPLE4: &str = "Khara,Xaryt,Noxer,Kharax\n\nr > v,e,a,g,y\na > e,v,x,r,g\ne > r,x,v,t\nh > a,e,v\ng > r,y\ny > p,t\ni > v,r\nK > h\nv > e\nB > r\nt > h\nN > e\np > h\nH > e\nl > t\nz > e\nX > a\nn > v\nx > z\nT > i";

#[test]
fn day_07_part_3_examples() {
    assert_eq!(Day07::part_3(&Day07::parse(EXAMPLE3).unwrap()), 25);
    assert_eq!(Day07::part_3(&Day07::parse(EXAMPLE4).unwrap()), 1154);
}
