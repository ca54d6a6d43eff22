use everybody_codes::day_12::{fireball_simple, Day12};

const EXAMPLE1: &str = "989611\n857782\n746543\n766789";
const EXAMPLE2: &str = "9589233445\n9679121695\n8469121876\n8352919876\n7342914327\n7234193437\n6789193538\n6781219648\n5691219769\n5443329859";
const EXAMPLE3: &str = "41951111131882511179\n32112222211508122215\n31223333322105122219\n31234444432147511128\n91223333322176021892\n60112222211166431583\n04661111166111111746\n01111119042122222177\n41222108881233333219\n71222127839122222196\n56111026279711111507";

#[test]
fn day_12_test_part_1() {
    let input = Day12::parse(EXAMPLE1).unwrap();
    let result = Day12::part_1(&input);
    assert_eq!(result, 16);
}

#[test]
fn day_12_test_part_2() {
    let input = Day12::parse(EXAMPLE2).unwrap();
    let result = Day12::part_2(&input);
    assert_eq!(result, 58);
}

#[test]
fn day_12_test_part_3() {
    let input = Day12::parse(EXAMPLE3).unwrap();
    let result = Day12::part_3(&input);
    assert_eq!(result, 133);
}

#[test]
fn day_12_fire_spreads_downhill_only() {
    let grid = Day12::parse("31\n22").unwrap();
    // From 3: spreads to 1 and 2, then from 2 to the other 2.
    assert_eq!(fireball_simple(&grid, &[(0, 0)]), 4);
    // From 1: nothing lower next to it.
    assert_eq!(fireball_simple(&grid, &[(0, 1)]), 1);
    assert!(Day12::parse("12\n3").is_err());
    assert!(Day12::parse("").is_err());
}
