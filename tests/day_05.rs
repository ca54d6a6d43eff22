use everybody_codes::day_05::{compare, Day05, Fishbone, Sword};

const EXAMPLE1: &str = "58:5,3,7,8,9,1,4,5,7,8,8";
const EXAMPLE2: &str = "1:2,4,1,1,8,2,7,9,8,6\n2:7,9,9,3,8,3,8,8,6,8\n3:4,7,6,9,1,8,3,7,2,2\n4:6,4,2,1,7,4,5,5,5,8\n5:2,9,3,8,3,9,5,2,1,4\n6:2,4,9,6,7,4,1,7,6,8\n7:2,3,7,6,2,2,4,1,4,2\n8:5,1,5,6,8,3,1,8,3,9\n9:5,7,7,3,7,2,3,8,6,7\n10:4,1,9,3,8,5,4,3,5,5";
const EXAMPLE3: &str = "1:7,1,9,1,6,9,8,3,7,2\n2:6,1,9,2,9,8,8,4,3,1\n3:7,1,9,1,6,9,8,3,8,3\n4:6,1,9,2,8,8,8,4,3,1\n5:7,1,9,1,6,9,8,3,7,3\n6:6,1,9,2,8,8,8,4,3,5\n7:3,7,2,2,7,4,4,6,3,1\n8:3,7,2,2,7,4,4,6,3,7\n9:3,7,2,2,7,4,1,6,3,7";
const EXAMPLE4: &str = "1:7,1,9,1,6,9,8,3,7,2\n2:7,1,9,1,6,9,8,3,7,2";

#[test]
fn day_05_part_1_example() {
    let input = Day05::parse(EXAMPLE1).unwrap();
    // Spine 5, 8, 4, 7, 8: the stat 1 sits left of 8, so 4 starts the third segment.
    assert_eq!(Day05::part_1(&input), 58_478);
}

#[test]
fn day_05_part_2_example() {
    let input = Day05::parse(EXAMPLE2).unwrap();
    assert_eq!(Day05::part_2(&input), 77_053);
}

#[test]
fn day_05_part_3_examples() {
    assert_eq!(Day05::part_3(&Day05::parse(EXAMPLE3).unwrap()), 260);
    assert_eq!(Day05::part_3(&Day05::parse(EXAMPLE4).unwrap()), 4);
}

#[test]
fn day_05_fishbone_shape() {
    let sword = Sword { id: 1, stats: vec![5, 3, 7, 8] };
    let f = Fishbone::from(&sword);
    assert_eq!(f.segments, vec![(Some(3), 5, Some(7)), (None, 8, None)]);
    assert_eq!(f.spine(), 58);
    assert_eq!(f.segment(0), Some(357));
    assert_eq!(f.segment(2), None);
    assert_eq!(compare(&f, 1, &f, 2), -1);
    assert!(Day05::parse("x:1").is_err());
}
