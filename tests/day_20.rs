use everybody_codes::day_20::{Day20, Direction, Parity, ParseError, Pos, Tile, TriangularGrid};

#[test]
fn test_triangle_positions() {
    let positons: Vec<Pos> = TriangularGrid::<()>::new(vec![(); 3 * 3], 3).positions();
    assert_eq!(
        positons,
        [
            Pos::new(0, 0, Parity::L),
            Pos::new(0, 0, Parity::R),
            Pos::new(1, 0, Parity::L),
            Pos::new(1, 0, Parity::R),
            Pos::new(2, 0, Parity::L),
            Pos::new(0, 1, Parity::L),
            Pos::new(0, 1, Parity::R),
            Pos::new(1, 1, Parity::L),
            Pos::new(0, 2, Parity::L),
        ]
    );
}

#[test]
fn test_rotation() {
    let positons: Vec<Pos> = TriangularGrid::<()>::new(vec![(); 3 * 3], 3)
        .positions()
        .into_iter()
        .map(|pos| pos.rotate_ccw(3))
        .collect();
    assert_eq!(
        positons,
        [
            Pos::new(0, 2, Parity::L),
            Pos::new(0, 1, Parity::R),
            Pos::new(0, 1, Parity::L),
            Pos::new(0, 0, Parity::R),
            Pos::new(0, 0, Parity::L),
            Pos::new(1, 1, Parity::L),
            Pos::new(1, 0, Parity::R),
            Pos::new(1, 0, Parity::L),
            Pos::new(2, 0, Parity::L),
        ]
    );
}

#[test]
fn day_20_neighbours() {
    let p = Pos::new(1, 1, Parity::L);
    assert_eq!(p.add(Direction::Up), Some(Pos::new(1, 0, Parity::R)));
    assert_eq!(p.add(Direction::DownLeft), Some(Pos::new(0, 1, Parity::R)));
    assert_eq!(p.add(Direction::Down), None);
    assert_eq!(Pos::new(0, 0, Parity::L).add(Direction::Up), None);
    assert_eq!(Pos::new(0, 0, Parity::R).add(Direction::Down), Some(Pos::new(0, 1, Parity::L)));
    assert_eq!(Direction::all().len(), 6);
}

#[test]
fn day_20_grid_lookup() {
    let g = TriangularGrid::new((0..9).collect::<Vec<u32>>(), 3);
    assert_eq!(*g.get(Pos::new(0, 2, Parity::L)), 8);
    assert_eq!(*g.get(Pos::new(1, 0, Parity::R)), 3);
    assert_eq!(Pos::new(1, 1, Parity::L).into_index(3), 7);
    assert!(!Pos::new(1, 1, Parity::R).within_grid(3));
}

const EXAMPLE2: &str = "TTTTTTTTTTTTTTTTT\n.TTTT#T#T#TTTTTT.\n..TT#TTTETT#TTT..\n...TT#T#TTT#TT...\n....TTT#T#TTT....\n.....TTTTTT#.....\n......TT#TT......\n.......#TT.......\n........S........";

const EXAMPLE3: &str = "T####T#TTT##T##T#T#\n.T#####TTTT##TTT##.\n..TTTT#T###TTTT#T..\n...T#TTT#ETTTT##...\n....#TT##T#T##T....\n.....#TT####T#.....\n......T#TT#T#......\n.......T#TTT.......\n........TT#........\n.........S.........";

#[test]
fn day_20_test_part_2() {
    let grid = Day20::parse(EXAMPLE2).unwrap();
    let result = Day20::part_2(&grid);
    assert_eq!(result, 32);
}

#[test]
fn day_20_test_part_3() {
    let grid = Day20::parse(EXAMPLE3).unwrap();
    let result = Day20::part_3(&grid);
    assert_eq!(result, 23);
}

#[test]
fn day_20_part_1_and_shape() {
    // The down-pointing triangle of row 0 touches the other three: three pairs.
    let grid = Day20::parse("TTT\n.T.").unwrap();
    assert_eq!(Day20::part_1(&grid), 3);
    assert_eq!(Day20::parse("TTT\nTT.").unwrap_err(), ParseError::ShapeError);
    assert_eq!(Day20::parse("TxT\n.T.").unwrap_err(), ParseError::InvalidTile);
    assert!(Tile::Trampoline.is_passable());
    assert!(!Tile::Hole.is_passable());
}
