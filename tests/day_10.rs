use everybody_codes::day_10::{Board, Day10, DynamicSheep, Game, ParseError, Pos, StaticSheep};

const P3_EXAMPLE1: &str = "SSS\n..#\n#.#\n#D.";
const P3_EXAMPLE2: &str = "SSS\n..#\n..#\n.##\n.D#";
const P3_EXAMPLE3: &str = "..S..\n.....\n..#..\n.....\n..D..";
const P3_EXAMPLE4: &str = ".SS.S\n#...#\n...#.\n##..#\n.####\n##D.#";
const P3_EXAMPLE5: &str = "SSS.S\n.....\n#.#.#\n.#.#.\n#.D.#";

fn count(input: &str) -> u64 {
    let board = Day10::parse(input).unwrap();
    Day10::part_3(&board).unwrap()
}

#[test]
fn part_3_almost_enclosed_three_by_four() {
    assert_eq!(count(P3_EXAMPLE1), 15);
}

#[test]
fn part_3_three_by_five() {
    assert_eq!(count(P3_EXAMPLE2), 8);
}

#[test]
fn part_3_open_five_by_five() {
    assert_eq!(count(P3_EXAMPLE3), 44);
}

#[test]
fn part_3_five_by_six_with_hideouts() {
    assert_eq!(count(P3_EXAMPLE4), 4_406);
}

#[test]
fn part_3_five_sheep_needs_the_cache() {
    assert_eq!(count(P3_EXAMPLE5), 13_033_988_838);
}

#[test]
fn no_sheep_counts_one_game() {
    assert_eq!(count("...\n.D.\n..."), 1);
}

#[test]
fn sheep_on_last_row_escapes_at_once() {
    // The only sheep leaves the board with its first move: an escape forks no counted game.
    assert_eq!(count("D..\n..S"), 0);
}

#[test]
fn search_restores_its_state() {
    let board = Day10::parse(P3_EXAMPLE4).unwrap();
    let mut game = Game::new(&board);
    let before = (game.dragon, game.sheep.clone());
    let first = game.count_winning_games();
    assert_eq!((game.dragon, game.sheep.clone()), before);
    let second = game.count_winning_games();
    assert_eq!(first, second);
    assert_eq!(first, Some(4_406));
}

#[test]
fn initial_rows_and_safe_rows() {
    let board = Day10::parse(P3_EXAMPLE4).unwrap();
    let game = Game::new(&board);
    assert_eq!(game.sheep, vec![None, Some(0), Some(0), None, Some(0)]);
    // Column 0: rows 4 (open) then 5 (hideout): safe from row 5.
    // Columns 1 and 4: hideouts from row 3 down: safe from row 3.
    assert_eq!(game.safe, vec![5, 3, 6, 6, 3]);
}

#[test]
fn parse_reads_the_grid() {
    let board = Day10::parse(P3_EXAMPLE1).unwrap();
    assert_eq!(board.width(), 3);
    assert_eq!(board.height(), 4);
    assert_eq!(board.dragon(), Pos { row: 3, col: 1 });
    assert!(board.has_sheep_at(Pos::new(0, 2)));
    assert!(!board.has_sheep_at(Pos::new(1, 0)));
    assert!(board.is_blocked(Pos::new(1, 2)));
    assert!(!board.is_blocked(Pos::new(1, 1)));
}

#[test]
fn parse_accepts_a_trailing_newline() {
    let board = Day10::parse("S.\n.D\n").unwrap();
    assert_eq!(board.height(), 2);
}

#[test]
fn parse_rejects_bad_grids() {
    assert_eq!(Day10::parse("").unwrap_err(), ParseError::SyntaxError);
    assert_eq!(Day10::parse("S..\n...").unwrap_err(), ParseError::SyntaxError);
    assert_eq!(Day10::parse("SD.\n..").unwrap_err(), ParseError::SyntaxError);
    assert_eq!(Day10::parse("SDD").unwrap_err(), ParseError::SyntaxError);
    assert_eq!(Day10::parse("SxD").unwrap_err(), ParseError::SyntaxError);
}

#[test]
fn knight_moves_in_order() {
    let board = Day10::parse(P3_EXAMPLE3).unwrap();
    let mut moves = board.dragon_moves(Pos::new(4, 2));
    let mut all = Vec::new();
    while let Some(p) = moves.next() {
        all.push((p.row, p.col));
    }
    assert_eq!(all, vec![(2, 1), (2, 3), (3, 0), (3, 4)]);
}

#[test]
fn sub_row_and_index() {
    assert_eq!(Pos::new(3, 1).sub_row(2), Some(Pos::new(1, 1)));
    assert_eq!(Pos::new(3, 1).sub_row(4), None);
    assert_eq!(Pos::new(2, 3).into_index(5), 13);
}

#[test]
fn board_is_comparable() {
    let a: Board = Day10::parse(P3_EXAMPLE1).unwrap();
    let b: Board = Day10::parse(P3_EXAMPLE1).unwrap();
    assert_eq!(a, b);
}

const P1_EXAMPLE: &str = "...SSS.......\n.S......S.SS.\n..S....S...S.\n..........SS.\n..SSSS...S...\n.....SS..S..S\nSS....D.S....\nS.S..S..S....\n....S.......S\n.SSS..SS.....\n.........S...\n.......S....S\nSS.....S..S..";

const P2_EXAMPLE: &str = "...SSS##.....\n.S#.##..S#SS.\n..S.##.S#..S.\n.#..#S##..SS.\n..SSSS.#.S.#.\n.##..SS.#S.#S\nSS##.#D.S.#..\nS.S..S..S###.\n.##.S#.#....S\n.SSS.#SS..##.\n..#.##...S##.\n.#...#.S#...S\nSS...#.S.#S..";

#[test]
fn day_10_test_part_1() {
    let board = Day10::parse(P1_EXAMPLE).unwrap();
    let result = StaticSheep::new(&board).reachable_static_sheep(3);
    assert_eq!(result, 27);
}

#[test]
fn day_10_test_part_2() {
    let board = Day10::parse(P2_EXAMPLE).unwrap();
    let result = DynamicSheep::new(&board).reachable_moving_sheep(3);
    assert_eq!(result, 27);
}

#[test]
fn wide_board_still_counts() {
    // 20 columns and 6 rows: far more possible states than a u64 can number, but
    // the search only numbers the states it meets.
    let board = "..........S.........\n....................\n....................\n....................\n....................\n.........D..........";
    let result = Day10::part_3(&Day10::parse(board).unwrap());
    assert!(result.is_some());
    assert!(result.unwrap() < 1_000_000);
}

#[test]
fn dragon_alone_counts_one_game() {
    assert_eq!(count("D"), 1);
}
