use std::cell::RefCell;

use aglet::{Coord, Grid};
use ahash::AHashSet;
use terminal_tombcrawler::checker::{Failure, FailureReason};
use terminal_tombcrawler::{Puzzle, Solution, Tile};

/// A puzzle from a picture: `@` is a monster, `$` a chest, anything else free.
fn puzzle(rows: &[&str]) -> Puzzle {
    let height = rows.len() as u32;
    let width = rows.first().map_or(0, |row| row.len()) as u32;
    let mut grid = Grid::new(width, height);
    for (y, row) in rows.iter().enumerate() {
        for (x, ch) in row.chars().enumerate() {
            let coord = Coord::new(x as u32, y as u32);
            match ch {
                '@' => {
                    grid.insert(coord, Tile::Monster);
                }
                '$' => {
                    grid.insert(coord, Tile::TreasureChest);
                }
                _ => {}
            }
        }
    }
    Puzzle::new(grid, vec![0; width as usize], vec![0; height as usize])
}

/// A layout from a picture: `#` is a wall, anything else open. Asking about a
/// coordinate off the picture panics.
struct Picture {
    rows: Vec<Vec<bool>>,
}

fn picture(rows: &[&str]) -> Picture {
    Picture {
        rows: rows
            .iter()
            .map(|row| row.chars().map(|ch| ch == '#').collect())
            .collect(),
    }
}

impl Solution for Picture {
    fn is_wall(&self, coord: Coord) -> bool {
        self.rows[coord.y as usize][coord.x as usize]
    }
}

fn openings(rows: &[&str]) -> AHashSet<Coord> {
    let mut set = AHashSet::new();
    for (y, row) in rows.iter().enumerate() {
        for (x, ch) in row.chars().enumerate() {
            if ch != '#' {
                set.insert(Coord::new(x as u32, y as u32));
            }
        }
    }
    set
}

fn check(tiles: &[&str], walls: &[&str]) -> Result<(), Failure> {
    let puzzle = puzzle(tiles);
    let by_solution = puzzle.check_solution(&picture(walls));
    let by_openings = puzzle.check_openings(&openings(walls));
    assert_eq!(by_solution.is_ok(), by_openings.is_ok());
    if let (Err(a), Err(b)) = (&by_solution, &by_openings) {
        assert_eq!(a.reason, b.reason);
        assert_eq!(a.pos, b.pos);
    }
    by_solution
}

fn assert_fails(result: Result<(), Failure>, reason: FailureReason, x: u32, y: u32) {
    match result {
        Ok(()) => panic!("accepted, but {:?} at ({}, {}) was expected", reason, x, y),
        Err(failure) => {
            assert_eq!(failure.reason, reason);
            assert_eq!(failure.pos, Coord::new(x, y));
        }
    }
}

const ROOM_TILES: [&str; 6] = [".....", ".....", "..$..", ".....", ".....", "@...@"];

#[test]
fn room_with_two_monster_dead_ends_is_accepted() {
    let walls = ["#####", "#...#", "#...#", "#...#", "##.##", "....."];
    assert!(check(&ROOM_TILES, &walls).is_ok());
}

#[test]
fn second_entrance_leaves_the_chest_without_a_room() {
    let walls = ["#####", "#...#", "#...#", "#...#", "#..##", "....."];
    assert_fails(check(&ROOM_TILES, &walls), FailureReason::NoTreasureRoom, 2, 2);
}

#[test]
fn cut_off_cell_is_reported_where_it_lies() {
    let tiles = ["@.@"];
    let walls = [".#."];
    assert_fails(check(&tiles, &walls), FailureReason::DiscontiguousAreas, 2, 0);
}

#[test]
fn cut_off_cell_next_to_the_region_of_another() {
    // The cell at (3, 1) touches only a wall and the edge; the region of the
    // first open cell does not reach it.
    let tiles = ["@..@", "...@"];
    let walls = ["....", "###."];
    // (3, 1) is open and joins (3, 0): all one region, with a monster where
    // the corridor ends.
    assert_fails(check(&tiles, &walls), FailureReason::MonsterWithoutDeadEnd, 3, 0);
    let walls = ["...#", "###."];
    assert_fails(check(&tiles, &walls), FailureReason::WallOverlapsFilledTile(Tile::Monster), 3, 0);
    let tiles = ["@.@.", "...@"];
    let walls = ["...#", "###."];
    assert_fails(check(&tiles, &walls), FailureReason::DiscontiguousAreas, 3, 1);
}

#[test]
fn all_walls_without_tiles_is_accepted() {
    let tiles = ["...", "...", "..."];
    let walls = ["###", "###", "###"];
    assert!(check(&tiles, &walls).is_ok());
}

#[test]
fn empty_boards_are_accepted() {
    let none: [&str; 0] = [];
    assert!(check(&none, &none).is_ok());
    let flat = Puzzle::new(Grid::new(4, 0), vec![0; 4], vec![]);
    assert!(flat.check_solution(&picture(&none)).is_ok());
    let thin = Puzzle::new(Grid::new(0, 3), vec![], vec![0; 3]);
    assert!(thin.check_solution(&picture(&none)).is_ok());
}

#[test]
fn single_open_cell_is_a_dead_end() {
    assert_fails(check(&["."], &["."]), FailureReason::DeadEndWithoutMonster, 0, 0);
    assert!(check(&["@"], &["."]).is_ok());
}

#[test]
fn all_open_without_tiles_is_rejected() {
    let tiles = ["..", ".."];
    let walls = ["..", ".."];
    assert_fails(check(&tiles, &walls), FailureReason::LargeAreaOutsideOfTreasureRoom, 0, 0);
    let tiles = ["...", "...", "..."];
    let walls = ["...", "...", "..."];
    assert_fails(check(&tiles, &walls), FailureReason::LargeAreaOutsideOfTreasureRoom, 0, 0);
    let tiles = ["...."];
    let walls = ["...."];
    assert_fails(check(&tiles, &walls), FailureReason::DeadEndWithoutMonster, 0, 0);
}

#[test]
fn wall_on_a_tile_carries_the_kind_of_the_tile() {
    let tiles = ["..$", "@.."];
    let walls = ["..#", "#.."];
    assert_fails(
        check(&tiles, &walls),
        FailureReason::WallOverlapsFilledTile(Tile::TreasureChest),
        2,
        0,
    );
    let walls = ["...", "#.."];
    assert_fails(check(&tiles, &walls), FailureReason::WallOverlapsFilledTile(Tile::Monster), 0, 1);
}

#[test]
fn wall_on_a_tile_comes_before_every_other_fault() {
    // The open cells are in two regions and hold a dead end without a
    // monster, but the covered monster is reported.
    let tiles = ["....@"];
    let walls = [".#.##"];
    assert_fails(check(&tiles, &walls), FailureReason::WallOverlapsFilledTile(Tile::Monster), 4, 0);
}

#[test]
fn monster_in_a_corridor_is_rejected() {
    let tiles = ["@@@"];
    let walls = ["..."];
    assert_fails(check(&tiles, &walls), FailureReason::MonsterWithoutDeadEnd, 1, 0);
}

#[test]
fn dead_end_without_monster_is_rejected() {
    let tiles = ["@.."];
    let walls = ["..."];
    assert_fails(check(&tiles, &walls), FailureReason::DeadEndWithoutMonster, 2, 0);
}

#[test]
fn dead_end_counts_the_edge_of_the_board_as_blocked() {
    // In the middle of a row of three, a cell has two blocked sides: north
    // and south are off the board.
    let tiles = ["@.@"];
    let walls = ["..."];
    assert!(check(&tiles, &walls).is_ok());
    // With walls north and south in place of the edge it is the same.
    let tiles = ["...", "@.@", "..."];
    let walls = ["###", "...", "###"];
    assert!(check(&tiles, &walls).is_ok());
    // A cell with three open sides is no dead end either.
    let tiles = [".@.", "@.@", "..."];
    let walls = ["#.#", "...", "###"];
    assert!(check(&tiles, &walls).is_ok());
}

#[test]
fn faults_are_reported_in_reading_order() {
    // (2, 0) is a dead end without a monster and (0, 1) is cut off; the
    // first of them in reading order is reported.
    let tiles = ["@..", "..."];
    let walls = ["...", ".##"];
    assert_fails(check(&tiles, &walls), FailureReason::MonsterWithoutDeadEnd, 0, 0);
    let tiles = ["@..", "@.."];
    let walls = ["...", "##."];
    assert_fails(check(&tiles, &walls), FailureReason::WallOverlapsFilledTile(Tile::Monster), 0, 1);
    let tiles = ["@.@", "...", "@.."];
    let walls = ["...", "###", ".##"];
    assert_fails(check(&tiles, &walls), FailureReason::DiscontiguousAreas, 0, 2);
    let tiles = ["@..", "...", "@.."];
    let walls = ["...", "###", ".##"];
    assert_fails(check(&tiles, &walls), FailureReason::DeadEndWithoutMonster, 2, 0);
}

#[test]
fn wide_corridor_outside_a_room_is_rejected() {
    let tiles = ["@....", "....@"];
    let walls = ["...##", "#...."];
    // The square at columns 1 and 2 is two wide and no room claims it.
    assert_fails(check(&tiles, &walls), FailureReason::LargeAreaOutsideOfTreasureRoom, 1, 0);
}

#[test]
fn each_quadrant_of_a_square_is_seen() {
    // A lone two-by-two square: each of its cells is oversized, and the
    // first in reading order is reported.
    let tiles = ["....", "....", "....", "...."];
    let walls = ["####", "#..#", "#..#", "####"];
    assert_fails(check(&tiles, &walls), FailureReason::LargeAreaOutsideOfTreasureRoom, 1, 1);
    let puzzle = puzzle(&tiles);
    let (chests, big) = puzzle.check_shape(&openings(&walls)).unwrap();
    assert!(chests.is_empty());
    assert_eq!(big.len(), 4);
    for (x, y) in [(1, 1), (2, 1), (1, 2), (2, 2)] {
        assert!(big.contains(&Coord::new(x, y)));
    }
}

#[test]
fn diagonal_neighbours_alone_make_no_square() {
    // A staircase: every open cell has open diagonal neighbours, but no
    // two-by-two square is open.
    let tiles = ["@..", "...", "..@"];
    let walls = ["..#", "#..", "##."];
    assert!(check(&tiles, &walls).is_ok());
    let puzzle = puzzle(&tiles);
    let (_, big) = puzzle.check_shape(&openings(&walls)).unwrap();
    assert!(big.is_empty());
}

#[test]
fn three_open_neighbours_round_a_diagonal_make_no_square() {
    // North-east, east and south-east of (0, 1) are open, yet (0, 1) lies in
    // no open two-by-two square.
    let tiles = [".@", "@.", ".@"];
    let walls = ["#.", "..", "#."];
    assert!(check(&tiles, &walls).is_ok());
    let puzzle = puzzle(&tiles);
    let (_, big) = puzzle.check_shape(&openings(&walls)).unwrap();
    assert!(big.is_empty());
}

#[test]
fn check_shape_returns_chests_and_oversized_cells() {
    let walls = ["#####", "#...#", "#...#", "#...#", "##.##", "....."];
    let puzzle = puzzle(&ROOM_TILES);
    let (chests, big) = puzzle.check_shape(&openings(&walls)).unwrap();
    assert_eq!(chests.len(), 1);
    assert!(chests.contains(&Coord::new(2, 2)));
    assert_eq!(big.len(), 9);
    for y in 1..4 {
        for x in 1..4 {
            assert!(big.contains(&Coord::new(x, y)));
        }
    }
}

#[test]
fn check_chest_returns_the_nine_cells_row_by_row() {
    let walls = ["#####", "#...#", "#...#", "#...#", "##.##", "....."];
    let puzzle = puzzle(&ROOM_TILES);
    let owned = puzzle.check_chest(&openings(&walls), Coord::new(2, 2)).unwrap();
    let expected: Vec<Coord> = (1..4)
        .flat_map(|y| (1..4).map(move |x| Coord::new(x, y)))
        .collect();
    assert_eq!(owned, expected);
}

#[test]
fn check_chest_finds_the_room_wherever_the_chest_lies_in_it() {
    let walls = ["#####", "#...#", "#...#", "#...#", "##.##", "....."];
    let set = openings(&walls);
    let puzzle = puzzle(&ROOM_TILES);
    for y in 1..4 {
        for x in 1..4 {
            let owned = puzzle.check_chest(&set, Coord::new(x, y)).unwrap();
            assert_eq!(owned.len(), 9);
            assert_eq!(owned[0], Coord::new(1, 1));
            assert_eq!(owned[8], Coord::new(3, 3));
        }
    }
    // A cell outside the room has none.
    let failure = puzzle.check_chest(&set, Coord::new(2, 4)).unwrap_err();
    assert_eq!(failure.reason, FailureReason::NoTreasureRoom);
    assert_eq!(failure.pos, Coord::new(2, 4));
    // Nor has a coordinate off the board, however far.
    for far in [Coord::new(5, 2), Coord::new(2, 6), Coord::new(u32::MAX, u32::MAX)] {
        let failure = puzzle.check_chest(&set, far).unwrap_err();
        assert_eq!(failure.reason, FailureReason::NoTreasureRoom);
        assert_eq!(failure.pos, far);
    }
}

#[test]
fn room_without_entrance_is_no_room() {
    let tiles = [".....", ".....", "..$..", ".....", "....."];
    let walls = ["#####", "#...#", "#...#", "#...#", "#####"];
    assert_fails(check(&tiles, &walls), FailureReason::NoTreasureRoom, 2, 2);
}

#[test]
fn room_against_the_edge_counts_the_edge_as_wall() {
    // The room fills the north-west corner of the board; its only entrance
    // is on the east side.
    let tiles = ["$...@", ".....", "....."];
    let walls = ["....."  , "...##", "...##"];
    assert!(check(&tiles, &walls).is_ok());
    // The same with the chest in the far corner of the room.
    let tiles = ["....@", ".....", "..$.."];
    assert!(check(&tiles, &walls).is_ok());
}

#[test]
fn room_that_fills_the_board_has_no_entrance() {
    let tiles = ["...", ".$.", "..."];
    let walls = ["...", "...", "..."];
    assert_fails(check(&tiles, &walls), FailureReason::NoTreasureRoom, 1, 1);
}

#[test]
fn chest_on_a_board_too_small_for_a_room() {
    let tiles = ["$@"];
    let walls = [".."];
    assert_fails(check(&tiles, &walls), FailureReason::DeadEndWithoutMonster, 0, 0);
    let tiles = ["@$@"];
    let walls = ["..."];
    assert_fails(check(&tiles, &walls), FailureReason::NoTreasureRoom, 1, 0);
}

#[test]
fn entrance_at_a_corner_diagonal_does_not_count() {
    // The cells diagonal to the corners of the room are not on its border:
    // an open one is neither an entrance nor a second one.
    let tiles = ["......", "......", "..$...", "......", "......", "@....@"];
    let walls = ["######", "#...##", "#...##", "#...##", "##.#.#", "......"];
    // (4, 4) is diagonal to the room's south-east corner and open.
    assert_fails(check(&tiles, &walls), FailureReason::DeadEndWithoutMonster, 4, 4);
    let tiles = ["......", "......", "..$...", "......", "....@.", "@....@"];
    assert!(check(&tiles, &walls).is_ok());
}

#[test]
fn two_chests_share_one_room() {
    let tiles = [".....", ".$...", "...$.", ".....", ".....", "@...@"];
    let walls = ["#####", "#...#", "#...#", "#...#", "##.##", "....."];
    assert!(check(&tiles, &walls).is_ok());
}

#[test]
fn first_chest_without_a_room_is_reported() {
    let tiles = ["$.$"];
    let walls = ["..."];
    // Both ends are dead ends without a monster; the shape fails first.
    assert_fails(check(&tiles, &walls), FailureReason::DeadEndWithoutMonster, 0, 0);
    let tiles = ["@$$@"];
    let walls = ["...."];
    assert_fails(check(&tiles, &walls), FailureReason::NoTreasureRoom, 1, 0);
}

#[test]
fn solution_is_asked_only_about_the_board() {
    // `Picture` panics when asked about a coordinate off its rows. The chest
    // lies in a corner, so the search for its room reaches past every edge.
    let tiles = ["$..", "...", "..@"];
    let walls = ["...", "...", "..."];
    let puzzle = puzzle(&tiles);
    let result = puzzle.check_solution(&picture(&walls));
    assert_fails(result, FailureReason::MonsterWithoutDeadEnd, 2, 2);
}

/// A layout without walls that notes each coordinate it is asked about.
struct Noting {
    asked: RefCell<Vec<Coord>>,
}

impl Solution for Noting {
    fn is_wall(&self, coord: Coord) -> bool {
        self.asked.borrow_mut().push(coord);
        false
    }
}

#[test]
fn solution_is_asked_once_about_each_cell_in_reading_order() {
    let tiles = ["@.@", "..."];
    let noting = Noting { asked: RefCell::new(Vec::new()) };
    let result = puzzle(&tiles).check_solution(&noting);
    assert_fails(result, FailureReason::MonsterWithoutDeadEnd, 0, 0);
    let expected: Vec<Coord> = (0..2)
        .flat_map(|y| (0..3).map(move |x| Coord::new(x, y)))
        .collect();
    assert_eq!(*noting.asked.borrow(), expected);
}

#[test]
fn openings_off_the_board_play_no_part() {
    let walls = ["#####", "#...#", "#...#", "#...#", "##.##", "....."];
    let puzzle = puzzle(&ROOM_TILES);
    let mut set = openings(&walls);
    set.insert(Coord::new(5, 2));
    set.insert(Coord::new(2, 6));
    set.insert(Coord::new(u32::MAX, u32::MAX));
    assert!(puzzle.check_openings(&set).is_ok());
}

#[test]
fn checking_twice_gives_the_same_verdict() {
    let walls = ["#####", "#...#", "#...#", "#...#", "#..##", "....."];
    let puzzle = puzzle(&ROOM_TILES);
    let set = openings(&walls);
    let first = puzzle.check_openings(&set).unwrap_err();
    let second = puzzle.check_openings(&set).unwrap_err();
    assert_eq!(first.reason, second.reason);
    assert_eq!(first.pos, second.pos);
    let first = puzzle.check_solution(&picture(&walls)).unwrap_err();
    let second = puzzle.check_solution(&picture(&walls)).unwrap_err();
    assert_eq!(first.reason, second.reason);
    assert_eq!(first.pos, second.pos);
}

#[test]
fn winding_corridor_is_one_region() {
    let tiles = ["@....", ".....", ".....", ".....", "....@"];
    let walls = ["....#", "###.#", "#...#", "#.###", "#...."];
    assert!(check(&tiles, &walls).is_ok());
}

#[test]
fn failure_new_stores_its_parts() {
    let failure = Failure::new(Coord::new(3, 4), FailureReason::EntirelyFilledWithWalls);
    assert_eq!(failure.pos, Coord::new(3, 4));
    assert_eq!(failure.reason, FailureReason::EntirelyFilledWithWalls);
}
