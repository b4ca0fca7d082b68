use aglet::{Coord, Grid};
use terminal_tombcrawler::{Level, Puzzle, Tile};

fn sample() -> Puzzle {
    let mut grid = Grid::new(3, 2);
    grid.insert(Coord::new(0, 0), Tile::Monster);
    grid.insert(Coord::new(2, 1), Tile::TreasureChest);
    Puzzle::new(grid, vec![1, 2, 0], vec![2, 1])
}

#[test]
fn puzzle_reports_its_size_and_hints() {
    let puzzle = sample();
    assert_eq!(puzzle.width(), 3);
    assert_eq!(puzzle.height(), 2);
    assert_eq!(puzzle.top_hints(), &[1, 2, 0]);
    assert_eq!(puzzle.side_hints(), &[2, 1]);
}

#[test]
fn puzzle_gives_the_tile_of_each_cell() {
    let puzzle = sample();
    assert_eq!(puzzle.get_tile(Coord::new(0, 0)), Some(Tile::Monster));
    assert_eq!(puzzle.get_tile(Coord::new(2, 1)), Some(Tile::TreasureChest));
    assert_eq!(puzzle.get_tile(Coord::new(1, 0)), None);
    assert_eq!(puzzle.get_tile(Coord::new(2, 0)), None);
    assert_eq!(puzzle.get_tile(Coord::new(0, 1)), None);
}

#[test]
fn puzzle_has_no_tile_off_the_board() {
    let puzzle = sample();
    assert_eq!(puzzle.get_tile(Coord::new(3, 0)), None);
    assert_eq!(puzzle.get_tile(Coord::new(0, 2)), None);
    assert_eq!(puzzle.get_tile(Coord::new(u32::MAX, u32::MAX)), None);
}

#[test]
fn puzzle_clone_is_the_same_puzzle() {
    let puzzle = sample();
    let copy = puzzle.clone();
    assert_eq!(copy.width(), 3);
    assert_eq!(copy.height(), 2);
    assert_eq!(copy.get_tile(Coord::new(0, 0)), Some(Tile::Monster));
    assert_eq!(copy.get_tile(Coord::new(2, 1)), Some(Tile::TreasureChest));
    assert_eq!(copy.get_tile(Coord::new(1, 1)), None);
    assert_eq!(copy.top_hints(), puzzle.top_hints());
    assert_eq!(copy.side_hints(), puzzle.side_hints());
}

#[test]
fn level_keeps_its_puzzle_and_title() {
    let level = Level::new(sample(), String::from("The first room"));
    assert_eq!(level.title(), "The first room");
    assert_eq!(level.puzzle().width(), 3);
    assert_eq!(level.puzzle().get_tile(Coord::new(0, 0)), Some(Tile::Monster));
    let copy = level.clone();
    assert_eq!(copy.title(), "The first room");
    assert_eq!(copy.puzzle().height(), 2);
}
