//! Dungeon diagrams: a grid puzzle in which the player walls off a board so
//! that every monster sits in a dead end and every treasure chest in a room
//! of its own. The library holds the puzzle, reads it from text, and checks a
//! candidate layout against the rules.

use vstd::prelude::*;
use aglet::{Coord, Grid};
use crate::rules::{cell, Board, Cell};
use crate::tiles::{grid_at, grid_clone, grid_dims, grid_get, grid_height, grid_regular, grid_width};

pub mod cells;
pub mod checker;
pub mod compass;
pub mod grid;
pub mod laws;
pub mod marks;
pub mod parse;
pub mod play;
pub mod reading;
pub mod region;
pub mod rooms;
pub mod rules;
pub mod tiles;

pub use parse::parse_to_level;

verus! {

/// The largest width or height of a puzzle: the largest for which every
/// neighbour of a cell, on or off the board, still fits in a signed
/// coordinate.
pub const MAX_SIDE: u32 = 0x7fff_ffff;

/// A tile that the puzzle fixes on a cell.
#[derive(Debug, Clone, Copy, PartialEq, Eq, Structural)]
pub enum Tile {
    Monster,
    TreasureChest,
}

/// What a puzzle is, mathematically.
pub struct PuzzleView {
    /// The number of columns.
    pub width: int,
    /// The number of rows.
    pub height: int,
    /// The fixed tiles, by cell.
    pub tiles: Map<Cell, Tile>,
    /// The wall count asked of each column, from west to east.
    pub top_hints: Seq<u8>,
    /// The wall count asked of each row, from north to south.
    pub side_hints: Seq<u8>,
}

impl PuzzleView {
    /// The sizes are in range, every tile lies on the board and there is one
    /// hint for each column and each row.
    pub open spec fn wf(self) -> bool {
        &&& 0 <= self.width <= MAX_SIDE
        &&& 0 <= self.height <= MAX_SIDE
        &&& self.width * self.height <= u32::MAX
        &&& forall|c: Cell| #[trigger]
            self.tiles.dom().contains(c) ==> 0 <= c.0 < self.width && 0 <= c.1 < self.height
        &&& self.top_hints.len() == self.width
        &&& self.side_hints.len() == self.height
    }

    /// The fixed tile on a cell, if it has one.
    pub open spec fn tile(self, c: Cell) -> Option<Tile> {
        if self.tiles.dom().contains(c) {
            Some(self.tiles[c])
        } else {
            None
        }
    }

    /// The board with the layout that leaves exactly the coordinates of
    /// `floor` open.
    pub open spec fn board(self, floor: Set<Coord>) -> Board {
        Board { width: self.width, height: self.height, tiles: self.tiles, floor }
    }
}

/// The tiles of a grid as a map from its cells.
pub open spec fn tile_map(g: Grid<Tile>) -> Map<Cell, Tile> {
    Map::new(|c: Cell| grid_at(g, c.0, c.1) is Some, |c: Cell| grid_at(g, c.0, c.1).unwrap())
}

/// A puzzle: the fixed tiles of a board and the wall counts asked of its
/// columns and rows.
#[derive(Debug)]
pub struct Puzzle {
    tiles: Grid<Tile>,
    top_hints: Vec<u8>,
    side_hints: Vec<u8>,
}

impl View for Puzzle {
    type V = PuzzleView;

    closed spec fn view(&self) -> PuzzleView {
        PuzzleView {
            width: grid_dims(self.tiles).0 as int,
            height: grid_dims(self.tiles).1 as int,
            tiles: tile_map(self.tiles),
            top_hints: self.top_hints@,
            side_hints: self.side_hints@,
        }
    }
}

impl Puzzle {
    /// What holds of every puzzle: its grid is regular and its view well
    /// formed.
    #[verifier::type_invariant]
    pub closed spec fn inv(&self) -> bool {
        grid_regular(self.tiles) && self@.wf()
    }

    /// A puzzle that keeps its invariant is well formed.
    pub proof fn lemma_inv(&self)
        requires
            self.inv(),
        ensures
            self@.wf(),
    {
    }

    /// A puzzle from its parts. The grid is one that `Grid::new` made, no
    /// wider or taller than [`MAX_SIDE`], with one hint for each of its
    /// columns and rows.
    pub fn new(tiles: Grid<Tile>, top_hints: Vec<u8>, side_hints: Vec<u8>) -> (puzzle: Self)
        requires
            grid_regular(tiles),
            grid_dims(tiles).0 <= MAX_SIDE,
            grid_dims(tiles).1 <= MAX_SIDE,
            top_hints@.len() == grid_dims(tiles).0,
            side_hints@.len() == grid_dims(tiles).1,
        ensures
            puzzle@.wf(),
            puzzle@.width == grid_dims(tiles).0,
            puzzle@.height == grid_dims(tiles).1,
            puzzle@.tiles == tile_map(tiles),
            puzzle@.top_hints == top_hints@,
            puzzle@.side_hints == side_hints@,
    {
        Self { tiles, top_hints, side_hints }
    }

    pub fn width(&self) -> (w: u32)
        ensures
            w == self@.width,
    {
        grid_width(&self.tiles)
    }

    pub fn height(&self) -> (h: u32)
        ensures
            h == self@.height,
    {
        grid_height(&self.tiles)
    }

    /// The fixed tile at a coordinate; `None` for a free cell and for a
    /// coordinate off the board.
    pub fn get_tile(&self, coord: Coord) -> (tile: Option<Tile>)
        ensures
            tile == self@.tile(cell(coord)),
    {
        proof {
            use_type_invariant(self);
        }
        grid_get(&self.tiles, coord)
    }

    pub fn top_hints(&self) -> (hints: &[u8])
        ensures
            hints@ == self@.top_hints,
    {
        self.top_hints.as_slice()
    }

    pub fn side_hints(&self) -> (hints: &[u8])
        ensures
            hints@ == self@.side_hints,
    {
        self.side_hints.as_slice()
    }
}

impl Clone for Puzzle {
    fn clone(&self) -> (copy: Self)
        ensures
            copy@ == self@,
    {
        proof {
            use_type_invariant(self);
        }
        let tiles = grid_clone(&self.tiles);
        assert(tile_map(tiles) =~= tile_map(self.tiles));
        Self { tiles, top_hints: self.top_hints.clone(), side_hints: self.side_hints.clone() }
    }
}

/// A puzzle with its title.
#[derive(Debug)]
pub struct Level {
    puzzle: Puzzle,
    title: String,
}

/// What a level is, mathematically.
pub struct LevelView {
    pub title: Seq<char>,
    pub puzzle: PuzzleView,
}

impl View for Level {
    type V = LevelView;

    closed spec fn view(&self) -> LevelView {
        LevelView { title: self.title@, puzzle: self.puzzle@ }
    }
}

impl Level {
    pub fn new(puzzle: Puzzle, title: String) -> (level: Self)
        ensures
            level@.puzzle == puzzle@,
            level@.title == title@,
    {
        Self { puzzle, title }
    }

    pub fn puzzle(&self) -> (puzzle: &Puzzle)
        ensures
            puzzle@ == self@.puzzle,
    {
        &self.puzzle
    }

    pub fn title(&self) -> (title: &str)
        ensures
            title@ == self@.title,
    {
        self.title.as_str()
    }
}

impl Clone for Level {
    fn clone(&self) -> (copy: Self)
        ensures
            copy@ == self@,
    {
        Self { puzzle: self.puzzle.clone(), title: self.title.clone() }
    }
}

/// An attempt at a solution: which cells the player has walled off.
///
/// The checker asks only about coordinates on the board. This is a trait so
/// that any representation of a layout can be checked without copying it
/// first. Nothing is asked of an implementation; what it promises of
/// `is_wall` in its own contract, the checker's verdict can be held to.
pub trait Solution {
    fn is_wall(&self, coord: Coord) -> bool;
}

} // verus!
