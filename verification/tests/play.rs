use aglet::Coord;
use terminal_tombcrawler::checker::FailureReason;
use terminal_tombcrawler::play::{hint_state, Game, HintState, Key, Marking, Shown, SolvedState};
use terminal_tombcrawler::{parse_to_level, Solution, Tile};

const TEXT: &str = "Test level\n\n---\n 52125\n5.....\n2.....\n2..$..\n2.....\n4.....\n0@...@\n";

const WALLS: [&str; 6] = ["#####", "#...#", "#...#", "#...#", "##.##", "....."];

fn game() -> Game {
    Game::new(parse_to_level(TEXT).unwrap())
}

fn press(game: &mut Game, key: Key) -> bool {
    game.update(key, false, false)
}

/// Moves the cursor to a cell, one step at a time.
fn go_to(game: &mut Game, x: u32, y: u32) {
    game.update(Key::Left, false, true);
    game.update(Key::Up, false, true);
    for _ in 0..x {
        press(game, Key::Right);
    }
    for _ in 0..y {
        press(game, Key::Down);
    }
    assert_eq!(game.cursor(), Coord::new(x, y));
}

fn mark_walls(game: &mut Game, walls: &[&str]) {
    for (y, row) in walls.iter().enumerate() {
        for (x, ch) in row.chars().enumerate() {
            if ch == '#' {
                go_to(game, x as u32, y as u32);
                press(game, Key::Char('q'));
            }
        }
    }
}

#[test]
fn new_game_has_no_markings() {
    let game = game();
    assert_eq!(game.cursor(), Coord::new(0, 0));
    assert!(matches!(game.solved(), SolvedState::JustStarted));
    assert!(!game.must_redraw());
    assert_eq!(game.level().title(), "Test level");
    for y in 0..6 {
        for x in 0..5 {
            assert_eq!(game.marking(Coord::new(x, y)), None);
        }
    }
}

#[test]
fn arrows_and_letters_move_the_cursor() {
    let mut game = game();
    assert!(!press(&mut game, Key::Right));
    assert_eq!(game.cursor(), Coord::new(1, 0));
    press(&mut game, Key::Down);
    assert_eq!(game.cursor(), Coord::new(1, 1));
    press(&mut game, Key::Char('l'));
    assert_eq!(game.cursor(), Coord::new(2, 1));
    press(&mut game, Key::Char('j'));
    assert_eq!(game.cursor(), Coord::new(2, 2));
    press(&mut game, Key::Char('h'));
    assert_eq!(game.cursor(), Coord::new(1, 2));
    press(&mut game, Key::Char('k'));
    assert_eq!(game.cursor(), Coord::new(1, 1));
    press(&mut game, Key::Left);
    assert_eq!(game.cursor(), Coord::new(0, 1));
    press(&mut game, Key::Up);
    assert_eq!(game.cursor(), Coord::new(0, 0));
}

#[test]
fn cursor_wraps_round_the_board() {
    let mut game = game();
    press(&mut game, Key::Left);
    assert_eq!(game.cursor(), Coord::new(4, 0));
    press(&mut game, Key::Right);
    assert_eq!(game.cursor(), Coord::new(0, 0));
    press(&mut game, Key::Up);
    assert_eq!(game.cursor(), Coord::new(0, 5));
    press(&mut game, Key::Down);
    assert_eq!(game.cursor(), Coord::new(0, 0));
}

#[test]
fn shift_snaps_the_cursor_to_the_edge() {
    let mut game = game();
    go_to(&mut game, 2, 3);
    game.update(Key::Char('L'), false, true);
    assert_eq!(game.cursor(), Coord::new(4, 3));
    game.update(Key::Char('H'), false, true);
    assert_eq!(game.cursor(), Coord::new(0, 3));
    game.update(Key::Char('J'), false, true);
    assert_eq!(game.cursor(), Coord::new(0, 5));
    game.update(Key::Char('K'), false, true);
    assert_eq!(game.cursor(), Coord::new(0, 0));
    game.update(Key::Right, false, true);
    assert_eq!(game.cursor(), Coord::new(4, 0));
    game.update(Key::Down, false, true);
    assert_eq!(game.cursor(), Coord::new(4, 5));
    // A capital letter without shift moves one step.
    game.update(Key::Char('H'), false, false);
    assert_eq!(game.cursor(), Coord::new(3, 5));
}

#[test]
fn q_toggles_a_wall() {
    let mut game = game();
    press(&mut game, Key::Char('q'));
    assert_eq!(game.marking(Coord::new(0, 0)), Some(Marking::Wall));
    assert_eq!(game.marking(Coord::new(1, 0)), None);
    assert_eq!(game.marking(Coord::new(0, 1)), None);
    press(&mut game, Key::Char('q'));
    assert_eq!(game.marking(Coord::new(0, 0)), None);
    // On a cell marked empty it sets the wall.
    press(&mut game, Key::Char('w'));
    assert_eq!(game.marking(Coord::new(0, 0)), Some(Marking::Empty));
    press(&mut game, Key::Char('q'));
    assert_eq!(game.marking(Coord::new(0, 0)), Some(Marking::Wall));
}

#[test]
fn w_marks_empty_or_clears() {
    let mut game = game();
    press(&mut game, Key::Char('w'));
    assert_eq!(game.marking(Coord::new(0, 0)), Some(Marking::Empty));
    press(&mut game, Key::Char('w'));
    assert_eq!(game.marking(Coord::new(0, 0)), None);
    press(&mut game, Key::Char('q'));
    press(&mut game, Key::Char('w'));
    assert_eq!(game.marking(Coord::new(0, 0)), None);
}

#[test]
fn fixed_tiles_take_no_marking() {
    let mut game = game();
    go_to(&mut game, 2, 2);
    press(&mut game, Key::Char('q'));
    assert_eq!(game.marking(Coord::new(2, 2)), None);
    press(&mut game, Key::Char('w'));
    assert_eq!(game.marking(Coord::new(2, 2)), None);
    go_to(&mut game, 0, 5);
    press(&mut game, Key::Char('q'));
    assert_eq!(game.marking(Coord::new(0, 5)), None);
}

#[test]
fn other_keys_change_nothing() {
    let mut game = game();
    go_to(&mut game, 1, 1);
    for key in [Key::Other, Key::Char('Q'), Key::Char('W'), Key::Char('x'), Key::Char(' ')] {
        assert!(!press(&mut game, key));
        assert_eq!(game.cursor(), Coord::new(1, 1));
        assert_eq!(game.marking(Coord::new(1, 1)), None);
    }
}

#[test]
fn control_c_quits_and_changes_nothing() {
    let mut game = game();
    go_to(&mut game, 1, 1);
    game.update(Key::Char('l'), true, false);
    assert!(game.must_redraw());
    assert!(game.update(Key::Char('c'), true, false));
    assert_eq!(game.cursor(), Coord::new(1, 1));
    assert!(game.must_redraw());
    // Without the control key `c` is any other key.
    assert!(!game.update(Key::Char('c'), false, false));
    assert!(!game.must_redraw());
}

#[test]
fn control_l_asks_for_a_redraw_until_the_next_key() {
    let mut game = game();
    assert!(!game.update(Key::Char('l'), true, false));
    assert!(game.must_redraw());
    assert_eq!(game.cursor(), Coord::new(0, 0));
    assert!(!game.update(Key::Char('l'), true, false));
    assert!(game.must_redraw());
    press(&mut game, Key::Other);
    assert!(!game.must_redraw());
    // Without the control key `l` moves the cursor.
    press(&mut game, Key::Char('l'));
    assert_eq!(game.cursor(), Coord::new(1, 0));
}

#[test]
fn markings_are_judged_after_each_key() {
    let mut game = game();
    press(&mut game, Key::Other);
    match game.solved() {
        SolvedState::Fail(failure) => {
            assert_eq!(failure.reason, FailureReason::MonsterWithoutDeadEnd);
            assert_eq!(failure.pos, Coord::new(0, 5));
        }
        other => panic!("{:?}", other),
    }
    mark_walls(&mut game, &WALLS);
    assert!(matches!(game.solved(), SolvedState::Success));
    // One wall taken away again: the room has a second entrance.
    go_to(&mut game, 1, 4);
    press(&mut game, Key::Char('q'));
    match game.solved() {
        SolvedState::Fail(failure) => {
            assert_eq!(failure.reason, FailureReason::NoTreasureRoom);
            assert_eq!(failure.pos, Coord::new(2, 2));
        }
        other => panic!("{:?}", other),
    }
}

#[test]
fn cells_marked_empty_count_as_open() {
    let mut game = game();
    mark_walls(&mut game, &WALLS);
    go_to(&mut game, 2, 4);
    press(&mut game, Key::Char('w'));
    assert_eq!(game.marking(Coord::new(2, 4)), Some(Marking::Empty));
    assert!(matches!(game.solved(), SolvedState::Success));
    assert!(!game.solution().is_wall(Coord::new(2, 4)));
    assert!(game.solution().is_wall(Coord::new(1, 4)));
}

#[test]
fn solution_view_reads_the_markings() {
    let mut game = game();
    mark_walls(&mut game, &WALLS);
    {
        let view = game.solution();
        for (y, row) in WALLS.iter().enumerate() {
            for (x, ch) in row.chars().enumerate() {
                assert_eq!(view.is_wall(Coord::new(x as u32, y as u32)), ch == '#');
            }
        }
        assert!(!view.is_wall(Coord::new(5, 0)));
        assert!(!view.is_wall(Coord::new(0, 6)));
        assert!(game.level().puzzle().check_solution(&view).is_ok());
    }
    go_to(&mut game, 1, 4);
    press(&mut game, Key::Char('q'));
    let failure = game.level().puzzle().check_solution(&game.solution()).unwrap_err();
    assert_eq!(failure.reason, FailureReason::NoTreasureRoom);
    assert_eq!(failure.pos, Coord::new(2, 2));
}

#[test]
fn walls_are_counted_by_column_and_row() {
    let mut game = game();
    let (columns, rows) = game.col_row_wall_counts();
    assert_eq!(columns, vec![0; 5]);
    assert_eq!(rows, vec![0; 6]);
    mark_walls(&mut game, &WALLS);
    let (columns, rows) = game.col_row_wall_counts();
    assert_eq!(columns, vec![5, 2, 1, 2, 5]);
    assert_eq!(rows, vec![5, 2, 2, 2, 4, 0]);
    // A cell marked empty is no wall.
    go_to(&mut game, 2, 4);
    press(&mut game, Key::Char('w'));
    let (columns, rows) = game.col_row_wall_counts();
    assert_eq!(columns, vec![5, 2, 1, 2, 5]);
    assert_eq!(rows, vec![5, 2, 2, 2, 4, 0]);
}

#[test]
fn hint_is_met_exceeded_or_short() {
    assert_eq!(hint_state(3, 3), HintState::Met);
    assert_eq!(hint_state(4, 3), HintState::Exceeded);
    assert_eq!(hint_state(2, 3), HintState::Short);
    assert_eq!(hint_state(0, 0), HintState::Met);
    // The count is compared as a byte.
    assert_eq!(hint_state(256, 0), HintState::Met);
    assert_eq!(hint_state(257, 3), HintState::Short);
    assert_eq!(hint_state(511, 9), HintState::Exceeded);
}

#[test]
fn fixed_tile_is_shown_before_a_marking() {
    let mut game = game();
    assert_eq!(game.shown(Coord::new(2, 2)), Shown::Fixed(Tile::TreasureChest));
    assert_eq!(game.shown(Coord::new(0, 5)), Shown::Fixed(Tile::Monster));
    assert_eq!(game.shown(Coord::new(0, 0)), Shown::Blank);
    press(&mut game, Key::Char('q'));
    assert_eq!(game.shown(Coord::new(0, 0)), Shown::Marked(Marking::Wall));
    press(&mut game, Key::Right);
    press(&mut game, Key::Char('w'));
    assert_eq!(game.shown(Coord::new(1, 0)), Shown::Marked(Marking::Empty));
    assert_eq!(game.shown(Coord::new(9, 9)), Shown::Blank);
}

#[test]
fn try_update_does_what_update_does() {
    let mut game = game();
    assert_eq!(game.try_update(Key::Right, false, false), Some(false));
    assert_eq!(game.cursor(), Coord::new(1, 0));
    assert_eq!(game.try_update(Key::Char('q'), false, false), Some(false));
    assert_eq!(game.marking(Coord::new(1, 0)), Some(Marking::Wall));
    assert!(matches!(game.solved(), SolvedState::Fail(_)));
    assert_eq!(game.try_update(Key::Char('c'), true, false), Some(true));
}

#[test]
fn game_on_a_board_without_cells() {
    let mut game = Game::new(parse_to_level("empty\n---\n ").unwrap());
    assert_eq!(game.cursor(), Coord::new(0, 0));
    assert!(!press(&mut game, Key::Char('q')));
    assert_eq!(game.marking(Coord::new(0, 0)), None);
    assert!(matches!(game.solved(), SolvedState::Success));
    // A jump to the start of a line stays where it is.
    assert_eq!(game.try_update(Key::Left, false, true), Some(false));
    assert_eq!(game.try_update(Key::Up, false, true), Some(false));
    assert_eq!(game.cursor(), Coord::new(0, 0));
    // Any other move has nowhere to go and is not taken.
    for key in [Key::Left, Key::Right, Key::Up, Key::Down, Key::Char('h'), Key::Char('J')] {
        assert_eq!(game.try_update(key, false, false), None);
        assert_eq!(game.cursor(), Coord::new(0, 0));
    }
    assert_eq!(game.try_update(Key::Right, false, true), None);
    assert_eq!(game.try_update(Key::Down, false, true), None);
    // Keys that do not move the cursor are taken as ever.
    assert_eq!(game.try_update(Key::Char('l'), true, false), Some(false));
    assert!(game.must_redraw());
    assert_eq!(game.try_update(Key::Char('c'), true, false), Some(true));
    let (columns, rows) = game.col_row_wall_counts();
    assert!(columns.is_empty());
    assert!(rows.is_empty());
}
