use maze_chase::direction::Direction;
use maze_chase::maze::{CellKind, Maze, MazeError, MAX_SIDE};
use maze_chase::vec2::{wrap_axis, Vec2};

fn rows(lines: &[&str]) -> Vec<String> {
    lines.iter().map(|line| line.to_string()).collect()
}

fn maze(lines: &[&str]) -> Maze {
    Maze::new(lines[0].chars().count(), lines.len(), &rows(lines)).unwrap()
}

fn open_torus() -> Maze {
    maze(&["     ", "     ", "     ", "     ", "     "])
}

#[test]
fn vec2_new_keeps_both_coordinates() {
    let v = Vec2::new(3, -4);
    assert_eq!(v.x, 3);
    assert_eq!(v.y, -4);
}

#[test]
fn vec2_add_changes_the_receiver() {
    let mut v = Vec2::new(3, 5);
    v.add(&Vec2::new(-1, 2));
    assert_eq!(v, Vec2::new(2, 7));
}

#[test]
fn vec2_add_new_and_subtract_new_leave_the_operands() {
    let a = Vec2::new(9, 13);
    let b = Vec2::new(1, -1);
    assert_eq!(a.add_new(&b), Vec2::new(10, 12));
    assert_eq!(a.subtract_new(&b), Vec2::new(8, 14));
    assert_eq!(a, Vec2::new(9, 13));
    assert_eq!(b, Vec2::new(1, -1));
}

#[test]
fn vec2_reaches_the_ends_of_its_range() {
    assert_eq!(Vec2::new(100, -100).add_new(&Vec2::new(27, -28)), Vec2::new(127, -128));
    assert_eq!(Vec2::new(-1, 0).subtract_new(&Vec2::new(127, 127)), Vec2::new(-128, -127));
}

#[test]
fn wrap_axis_is_the_euclidean_remainder() {
    assert_eq!(wrap_axis(0, 19), 0);
    assert_eq!(wrap_axis(18, 19), 18);
    assert_eq!(wrap_axis(19, 19), 0);
    assert_eq!(wrap_axis(20, 19), 1);
    assert_eq!(wrap_axis(-1, 19), 18);
    assert_eq!(wrap_axis(-19, 19), 0);
    assert_eq!(wrap_axis(-20, 19), 18);
    assert_eq!(wrap_axis(-54, 19), 3);
    assert_eq!(wrap_axis(65025, 127), 1);
    assert_eq!(wrap_axis(-65025, 127), 126);
    assert_eq!(wrap_axis(7, 1), 0);
}

#[test]
fn get_loop_position_folds_both_coordinates() {
    let mut v = Vec2::new(-1, 19);
    v.get_loop_position(19, 19);
    assert_eq!(v, Vec2::new(18, 0));
    let mut far = Vec2::new(-128, 127);
    far.get_loop_position(5, 7);
    assert_eq!(far, Vec2::new(2, 1));
    let mut inside = Vec2::new(4, 6);
    inside.get_loop_position(5, 7);
    assert_eq!(inside, Vec2::new(4, 6));
}

#[test]
fn is_inside_maze_tells_cells_from_other_points() {
    assert!(Vec2::new(0, 0).is_inside_maze(8, 8));
    assert!(Vec2::new(7, 7).is_inside_maze(8, 8));
    assert!(!Vec2::new(8, 0).is_inside_maze(8, 8));
    assert!(!Vec2::new(0, 8).is_inside_maze(8, 8));
    assert!(!Vec2::new(-1, 0).is_inside_maze(8, 8));
    assert!(!Vec2::new(0, -1).is_inside_maze(8, 8));
    assert!(!Vec2::new(0, 0).is_inside_maze(0, 8));
}

#[test]
fn directions_keep_their_order_and_steps() {
    assert_eq!(Direction::from_index(0), Some(Direction::Up));
    assert_eq!(Direction::from_index(1), Some(Direction::Left));
    assert_eq!(Direction::from_index(2), Some(Direction::Down));
    assert_eq!(Direction::from_index(3), Some(Direction::Right));
    assert_eq!(Direction::from_index(4), None);
    assert_eq!(Direction::Up.delta(), Vec2::new(0, -1));
    assert_eq!(Direction::Left.delta(), Vec2::new(-1, 0));
    assert_eq!(Direction::Down.delta(), Vec2::new(0, 1));
    assert_eq!(Direction::Right.delta(), Vec2::new(1, 0));
    for i in 0..4 {
        assert_eq!(Direction::from_index(i).unwrap().index(), i);
    }
}

#[test]
fn directions_turn_in_quarters() {
    assert_eq!(Direction::Up.turn(1), Direction::Left);
    assert_eq!(Direction::Right.turn(1), Direction::Up);
    assert_eq!(Direction::Left.turn(2), Direction::Right);
    assert_eq!(Direction::Down.turn(3), Direction::Left);
    assert_eq!(Direction::Down.turn(4), Direction::Down);
    assert_eq!(Direction::Up.turn(255), Direction::Right);
}

#[test]
fn symbols_become_cells() {
    assert_eq!(CellKind::from_symbol('#'), CellKind::Wall);
    assert_eq!(CellKind::from_symbol('o'), CellKind::Collectible);
    assert_eq!(CellKind::from_symbol(' '), CellKind::Empty);
    assert_eq!(CellKind::from_symbol('x'), CellKind::Empty);
}

#[test]
fn maze_reads_its_layout_row_by_row() {
    let m = maze(&["#o ", " #o"]);
    assert_eq!(m.width(), 3);
    assert_eq!(m.height(), 2);
    assert_eq!(m.cell_at(Vec2::new(0, 0)), CellKind::Wall);
    assert_eq!(m.cell_at(Vec2::new(1, 0)), CellKind::Collectible);
    assert_eq!(m.cell_at(Vec2::new(2, 0)), CellKind::Empty);
    assert_eq!(m.cell_at(Vec2::new(0, 1)), CellKind::Empty);
    assert_eq!(m.cell_at(Vec2::new(1, 1)), CellKind::Wall);
    assert_eq!(m.cell_at(Vec2::new(2, 1)), CellKind::Collectible);
}

#[test]
fn maze_counts_characters_not_bytes() {
    let m = Maze::new(3, 1, &rows(&["#é "])).unwrap();
    assert_eq!(m.cell_at(Vec2::new(0, 0)), CellKind::Wall);
    assert_eq!(m.cell_at(Vec2::new(1, 0)), CellKind::Empty);
}

#[test]
fn maze_refuses_a_zero_side() {
    assert_eq!(Maze::new(0, 3, &rows(&["", "", ""])).err(), Some(MazeError::Empty));
    assert_eq!(Maze::new(3, 0, &rows(&[])).err(), Some(MazeError::Empty));
}

#[test]
fn maze_refuses_a_side_beyond_the_coordinates() {
    let wide = "#".repeat(MAX_SIDE + 1);
    assert_eq!(Maze::new(MAX_SIDE + 1, 1, &vec![wide]).err(), Some(MazeError::TooLarge));
    let tall: Vec<String> = (0..MAX_SIDE + 1).map(|_| "#".to_string()).collect();
    assert_eq!(Maze::new(1, MAX_SIDE + 1, &tall).err(), Some(MazeError::TooLarge));
}

#[test]
fn maze_of_the_longest_sides_is_accepted() {
    let row = " ".repeat(MAX_SIDE);
    let table: Vec<String> = (0..MAX_SIDE).map(|_| row.clone()).collect();
    let m = Maze::new(MAX_SIDE, MAX_SIDE, &table).unwrap();
    assert_eq!(m.wrap(Vec2::new(-1, -1)), Vec2::new(126, 126));
    assert_eq!(m.cell_at(Vec2::new(126, 126)), CellKind::Empty);
}

#[test]
fn maze_refuses_a_wrong_number_of_rows() {
    assert_eq!(
        Maze::new(2, 3, &rows(&["  ", "  "])).err(),
        Some(MazeError::RowCount { expected: 3, found: 2 })
    );
    assert_eq!(
        Maze::new(2, 1, &rows(&["  ", "  "])).err(),
        Some(MazeError::RowCount { expected: 1, found: 2 })
    );
}

#[test]
fn maze_names_the_first_ragged_row() {
    assert_eq!(
        Maze::new(3, 4, &rows(&["###", "## ", "####", "#"])).err(),
        Some(MazeError::RowLength { row: 2, expected: 3, found: 4 })
    );
    assert_eq!(
        Maze::new(3, 2, &rows(&["", "###"])).err(),
        Some(MazeError::RowLength { row: 0, expected: 3, found: 0 })
    );
}

#[test]
fn maze_judges_the_sides_before_the_rows() {
    assert_eq!(Maze::new(0, 200, &rows(&["#"])).err(), Some(MazeError::Empty));
    assert_eq!(Maze::new(200, 1, &rows(&["#", "#"])).err(), Some(MazeError::TooLarge));
    assert_eq!(
        Maze::new(2, 1, &rows(&["#", "#"])).err(),
        Some(MazeError::RowCount { expected: 1, found: 2 })
    );
}

#[test]
fn cell_at_wraps_before_it_looks() {
    let m = maze(&["#o ", " #o"]);
    assert_eq!(m.cell_at(Vec2::new(3, 0)), CellKind::Wall);
    assert_eq!(m.cell_at(Vec2::new(-1, 0)), CellKind::Empty);
    assert_eq!(m.cell_at(Vec2::new(1, -1)), CellKind::Wall);
    assert_eq!(m.cell_at(Vec2::new(-2, 2)), CellKind::Collectible);
    assert_eq!(m.cell_at(Vec2::new(127, -128)), m.cell_at(Vec2::new(127 % 3, 0)));
}

#[test]
fn walls_alone_cannot_be_walked() {
    let m = maze(&["#o "]);
    assert!(!m.is_walkable(Vec2::new(0, 0)));
    assert!(m.is_walkable(Vec2::new(1, 0)));
    assert!(m.is_walkable(Vec2::new(2, 0)));
    assert!(!m.is_walkable(Vec2::new(3, 0)));
}

#[test]
fn moving_east_from_the_last_column_lands_on_column_zero() {
    let m = open_torus();
    for y in 0..5 {
        assert_eq!(m.step(Vec2::new(4, y), Direction::Right), Vec2::new(0, y));
    }
}

#[test]
fn moving_north_from_row_zero_lands_on_the_last_row() {
    let m = open_torus();
    for x in 0..5 {
        assert_eq!(m.step(Vec2::new(x, 0), Direction::Up), Vec2::new(x, 4));
    }
}

#[test]
fn moving_west_and_south_wrap_too() {
    let m = maze(&["   ", "   "]);
    assert_eq!(m.step(Vec2::new(0, 1), Direction::Left), Vec2::new(2, 1));
    assert_eq!(m.step(Vec2::new(1, 1), Direction::Down), Vec2::new(1, 0));
    assert_eq!(m.step(Vec2::new(1, 0), Direction::Down), Vec2::new(1, 1));
}

#[test]
fn neighbors_come_up_left_down_right() {
    let m = open_torus();
    assert_eq!(
        m.neighbors(Vec2::new(2, 2)),
        [Vec2::new(2, 1), Vec2::new(1, 2), Vec2::new(2, 3), Vec2::new(3, 2)]
    );
    assert_eq!(
        m.neighbors(Vec2::new(0, 0)),
        [Vec2::new(0, 4), Vec2::new(4, 0), Vec2::new(0, 1), Vec2::new(1, 0)]
    );
    assert_eq!(
        m.neighbors(Vec2::new(4, 4)),
        [Vec2::new(4, 3), Vec2::new(3, 4), Vec2::new(4, 0), Vec2::new(0, 4)]
    );
}

#[test]
fn neighbors_on_a_single_cell_are_the_cell() {
    let m = maze(&[" "]);
    assert_eq!(m.neighbors(Vec2::new(0, 0)), [Vec2::new(0, 0); 4]);
}

#[test]
fn consume_takes_a_collectible_once() {
    let mut m = maze(&["#o ", " #o"]);
    m.consume(Vec2::new(1, 0));
    assert_eq!(m.cell_at(Vec2::new(1, 0)), CellKind::Empty);
    assert_eq!(m.cell_at(Vec2::new(2, 1)), CellKind::Collectible);
    m.consume(Vec2::new(1, 0));
    assert_eq!(m.cell_at(Vec2::new(1, 0)), CellKind::Empty);
    assert_eq!(m.cell_at(Vec2::new(2, 1)), CellKind::Collectible);
}

#[test]
fn consume_leaves_walls_and_floor() {
    let mut m = maze(&["#o ", " #o"]);
    m.consume(Vec2::new(0, 0));
    m.consume(Vec2::new(2, 0));
    assert_eq!(m.cell_at(Vec2::new(0, 0)), CellKind::Wall);
    assert_eq!(m.cell_at(Vec2::new(2, 0)), CellKind::Empty);
    assert_eq!(m.cell_at(Vec2::new(1, 0)), CellKind::Collectible);
}

#[test]
fn consume_wraps_its_position() {
    let mut m = maze(&["#o ", " #o"]);
    m.consume(Vec2::new(-1, 3));
    assert_eq!(m.cell_at(Vec2::new(2, 1)), CellKind::Empty);
    assert_eq!(m.cell_at(Vec2::new(1, 0)), CellKind::Collectible);
}

#[test]
fn a_maze_is_complete_when_no_collectible_is_left() {
    let mut m = maze(&["#o ", " #o"]);
    assert!(!m.is_complete());
    m.consume(Vec2::new(1, 0));
    assert!(!m.is_complete());
    m.consume(Vec2::new(2, 1));
    assert!(m.is_complete());
    assert!(maze(&["# "]).is_complete());
}

#[test]
fn a_duplicate_is_a_maze_of_its_own() {
    let mut m = maze(&["#o ", " #o"]);
    let copy = m.duplicate();
    m.consume(Vec2::new(1, 0));
    assert_eq!(copy.cell_at(Vec2::new(1, 0)), CellKind::Collectible);
    assert_eq!(copy.width(), 3);
    assert_eq!(copy.height(), 2);
    assert_eq!(copy.cell_at(Vec2::new(0, 0)), CellKind::Wall);
}

#[test]
fn wrap_xy_takes_wide_coordinates() {
    let m = open_torus();
    assert_eq!(m.wrap_xy(-54, 72), Vec2::new(1, 2));
    assert_eq!(m.wrap_xy(65025, -65025), Vec2::new(0, 0));
}

#[test]
fn a_fault_names_the_first_cell_missing_or_in_excess() {
    assert_eq!(MazeError::Empty.place(), None);
    assert_eq!(MazeError::TooLarge.place(), None);
    assert_eq!(MazeError::RowCount { expected: 3, found: 2 }.place(), Some((2, 0)));
    assert_eq!(MazeError::RowCount { expected: 1, found: 2 }.place(), Some((1, 0)));
    assert_eq!(MazeError::RowLength { row: 2, expected: 3, found: 4 }.place(), Some((2, 3)));
    assert_eq!(MazeError::RowLength { row: 0, expected: 3, found: 0 }.place(), Some((0, 0)));
    let fault = Maze::new(3, 4, &rows(&["###", "## ", "####", "#"])).err().unwrap();
    assert_eq!(fault.place(), Some((2, 3)));
}
