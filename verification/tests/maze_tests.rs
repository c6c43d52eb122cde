use raycaster::maze::{Maze, is_wall_ch};

fn grid_of(rows: &[&str]) -> Vec<Vec<char>> {
    rows.iter().map(|r| r.chars().collect()).collect()
}

#[test]
fn builds_a_rectangular_map() {
    let m = Maze::new(grid_of(&["###", "# #", "###"]), 100).unwrap();
    assert_eq!(m.width, 3);
    assert_eq!(m.height, 3);
    assert_eq!(m.block_size, 100);
}

#[test]
fn rejects_ragged_rows() {
    assert!(Maze::new(grid_of(&["###", "##", "###"]), 100).is_none());
}

#[test]
fn rejects_empty_grid() {
    assert!(Maze::new(Vec::new(), 100).is_none());
    assert!(Maze::new(grid_of(&[""]), 100).is_none());
}

#[test]
fn rejects_zero_block_size() {
    assert!(Maze::new(grid_of(&["#"]), 0).is_none());
}

#[test]
fn out_of_bounds_reads_boundary_wall() {
    let m = Maze::new(grid_of(&["# #"]), 100).unwrap();
    assert_eq!(m.tile(-1, 0), '#');
    assert_eq!(m.tile(0, 1), '#');
    assert_eq!(m.tile(3, 0), '#');
    assert_eq!(m.tile(1, 0), ' ');
    assert!(m.is_wall(-5, -5));
    assert!(!m.is_wall(1, 0));
}

#[test]
fn classifies_symbols() {
    assert!(!is_wall_ch(' '));
    assert!(!is_wall_ch('S'));
    assert!(!is_wall_ch('E'));
    assert!(!is_wall_ch('e'));
    assert!(is_wall_ch('#'));
    assert!(is_wall_ch('1'));
    // unrecognized symbols are walls
    assert!(is_wall_ch('q'));
    assert!(is_wall_ch('0'));
}
