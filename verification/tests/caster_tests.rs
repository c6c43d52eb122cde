use raycaster::caster::cast_ray;
use raycaster::fixed::FP;
use raycaster::maze::Maze;

fn bordered(width: usize, height: usize, bs: usize) -> Maze {
    let mut grid: Vec<Vec<char>> = Vec::new();
    for j in 0..height {
        let mut row = Vec::new();
        for i in 0..width {
            if i == 0 || j == 0 || i == width - 1 || j == height - 1 {
                row.push('#');
            } else {
                row.push(' ');
            }
        }
        grid.push(row);
    }
    Maze::new(grid, bs).unwrap()
}

#[test]
fn center_cast_reaches_boundary_face() {
    // a 5x5 map bordered by '#', observer at the exact center, heading +x:
    // the boundary face is one and a half cells away
    let m = bordered(5, 5, 100);
    let pos = 250 * FP;
    let hit = cast_ray(&m, pos, pos, FP, 0);
    assert_eq!(hit.distance, 150 * FP);
    assert_eq!(hit.tile, '#');
    assert_eq!(hit.side, 0);
    assert_eq!(hit.cell_x, 4);
    assert_eq!(hit.cell_y, 2);
    assert_eq!(hit.wall_x, FP / 2);
}

#[test]
fn vertical_ray_hits_horizontal_side() {
    let m = bordered(5, 5, 100);
    let pos = 250 * FP;
    let hit = cast_ray(&m, pos, pos, 0, FP);
    assert_eq!(hit.side, 1);
    assert_eq!(hit.tile, '#');
    assert_eq!(hit.distance, 150 * FP);
}

#[test]
fn negative_axis_rays() {
    let m = bordered(5, 5, 100);
    let pos = 250 * FP;
    let left = cast_ray(&m, pos, pos, -FP, 0);
    assert_eq!(left.side, 0);
    assert_eq!(left.tile, '#');
    assert_eq!(left.distance, 150 * FP);
    let up = cast_ray(&m, pos, pos, 0, -FP);
    assert_eq!(up.side, 1);
    assert_eq!(up.distance, 150 * FP);
}

#[test]
fn any_angle_returns_valid_hit() {
    let m = bordered(5, 5, 100);
    let pos = 250 * FP;
    // a spread of direction vectors, axis-aligned and diagonal
    let dirs = [
        (46341i64, 46341i64),
        (-46341, 46341),
        (46341, -46341),
        (-46341, -46341),
        (60000, 20000),
        (-1, FP),
        (FP, -1),
    ];
    for &(dx, dy) in dirs.iter() {
        let hit = cast_ray(&m, pos, pos, dx, dy);
        assert!(hit.side == 0 || hit.side == 1);
        assert!(hit.distance >= 0);
        assert!(hit.wall_x >= 0 && hit.wall_x < FP);
        assert_eq!(hit.tile, '#');
    }
}

#[test]
fn distance_grows_as_boundary_moves_away() {
    // the same ray in maps whose far wall sits farther away: the returned
    // perpendicular distance never decreases
    let pos = 250 * FP;
    let mut last = 0;
    for w in [5usize, 6, 9, 17] {
        let m = bordered(w, 5, 100);
        let hit = cast_ray(&m, pos, pos, FP, 0);
        assert!(hit.distance >= last);
        last = hit.distance;
    }
    // and the exact values follow the perpendicular formula
    let m7 = bordered(7, 5, 100);
    let hit7 = cast_ray(&m7, pos, pos, FP, 0);
    assert_eq!(hit7.distance, 350 * FP);
}

#[test]
fn observer_in_wall_cell_still_terminates() {
    // degenerate origin (inside a wall cell): still a finite, valid hit
    let m = bordered(5, 5, 100);
    let hit = cast_ray(&m, 50 * FP, 50 * FP, FP, 0);
    assert!(hit.side == 0 || hit.side == 1);
    assert!(hit.distance >= 0);
}

#[test]
fn equal_inputs_give_equal_hits() {
    let m = bordered(7, 6, 128);
    let pos_x = 300 * FP;
    let pos_y = 260 * FP;
    let a = cast_ray(&m, pos_x, pos_y, 46341, -33000);
    let b = cast_ray(&m, pos_x, pos_y, 46341, -33000);
    assert_eq!(a.distance, b.distance);
    assert_eq!(a.tile, b.tile);
    assert_eq!(a.side, b.side);
    assert_eq!(a.wall_x, b.wall_x);
    assert_eq!(a.cell_x, b.cell_x);
    assert_eq!(a.cell_y, b.cell_y);
}

#[test]
fn interior_wall_stops_the_ray_first() {
    // an obstacle between the observer and the boundary is the hit, not
    // the boundary behind it
    let rows = ["#######", "#  1  #", "#######"];
    let grid = rows.iter().map(|r| r.chars().collect()).collect();
    let m = raycaster::maze::Maze::new(grid, 100).unwrap();
    let hit = cast_ray(&m, 150 * FP, 150 * FP, FP, 0);
    assert_eq!(hit.tile, '1');
    assert_eq!(hit.cell_x, 3);
    assert_eq!(hit.distance, 150 * FP);
}
