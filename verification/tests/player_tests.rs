use raycaster::fixed::FP;
use raycaster::maze::Maze;
use raycaster::player::{DEFAULT_MOVE_SPEED, DEFAULT_ROT_SPEED, Player};

fn room() -> Maze {
    // 5x5 bordered map: interior world coordinates 100..400 are passable
    let rows = ["#####", "#   #", "#   #", "#   #", "#####"];
    let grid = rows.iter().map(|r| r.chars().collect()).collect();
    Maze::new(grid, 100).unwrap()
}

#[test]
fn moving_into_a_wall_keeps_position() {
    let m = room();
    let mut p = Player::new(250 * FP, 250 * FP);
    let moved = p.try_move(&m, 50 * FP, 250 * FP);
    assert!(!moved);
    assert_eq!(p.pos_x, 250 * FP);
    assert_eq!(p.pos_y, 250 * FP);
    assert_eq!(p.prev_x, 250 * FP);
    assert_eq!(p.prev_y, 250 * FP);
}

#[test]
fn moving_into_a_passable_cell_lands_exactly_there() {
    let m = room();
    let mut p = Player::new(250 * FP, 250 * FP);
    let moved = p.try_move(&m, 160 * FP, 140 * FP);
    assert!(moved);
    assert_eq!(p.pos_x, 160 * FP);
    assert_eq!(p.pos_y, 140 * FP);
    assert_eq!(p.prev_x, 250 * FP);
    assert_eq!(p.prev_y, 250 * FP);
}

#[test]
fn negative_destination_is_a_wall() {
    let m = room();
    let mut p = Player::new(250 * FP, 250 * FP);
    assert!(!p.try_move(&m, -10, 250 * FP));
    assert_eq!(p.pos_x, 250 * FP);
}

#[test]
fn rotation_is_exact_fixed_point_arithmetic() {
    let m_dt = FP; // one second
    let mut p = Player::new(0, 0);
    p.apply_rotation(false, true, false, 0, m_dt);
    assert_eq!(p.a, DEFAULT_ROT_SPEED);
    p.apply_rotation(true, false, false, 0, m_dt);
    assert_eq!(p.a, 0);
    // left and right held together cancel
    p.apply_rotation(true, true, false, 0, m_dt);
    assert_eq!(p.a, 0);
    // a pointer drag turns by delta * rot_speed
    p.apply_rotation(false, false, true, FP, 0);
    assert_eq!(p.a, DEFAULT_ROT_SPEED);
}

#[test]
fn no_keys_means_no_movement() {
    let m = room();
    let mut p = Player::new(250 * FP, 250 * FP);
    let moved = p.apply_movement(&m, FP, 0, false, false, false, false, FP / 10);
    assert!(!moved);
    assert_eq!(p.pos_x, 250 * FP);
    assert_eq!(p.pos_y, 250 * FP);
}

#[test]
fn opposed_keys_cancel() {
    let m = room();
    let mut p = Player::new(250 * FP, 250 * FP);
    let moved = p.apply_movement(&m, FP, 0, true, true, false, false, FP / 10);
    assert!(!moved);
    assert_eq!(p.pos_x, 250 * FP);
}

#[test]
fn forward_movement_advances_along_heading() {
    let m = room();
    let mut p = Player::new(250 * FP, 250 * FP);
    let dt = FP / 10;
    let moved = p.apply_movement(&m, FP, 0, true, false, false, false, dt);
    assert!(moved);
    let step = DEFAULT_MOVE_SPEED * dt / FP;
    assert_eq!(p.pos_x, 250 * FP + step);
    assert_eq!(p.pos_y, 250 * FP);
    assert_eq!(p.prev_x, 250 * FP);
    // the per-frame travel respects the speed limit
    assert!((p.pos_x - p.prev_x).abs() <= step);
}

#[test]
fn blocked_movement_leaves_position_unchanged() {
    let m = room();
    // close to the east wall, one step would cross into it
    let mut p = Player::new(395 * FP, 250 * FP);
    let moved = p.apply_movement(&m, FP, 0, true, false, false, false, FP / 10);
    assert!(!moved);
    assert_eq!(p.pos_x, 395 * FP);
    assert_eq!(p.pos_y, 250 * FP);
}

#[test]
fn diagonal_movement_uses_the_normalized_candidate() {
    let m = room();
    let mut p = Player::new(250 * FP, 250 * FP);
    let dt = FP / 10;
    // heading +x with forward and strafe-right held: velocity (FP, FP),
    // length isqrt(2 * FP * FP) = 92681, each axis advances by exactly
    // ((FP * FP / 92681) * step) / FP
    let moved = p.apply_movement(&m, FP, 0, true, false, false, true, dt);
    assert!(moved);
    assert_eq!(p.pos_x, 250 * FP + 834061);
    assert_eq!(p.pos_y, 250 * FP + 834061);
    let step = DEFAULT_MOVE_SPEED * dt / FP;
    assert!((p.pos_x - p.prev_x).abs() <= step);
    assert!((p.pos_y - p.prev_y).abs() <= step);
}

#[test]
fn long_pointer_drags_rotate_proportionally() {
    let mut p = Player::new(0, 0);
    // a ten-pixel drag turns ten times as far as a one-pixel drag
    p.apply_rotation(false, false, true, 10 * FP, 0);
    assert_eq!(p.a, 10 * DEFAULT_ROT_SPEED);
}
