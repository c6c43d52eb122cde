use raycaster::color::Color;
use raycaster::fixed::FP;
use raycaster::framebuffer::Framebuffer;
use raycaster::maze::Maze;
use raycaster::minimap::{draw_line_pixels, draw_minimap, minimap_cell_color};
use raycaster::player::Player;

const WHITE: Color = Color { r: 255, g: 255, b: 255, a: 255 };
const DARK_GREY: Color = Color { r: 80, g: 80, b: 80, a: 255 };
const YELLOW: Color = Color { r: 253, g: 249, b: 0, a: 255 };

fn cell_room() -> Maze {
    let rows = ["###", "# #", "###"];
    let grid = rows.iter().map(|r| r.chars().collect()).collect();
    Maze::new(grid, 100).unwrap()
}

#[test]
fn cell_colors_follow_the_wall_predicate() {
    assert_eq!(minimap_cell_color('#'), WHITE);
    assert_eq!(minimap_cell_color('1'), WHITE);
    assert_eq!(minimap_cell_color('?'), WHITE);
    assert_eq!(minimap_cell_color(' '), DARK_GREY);
    assert_eq!(minimap_cell_color('S'), DARK_GREY);
    assert_eq!(minimap_cell_color('E'), DARK_GREY);
    assert_eq!(minimap_cell_color('e'), DARK_GREY);
}

#[test]
fn overlay_draws_cells_observer_and_heading() {
    let m = cell_room();
    let p = Player::new(150 * FP, 150 * FP);
    let mut fb = Framebuffer::new(100, 100, Color::new(0, 0, 0, 255));
    draw_minimap(&mut fb, &m, &p, FP, 0);
    // the 3x3 map at scale 4 anchors at x = 100 - 12 - 8 = 80, y = 8;
    // cell (0,0) is a wall block
    assert_eq!(fb.get_pixel(80, 8), WHITE);
    assert_eq!(fb.get_pixel(83, 11), WHITE);
    // cell (1,1) is passable
    assert_eq!(fb.get_pixel(84, 12), DARK_GREY);
    // the observer square sits at the scaled position (86, 14)
    assert_eq!(fb.get_pixel(86, 14), YELLOW);
    // and the heading segment extends along +x from there
    assert_eq!(fb.get_pixel(92, 14), YELLOW);
}

#[test]
fn line_plots_endpoints_and_skips_outside() {
    let mut fb = Framebuffer::new(10, 10, Color::new(0, 0, 0, 255));
    draw_line_pixels(&mut fb, 2, 2, 6, 4, YELLOW);
    assert_eq!(fb.get_pixel(2, 2), YELLOW);
    assert_eq!(fb.get_pixel(6, 4), YELLOW);
    // a line that starts outside the buffer changes nothing out there and
    // still paints the in-bounds part
    let mut fb2 = Framebuffer::new(10, 10, Color::new(0, 0, 0, 255));
    draw_line_pixels(&mut fb2, -3, 5, 4, 5, YELLOW);
    assert_eq!(fb2.get_pixel(0, 5), YELLOW);
    assert_eq!(fb2.get_pixel(4, 5), YELLOW);
    assert_eq!(fb2.get_pixel(5, 5), Color::new(0, 0, 0, 255));
}

#[test]
fn horizontal_and_diagonal_lines_are_contiguous() {
    let mut fb = Framebuffer::new(20, 20, Color::new(0, 0, 0, 255));
    draw_line_pixels(&mut fb, 0, 0, 7, 7, YELLOW);
    for i in 0..8 {
        assert_eq!(fb.get_pixel(i, i), YELLOW);
    }
}

#[test]
fn overlay_leaves_far_pixels_untouched() {
    let m = cell_room();
    let p = Player::new(150 * FP, 150 * FP);
    let mut fb = Framebuffer::new(100, 100, Color::new(7, 7, 7, 255));
    draw_minimap(&mut fb, &m, &p, FP, 0);
    // far from the minimap corner, the marker and the heading segment
    assert_eq!(fb.get_pixel(10, 90), Color::new(7, 7, 7, 255));
    assert_eq!(fb.get_pixel(50, 50), Color::new(7, 7, 7, 255));
}
