use raycaster::color::Color;
use raycaster::fixed::FP;
use raycaster::framebuffer::Framebuffer;
use raycaster::maze::Maze;
use raycaster::player::Player;
use raycaster::render::render3d;
use raycaster::textures::{Image, TextureManager};

fn cell_room() -> Maze {
    let rows = ["###", "# #", "###"];
    let grid = rows.iter().map(|r| r.chars().collect()).collect();
    Maze::new(grid, 100).unwrap()
}

const LIGHT_GREY: Color = Color { r: 200, g: 200, b: 200, a: 255 };
const DARKENED_GREY: Color = Color { r: 140, g: 140, b: 140, a: 255 };

#[test]
fn untextured_tile_renders_flat_grey() {
    let m = cell_room();
    let p = Player::new(150 * FP, 150 * FP);
    let mut fb = Framebuffer::new(4, 4, Color::new(0, 0, 0, 255));
    let tm = TextureManager::new(Vec::new());
    let dirs = vec![(FP, 0i64); 4];
    // the slice covers the whole 4-pixel column: every row is flat grey
    render3d(&mut fb, &m, &p, &dirs, 2 * FP, &tm);
    for y in 0..4 {
        assert_eq!(fb.get_pixel(0, y), LIGHT_GREY);
        assert_eq!(fb.get_pixel(3, y), LIGHT_GREY);
    }
}

#[test]
fn side_hit_is_darkened_and_never_brighter() {
    let m = cell_room();
    let p = Player::new(150 * FP, 150 * FP);
    let tm = TextureManager::new(Vec::new());

    let mut fb0 = Framebuffer::new(4, 4, Color::new(0, 0, 0, 255));
    render3d(&mut fb0, &m, &p, &vec![(FP, 0i64); 4], 2 * FP, &tm);
    let front = fb0.get_pixel(0, 2);

    let mut fb1 = Framebuffer::new(4, 4, Color::new(0, 0, 0, 255));
    render3d(&mut fb1, &m, &p, &vec![(0i64, FP); 4], 2 * FP, &tm);
    let side = fb1.get_pixel(0, 2);

    assert_eq!(front, LIGHT_GREY);
    assert_eq!(side, DARKENED_GREY);
    assert!(side.r <= front.r && side.g <= front.g && side.b <= front.b);
}

#[test]
fn sky_and_floor_fill_rows_outside_the_slice() {
    let m = cell_room();
    let p = Player::new(150 * FP, 150 * FP);
    let tm = TextureManager::new(Vec::new());
    let mut fb = Framebuffer::new(4, 4, Color::new(0, 0, 0, 255));
    // a small projection distance keeps the slice to the middle rows
    render3d(&mut fb, &m, &p, &vec![(FP, 0i64); 4], FP / 4, &tm);
    assert_eq!(fb.get_pixel(0, 0), Color::new(60, 80, 140, 255));
    assert_eq!(fb.get_pixel(0, 3), Color::new(40, 40, 40, 255));
}

#[test]
fn textured_tile_samples_the_texture() {
    let m = cell_room();
    let p = Player::new(150 * FP, 150 * FP);
    // a solid red 2x2 texture for the wall symbol
    let img = Image { width: 2, height: 2, data: vec![255, 0, 0, 255].repeat(4) };
    let tm = TextureManager::new(vec![('#', Some(img))]);
    let mut fb = Framebuffer::new(4, 4, Color::new(0, 0, 0, 255));
    render3d(&mut fb, &m, &p, &vec![(FP, 0i64); 4], 2 * FP, &tm);
    assert_eq!(fb.get_pixel(0, 2), Color::new(255, 0, 0, 255));
    // the same wall seen across a horizontal grid line is darkened
    let mut fb2 = Framebuffer::new(4, 4, Color::new(0, 0, 0, 255));
    render3d(&mut fb2, &m, &p, &vec![(0i64, FP); 4], 2 * FP, &tm);
    assert_eq!(fb2.get_pixel(0, 2), Color::new(178, 0, 0, 255));
}
