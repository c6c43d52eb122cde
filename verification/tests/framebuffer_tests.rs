use raycaster::color::Color;
use raycaster::framebuffer::Framebuffer;

#[test]
fn starts_filled_with_background() {
    let fb = Framebuffer::new(3, 2, Color::new(9, 8, 7, 255));
    for y in 0..2 {
        for x in 0..3 {
            assert_eq!(fb.get_pixel(x, y), Color::new(9, 8, 7, 255));
        }
    }
}

#[test]
fn set_pixel_writes_the_current_color() {
    let mut fb = Framebuffer::new(3, 3, Color::new(0, 0, 0, 255));
    fb.set_current_color(Color::new(1, 2, 3, 4));
    fb.set_pixel(2, 1);
    assert_eq!(fb.get_pixel(2, 1), Color::new(1, 2, 3, 4));
    assert_eq!(fb.get_pixel(1, 2), Color::new(0, 0, 0, 255));
}

#[test]
fn out_of_bounds_writes_are_ignored() {
    let mut fb = Framebuffer::new(2, 2, Color::new(0, 0, 0, 255));
    fb.set_current_color(Color::new(255, 0, 0, 255));
    fb.set_pixel(2, 0);
    fb.set_pixel(0, 2);
    fb.set_pixel(9, 9);
    for y in 0..2 {
        for x in 0..2 {
            assert_eq!(fb.get_pixel(x, y), Color::new(0, 0, 0, 255));
        }
    }
}

#[test]
fn clear_restores_the_background() {
    let mut fb = Framebuffer::new(2, 2, Color::new(5, 5, 5, 255));
    fb.set_current_color(Color::new(200, 200, 200, 255));
    fb.set_pixel(0, 0);
    fb.set_pixel(1, 1);
    fb.clear();
    for y in 0..2 {
        for x in 0..2 {
            assert_eq!(fb.get_pixel(x, y), Color::new(5, 5, 5, 255));
        }
    }
}
