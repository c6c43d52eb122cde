use raycaster::color::Color;
use raycaster::textures::{Image, TextureManager, sample_pixel};

fn tiny_image() -> Image {
    // 2x2, RGBA bytes 0..16
    let data: Vec<u8> = (0..16).collect();
    Image { width: 2, height: 2, data }
}

#[test]
fn sample_reads_exact_texel() {
    let img = tiny_image();
    assert_eq!(sample_pixel(&img, 0, 0), Color::new(0, 1, 2, 3));
    assert_eq!(sample_pixel(&img, 1, 0), Color::new(4, 5, 6, 7));
    assert_eq!(sample_pixel(&img, 0, 1), Color::new(8, 9, 10, 11));
    assert_eq!(sample_pixel(&img, 1, 1), Color::new(12, 13, 14, 15));
}

#[test]
fn sample_clamps_out_of_range() {
    let img = tiny_image();
    assert_eq!(sample_pixel(&img, 9, 0), Color::new(4, 5, 6, 7));
    assert_eq!(sample_pixel(&img, 7, 9), Color::new(12, 13, 14, 15));
}

#[test]
fn keeps_wellformed_source() {
    let tm = TextureManager::new(vec![('1', Some(tiny_image()))]);
    assert!(tm.has_image('1'));
    assert_eq!(tm.image_size('1'), Some((2, 2)));
    assert_eq!(tm.get_pixel_color('1', 1, 1), Some(Color::new(12, 13, 14, 15)));
}

#[test]
fn missing_source_degrades_to_placeholder() {
    let tm = TextureManager::new(vec![('1', None)]);
    assert!(tm.has_image('1'));
    assert_eq!(tm.image_size('1'), Some((128, 128)));
    assert_eq!(tm.get_pixel_color('1', 0, 0), Some(Color::new(128, 128, 128, 255)));
    assert_eq!(tm.get_pixel_color('1', 127, 127), Some(Color::new(128, 128, 128, 255)));
}

#[test]
fn malformed_source_degrades_to_placeholder() {
    let bad = Image { width: 2, height: 2, data: vec![0, 1, 2] };
    let tm = TextureManager::new(vec![('w', Some(bad))]);
    assert_eq!(tm.image_size('w'), Some((128, 128)));
}

#[test]
fn unregistered_symbol_has_no_image() {
    let tm = TextureManager::new(vec![('1', Some(tiny_image())), (' ', None)]);
    assert!(!tm.has_image('Z'));
    assert_eq!(tm.image_size('Z'), None);
    assert_eq!(tm.get_pixel_color('Z', 0, 0), None);
}
