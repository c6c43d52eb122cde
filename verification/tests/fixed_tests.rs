use raycaster::color::{Color, darken};
use raycaster::fixed::isqrt;

#[test]
fn isqrt_exact_values() {
    assert_eq!(isqrt(0), 0);
    assert_eq!(isqrt(1), 1);
    assert_eq!(isqrt(3), 1);
    assert_eq!(isqrt(4), 2);
    assert_eq!(isqrt(8), 2);
    assert_eq!(isqrt(9), 3);
    assert_eq!(isqrt(1_000_000_000_000_000_000), 1_000_000_000);
    assert_eq!(isqrt(u64::MAX), 0xffff_ffff);
}

#[test]
fn darken_scales_each_channel_by_seven_tenths() {
    let c = darken(Color::new(200, 100, 10, 255));
    assert_eq!(c, Color::new(140, 70, 7, 255));
    // the alpha channel is kept
    let d = darken(Color::new(255, 255, 255, 128));
    assert_eq!(d, Color::new(178, 178, 178, 128));
}

#[test]
fn darken_never_brightens_any_channel() {
    for v in [0u8, 1, 9, 10, 99, 128, 200, 255] {
        let c = darken(Color::new(v, v, v, v));
        assert!(c.r <= v && c.g <= v && c.b <= v);
        assert_eq!(c.a, v);
    }
}
