use picker_core::inputs::{commit_number, format_value, hex_field_shows, live_hex, triple_text};
use picker_core::math::UNIT;
use picker_core::pointer::{slider_value_at, wheel_value_at};
use picker_core::raster::{
    checker_cell, checker_grid, exact_key, fixed_key, isqrt, rasterize_alpha_gradient,
    rasterize_brightness_gradient, rasterize_wheel_base, size_key, wheel_key, wheel_overlay_alpha,
    RasterCache, RasterKind,
};

const U: u64 = UNIT;

#[test]
fn alpha_gradient_bytes() {
    let buf = rasterize_alpha_gradient(3, 2, U, 0, 0);
    assert_eq!(buf.len(), 24);
    assert_eq!(&buf[0..12], &[255, 0, 0, 255, 255, 0, 0, 128, 255, 0, 0, 0]);
    assert_eq!(&buf[12..24], &buf[0..12]);
}

#[test]
fn brightness_gradient_bytes() {
    let buf = rasterize_brightness_gradient(3, 1, U, U / 2, 0);
    assert_eq!(buf, vec![255, 128, 0, 255, 128, 64, 0, 255, 0, 0, 0, 255]);
}

#[test]
fn wheel_bytes() {
    let buf = rasterize_wheel_base(64, 64);
    assert_eq!(buf.len(), 64 * 64 * 4);
    let at = |px: usize, py: usize| {
        let o = (py * 64 + px) * 4;
        (buf[o], buf[o + 1], buf[o + 2], buf[o + 3])
    };
    assert_eq!(at(0, 0), (0, 0, 0, 0));
    assert_eq!(at(60, 32), (255, 9, 4, 255));
    assert_eq!(at(32, 60), (134, 255, 4, 255));
    assert_eq!(at(3, 32), (4, 255, 251, 255));
    assert_eq!(at(31, 31), (249, 250, 255, 255));
}

#[test]
fn integer_square_root() {
    assert_eq!(isqrt(0), 0);
    assert_eq!(isqrt(15), 3);
    assert_eq!(isqrt(16), 4);
    assert_eq!(isqrt(1 << 80), 1 << 40);
}

#[test]
fn cache_reuses_unchanged_key() {
    let mut cache = RasterCache::new(RasterKind::Alpha, 1);
    let k = exact_key(U, U / 2, 0, 8, 4);
    let t1 = cache.request(k);
    let first = cache.pixels().clone();
    assert_eq!(first.len(), 8 * 4 * 4);
    let t2 = cache.request(k);
    assert_eq!(t1, t2);
    assert_eq!(cache.pixels(), &first);
    // Another width is another key: a new token and a new raster.
    let t3 = cache.request(exact_key(U, U / 2, 0, 9, 4));
    assert_ne!(t3, t2);
    assert_eq!(cache.pixels().len(), 9 * 4 * 4);
    assert_eq!(cache.token(), t3);
    // Another colour level is another key too.
    let t4 = cache.request(exact_key(U, U / 2, U, 9, 4));
    assert_ne!(t4, t3);
    assert_eq!(cache.pixels()[2], 255);
}

#[test]
fn cache_keys_by_strategy() {
    assert_eq!(fixed_key(U, 0, 0), exact_key(U, 0, 0, 256, 32));
    let mut wheel = RasterCache::new(RasterKind::Wheel, 1);
    let t1 = wheel.request(size_key(16, 16));
    assert_eq!(wheel.request(size_key(16, 16)), t1);
    assert_eq!(wheel.pixels(), &rasterize_wheel_base(16, 16));
    let mut slider = RasterCache::new(RasterKind::Brightness, 1);
    slider.request(fixed_key(U, 0, 0));
    assert_eq!(slider.pixels(), &rasterize_brightness_gradient(256, 32, U, 0, 0));
}

#[test]
fn tokens_differ_between_caches() {
    let mut alpha = RasterCache::new(RasterKind::Alpha, 7);
    let mut bright = RasterCache::new(RasterKind::Brightness, 7);
    let mut other = RasterCache::new(RasterKind::Alpha, 8);
    let k = exact_key(U, 0, 0, 4, 2);
    let ta = alpha.request(k);
    let tb = bright.request(k);
    let tc = other.request(k);
    assert_ne!(ta, tb);
    assert_ne!(ta, tc);
    assert_ne!(tb, tc);
    assert_eq!(ta, (7 * 4) << 30 | 1);
    assert_eq!(tb, (7 * 4 + 1) << 30 | 1);
}

#[test]
fn fixed_wheel_raster() {
    assert_eq!(wheel_key(), size_key(1024, 1024));
    let mut wheel = RasterCache::new(RasterKind::Wheel, 3);
    let t = wheel.request(wheel_key());
    assert_eq!(wheel.pixels().len(), 1024 * 1024 * 4);
    assert_eq!(wheel.request(wheel_key()), t);
}

#[test]
fn wheel_overlay() {
    assert_eq!(wheel_overlay_alpha(U), None);
    assert_eq!(wheel_overlay_alpha(U / 2), Some(U / 2));
    assert_eq!(wheel_overlay_alpha(U - U / 2000), None);
}

#[test]
fn checkerboard_cells() {
    assert_eq!(checker_grid(12, 10, 5), (3, 2));
    assert_eq!(checker_cell(0, 0, 5, 12, 10), None);
    assert_eq!(checker_cell(1, 0, 5, 12, 10), Some((5, 0, 10, 5)));
    assert_eq!(checker_cell(2, 1, 5, 12, 10), Some((10, 5, 12, 10)));
}

#[test]
fn numeric_field_commits() {
    assert_eq!(commit_number(Some(180 * U as i64), U / 4, 360), (Some(U / 2), 180));
    assert_eq!(commit_number(None, U / 4, 360), (None, 90));
    assert_eq!(commit_number(Some(-5), U / 4, 360), (Some(0), 0));
    assert_eq!(commit_number(Some(500 * U as i64), U, 360), (None, 360));
    assert_eq!(commit_number(Some(90 * U as i64 + 1), U / 4, 360), (None, 90));
    assert_eq!(format_value(U / 2, 100), "50");
    assert_eq!(format_value(U, 255), "255");
    assert_eq!(triple_text((U, U / 2, 0), (360, 100, 100)), "360, 50, 0");
}

#[test]
fn hex_field_text() {
    assert_eq!(live_hex("#3b82f6"), Some("3B82F6".to_string()));
    assert_eq!(live_hex("3b82f680"), Some("3B82F680".to_string()));
    assert_eq!(live_hex("3b8"), None);
    assert_eq!(live_hex("3b82fg"), None);
    assert!(hex_field_shows("#3b82f6", "3B82F6"));
    assert!(!hex_field_shows("#3b82f", "3B82F6"));
}

#[test]
fn pointer_positions() {
    assert_eq!(slider_value_at(7, 114, 7), Some(U));
    assert_eq!(slider_value_at(57, 114, 7), Some(U / 2));
    assert_eq!(slider_value_at(-10, 114, 7), Some(U));
    assert_eq!(slider_value_at(200, 114, 7), Some(0));
    assert_eq!(slider_value_at(5, 10, 7), None);
    assert_eq!(wheel_value_at(100, 50, 100, 100), Some((0, U)));
    assert_eq!(wheel_value_at(50, 50, 100, 100), Some((0, 0)));
    assert_eq!(wheel_value_at(50, 75, 100, 100), Some((U / 4, U / 2)));
    assert_eq!(wheel_value_at(0, 0, 0, 100), None);
}
