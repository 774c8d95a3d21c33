use picker_core::color::{SolidColor, LEVEL};
use picker_core::hex::normalize_hex;
use picker_core::math::{hsb_to_hsl, hsb_to_rgb, hsl_to_hsb, rgb_to_hsb, UNIT};

const TOL: u64 = UNIT / 1000;

fn close(a: u64, b: u64, tol: u64) -> bool {
    if a >= b { a - b <= tol } else { b - a <= tol }
}

fn hue_close(a: u64, b: u64, tol: u64) -> bool {
    let d = if a >= b { a - b } else { b - a };
    d <= tol || UNIT - d <= tol
}

#[test]
fn parse_hex_literal() {
    let c = SolidColor::from_hex("3B82F6").unwrap();
    assert_eq!(c.r(), 0x3B * LEVEL);
    assert_eq!(c.g(), 0x82 * LEVEL);
    assert_eq!(c.b(), 0xF6 * LEVEL);
    assert_eq!(c.a(), UNIT);
    assert_eq!(c.to_hex(), "3B82F6");
}

#[test]
fn pure_red_conversions() {
    assert_eq!(hsb_to_rgb(0, UNIT, UNIT), (UNIT, 0, 0));
    assert_eq!(rgb_to_hsb(UNIT, 0, 0), (0, UNIT, UNIT));
}

#[test]
fn shorthand_equals_long_form() {
    let a = SolidColor::from_hex("F08").unwrap();
    let b = SolidColor::from_hex("FF0088").unwrap();
    assert_eq!(a, b);
    assert_eq!(a.to_rgb(), (0xFF, 0x00, 0x88));
}

#[test]
fn hex_with_alpha_and_hash() {
    let c = SolidColor::from_hex("#11223380").unwrap();
    assert_eq!(c.to_rgb(), (0x11, 0x22, 0x33));
    assert_eq!(c.a(), 0x80 * LEVEL);
    assert_eq!(c.to_hex(), "11223380");
}

#[test]
fn hex_rejects_bad_text() {
    assert!(SolidColor::from_hex("").is_none());
    assert!(SolidColor::from_hex("12345").is_none());
    assert!(SolidColor::from_hex("GG0000").is_none());
    assert!(SolidColor::from_hex("1234567").is_none());
    assert!(SolidColor::from_hex("#").is_none());
}

#[test]
fn black_drops_alpha_in_hex() {
    let c = SolidColor::from_rgba(0, 0, 0, UNIT / 2);
    assert_eq!(c.to_hex(), "000000");
    let d = SolidColor::from_rgba(UNIT, 0, 0, UNIT / 2);
    assert_eq!(d.to_hex(), "FF000080");
}

#[test]
fn hex_round_trip_values() {
    let c = SolidColor::from_rgba(1_234_567_890, 987_654_321, 42, 2_000_000_000);
    let back = SolidColor::from_hex(&c.to_hex()).unwrap();
    assert!(close(back.r(), c.r(), LEVEL / 2));
    assert!(close(back.g(), c.g(), LEVEL / 2));
    assert!(close(back.b(), c.b(), LEVEL / 2));
    assert!(close(back.a(), c.a(), LEVEL / 2));
}

#[test]
fn hsb_round_trip_values() {
    let cases: [(u64, u64, u64); 5] = [
        (0, UNIT, UNIT / 2),
        (UNIT / 3, UNIT / 2, UNIT / 3),
        (UNIT / 7 * 5, 2 * TOL, 2 * TOL),
        (UNIT - 1, UNIT / 4, UNIT - 2 * TOL),
        (UNIT / 2 + 12345, UNIT, UNIT / 10),
    ];
    for (h, s, v) in cases {
        let (r, g, b) = hsb_to_rgb(h, s, v);
        let (h2, s2, v2) = rgb_to_hsb(r, g, b);
        assert!(hue_close(h2, h, TOL));
        assert!(close(s2, s, TOL));
        assert_eq!(v2, v);
    }
}

#[test]
fn zero_saturation_is_grey() {
    assert_eq!(hsb_to_rgb(UNIT / 3, 0, UNIT / 5), (UNIT / 5, UNIT / 5, UNIT / 5));
    assert_eq!(rgb_to_hsb(UNIT / 5, UNIT / 5, UNIT / 5), (0, 0, UNIT / 5));
}

#[test]
fn black_has_no_saturation() {
    assert_eq!(rgb_to_hsb(0, 0, 0), (0, 0, 0));
    assert_eq!(hsb_to_rgb(UNIT / 2, UNIT, 0), (0, 0, 0));
    assert_eq!(hsl_to_hsb(0, 0, 0), (0, 0, 0));
}

#[test]
fn hue_wraps_modulo_one() {
    assert_eq!(hsb_to_rgb(UNIT + UNIT / 3, UNIT, UNIT), hsb_to_rgb(UNIT / 3, UNIT, UNIT));
    assert_eq!(hsb_to_rgb(UNIT / 3, UNIT, UNIT), (0, UNIT, 0));
}

#[test]
fn hsl_conversions() {
    // Pure red: HSL lightness one half, saturation one.
    assert_eq!(hsb_to_hsl(0, UNIT, UNIT), (0, UNIT, UNIT / 2));
    assert_eq!(hsl_to_hsb(0, UNIT, UNIT / 2), (0, UNIT, UNIT));
    // White and black have no HSL saturation.
    assert_eq!(hsb_to_hsl(5, 0, UNIT), (5, 0, UNIT));
    assert_eq!(hsl_to_hsb(5, UNIT, 0), (5, 0, 0));
    let c = SolidColor::from_hsl(0, UNIT, UNIT / 2, UNIT);
    assert_eq!(c.to_rgb(), (255, 0, 0));
    assert_eq!(c.to_hsl(), (0, UNIT, UNIT / 2));
}

#[test]
fn color_constructors() {
    let c = SolidColor::from_rgb(255, 128, 0);
    assert_eq!(c.to_rgb(), (255, 128, 0));
    assert_eq!(c.a(), UNIT);
    let d = SolidColor::default();
    assert_eq!(d.to_rgb(), (128, 128, 128));
    assert_eq!(d.to_hex(), "808080");
    let e = SolidColor::from_hsb(0, UNIT, UNIT, UNIT / 2);
    assert_eq!(e.to_rgb(), (255, 0, 0));
    assert_eq!(e.a(), UNIT / 2);
    assert_eq!(e.to_hsb(), (0, UNIT, UNIT));
}

#[test]
fn normalize_hex_forms() {
    assert_eq!(normalize_hex("#abc"), "AABBCCFF");
    assert_eq!(normalize_hex("3b82f6"), "3B82F6FF");
    assert_eq!(normalize_hex("##3b82f680"), "3B82F680");
    assert_eq!(normalize_hex("12345"), "808080FF");
    assert_eq!(normalize_hex("xyz"), "808080FF");
}
