use picker_core::color::{SolidColor, LEVEL};
use picker_core::editor::ColorEditor;
use picker_core::math::{hsb_to_rgb, UNIT};

const U: u64 = UNIT;

#[test]
fn editor_starts_from_initial_color() {
    let c = SolidColor::from_hex("3B82F6").unwrap();
    let e = ColorEditor::new(c);
    assert_eq!(e.color(), c);
    assert_eq!(e.hue(), 1_538_636_363);
    assert_eq!(e.saturation(), 1_938_414_634);
    assert_eq!(e.brightness(), 0xF6 * LEVEL);
    assert_eq!(e.alpha(), U);
    assert_eq!(e.rgb(), (0x3B * LEVEL, 0x82 * LEVEL, 0xF6 * LEVEL));
    assert_eq!(e.hex(), "3B82F6");
}

#[test]
fn hue_is_remembered_at_zero_saturation() {
    let grey = SolidColor::from_rgba(U / 2, U / 2, U / 2, U);
    let mut e = ColorEditor::new(grey);
    assert_eq!(e.hue(), 0);
    // A new hue at zero saturation renders the same grey: nothing is published.
    assert_eq!(e.set_hsb(U / 3, 0, U / 2), None);
    assert_eq!(e.color(), grey);
    assert_eq!(e.hue(), U / 3);
    // Raising saturation renders the remembered hue.
    let published = e.set_hsb(e.hue(), U / 2, U / 2).unwrap();
    assert_eq!(e.hue(), U / 3);
    assert_eq!((published.r(), published.g(), published.b()), hsb_to_rgb(U / 3, U / 2, U / 2));
    assert_eq!(published.to_rgb(), (64, 128, 64));
    assert_eq!(e.color(), published);
    assert_eq!(e.rgb(), (637_500_000, 1_275_000_000, 637_500_000));
}

#[test]
fn echoed_rgb_edit_keeps_hue() {
    let c = SolidColor::from_hex("3B82F6").unwrap();
    let mut e = ColorEditor::new(c);
    let hue = e.hue();
    let (r, g, b) = e.rgb();
    assert_eq!(e.set_rgb(r, g, b), None);
    assert_eq!(e.hue(), hue);
    assert_eq!(e.set_rgb(r + 1000, g, b - 1000), None);
    assert_eq!(e.hue(), hue);
    assert_eq!(e.color(), c);
}

#[test]
fn rgb_edit_publishes_new_color() {
    let mut e = ColorEditor::new(SolidColor::from_hex("3B82F6").unwrap());
    let published = e.set_rgb(U, 0, 0).unwrap();
    assert_eq!(published.to_rgb(), (255, 0, 0));
    assert_eq!(e.hue(), 0);
    assert_eq!(e.saturation(), U);
    assert_eq!(e.brightness(), U);
    assert_eq!(e.hex(), "FF0000");
    assert_eq!(e.hsl(), (U, U / 2));
}

#[test]
fn degenerate_canonical_keeps_hue() {
    let mut e = ColorEditor::new(SolidColor::from_hex("3B82F6").unwrap());
    let hue = e.hue();
    e.set_canonical(SolidColor::from_rgba(U / 5, U / 5, U / 5, U));
    assert_eq!(e.hue(), hue);
    assert_eq!(e.saturation(), 0);
    assert_eq!(e.brightness(), U / 5);
    assert_eq!(e.hex(), "333333");
    assert_eq!(e.rgb(), (U / 5, U / 5, U / 5));
}

#[test]
fn canonical_change_adopts_hsb() {
    let mut e = ColorEditor::new(SolidColor::from_hex("3B82F6").unwrap());
    e.set_canonical(SolidColor::from_rgba(0, U, 0, U / 2));
    assert_eq!(e.hue(), U / 3);
    assert_eq!(e.saturation(), U);
    assert_eq!(e.alpha(), U / 2);
    assert_eq!(e.hex(), "00FF0080");
}

#[test]
fn hex_edits() {
    let mut e = ColorEditor::new(SolidColor::from_hex("3B82F6").unwrap());
    let published = e.set_hex("F00").unwrap();
    assert_eq!(published, SolidColor::from_rgba(U, 0, 0, U));
    assert_eq!(e.hex(), "F00");
    assert_eq!(e.hue(), 0);
    // Text being typed that does not parse is kept and changes nothing else.
    assert_eq!(e.set_hex("F0"), None);
    assert_eq!(e.hex(), "F0");
    assert_eq!(e.color(), published);
    // Alpha carried by the text.
    let with_alpha = e.set_hex("#FF000080").unwrap();
    assert_eq!(with_alpha.a(), 0x80 * LEVEL);
    assert_eq!(e.alpha(), 0x80 * LEVEL);
}

#[test]
fn alpha_edit_publishes() {
    let mut e = ColorEditor::new(SolidColor::from_hex("FF0000").unwrap());
    let published = e.set_alpha(U / 2).unwrap();
    assert_eq!(published.a(), U / 2);
    assert_eq!(e.hex(), "FF000080");
    assert_eq!(e.set_alpha(U / 2), None);
}

#[test]
fn hsl_edit_moves_brightness() {
    let mut e = ColorEditor::new(SolidColor::from_hex("FF0000").unwrap());
    assert_eq!(e.hsl(), (U, U / 2));
    let published = e.set_hsl(U, U / 4).unwrap();
    assert_eq!(published.to_rgb(), (128, 0, 0));
    assert_eq!(e.brightness(), U / 2);
    assert_eq!(e.saturation(), U);
    assert_eq!(e.hsl(), (U, U / 4));
    assert_eq!(e.hex(), "800000");
}

#[test]
fn hsb_edit_updates_views() {
    let mut e = ColorEditor::new(SolidColor::from_hex("FF0000").unwrap());
    let published = e.set_hsb(U / 3, U, U).unwrap();
    assert_eq!(published.to_rgb(), (0, 255, 0));
    assert_eq!(e.rgb(), (0, U, 0));
    assert_eq!(e.hsl(), (U, U / 2));
    assert_eq!(e.hex(), "00FF00");
}

#[test]
fn six_digit_hex_keeps_alpha() {
    let mut e = ColorEditor::new(SolidColor::from_rgba(0, 0, 0, U / 2));
    let published = e.set_hex("FFFFFF").unwrap();
    assert_eq!(published, SolidColor::from_rgba(U, U, U, U / 2));
    assert_eq!(e.alpha(), U / 2);
    let again = e.set_hex("#0F0").unwrap();
    assert_eq!(again.a(), U / 2);
}

#[test]
fn matching_hex_text_survives_echo() {
    let mut e = ColorEditor::new(SolidColor::from_rgba(0, 0, 0, U / 2));
    assert_eq!(e.hex(), "000000");
    assert_eq!(e.set_hex("00000080"), None);
    assert_eq!(e.hex(), "00000080");
    e.set_canonical(SolidColor::from_rgba(0, 0, 0, 0x80 * LEVEL));
    assert_eq!(e.hex(), "00000080");
    assert_eq!(e.alpha(), U / 2);
}
