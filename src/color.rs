//! `SolidColor`: an immutable RGBA colour with fixed-point channels.
use vstd::prelude::*;
use crate::hex::{
    all_hex, all_hex_from, byte_at, byte_text, digit_of, doubled, hex_digit, hex_val, is_hex_char,
    leading_hashes, lemma_byte_text, push_char, strip_hashes,
};
use crate::math::{
    hsb_to_hsl, hsb_to_hsl_spec, hsb_to_rgb, hsb_to_rgb_spec, hsl_to_hsb, hsl_to_hsb_spec,
    rgb_to_hsb, rgb_to_hsb_spec, dist, UNIT,
};

verus! {

/// Fixed-point size of one 8-bit level: `UNIT / 255`.
pub const LEVEL: u64 = 10_000_000;

/// Half an 8-bit level, for rounding to the nearest level.
pub const HALF_LEVEL: u64 = 5_000_000;

/// Distance from full opacity under which alpha counts as opaque (0.001).
pub const OPAQUE_TOLERANCE: u64 = 2_550_000;

/// An RGBA colour; each channel lies in `0..=UNIT`. Its channels are read
/// through `r`, `g`, `b`, `a` and its view; it is built by the constructors,
/// which keep every channel in range.
#[derive(Debug, Clone, Copy, PartialEq, Eq, Structural)]
pub struct SolidColor {
    r: u64,
    g: u64,
    b: u64,
    a: u64,
}

/// The channels of a colour as plain values.
pub struct Rgba {
    pub r: int,
    pub g: int,
    pub b: int,
    pub a: int,
}

/// Every channel lies in `0..=UNIT`.
pub open spec fn rgba_wf(c: Rgba) -> bool {
    &&& 0 <= c.r <= UNIT
    &&& 0 <= c.g <= UNIT
    &&& 0 <= c.b <= UNIT
    &&& 0 <= c.a <= UNIT
}

impl View for SolidColor {
    type V = Rgba;

    closed spec fn view(&self) -> Rgba {
        Rgba { r: self.r as int, g: self.g as int, b: self.b as int, a: self.a as int }
    }
}

/// The 8-bit level nearest to a fixed-point channel.
pub open spec fn level_of(c: int) -> int {
    (c + HALF_LEVEL) / (LEVEL as int)
}

/// The channels that hex text stands for, as `(r, g, b, a)`: three digits
/// double each digit, six give RGB, eight add alpha; the alpha of three and
/// six digits is full.
pub open spec fn parse_hex_spec(s: Seq<char>) -> Option<Rgba> {
    let t = strip_hashes(s);
    let l = LEVEL as int;
    if !all_hex(t) {
        None
    } else if t.len() == 3 {
        Some(Rgba { r: hex_val(t[0]) * 17 * l, g: hex_val(t[1]) * 17 * l, b: hex_val(t[2]) * 17 * l, a: UNIT as int })
    } else if t.len() == 6 {
        Some(Rgba { r: byte_at(t, 0) * l, g: byte_at(t, 2) * l, b: byte_at(t, 4) * l, a: UNIT as int })
    } else if t.len() == 8 {
        Some(Rgba { r: byte_at(t, 0) * l, g: byte_at(t, 2) * l, b: byte_at(t, 4) * l, a: byte_at(t, 6) * l })
    } else {
        None
    }
}

/// Whether alpha counts as opaque, or the RGB levels are all zero: such a
/// colour is written with six digits.
pub open spec fn six_digit_form(c: Rgba) -> bool {
    UNIT - c.a < OPAQUE_TOLERANCE || (level_of(c.r) == 0 && level_of(c.g) == 0 && level_of(c.b) == 0)
}

/// The hex text of a colour: `RRGGBB`, then `AA` unless `six_digit_form`.
pub open spec fn hex_text_spec(c: Rgba) -> Seq<char> {
    let rgb = byte_text(level_of(c.r)) + byte_text(level_of(c.g)) + byte_text(level_of(c.b));
    if six_digit_form(c) { rgb } else { rgb + byte_text(level_of(c.a)) }
}

/// Each channel is within half a level of its nearest level, and a level
/// fits a byte.
pub proof fn lemma_level(c: int)
    requires
        0 <= c <= UNIT,
    ensures
        0 <= level_of(c) < 256,
        dist(level_of(c) * LEVEL, c) <= HALF_LEVEL,
{
}

/// Hex text round trip: parsing the hex text of a colour gives its RGB at
/// 8-bit precision, and its alpha at 8-bit precision when eight digits are
/// written, or full opacity when six are. Alpha is kept within half a level
/// unless the RGB levels are all zero (black text never carries alpha).
pub proof fn lemma_hex_round_trip(c: Rgba)
    requires
        rgba_wf(c),
    ensures
        parse_hex_spec(hex_text_spec(c)) == Some(Rgba {
            r: level_of(c.r) * LEVEL,
            g: level_of(c.g) * LEVEL,
            b: level_of(c.b) * LEVEL,
            a: if six_digit_form(c) { UNIT as int } else { level_of(c.a) * LEVEL },
        }),
        dist(level_of(c.r) * LEVEL, c.r) <= HALF_LEVEL,
        dist(level_of(c.g) * LEVEL, c.g) <= HALF_LEVEL,
        dist(level_of(c.b) * LEVEL, c.b) <= HALF_LEVEL,
        !(level_of(c.r) == 0 && level_of(c.g) == 0 && level_of(c.b) == 0)
            ==> dist(parse_hex_spec(hex_text_spec(c)).unwrap().a, c.a) <= HALF_LEVEL,
{
    let (r, g, b, a) = (level_of(c.r), level_of(c.g), level_of(c.b), level_of(c.a));
    lemma_level(c.r);
    lemma_level(c.g);
    lemma_level(c.b);
    lemma_level(c.a);
    lemma_byte_text(r);
    lemma_byte_text(g);
    lemma_byte_text(b);
    lemma_byte_text(a);
    let s = hex_text_spec(c);
    let rgb = byte_text(r) + byte_text(g) + byte_text(b);
    assert(rgb[0] != '#');
    assert(strip_hashes(s) == s);
    assert(byte_at(rgb, 0) == r);
    assert(byte_at(rgb, 2) == byte_at(byte_text(g), 0));
    assert(byte_at(rgb, 4) == byte_at(byte_text(b), 0));
    assert(all_hex(rgb));
    if !six_digit_form(c) {
        let full = rgb + byte_text(a);
        assert(byte_at(full, 0) == r);
        assert(byte_at(full, 2) == g);
        assert(byte_at(full, 4) == b);
        assert(byte_at(full, 6) == a);
        assert(all_hex(full));
    }
}

/// Shorthand hex: three digits parse to the same colour as the six digits
/// that write each of them twice.
pub proof fn lemma_shorthand_expands(t: Seq<char>)
    requires
        t.len() == 3,
        all_hex(t),
    ensures
        parse_hex_spec(t) == parse_hex_spec(doubled(t)),
        parse_hex_spec(t).is_some(),
{
    let d = doubled(t);
    assert(is_hex_char(t[0]) && is_hex_char(t[1]) && is_hex_char(t[2]));
    assert(d[0] == t[0] && d[1] == t[0] && d[2] == t[1] && d[3] == t[1] && d[4] == t[2] && d[5] == t[2]);
    assert(strip_hashes(t) == t);
    assert(strip_hashes(d) == d);
    assert(all_hex(d)) by {
        assert forall|i: int| 0 <= i < d.len() implies is_hex_char(#[trigger] d[i]) by {
            assert(d[i] == t[i / 2]);
        }
    }
}

impl SolidColor {
    /// Every channel lies in `0..=UNIT`.
    pub open spec fn wf(&self) -> bool {
        rgba_wf(self@)
    }

    /// Red channel.
    pub fn r(&self) -> (v: u64)
        ensures
            v == self@.r,
    {
        self.r
    }

    /// Green channel.
    pub fn g(&self) -> (v: u64)
        ensures
            v == self@.g,
    {
        self.g
    }

    /// Blue channel.
    pub fn b(&self) -> (v: u64)
        ensures
            v == self@.b,
    {
        self.b
    }

    /// Alpha channel.
    pub fn a(&self) -> (v: u64)
        ensures
            v == self@.a,
    {
        self.a
    }

    /// Colour from 8-bit RGB levels, fully opaque.
    pub fn from_rgb(r: u8, g: u8, b: u8) -> (c: SolidColor)
        ensures
            c.wf(),
            c@.r == r as int * LEVEL,
            c@.g == g as int * LEVEL,
            c@.b == b as int * LEVEL,
            c@.a == UNIT,
    {
        SolidColor { r: r as u64 * LEVEL, g: g as u64 * LEVEL, b: b as u64 * LEVEL, a: UNIT }
    }

    /// The nearest 8-bit RGB levels.
    pub fn to_rgb(&self) -> (rgb: (u8, u8, u8))
        requires
            self.wf(),
        ensures
            rgb.0 as int == level_of(self@.r),
            rgb.1 as int == level_of(self@.g),
            rgb.2 as int == level_of(self@.b),
    {
        (level(self.r), level(self.g), level(self.b))
    }

    /// Colour from raw channels.
    pub fn from_rgba(r: u64, g: u64, b: u64, a: u64) -> (c: SolidColor)
        requires
            r <= UNIT,
            g <= UNIT,
            b <= UNIT,
            a <= UNIT,
        ensures
            c.wf(),
            c@ == (Rgba { r: r as int, g: g as int, b: b as int, a: a as int }),
    {
        SolidColor { r, g, b, a }
    }

    /// Colour from HSB plus alpha.
    pub fn from_hsb(h: u64, s: u64, v: u64, a: u64) -> (c: SolidColor)
        requires
            s <= UNIT,
            v <= UNIT,
            a <= UNIT,
        ensures
            c.wf(),
            (c@.r, c@.g, c@.b) == hsb_to_rgb_spec(h as int, s as int, v as int),
            c@.a == a,
    {
        let (r, g, b) = hsb_to_rgb(h, s, v);
        SolidColor { r, g, b, a }
    }

    /// HSB of the colour's RGB.
    pub fn to_hsb(&self) -> (hsb: (u64, u64, u64))
        requires
            self.wf(),
        ensures
            (hsb.0 as int, hsb.1 as int, hsb.2 as int) == rgb_to_hsb_spec(
                self@.r,
                self@.g,
                self@.b,
            ),
            hsb.0 < UNIT,
            hsb.1 <= UNIT,
            hsb.2 <= UNIT,
    {
        rgb_to_hsb(self.r, self.g, self.b)
    }

    /// Colour from HSL plus alpha.
    pub fn from_hsl(h: u64, s: u64, l: u64, a: u64) -> (c: SolidColor)
        requires
            s <= UNIT,
            l <= UNIT,
            a <= UNIT,
        ensures
            c.wf(),
            (c@.r, c@.g, c@.b) == hsb_to_rgb_spec(
                hsl_to_hsb_spec(h as int, s as int, l as int).0,
                hsl_to_hsb_spec(h as int, s as int, l as int).1,
                hsl_to_hsb_spec(h as int, s as int, l as int).2,
            ),
            c@.a == a,
    {
        let (hb, sb, vb) = hsl_to_hsb(h, s, l);
        let (r, g, b) = hsb_to_rgb(hb, sb, vb);
        SolidColor { r, g, b, a }
    }

    /// HSL of the colour's RGB.
    pub fn to_hsl(&self) -> (hsl: (u64, u64, u64))
        requires
            self.wf(),
        ensures
            (hsl.0 as int, hsl.1 as int, hsl.2 as int) == hsb_to_hsl_spec(
                rgb_to_hsb_spec(self@.r, self@.g, self@.b).0,
                rgb_to_hsb_spec(self@.r, self@.g, self@.b).1,
                rgb_to_hsb_spec(self@.r, self@.g, self@.b).2,
            ),
    {
        let (h, s, v) = rgb_to_hsb(self.r, self.g, self.b);
        hsb_to_hsl(h, s, v)
    }

    /// Parse hex text: leading `#` removed, then exactly 3, 6 or 8 hex
    /// digits. Anything else gives `None`.
    pub fn from_hex(hex: &str) -> (c: Option<SolidColor>)
        ensures
            c.is_some() == parse_hex_spec(hex@).is_some(),
            c.is_some() ==> c.unwrap().wf() && parse_hex_spec(hex@) == Some(c.unwrap()@),
    {
        let k = leading_hashes(hex);
        let n = hex.unicode_len();
        if !all_hex_from(hex, k) {
            return None;
        }
        let len = n - k;
        if len == 3 {
            let r = nibble_at(hex, k);
            let g = nibble_at(hex, k + 1);
            let b = nibble_at(hex, k + 2);
            Some(SolidColor { r: r as u64 * 17 * LEVEL, g: g as u64 * 17 * LEVEL, b: b as u64 * 17 * LEVEL, a: UNIT })
        } else if len == 6 || len == 8 {
            let r = byte_at_index(hex, k);
            let g = byte_at_index(hex, k + 2);
            let b = byte_at_index(hex, k + 4);
            let a = if len == 8 { byte_at_index(hex, k + 6) as u64 * LEVEL } else { UNIT };
            Some(SolidColor { r: r as u64 * LEVEL, g: g as u64 * LEVEL, b: b as u64 * LEVEL, a })
        } else {
            None
        }
    }

    /// Upper-case hex text without `#`: six digits when alpha counts as
    /// opaque or the RGB levels are all zero, eight otherwise.
    pub fn to_hex(&self) -> (s: String)
        requires
            self.wf(),
        ensures
            s@ == hex_text_spec(self@),
    {
        let (r, g, b) = self.to_rgb();
        let mut out = String::new();
        push_byte(&mut out, r);
        push_byte(&mut out, g);
        push_byte(&mut out, b);
        let is_black = r == 0 && g == 0 && b == 0;
        if UNIT - self.a < OPAQUE_TOLERANCE || is_black {
            out
        } else {
            push_byte(&mut out, level(self.a));
            out
        }
    }
}

impl Default for SolidColor {
    /// Mid grey, fully opaque.
    fn default() -> (c: SolidColor)
        ensures
            c.wf(),
            c@ == (Rgba { r: (UNIT / 2) as int, g: (UNIT / 2) as int, b: (UNIT / 2) as int, a: UNIT as int }),
    {
        SolidColor { r: UNIT / 2, g: UNIT / 2, b: UNIT / 2, a: UNIT }
    }
}

/// The nearest 8-bit level of a channel.
pub fn level(c: u64) -> (v: u8)
    requires
        c <= UNIT,
    ensures
        v as int == level_of(c as int),
{
    ((c + HALF_LEVEL) / LEVEL) as u8
}

/// Append the two digits of a byte.
fn push_byte(s: &mut String, b: u8)
    ensures
        final(s)@ == old(s)@ + byte_text(b as int),
{
    push_char(s, digit_of(b / 16));
    push_char(s, digit_of(b % 16));
    assert(s@ =~= old(s)@ + byte_text(b as int));
}

/// The hex digit at `i`, known to be one.
fn nibble_at(s: &str, i: usize) -> (v: u8)
    requires
        i < s@.len(),
        is_hex_char(s@[i as int]),
    ensures
        v as int == hex_val(s@[i as int]),
        v < 16,
{
    match hex_digit(s.get_char(i)) {
        Some(v) => v,
        None => 0,
    }
}

/// The byte written by the two hex digits at `i` and `i + 1`.
fn byte_at_index(s: &str, i: usize) -> (v: u8)
    requires
        i + 1 < s@.len() <= usize::MAX,
        is_hex_char(s@[i as int]),
        is_hex_char(s@[i + 1]),
    ensures
        v as int == byte_at(s@, i as int),
{
    let hi = nibble_at(s, i);
    let lo = nibble_at(s, i + 1);
    hi * 16 + lo
}

} // verus!
