//! RGBA8 rasters of the slider gradients and of the hue/saturation wheel,
//! and a one-slot cache that skips rasterising when its key is unchanged.
use vstd::prelude::*;
use crate::color::{level, level_of, LEVEL};
use crate::math::{hsb_to_rgb, hsb_to_rgb_spec, THOUSANDTH, UNIT};

verus! {

/// Position of flat byte index `i` in a raster `w` pixels wide:
/// `(column, row, channel)`.
pub open spec fn pixel_of(w: int, i: int) -> (int, int, int) {
    ((i / 4) % w, (i / 4) / w, i % 4)
}

/// The divisor of a horizontal gradient: one less than the width, at least 1.
pub open spec fn span(w: int) -> int {
    if w - 1 >= 1 { w - 1 } else { 1 }
}

/// `floor(255 * n / d + 1/2)`: the nearest 8-bit level of the fraction `n / d`.
pub open spec fn level_frac(n: int, d: int) -> int {
    (510 * n + d) / (2 * d)
}

/// Byte `i` of the alpha gradient: the colour's levels on every pixel, alpha
/// falling from opaque at the left column to transparent at the right.
pub open spec fn alpha_gradient_byte(w: int, r: int, g: int, b: int, i: int) -> int {
    let (px, _, k) = pixel_of(w, i);
    if k == 0 {
        level_of(r)
    } else if k == 1 {
        level_of(g)
    } else if k == 2 {
        level_of(b)
    } else {
        level_frac(span(w) - px, span(w))
    }
}

/// Byte `i` of the brightness gradient: the colour at the left column
/// darkening linearly to black at the right, fully opaque.
pub open spec fn brightness_gradient_byte(w: int, r: int, g: int, b: int, i: int) -> int {
    let (px, _, k) = pixel_of(w, i);
    let c = if k == 0 { r } else if k == 1 { g } else { b };
    if k == 3 {
        255
    } else {
        level_frac((span(w) - px) * c, span(w) * UNIT)
    }
}

/// Byte index arithmetic: byte `(row * w + col) * 4 + k` lies at `(col, row, k)`.
proof fn lemma_pixel_of(w: int, row: int, col: int, k: int)
    requires
        0 <= col < w,
        0 <= row,
        0 <= k < 4,
    ensures
        pixel_of(w, (row * w + col) * 4 + k) == (col, row, k),
{
    let i = (row * w + col) * 4 + k;
    assert(i / 4 == row * w + col) by (nonlinear_arith)
        requires i == (row * w + col) * 4 + k, 0 <= k < 4, row * w + col >= 0;
    assert(i % 4 == k) by (nonlinear_arith)
        requires i == (row * w + col) * 4 + k, 0 <= k < 4, row * w + col >= 0;
    assert((row * w + col) % w == col && (row * w + col) / w == row) by (nonlinear_arith)
        requires 0 <= col < w, 0 <= row;
}

/// `level_frac` of a fraction in `0..=1` is a level.
proof fn lemma_level_frac(n: int, d: int)
    requires
        0 <= n <= d,
        d > 0,
    ensures
        0 <= level_frac(n, d) <= 255,
{
    assert((510 * n + d) / (2 * d) <= 255) by (nonlinear_arith)
        requires 0 <= n <= d, d > 0;
    assert((510 * n + d) / (2 * d) >= 0) by (nonlinear_arith)
        requires 0 <= n, d > 0;
}

/// Horizontal gradient `width` x `height`: opaque `(r, g, b)` at the left,
/// transparent at the right.
pub fn rasterize_alpha_gradient(width: u32, height: u32, r: u64, g: u64, b: u64) -> (buf: Vec<u8>)
    requires
        width as int * height as int * 4 <= usize::MAX,
        r <= UNIT,
        g <= UNIT,
        b <= UNIT,
    ensures
        buf@.len() == width as int * height as int * 4,
        forall|i: int| 0 <= i < buf@.len() ==> buf@[i] as int
            == #[trigger] alpha_gradient_byte(width as int, r as int, g as int, b as int, i),
{
    let cr = level(r);
    let cg = level(g);
    let cb = level(b);
    let sp: u64 = if width >= 2 { width as u64 - 1 } else { 1 };
    let mut buf: Vec<u8> = Vec::new();
    let mut py: u32 = 0;
    while py < height
        invariant
            py <= height,
            width as int * height as int * 4 <= usize::MAX,
            sp as int == span(width as int),
            cr as int == level_of(r as int),
            cg as int == level_of(g as int),
            cb as int == level_of(b as int),
            buf@.len() == py as int * width as int * 4,
            forall|i: int| 0 <= i < buf@.len() ==> buf@[i] as int
                == #[trigger] alpha_gradient_byte(width as int, r as int, g as int, b as int, i),
        decreases height - py,
    {
        let mut px: u32 = 0;
        while px < width
            invariant
                py < height,
                px <= width,
                width as int * height as int * 4 <= usize::MAX,
                sp as int == span(width as int),
                cr as int == level_of(r as int),
                cg as int == level_of(g as int),
                cb as int == level_of(b as int),
                buf@.len() == (py as int * width as int + px as int) * 4,
                forall|i: int| 0 <= i < buf@.len() ==> buf@[i] as int
                    == #[trigger] alpha_gradient_byte(width as int, r as int, g as int, b as int, i),
            decreases width - px,
        {
            proof {
                lemma_level_frac(sp - px, sp as int);
                assert(510 * (sp - px) + sp <= 1024 * sp) by (nonlinear_arith)
                    requires px <= sp;
                lemma_pixel_of(width as int, py as int, px as int, 0);
                lemma_pixel_of(width as int, py as int, px as int, 1);
                lemma_pixel_of(width as int, py as int, px as int, 2);
                lemma_pixel_of(width as int, py as int, px as int, 3);
                assert((py as int * width as int + px as int + 1) * 4 <= py as int * width as int * 4 + width as int * 4) by (nonlinear_arith)
                    requires px < width;
                assert(py as int * width as int * 4 + width as int * 4 <= width as int * height as int * 4) by (nonlinear_arith)
                    requires py < height, width >= 0;
            }
            let ca: u64 = (510 * (sp - px as u64) + sp) / (2 * sp);
            buf.push(cr);
            buf.push(cg);
            buf.push(cb);
            buf.push(ca as u8);
            px = px + 1;
        }
        proof {
            assert((py as int * width as int + width as int) * 4 == (py + 1) as int * width as int * 4) by (nonlinear_arith);
        }
        py = py + 1;
    }
    proof {
        assert(py as int * width as int * 4 == width as int * height as int * 4) by (nonlinear_arith)
            requires py == height;
    }
    buf
}

/// Nearest level of `(sp - px) / sp` of channel `c`.
fn faded_level(sp: u64, px: u64, c: u64) -> (v: u8)
    requires
        1 <= sp,
        px <= sp,
        c <= UNIT,
    ensures
        v as int == level_frac((sp - px) * c, sp * UNIT),
{
    proof {
        assert((sp - px) as int * c <= u64::MAX as int * u64::MAX as int) by (nonlinear_arith)
            requires px <= sp, c <= u64::MAX, sp <= u64::MAX;
        assert(sp as int * UNIT <= u64::MAX as int * u64::MAX as int) by (nonlinear_arith)
            requires sp <= u64::MAX;
    }
    let n: u128 = (sp - px) as u128 * c as u128;
    let d: u128 = sp as u128 * UNIT as u128;
    proof {
        assert(n <= d) by (nonlinear_arith)
            requires n == (sp - px) * c, d == sp * UNIT, px <= sp, c <= UNIT;
        assert(d <= 0x1_0000_0000_0000_0000 * 0x1_0000_0000) by (nonlinear_arith)
            requires d == sp * UNIT, sp <= u64::MAX;
        lemma_level_frac(n as int, d as int);
    }
    ((510 * n + d) / (2 * d)) as u8
}

/// Horizontal gradient `width` x `height`: `(r, g, b)` at the left, black at
/// the right, fully opaque.
pub fn rasterize_brightness_gradient(width: u32, height: u32, r: u64, g: u64, b: u64) -> (buf: Vec<u8>)
    requires
        width as int * height as int * 4 <= usize::MAX,
        r <= UNIT,
        g <= UNIT,
        b <= UNIT,
    ensures
        buf@.len() == width as int * height as int * 4,
        forall|i: int| 0 <= i < buf@.len() ==> buf@[i] as int
            == #[trigger] brightness_gradient_byte(width as int, r as int, g as int, b as int, i),
{
    let sp: u64 = if width >= 2 { width as u64 - 1 } else { 1 };
    let mut buf: Vec<u8> = Vec::new();
    let mut py: u32 = 0;
    while py < height
        invariant
            py <= height,
            width as int * height as int * 4 <= usize::MAX,
            sp as int == span(width as int),
            r <= UNIT,
            g <= UNIT,
            b <= UNIT,
            buf@.len() == py as int * width as int * 4,
            forall|i: int| 0 <= i < buf@.len() ==> buf@[i] as int
                == #[trigger] brightness_gradient_byte(width as int, r as int, g as int, b as int, i),
        decreases height - py,
    {
        let mut px: u32 = 0;
        while px < width
            invariant
                py < height,
                px <= width,
                width as int * height as int * 4 <= usize::MAX,
                sp as int == span(width as int),
                r <= UNIT,
                g <= UNIT,
                b <= UNIT,
                buf@.len() == (py as int * width as int + px as int) * 4,
                forall|i: int| 0 <= i < buf@.len() ==> buf@[i] as int
                    == #[trigger] brightness_gradient_byte(width as int, r as int, g as int, b as int, i),
            decreases width - px,
        {
            proof {
                lemma_pixel_of(width as int, py as int, px as int, 0);
                lemma_pixel_of(width as int, py as int, px as int, 1);
                lemma_pixel_of(width as int, py as int, px as int, 2);
                lemma_pixel_of(width as int, py as int, px as int, 3);
                assert((py as int * width as int + px as int + 1) * 4 <= py as int * width as int * 4 + width as int * 4) by (nonlinear_arith)
                    requires px < width;
                assert(py as int * width as int * 4 + width as int * 4 <= width as int * height as int * 4) by (nonlinear_arith)
                    requires py < height, width >= 0;
            }
            buf.push(faded_level(sp, px as u64, r));
            buf.push(faded_level(sp, px as u64, g));
            buf.push(faded_level(sp, px as u64, b));
            buf.push(255);
            px = px + 1;
        }
        proof {
            assert((py as int * width as int + width as int) * 4 == (py + 1) as int * width as int * 4) by (nonlinear_arith);
        }
        py = py + 1;
    }
    proof {
        assert(py as int * width as int * 4 == width as int * height as int * 4) by (nonlinear_arith)
            requires py == height;
    }
    buf
}

/// Sub-pixel resolution of wheel distances: a distance is measured in
/// `1 / (2 * FINE)` of a pixel.
pub const FINE: u64 = 1024;

/// Width of the anti-aliased rim of the wheel, in pixels.
pub const FEATHER: u64 = 3;

/// A quarter turn of hue.
pub const QUARTER_TURN: u64 = 637_500_000;

/// Half a turn of hue.
pub const HALF_TURN: u64 = 1_275_000_000;

/// Curvature term of the arctangent approximation: `0.273 / (2 pi)` turns,
/// in fixed point.
pub const ATAN_CURVE: u64 = 110_796_000;

/// Whether `r` is the floor of the square root of `n`.
pub open spec fn is_sqrt_floor(n: int, r: int) -> bool {
    0 <= r && r * r <= n < (r + 1) * (r + 1)
}

/// The floor of the square root of `n`.
pub open spec fn sqrt_floor(n: int) -> int {
    choose|r: int| #[trigger] is_sqrt_floor(n, r)
}

/// Turns (in fixed point) of the angle `atan(n / d)`, for `0 <= n <= d`, by
/// the approximation `atan(z) ~ z pi / 4 + 0.273 z (1 - z)`.
pub open spec fn atan_turn(n: int, d: int) -> int {
    n * UNIT / (8 * d) + ATAN_CURVE * n * (d - n) / (d * d)
}

/// The direction of `(x, y)` (y pointing down) as a fraction of a turn
/// clockwise from the positive x axis, taken into `[0, 1)`; the origin has
/// direction 0. It stands for `atan2(y, x) / 2 pi`, with the arctangent of
/// each octant given by the approximation `atan_turn` (within about 0.2
/// degrees), so it is exact only on the axes and the diagonals.
pub open spec fn turn_of(x: int, y: int) -> int {
    let ax = if x >= 0 { x } else { -x };
    let ay = if y >= 0 { y } else { -y };
    if ax == 0 && ay == 0 {
        0
    } else {
        let base = if ay <= ax { atan_turn(ay, ax) } else { QUARTER_TURN - atan_turn(ax, ay) };
        if y >= 0 {
            if x >= 0 { base } else { HALF_TURN - base }
        } else {
            if x < 0 { HALF_TURN + base } else { (UNIT - base) % (UNIT as int) }
        }
    }
}

/// The RGBA of wheel pixel `(px, py)` in a `w` x `h` raster: transparent
/// outside the inscribed circle; inside, hue from the direction from the
/// centre, saturation growing from the centre to 1 at the circle inset by
/// `FEATHER`, full brightness, and alpha fading over the last `FEATHER`
/// pixels.
pub open spec fn wheel_pixel(w: int, h: int, px: int, py: int) -> (int, int, int, int) {
    let m = if w <= h { w } else { h };
    let x = 2 * px + 1 - w;
    let y = 2 * py + 1 - h;
    let q = x * x + y * y;
    if q > m * m {
        (0, 0, 0, 0)
    } else {
        let d = sqrt_floor(q * FINE * FINE);
        let rim = m * FINE - d;
        let alpha = if rim >= 2 * FEATHER * FINE { 255 } else { level_frac(rim, 2 * FEATHER * FINE) };
        let reach = (m - 2 * FEATHER) * FINE;
        let sat = if reach <= 0 || d >= reach { UNIT as int } else { d * UNIT / reach };
        let (r, g, b) = hsb_to_rgb_spec(turn_of(x, y), sat, UNIT as int);
        (level_of(r), level_of(g), level_of(b), alpha)
    }
}

/// Byte `i` of the wheel raster.
pub open spec fn wheel_byte(w: int, h: int, i: int) -> int {
    let (px, py, k) = pixel_of(w, i);
    let p = wheel_pixel(w, h, px, py);
    if k == 0 { p.0 } else if k == 1 { p.1 } else if k == 2 { p.2 } else { p.3 }
}

/// Squares grow with their roots, so a floor square root is unique.
proof fn lemma_sqrt_unique(n: int, r: int)
    requires
        0 <= r,
        r * r <= n < (r + 1) * (r + 1),
    ensures
        sqrt_floor(n) == r,
{
    assert(is_sqrt_floor(n, r));
    let s = sqrt_floor(n);
    assert(is_sqrt_floor(n, s));
    if s < r {
        assert((s + 1) * (s + 1) <= r * r) by (nonlinear_arith)
            requires 0 <= s < r;
    } else if s > r {
        assert((r + 1) * (r + 1) <= s * s) by (nonlinear_arith)
            requires 0 <= r < s;
    }
}

/// The floor of the square root of `n`, by bisection.
pub fn isqrt(n: u128) -> (r: u128)
    requires
        n < 0x1_0000_0000_0000_0000_0000_0000,
    ensures
        r as int == sqrt_floor(n as int),
        r * r <= n,
{
    let mut lo: u128 = 0;
    let mut hi: u128 = 0x1_0000_0000_0000;
    assert(hi * hi == 0x1_0000_0000_0000_0000_0000_0000) by (nonlinear_arith)
        requires hi == 0x1_0000_0000_0000;
    while hi - lo > 1
        invariant
            lo < hi <= 0x1_0000_0000_0000,
            lo * lo <= n,
            n < hi * hi,
        decreases hi - lo,
    {
        let mid: u128 = lo + (hi - lo) / 2;
        assert(mid * mid <= 0x1_0000_0000_0000 * 0x1_0000_0000_0000) by (nonlinear_arith)
            requires mid < 0x1_0000_0000_0000;
        if mid * mid <= n {
            lo = mid;
        } else {
            hi = mid;
        }
    }
    proof {
        assert(hi == lo + 1);
        lemma_sqrt_unique(n as int, lo as int);
    }
    lo
}

/// `atan_turn(n, d)` for `0 <= n <= d`, `0 < d`.
fn atan_turn_of(n: u64, d: u64) -> (t: u64)
    requires
        n <= d,
        0 < d <= 0x4_0000_0000,
    ensures
        t as int == atan_turn(n as int, d as int),
        t <= QUARTER_TURN,
{
    let n2: u128 = n as u128;
    let d2: u128 = d as u128;
    proof {
        assert(n2 * UNIT <= d2 * UNIT) by (nonlinear_arith)
            requires n2 <= d2;
        assert(d2 * UNIT <= 0x1_0000_0000_0000_0000 * 0x1_0000_0000) by (nonlinear_arith)
            requires d2 <= u64::MAX;
        assert(n2 * UNIT / (8 * d2) <= UNIT / 8) by (nonlinear_arith)
            requires n2 <= d2, d2 > 0;
        assert(n2 * (d2 - n2) <= d2 * d2) by (nonlinear_arith)
            requires n2 <= d2;
        assert(d2 * d2 <= 0x4_0000_0000 * 0x4_0000_0000) by (nonlinear_arith)
            requires d2 <= 0x4_0000_0000;
        assert(ATAN_CURVE * (n2 * (d2 - n2)) <= ATAN_CURVE * (d2 * d2)) by (nonlinear_arith)
            requires n2 * (d2 - n2) <= d2 * d2;
        assert(ATAN_CURVE * n2 * (d2 - n2) == ATAN_CURVE * (n2 * (d2 - n2))) by (nonlinear_arith);
        assert(ATAN_CURVE * (n2 * (d2 - n2)) / (d2 * d2) <= ATAN_CURVE) by (nonlinear_arith)
            requires n2 * (d2 - n2) <= d2 * d2, d2 > 0;
    }
    let a: u128 = n2 * UNIT as u128 / (8 * d2);
    let nn: u128 = n2 * (d2 - n2);
    assert(d2 * d2 > 0) by (nonlinear_arith)
        requires d2 > 0;
    let b: u128 = ATAN_CURVE as u128 * nn / (d2 * d2);
    (a + b) as u64
}

/// `turn_of(x, y)` from the magnitudes and signs of `x` and `y`.
pub(crate) fn turn_of_parts(ax: u64, x_neg: bool, ay: u64, y_neg: bool) -> (t: u64)
    requires
        x_neg ==> ax > 0,
        y_neg ==> ay > 0,
        ax <= 0x4_0000_0000,
        ay <= 0x4_0000_0000,
    ensures
        t as int == turn_of(if x_neg { -ax } else { ax as int }, if y_neg { -ay } else { ay as int }),
        t < UNIT,
{
    if ax == 0 && ay == 0 {
        return 0;
    }
    let base: u64 = if ay <= ax { atan_turn_of(ay, ax) } else { QUARTER_TURN - atan_turn_of(ax, ay) };
    if !y_neg {
        if !x_neg { base } else { HALF_TURN - base }
    } else {
        if x_neg { HALF_TURN + base } else { (UNIT - base) % UNIT }
    }
}

/// Magnitude and sign of `2 * p + 1 - n`, the offset of pixel centre `p`
/// from the centre of `n` pixels, in half pixels.
fn centre_offset(p: u32, n: u32) -> (r: (u64, bool))
    requires
        p < n,
    ensures
        r.0 <= 0x2_0000_0000,
        r.1 ==> r.0 > 0,
        (if r.1 { -r.0 } else { r.0 as int }) == 2 * p + 1 - n,
{
    let x2: u64 = 2 * p as u64 + 1;
    if x2 >= n as u64 { (x2 - n as u64, false) } else { (n as u64 - x2, true) }
}

/// The RGBA of one wheel pixel.
fn wheel_pixel_of(w: u32, h: u32, px: u32, py: u32) -> (p: (u8, u8, u8, u8))
    requires
        px < w,
        py < h,
    ensures
        (p.0 as int, p.1 as int, p.2 as int, p.3 as int) == wheel_pixel(w as int, h as int, px as int, py as int),
{
    let m: u64 = if w <= h { w as u64 } else { h as u64 };
    let (ax, x_neg) = centre_offset(px, w);
    let (ay, y_neg) = centre_offset(py, h);
    let ghost x: int = 2 * px + 1 - w;
    let ghost y: int = 2 * py + 1 - h;
    proof {
        assert(x * x == ax * ax) by (nonlinear_arith)
            requires x == ax || x == -ax;
        assert(y * y == ay * ay) by (nonlinear_arith)
            requires y == ay || y == -ay;
        assert(ax * ax <= 0x2_0000_0000 * 0x2_0000_0000) by (nonlinear_arith)
            requires ax <= 0x2_0000_0000;
        assert(ay * ay <= 0x2_0000_0000 * 0x2_0000_0000) by (nonlinear_arith)
            requires ay <= 0x2_0000_0000;
        assert(m * m <= 0x1_0000_0000 * 0x1_0000_0000) by (nonlinear_arith)
            requires m <= 0x1_0000_0000;
    }
    let q: u128 = ax as u128 * ax as u128 + ay as u128 * ay as u128;
    let mm: u128 = m as u128 * m as u128;
    if q > mm {
        return (0, 0, 0, 0);
    }
    let f: u128 = FINE as u128;
    proof {
        assert(q * f * f <= mm * (1024 * 1024)) by (nonlinear_arith)
            requires q <= mm, f == 1024;
        assert(mm <= 0x1_0000_0000_0000_0000);
        assert(mm * 1048576 < 0x1_0000_0000_0000_0000_0000_0000);
    }
    let d: u128 = isqrt(q * f * f);
    let mf: u128 = m as u128 * f;
    proof {
        assert(d <= mf) by (nonlinear_arith)
            requires d * d <= q * f * f, q <= mm, mm == m * m, mf == m * f, d >= 0, m >= 0, f > 0;
    }
    let rim: u128 = mf - d;
    let band: u128 = 2 * FEATHER as u128 * f;
    proof {
        if rim < band {
            lemma_level_frac(rim as int, band as int);
        }
    }
    let alpha: u128 = if rim >= band { 255 } else { (510 * rim + band) / (2 * band) };
    let sat: u64 = if m <= 2 * FEATHER {
        UNIT
    } else {
        let reach: u128 = (m - 2 * FEATHER) as u128 * f;
        if d >= reach {
            UNIT
        } else {
            proof {
                let ghost (di, ri) = (d as int, reach as int);
                assert(di * UNIT / ri <= UNIT) by (nonlinear_arith)
                    requires di < ri, ri > 0, di >= 0;
                assert(di * UNIT <= ri * UNIT) by (nonlinear_arith)
                    requires di < ri, ri > 0, di >= 0;
            }
            (d * UNIT as u128 / reach) as u64
        }
    };
    let hue = turn_of_parts(ax, x_neg, ay, y_neg);
    let (r, g, b) = hsb_to_rgb(hue, sat, UNIT);
    (level(r), level(g), level(b), alpha as u8)
}

/// The hue/saturation wheel at full brightness, `width` x `height` RGBA8:
/// each byte is `wheel_byte`.
pub fn rasterize_wheel_base(width: u32, height: u32) -> (buf: Vec<u8>)
    requires
        width as int * height as int * 4 <= usize::MAX,
    ensures
        buf@.len() == width as int * height as int * 4,
        forall|i: int| 0 <= i < buf@.len() ==> buf@[i] as int == #[trigger] wheel_byte(width as int, height as int, i),
{
    let mut buf: Vec<u8> = Vec::new();
    let mut py: u32 = 0;
    while py < height
        invariant
            py <= height,
            width as int * height as int * 4 <= usize::MAX,
            buf@.len() == py as int * width as int * 4,
            forall|i: int| 0 <= i < buf@.len() ==> buf@[i] as int == #[trigger] wheel_byte(width as int, height as int, i),
        decreases height - py,
    {
        let mut px: u32 = 0;
        while px < width
            invariant
                py < height,
                px <= width,
                width as int * height as int * 4 <= usize::MAX,
                buf@.len() == (py as int * width as int + px as int) * 4,
                forall|i: int| 0 <= i < buf@.len() ==> buf@[i] as int == #[trigger] wheel_byte(width as int, height as int, i),
            decreases width - px,
        {
            proof {
                lemma_pixel_of(width as int, py as int, px as int, 0);
                lemma_pixel_of(width as int, py as int, px as int, 1);
                lemma_pixel_of(width as int, py as int, px as int, 2);
                lemma_pixel_of(width as int, py as int, px as int, 3);
                assert((py as int * width as int + px as int + 1) * 4 <= py as int * width as int * 4 + width as int * 4) by (nonlinear_arith)
                    requires px < width;
                assert(py as int * width as int * 4 + width as int * 4 <= width as int * height as int * 4) by (nonlinear_arith)
                    requires py < height, width >= 0;
            }
            let (r, g, b, a) = wheel_pixel_of(width, height, px, py);
            buf.push(r);
            buf.push(g);
            buf.push(b);
            buf.push(a);
            px = px + 1;
        }
        proof {
            assert((py as int * width as int + width as int) * 4 == (py + 1) as int * width as int * 4) by (nonlinear_arith);
        }
        py = py + 1;
    }
    proof {
        assert(py as int * width as int * 4 == width as int * height as int * 4) by (nonlinear_arith)
            requires py == height;
    }
    buf
}

/// Opacity of the black overlay that darkens the full-brightness wheel to
/// `brightness`: `1 - brightness`, or none when that is at most a thousandth.
pub fn wheel_overlay_alpha(brightness: u64) -> (a: Option<u64>)
    requires
        brightness <= UNIT,
    ensures
        a == (if UNIT - brightness > THOUSANDTH { Some((UNIT - brightness) as u64) } else { None::<u64> }),
{
    if UNIT - brightness > THOUSANDTH { Some(UNIT - brightness) } else { None }
}

/// Number of checkerboard cells `(columns, rows)` that cover a box: the
/// sides divided by the cell size, rounded up.
pub fn checker_grid(width: u64, height: u64, cell: u64) -> (g: (u64, u64))
    requires
        cell > 0,
    ensures
        g.0 as int == (width + cell - 1) / (cell as int),
        g.1 as int == (height + cell - 1) / (cell as int),
{
    (ceil_div(width, cell), ceil_div(height, cell))
}

/// `n / d` rounded up.
fn ceil_div(n: u64, d: u64) -> (q: u64)
    requires
        d > 0,
    ensures
        q as int == (n + d - 1) / (d as int),
{
    let ghost (ni, di) = (n as int, d as int);
    proof {
        assert(ni == di * (ni / di) + ni % di) by (nonlinear_arith)
            requires di > 0;
        assert(0 <= ni % di < di);
        if ni % di == 0 {
            assert((ni + di - 1) / di == ni / di) by (nonlinear_arith)
                requires ni == di * (ni / di), di > 0, ni >= 0;
        } else {
            assert((ni + di - 1) / di == ni / di + 1) by (nonlinear_arith)
                requires ni == di * (ni / di) + ni % di, 0 < ni % di < di, di > 0, ni >= 0;
            assert(di >= 2);
            assert(ni / di <= ni / 2) by (nonlinear_arith)
                requires di >= 2, ni >= 0;
        }
    }
    n / d + if n % d == 0 { 0 } else { 1 }
}

/// The dark checkerboard cell at `(col, row)`, clipped to the box, as
/// `(x0, y0, x1, y1)`; cells whose column and row add up to an even number
/// are light and give `None`.
pub fn checker_cell(col: u64, row: u64, cell: u64, width: u64, height: u64) -> (r: Option<(u64, u64, u64, u64)>)
    requires
        (col as int + 1) * cell <= u64::MAX,
        (row as int + 1) * cell <= u64::MAX,
    ensures
        (col + row) % 2 == 0 ==> r.is_none(),
        (col + row) % 2 == 1 ==> r == Some((
            (col * cell) as u64,
            (row * cell) as u64,
            (if (col + 1) * cell <= width { (col + 1) * cell } else { width as int }) as u64,
            (if (row + 1) * cell <= height { (row + 1) * cell } else { height as int }) as u64,
        )),
{
    if (col % 2 + row % 2) % 2 == 0 {
        return None;
    }
    proof {
        assert(col * cell <= (col + 1) * cell) by (nonlinear_arith);
        assert(row * cell <= (row + 1) * cell) by (nonlinear_arith);
        assert((col + 1) * cell == col * cell + cell) by (nonlinear_arith);
        assert((row + 1) * cell == row * cell + cell) by (nonlinear_arith);
    }
    let x0 = col * cell;
    let y0 = row * cell;
    let x1 = if x0 + cell <= width { x0 + cell } else { width };
    let y1 = if y0 + cell <= height { y0 + cell } else { height };
    Some((x0, y0, x1, y1))
}

/// Width of the fixed-resolution slider raster.
pub const SLIDER_RASTER_WIDTH: u32 = 256;

/// Height of the fixed-resolution slider raster.
pub const SLIDER_RASTER_HEIGHT: u32 = 32;

/// What a cached raster was made from: the colour's 8-bit levels and the
/// raster's size in pixels. Parts that a strategy does not use are 0.
#[derive(Debug, Clone, Copy, PartialEq, Eq, Structural)]
pub struct RasterKey {
    pub r: u8,
    pub g: u8,
    pub b: u8,
    pub width: u32,
    pub height: u32,
}

/// Which raster a cache holds.
#[derive(Debug, Clone, Copy, PartialEq, Eq, Structural)]
pub enum RasterKind {
    /// Opaque-to-transparent gradient of the key's colour.
    Alpha,
    /// Key's colour darkening to black.
    Brightness,
    /// Hue/saturation wheel; the colour is not used.
    Wheel,
}

/// The raster of `kind` for `key`, as a sequence of bytes.
pub open spec fn raster_of(kind: RasterKind, key: RasterKey) -> Seq<u8> {
    let (w, h) = (key.width as int, key.height as int);
    let l = LEVEL as int;
    let (r, g, b) = (key.r as int * l, key.g as int * l, key.b as int * l);
    Seq::new(
        (w * h * 4) as nat,
        |i: int|
            (match kind {
                RasterKind::Alpha => alpha_gradient_byte(w, r, g, b, i),
                RasterKind::Brightness => brightness_gradient_byte(w, r, g, b, i),
                RasterKind::Wheel => wheel_byte(w, h, i),
            }) as u8,
    )
}

/// The state of a cache as plain values.
pub struct CacheModel {
    pub key: Option<RasterKey>,
    pub pixels: Seq<u8>,
    pub token: int,
}

/// Tokens of one cache share `token / GENERATIONS`, which names the cache;
/// the remainder counts its rasters.
pub const GENERATIONS: u64 = 0x4000_0000;

/// The tag of a raster kind within a cache's name.
pub open spec fn kind_tag(kind: RasterKind) -> int {
    match kind {
        RasterKind::Alpha => 0,
        RasterKind::Brightness => 1,
        RasterKind::Wheel => 2,
    }
}

/// The name of the cache that `owner` keeps for rasters of `kind`.
pub open spec fn cache_name(owner: int, kind: RasterKind) -> int {
    owner * 4 + kind_tag(kind)
}

/// The identity token that follows `t`: the next count, wrapping, under
/// the same cache name.
pub open spec fn next_token(t: int) -> int {
    let g = GENERATIONS as int;
    (t / g) * g + (t % g + 1) % g
}

/// The next token differs from `t` and keeps its cache name.
pub proof fn lemma_next_token(t: int)
    requires
        0 <= t,
    ensures
        next_token(t) != t,
        next_token(t) / (GENERATIONS as int) == t / (GENERATIONS as int),
{
    let g = GENERATIONS as int;
    let n = (t % g + 1) % g;
    assert(t == (t / g) * g + t % g) by (nonlinear_arith)
        requires g > 0;
    assert(0 <= n < g);
    assert(((t / g) * g + n) / g == t / g) by (nonlinear_arith)
        requires 0 <= n < g, g > 0;
}

/// Caches with different names never share a token.
pub proof fn lemma_names_part_tokens(t1: int, t2: int)
    requires
        0 <= t1,
        0 <= t2,
        t1 / (GENERATIONS as int) != t2 / (GENERATIONS as int),
    ensures
        t1 != t2,
{
}

/// A request for the raster of `key`: an unchanged key keeps the entry as
/// it is; any other replaces it with `fresh` under the next token.
pub open spec fn cache_after(m: CacheModel, key: RasterKey, fresh: Seq<u8>) -> CacheModel {
    if m.key == Some(key) {
        m
    } else {
        CacheModel { key: Some(key), pixels: fresh, token: next_token(m.token) }
    }
}

/// Two requests with the same key give the same token and the first raster
/// (nothing is recomputed); a second request with a key that differs in any
/// part gives another token and that key's own raster.
pub proof fn lemma_cache_requests(m: CacheModel, k1: RasterKey, k2: RasterKey, first: Seq<u8>, second: Seq<u8>)
    requires
        0 <= m.token,
    ensures
        cache_after(cache_after(m, k1, first), k1, second) == cache_after(m, k1, first),
        k1 != k2 ==> cache_after(cache_after(m, k1, first), k2, second).token != cache_after(m, k1, first).token,
        k1 != k2 ==> cache_after(cache_after(m, k1, first), k2, second).pixels == second,
        k1 != k2 ==> cache_after(cache_after(m, k1, first), k2, second).key == Some(k2),
{
    lemma_next_token(cache_after(m, k1, first).token);
}

/// A single-entry raster cache for one widget.
pub struct RasterCache {
    kind: RasterKind,
    key: Option<RasterKey>,
    pixels: Vec<u8>,
    token: u64,
}

impl View for RasterCache {
    type V = CacheModel;

    closed spec fn view(&self) -> CacheModel {
        CacheModel { key: self.key, pixels: self.pixels@, token: self.token as int }
    }
}

impl RasterCache {
    /// The kind of raster the cache holds.
    pub closed spec fn kind_of(&self) -> RasterKind {
        self.kind
    }

    /// An empty cache for rasters of `kind`, kept by widget `owner`. Its
    /// tokens all carry the name `cache_name(owner, kind)`, so caches of
    /// different owners or kinds hand out different tokens.
    pub fn new(kind: RasterKind, owner: u32) -> (c: RasterCache)
        ensures
            c.kind_of() == kind,
            c@.key.is_none(),
            c@.token == cache_name(owner as int, kind) * GENERATIONS,
            c@.token / (GENERATIONS as int) == cache_name(owner as int, kind),
            c@.pixels.len() == 0,
    {
        let tag: u64 = match kind {
            RasterKind::Alpha => 0,
            RasterKind::Brightness => 1,
            RasterKind::Wheel => 2,
        };
        let name: u64 = owner as u64 * 4 + tag;
        proof {
            assert(name * GENERATIONS <= 0x4_0000_0000 * 0x4000_0000) by (nonlinear_arith)
                requires name < 0x4_0000_0000;
            assert((name * GENERATIONS) / (GENERATIONS as int) == name) by (nonlinear_arith);
        }
        RasterCache { kind, key: None, pixels: Vec::new(), token: name * GENERATIONS }
    }

    /// The raster for `key`, rasterised only when the key differs from the
    /// cached one. Returns the entry's identity token.
    pub fn request(&mut self, key: RasterKey) -> (token: u64)
        requires
            key.width as int * key.height as int * 4 <= usize::MAX,
        ensures
            final(self).kind_of() == old(self).kind_of(),
            final(self)@ == cache_after(old(self)@, key, raster_of(old(self).kind_of(), key)),
            final(self)@.token / (GENERATIONS as int) == old(self)@.token / (GENERATIONS as int),
            token == final(self)@.token,
    {
        match self.key {
            Some(k) => {
                if k == key {
                    return self.token;
                }
            },
            None => {},
        }
        let l = LEVEL;
        let (r, g, b) = (key.r as u64 * l, key.g as u64 * l, key.b as u64 * l);
        let pixels = match self.kind {
            RasterKind::Alpha => rasterize_alpha_gradient(key.width, key.height, r, g, b),
            RasterKind::Brightness => rasterize_brightness_gradient(key.width, key.height, r, g, b),
            RasterKind::Wheel => rasterize_wheel_base(key.width, key.height),
        };
        assert(pixels@ =~= raster_of(self.kind, key));
        self.pixels = pixels;
        self.key = Some(key);
        proof {
            lemma_next_token(self.token as int);
        }
        let base: u64 = self.token / GENERATIONS * GENERATIONS;
        let count: u64 = self.token % GENERATIONS;
        self.token = if count + 1 == GENERATIONS { base } else { base + count + 1 };
        self.token
    }

    /// The cached raster's bytes.
    pub fn pixels(&self) -> (p: &Vec<u8>)
        ensures
            p@ == self@.pixels,
    {
        &self.pixels
    }

    /// The identity token of the cached raster.
    pub fn token(&self) -> (t: u64)
        ensures
            t == self@.token,
    {
        self.token
    }
}

/// Exact-size key: the colour's levels and the raster's size.
pub fn exact_key(r: u64, g: u64, b: u64, width: u32, height: u32) -> (k: RasterKey)
    requires
        r <= UNIT,
        g <= UNIT,
        b <= UNIT,
    ensures
        k == (RasterKey {
            r: level_of(r as int) as u8,
            g: level_of(g as int) as u8,
            b: level_of(b as int) as u8,
            width,
            height,
        }),
{
    RasterKey { r: level(r), g: level(g), b: level(b), width, height }
}

/// Fixed-resolution key: the colour's levels at the constant slider size.
pub fn fixed_key(r: u64, g: u64, b: u64) -> (k: RasterKey)
    requires
        r <= UNIT,
        g <= UNIT,
        b <= UNIT,
    ensures
        k == (RasterKey {
            r: level_of(r as int) as u8,
            g: level_of(g as int) as u8,
            b: level_of(b as int) as u8,
            width: SLIDER_RASTER_WIDTH,
            height: SLIDER_RASTER_HEIGHT,
        }),
{
    exact_key(r, g, b, SLIDER_RASTER_WIDTH, SLIDER_RASTER_HEIGHT)
}

/// Side of the fixed-resolution wheel raster.
pub const WHEEL_RASTER_SIZE: u32 = 1024;

/// Fixed-resolution wheel key: the wheel is rasterised once at
/// `WHEEL_RASTER_SIZE` square and scaled by the paint layer.
pub fn wheel_key() -> (k: RasterKey)
    ensures
        k == (RasterKey { r: 0, g: 0, b: 0, width: WHEEL_RASTER_SIZE, height: WHEEL_RASTER_SIZE }),
{
    size_key(WHEEL_RASTER_SIZE, WHEEL_RASTER_SIZE)
}

/// Resize-only key: the raster's size alone.
pub fn size_key(width: u32, height: u32) -> (k: RasterKey)
    ensures
        k == (RasterKey { r: 0, g: 0, b: 0, width, height }),
{
    RasterKey { r: 0, g: 0, b: 0, width, height }
}

} // verus!
