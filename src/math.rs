//! Conversions between RGB, HSB (HSV) and HSL on fixed-point channels.
//!
//! A channel value `x` with `0 <= x <= UNIT` stands for the real `x / UNIT`.
//! Hue is a fraction of a full turn, taken modulo `UNIT`.
use vstd::prelude::*;

verus! {

/// The fixed-point value that stands for 1.0 (255 * 10^7, so that every
/// 8-bit level and every thousandth is exact).
pub const UNIT: u64 = 2_550_000_000;

/// Largest of three values.
pub open spec fn max3(a: int, b: int, c: int) -> int {
    if a >= b && a >= c { a } else if b >= c { b } else { c }
}

/// Smallest of three values.
pub open spec fn min3(a: int, b: int, c: int) -> int {
    if a <= b && a <= c { a } else if b <= c { b } else { c }
}

/// Six-sector HSB to RGB, with each product rounded down.
pub open spec fn hsb_to_rgb_spec(h: int, s: int, v: int) -> (int, int, int) {
    let u = UNIT as int;
    if s == 0 {
        (v, v, v)
    } else {
        let h6 = (h % u) * 6;
        let i = h6 / u;
        let f = h6 % u;
        let p = v * (u - s) / u;
        let q = v * (u * u - s * f) / (u * u);
        let t = v * (u * u - s * (u - f)) / (u * u);
        if i == 0 {
            (v, t, p)
        } else if i == 1 {
            (q, v, p)
        } else if i == 2 {
            (p, v, t)
        } else if i == 3 {
            (p, q, v)
        } else if i == 4 {
            (t, p, v)
        } else {
            (v, p, q)
        }
    }
}

/// RGB to HSB: value is the largest channel, saturation the spread over the
/// value, hue from the largest channel (0 when all channels are equal).
pub open spec fn rgb_to_hsb_spec(r: int, g: int, b: int) -> (int, int, int) {
    let u = UNIT as int;
    let mx = max3(r, g, b);
    let mn = min3(r, g, b);
    let d = mx - mn;
    let s = if mx == 0 { 0 } else { d * u / mx };
    let h = if d == 0 {
        0
    } else if mx == r {
        if g >= b {
            (g - b) * u / (6 * d)
        } else {
            (6 * d - (b - g)) * u / (6 * d)
        }
    } else if mx == g {
        (b - r + 2 * d) * u / (6 * d)
    } else {
        (r - g + 4 * d) * u / (6 * d)
    };
    (h, s, mx)
}

/// HSL to HSB: `v = l + s_hsl * min(l, 1 - l)`, `s_hsb = 2 (1 - l / v)`
/// (0 when `v` is 0). Hue passes through.
pub open spec fn hsl_to_hsb_spec(h: int, s_hsl: int, l: int) -> (int, int, int) {
    let u = UNIT as int;
    let m = if l <= u - l { l } else { u - l };
    let v = l + s_hsl * m / u;
    let s = if v == 0 { 0 } else { 2 * u * (v - l) / v };
    (h, s, v)
}

/// HSB to HSL: `l = v (1 - s / 2)`, `s_hsl = (v - l) / min(l, 1 - l)`
/// (0 when `l` is 0 or 1, and at most 1). Hue passes through.
pub open spec fn hsb_to_hsl_spec(h: int, s: int, v: int) -> (int, int, int) {
    let u = UNIT as int;
    let l = v * (2 * u - s) / (2 * u);
    let m = if l <= u - l { l } else { u - l };
    let sl = if l == 0 || l == u { 0 } else {
        let x = (v - l) * u / m;
        if x > u { u } else { x }
    };
    (h, sl, l)
}

/// Bounds on the products that `hsb_to_rgb` forms.
proof fn lemma_hsb_products(s: int, v: int, f: int)
    requires
        0 <= s <= UNIT,
        0 <= v <= UNIT,
        0 <= f < UNIT,
    ensures
        s * f <= UNIT * UNIT,
        s * (UNIT - f) <= UNIT * UNIT,
        v * (UNIT - s) <= UNIT * UNIT,
        v * (UNIT * UNIT - s * f) <= UNIT * (UNIT * UNIT),
        v * (UNIT * UNIT - s * (UNIT - f)) <= UNIT * (UNIT * UNIT),
        0 <= v * (UNIT - s) / (UNIT as int) <= v,
        0 <= v * (UNIT * UNIT - s * f) / (UNIT * UNIT) <= v,
        0 <= v * (UNIT * UNIT - s * (UNIT - f)) / (UNIT * UNIT) <= v,
{
    let u = UNIT as int;
    assert(s * f <= u * u) by (nonlinear_arith)
        requires 0 <= s <= u, 0 <= f < u;
    assert(s * (u - f) <= u * u) by (nonlinear_arith)
        requires 0 <= s <= u, 0 <= f < u;
    assert(v * (u - s) <= u * u) by (nonlinear_arith)
        requires 0 <= s <= u, 0 <= v <= u;
    assert(v * (u * u - s * f) <= u * (u * u)) by (nonlinear_arith)
        requires 0 <= v <= u, 0 <= s * f <= u * u;
    assert(v * (u * u - s * (u - f)) <= u * (u * u)) by (nonlinear_arith)
        requires 0 <= v <= u, 0 <= s * (u - f) <= u * u;
    assert(0 <= v * (u - s) / u <= v) by (nonlinear_arith)
        requires 0 <= s <= u, 0 <= v, u > 0;
    assert(0 <= v * (u * u - s * f) / (u * u) <= v) by (nonlinear_arith)
        requires 0 <= s * f <= u * u, 0 <= v, u > 0;
    assert(0 <= v * (u * u - s * (u - f)) / (u * u) <= v) by (nonlinear_arith)
        requires 0 <= s * (u - f) <= u * u, 0 <= v, u > 0;
}

/// HSB/HSV to RGB. `h` is taken modulo one turn; `s == 0` gives `(v, v, v)`.
pub fn hsb_to_rgb(h: u64, s: u64, v: u64) -> (rgb: (u64, u64, u64))
    requires
        s <= UNIT,
        v <= UNIT,
    ensures
        (rgb.0 as int, rgb.1 as int, rgb.2 as int) == hsb_to_rgb_spec(h as int, s as int, v as int),
        rgb.0 <= v,
        rgb.1 <= v,
        rgb.2 <= v,
{
    if s == 0 {
        return (v, v, v);
    }
    let u: u128 = UNIT as u128;
    let h6: u128 = (h as u128 % u) * 6;
    let i: u128 = h6 / u;
    let f: u128 = h6 % u;
    let s2: u128 = s as u128;
    let v2: u128 = v as u128;
    proof {
        lemma_hsb_products(s2 as int, v2 as int, f as int);
    }
    let p: u128 = v2 * (u - s2) / u;
    let q: u128 = v2 * (u * u - s2 * f) / (u * u);
    let t: u128 = v2 * (u * u - s2 * (u - f)) / (u * u);
    let (r, g, b) = if i == 0 {
        (v2, t, p)
    } else if i == 1 {
        (q, v2, p)
    } else if i == 2 {
        (p, v2, t)
    } else if i == 3 {
        (p, q, v2)
    } else if i == 4 {
        (t, p, v2)
    } else {
        (v2, p, q)
    };
    (r as u64, g as u64, b as u64)
}

/// RGB to HSB/HSV. The hue of an achromatic colour (all channels equal) is 0.
pub fn rgb_to_hsb(r: u64, g: u64, b: u64) -> (hsb: (u64, u64, u64))
    requires
        r <= UNIT,
        g <= UNIT,
        b <= UNIT,
    ensures
        (hsb.0 as int, hsb.1 as int, hsb.2 as int) == rgb_to_hsb_spec(r as int, g as int, b as int),
        hsb.0 < UNIT,
        hsb.1 <= UNIT,
        hsb.2 <= UNIT,
{
    let mx: u64 = if r >= g && r >= b { r } else if g >= b { g } else { b };
    let mn: u64 = if r <= g && r <= b { r } else if g <= b { g } else { b };
    let d: u64 = mx - mn;
    let u: u128 = UNIT as u128;
    proof {
        lemma_fraction_below(d as int, mx as int);
    }
    let s: u128 = if mx == 0 { 0 } else { d as u128 * u / mx as u128 };
    if d == 0 {
        return (0, s as u64, mx);
    }
    let d6: u128 = 6 * d as u128;
    let num: u128 = if mx == r {
        if g >= b { (g - b) as u128 } else { d6 - (b - g) as u128 }
    } else if mx == g {
        (b as u128 + 2 * d as u128) - r as u128
    } else {
        (r as u128 + 4 * d as u128) - g as u128
    };
    proof {
        assert(num < d6);
        lemma_fraction_below(num as int, d6 as int);
        assert(num as int * (UNIT as int) / (d6 as int) < UNIT) by (nonlinear_arith)
            requires 0 <= num < d6;
    }
    let h: u128 = num * u / d6;
    (h as u64, s as u64, mx)
}

/// A fraction `n / m` of `UNIT`, with `n <= m`, stays within `UNIT`.
proof fn lemma_fraction_below(n: int, m: int)
    requires
        0 <= n <= m,
        m <= 6 * UNIT,
    ensures
        n * UNIT <= m * UNIT,
        m > 0 ==> n * UNIT / m <= UNIT,
{
    assert(n * UNIT <= m * UNIT) by (nonlinear_arith)
        requires 0 <= n <= m;
    if m > 0 {
        assert(n * UNIT / m <= UNIT) by (nonlinear_arith)
            requires 0 <= n <= m, m > 0;
    }
}

/// HSL to HSB. Hue passes through unchanged.
pub fn hsl_to_hsb(h: u64, s_hsl: u64, l: u64) -> (hsb: (u64, u64, u64))
    requires
        s_hsl <= UNIT,
        l <= UNIT,
    ensures
        (hsb.0 as int, hsb.1 as int, hsb.2 as int) == hsl_to_hsb_spec(h as int, s_hsl as int, l as int),
        hsb.1 <= UNIT,
        hsb.2 <= UNIT,
{
    let u: u128 = UNIT as u128;
    let m: u128 = if l as u128 <= u - l as u128 { l as u128 } else { u - l as u128 };
    proof {
        assert(s_hsl as int * m <= UNIT * m) by (nonlinear_arith)
            requires s_hsl <= UNIT, m >= 0;
        assert(s_hsl as int * m / (UNIT as int) <= m) by (nonlinear_arith)
            requires s_hsl <= UNIT, m >= 0;
    }
    let v: u128 = l as u128 + s_hsl as u128 * m / u;
    let s: u128 = if v == 0 { 0 } else {
        proof {
            assert(2 * (v - l) <= v);
            let ghost (ui, vi, li) = (u as int, v as int, l as int);
            assert(2 * ui * (vi - li) / vi <= ui) by (nonlinear_arith)
                requires 2 * (vi - li) <= vi, vi > 0, ui > 0;
        }
        2 * u * (v - l as u128) / v
    };
    (h, s as u64, v as u64)
}

/// HSB to HSL. Hue passes through unchanged.
pub fn hsb_to_hsl(h: u64, s: u64, v: u64) -> (hsl: (u64, u64, u64))
    requires
        s <= UNIT,
        v <= UNIT,
    ensures
        (hsl.0 as int, hsl.1 as int, hsl.2 as int) == hsb_to_hsl_spec(h as int, s as int, v as int),
        hsl.1 <= UNIT,
        hsl.2 <= UNIT,
{
    let u: u128 = UNIT as u128;
    proof {
        assert(v as int * (2 * UNIT - s) <= 2 * UNIT * v) by (nonlinear_arith)
            requires s <= UNIT, s >= 0, v >= 0;
        assert(2 * UNIT * v <= 2 * UNIT * UNIT) by (nonlinear_arith)
            requires v <= UNIT;
        assert(v as int * (2 * UNIT - s) / (2 * UNIT as int) <= v) by (nonlinear_arith)
            requires s <= UNIT, s >= 0, v >= 0;
    }
    let l: u128 = v as u128 * (2 * u - s as u128) / (2 * u);
    let m: u128 = if l <= u - l { l } else { u - l };
    let sl: u128 = if l == 0 || l == u { 0 } else {
        proof {
            let ghost (ui, vi, li) = (u as int, v as int, l as int);
            assert((vi - li) * ui <= ui * ui) by (nonlinear_arith)
                requires 0 <= vi - li <= ui;
        }
        let x: u128 = (v as u128 - l) * u / m;
        if x > u { u } else { x }
    };
    (h, sl as u64, l as u64)
}

/// Distance between two integers.
pub open spec fn dist(x: int, y: int) -> int {
    if x >= y { x - y } else { y - x }
}

/// Distance between two hues around the circle of one turn.
pub open spec fn hue_gap(x: int, y: int) -> int {
    let d = dist(x, y);
    if d <= UNIT - d { d } else { UNIT - d }
}

/// One thousandth in fixed point.
pub const THOUSANDTH: u64 = 2_550_000;

/// Floor division brackets its numerator.
proof fn lemma_floor(n: int, d: int)
    requires
        d > 0,
    ensures
        d * (n / d) <= n < d * (n / d) + d,
{
    assert(n == d * (n / d) + n % d) by (nonlinear_arith)
        requires d > 0;
}

/// A quotient whose numerator is within `u` of `6 d` times a hue lies within
/// a thousandth of that hue, once `d` is large enough.
proof fn lemma_quotient_near(n: int, d: int, h: int)
    requires
        d > 2550,
        -(UNIT as int) < n * UNIT - 6 * d * h < UNIT,
    ensures
        dist(n * UNIT / (6 * d), h) <= THOUSANDTH,
{
    let u = UNIT as int;
    let q = n * u / (6 * d);
    lemma_floor(n * u, 6 * d);
    assert(6 * d * (q - h) < u) by (nonlinear_arith)
        requires 6 * d * q <= n * u, n * u - 6 * d * h < u;
    assert(6 * d * (q + 1 - h) > -u) by (nonlinear_arith)
        requires n * u < 6 * d * q + 6 * d, -u < n * u - 6 * d * h;
    if q - h > THOUSANDTH {
        assert(false) by (nonlinear_arith)
            requires d >= 2551, q - h >= 2550001, 6 * d * (q - h) < u, u == 2550000000;
    }
    if h - q > THOUSANDTH {
        assert(false) by (nonlinear_arith)
            requires d >= 2551, h - q - 1 >= 2550000, 6 * d * (q + 1 - h) > -u, u == 2550000000;
    }
}

/// Round trip: for saturation above a thousandth and value strictly between
/// a thousandth and one less a thousandth, HSB to RGB and back returns the
/// same value, the saturation within a thousandth, and the hue within a
/// thousandth of a turn.
pub proof fn lemma_hsb_round_trip(h: int, s: int, v: int)
    requires
        0 <= h < UNIT,
        THOUSANDTH < s <= UNIT,
        THOUSANDTH < v < UNIT - THOUSANDTH,
    ensures
        ({
            let (r, g, b) = hsb_to_rgb_spec(h, s, v);
            let (h2, s2, v2) = rgb_to_hsb_spec(r, g, b);
            v2 == v && dist(s2, s) <= THOUSANDTH && hue_gap(h2, h) <= THOUSANDTH
        }),
{
    let u = UNIT as int;
    let h6 = (h % u) * 6;
    let i = h6 / u;
    let f = h6 % u;
    assert(h % u == h);
    lemma_floor(h6, u);
    assert(0 <= i <= 5 && 0 <= f < u && h6 == u * i + f);
    let p = v * (u - s) / u;
    let q = v * (u * u - s * f) / (u * u);
    let t = v * (u * u - s * (u - f)) / (u * u);
    let a = v * s;
    let dl = v - p;
    let cb = v - t;
    let cc = v - q;
    assert(u * u > 0) by (nonlinear_arith)
        requires u > 0;
    lemma_floor(v * (u - s), u);
    lemma_floor(v * (u * u - s * f), u * u);
    lemma_floor(v * (u * u - s * (u - f)), u * u);
    assert(v * (u - s) == v * u - a) by (nonlinear_arith)
        requires a == v * s;
    assert(v * (u * u - s * f) == v * (u * u) - a * f) by (nonlinear_arith)
        requires a == v * s;
    assert(v * (u * u - s * (u - f)) == v * (u * u) - a * (u - f)) by (nonlinear_arith)
        requires a == v * s;
    // brackets: a <= dl u < a + u, and the same for cb, cc at scale u * u
    assert(a <= dl * u < a + u) by (nonlinear_arith)
        requires u * p <= v * u - a < u * p + u, dl == v - p;
    assert(a * (u - f) <= cb * (u * u) < a * (u - f) + u * u) by (nonlinear_arith)
        requires (u * u) * t <= v * (u * u) - a * (u - f) < (u * u) * t + u * u, cb == v - t;
    assert(a * f <= cc * (u * u) < a * f + u * u) by (nonlinear_arith)
        requires (u * u) * q <= v * (u * u) - a * f < (u * u) * q + u * u, cc == v - q;
    assert(v * s >= 2550001 * s) by (nonlinear_arith)
        requires v >= 2550001, s >= 0;
    assert(2550001 * s >= 2550001 * 2550001) by (nonlinear_arith)
        requires s >= 2550001;
    assert(a > 2550 * u);
    assert(dl > 2550) by (nonlinear_arith)
        requires a <= dl * u, a > 2550 * u, u > 0;
    assert(a * (u - f) > 0) by (nonlinear_arith)
        requires a > 0, f < u;
    assert(cb >= 1) by (nonlinear_arith)
        requires a * (u - f) <= cb * (u * u), a * (u - f) > 0, u > 0;
    assert(cb <= dl) by (nonlinear_arith)
        requires cb * (u * u) < a * (u - f) + u * u, a <= dl * u, 0 <= f, u > 0, a > 0;
    assert(cc >= 0) by (nonlinear_arith)
        requires a * f < cc * (u * u) + u * u, a >= 0, f >= 0, u > 0;
    assert(cc <= dl) by (nonlinear_arith)
        requires cc * (u * u) < a * f + u * u, a <= dl * u, f < u, u > 0, a > 0;
    assert(f > 0 ==> cc >= 1) by (nonlinear_arith)
        requires a * f <= cc * (u * u), a > 0, u > 0;
    assert(f == 0 ==> cc == 0) by (nonlinear_arith)
        requires cc * (u * u) < a * f + u * u, cc >= 0, u > 0;
    // the hue numerators are within one unit of exact
    assert(-u < dl * (u - f) - u * cb < u) by (nonlinear_arith)
        requires a <= dl * u < a + u, a * (u - f) <= cb * (u * u) < a * (u - f) + u * u,
            0 <= f < u, u > 0;
    assert(-u < u * cc - dl * f < u) by (nonlinear_arith)
        requires a <= dl * u < a + u, a * f <= cc * (u * u) < a * f + u * u, 0 <= f < u, u > 0;
    // saturation
    assert(dl * u / v >= s && dl * u / v - s <= THOUSANDTH) by (nonlinear_arith)
        requires a == v * s, a <= dl * u < a + u, v > 2550000, u == 2550000000;
    let (r, g, b) = hsb_to_rgb_spec(h, s, v);
    let (h2, s2, v2) = rgb_to_hsb_spec(r, g, b);
    assert(p == v - dl && t == v - cb && q == v - cc);
    if i == 0 {
        assert((r, g, b) == (v, t, p));
        assert(-u < (dl - cb) * u - 6 * dl * h < u) by (nonlinear_arith)
            requires 6 * h == f, -u < dl * (u - f) - u * cb < u;
        lemma_quotient_near(dl - cb, dl, h);
    } else if i == 1 {
        assert((r, g, b) == (q, v, p));
        assert(-u < (dl + cc) * u - 6 * dl * h < u) by (nonlinear_arith)
            requires 6 * h == u + f, -u < u * cc - dl * f < u;
        lemma_quotient_near(dl + cc, dl, h);
    } else if i == 2 {
        assert((r, g, b) == (p, v, t));
        assert(-u < (3 * dl - cb) * u - 6 * dl * h < u) by (nonlinear_arith)
            requires 6 * h == 2 * u + f, -u < dl * (u - f) - u * cb < u;
        lemma_quotient_near(3 * dl - cb, dl, h);
    } else if i == 3 {
        assert((r, g, b) == (p, q, v));
        assert(-u < (3 * dl + cc) * u - 6 * dl * h < u) by (nonlinear_arith)
            requires 6 * h == 3 * u + f, -u < u * cc - dl * f < u;
        lemma_quotient_near(3 * dl + cc, dl, h);
    } else if i == 4 {
        assert((r, g, b) == (t, p, v));
        assert(-u < (5 * dl - cb) * u - 6 * dl * h < u) by (nonlinear_arith)
            requires 6 * h == 4 * u + f, -u < dl * (u - f) - u * cb < u;
        lemma_quotient_near(5 * dl - cb, dl, h);
    } else {
        assert((r, g, b) == (v, p, q));
        assert(-u < (5 * dl + cc) * u - 6 * dl * h < u) by (nonlinear_arith)
            requires 6 * h == 5 * u + f, -u < u * cc - dl * f < u;
        lemma_quotient_near(5 * dl + cc, dl, h);
        if cc == dl {
            assert((6 * dl) * u / (6 * dl) == u) by (nonlinear_arith)
                requires dl > 0;
        }
    }
}

} // verus!
