//! Pointer positions to values: the 1-D sliders and the hue/saturation
//! wheel. Positions and sizes may be in any one integer unit (pixels or a
//! fraction of a pixel); only their ratios matter.
use vstd::prelude::*;
use crate::math::UNIT;
use crate::raster::{isqrt, sqrt_floor, turn_of, turn_of_parts, FINE};

verus! {

/// Largest magnitude of a position or size.
pub const MAX_COORD: i64 = 0x1_0000_0000;

/// The slider value under pointer position `x` on a track `width` long with
/// thumbs of radius `thumb` at its ends: 1 at the left thumb centre falling
/// to 0 at the right one, clamped. `None` when the track leaves no room.
pub open spec fn slider_value_spec(x: int, width: int, thumb: int) -> Option<int> {
    let usable = width - 2 * thumb;
    if usable <= 0 {
        None
    } else {
        let off = if x - thumb < 0 { 0 } else if x - thumb > usable { usable } else { x - thumb };
        Some(UNIT - off * UNIT / usable)
    }
}

/// Hue and saturation under pointer `(x, y)` on a wheel drawn in a
/// `width` x `height` box: hue from the direction from the centre,
/// saturation from the distance over the radius (half the shorter side),
/// clamped to 1. `None` when the box is empty.
pub open spec fn wheel_value_spec(x: int, y: int, width: int, height: int) -> Option<(int, int)> {
    let m = if width <= height { width } else { height };
    let dx = 2 * x - width;
    let dy = 2 * y - height;
    if m <= 0 {
        None
    } else {
        let d = sqrt_floor((dx * dx + dy * dy) * FINE * FINE);
        let sat = if d >= m * FINE { UNIT as int } else { d * UNIT / (m * FINE) };
        Some((turn_of(dx, dy), sat))
    }
}

/// The slider value under a pointer; see `slider_value_spec`.
pub fn slider_value_at(x: i64, width: i64, thumb: i64) -> (v: Option<u64>)
    requires
        -MAX_COORD <= x <= MAX_COORD,
        -MAX_COORD <= width <= MAX_COORD,
        -MAX_COORD <= thumb <= MAX_COORD,
    ensures
        match v { Some(a) => slider_value_spec(x as int, width as int, thumb as int) == Some(a as int), None => slider_value_spec(x as int, width as int, thumb as int).is_none() },
        v.is_some() ==> v.unwrap() <= UNIT,
{
    let usable: i64 = width - 2 * thumb;
    if usable <= 0 {
        return None;
    }
    let off: i64 = if x - thumb < 0 { 0 } else if x - thumb > usable { usable } else { x - thumb };
    proof {
        assert(off as int * UNIT <= usable as int * UNIT) by (nonlinear_arith)
            requires 0 <= off <= usable;
        assert(usable as int * UNIT <= 0x4_0000_0000 * 0x1_0000_0000) by (nonlinear_arith)
            requires usable <= 0x3_0000_0000;
        assert(off as int * UNIT / (usable as int) <= UNIT) by (nonlinear_arith)
            requires 0 <= off <= usable, usable > 0;
    }
    let frac: u128 = off as u128 * UNIT as u128 / usable as u128;
    Some(UNIT - frac as u64)
}

/// Magnitude and sign of an offset.
fn split_sign(x: i64) -> (r: (u64, bool))
    requires
        -0x4_0000_0000 <= x <= 0x4_0000_0000,
    ensures
        r.0 <= 0x4_0000_0000,
        r.1 ==> r.0 > 0,
        (if r.1 { -r.0 } else { r.0 as int }) == x,
{
    if x < 0 { ((0 - x) as u64, true) } else { (x as u64, false) }
}

/// Hue and saturation under a pointer on the wheel; see `wheel_value_spec`.
pub fn wheel_value_at(x: i64, y: i64, width: i64, height: i64) -> (r: Option<(u64, u64)>)
    requires
        -MAX_COORD <= x <= MAX_COORD,
        -MAX_COORD <= y <= MAX_COORD,
        -MAX_COORD <= width <= MAX_COORD,
        -MAX_COORD <= height <= MAX_COORD,
    ensures
        match r { Some(p) => wheel_value_spec(x as int, y as int, width as int, height as int) == Some((p.0 as int, p.1 as int)), None => wheel_value_spec(x as int, y as int, width as int, height as int).is_none() },
        r.is_some() ==> r.unwrap().0 < UNIT && r.unwrap().1 <= UNIT,
{
    let m: i64 = if width <= height { width } else { height };
    if m <= 0 {
        return None;
    }
    let (ax, x_neg) = split_sign(2 * x - width);
    let (ay, y_neg) = split_sign(2 * y - height);
    let ghost dx: int = 2 * x - width;
    let ghost dy: int = 2 * y - height;
    proof {
        assert(dx * dx == ax * ax) by (nonlinear_arith)
            requires dx == ax || dx == -ax;
        assert(dy * dy == ay * ay) by (nonlinear_arith)
            requires dy == ay || dy == -ay;
        assert(ax * ax <= 0x4_0000_0000 * 0x4_0000_0000) by (nonlinear_arith)
            requires ax <= 0x4_0000_0000;
        assert(ay * ay <= 0x4_0000_0000 * 0x4_0000_0000) by (nonlinear_arith)
            requires ay <= 0x4_0000_0000;
    }
    let q: u128 = ax as u128 * ax as u128 + ay as u128 * ay as u128;
    let f: u128 = FINE as u128;
    proof {
        assert(q * f * f <= 0x20_0000_0000_0000_0000 * (1024 * 1024)) by (nonlinear_arith)
            requires q <= 0x20_0000_0000_0000_0000, f == 1024;
    }
    let d: u128 = isqrt(q * f * f);
    let reach: u128 = m as u128 * f;
    let sat: u64 = if d >= reach {
        UNIT
    } else {
        proof {
            let (di, ri) = (d as int, reach as int);
            assert(di * UNIT / ri <= UNIT) by (nonlinear_arith)
                requires 0 <= di < ri;
            assert(di * UNIT <= ri * UNIT) by (nonlinear_arith)
                requires 0 <= di < ri;
        }
        (d * UNIT as u128 / reach) as u64
    };
    let hue = turn_of_parts(ax, x_neg, ay, y_neg);
    Some((hue, sat))
}

} // verus!
