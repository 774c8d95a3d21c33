//! Text fields of the editor: numeric fields that show a channel scaled to
//! a display range and rounded, the live hex field, and copy text.
use vstd::prelude::*;
use crate::hex::{
    all_hex, all_hex_from, digit_char, digit_of, leading_hashes, push_char, strip_hashes, upper_of,
    upper_text,
};
use crate::math::UNIT;

verus! {

/// Decimal digits of `n`.
pub open spec fn decimal(n: nat) -> Seq<char>
    decreases n,
{
    if n < 10 {
        seq![digit_char(n as int)]
    } else {
        decimal(n / 10).push(digit_char((n % 10) as int))
    }
}

/// The rounded display number of a channel `value` on the range `0..=max`:
/// `round(value * max)`.
pub open spec fn display_of(value: int, max: int) -> int {
    (value * max + UNIT / 2) / (UNIT as int)
}

/// A number entered in a field (in fixed point: `UNIT` per display unit)
/// clamped to `0..=max` display units.
pub open spec fn clamp_entry(e: int, max: int) -> int {
    if e < 0 { 0 } else if e > max * UNIT { max * UNIT } else { e }
}

/// The outcome of committing a numeric field: the channel's new value, if
/// it changes, and the display number the field then shows. An entry that
/// did not parse restores the current display. A parsed entry is clamped to
/// the range and rounded; the channel is set to it only when its rounded
/// display differs from the current one.
pub open spec fn number_commit_spec(entered: Option<int>, current: int, max: int) -> (Option<int>, int) {
    let old_display = display_of(current, max);
    match entered {
        None => (None, old_display),
        Some(e) => {
            let c = clamp_entry(e, max);
            let shown = (c + UNIT / 2) / (UNIT as int);
            (if shown != old_display { Some(c / max) } else { None }, shown)
        },
    }
}

/// Append the decimal digits of `n`.
fn push_decimal(out: &mut String, n: u64)
    ensures
        final(out)@ == old(out)@ + decimal(n as nat),
    decreases n,
{
    if n >= 10 {
        push_decimal(out, n / 10);
    }
    push_char(out, digit_of((n % 10) as u8));
    assert(out@ =~= old(out)@ + decimal(n as nat));
}

/// The decimal text of `n`.
pub fn decimal_text(n: u64) -> (s: String)
    ensures
        s@ == decimal(n as nat),
{
    let mut out = String::new();
    push_decimal(&mut out, n);
    assert(out@ =~= decimal(n as nat));
    out
}

/// The rounded display number of a channel on the range `0..=max`.
pub fn display_value(value: u64, max: u64) -> (d: u64)
    requires
        value <= UNIT,
    ensures
        d as int == display_of(value as int, max as int),
        d <= max,
{
    proof {
        assert(value as int * max <= UNIT as int * u64::MAX) by (nonlinear_arith)
            requires value <= UNIT, max <= u64::MAX;
        assert((value as int * max + UNIT / 2) / (UNIT as int) <= max) by (nonlinear_arith)
            requires value <= UNIT, max >= 0;
    }
    ((value as u128 * max as u128 + (UNIT / 2) as u128) / UNIT as u128) as u64
}

/// The text a numeric field shows for a channel: its rounded display number.
pub fn format_value(value: u64, max: u64) -> (s: String)
    requires
        value <= UNIT,
    ensures
        s@ == decimal(display_of(value as int, max as int) as nat),
{
    decimal_text(display_value(value, max))
}

/// Commit a numeric field. `entered` is the parsed entry in fixed point
/// (`UNIT` per display unit), or `None` when the text is not a number.
/// Returns the channel's new value, if it changes, and the display number
/// that the field shows afterwards.
pub fn commit_number(entered: Option<i64>, current: u64, max: u64) -> (r: (Option<u64>, u64))
    requires
        current <= UNIT,
        1 <= max,
    ensures
        r.0.is_some() ==> r.0.unwrap() <= UNIT,
        (match r.0 { Some(v) => Some(v as int), None => None::<int> }, r.1 as int) == number_commit_spec(
            match entered { Some(e) => Some(e as int), None => None::<int> },
            current as int,
            max as int,
        ),
{
    let old_display = display_value(current, max);
    match entered {
        None => (None, old_display),
        Some(e) => {
            proof {
                assert(max as int * UNIT <= u64::MAX as int * UNIT) by (nonlinear_arith)
                    requires max <= u64::MAX;
            }
            let top: i128 = max as i128 * UNIT as i128;
            let c: i128 = if (e as i128) < 0 { 0 } else if e as i128 > top { top } else { e as i128 };
            proof {
                let ci = c as int;
                let mi = max as int;
                assert(mi * UNIT <= u64::MAX as int * UNIT) by (nonlinear_arith)
                    requires mi <= u64::MAX;
                assert((ci + UNIT / 2) / (UNIT as int) <= mi) by (nonlinear_arith)
                    requires 0 <= ci <= mi * UNIT, mi >= 1;
                assert(ci / mi <= UNIT) by (nonlinear_arith)
                    requires 0 <= ci <= mi * UNIT, mi >= 1;
            }
            let shown: u64 = ((c + (UNIT / 2) as i128) / UNIT as i128) as u64;
            let value: Option<u64> = if shown != old_display { Some((c / max as i128) as u64) } else { None };
            (value, shown)
        },
    }
}

/// Copy text of three numeric fields: their display numbers joined by `, `.
pub open spec fn triple_text_spec(a: nat, b: nat, c: nat) -> Seq<char> {
    decimal(a) + seq![',', ' '] + decimal(b) + seq![',', ' '] + decimal(c)
}

/// The copy text of three channels shown on their display ranges.
pub fn triple_text(values: (u64, u64, u64), maxes: (u64, u64, u64)) -> (s: String)
    requires
        values.0 <= UNIT,
        values.1 <= UNIT,
        values.2 <= UNIT,
    ensures
        s@ == triple_text_spec(
            display_of(values.0 as int, maxes.0 as int) as nat,
            display_of(values.1 as int, maxes.1 as int) as nat,
            display_of(values.2 as int, maxes.2 as int) as nat,
        ),
{
    let mut out = String::new();
    push_decimal(&mut out, display_value(values.0, maxes.0));
    push_char(&mut out, ',');
    push_char(&mut out, ' ');
    push_decimal(&mut out, display_value(values.1, maxes.1));
    push_char(&mut out, ',');
    push_char(&mut out, ' ');
    push_decimal(&mut out, display_value(values.2, maxes.2));
    proof {
        let a = display_of(values.0 as int, maxes.0 as int) as nat;
        let b = display_of(values.1 as int, maxes.1 as int) as nat;
        let c = display_of(values.2 as int, maxes.2 as int) as nat;
        assert(out@ =~= triple_text_spec(a, b, c));
    }
    out
}

/// What the hex field hands on while it is typed into: six or eight hex
/// digits (after leading `#`), upper-cased; nothing otherwise.
pub open spec fn live_hex_spec(s: Seq<char>) -> Option<Seq<char>> {
    let t = strip_hashes(s);
    if (t.len() == 6 || t.len() == 8) && all_hex(t) { Some(upper_text(t)) } else { None }
}

/// The hex value to hand on while the field is typed into, if any.
pub fn live_hex(raw: &str) -> (r: Option<String>)
    ensures
        match r { Some(x) => live_hex_spec(raw@) == Some(x@), None => live_hex_spec(raw@).is_none() },
{
    let k = leading_hashes(raw);
    let n = raw.unicode_len();
    let len = n - k;
    if (len != 6 && len != 8) || !all_hex_from(raw, k) {
        return None;
    }
    Some(upper_from(raw, k))
}

/// The characters of `s` from `from` on, with hex letters upper-cased.
fn upper_from(s: &str, from: usize) -> (r: String)
    requires
        from <= s@.len(),
    ensures
        r@ == upper_text(s@.subrange(from as int, s@.len() as int)),
{
    let n = s.unicode_len();
    let mut out = String::new();
    let mut i: usize = from;
    while i < n
        invariant
            from <= i <= n,
            n == s@.len(),
            out@ =~= upper_text(s@.subrange(from as int, n as int)).subrange(0, i - from),
        decreases n - i,
    {
        push_char(&mut out, upper_of(s.get_char(i)));
        i = i + 1;
    }
    assert(upper_text(s@.subrange(from as int, n as int)).subrange(0, n - from) =~= upper_text(
        s@.subrange(from as int, n as int),
    ));
    out
}

/// Whether the field's text already shows the hex value `val`: the text
/// without leading `#` and with hex letters upper-cased equals `val`.
pub fn hex_field_shows(text: &str, val: &str) -> (r: bool)
    ensures
        r == (upper_text(strip_hashes(text@)) == val@),
{
    let k = leading_hashes(text);
    let shown = upper_from(text, k);
    let n = shown.unicode_len();
    let m = val.unicode_len();
    if n != m {
        return false;
    }
    let mut i: usize = 0;
    while i < n
        invariant
            i <= n,
            n == shown@.len(),
            n == val@.len(),
            shown@ == upper_text(strip_hashes(text@)),
            forall|j: int| 0 <= j < i ==> shown@[j] == val@[j],
        decreases n - i,
    {
        let sv: &str = shown.as_str();
        let c1 = sv.get_char(i);
        let c2 = val.get_char(i);
        if c1 != c2 {
            assert(shown@[i as int] != val@[i as int]);
            assert(shown@ != val@);
            return false;
        }
        i = i + 1;
    }
    assert(shown@ =~= val@);
    true
}

} // verus!
