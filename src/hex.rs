//! Hex text: digit classification, the accepted text forms, and the
//! normalised eight-digit form.
use vstd::prelude::*;

verus! {

/// Whether `c` is an ASCII hex digit.
pub open spec fn is_hex_char(c: char) -> bool {
    ('0' <= c && c <= '9') || ('a' <= c && c <= 'f') || ('A' <= c && c <= 'F')
}

/// The value of a hex digit.
pub open spec fn hex_val(c: char) -> int {
    if '0' <= c && c <= '9' {
        c as int - '0' as int
    } else if 'a' <= c && c <= 'f' {
        c as int - 'a' as int + 10
    } else {
        c as int - 'A' as int + 10
    }
}

/// The upper-case digit for a value below 16.
pub open spec fn digit_char(n: int) -> char {
    seq!['0', '1', '2', '3', '4', '5', '6', '7', '8', '9', 'A', 'B', 'C', 'D', 'E', 'F'][n]
}

/// Upper-case form of a hex digit (other characters are unchanged).
pub open spec fn upper_char(c: char) -> char {
    if 'a' <= c && c <= 'f' { digit_char(hex_val(c)) } else { c }
}

/// Whether every character of `s` is a hex digit.
pub open spec fn all_hex(s: Seq<char>) -> bool {
    forall|i: int| 0 <= i < s.len() ==> is_hex_char(#[trigger] s[i])
}

/// `s` without its leading `#` characters.
pub open spec fn strip_hashes(s: Seq<char>) -> Seq<char>
    decreases s.len(),
{
    if s.len() > 0 && s[0] == '#' { strip_hashes(s.drop_first()) } else { s }
}

/// Two upper-case digits for a byte.
pub open spec fn byte_text(b: int) -> Seq<char> {
    seq![digit_char(b / 16), digit_char(b % 16)]
}

/// The value of the two digits at `i` and `i + 1`.
pub open spec fn byte_at(s: Seq<char>, i: int) -> int {
    hex_val(s[i]) * 16 + hex_val(s[i + 1])
}

/// Upper-case form of a string of hex digits.
pub open spec fn upper_text(s: Seq<char>) -> Seq<char> {
    s.map_values(|c: char| upper_char(c))
}

/// Each character written twice.
pub open spec fn doubled(s: Seq<char>) -> Seq<char> {
    Seq::new(2 * s.len(), |i: int| s[i / 2])
}

/// The normalised `RRGGBBAA` form of a hex text: shorthand expanded, digits
/// upper-cased, an opaque alpha appended when missing, and `808080FF` for
/// text that is not hex.
pub open spec fn normalize_hex_spec(s: Seq<char>) -> Seq<char> {
    let t = strip_hashes(s);
    let ff = seq!['F', 'F'];
    if !all_hex(t) {
        seq!['8', '0', '8', '0', '8', '0', 'F', 'F']
    } else if t.len() == 3 {
        upper_text(doubled(t)) + ff
    } else if t.len() == 6 {
        upper_text(t) + ff
    } else if t.len() == 8 {
        upper_text(t)
    } else {
        seq!['8', '0', '8', '0', '8', '0', 'F', 'F']
    }
}

/// Every upper-case digit is a hex digit worth its value.
pub proof fn lemma_digit_char(n: int)
    requires
        0 <= n < 16,
    ensures
        is_hex_char(digit_char(n)),
        hex_val(digit_char(n)) == n,
        digit_char(n) != '#',
{
    let d = seq!['0', '1', '2', '3', '4', '5', '6', '7', '8', '9', 'A', 'B', 'C', 'D', 'E', 'F'];
    assert(digit_char(n) == d[n]);
    if n < 10 {
        assert(d[n] as int == '0' as int + n) by {
            if n == 0 {} else if n == 1 {} else if n == 2 {} else if n == 3 {} else if n == 4 {}
            else if n == 5 {} else if n == 6 {} else if n == 7 {} else if n == 8 {} else {}
        }
    } else {
        assert(d[n] as int == 'A' as int + n - 10) by {
            if n == 10 {} else if n == 11 {} else if n == 12 {} else if n == 13 {} else if n == 14 {}
            else {}
        }
    }
}

/// The two digits of a byte are hex digits that read back as the byte.
pub proof fn lemma_byte_text(b: int)
    requires
        0 <= b < 256,
    ensures
        byte_text(b).len() == 2,
        all_hex(byte_text(b)),
        byte_at(byte_text(b), 0) == b,
        byte_text(b)[0] != '#',
{
    lemma_digit_char(b / 16);
    lemma_digit_char(b % 16);
}

/// Relies on `String::push`: appends one character.
#[verifier::external_body]
pub(crate) fn push_char(s: &mut String, c: char)
    ensures
        final(s)@ == old(s)@.push(c),
{
    s.push(c)
}

/// The value of `c` as a hex digit, if it is one.
pub fn hex_digit(c: char) -> (r: Option<u8>)
    ensures
        r.is_some() == is_hex_char(c),
        r.is_some() ==> r.unwrap() as int == hex_val(c) && r.unwrap() < 16,
{
    if '0' <= c && c <= '9' {
        Some((c as u32 - '0' as u32) as u8)
    } else if 'a' <= c && c <= 'f' {
        Some((c as u32 - 'a' as u32 + 10) as u8)
    } else if 'A' <= c && c <= 'F' {
        Some((c as u32 - 'A' as u32 + 10) as u8)
    } else {
        None
    }
}

/// The upper-case digit for a value below 16.
pub fn digit_of(n: u8) -> (c: char)
    requires
        n < 16,
    ensures
        c == digit_char(n as int),
{
    match n {
        0 => '0',
        1 => '1',
        2 => '2',
        3 => '3',
        4 => '4',
        5 => '5',
        6 => '6',
        7 => '7',
        8 => '8',
        9 => '9',
        10 => 'A',
        11 => 'B',
        12 => 'C',
        13 => 'D',
        14 => 'E',
        _ => 'F',
    }
}

/// Upper-case form of a hex digit.
pub(crate) fn upper_of(c: char) -> (u: char)
    ensures
        u == upper_char(c),
{
    if 'a' <= c && c <= 'f' {
        digit_of((c as u32 - 'a' as u32 + 10) as u8)
    } else {
        c
    }
}

/// Once the first `k` characters are `#` and the next is not, stripping
/// leaves the rest.
proof fn lemma_strip_hashes(s: Seq<char>, k: int)
    requires
        0 <= k <= s.len(),
        forall|i: int| 0 <= i < k ==> s[i] == '#',
        k == s.len() || s[k] != '#',
    ensures
        strip_hashes(s) == s.subrange(k, s.len() as int),
    decreases k,
{
    if k == 0 {
        assert(s.subrange(0, s.len() as int) =~= s);
    } else {
        lemma_strip_hashes(s.drop_first(), k - 1);
        assert(s.drop_first().subrange(k - 1, s.len() - 1) =~= s.subrange(k, s.len() as int));
    }
}

/// The number of leading `#` characters of `s`, and the characters after them.
pub fn leading_hashes(s: &str) -> (k: usize)
    ensures
        k <= s@.len(),
        strip_hashes(s@) == s@.subrange(k as int, s@.len() as int),
{
    let n = s.unicode_len();
    let mut k: usize = 0;
    while k < n && s.get_char(k) == '#'
        invariant
            k <= n,
            n == s@.len(),
            forall|i: int| 0 <= i < k ==> s@[i] == '#',
        decreases n - k,
    {
        k = k + 1;
    }
    proof {
        lemma_strip_hashes(s@, k as int);
    }
    k
}

/// Whether the characters of `s` from `from` on are all hex digits.
pub fn all_hex_from(s: &str, from: usize) -> (r: bool)
    requires
        from <= s@.len(),
    ensures
        r == all_hex(s@.subrange(from as int, s@.len() as int)),
{
    let n = s.unicode_len();
    let mut i: usize = from;
    while i < n
        invariant
            from <= i <= n,
            n == s@.len(),
            forall|j: int| from <= j < i ==> is_hex_char(s@[j]),
        decreases n - i,
    {
        if hex_digit(s.get_char(i)).is_none() {
            assert(!is_hex_char(s@.subrange(from as int, n as int)[i - from]));
            return false;
        }
        i = i + 1;
    }
    assert forall|j: int| 0 <= j < n - from implies
        is_hex_char(#[trigger] s@.subrange(from as int, n as int)[j]) by {
        assert(s@.subrange(from as int, n as int)[j] == s@[j + from]);
    }
    true
}

/// The text `808080FF`, a mid grey at full opacity.
fn grey_text() -> (r: String)
    ensures
        r@ == seq!['8', '0', '8', '0', '8', '0', 'F', 'F'],
{
    let mut out = String::new();
    push_char(&mut out, '8');
    push_char(&mut out, '0');
    push_char(&mut out, '8');
    push_char(&mut out, '0');
    push_char(&mut out, '8');
    push_char(&mut out, '0');
    push_char(&mut out, 'F');
    push_char(&mut out, 'F');
    assert(out@ =~= seq!['8', '0', '8', '0', '8', '0', 'F', 'F']);
    out
}

/// Normalise hex text to eight upper-case digits `RRGGBBAA`: leading `#`
/// removed, three-digit shorthand expanded, `FF` appended to six digits, and
/// `808080FF` for anything that is not three, six or eight hex digits.
pub fn normalize_hex(hex: &str) -> (r: String)
    ensures
        r@ == normalize_hex_spec(hex@),
{
    let k = leading_hashes(hex);
    let n = hex.unicode_len();
    let ghost t = hex@.subrange(k as int, n as int);
    if !all_hex_from(hex, k) {
        return grey_text();
    }
    let len = n - k;
    if len != 3 && len != 6 && len != 8 {
        return grey_text();
    }
    let twice: bool = len == 3;
    let mut out = String::new();
    let mut i: usize = k;
    while i < n
        invariant
            k <= i <= n,
            n == hex@.len(),
            t == hex@.subrange(k as int, n as int),
            twice ==> out@ =~= upper_text(doubled(t)).subrange(0, 2 * (i - k)),
            !twice ==> out@ =~= upper_text(t).subrange(0, i - k),
        decreases n - i,
    {
        let c = upper_of(hex.get_char(i));
        push_char(&mut out, c);
        if twice {
            push_char(&mut out, c);
        }
        i = i + 1;
    }
    if len != 8 {
        push_char(&mut out, 'F');
        push_char(&mut out, 'F');
    }
    proof {
        if twice {
            assert(upper_text(doubled(t)).subrange(0, 2 * (n - k)) =~= upper_text(doubled(t)));
        } else {
            assert(upper_text(t).subrange(0, n - k) =~= upper_text(t));
        }
    }
    out
}

} // verus!
