//! Colors written as `#RRGGBB`.
//!
//! Drawing works on fractional channels; what is written and read is the three
//! 8-bit channels, which is what this module handles.

use vstd::prelude::*;
use crate::text::{chars_of, drop_leading, push_char, trim, trim_bounds};

verus! {

/// A color as three 8-bit channels.
#[derive(Clone, Copy, Debug, PartialEq, Eq, Structural)]
pub struct Rgb8 {
    pub r: u8,
    pub g: u8,
    pub b: u8,
}

/// The value of a hexadecimal digit, either case.
pub open spec fn hex_val(c: char) -> Option<nat> {
    if '0' <= c <= '9' {
        Some((c as u32 - 48) as nat)
    } else if 'a' <= c <= 'f' {
        Some((c as u32 - 87) as nat)
    } else if 'A' <= c <= 'F' {
        Some((c as u32 - 55) as nat)
    } else {
        None
    }
}

/// `c` is a hexadecimal digit.
pub open spec fn is_hex(c: char) -> bool {
    hex_val(c) is Some
}

/// The number written by the hexadecimal digits `d`.
pub open spec fn hex_number(d: Seq<char>) -> nat
    decreases d.len(),
{
    if d.len() == 0 {
        0
    } else {
        hex_number(d.drop_last()) * 16 + hex_val(d.last()).unwrap_or(0)
    }
}

/// Every character of `b` is a hexadecimal digit.
pub open spec fn all_hex(b: Seq<char>) -> bool {
    forall|i: int| 0 <= i < b.len() ==> #[trigger] is_hex(b[i])
}

/// `#RRGGBB` read the way the configuration and the command line read a color:
/// white space trimmed, leading `#` signs dropped, then exactly six
/// hexadecimal digits, two for each channel.
pub open spec fn parse_hex(s: Seq<char>) -> Option<Rgb8> {
    let t = drop_leading(trim(s), '#');
    if t.len() == 6 && all_hex(t) {
        let v = hex_number(t);
        Some(Rgb8 { r: ((v / 65536) % 256) as u8, g: ((v / 256) % 256) as u8, b: (v % 256) as u8 })
    } else {
        None
    }
}

/// The upper-case hexadecimal digit for `n < 16`.
pub open spec fn hex_upper(n: nat) -> char {
    if n < 10 {
        ((n + 48) as u32) as char
    } else {
        ((n + 55) as u32) as char
    }
}

pub open spec fn hex_pair(x: u8) -> Seq<char> {
    seq![hex_upper((x / 16) as nat), hex_upper((x % 16) as nat)]
}

/// `#RRGGBB` in upper case.
pub open spec fn format_hex(c: Rgb8) -> Seq<char> {
    seq!['#'] + hex_pair(c.r) + hex_pair(c.g) + hex_pair(c.b)
}

fn hex_digit_value(c: char) -> (r: Option<u32>)
    ensures
        match r {
            Some(v) => hex_val(c) == Some(v as nat) && v < 16,
            None => hex_val(c) is None,
        },
{
    if '0' <= c && c <= '9' {
        Some(c as u32 - 48)
    } else if 'a' <= c && c <= 'f' {
        Some(c as u32 - 87)
    } else if 'A' <= c && c <= 'F' {
        Some(c as u32 - 55)
    } else {
        None
    }
}

fn upper_digit(n: u8) -> (c: char)
    requires
        n < 16,
    ensures
        c == hex_upper(n as nat),
{
    if n < 10 {
        (n + 48) as char
    } else {
        (n + 55) as char
    }
}

impl Rgb8 {
    /// Reads `#RRGGBB` (also `RRGGBB`, with white space around).
    pub fn from_hex(s: &str) -> (r: Option<Rgb8>)
        ensures
            r == parse_hex(s@),
    {
        let v = chars_of(s);
        let (lo0, hi) = trim_bounds(&v);
        let ghost tr = v@.subrange(lo0 as int, hi as int);
        let mut lo = lo0;
        while lo < hi && v[lo] == '#'
            invariant
                lo0 <= lo <= hi <= v@.len(),
                tr == v@.subrange(lo0 as int, hi as int),
                drop_leading(tr, '#') == drop_leading(v@.subrange(lo as int, hi as int), '#'),
            decreases hi - lo,
        {
            proof {
                let u = v@.subrange(lo as int, hi as int);
                assert(u.drop_first() =~= v@.subrange(lo + 1, hi as int));
            }
            lo = lo + 1;
        }
        let ghost t = v@.subrange(lo as int, hi as int);
        assert(drop_leading(t, '#') == t);
        if hi - lo != 6 {
            return None;
        }
        assert(drop_leading(trim(s@), '#') == t);
        let mut value: u32 = 0;
        let mut i = lo;
        while i < hi
            invariant
                lo <= i <= hi <= v@.len(),
                hi - lo == 6,
                value == hex_number(v@.subrange(lo as int, i as int)),
                value < pow16(i - lo),
                forall|j: int| lo <= j < i ==> #[trigger] is_hex(v@[j]),
                t == v@.subrange(lo as int, hi as int),
                drop_leading(trim(s@), '#') == t,
            decreases hi - i,
        {
            match hex_digit_value(v[i]) {
                None => {
                    proof {
                        assert(t[i - lo] == v@[i as int]);
                        assert(!is_hex(t[i - lo]));
                        assert(!all_hex(t));
                    }
                    return None;
                },
                Some(d) => {
                    proof {
                        let u = v@.subrange(lo as int, i + 1);
                        assert(u.drop_last() =~= v@.subrange(lo as int, i as int));
                        assert(value * 16 + d < pow16(i + 1 - lo)) by (nonlinear_arith)
                            requires
                                value < pow16(i - lo),
                                d < 16,
                                pow16(i + 1 - lo) == pow16(i - lo) * 16,
                        {}
                        lemma_pow16_step(i - lo);
                        lemma_pow16_bound(i + 1 - lo);
                    }
                    value = value * 16 + d;
                },
            }
            i = i + 1;
        }
        proof {
            assert(v@.subrange(lo as int, hi as int) =~= t);
            assert forall|j: int| 0 <= j < t.len() implies #[trigger] is_hex(t[j]) by {
                assert(t[j] == v@[lo + j]);
            }
            assert(all_hex(t));
        }
        Some(Rgb8 { r: ((value / 65536) % 256) as u8, g: ((value / 256) % 256) as u8, b: (value % 256) as u8 })
    }

    /// Writes `#RRGGBB` in upper case.
    pub fn to_hex(&self) -> (s: String)
        ensures
            s@ == format_hex(*self),
    {
        let mut s = String::new();
        push_char(&mut s, '#');
        push_char(&mut s, upper_digit(self.r / 16));
        push_char(&mut s, upper_digit(self.r % 16));
        push_char(&mut s, upper_digit(self.g / 16));
        push_char(&mut s, upper_digit(self.g % 16));
        push_char(&mut s, upper_digit(self.b / 16));
        push_char(&mut s, upper_digit(self.b % 16));
        assert(s@ =~= format_hex(*self));
        s
    }
}

pub open spec fn pow16(n: int) -> nat
    decreases n,
{
    if n <= 0 {
        1
    } else {
        16 * pow16(n - 1)
    }
}

proof fn lemma_pow16_step(n: int)
    requires
        n >= 0,
    ensures
        pow16(n + 1) == pow16(n) * 16,
{
}

proof fn lemma_pow16_bound(n: int)
    requires
        0 <= n <= 6,
    ensures
        pow16(n) <= 16777216,
{
    reveal_with_fuel(pow16, 7);
}

proof fn lemma_hex_upper(n: nat)
    requires
        n < 16,
    ensures
        hex_val(hex_upper(n)) == Some(n),
        hex_upper(n) != '#',
        !crate::text::is_white_space(hex_upper(n)),
{
}

/// Writing a color as `#RRGGBB` and reading it back gives the same color.
pub proof fn lemma_hex_round_trip(c: Rgb8)
    ensures
        parse_hex(format_hex(c)) == Some(c),
{
    let s = format_hex(c);
    let (r1, r2) = ((c.r / 16) as nat, (c.r % 16) as nat);
    let (g1, g2) = ((c.g / 16) as nat, (c.g % 16) as nat);
    let (b1, b2) = ((c.b / 16) as nat, (c.b % 16) as nat);
    lemma_hex_upper(r1);
    lemma_hex_upper(r2);
    lemma_hex_upper(g1);
    lemma_hex_upper(g2);
    lemma_hex_upper(b1);
    lemma_hex_upper(b2);
    assert(s.len() == 7);
    assert(crate::text::trim_start_ws(s) == s);
    assert(crate::text::trim_end_ws(s) == s);
    let t = s.drop_first();
    assert(t.drop_first() =~= s.drop_first().drop_first());
    assert(drop_leading(s, '#') == drop_leading(t, '#'));
    assert(drop_leading(t, '#') == t);
    assert(t.len() == 6);
    assert forall|i: int| 0 <= i < t.len() implies #[trigger] is_hex(t[i]) by {
        assert(t[i] == s[i + 1]);
    }
    assert(all_hex(t));
    let v = hex_number(t);
    assert(t.drop_last().drop_last().drop_last().drop_last().drop_last().drop_last().len() == 0);
    reveal_with_fuel(hex_number, 7);
    assert(t.drop_last().drop_last().drop_last().drop_last().drop_last() =~= seq![hex_upper(r1)]);
    assert(t.drop_last().drop_last().drop_last().drop_last() =~= seq![hex_upper(r1), hex_upper(r2)]);
    assert(v == ((((r1 * 16 + r2) * 16 + g1) * 16 + g2) * 16 + b1) * 16 + b2);
    assert(v == c.r * 65536 + c.g * 256 + c.b) by (nonlinear_arith)
        requires
            v == ((((r1 * 16 + r2) * 16 + g1) * 16 + g2) * 16 + b1) * 16 + b2,
            c.r == r1 * 16 + r2,
            c.g == g1 * 16 + g2,
            c.b == b1 * 16 + b2,
    {}
    assert((v / 65536) % 256 == c.r && (v / 256) % 256 == c.g && v % 256 == c.b) by (nonlinear_arith)
        requires
            v == c.r * 65536 + c.g * 256 + c.b,
            c.r < 256,
            c.g < 256,
            c.b < 256,
    {}
}

/// `char::to_ascii_uppercase`: `a`..`z` become `A`..`Z`, every other char stays.
pub open spec fn ascii_upper(c: char) -> char {
    if 'a' <= c <= 'z' {
        ((c as u32) - 32) as char
    } else {
        c
    }
}

/// `str::to_ascii_uppercase` on the characters of a string.
pub open spec fn upper_seq(s: Seq<char>) -> Seq<char> {
    s.map_values(|c: char| ascii_upper(c))
}

proof fn lemma_hex_digit_upper(c: char)
    requires
        is_hex(c),
    ensures
        hex_val(c)->Some_0 < 16,
        hex_upper(hex_val(c)->Some_0) == ascii_upper(c),
        !crate::text::is_white_space(c),
        c != '#',
{
}

/// Reading `#` and six hexadecimal digits, in either case, and writing the
/// color again gives the same digits in upper case.
pub proof fn lemma_hex_digits_round_trip(h: Seq<char>)
    requires
        h.len() == 6,
        all_hex(h),
    ensures
        parse_hex(seq!['#'] + h) is Some,
        format_hex(parse_hex(seq!['#'] + h)->Some_0) == seq!['#'] + upper_seq(h),
{
    let s = seq!['#'] + h;
    assert(is_hex(h[0]) && is_hex(h[1]) && is_hex(h[2]) && is_hex(h[3]) && is_hex(h[4]) && is_hex(h[5]));
    lemma_hex_digit_upper(h[0]);
    lemma_hex_digit_upper(h[1]);
    lemma_hex_digit_upper(h[2]);
    lemma_hex_digit_upper(h[3]);
    lemma_hex_digit_upper(h[4]);
    lemma_hex_digit_upper(h[5]);
    assert(s.last() == h[5]);
    assert(crate::text::trim_start_ws(s) == s);
    assert(crate::text::trim_end_ws(s) == s);
    assert(s.drop_first() =~= h);
    assert(drop_leading(s, '#') == drop_leading(h, '#'));
    assert(drop_leading(h, '#') == h);
    let d0 = hex_val(h[0])->Some_0;
    let d1 = hex_val(h[1])->Some_0;
    let d2 = hex_val(h[2])->Some_0;
    let d3 = hex_val(h[3])->Some_0;
    let d4 = hex_val(h[4])->Some_0;
    let d5 = hex_val(h[5])->Some_0;
    reveal_with_fuel(hex_number, 7);
    assert(h.drop_last().drop_last().drop_last().drop_last().drop_last().drop_last().len() == 0);
    assert(h.drop_last().drop_last().drop_last().drop_last().drop_last() =~= seq![h[0]]);
    assert(h.drop_last().drop_last().drop_last().drop_last() =~= seq![h[0], h[1]]);
    assert(h.drop_last().drop_last().drop_last() =~= seq![h[0], h[1], h[2]]);
    assert(h.drop_last().drop_last() =~= seq![h[0], h[1], h[2], h[3]]);
    assert(h.drop_last() =~= seq![h[0], h[1], h[2], h[3], h[4]]);
    let v = hex_number(h);
    assert(v == ((((d0 * 16 + d1) * 16 + d2) * 16 + d3) * 16 + d4) * 16 + d5);
    let c = parse_hex(s)->Some_0;
    assert(c.r == d0 * 16 + d1 && c.g == d2 * 16 + d3 && c.b == d4 * 16 + d5) by (nonlinear_arith)
        requires
            v == ((((d0 * 16 + d1) * 16 + d2) * 16 + d3) * 16 + d4) * 16 + d5,
            d0 < 16,
            d1 < 16,
            d2 < 16,
            d3 < 16,
            d4 < 16,
            d5 < 16,
            c.r == ((v / 65536) % 256) as u8,
            c.g == ((v / 256) % 256) as u8,
            c.b == (v % 256) as u8,
    {}
    assert(c.r / 16 == d0 && c.r % 16 == d1 && c.g / 16 == d2 && c.g % 16 == d3 && c.b / 16 == d4
        && c.b % 16 == d5) by (nonlinear_arith)
        requires
            c.r == d0 * 16 + d1,
            c.g == d2 * 16 + d3,
            c.b == d4 * 16 + d5,
            d1 < 16,
            d3 < 16,
            d5 < 16,
    {}
    assert(format_hex(c) =~= seq!['#'] + upper_seq(h));
}

/// Every color is written as `#` and six upper-case hexadecimal digits.
pub proof fn lemma_hex_written_form(c: Rgb8)
    ensures
        format_hex(c).len() == 7,
        format_hex(c)[0] == '#',
        forall|i: int|
            1 <= i < 7 ==> is_hex(#[trigger] format_hex(c)[i]) && !('a' <= format_hex(c)[i] <= 'z'),
{
    lemma_hex_upper((c.r / 16) as nat);
    lemma_hex_upper((c.r % 16) as nat);
    lemma_hex_upper((c.g / 16) as nat);
    lemma_hex_upper((c.g % 16) as nat);
    lemma_hex_upper((c.b / 16) as nat);
    lemma_hex_upper((c.b % 16) as nat);
}

} // verus!
