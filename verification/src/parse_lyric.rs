//! Time tags of LRC lyrics (`mm:ss.xx`) and the inline lyric line.
//!
//! Times are whole milliseconds; a fraction of a millisecond is dropped.

use vstd::prelude::*;
use crate::decimal::{decimal_units, read_decimal_units, read_scaled_units, scaled_units};
use crate::model::clamp_i64;
use crate::text::{
    all_digits, append_chars, chars_of, decimal_spec, i64_to_string, is_digit,
    lemma_split_nonempty, split_chars, split_spec, string_of, views,
};

verus! {

/// The time a tag `mm:ss` stands for, in milliseconds: minutes and
/// seconds read as decimal numbers (see `scaled_units`), each taken to the
/// millisecond toward zero, added and saturating at the bounds of `i64`;
/// text after a second `:` is not read. `None` where the tag is not of
/// that form.
pub open spec fn time_tag_ms(tag: Seq<char>) -> Option<i64> {
    let parts = split_spec(tag, ':');
    if parts.len() < 2 {
        None
    } else {
        match scaled_units(parts[0], 6, 4) {
            None => None,
            Some(mm) => match decimal_units(parts[1], 3) {
                None => None,
                Some(ss) => Some(clamp_i64(mm + ss)),
            },
        }
    }
}

/// Every character is a decimal digit.
pub fn digits_only(s: &[char]) -> (r: bool)
    ensures
        r == all_digits(s@),
{
    let mut i: usize = 0;
    while i < s.len()
        invariant
            i <= s@.len(),
            forall|j: int| 0 <= j < i ==> is_digit(#[trigger] s@[j]),
        decreases s@.len() - i,
    {
        if !(s[i] >= '0' && s[i] <= '9') {
            assert(!is_digit(s@[i as int]));
            return false;
        }
        i = i + 1;
    }
    true
}

/// The time of a tag `mm:ss.xx` in milliseconds, or `None` where the tag is
/// not of that form.
pub fn time_tag_ms_of(time_tag: &str) -> (r: Option<i64>)
    ensures
        r == time_tag_ms(time_tag@),
{
    let chars = chars_of(time_tag);
    let parts = split_chars(chars.as_slice(), ':');
    proof {
        lemma_split_nonempty(chars@, ':');
    }
    if parts.len() < 2 {
        return None;
    }
    assert(views(parts@)[0] == parts@[0]@);
    assert(views(parts@)[1] == parts@[1]@);
    let mm = match read_scaled_units(parts[0].as_slice(), 6, 4) {
        None => {
            return None;
        },
        Some(v) => v,
    };
    let ss = match read_decimal_units(parts[1].as_slice(), 3) {
        None => {
            return None;
        },
        Some(v) => v,
    };
    let total: i128 = mm as i128 + ss as i128;
    if total > 0x7fff_ffff_ffff_ffff {
        Some(0x7fff_ffff_ffff_ffff)
    } else if total < -0x8000_0000_0000_0000 {
        Some(-0x8000_0000_0000_0000)
    } else {
        Some(total as i64)
    }
}

/// The time of a tag `mm:ss.xx`, in milliseconds.
pub fn time_tag_to_time_f64(time_tag: &str) -> (r: i64)
    requires
        time_tag_ms(time_tag@) is Some,
    ensures
        r == time_tag_ms(time_tag@).unwrap(),
{
    match time_tag_ms_of(time_tag) {
        Some(v) => v,
        None => 0,
    }
}

/// `a / b` rounded toward zero (Rust's integer division).
pub open spec fn trunc_div(a: int, b: int) -> int {
    if a >= 0 {
        a / b
    } else {
        -((-a) / b)
    }
}

/// The remainder of `trunc_div` (Rust's `%`), with the sign of `a`.
pub open spec fn trunc_rem(a: int, b: int) -> int {
    a - trunc_div(a, b) * b
}

/// How a float holding the whole number `v` prints: its decimal digits,
/// or `-0` for a zero that came from a negative time.
pub open spec fn whole_float_text(v: int, negative: bool) -> Seq<char> {
    if v == 0 && negative {
        seq!['-', '0']
    } else {
        decimal_spec(v)
    }
}

/// The tag written for a time of `ms` milliseconds: the minutes (rounded
/// down) as their tens and their last digit, the seconds within the minute
/// and the milliseconds, the last two without padding, as in `01:5.230`.
/// Before zero the parts carry the time's sign, as the float arithmetic
/// that writes them gives it (`-1500` ms is written `0-1:-2.-500`).
pub open spec fn time_tag_text(ms: int) -> Seq<char> {
    let secs = ms / 1000;
    let mm = secs / 60;
    decimal_spec(trunc_div(mm, 10)) + decimal_spec(trunc_rem(mm, 10)) + seq![':']
        + whole_float_text(trunc_rem(secs, 60), secs < 0) + seq!['.'] + whole_float_text(
        trunc_rem(ms, 1000),
        ms < 0,
    )
}

/// `x / d` rounded down, and `x` divided by `d` toward zero with its
/// remainder.
fn div_parts(x: i128, d: i128) -> (r: (i128, i128, i128))
    requires
        0 < d <= 1000,
        -0x1_0000_0000_0000_0000 <= x <= 0x1_0000_0000_0000_0000,
    ensures
        r.0 == x / d,
        r.1 == trunc_div(x as int, d as int),
        r.2 == trunc_rem(x as int, d as int),
{
    if x >= 0 {
        let q = (x as u128 / d as u128) as i128;
        let m = (x as u128 % d as u128) as i128;
        assert(q == x / d && m == x % d);
        assert(x == q * d + m) by (nonlinear_arith)
            requires
                q == x / d,
                m == x % d,
                0 < d,
        ;
        (q, q, m)
    } else {
        let a: u128 = (-x) as u128;
        let t = (a / d as u128) as i128;
        let m = (a % d as u128) as i128;
        let f = if m == 0 {
            -t
        } else {
            -t - 1
        };
        assert(a == t * d + m && 0 <= m < d) by (nonlinear_arith)
            requires
                t == a / (d as u128),
                m == a % (d as u128),
                0 < d,
        ;
        assert(f == x / d) by (nonlinear_arith)
            requires
                x == -(t * d + m),
                f == (if m == 0 { -t } else { -t - 1 }),
                0 <= m < d,
                0 < d,
        ;
        assert(trunc_div(x as int, d as int) == -t);
        assert(trunc_rem(x as int, d as int) == -m) by (nonlinear_arith)
            requires
                x == -(t * d + m),
                trunc_rem(x as int, d as int) == x - (-t) * d,
        ;
        (f, -t, -m)
    }
}

/// The text of a whole float: `-0` for a negative zero.
fn whole_float_string(v: i64, negative: bool) -> (r: String)
    ensures
        r@ == whole_float_text(v as int, negative),
{
    if v == 0 && negative {
        let mut out: Vec<char> = Vec::new();
        out.push('-');
        out.push('0');
        let r = string_of(out.as_slice());
        assert(r@ =~= seq!['-', '0']);
        r
    } else {
        i64_to_string(v)
    }
}

/// Writes the time tag of a time of `ms` milliseconds (see `time_tag_text`).
pub fn time_f64_to_time_tag(ms: i64) -> (r: String)
    ensures
        r@ == time_tag_text(ms as int),
{
    let (secs, _, f) = div_parts(ms as i128, 1000);
    let (mm, _, ss) = div_parts(secs, 60);
    let (_, tens, last) = div_parts(mm, 10);
    let mut out: Vec<char> = Vec::new();
    let a = chars_of(i64_to_string(tens as i64).as_str());
    append_chars(&mut out, a.as_slice());
    let b = chars_of(i64_to_string(last as i64).as_str());
    append_chars(&mut out, b.as_slice());
    out.push(':');
    let c = chars_of(whole_float_string(ss as i64, secs < 0).as_str());
    append_chars(&mut out, c.as_slice());
    out.push('.');
    let d = chars_of(whole_float_string(f as i64, ms < 0).as_str());
    append_chars(&mut out, d.as_slice());
    let r = string_of(out.as_slice());
    assert(r@ =~= time_tag_text(ms as int));
    r
}

/// A line of lyrics with the time it starts at.
pub struct LyricInline {
    pub timestamp: i64,
    pub verse: String,
}

impl LyricInline {
    pub fn new(timestamp: i64, verse: String) -> (r: LyricInline)
        ensures
            r.timestamp == timestamp,
            r.verse == verse,
    {
        LyricInline { timestamp, verse }
    }

    /// The verse.
    pub fn lyric_str(&self) -> (r: String)
        ensures
            r@ == self.verse@,
    {
        self.verse.clone()
    }

    /// `[time tag]verse`.
    pub fn to_string(&self) -> (r: String)
        ensures
            r@ == seq!['['] + time_tag_text(self.timestamp as int) + seq![']'] + self.verse@,
    {
        let mut out: Vec<char> = Vec::new();
        out.push('[');
        let t = chars_of(time_f64_to_time_tag(self.timestamp).as_str());
        append_chars(&mut out, t.as_slice());
        out.push(']');
        let v = chars_of(self.verse.as_str());
        append_chars(&mut out, v.as_slice());
        let r = string_of(out.as_slice());
        assert(r@ =~= seq!['['] + time_tag_text(self.timestamp as int) + seq![']'] + self.verse@);
        r
    }
}

} // verus!
