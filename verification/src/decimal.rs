//! Decimal numbers as a float parser reads them: an optional sign, then
//! `inf`, `infinity` or `nan` in any case, or digits with an optional
//! fraction and exponent (`12`, `1.5`, `.5`, `5.`, `1e3`, `2.5E-1`). Their
//! value is taken in whole units, rounded toward zero and saturating at the
//! bounds of `i64`, as a cast of the float to `i64` does.

use vstd::prelude::*;
use crate::model::clamp_i64;
use crate::parse_lyric::digits_only;
use crate::text::{
    all_digits, append_chars, copy_range, digits_value, find_char, find_spec, is_digit, is_first_index,
    lemma_digits_value_nonneg,
};

verus! {

/// `n` times ten to the power `t`, rounded down.
pub open spec fn scale10(n: int, t: int) -> int
    decreases (if t < 0 { -t } else { t }),
{
    if t == 0 {
        n
    } else if t > 0 {
        scale10(n, t - 1) * 10
    } else {
        scale10(n, t + 1) / 10
    }
}

/// What a number's text stands for.
pub enum FloatText {
    /// The sign, the digits of the mantissa (fraction included) and the
    /// power of ten to scale them by.
    Finite(bool, Seq<char>, int),
    Infinite(bool),
    NotANumber,
}

/// A character of the mantissa: a digit or the point.
pub open spec fn is_mantissa_char(c: char) -> bool {
    is_digit(c) || c == '.'
}

/// The end of the run of mantissa characters starting at `i`.
pub open spec fn mantissa_end(s: Seq<char>, i: int) -> int
    decreases s.len() - i,
{
    if 0 <= i < s.len() && is_mantissa_char(s[i]) {
        mantissa_end(s, i + 1)
    } else {
        i
    }
}

/// `c` is the lowercase letter `l` in either case.
pub open spec fn letter_is(c: char, l: char) -> bool {
    c == l || (c as u32) + 32 == (l as u32)
}

/// `s` spells the lowercase word `w`, in any case.
pub open spec fn spells(s: Seq<char>, w: Seq<char>) -> bool {
    s.len() == w.len() && forall|i: int| 0 <= i < s.len() ==> letter_is(#[trigger] s[i], w[i])
}

/// The value of an exponent: an optional sign, then one or more digits.
pub open spec fn exponent_value(x: Seq<char>) -> Option<int> {
    let neg = x.len() > 0 && x[0] == '-';
    let body = unsigned_part(x);
    if body.len() > 0 && all_digits(body) {
        Some(
            if neg {
                -digits_value(body)
            } else {
                digits_value(body)
            },
        )
    } else {
        None
    }
}

/// The text after an optional sign.
pub open spec fn unsigned_part(s: Seq<char>) -> Seq<char> {
    if s.len() > 0 && (s[0] == '-' || s[0] == '+') {
        s.drop_first()
    } else {
        s
    }
}

/// The digits of a mantissa (a run of digits and points) with its fraction
/// digits appended, and the number of fraction digits; `None` where it has
/// a second point or no digit.
pub open spec fn mantissa_digits(m: Seq<char>) -> Option<(Seq<char>, int)> {
    let ip = match find_spec(m, '.') {
        Some(k) => m.take(k),
        None => m,
    };
    let fp = match find_spec(m, '.') {
        Some(k) => m.skip(k + 1),
        None => Seq::empty(),
    };
    if all_digits(fp) && ip.len() + fp.len() > 0 {
        Some((ip + fp, fp.len() as int))
    } else {
        None
    }
}

/// The exponent after the mantissa: none (zero), or `e` or `E` and an
/// exponent value.
pub open spec fn exponent_part(rest: Seq<char>) -> Option<int> {
    if rest.len() == 0 {
        Some(0int)
    } else if rest[0] == 'e' || rest[0] == 'E' {
        exponent_value(rest.drop_first())
    } else {
        None
    }
}

/// A finite number's text without its sign.
pub open spec fn finite_text(body: Seq<char>, neg: bool) -> Option<FloatText> {
    let p = mantissa_end(body, 0);
    match (exponent_part(body.skip(p)), mantissa_digits(body.take(p))) {
        (Some(e), Some((d, f))) => Some(FloatText::Finite(neg, d, e - f)),
        _ => None,
    }
}

/// What the text `s` of a number stands for, or `None` where it is not a
/// number.
pub open spec fn float_text(s: Seq<char>) -> Option<FloatText> {
    let neg = s.len() > 0 && s[0] == '-';
    let body = unsigned_part(s);
    if spells(body, seq!['i', 'n', 'f']) || spells(body, seq!['i', 'n', 'f', 'i', 'n', 'i', 't', 'y']) {
        Some(FloatText::Infinite(neg))
    } else if spells(body, seq!['n', 'a', 'n']) {
        Some(FloatText::NotANumber)
    } else {
        finite_text(body, neg)
    }
}

/// The value of the number `s` times ten to the `k`, in whole units
/// rounded toward zero and saturating at the bounds of `i64`; zero for
/// `nan`; `None` where `s` is not a number.
pub open spec fn decimal_units(s: Seq<char>, k: int) -> Option<i64> {
    scaled_units(s, 1, k)
}

/// The value of the number `s` times `m` times ten to the `k`, in whole
/// units rounded toward zero and saturating at the bounds of `i64`; zero for
/// `nan`; `None` where `s` is not a number.
pub open spec fn scaled_units(s: Seq<char>, m: int, k: int) -> Option<i64> {
    match float_text(s) {
        None => None,
        Some(FloatText::Finite(neg, d, t)) => {
            let v = scale10(m * digits_value(d), t + k);
            Some(
                clamp_i64(
                    if neg {
                        -v
                    } else {
                        v
                    },
                ),
            )
        },
        Some(FloatText::Infinite(neg)) => Some(
            if neg {
                i64::MIN
            } else {
                i64::MAX
            },
        ),
        Some(FloatText::NotANumber) => Some(0),
    }
}

proof fn lemma_scale_zero(t: int)
    ensures
        scale10(0, t) == 0,
    decreases (if t < 0 { -t } else { t }),
{
    if t > 0 {
        lemma_scale_zero(t - 1);
    } else if t < 0 {
        lemma_scale_zero(t + 1);
    }
}

proof fn lemma_scale_up_mono(n: int, t: int)
    requires
        n >= 0,
        t >= 0,
    ensures
        scale10(n, t) >= n,
        scale10(n, t + 1) >= scale10(n, t),
    decreases t,
{
    if t > 0 {
        lemma_scale_up_mono(n, t - 1);
    }
}

proof fn lemma_scale_up_from(n: int, a: int, b: int)
    requires
        n >= 0,
        0 <= a <= b,
    ensures
        scale10(n, b) >= scale10(n, a),
    decreases b - a,
{
    if a < b {
        lemma_scale_up_from(n, a, b - 1);
        lemma_scale_up_mono(n, b - 1);
    }
}

proof fn lemma_scale_up_n(n: int, t: int)
    requires
        n >= 1,
        t >= 0,
    ensures
        scale10(n, t) >= scale10(1, t),
    decreases t,
{
    if t > 0 {
        lemma_scale_up_n(n, t - 1);
    }
}

/// A positive number scaled up by nineteen or more powers of ten passes
/// the bounds of `i64`.
proof fn lemma_scale_up_large(n: int, t: int)
    requires
        n >= 1,
        t >= 19,
    ensures
        scale10(n, t) >= 0x8000_0000_0000_0000,
{
    assert(scale10(1, 19) == 10000000000000000000) by {
        reveal_with_fuel(scale10, 20);
    }
    lemma_scale_up_n(n, 19);
    lemma_scale_up_from(n, 19, t);
}

/// Scaling the value of digits down by `j` drops the last `j` digits.
proof fn lemma_scale_down(d: Seq<char>, j: int)
    requires
        all_digits(d),
        0 <= j,
    ensures
        j <= d.len() ==> scale10(digits_value(d), -j) == digits_value(d.take(d.len() - j)),
        j >= d.len() ==> scale10(digits_value(d), -j) == 0,
    decreases j,
{
    assert(d.take(0) =~= Seq::<char>::empty());
    assert(digits_value(Seq::<char>::empty()) == 0);
    if j == 0 {
        assert(d.take(d.len() as int) =~= d);
    } else {
        lemma_scale_down(d, j - 1);
        if j <= d.len() {
            let x = d.take(d.len() - j + 1);
            assert(x.drop_last() =~= d.take(d.len() - j));
            assert(is_digit(x.last()));
        } else {
            assert(d.take(0) =~= Seq::<char>::empty());
        }
    }
}

/// `x` held at `2^63`: every value from there on clamps to a bound of `i64`.
pub open spec fn sat63(x: int) -> int {
    if x >= 0x8000_0000_0000_0000 {
        0x8000_0000_0000_0000
    } else {
        x
    }
}

/// `x` held within `2^72` either side: an exponent that large scales every
/// mantissa to zero or past the bounds of `i64`.
pub open spec fn clamp_exp(x: int) -> int {
    if x > 0x1_0000_0000_0000_0000_00 {
        0x1_0000_0000_0000_0000_00
    } else if x < -0x1_0000_0000_0000_0000_00 {
        -0x1_0000_0000_0000_0000_00
    } else {
        x
    }
}

/// The value of the digits `d` scaled by `t`, held at `2^63`.
fn scaled_digits(d: &[char], t: i128) -> (r: u128)
    requires
        all_digits(d@),
        -0x1_0000_0000_0000_0000_0000 <= t <= 0x1_0000_0000_0000_0000_0000,
    ensures
        r as int == sat63(scale10(digits_value(d@), t as int)),
        scale10(digits_value(d@), t as int) >= 0,
{
    let cap: u128 = 0x8000_0000_0000_0000;
    let n = d.len();
    let keep: usize = if t >= 0 {
        n
    } else if (-t) as u128 >= n as u128 {
        0
    } else {
        n - ((-t) as usize)
    };
    let mut acc: u128 = 0;
    let mut i: usize = 0;
    assert(d@.take(0) =~= Seq::<char>::empty());
    while i < keep
        invariant
            i <= keep <= n,
            n == d@.len(),
            all_digits(d@),
            cap == 0x8000_0000_0000_0000,
            acc as int == sat63(digits_value(d@.take(i as int))),
        decreases keep - i,
    {
        assert(is_digit(d@[i as int]));
        let dig = (d[i] as u32 - '0' as u32) as u128;
        proof {
            assert(d@.take(i + 1).drop_last() =~= d@.take(i as int));
            assert(d@.take(i + 1).last() == d@[i as int]);
            assert(all_digits(d@.take(i as int)));
            lemma_digits_value_nonneg(d@.take(i as int));
        }
        if acc < cap {
            let x = acc * 10 + dig;
            acc = if x > cap {
                cap
            } else {
                x
            };
        }
        i = i + 1;
    }
    let ghost v = digits_value(d@);
    proof {
        lemma_digits_value_nonneg(d@);
    }
    if t < 0 {
        proof {
            lemma_scale_down(d@, -t as int);
            if keep > 0 {
                assert(keep == d@.len() - (-t));
            } else {
                assert(d@.take(0) =~= Seq::<char>::empty());
            }
            lemma_digits_value_nonneg(d@.take(keep as int));
        }
        return acc;
    }
    assert(d@.take(n as int) =~= d@);
    proof {
        lemma_scale_up_mono(v, t as int);
    }
    if acc == 0 {
        proof {
            lemma_scale_zero(t as int);
        }
        return 0;
    }
    let steps: i128 = if t > 64 {
        64
    } else {
        t
    };
    let mut j: i128 = 0;
    while j < steps
        invariant
            0 <= j <= steps <= 64,
            steps <= t,
            v >= 1,
            cap == 0x8000_0000_0000_0000,
            acc as int == sat63(scale10(v, j as int)),
        decreases steps - j,
    {
        proof {
            lemma_scale_up_mono(v, j as int);
        }
        if acc < cap {
            let x = acc * 10;
            acc = if x > cap {
                cap
            } else {
                x
            };
        }
        j = j + 1;
    }
    if t > 64 {
        proof {
            lemma_scale_up_large(v, t as int);
            lemma_scale_up_large(v, 64);
        }
        return cap;
    }
    acc
}

/// `s` spells the lowercase word `w` in any case (see `spells`).
fn spells_word(s: &[char], w: &[char]) -> (r: bool)
    ensures
        r == spells(s@, w@),
{
    if s.len() != w.len() {
        return false;
    }
    let mut i: usize = 0;
    while i < s.len()
        invariant
            i <= s@.len(),
            s@.len() == w@.len(),
            forall|j: int| 0 <= j < i ==> letter_is(#[trigger] s@[j], w@[j]),
        decreases s@.len() - i,
    {
        let c = s[i];
        let l = w[i];
        if !(c == l || (c as u32) as u64 + 32 == (l as u32) as u64) {
            assert(!letter_is(s@[i as int], w@[i as int]));
            return false;
        }
        assert(letter_is(s@[i as int], w@[i as int]));
        i = i + 1;
    }
    true
}

/// The exponent of a number (see `exponent_value`), held within `2^72`.
fn read_exponent(x: &[char]) -> (r: Option<i128>)
    ensures
        match exponent_value(x@) {
            None => r is None,
            Some(v) => r == Some(clamp_exp(v) as i128),
        },
{
    let n = x.len();
    let neg = n > 0 && x[0] == '-';
    let start: usize = if n > 0 && (x[0] == '-' || x[0] == '+') {
        1
    } else {
        0
    };
    let body = copy_range(x, start, n);
    assert(body@ =~= unsigned_part(x@));
    if body.len() == 0 {
        return None;
    }
    let cap: u128 = 0x1_0000_0000_0000_0000_00;
    let mut acc: u128 = 0;
    let mut i: usize = 0;
    assert(body@.take(0) =~= Seq::<char>::empty());
    while i < body.len()
        invariant
            i <= body@.len(),
            cap == 0x1_0000_0000_0000_0000_00,
            body@ == unsigned_part(x@),
            body@.len() > 0,
            neg == (x@.len() > 0 && x@[0] == '-'),
            all_digits(body@.take(i as int)),
            acc <= cap,
            acc as int == (if digits_value(body@.take(i as int)) >= cap {
                cap as int
            } else {
                digits_value(body@.take(i as int))
            }),
        decreases body@.len() - i,
    {
        if !(body[i] >= '0' && body[i] <= '9') {
            assert(!is_digit(body@[i as int]));
            assert(!all_digits(body@));
            return None;
        }
        let dig = (body[i] as u32 - '0' as u32) as u128;
        proof {
            assert(body@.take(i + 1).drop_last() =~= body@.take(i as int));
            assert(body@.take(i + 1).last() == body@[i as int]);
            lemma_digits_value_nonneg(body@.take(i as int));
            assert forall|j: int| 0 <= j < i + 1 implies is_digit(#[trigger] body@.take(i + 1)[j]) by {
                if j < i {
                    assert(body@.take(i + 1)[j] == body@.take(i as int)[j]);
                }
            }
        }
        if acc < cap {
            let y = acc * 10 + dig;
            acc = if y > cap {
                cap
            } else {
                y
            };
        }
        i = i + 1;
    }
    assert(body@.take(i as int) =~= body@);
    proof {
        lemma_digits_value_nonneg(body@);
    }
    Some(
        if neg {
            -(acc as i128)
        } else {
            acc as i128
        },
    )
}

/// Scaling by an exponent held within `2^72` gives the same held value as
/// scaling by the exponent itself, for mantissas of fewer than `2^64`
/// digits.
proof fn lemma_clamped_exponent(d: Seq<char>, e: int, f: int, k: int)
    requires
        all_digits(d),
        d.len() < 0x1_0000_0000_0000_0000,
        0 <= f < 0x1_0000_0000_0000_0000,
        0 <= k <= 4,
    ensures
        sat63(scale10(digits_value(d), clamp_exp(e) - f + k)) == sat63(scale10(digits_value(d), e - f + k)),
        scale10(digits_value(d), e - f + k) >= 0,
{
    let n = digits_value(d);
    lemma_digits_value_nonneg(d);
    let t = e - f + k;
    let c = clamp_exp(e) - f + k;
    if t >= 0 {
        lemma_scale_up_mono(n, t);
    } else {
        lemma_scale_down(d, -t);
        if -t <= d.len() {
            lemma_digits_value_nonneg(d.take(d.len() + t));
        }
    }
    if e > 0x1_0000_0000_0000_0000_00 {
        if n == 0 {
            lemma_scale_zero(t);
            lemma_scale_zero(c);
        } else {
            lemma_scale_up_large(n, t);
            lemma_scale_up_large(n, c);
        }
    } else if e < -0x1_0000_0000_0000_0000_00 {
        lemma_scale_down(d, -t);
        lemma_scale_down(d, -c);
    }
}

/// The digits and fraction length of a mantissa (see `mantissa_digits`).
fn read_mantissa(m: &[char]) -> (r: Option<(Vec<char>, usize)>)
    requires
        forall|j: int| 0 <= j < m@.len() ==> is_mantissa_char(#[trigger] m@[j]),
    ensures
        match mantissa_digits(m@) {
            None => r is None,
            Some((d, f)) => r matches Some((v, fl)) && v@ == d && fl == f && all_digits(v@),
        },
{
    let q = find_char(m, '.');
    let ip = match q {
        Some(i) => copy_range(m, 0, i),
        None => copy_range(m, 0, m.len()),
    };
    let fp = match q {
        Some(i) => {
            assert(is_first_index(m@, '.', i as int));
            let ml = m.len();
            assert(i < ml);
            copy_range(m, i + 1, ml)
        },
        None => Vec::new(),
    };
    proof {
        match q {
            Some(i) => {
                assert(ip@ =~= m@.take(i as int));
                assert(fp@ =~= m@.skip(i + 1));
            },
            None => {
                assert(ip@ =~= m@);
                assert(fp@ =~= Seq::<char>::empty());
            },
        }
        assert forall|j: int| 0 <= j < ip@.len() implies is_digit(#[trigger] ip@[j]) by {
            assert(ip@[j] == m@[j]);
            assert(is_mantissa_char(m@[j]));
            if ip@[j] == '.' {
                assert(m@.contains('.'));
            }
        }
    }
    if !digits_only(fp.as_slice()) {
        return None;
    }
    if ip.len() == 0 && fp.len() == 0 {
        return None;
    }
    let flen = fp.len();
    let mut d = ip;
    append_chars(&mut d, fp.as_slice());
    assert(all_digits(d@)) by {
        assert forall|j: int| 0 <= j < d@.len() implies is_digit(#[trigger] d@[j]) by {
            if j >= ip@.len() {
                assert(d@[j] == fp@[j - ip@.len()]);
            } else {
                assert(d@[j] == ip@[j]);
            }
        }
    }
    Some((d, flen))
}

/// The exponent after a mantissa (see `exponent_part`), held within `2^72`.
fn read_exponent_part(rest: &[char]) -> (r: Option<i128>)
    ensures
        match exponent_part(rest@) {
            None => r is None,
            Some(e) => r == Some(clamp_exp(e) as i128),
        },
{
    if rest.len() == 0 {
        return Some(0);
    }
    if !(rest[0] == 'e' || rest[0] == 'E') {
        return None;
    }
    let x = copy_range(rest, 1, rest.len());
    assert(x@ =~= rest@.drop_first());
    read_exponent(x.as_slice())
}

/// Reads a finite number without its sign (see `finite_text`), scaled by
/// ten to the `k`.
fn read_finite(body: &[char], neg: bool, m: u32, k: u32) -> (r: Option<i64>)
    requires
        m == 1 || m == 6,
        k <= 4,
    ensures
        match finite_text(body@, neg) {
            Some(FloatText::Finite(ng, d, t)) => {
                let v = scale10(m * digits_value(d), t + k);
                r == Some(clamp_i64(if ng { -v } else { v }))
            },
            _ => r is None,
        },
{
    let mut p: usize = 0;
    while p < body.len() && ((body[p] >= '0' && body[p] <= '9') || body[p] == '.')
        invariant
            p <= body@.len(),
            mantissa_end(body@, 0) == mantissa_end(body@, p as int),
            forall|j: int| 0 <= j < p ==> is_mantissa_char(#[trigger] body@[j]),
        decreases body@.len() - p,
    {
        p = p + 1;
    }
    assert(mantissa_end(body@, 0) == p);
    let mant = copy_range(body, 0, p);
    assert(mant@ =~= body@.take(p as int));
    let rest = copy_range(body, p, body.len());
    assert(rest@ =~= body@.skip(p as int));
    let e = match read_exponent_part(rest.as_slice()) {
        None => {
            return None;
        },
        Some(v) => v,
    };
    let (d0, flen) = match read_mantissa(mant.as_slice()) {
        None => {
            return None;
        },
        Some(x) => x,
    };
    let d = if m == 6 {
        times_digit(d0.as_slice(), 6)
    } else {
        d0
    };
    assert(digits_value(d@) == m * digits_value(d0@));
    let ghost true_e = exponent_part(rest@).unwrap();
    let t: i128 = e - flen as i128 + k as i128;
    let v = scaled_digits(d.as_slice(), t);
    let dl = d.len();
    assert(d@.len() == dl);
    proof {
        lemma_clamped_exponent(d@, true_e, flen as int, k as int);
    }
    if neg {
        if v >= 0x8000_0000_0000_0000 {
            Some(i64::MIN)
        } else {
            Some(-(v as i64))
        }
    } else {
        if v >= 0x8000_0000_0000_0000 {
            Some(i64::MAX)
        } else {
            Some(v as i64)
        }
    }
}

/// Reads the number `s` and scales it by ten to the `k` (see
/// `decimal_units`).
pub fn read_decimal_units(s: &[char], k: u32) -> (r: Option<i64>)
    requires
        k <= 3,
    ensures
        r == decimal_units(s@, k as int),
{
    read_scaled_units(s, 1, k)
}

/// Reads the number `s` and scales it by `m` and ten to the `k` (see
/// `scaled_units`).
pub fn read_scaled_units(s: &[char], m: u32, k: u32) -> (r: Option<i64>)
    requires
        m == 1 || m == 6,
        k <= 4,
    ensures
        r == scaled_units(s@, m as int, k as int),
{
    let n = s.len();
    let neg = n > 0 && s[0] == '-';
    let start: usize = if n > 0 && (s[0] == '-' || s[0] == '+') {
        1
    } else {
        0
    };
    let body = copy_range(s, start, n);
    assert(body@ =~= unsigned_part(s@));
    let inf: [char; 3] = ['i', 'n', 'f'];
    let infinity: [char; 8] = ['i', 'n', 'f', 'i', 'n', 'i', 't', 'y'];
    let nan: [char; 3] = ['n', 'a', 'n'];
    assert(inf@ =~= seq!['i', 'n', 'f']);
    assert(infinity@ =~= seq!['i', 'n', 'f', 'i', 'n', 'i', 't', 'y']);
    assert(nan@ =~= seq!['n', 'a', 'n']);
    if spells_word(body.as_slice(), &inf) || spells_word(body.as_slice(), &infinity) {
        return Some(
            if neg {
                i64::MIN
            } else {
                i64::MAX
            },
        );
    }
    if spells_word(body.as_slice(), &nan) {
        return Some(0);
    }
    read_finite(body.as_slice(), neg, m, k)
}

/// A number scaled up is that many times the power of ten.
proof fn lemma_scale_mul(c: int, k: int)
    requires
        k >= 0,
    ensures
        scale10(c, k) == c * scale10(1, k),
        scale10(1, k) >= 1,
    decreases k,
{
    if k > 0 {
        lemma_scale_mul(c, k - 1);
        let p = scale10(1, k - 1);
        assert(c * p * 10 == c * (p * 10)) by (nonlinear_arith);
    }
}

/// The digits of `m` times the value of `d`.
fn times_digit(d: &[char], m: u32) -> (r: Vec<char>)
    requires
        all_digits(d@),
        m <= 9,
    ensures
        all_digits(r@),
        digits_value(r@) == m * digits_value(d@),
{
    let n = d.len();
    let mut out: Vec<char> = Vec::new();
    let mut carry: u32 = 0;
    let mut i: usize = n;
    assert(d@.skip(n as int) =~= Seq::<char>::empty());
    proof {
        lemma_scale_mul(0, 0);
    }
    while i > 0
        invariant
            i <= n,
            n == d@.len(),
            m <= 9,
            carry <= 8,
            all_digits(d@),
            all_digits(out@),
            out@.len() == n - i,
            digits_value(out@) + carry * scale10(1, (n - i) as int) == m * digits_value(d@.skip(i as int)),
        decreases i,
    {
        i = i - 1;
        assert(is_digit(d@[i as int]));
        let ch = d[i];
        assert(ch == d@[i as int]);
        let dig = ch as u32 - '0' as u32;
        assert(dig <= 9);
        assert(dig * m <= 81) by (nonlinear_arith)
            requires
                dig <= 9,
                m <= 9,
        ;
        let x = dig * m + carry;
        let low = (x % 10) as u8;
        let c = (low + 48u8) as char;
        assert(c == crate::text::digit_char((x % 10) as int));
        assert(c as int == '0' as int + x % 10);
        let ghost before = out@;
        let ghost k = (n - i - 1) as int;
        out.insert(0, c);
        proof {
            let p = scale10(1, k);
            lemma_scale_mul(c as int - '0' as int, k);
            lemma_scale_mul(dig as int, k);
            lemma_scale_mul(1, k + 1);
            crate::laws::lemma_digits_concat(seq![c], before);
            crate::laws::lemma_digits_concat(seq![d@[i as int]], d@.skip(i + 1));
            assert(seq![c] + before =~= out@);
            assert(seq![d@[i as int]] + d@.skip(i + 1) =~= d@.skip(i as int));
            assert(digits_value(seq![c]) == x % 10) by {
                assert(seq![c].drop_last() =~= Seq::<char>::empty());
                assert(seq![c].last() == c);
                assert(digits_value(Seq::<char>::empty()) == 0);
            }
            assert(digits_value(seq![d@[i as int]]) == dig) by {
                assert(seq![d@[i as int]].drop_last() =~= Seq::<char>::empty());
                assert(seq![d@[i as int]].last() == ch);
                assert(digits_value(Seq::<char>::empty()) == 0);
                assert((ch as u32) as int == ch as int);
            }
            assert(scale10(1, k + 1) == p * 10);
            assert(digits_value(out@) + (x / 10) * (p * 10) == m * digits_value(d@.skip(i as int))) by (nonlinear_arith)
                requires
                    digits_value(out@) == (x % 10) * p + digits_value(before),
                    digits_value(d@.skip(i as int)) == dig * p + digits_value(d@.skip(i + 1)),
                    digits_value(before) + carry * p == m * digits_value(d@.skip(i + 1)),
                    x == dig * m + carry,
            ;
            assert forall|j: int| 0 <= j < out@.len() implies is_digit(#[trigger] out@[j]) by {
                if j > 0 {
                    assert(out@[j] == before[j - 1]);
                }
            }
        }
        carry = x / 10;
    }
    assert(d@.skip(0) =~= d@);
    let top = (carry as u8 + 48u8) as char;
    assert(top == crate::text::digit_char(carry as int));
    assert(top as int == '0' as int + carry);
    let ghost before = out@;
    out.insert(0, top);
    proof {
        lemma_scale_mul(carry as int, n as int);
        crate::laws::lemma_digits_concat(seq![top], before);
        assert(seq![top] + before =~= out@);
        assert(digits_value(seq![top]) == carry) by {
            assert(seq![top].drop_last() =~= Seq::<char>::empty());
            assert(seq![top].last() == top);
            assert(digits_value(Seq::<char>::empty()) == 0);
        }
        assert forall|j: int| 0 <= j < out@.len() implies is_digit(#[trigger] out@[j]) by {
            if j > 0 {
                assert(out@[j] == before[j - 1]);
            }
        }
    }
    out
}

} // verus!
