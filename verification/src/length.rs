//! Lengths in CSS pixels as the SVG importer computes them: parsed from
//! decimal text, converted from other units, combined, and printed with at
//! most six decimals.
//!
//! A length is held exactly in billionths of a pixel. Magnitudes above
//! `10^25` pixels count as infinite; the IEEE rules for infinities and NaN
//! are kept.
use vstd::prelude::*;
use crate::ir::decimal;
use crate::number::{parse_float, parts_view, FloatParts, FloatText};
use crate::text::{append_str, chars_of, is_ascii_digit, string_of, sub_chars};
use crate::formatter::{is_ws, trim, trim_chars, ws};

verus! {

/// Billionths of a pixel per pixel.
pub const UNITS: u128 = 1000000000;

/// The largest magnitude held, in billionths of a pixel.
pub const MAX_UNITS: u128 = 10000000000000000000000000000000000;

#[derive(Debug, Clone, Copy, PartialEq, Eq, Structural)]
pub enum Px {
    /// `mag` billionths of a pixel, negative when `neg` (a negative zero
    /// included).
    Fin { neg: bool, mag: u128 },
    Inf { neg: bool },
    NaN,
}

pub open spec fn px_wf(p: Px) -> bool {
    p matches Px::Fin { mag, .. } ==> mag <= MAX_UNITS
}

pub open spec fn pow10(n: nat) -> nat
    decreases n,
{
    if n == 0 { 1 } else { 10 * pow10((n - 1) as nat) }
}

pub open spec fn digit_val(c: char) -> int {
    if is_ascii_digit(c) { c as int - '0' as int } else { 0 }
}

/// The value of a run of decimal digits.
pub open spec fn dec_value(d: Seq<char>) -> nat
    decreases d.len(),
{
    if d.len() == 0 {
        0
    } else {
        (dec_value(d.drop_last()) * 10 + digit_val(d.last())) as nat
    }
}

/// A magnitude, or infinity once it is too large to hold.
pub open spec fn fin_or_inf(neg: bool, m: nat) -> Px {
    if m > MAX_UNITS { Px::Inf { neg } } else { Px::Fin { neg, mag: m as u128 } }
}

/// The length a floating-point literal denotes, cut to whole billionths.
pub open spec fn px_of(f: FloatText) -> Px {
    match f {
        FloatText::NaN => Px::NaN,
        FloatText::Inf { neg } => Px::Inf { neg },
        FloatText::Finite { neg, digits, point } => {
            let k = point + 9;
            let l = digits.len() as int;
            let d = dec_value(digits);
            let m: nat = if k >= l { d * pow10((k - l) as nat) } else if k <= 0 { 0 } else {
                dec_value(digits.subrange(0, k))
            };
            fin_or_inf(neg, m)
        },
    }
}

pub open spec fn parse_px(s: Seq<char>) -> Option<Px> {
    match parse_float(s) {
        Some(f) => Some(px_of(f)),
        None => None,
    }
}

proof fn lemma_pow10_pos(n: nat)
    ensures
        pow10(n) >= 1,
    decreases n,
{
    if n > 0 {
        lemma_pow10_pos((n - 1) as nat);
    }
}

proof fn lemma_dec_prefix_grow(d: Seq<char>, j: int)
    requires
        0 <= j <= d.len(),
    ensures
        dec_value(d.subrange(0, j)) <= dec_value(d),
    decreases d.len() - j,
{
    if j < d.len() {
        lemma_dec_prefix_grow(d, j + 1);
        assert(d.subrange(0, j + 1).drop_last() =~= d.subrange(0, j));
    } else {
        assert(d.subrange(0, j) =~= d);
    }
}

proof fn lemma_scale_grow(d: nat, n: nat)
    ensures
        d <= d * pow10(n),
{
    lemma_pow10_pos(n);
    assert(d <= d * pow10(n)) by (nonlinear_arith)
        requires
            pow10(n) >= 1,
    ;
}

fn digit_of(c: char) -> (v: u128)
    ensures
        v == digit_val(c),
        v < 10,
{
    if '0' <= c && c <= '9' {
        (c as u32 - '0' as u32) as u128
    } else {
        0
    }
}

fn px_from_parts(p: &FloatParts) -> (r: Px)
    requires
        p matches FloatParts::Finite(_, _, pt) ==> -0x10000000000000000000000000 <= *pt <= 0x20000000000000000000000000,
    ensures
        r == px_of(parts_view(*p)),
        px_wf(r),
{
    match p {
        FloatParts::NaN => Px::NaN,
        FloatParts::Inf(neg) => Px::Inf { neg: *neg },
        FloatParts::Finite(neg, digits, point) => {
            let neg = *neg;
            let l = digits.len();
            let ghost ds = digits@;
            let k: i128 = *point + 9;
            let ghost spec_k = *point as int + 9;
            if k <= 0 {
                proof {
                    if spec_k >= l {
                        assert(ds.len() == 0);
                        assert(dec_value(ds) == 0);
                    }
                }
                return Px::Fin { neg, mag: 0 };
            }
            let mut mag: u128 = 0;
            let mut idx: usize = 0;
            while idx < l && (idx as i128) < k
                invariant
                    idx <= l,
                    l == ds.len(),
                    ds == digits@,
                    spec_k == k as int,
                    parts_view(*p) == (FloatText::Finite { neg, digits: ds, point: spec_k - 9 }),
                    0 < k,
                    (idx as i128) <= k,
                    mag == dec_value(ds.subrange(0, idx as int)),
                    mag <= MAX_UNITS,
                decreases l - idx,
            {
                assert(ds.subrange(0, idx + 1).drop_last() =~= ds.subrange(0, idx as int));
                let next = mag * 10 + digit_of(digits[idx]);
                if next > MAX_UNITS {
                    proof {
                        let m_spec: nat = if spec_k >= l { dec_value(ds) * pow10((spec_k - l) as nat) } else {
                            dec_value(ds.subrange(0, spec_k))
                        };
                        if spec_k >= l {
                            lemma_dec_prefix_grow(ds, idx + 1);
                            lemma_scale_grow(dec_value(ds), (spec_k - l) as nat);
                        } else {
                            lemma_dec_prefix_grow(ds.subrange(0, spec_k), idx + 1);
                            assert(ds.subrange(0, spec_k).subrange(0, idx + 1) =~= ds.subrange(0, idx + 1));
                        }
                        assert(m_spec > MAX_UNITS);
                    }
                    return Px::Inf { neg };
                }
                mag = next;
                idx += 1;
            }
            if (l as i128) < k {
                assert(ds.subrange(0, l as int) =~= ds);
                assert(idx == l);
                assert(pow10(0) == 1);
                assert(mag == dec_value(ds) * pow10(0));
                let mut extra: i128 = k - l as i128;
                let ghost done: nat = 0;
                while extra > 0 && mag != 0
                    invariant
                        extra >= 0,
                        l == ds.len(),
                        parts_view(*p) == (FloatText::Finite { neg, digits: ds, point: spec_k - 9 }),
                        spec_k >= l,
                        mag == dec_value(ds) * pow10(done),
                        done + extra == spec_k - l,
                        mag <= MAX_UNITS,
                    decreases extra,
                {
                    let next = mag * 10;
                    proof {
                        assert(pow10(done + 1) == 10 * pow10(done));
                        assert(next == dec_value(ds) * pow10(done + 1)) by (nonlinear_arith)
                            requires
                                next == mag * 10,
                                mag == dec_value(ds) * pow10(done),
                                pow10(done + 1) == 10 * pow10(done),
                        ;
                    }
                    if next > MAX_UNITS {
                        proof {
                            let rest = (spec_k - l - done - 1) as nat;
                            lemma_pow_split(done + 1, rest);
                            lemma_scale_grow(next as nat, rest);
                            assert(dec_value(ds) * pow10((spec_k - l) as nat) == next * pow10(rest)) by (nonlinear_arith)
                                requires
                                    next == dec_value(ds) * pow10(done + 1),
                                    pow10((spec_k - l) as nat) == pow10(done + 1) * pow10(rest),
                                    (spec_k - l) as nat == done + 1 + rest,
                            ;
                        }
                        return Px::Inf { neg };
                    }
                    mag = next;
                    proof {
                        done = done + 1;
                    }
                    extra -= 1;
                }
                proof {
                    if mag == 0 {
                        assert(dec_value(ds) * pow10(done) == 0);
                        lemma_pow10_pos(done);
                        assert(dec_value(ds) == 0) by (nonlinear_arith)
                            requires
                                dec_value(ds) * pow10(done) == 0,
                                pow10(done) >= 1,
                        ;
                    }
                }
            }
            proof {
                if spec_k <= l {
                    assert(idx == spec_k);
                    if spec_k == l {
                        assert(ds.subrange(0, l as int) =~= ds);
                        assert(pow10(0) == 1);
                    }
                }
            }
            Px::Fin { neg, mag }
        },
    }
}

proof fn lemma_pow_split(a: nat, b: nat)
    ensures
        pow10(a + b) == pow10(a) * pow10(b),
    decreases a,
{
    if a > 0 {
        let a1 = (a - 1) as nat;
        lemma_pow_split(a1, b);
        assert(pow10(a + b) == 10 * pow10(a1 + b));
        assert(pow10(a) == 10 * pow10(a1));
        let x = pow10(a1);
        let y = pow10(b);
        assert(pow10(a) * y == 10 * (x * y)) by (nonlinear_arith)
            requires
                pow10(a) == 10 * x,
        ;
        assert(pow10(a1 + b) == x * y);
        assert(pow10(a + b) == 10 * (x * y));
    } else {
        assert(pow10(0) == 1);
        assert(a + b == b);
    }
}

/// Parses a length written as a floating-point literal.
pub fn parse_px_exec(s: &Vec<char>) -> (r: Option<Px>)
    ensures
        r == parse_px(s@),
        r matches Some(p) ==> px_wf(p),
{
    let _n = s.len();
    match crate::number::parse_float_parts(s) {
        Some(parts) => Some(px_from_parts(&parts)),
        None => None,
    }
}

// ---------------------------------------------------------------------------
// Arithmetic

pub open spec fn signed(neg: bool, m: u128) -> int {
    if neg { -(m as int) } else { m as int }
}

pub open spec fn abs_int(v: int) -> nat {
    if v < 0 { (-v) as nat } else { v as nat }
}

/// `a - b`.
pub open spec fn px_sub(a: Px, b: Px) -> Px {
    if a is NaN || b is NaN {
        Px::NaN
    } else if a is Inf && b is Inf {
        if a->Inf_neg == b->Inf_neg { Px::NaN } else { a }
    } else if a is Inf {
        a
    } else if b is Inf {
        Px::Inf { neg: !b->Inf_neg }
    } else {
        let v = signed(a->Fin_neg, a->Fin_mag) - signed(b->Fin_neg, b->Fin_mag);
        if v == 0 {
            Px::Fin { neg: a->Fin_neg && !b->Fin_neg && a->Fin_mag == 0 && b->Fin_mag == 0, mag: 0 }
        } else {
            fin_or_inf(v < 0, abs_int(v))
        }
    }
}

/// `a * num / den` for positive constants.
pub open spec fn px_scale(a: Px, num: u128, den: u128) -> Px {
    match a {
        Px::Fin { neg, mag } => fin_or_inf(neg, ((mag as int) * (num as int) / (den as int)) as nat),
        _ => a,
    }
}

/// `a.max(0.0)`: NaN and negative values give zero.
pub open spec fn px_max0(a: Px) -> Px {
    match a {
        Px::Fin { neg, mag } => if neg { Px::Fin { neg: false, mag: 0 } } else { a },
        Px::Inf { neg } => if neg { Px::Fin { neg: false, mag: 0 } } else { a },
        Px::NaN => Px::Fin { neg: false, mag: 0 },
    }
}

pub open spec fn is_zero(a: Px) -> bool {
    a matches Px::Fin { mag, .. } && mag == 0
}

/// `n * of / 100`, the percentage `n` of the length `of`. Products of
/// operands above `10^10` pixels count as infinite.
pub open spec fn px_percent(n: Px, of: Px) -> Px {
    if n is NaN || of is NaN {
        Px::NaN
    } else if (n is Inf && is_zero(of)) || (is_zero(n) && of is Inf) {
        Px::NaN
    } else {
        let neg = (if n is Inf { n->Inf_neg } else { n->Fin_neg }) != (if of is Inf { of->Inf_neg } else { of->Fin_neg });
        if n is Inf || of is Inf {
            Px::Inf { neg }
        } else if n->Fin_mag == 0 || of->Fin_mag == 0 {
            Px::Fin { neg, mag: 0 }
        } else if n->Fin_mag > 10000000000000000000 || of->Fin_mag > 10000000000000000000 {
            Px::Inf { neg }
        } else {
            fin_or_inf(neg, ((n->Fin_mag as int) * (of->Fin_mag as int) / 100000000000) as nat)
        }
    }
}

/// `a != 0.0`.
pub open spec fn px_nonzero(a: Px) -> bool {
    !is_zero(a)
}

/// `(a - b).abs() > f64::EPSILON`: the lengths differ by at least a
/// billionth of a pixel.
pub open spec fn px_differs(a: Px, b: Px) -> bool {
    let d = px_sub(a, b);
    d is Inf || (d matches Px::Fin { mag, .. } && mag > 0)
}

fn fin_or_inf_exec(neg: bool, m: u128) -> (r: Px)
    ensures
        r == fin_or_inf(neg, m as nat),
        px_wf(r),
{
    if m > MAX_UNITS { Px::Inf { neg } } else { Px::Fin { neg, mag: m } }
}

pub fn sub_px(a: Px, b: Px) -> (r: Px)
    requires
        px_wf(a),
        px_wf(b),
    ensures
        r == px_sub(a, b),
        px_wf(r),
{
    match (a, b) {
        (Px::NaN, _) => Px::NaN,
        (_, Px::NaN) => Px::NaN,
        (Px::Inf { neg: n1 }, Px::Inf { neg: n2 }) => if n1 == n2 { Px::NaN } else { a },
        (Px::Inf { .. }, _) => a,
        (_, Px::Inf { neg }) => Px::Inf { neg: !neg },
        (Px::Fin { neg: n1, mag: m1 }, Px::Fin { neg: n2, mag: m2 }) => {
            if n1 != n2 {
                fin_or_inf_exec(n1, m1 + m2)
            } else if m1 == m2 {
                Px::Fin { neg: n1 && !n2 && m1 == 0 && m2 == 0, mag: 0 }
            } else if m1 > m2 {
                fin_or_inf_exec(n1, m1 - m2)
            } else {
                fin_or_inf_exec(!n1, m2 - m1)
            }
        },
    }
}

pub fn scale_px(a: Px, num: u128, den: u128) -> (r: Px)
    requires
        px_wf(a),
        1 <= num <= 4800,
        1 <= den,
    ensures
        r == px_scale(a, num, den),
        px_wf(r),
{
    match a {
        Px::Fin { neg, mag } => {
            assert(mag * num <= MAX_UNITS * 4800) by (nonlinear_arith)
                requires
                    mag <= MAX_UNITS,
                    num <= 4800,
            ;
            fin_or_inf_exec(neg, mag * num / den)
        },
        _ => a,
    }
}

pub fn max0_px(a: Px) -> (r: Px)
    requires
        px_wf(a),
    ensures
        r == px_max0(a),
        px_wf(r),
{
    match a {
        Px::Fin { neg, mag } => if neg { Px::Fin { neg: false, mag: 0 } } else { a },
        Px::Inf { neg } => if neg { Px::Fin { neg: false, mag: 0 } } else { a },
        Px::NaN => Px::Fin { neg: false, mag: 0 },
    }
}

pub fn percent_px(n: Px, of: Px) -> (r: Px)
    requires
        px_wf(n),
        px_wf(of),
    ensures
        r == px_percent(n, of),
        px_wf(r),
{
    match (n, of) {
        (Px::NaN, _) => Px::NaN,
        (_, Px::NaN) => Px::NaN,
        (Px::Inf { neg: a }, Px::Inf { neg: b }) => Px::Inf { neg: a != b },
        (Px::Inf { neg: a }, Px::Fin { neg: b, mag }) => if mag == 0 { Px::NaN } else { Px::Inf { neg: a != b } },
        (Px::Fin { neg: a, mag }, Px::Inf { neg: b }) => if mag == 0 { Px::NaN } else { Px::Inf { neg: a != b } },
        (Px::Fin { neg: a, mag: m1 }, Px::Fin { neg: b, mag: m2 }) => {
            if m1 == 0 || m2 == 0 {
                Px::Fin { neg: a != b, mag: 0 }
            } else if m1 > 10000000000000000000 || m2 > 10000000000000000000 {
                Px::Inf { neg: a != b }
            } else {
                assert(m1 * m2 <= 10000000000000000000 * 10000000000000000000) by (nonlinear_arith)
                    requires
                        m1 <= 10000000000000000000,
                        m2 <= 10000000000000000000,
                ;
                fin_or_inf_exec(a != b, m1 * m2 / 100000000000)
            }
        },
    }
}

pub fn nonzero_px(a: Px) -> (b: bool)
    ensures
        b == px_nonzero(a),
{
    match a {
        Px::Fin { mag, .. } => mag != 0,
        _ => true,
    }
}

pub fn differs_px(a: Px, b: Px) -> (r: bool)
    requires
        px_wf(a),
        px_wf(b),
    ensures
        r == px_differs(a, b),
{
    match sub_px(a, b) {
        Px::Inf { .. } => true,
        Px::Fin { mag, .. } => mag > 0,
        Px::NaN => false,
    }
}

// ---------------------------------------------------------------------------
// Display

pub open spec fn digit_char(v: int) -> char {
    ((v + 0x30) as u8) as char
}

/// Six decimal digits of `f < 10^6`, zero-padded.
pub open spec fn six_places(f: nat) -> Seq<char> {
    seq![digit_char((f / 100000) as int % 10), digit_char((f / 10000) as int % 10), digit_char((f / 1000) as int % 10),
        digit_char((f / 100) as int % 10), digit_char((f / 10) as int % 10), digit_char(f as int % 10)]
}

pub open spec fn strip_zeros(s: Seq<char>) -> Seq<char>
    decreases s.len(),
{
    if s.len() > 0 && s.last() == '0' { strip_zeros(s.drop_last()) } else { s }
}

/// A finite length rounded to six decimals (halves up), without trailing
/// zeros or a trailing point, and with its sign, a negative zero included.
#[verifier::opaque]
pub open spec fn fmt_fin(neg: bool, mag: u128) -> Seq<char> {
    let r = (mag + 500) / 1000;
    let f = strip_zeros(six_places((r % 1000000) as nat));
    (if neg { seq!['-'] } else { Seq::empty() }) + decimal((r / 1000000) as nat)
        + (if f.len() == 0 { Seq::empty() } else { seq!['.'] + f })
}

/// How the importer prints a length: whole values as integers, others with
/// at most six decimals.
pub open spec fn fmt_px(p: Px) -> Seq<char> {
    match p {
        Px::NaN => "NaN"@,
        Px::Inf { neg } => if neg { "-inf"@ } else { "inf"@ },
        Px::Fin { neg, mag } => fmt_fin(neg, mag),
    }
}

/// The same with whole values printed through a cast to `i64`: no sign on
/// zero, saturated at the bounds of `i64`.
pub open spec fn fmt_px_whole(p: Px) -> Seq<char> {
    match p {
        Px::Fin { neg, mag } => if mag % UNITS == 0 {
            let i = mag / UNITS;
            if i == 0 {
                seq!['0']
            } else if neg {
                seq!['-'] + decimal(if i > 9223372036854775808 { 9223372036854775808nat } else { i as nat })
            } else {
                decimal(if i > 9223372036854775807 { 9223372036854775807nat } else { i as nat })
            }
        } else {
            fmt_fin(neg, mag)
        },
        _ => fmt_px(p),
    }
}

pub fn push_decimal_wide(out: &mut Vec<char>, n: u128)
    ensures
        final(out)@ == old(out)@ + decimal(n as nat),
    decreases n,
{
    if n < 10 {
        let c = ((n as u8) + 0x30) as char;
        out.push(c);
        assert(c == (('0' as nat) + n) as char);
    } else {
        push_decimal_wide(out, n / 10);
        let c = (((n % 10) as u8) + 0x30) as char;
        out.push(c);
        assert(c == (('0' as nat) + n % 10) as char);
    }
}

fn push_fraction(out: &mut Vec<char>, f: u128)
    requires
        f < 1000000,
    ensures
        ({
            let t = strip_zeros(six_places(f as nat));
            final(out)@ == old(out)@ + (if t.len() == 0 { Seq::empty() } else { seq!['.'] + t })
        }),
{
    let ghost sp = six_places(f as nat);
    let mut ds: Vec<char> = Vec::new();
    ds.push(((f / 100000 % 10) as u8 + 0x30) as char);
    ds.push(((f / 10000 % 10) as u8 + 0x30) as char);
    ds.push(((f / 1000 % 10) as u8 + 0x30) as char);
    ds.push(((f / 100 % 10) as u8 + 0x30) as char);
    ds.push(((f / 10 % 10) as u8 + 0x30) as char);
    ds.push(((f % 10) as u8 + 0x30) as char);
    assert(ds@ =~= sp);
    assert(ds@.subrange(0, 6) =~= sp);
    let mut n: usize = 6;
    while n > 0 && ds[n - 1] == '0'
        invariant
            n <= 6,
            ds@.len() == 6,
            strip_zeros(ds@.subrange(0, n as int)) == strip_zeros(sp),
        decreases n,
    {
        assert(ds@.subrange(0, n as int).drop_last() =~= ds@.subrange(0, n - 1));
        n -= 1;
    }
    let t = crate::text::sub_chars(&ds, 0, n);
    assert(strip_zeros(ds@.subrange(0, n as int)) == ds@.subrange(0, n as int));
    if n > 0 {
        out.push('.');
        crate::text::append_chars(out, &t);
    }
}

fn push_fin(out: &mut Vec<char>, neg: bool, mag: u128)
    requires
        mag <= MAX_UNITS,
    ensures
        final(out)@ == old(out)@ + fmt_fin(neg, mag),
{
    let ghost start = out@;
    let r = (mag + 500) / 1000;
    if neg {
        out.push('-');
    }
    push_decimal_wide(out, r / 1000000);
    push_fraction(out, r % 1000000);
    reveal(fmt_fin);
    assert(out@ =~= start + fmt_fin(neg, mag));
}

/// Appends a length as the importer prints it.
pub fn push_px(out: &mut Vec<char>, p: Px)
    requires
        px_wf(p),
    ensures
        final(out)@ == old(out)@ + fmt_px(p),
{
    match p {
        Px::NaN => crate::text::append_str(out, "NaN"),
        Px::Inf { neg } => if neg { crate::text::append_str(out, "-inf") } else { crate::text::append_str(out, "inf") },
        Px::Fin { neg, mag } => push_fin(out, neg, mag),
    }
}

/// Appends a length the way the resource passes print it.
pub fn push_px_whole(out: &mut Vec<char>, p: Px)
    requires
        px_wf(p),
    ensures
        final(out)@ == old(out)@ + fmt_px_whole(p),
{
    match p {
        Px::Fin { neg, mag } => {
            if mag % UNITS == 0 {
                let i = mag / UNITS;
                if i == 0 {
                    out.push('0');
                } else if neg {
                    out.push('-');
                    push_decimal_wide(out, if i > 9223372036854775808 { 9223372036854775808 } else { i });
                } else {
                    push_decimal_wide(out, if i > 9223372036854775807 { 9223372036854775807 } else { i });
                }
            } else {
                push_fin(out, neg, mag);
            }
        },
        _ => push_px(out, p),
    }
}

// ---------------------------------------------------------------------------
// Units

#[derive(Debug, Clone, Copy, PartialEq, Eq, Structural)]
pub enum Axis {
    X,
    Y,
}

/// The number before `unit` at the end of `t`, when there is one.
pub open spec fn unit_value(t: Seq<char>, unit: Seq<char>) -> Option<Px> {
    if t.len() >= unit.len() && t.subrange(t.len() - unit.len(), t.len() as int) == unit {
        parse_px(trim(t.subrange(0, t.len() - unit.len())))
    } else {
        None
    }
}

/// A length in pixels: a bare number, or a number in `px`, `pt`, `mm`,
/// `cm`, `in`, or percent of the viewport side along `axis`.
pub open spec fn resolve_length_spec(value: Seq<char>, axis: Axis, vw: Px, vh: Px) -> Option<Px> {
    let t = trim(value);
    if parse_px(t) is Some {
        parse_px(t)
    } else if unit_value(t, "px"@) is Some {
        unit_value(t, "px"@)
    } else if unit_value(t, "pt"@) is Some {
        Some(px_scale(unit_value(t, "pt"@)->0, 4, 3))
    } else if unit_value(t, "mm"@) is Some {
        Some(px_scale(unit_value(t, "mm"@)->0, 480, 127))
    } else if unit_value(t, "cm"@) is Some {
        Some(px_scale(unit_value(t, "cm"@)->0, 4800, 127))
    } else if unit_value(t, "in"@) is Some {
        Some(px_scale(unit_value(t, "in"@)->0, 96, 1))
    } else if unit_value(t, "%"@) is Some {
        Some(px_percent(unit_value(t, "%"@)->0, if axis == Axis::X { vw } else { vh }))
    } else {
        None
    }
}

fn unit_value_exec(t: &Vec<char>, unit: &str) -> (r: Option<Px>)
    ensures
        r == unit_value(t@, unit@),
        r matches Some(p) ==> px_wf(p),
{
    let u = chars_of(unit);
    let n = t.len();
    let m = u.len();
    if n < m {
        return None;
    }
    if !crate::parser::chars_eq(&sub_chars(t, n - m, n), &u) {
        return None;
    }
    parse_px_exec(&trim_chars(&sub_chars(t, 0, n - m)))
}

/// Resolves an SVG length to pixels.
pub fn resolve_length(value: &str, axis: Axis, vw: Px, vh: Px) -> (r: Option<Px>)
    requires
        px_wf(vw),
        px_wf(vh),
    ensures
        r == resolve_length_spec(value@, axis, vw, vh),
        r matches Some(p) ==> px_wf(p),
{
    let t = trim_chars(&chars_of(value));
    if let Some(v) = parse_px_exec(&t) {
        return Some(v);
    }
    if let Some(n) = unit_value_exec(&t, "px") {
        return Some(n);
    }
    if let Some(n) = unit_value_exec(&t, "pt") {
        return Some(scale_px(n, 4, 3));
    }
    if let Some(n) = unit_value_exec(&t, "mm") {
        return Some(scale_px(n, 480, 127));
    }
    if let Some(n) = unit_value_exec(&t, "cm") {
        return Some(scale_px(n, 4800, 127));
    }
    if let Some(n) = unit_value_exec(&t, "in") {
        return Some(scale_px(n, 96, 1));
    }
    if let Some(n) = unit_value_exec(&t, "%") {
        return Some(percent_px(n, if axis == Axis::X { vw } else { vh }));
    }
    None
}

// ---------------------------------------------------------------------------
// Number lists

pub open spec fn is_ascii_ws(c: char) -> bool {
    c == ' ' || c == '\t' || c == '\n' || c == '\x0C' || c == '\r'
}

/// A separator in a number list: a comma, or white space (ASCII white space
/// only unless `unicode`).
pub open spec fn is_sep(c: char, unicode: bool) -> bool {
    c == ',' || if unicode { is_ws(c) } else { is_ascii_ws(c) }
}

pub open spec fn skip_seps(s: Seq<char>, i: int, unicode: bool) -> int
    decreases s.len() - i,
{
    if i < 0 || i >= s.len() || !is_sep(s[i], unicode) { i } else { skip_seps(s, i + 1, unicode) }
}

pub open spec fn token_end(s: Seq<char>, i: int, unicode: bool) -> int
    decreases s.len() - i,
{
    if i < 0 || i >= s.len() || is_sep(s[i], unicode) { i } else { token_end(s, i + 1, unicode) }
}

pub proof fn lemma_skip_seps(s: Seq<char>, i: int, unicode: bool)
    requires
        0 <= i <= s.len(),
    ensures
        i <= skip_seps(s, i, unicode) <= s.len(),
        skip_seps(s, i, unicode) < s.len() ==> !is_sep(s[skip_seps(s, i, unicode)], unicode),
    decreases s.len() - i,
{
    if i < s.len() && is_sep(s[i], unicode) {
        lemma_skip_seps(s, i + 1, unicode);
    }
}

pub proof fn lemma_token_end(s: Seq<char>, i: int, unicode: bool)
    requires
        0 <= i <= s.len(),
    ensures
        i <= token_end(s, i, unicode) <= s.len(),
        i < s.len() && !is_sep(s[i], unicode) ==> i < token_end(s, i, unicode),
    decreases s.len() - i,
{
    if i < s.len() && !is_sep(s[i], unicode) {
        lemma_token_end(s, i + 1, unicode);
    }
}

/// The non-empty pieces of `s` from `i` on, split at separators.
pub open spec fn tokens_from(s: Seq<char>, i: int, unicode: bool) -> Seq<Seq<char>>
    decreases s.len() - i,
{
    if i < 0 || i > s.len() {
        Seq::empty()
    } else {
        let a = skip_seps(s, i, unicode);
        proof {
            lemma_skip_seps(s, i, unicode);
            lemma_token_end(s, a, unicode);
        }
        if a >= s.len() {
            Seq::empty()
        } else {
            seq![s.subrange(a, token_end(s, a, unicode))] + tokens_from(s, token_end(s, a, unicode), unicode)
        }
    }
}

/// Every token parsed as a length, or `None` when one does not parse.
pub open spec fn parse_all(ts: Seq<Seq<char>>) -> Option<Seq<Px>>
    decreases ts.len(),
{
    if ts.len() == 0 {
        Some(Seq::empty())
    } else {
        match (parse_all(ts.drop_last()), parse_px(ts.last())) {
            (Some(vs), Some(v)) => Some(vs.push(v)),
            _ => None,
        }
    }
}

pub open spec fn number_list(s: Seq<char>, unicode: bool) -> Option<Seq<Px>> {
    parse_all(tokens_from(s, 0, unicode))
}

fn is_sep_exec(c: char, unicode: bool) -> (b: bool)
    ensures
        b == is_sep(c, unicode),
{
    c == ',' || if unicode { ws(c) } else { c == ' ' || c == '\t' || c == '\n' || c == '\x0C' || c == '\r' }
}

proof fn lemma_parse_all_none(ts: Seq<Seq<char>>, k: int)
    requires
        0 <= k <= ts.len(),
        parse_all(ts.subrange(0, k)) is None,
    ensures
        parse_all(ts) is None,
    decreases ts.len() - k,
{
    if k < ts.len() {
        assert(ts.subrange(0, k + 1).drop_last() =~= ts.subrange(0, k));
        lemma_parse_all_none(ts, k + 1);
    } else {
        assert(ts.subrange(0, k) =~= ts);
    }
}

pub open spec fn px_all_wf(v: Seq<Px>) -> bool {
    forall|i: int| 0 <= i < v.len() ==> px_wf(#[trigger] v[i])
}

/// Parses a list of numbers separated by commas and white space.
pub fn parse_number_list(s: &Vec<char>, unicode: bool) -> (r: Option<Vec<Px>>)
    ensures
        match number_list(s@, unicode) {
            Some(v) => r is Some && r->0@ == v,
            None => r is None,
        },
        r matches Some(v) ==> px_all_wf(v@),
{
    let n = s.len();
    let ghost all = tokens_from(s@, 0, unicode);
    let ghost mut seen: Seq<Seq<char>> = Seq::empty();
    let mut out: Vec<Px> = Vec::new();
    let mut i: usize = 0;
    loop
        invariant
            i <= n,
            n == s@.len(),
            all == tokens_from(s@, 0, unicode),
            seen + tokens_from(s@, i as int, unicode) == all,
            parse_all(seen) == Some(out@),
            px_all_wf(out@),
        decreases n - i,
    {
        let mut a = i;
        while a < n && is_sep_exec(s[a], unicode)
            invariant
                i <= a <= n,
                n == s@.len(),
                skip_seps(s@, a as int, unicode) == skip_seps(s@, i as int, unicode),
            decreases n - a,
        {
            a += 1;
        }
        proof {
            lemma_skip_seps(s@, i as int, unicode);
        }
        if a >= n {
            assert(tokens_from(s@, i as int, unicode) == Seq::<Seq<char>>::empty());
            assert(seen =~= all);
            return Some(out);
        }
        let mut b = a;
        while b < n && !is_sep_exec(s[b], unicode)
            invariant
                a <= b <= n,
                n == s@.len(),
                token_end(s@, b as int, unicode) == token_end(s@, a as int, unicode),
            decreases n - b,
        {
            b += 1;
        }
        proof {
            lemma_token_end(s@, a as int, unicode);
        }
        let tok = sub_chars(s, a, b);
        let ghost before = seen;
        proof {
            seen = seen.push(tok@);
            assert(tokens_from(s@, i as int, unicode) == seq![tok@] + tokens_from(s@, b as int, unicode));
            assert(seen + tokens_from(s@, b as int, unicode) =~= before + tokens_from(s@, i as int, unicode));
            assert(seen.drop_last() =~= before);
        }
        match parse_px_exec(&tok) {
            Some(v) => {
                out.push(v);
            },
            None => {
                proof {
                    assert(parse_all(seen) is None);
                    assert(all.subrange(0, seen.len() as int) =~= seen);
                    lemma_parse_all_none(all, seen.len() as int);
                }
                return None;
            },
        }
        i = b;
    }
}

/// `M x0 y0` followed by ` L x y` for every further pair.
pub open spec fn pairs_path(v: Seq<Px>, i: int) -> Seq<char>
    decreases v.len() - i,
{
    if i < 0 || i + 1 >= v.len() {
        Seq::empty()
    } else {
        " L "@ + fmt_px(v[i]) + " "@ + fmt_px(v[i + 1]) + pairs_path(v, i + 2)
    }
}

pub open spec fn points_path_spec(value: Seq<char>) -> Option<Seq<char>> {
    match number_list(value, false) {
        Some(v) => if v.len() < 2 || v.len() % 2 != 0 {
            None
        } else {
            Some("M "@ + fmt_px(v[0]) + " "@ + fmt_px(v[1]) + pairs_path(v, 2))
        },
        None => None,
    }
}

fn push_pair(out: &mut Vec<char>, a: Px, b: Px)
    requires
        px_wf(a),
        px_wf(b),
    ensures
        final(out)@ == old(out)@ + " L "@ + fmt_px(a) + " "@ + fmt_px(b),
{
    let ghost start = out@;
    append_str(out, " L ");
    push_px(out, a);
    append_str(out, " ");
    push_px(out, b);
    assert(out@ =~= start + " L "@ + fmt_px(a) + " "@ + fmt_px(b));
}

/// Turns a `points` list into path data, or `None` when a number does not
/// parse or the count is not an even number of at least two.
pub fn points_to_path(value: &str) -> (r: Option<String>)
    ensures
        match points_path_spec(value@) {
            Some(d) => r is Some && r->0@ == d,
            None => r is None,
        },
{
    let v = match parse_number_list(&chars_of(value), false) {
        Some(v) => v,
        None => {
            return None;
        },
    };
    let n = v.len();
    if n < 2 || n % 2 != 0 {
        return None;
    }
    let mut out = chars_of("M ");
    push_px(&mut out, v[0]);
    append_str(&mut out, " ");
    push_px(&mut out, v[1]);
    let ghost head = out@;
    proof {
        reveal_strlit("M ");
        reveal_strlit(" ");
        reveal_strlit(" L ");
    }
    assert(head =~= "M "@ + fmt_px(v@[0]) + " "@ + fmt_px(v@[1]));
    let mut i: usize = 2;
    while i + 1 < n
        invariant
            2 <= i <= n,
            n == v@.len(),
            n % 2 == 0,
            i % 2 == 0,
            px_all_wf(v@),
            out@ + pairs_path(v@, i as int) == head + pairs_path(v@, 2),
        decreases n - i,
    {
        let ghost before = out@;
        push_pair(&mut out, v[i], v[i + 1]);
        assert(pairs_path(v@, i as int) == " L "@ + fmt_px(v@[i as int]) + " "@ + fmt_px(v@[i + 1]) + pairs_path(v@, i + 2));
        assert(out@ + pairs_path(v@, i + 2) =~= before + pairs_path(v@, i as int));
        i += 2;
    }
    assert(pairs_path(v@, i as int) == Seq::<char>::empty());
    assert(out@ =~= "M "@ + fmt_px(v@[0]) + " "@ + fmt_px(v@[1]) + pairs_path(v@, 2));
    Some(string_of(&out))
}

/// The four numbers of a `viewBox`, when it has exactly four.
pub open spec fn view_box_spec(value: Option<Seq<char>>) -> Option<(Px, Px, Px, Px)> {
    match value {
        Some(t) => match number_list(t, false) {
            Some(v) => if v.len() == 4 { Some((v[0], v[1], v[2], v[3])) } else { None },
            None => None,
        },
        None => None,
    }
}

pub fn parse_view_box(value: Option<&str>) -> (r: Option<(Px, Px, Px, Px)>)
    ensures
        r == view_box_spec(match value {
            Some(t) => Some(t@),
            None => None,
        }),
        r matches Some((a, b, c, d)) ==> px_wf(a) && px_wf(b) && px_wf(c) && px_wf(d),
{
    let t = match value {
        Some(t) => t,
        None => {
            return None;
        },
    };
    match parse_number_list(&chars_of(t), false) {
        Some(v) => if v.len() == 4 {
            Some((v[0], v[1], v[2], v[3]))
        } else {
            None
        },
        None => None,
    }
}

/// The non-empty pieces of `s` between separators.
pub fn tokens_exec(s: &Vec<char>, unicode: bool) -> (r: Vec<Vec<char>>)
    ensures
        crate::formatter::line_views(r@) == tokens_from(s@, 0, unicode),
{
    let n = s.len();
    let ghost all = tokens_from(s@, 0, unicode);
    let mut out: Vec<Vec<char>> = Vec::new();
    let mut i: usize = 0;
    loop
        invariant
            i <= n,
            n == s@.len(),
            all == tokens_from(s@, 0, unicode),
            crate::formatter::line_views(out@) + tokens_from(s@, i as int, unicode) == all,
        decreases n - i,
    {
        let mut a = i;
        while a < n && is_sep_exec(s[a], unicode)
            invariant
                i <= a <= n,
                n == s@.len(),
                skip_seps(s@, a as int, unicode) == skip_seps(s@, i as int, unicode),
            decreases n - a,
        {
            a += 1;
        }
        proof {
            lemma_skip_seps(s@, i as int, unicode);
        }
        if a >= n {
            assert(tokens_from(s@, i as int, unicode) == Seq::<Seq<char>>::empty());
            assert(crate::formatter::line_views(out@) + Seq::<Seq<char>>::empty() =~= crate::formatter::line_views(out@));
            return out;
        }
        let mut b = a;
        while b < n && !is_sep_exec(s[b], unicode)
            invariant
                a <= b <= n,
                n == s@.len(),
                token_end(s@, b as int, unicode) == token_end(s@, a as int, unicode),
            decreases n - b,
        {
            b += 1;
        }
        proof {
            lemma_token_end(s@, a as int, unicode);
        }
        let tok = sub_chars(s, a, b);
        let ghost before = crate::formatter::line_views(out@);
        assert(tokens_from(s@, i as int, unicode) == seq![tok@] + tokens_from(s@, b as int, unicode));
        out.push(tok);
        assert(crate::formatter::line_views(out@) =~= before.push(tok@));
        assert(crate::formatter::line_views(out@) + tokens_from(s@, b as int, unicode) =~= before + tokens_from(s@, i as int, unicode));
        i = b;
    }
}

// ---------------------------------------------------------------------------
// Laws of absolute units

proof fn lemma_trim_solid(s: Seq<char>)
    requires
        s.len() > 0,
        !crate::formatter::is_ws(s[0]),
        !crate::formatter::is_ws(s[s.len() - 1]),
    ensures
        crate::formatter::trim(s) == s,
{
    assert(crate::formatter::ws_start(s, 0) == 0);
    assert(crate::formatter::ws_end(s, s.len() as int) == s.len());
    assert(s.subrange(0, s.len() as int) =~= s);
}

proof fn lemma_decimal_last(b: Seq<char>)
    requires
        crate::number::parse_decimal(b) is Some,
    ensures
        b.len() > 0,
        crate::text::is_ascii_digit(b[b.len() - 1]) || b[b.len() - 1] == '.',
{
    let i1 = crate::number::digit_end(b, 0);
    crate::number::lemma_digit_end(b, 0);
    let has_dot = i1 < b.len() && b[i1] == '.';
    let i2 = if has_dot { crate::number::digit_end(b, i1 + 1) } else { i1 };
    if has_dot {
        crate::number::lemma_digit_end(b, i1 + 1);
    }
    if i2 != b.len() {
        let k = i2 + 1;
        let k2 = if k < b.len() && (b[k] == '-' || b[k] == '+') { k + 1 } else { k };
        crate::number::lemma_digit_end(b, k2);
    }
}

/// A number followed by a letter is no number.
proof fn lemma_unit_not_number(t: Seq<char>, u: Seq<char>)
    requires
        u.len() == 2,
        u == "cm"@ || u == "mm"@ || u == "in"@ || u == "pt"@ || u == "px"@,
        t.len() >= 2,
        t.subrange(t.len() - 2, t.len() as int) == u,
    ensures
        parse_px(t) is None,
{
    reveal_strlit("cm");
    reveal_strlit("mm");
    reveal_strlit("in");
    reveal_strlit("pt");
    reveal_strlit("px");
    reveal_strlit("inf");
    reveal_strlit("infinity");
    reveal_strlit("nan");
    assert(t[t.len() - 1] == u[1]);
    assert(t[t.len() - 2] == u[0]);
    let start: int = if t.len() > 0 && (t[0] == '-' || t[0] == '+') { 1 } else { 0 };
    let body = t.subrange(start, t.len() as int);
    if body.len() > 0 {
        assert(body[body.len() - 1] == t[t.len() - 1]);
        if crate::number::parse_decimal(body) is Some {
            lemma_decimal_last(body);
        }
        if body.len() >= 2 {
            assert(body[body.len() - 2] == t[t.len() - 2]);
        }
        assert(!crate::number::eq_ignore_case(body, "inf"@)) by {
            if body.len() == 3 {
                assert(crate::number::to_lower(body[2]) != 'f');
            }
        }
        assert(!crate::number::eq_ignore_case(body, "infinity"@)) by {
            if body.len() == 8 {
                assert(crate::number::to_lower(body[7]) != 'y');
            }
        }
        assert(!crate::number::eq_ignore_case(body, "nan"@)) by {
            if body.len() == 3 {
                if u == "in"@ {
                    assert(crate::number::to_lower(body[1]) != 'a');
                } else {
                    assert(crate::number::to_lower(body[2]) != 'n');
                }
            }
        }
    } else {
        assert(crate::number::parse_decimal(body) is None);
    }
}

proof fn lemma_unit_text(x: Seq<char>, u: Seq<char>)
    requires
        x.len() > 0,
        !crate::formatter::is_ws(x[0]),
        !crate::formatter::is_ws(x[x.len() - 1]),
        u == "cm"@ || u == "mm"@ || u == "in"@ || u == "pt"@ || u == "px"@,
    ensures
        crate::formatter::trim(x + u) == x + u,
        crate::formatter::trim(x) == x,
        parse_px(x + u) is None,
        (x + u).subrange(0, (x + u).len() - 2) == x,
        (x + u).subrange((x + u).len() - 2, (x + u).len() as int) == u,
{
    reveal_strlit("cm");
    reveal_strlit("mm");
    reveal_strlit("in");
    reveal_strlit("pt");
    reveal_strlit("px");
    let t = x + u;
    assert(t[0] == x[0]);
    assert(t[t.len() - 1] == u[1]);
    lemma_trim_solid(x);
    lemma_trim_solid(t);
    assert(t.subrange(0, t.len() - 2) =~= x);
    assert(t.subrange(t.len() - 2, t.len() as int) =~= u);
    lemma_unit_not_number(t, u);
}

proof fn lemma_resolve_unit(x: Seq<char>, u: Seq<char>, p: Px, axis: Axis, vw: Px, vh: Px)
    requires
        x.len() > 0,
        !crate::formatter::is_ws(x[0]),
        !crate::formatter::is_ws(x[x.len() - 1]),
        parse_px(x) == Some(p),
        u == "cm"@ || u == "mm"@ || u == "in"@,
    ensures
        u == "cm"@ ==> resolve_length_spec(x + u, axis, vw, vh) == Some(px_scale(p, 4800, 127)),
        u == "mm"@ ==> resolve_length_spec(x + u, axis, vw, vh) == Some(px_scale(p, 480, 127)),
        u == "in"@ ==> resolve_length_spec(x + u, axis, vw, vh) == Some(px_scale(p, 96, 1)),
{
    reveal_strlit("cm");
    reveal_strlit("mm");
    reveal_strlit("in");
    reveal_strlit("px");
    reveal_strlit("pt");
    lemma_unit_text(x, u);
    let t = x + u;
    let tail = t.subrange(t.len() - 2, t.len() as int);
    assert(tail == u);
    assert(unit_value(t, u) == Some(p));
    if u != "px"@ {
        assert(tail != "px"@) by {
            assert(tail[0] != 'p');
        }
    }
    assert(unit_value(t, "px"@) is None);
    assert(tail != "pt"@) by {
        assert(tail[0] != 'p');
    }
    assert(unit_value(t, "pt"@) is None);
    if u != "mm"@ {
        assert(tail != "mm"@) by {
            assert(tail[0] != 'm');
        }
        assert(unit_value(t, "mm"@) is None);
    }
    if u == "in"@ {
        assert(tail != "cm"@) by {
            assert(tail[0] != 'c');
        }
        assert(unit_value(t, "cm"@) is None);
    }
    if u == "cm"@ {
        assert(tail[0] == 'c');
        assert("mm"@[0] == 'm');
        assert(tail != "mm"@);
        assert(unit_value(t, "mm"@) is None);
        assert(parse_px(crate::formatter::trim(t)) is None);
        assert(resolve_length_spec(t, axis, vw, vh) == Some(px_scale(unit_value(t, "cm"@)->0, 4800, 127)));
    }
}

/// One inch is 2.54 cm and 25.4 mm: for a number `x`, the pixels of `x`cm
/// and `x`mm are those of `x`in times 50/127 and 5/127, cut to whole
/// billionths of a pixel, with the same sign; `x`in is `x` times 96 pixels.
pub proof fn law_absolute_units(x: Seq<char>, neg: bool, mag: u128, axis: Axis, vw: Px, vh: Px)
    requires
        x.len() > 0,
        !crate::formatter::is_ws(x[0]),
        !crate::formatter::is_ws(x[x.len() - 1]),
        parse_px(x) == Some(Px::Fin { neg, mag }),
        mag * 96 <= MAX_UNITS,
    ensures
        resolve_length_spec(x + "in"@, axis, vw, vh) == Some(Px::Fin { neg, mag: (mag * 96) as u128 }),
        resolve_length_spec(x + "cm"@, axis, vw, vh) matches Some(Px::Fin { neg: n, mag: c })
            && n == neg && c * 127 <= mag * 96 * 50 < c * 127 + 127,
        resolve_length_spec(x + "mm"@, axis, vw, vh) matches Some(Px::Fin { neg: n, mag: m })
            && n == neg && m * 1270 <= mag * 96 * 50 < m * 1270 + 1270,
{
    let p = Px::Fin { neg, mag };
    lemma_resolve_unit(x, "cm"@, p, axis, vw, vh);
    lemma_resolve_unit(x, "mm"@, p, axis, vw, vh);
    lemma_resolve_unit(x, "in"@, p, axis, vw, vh);
    let c = (mag as int) * 4800 / 127;
    let m = (mag as int) * 480 / 127;
    assert(c * 127 <= mag * 4800 < c * 127 + 127) by (nonlinear_arith)
        requires
            c == (mag as int) * 4800 / 127,
            mag >= 0,
    ;
    assert(m * 1270 <= mag * 4800 < m * 1270 + 1270) by (nonlinear_arith)
        requires
            m == (mag as int) * 480 / 127,
            mag >= 0,
    ;
    assert(0 <= c <= mag * 96) by (nonlinear_arith)
        requires
            c * 127 <= mag * 4800,
            c == (mag as int) * 4800 / 127,
            mag >= 0,
    ;
    assert(0 <= m <= mag * 96) by (nonlinear_arith)
        requires
            m * 1270 <= mag * 4800,
            m == (mag as int) * 480 / 127,
            mag >= 0,
    ;
    assert(px_scale(p, 96, 1) == Px::Fin { neg, mag: (mag * 96) as u128 });
    assert(px_scale(p, 4800, 127) == Px::Fin { neg, mag: c as u128 });
    assert(px_scale(p, 480, 127) == Px::Fin { neg, mag: m as u128 });
}

proof fn lemma_resolve_pt_px(x: Seq<char>, p: Px, axis: Axis, vw: Px, vh: Px)
    requires
        x.len() > 0,
        !crate::formatter::is_ws(x[0]),
        !crate::formatter::is_ws(x[x.len() - 1]),
        parse_px(x) == Some(p),
    ensures
        resolve_length_spec(x + "px"@, axis, vw, vh) == Some(p),
        resolve_length_spec(x + "pt"@, axis, vw, vh) == Some(px_scale(p, 4, 3)),
{
    reveal_strlit("px");
    reveal_strlit("pt");
    lemma_unit_text(x, "px"@);
    lemma_unit_text(x, "pt"@);
    let t = x + "pt"@;
    let tail = t.subrange(t.len() - 2, t.len() as int);
    assert(tail[1] == 't');
    assert("px"@[1] == 'x');
    assert(tail != "px"@);
    assert(unit_value(t, "px"@) is None);
}

/// A number `x` of pixels is `x` pixels, and `x` points are `x` times 4/3
/// pixels (72 points to 96 pixels), cut to whole billionths, same sign.
pub proof fn law_pixels_and_points(x: Seq<char>, neg: bool, mag: u128, axis: Axis, vw: Px, vh: Px)
    requires
        x.len() > 0,
        !crate::formatter::is_ws(x[0]),
        !crate::formatter::is_ws(x[x.len() - 1]),
        parse_px(x) == Some(Px::Fin { neg, mag }),
        mag * 4 <= MAX_UNITS,
    ensures
        resolve_length_spec(x + "px"@, axis, vw, vh) == Some(Px::Fin { neg, mag }),
        resolve_length_spec(x + "pt"@, axis, vw, vh) matches Some(Px::Fin { neg: n, mag: q })
            && n == neg && q * 3 <= mag * 4 < q * 3 + 3,
{
    let p = Px::Fin { neg, mag };
    lemma_resolve_pt_px(x, p, axis, vw, vh);
    let q = (mag as int) * 4 / 3;
    assert(q * 3 <= mag * 4 < q * 3 + 3);
    assert(px_scale(p, 4, 3) == Px::Fin { neg, mag: q as u128 });
}

proof fn lemma_percent_text(x: Seq<char>)
    requires
        x.len() > 0,
        !crate::formatter::is_ws(x[0]),
        !crate::formatter::is_ws(x[x.len() - 1]),
    ensures
        crate::formatter::trim(x + "%"@) == x + "%"@,
        parse_px(x + "%"@) is None,
        unit_value(x + "%"@, "px"@) is None,
        unit_value(x + "%"@, "pt"@) is None,
        unit_value(x + "%"@, "mm"@) is None,
        unit_value(x + "%"@, "cm"@) is None,
        unit_value(x + "%"@, "in"@) is None,
        unit_value(x + "%"@, "%"@) == parse_px(x),
{
    reveal_strlit("%");
    reveal_strlit("px");
    reveal_strlit("pt");
    reveal_strlit("mm");
    reveal_strlit("cm");
    reveal_strlit("in");
    reveal_strlit("inf");
    reveal_strlit("infinity");
    reveal_strlit("nan");
    let t = x + "%"@;
    assert(t[0] == x[0]);
    assert(t[t.len() - 1] == '%');
    lemma_trim_solid(x);
    lemma_trim_solid(t);
    assert(t.subrange(0, t.len() - 1) =~= x);
    assert(t.subrange(t.len() - 1, t.len() as int) =~= "%"@);
    assert(unit_value(t, "%"@) == parse_px(crate::formatter::trim(x)));
    let tail = t.subrange(t.len() - 2, t.len() as int);
    if t.len() >= 2 {
        assert(tail[1] == '%');
    }
    let start: int = if t.len() > 0 && (t[0] == '-' || t[0] == '+') { 1 } else { 0 };
    let body = t.subrange(start, t.len() as int);
    if body.len() > 0 {
        assert(body[body.len() - 1] == '%');
        if crate::number::parse_decimal(body) is Some {
            lemma_decimal_last(body);
        }
        assert(!crate::number::eq_ignore_case(body, "inf"@)) by {
            if body.len() == 3 {
                assert(crate::number::to_lower(body[2]) != 'f');
            }
        }
        assert(!crate::number::eq_ignore_case(body, "infinity"@)) by {
            if body.len() == 8 {
                assert(crate::number::to_lower(body[7]) != 'y');
            }
        }
        assert(!crate::number::eq_ignore_case(body, "nan"@)) by {
            if body.len() == 3 {
                assert(crate::number::to_lower(body[2]) != 'n');
            }
        }
    } else {
        assert(crate::number::parse_decimal(body) is None);
    }
}

/// A percentage is that share of the viewport's width along x and of its
/// height along y: `n`% of `w` pixels is `n * w / 100` pixels, cut to whole
/// billionths, negative when exactly one of them is.
pub proof fn law_percentages(x: Seq<char>, neg: bool, mag: u128, axis: Axis, vw: Px, vh: Px)
    requires
        x.len() > 0,
        !crate::formatter::is_ws(x[0]),
        !crate::formatter::is_ws(x[x.len() - 1]),
        parse_px(x) == Some(Px::Fin { neg, mag }),
        0 < mag <= 10000000000000000000,
        (if axis == Axis::X { vw } else { vh }) matches Px::Fin { neg: wn, mag: wm } && 0 < wm <= 10000000000000000000
            && mag * wm / 100000000000 <= MAX_UNITS,
    ensures
        ({
            let side = if axis == Axis::X { vw } else { vh };
            resolve_length_spec(x + "%"@, axis, vw, vh) matches Some(Px::Fin { neg: n, mag: m })
                && n == (neg != side->Fin_neg) && m * 100000000000 <= mag * side->Fin_mag < m * 100000000000 + 100000000000
        }),
{
    lemma_percent_text(x);
    let side = if axis == Axis::X { vw } else { vh };
    let wm = side->Fin_mag;
    let m = (mag as int) * (wm as int) / 100000000000;
    assert(m * 100000000000 <= mag * wm < m * 100000000000 + 100000000000) by (nonlinear_arith)
        requires
            m == (mag as int) * (wm as int) / 100000000000,
    ;
    assert(m >= 0) by (nonlinear_arith)
        requires
            m == (mag as int) * (wm as int) / 100000000000,
            mag >= 0,
            wm >= 0,
    ;
    assert(px_percent(Px::Fin { neg, mag }, side) == Px::Fin { neg: neg != side->Fin_neg, mag: m as u128 });
}

} // verus!
