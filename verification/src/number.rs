//! Decimal numbers as text: recognising what `f64::from_str` accepts and
//! rendering such a number the way a floating-point value of it displays.
use vstd::prelude::*;
use crate::text::{ascii_digit, is_ascii_digit, sub_chars, append_chars};

verus! {

/// Exponents are held up to this magnitude; anything larger already lies far
/// outside the range of a double.
pub open spec fn exp_cap() -> int {
    0x10000000000000000000000000
}

pub enum FloatText {
    /// The value `0.d1 d2 ...` with the decimal point moved right by `point`
    /// places (for example digits `125` and point `1` stand for 12.5).
    Finite { neg: bool, digits: Seq<char>, point: int },
    Inf { neg: bool },
    NaN,
}

pub open spec fn to_lower(c: char) -> char {
    if 'A' <= c && c <= 'Z' {
        ((c as u32) + 32) as char
    } else {
        c
    }
}

/// Case-insensitive equality with a lower-case word.
pub open spec fn eq_ignore_case(s: Seq<char>, word: Seq<char>) -> bool {
    s.len() == word.len() && forall|k: int| 0 <= k < s.len() ==> to_lower(#[trigger] s[k]) == word[k]
}

/// First index at or after `i` that does not hold a decimal digit.
pub open spec fn digit_end(s: Seq<char>, i: int) -> int
    decreases s.len() - i,
{
    if i < 0 || i >= s.len() {
        i
    } else if !is_ascii_digit(s[i]) {
        i
    } else {
        digit_end(s, i + 1)
    }
}

/// The value of a run of decimal digits, held at `exp_cap()` once it
/// exceeds it.
pub open spec fn capped_value(s: Seq<char>) -> int
    decreases s.len(),
{
    if s.len() == 0 {
        0
    } else {
        let v = capped_value(s.drop_last()) * 10 + (s.last() as int - '0' as int);
        if v > exp_cap() {
            exp_cap()
        } else {
            v
        }
    }
}

/// Digits and point position of an unsigned decimal literal, as Rust's
/// float parser accepts it: digits with an optional fraction (at least one
/// digit overall) and an optional exponent.
pub open spec fn parse_decimal(b: Seq<char>) -> Option<(Seq<char>, int)> {
    let i1 = digit_end(b, 0);
    let int_part = b.subrange(0, i1);
    let has_dot = i1 < b.len() && b[i1] == '.';
    let i2 = if has_dot { digit_end(b, i1 + 1) } else { i1 };
    let frac = if has_dot { b.subrange(i1 + 1, i2) } else { Seq::empty() };
    if int_part.len() + frac.len() == 0 {
        None
    } else if i2 == b.len() {
        Some((int_part + frac, int_part.len() as int))
    } else if b[i2] == 'e' || b[i2] == 'E' {
        match exponent_part(b, i2) {
            Some(e) => Some((int_part + frac, int_part.len() + e)),
            None => None,
        }
    } else {
        None
    }
}

/// The signed exponent written after the `e` at index `i2`, which must run
/// to the end of `b`.
pub open spec fn exponent_part(b: Seq<char>, i2: int) -> Option<int> {
    let k = i2 + 1;
    let eneg = k < b.len() && b[k] == '-';
    let k2 = if k < b.len() && (b[k] == '-' || b[k] == '+') { k + 1 } else { k };
    let j = digit_end(b, k2);
    if j == k2 || j != b.len() {
        None
    } else {
        let e = capped_value(b.subrange(k2, j));
        Some(if eneg { -e } else { e })
    }
}

/// What `str::parse::<f64>` accepts, and which number it denotes.
pub open spec fn parse_float(s: Seq<char>) -> Option<FloatText> {
    let neg = s.len() > 0 && s[0] == '-';
    let start: int = if s.len() > 0 && (s[0] == '-' || s[0] == '+') { 1 } else { 0 };
    let body = s.subrange(start, s.len() as int);
    if eq_ignore_case(body, "inf"@) || eq_ignore_case(body, "infinity"@) {
        Some(FloatText::Inf { neg })
    } else if eq_ignore_case(body, "nan"@) {
        Some(FloatText::NaN)
    } else {
        match parse_decimal(body) {
            Some(d) => Some(FloatText::Finite { neg, digits: d.0, point: d.1 }),
            None => None,
        }
    }
}

/// Number of leading `'0'` characters.
pub open spec fn leading_zeros(d: Seq<char>) -> int
    decreases d.len(),
{
    if d.len() == 0 || d[0] != '0' {
        0
    } else {
        1 + leading_zeros(d.drop_first())
    }
}

/// Length without trailing `'0'` characters.
pub open spec fn trimmed_len(d: Seq<char>, n: int) -> int
    decreases n,
{
    if n <= 0 || n > d.len() {
        0
    } else if d[n - 1] != '0' {
        n
    } else {
        trimmed_len(d, n - 1)
    }
}

pub open spec fn zeros(n: int) -> Seq<char>
    decreases n,
{
    if n <= 0 {
        Seq::empty()
    } else {
        zeros(n - 1).push('0')
    }
}

/// Decimal rendering of the significant digits `d` (no leading or trailing
/// zeros) with the point after `p` digits.
pub open spec fn place_point(d: Seq<char>, p: int) -> Seq<char> {
    if p >= d.len() {
        d + zeros(p - d.len())
    } else if p > 0 {
        d.subrange(0, p) + seq!['.'] + d.subrange(p, d.len() as int)
    } else {
        seq!['0', '.'] + zeros(-p) + d
    }
}

/// How a double of the given number displays with `{}`: the shortest
/// decimal without exponent, `inf`, or `NaN`. Magnitudes of 10^309 and more
/// display as infinity and magnitudes below 10^-323 as zero.
pub open spec fn display_float(f: FloatText) -> Seq<char> {
    match f {
        FloatText::NaN => "NaN"@,
        FloatText::Inf { neg } => if neg { "-inf"@ } else { "inf"@ },
        FloatText::Finite { neg, digits, point } => {
            let lz = leading_zeros(digits);
            let d = digits.subrange(lz, digits.len() as int);
            let sig = d.subrange(0, trimmed_len(d, d.len() as int));
            let p = point - lz;
            let sign: Seq<char> = if neg { seq!['-'] } else { Seq::empty() };
            if sig.len() == 0 || p < -323 {
                sign + seq!['0']
            } else if p > 309 {
                if neg { "-inf"@ } else { "inf"@ }
            } else {
                sign + place_point(sig, p)
            }
        }
    }
}

/// The display text of a number written as `s`, or `None` when `s` does not
/// parse as a floating-point number.
pub open spec fn float_display_spec(s: Seq<char>) -> Option<Seq<char>> {
    match parse_float(s) {
        Some(f) => Some(display_float(f)),
        None => None,
    }
}

// ---------------------------------------------------------------------------

pub(crate) proof fn lemma_digit_end(s: Seq<char>, i: int)
    requires
        0 <= i <= s.len(),
    ensures
        i <= digit_end(s, i) <= s.len(),
        forall|k: int| i <= k < digit_end(s, i) ==> is_ascii_digit(#[trigger] s[k]),
        digit_end(s, i) < s.len() ==> !is_ascii_digit(s[digit_end(s, i)]),
    decreases s.len() - i,
{
    if i < s.len() && is_ascii_digit(s[i]) {
        lemma_digit_end(s, i + 1);
    }
}

fn scan_digits(s: &Vec<char>, i: usize) -> (j: usize)
    requires
        i <= s@.len(),
    ensures
        j == digit_end(s@, i as int),
{
    let mut j = i;
    while j < s.len() && ascii_digit(s[j])
        invariant
            i <= j <= s@.len(),
            digit_end(s@, j as int) == digit_end(s@, i as int),
        decreases s@.len() - j,
    {
        j += 1;
    }
    j
}

pub(crate) fn lower_char(c: char) -> (r: char)
    ensures
        r == to_lower(c),
{
    if 'A' <= c && c <= 'Z' {
        ((c as u8) + 32) as char
    } else {
        c
    }
}

fn matches_ignore_case(s: &Vec<char>, from: usize, word: &str) -> (b: bool)
    requires
        from <= s@.len(),
    ensures
        b == eq_ignore_case(s@.subrange(from as int, s@.len() as int), word@),
{
    let w = crate::text::chars_of(word);
    let n = s.len();
    let ghost body = s@.subrange(from as int, s@.len() as int);
    if n - from != w.len() {
        return false;
    }
    let mut k: usize = 0;
    while k < w.len()
        invariant
            k <= w@.len(),
            w@ == word@,
            s@.len() - from == w@.len(),
            n == s@.len(),
            from <= s@.len(),
            body == s@.subrange(from as int, s@.len() as int),
            forall|m: int| 0 <= m < k ==> to_lower(#[trigger] body[m]) == w@[m],
        decreases w@.len() - k,
    {
        assert(from + k < n);
        if lower_char(s[from + k]) != w[k] {
            assert(to_lower(body[k as int]) != w@[k as int]);
            return false;
        }
        k += 1;
    }
    true
}

fn exponent_value(s: &Vec<char>, from: usize, to: usize) -> (v: i128)
    requires
        from <= to <= s@.len(),
        forall|k: int| from <= k < to ==> is_ascii_digit(#[trigger] s@[k]),
    ensures
        v == capped_value(s@.subrange(from as int, to as int)),
        0 <= v <= exp_cap(),
{
    let mut v: i128 = 0;
    let mut k = from;
    while k < to
        invariant
            from <= k <= to,
            to <= s@.len(),
            forall|m: int| from <= m < to ==> is_ascii_digit(#[trigger] s@[m]),
            v == capped_value(s@.subrange(from as int, k as int)),
            0 <= v <= exp_cap(),
        decreases to - k,
    {
        let d = s[k];
        assert(is_ascii_digit(s@[k as int]));
        let digit: i128 = (d as u32 - '0' as u32) as i128;
        let next = v * 10 + digit;
        assert(s@.subrange(from as int, k + 1).drop_last() =~= s@.subrange(from as int, k as int));
        v = if next > 0x10000000000000000000000000 { 0x10000000000000000000000000 } else { next };
        k += 1;
    }
    v
}

fn exponent_of(b: &Vec<char>, from: usize, i2: usize) -> (r: Option<i128>)
    requires
        from <= i2 < b@.len(),
        b@.len() <= usize::MAX,
    ensures
        ({
            let body = b@.subrange(from as int, b@.len() as int);
            match exponent_part(body, i2 - from) {
                Some(e) => r is Some && r->0 == e,
                None => r is None,
            }
        }),
        r is Some ==> -exp_cap() <= r->0 <= exp_cap(),
{
    let ghost body = b@.subrange(from as int, b@.len() as int);
    let n = b.len();
    let k = i2 + 1;
    let eneg = k < n && b[k] == '-';
    let k2 = if k < n && (b[k] == '-' || b[k] == '+') { k + 1 } else { k };
    let j = scan_digits(b, k2);
    proof {
        lemma_digit_end(b@, k2 as int);
        lemma_digit_end_shift(b@, from as int, k2 - from);
        if k < n {
            assert(body[k - from] == b@[k as int]);
        }
    }
    if j == k2 || j != n {
        return None;
    }
    let e = exponent_value(b, k2, j);
    proof {
        assert(b@.subrange(k2 as int, j as int) =~= body.subrange(k2 - from, j - from));
    }
    if eneg { Some(-e) } else { Some(e) }
}

/// Parses an unsigned decimal literal occupying `b[from..]`.
#[verifier::rlimit(30)]
fn decimal_parts(b: &Vec<char>, from: usize) -> (r: Option<(Vec<char>, i128)>)
    requires
        from <= b@.len(),
        b@.len() <= usize::MAX,
    ensures
        ({
            let body = b@.subrange(from as int, b@.len() as int);
            match parse_decimal(body) {
                Some(d) => r is Some && (r->0).0@ == d.0 && (r->0).1 == d.1,
                None => r is None,
            }
        }),
        r is Some ==> (r->0).0@.len() <= b@.len(),
        r is Some ==> -exp_cap() <= (r->0).1 <= exp_cap() + b@.len(),
{
    let ghost body = b@.subrange(from as int, b@.len() as int);
    let n = b.len();
    let i1 = scan_digits(b, from);
    proof {
        lemma_digit_end(b@, from as int);
        lemma_digit_end_shift(b@, from as int, 0);
        if i1 < n {
            assert(body[i1 - from] == b@[i1 as int]);
        }
    }
    let has_dot = i1 < n && b[i1] == '.';
    let i2 = if has_dot { scan_digits(b, i1 + 1) } else { i1 };
    proof {
        if has_dot {
            lemma_digit_end(b@, i1 + 1);
            lemma_digit_end_shift(b@, from as int, i1 + 1 - from);
        }
        if i2 < n {
            assert(body[i2 - from] == b@[i2 as int]);
        }
    }
    let int_part = sub_chars(b, from, i1);
    let frac = if has_dot { sub_chars(b, i1 + 1, i2) } else { Vec::new() };
    proof {
        assert(int_part@ =~= body.subrange(0, i1 - from));
        if has_dot {
            assert(frac@ =~= body.subrange(i1 - from + 1, i2 - from));
        }
    }
    if int_part.len() + frac.len() == 0 {
        return None;
    }
    let mut digits = int_part;
    let int_len = digits.len();
    append_chars(&mut digits, &frac);
    proof {
        let sp_i1 = digit_end(body, 0);
        let sp_dot = sp_i1 < body.len() && body[sp_i1] == '.';
        let sp_i2 = if sp_dot { digit_end(body, sp_i1 + 1) } else { sp_i1 };
        let sp_frac = if sp_dot { body.subrange(sp_i1 + 1, sp_i2) } else { Seq::<char>::empty() };
        assert(sp_i1 == i1 - from);
        assert(sp_dot == has_dot);
        assert(sp_i2 == i2 - from);
        assert(digits@ =~= body.subrange(0, sp_i1) + sp_frac);
        assert(int_len == body.subrange(0, sp_i1).len());
    }
    if i2 == n {
        return Some((digits, int_len as i128));
    }
    if b[i2] == 'e' || b[i2] == 'E' {
        let ex = exponent_of(b, from, i2);
        proof {
            assert(body[i2 - from] == b@[i2 as int]);
            assert(i2 - from < body.len());
        }
        match ex {
            Some(e) => {
                assert(parse_decimal(body) == Some((digits@, int_len + e)));
                Some((digits, int_len as i128 + e))
            },
            None => {
                assert(parse_decimal(body) is None);
                None
            },
        }
    } else {
        assert(body[i2 - from] == b@[i2 as int]);
        assert(parse_decimal(body) is None);
        None
    }
}

proof fn lemma_digit_end_shift(s: Seq<char>, from: int, i: int)
    requires
        0 <= from <= s.len(),
        0 <= i <= s.len() - from,
    ensures
        digit_end(s.subrange(from, s.len() as int), i) == digit_end(s, from + i) - from,
    decreases s.len() - from - i,
{
    let b = s.subrange(from, s.len() as int);
    if i < b.len() {
        assert(b[i] == s[from + i]);
        if is_ascii_digit(b[i]) {
            lemma_digit_end_shift(s, from, i + 1);
        }
    }
}

proof fn lemma_leading_zeros(d: Seq<char>)
    ensures
        0 <= leading_zeros(d) <= d.len(),
        forall|k: int| 0 <= k < leading_zeros(d) ==> #[trigger] d[k] == '0',
        leading_zeros(d) < d.len() ==> d[leading_zeros(d)] != '0',
    decreases d.len(),
{
    if d.len() > 0 && d[0] == '0' {
        lemma_leading_zeros(d.drop_first());
        assert forall|k: int| 0 <= k < leading_zeros(d) implies #[trigger] d[k] == '0' by {
            if k > 0 {
                assert(d[k] == d.drop_first()[k - 1]);
            }
        }
        if leading_zeros(d) < d.len() {
            assert(d[leading_zeros(d)] == d.drop_first()[leading_zeros(d) - 1]);
        }
    }
}

proof fn lemma_trimmed_len(d: Seq<char>, n: int)
    requires
        0 <= n <= d.len(),
    ensures
        0 <= trimmed_len(d, n) <= n,
        trimmed_len(d, n) > 0 ==> d[trimmed_len(d, n) - 1] != '0',
    decreases n,
{
    if n > 0 && d[n - 1] == '0' {
        lemma_trimmed_len(d, n - 1);
    }
}

fn count_leading_zeros(d: &Vec<char>) -> (k: usize)
    ensures
        k == leading_zeros(d@),
{
    let mut k: usize = 0;
    assert(d@.subrange(0, d@.len() as int) =~= d@);
    while k < d.len() && d[k] == '0'
        invariant
            k <= d@.len(),
            leading_zeros(d@) == k + leading_zeros(d@.subrange(k as int, d@.len() as int)),
        decreases d@.len() - k,
    {
        proof {
            let rest = d@.subrange(k as int, d@.len() as int);
            assert(rest.drop_first() =~= d@.subrange(k + 1, d@.len() as int));
        }
        k += 1;
    }
    proof {
        let rest = d@.subrange(k as int, d@.len() as int);
        if k < d@.len() {
            assert(rest[0] == d@[k as int]);
        }
    }
    k
}

fn count_trimmed(d: &Vec<char>) -> (n: usize)
    ensures
        n == trimmed_len(d@, d@.len() as int),
{
    let mut n = d.len();
    while n > 0 && d[n - 1] == '0'
        invariant
            n <= d@.len(),
            trimmed_len(d@, n as int) == trimmed_len(d@, d@.len() as int),
        decreases n,
    {
        n -= 1;
    }
    n
}

fn push_zeros(out: &mut Vec<char>, n: i128)
    requires
        0 <= n <= 400,
    ensures
        final(out)@ == old(out)@ + zeros(n as int),
{
    let mut k: i128 = 0;
    while k < n
        invariant
            0 <= k <= n,
            n <= 400,
            out@ == old(out)@ + zeros(k as int),
        decreases n - k,
    {
        out.push('0');
        k += 1;
        assert(out@ =~= old(out)@ + zeros(k as int));
    }
}

fn push_str_lit(out: &mut Vec<char>, s: &str)
    ensures
        final(out)@ == old(out)@ + s@,
{
    crate::text::append_str(out, s);
}

/// Renders digits with a decimal point after `point` digits, as a double of
/// that number would display.
fn render_finite(neg: bool, digits: &Vec<char>, point: i128) -> (out: Vec<char>)
    requires
        digits@.len() <= usize::MAX,
        -exp_cap() - usize::MAX <= point <= exp_cap() + usize::MAX,
    ensures
        out@ == display_float(FloatText::Finite { neg, digits: digits@, point: point as int }),
{
    let lz = count_leading_zeros(digits);
    proof { lemma_leading_zeros(digits@); }
    let d = sub_chars(digits, lz, digits.len());
    let tl = count_trimmed(&d);
    proof { lemma_trimmed_len(d@, d@.len() as int); }
    let sig = sub_chars(&d, 0, tl);
    let p: i128 = point - lz as i128;
    let mut out: Vec<char> = Vec::new();
    if neg {
        out.push('-');
    }
    let ghost sign: Seq<char> = if neg { seq!['-'] } else { Seq::empty() };
    assert(out@ == sign);
    if sig.len() == 0 || p < -323 {
        out.push('0');
        return out;
    }
    if p > 309 {
        let mut inf: Vec<char> = Vec::new();
        if neg {
            push_str_lit(&mut inf, "-inf");
            assert(inf@ =~= "-inf"@);
        } else {
            push_str_lit(&mut inf, "inf");
            assert(inf@ =~= "inf"@);
        }
        return inf;
    }
    let len = sig.len() as i128;
    if p >= len {
        append_chars(&mut out, &sig);
        push_zeros(&mut out, p - len);
        assert(out@ =~= sign + (sig@ + zeros(p - len)));
    } else if p > 0 {
        let head = sub_chars(&sig, 0, p as usize);
        let tail = sub_chars(&sig, p as usize, sig.len());
        append_chars(&mut out, &head);
        out.push('.');
        append_chars(&mut out, &tail);
        assert(out@ =~= sign + (sig@.subrange(0, p as int) + seq!['.'] + sig@.subrange(p as int, sig@.len() as int)));
    } else {
        out.push('0');
        out.push('.');
        push_zeros(&mut out, -p);
        append_chars(&mut out, &sig);
        assert(out@ =~= sign + (seq!['0', '.'] + zeros(-p as int) + sig@));
    }
    out
}

/// The text with which the floating-point value of `s` displays, or `None`
/// when `s` is not a floating-point literal.
pub fn float_display(s: &Vec<char>) -> (r: Option<Vec<char>>)
    ensures
        match float_display_spec(s@) {
            Some(t) => r is Some && r->0@ == t,
            None => r is None,
        },
{
    let n = s.len();
    let neg = n > 0 && s[0] == '-';
    let start: usize = if n > 0 && (s[0] == '-' || s[0] == '+') { 1 } else { 0 };
    if matches_ignore_case(s, start, "inf") || matches_ignore_case(s, start, "infinity") {
        let mut out: Vec<char> = Vec::new();
        if neg {
            push_str_lit(&mut out, "-inf");
            assert(out@ =~= "-inf"@);
        } else {
            push_str_lit(&mut out, "inf");
            assert(out@ =~= "inf"@);
        }
        return Some(out);
    }
    if matches_ignore_case(s, start, "nan") {
        let mut out: Vec<char> = Vec::new();
        push_str_lit(&mut out, "NaN");
        assert(out@ =~= "NaN"@);
        return Some(out);
    }
    match decimal_parts(s, start) {
        Some((digits, point)) => {
            Some(render_finite(neg, &digits, point))
        },
        None => None,
    }
}

/// A parsed floating-point literal as executable data.
pub enum FloatParts {
    Finite(bool, Vec<char>, i128),
    Inf(bool),
    NaN,
}

pub open spec fn parts_view(p: FloatParts) -> FloatText {
    match p {
        FloatParts::Finite(neg, digits, point) => FloatText::Finite { neg, digits: digits@, point: point as int },
        FloatParts::Inf(neg) => FloatText::Inf { neg },
        FloatParts::NaN => FloatText::NaN,
    }
}

/// Recognises a floating-point literal as `str::parse::<f64>` does.
pub fn parse_float_parts(s: &Vec<char>) -> (r: Option<FloatParts>)
    ensures
        match parse_float(s@) {
            Some(f) => r is Some && parts_view(r->0) == f,
            None => r is None,
        },
        r matches Some(FloatParts::Finite(_, d, p)) ==> d@.len() <= s@.len() && -exp_cap() <= p <= exp_cap() + s@.len(),
{
    let n = s.len();
    let neg = n > 0 && s[0] == '-';
    let start: usize = if n > 0 && (s[0] == '-' || s[0] == '+') { 1 } else { 0 };
    if matches_ignore_case(s, start, "inf") || matches_ignore_case(s, start, "infinity") {
        return Some(FloatParts::Inf(neg));
    }
    if matches_ignore_case(s, start, "nan") {
        return Some(FloatParts::NaN);
    }
    match decimal_parts(s, start) {
        Some((digits, point)) => Some(FloatParts::Finite(neg, digits, point)),
        None => None,
    }
}

} // verus!
