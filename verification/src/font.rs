//! Font requests and faces: CSS font properties (`font-family`,
//! `font-weight`, `font-style`) and the metrics of a font face.
use vstd::prelude::*;
use crate::formatter::{trim, trim_chars};
use crate::image::{find_char, find_char_exec};
use crate::resources::lemma_find_char_some;
use crate::text::{chars_of, is_ascii_digit, string_of, sub_chars};

verus! {

#[derive(Debug, Clone, Copy, PartialEq, Eq, Structural)]
pub enum FontStyle {
    Normal,
    Italic,
    Oblique,
}

#[derive(Debug, Clone, PartialEq, Eq)]
pub struct FontRequest {
    pub families: Vec<String>,
    pub weight: u16,
    pub style: FontStyle,
}

impl Default for FontRequest {
    fn default() -> (r: Self)
        ensures
            r.families@.len() == 1,
            r.families@[0]@ == "sans-serif"@,
            r.weight == 400,
            r.style == FontStyle::Normal,
    {
        let mut families: Vec<String> = Vec::new();
        families.push(crate::text::chars_to_string_lit("sans-serif"));
        FontRequest { families, weight: 400, style: FontStyle::Normal }
    }
}

#[derive(Debug, Clone, Copy, PartialEq, Eq, Structural)]
pub struct GlyphIdValue(pub u16);

#[derive(Debug, Clone, Copy, PartialEq, Eq, Structural)]
pub struct FontMetrics {
    pub units_per_em: u16,
    pub ascent: i16,
    pub descent: i16,
    pub line_gap: i16,
}

#[derive(Debug, Clone, Copy, PartialEq, Eq, Structural)]
pub struct GlyphBoundingBox {
    pub x_min: i16,
    pub y_min: i16,
    pub x_max: i16,
    pub y_max: i16,
}

#[derive(Debug, Clone, Copy, PartialEq, Eq, Structural)]
pub struct GlyphMetrics {
    pub advance: u16,
    pub bbox: Option<GlyphBoundingBox>,
}

#[derive(Debug, Clone, PartialEq, Eq)]
pub struct FontDiagnostic {
    pub code: &'static str,
    pub message: String,
}

// ---------------------------------------------------------------------------
// `font-family`

/// The pieces of `s` between the separators `c`, from index `i` on.
pub open spec fn split_from(s: Seq<char>, c: char, i: int) -> Seq<Seq<char>>
    decreases s.len() - i,
{
    let k = find_char(s, c, i);
    if k >= s.len() || i < 0 || i > s.len() {
        seq![s.subrange(i, s.len() as int)]
    } else {
        proof {
            lemma_find_char_some(s, c, i);
        }
        seq![s.subrange(i, k)] + split_from(s, c, k + 1)
    }
}

pub open spec fn strip_front(s: Seq<char>, c: char) -> Seq<char>
    decreases s.len(),
{
    if s.len() > 0 && s[0] == c {
        strip_front(s.drop_first(), c)
    } else {
        s
    }
}

pub open spec fn strip_back(s: Seq<char>, c: char) -> Seq<char>
    decreases s.len(),
{
    if s.len() > 0 && s.last() == c {
        strip_back(s.drop_last(), c)
    } else {
        s
    }
}

/// `str::trim_matches` with one character.
pub open spec fn strip_all(s: Seq<char>, c: char) -> Seq<char> {
    strip_back(strip_front(s, c), c)
}

/// A family name: trimmed, then stripped of double and single quotes.
pub open spec fn family_name(seg: Seq<char>) -> Seq<char> {
    strip_all(strip_all(trim(seg), '"'), '\'')
}

/// The non-empty family names of the pieces, in order.
pub open spec fn families_of(segs: Seq<Seq<char>>) -> Seq<Seq<char>>
    decreases segs.len(),
{
    if segs.len() == 0 {
        Seq::empty()
    } else {
        let f = family_name(segs[0]);
        (if f.len() > 0 { seq![f] } else { Seq::empty() }) + families_of(segs.drop_first())
    }
}

pub open spec fn parse_families_spec(value: Option<Seq<char>>) -> Seq<Seq<char>> {
    let v = match value {
        Some(v) => v,
        None => "sans-serif"@,
    };
    families_of(split_from(v, ',', 0))
}

pub open spec fn string_views(v: Seq<String>) -> Seq<Seq<char>> {
    v.map_values(|s: String| s@)
}

pub(crate) fn strip_all_exec(s: &Vec<char>, c: char) -> (out: Vec<char>)
    ensures
        out@ == strip_all(s@, c),
{
    let n = s.len();
    let mut a: usize = 0;
    assert(s@.subrange(0, n as int) =~= s@);
    while a < n && s[a] == c
        invariant
            a <= n,
            n == s@.len(),
            strip_front(s@.subrange(a as int, n as int), c) == strip_front(s@, c),
        decreases n - a,
    {
        assert(s@.subrange(a as int, n as int).drop_first() =~= s@.subrange(a + 1, n as int));
        a += 1;
    }
    let front = sub_chars(s, a, n);
    assert(front@ == strip_front(s@, c));
    let m = front.len();
    let mut b: usize = m;
    assert(front@.subrange(0, m as int) =~= front@);
    while b > 0 && front[b - 1] == c
        invariant
            b <= m,
            m == front@.len(),
            strip_back(front@.subrange(0, b as int), c) == strip_back(front@, c),
        decreases b,
    {
        assert(front@.subrange(0, b as int).drop_last() =~= front@.subrange(0, b - 1));
        b -= 1;
    }
    sub_chars(&front, 0, b)
}

/// Splits a `font-family` list into family names, keeping their order and
/// dropping empty entries; no value means `sans-serif`.
pub fn parse_families(value: Option<&str>) -> (r: Vec<String>)
    ensures
        string_views(r@) == parse_families_spec(match value {
            Some(v) => Some(v@),
            None => None,
        }),
{
    let s = match value {
        Some(v) => chars_of(v),
        None => chars_of("sans-serif"),
    };
    let ghost target = families_of(split_from(s@, ',', 0));
    assert(target == parse_families_spec(match value {
        Some(v) => Some(v@),
        None => None,
    }));
    let n = s.len();
    let mut out: Vec<String> = Vec::new();
    let mut i: usize = 0;
    loop
        invariant
            i <= n,
            n == s@.len(),
            string_views(out@) + families_of(split_from(s@, ',', i as int)) == target,
            target == parse_families_spec(match value {
                Some(v) => Some(v@),
                None => None,
            }),
        decreases n - i,
    {
        let k = find_char_exec(&s, ',', i);
        proof {
            lemma_find_char_some(s@, ',', i as int);
        }
        let seg = sub_chars(&s, i, k);
        let name = strip_all_exec(&strip_all_exec(&trim_chars(&seg), '"'), '\'');
        let ghost rest = if k >= n { Seq::<Seq<char>>::empty() } else { split_from(s@, ',', k + 1) };
        proof {
            assert(split_from(s@, ',', i as int) == seq![seg@] + rest);
            assert((seq![seg@] + rest).drop_first() =~= rest);
            assert(families_of(seq![seg@] + rest) == (if name@.len() > 0 { seq![name@] } else { Seq::<Seq<char>>::empty() }) + families_of(rest));
        }
        if name.len() > 0 {
            let ghost before = out@;
            out.push(string_of(&name));
            assert(string_views(out@) =~= string_views(before).push(name@));
            assert(string_views(out@) + families_of(rest) =~= string_views(before) + (seq![name@] + families_of(rest)));
        } else {
            assert(string_views(out@) + families_of(rest) =~= string_views(out@) + (Seq::<Seq<char>>::empty() + families_of(rest)));
        }
        if k >= n {
            assert(families_of(rest) == Seq::<Seq<char>>::empty());
            assert(string_views(out@) + Seq::<Seq<char>>::empty() =~= string_views(out@));
            return out;
        }
        i = k + 1;
    }
}

// ---------------------------------------------------------------------------
// `font-weight` and `font-style`

pub open spec fn digits_value(d: Seq<char>) -> int
    decreases d.len(),
{
    if d.len() == 0 {
        0
    } else {
        digits_value(d.drop_last()) * 10 + (d.last() as int - '0' as int)
    }
}

pub open spec fn all_digits(d: Seq<char>) -> bool {
    forall|i: int| 0 <= i < d.len() ==> is_ascii_digit(#[trigger] d[i])
}

/// What `str::parse` accepts for an unsigned type whose largest value is
/// `max`: an optional `+` and decimal digits whose value fits.
pub open spec fn parse_uint_spec(s: Seq<char>, max: int) -> Option<int> {
    let d = if s.len() > 0 && s[0] == '+' { s.drop_first() } else { s };
    if d.len() == 0 || !all_digits(d) || digits_value(d) > max {
        None
    } else {
        Some(digits_value(d))
    }
}

pub open spec fn clamp_weight(v: int) -> int {
    if v < 1 { 1 } else if v > 1000 { 1000 } else { v }
}

pub open spec fn parse_weight_spec(value: Seq<char>) -> int {
    let t = trim(value);
    if t == "normal"@ {
        400
    } else if t == "bold"@ || t == "bolder"@ {
        700
    } else if t == "lighter"@ {
        300
    } else {
        match parse_uint_spec(t, 65535) {
            Some(v) => clamp_weight(v),
            None => 400,
        }
    }
}

proof fn lemma_digits_grow(d: Seq<char>, k: int)
    requires
        0 <= k <= d.len(),
        all_digits(d),
    ensures
        digits_value(d.subrange(0, k)) <= digits_value(d),
        0 <= digits_value(d.subrange(0, k)),
    decreases d.len() - k,
{
    if k < d.len() {
        assert(d.subrange(0, k + 1).drop_last() =~= d.subrange(0, k));
        assert(is_ascii_digit(d[k]));
        lemma_digits_grow(d, k + 1);
    } else {
        assert(d.subrange(0, k) =~= d);
        lemma_digits_nonneg(d);
    }
}

proof fn lemma_digits_nonneg(d: Seq<char>)
    requires
        all_digits(d),
    ensures
        0 <= digits_value(d),
    decreases d.len(),
{
    if d.len() > 0 {
        assert(all_digits(d.drop_last()));
        assert(is_ascii_digit(d[d.len() - 1]));
        lemma_digits_nonneg(d.drop_last());
    }
}

pub fn parse_uint(s: &Vec<char>, max: u32) -> (r: Option<u32>)
    requires
        max <= 65535,
    ensures
        match parse_uint_spec(s@, max as int) {
            Some(v) => r is Some && r->0 == v,
            None => r is None,
        },
{
    let n = s.len();
    let start: usize = if n > 0 && s[0] == '+' { 1 } else { 0 };
    let d = sub_chars(s, start, n);
    assert(start == 1 ==> d@ =~= s@.drop_first());
    assert(start == 0 ==> d@ =~= s@);
    let m = d.len();
    if m == 0 {
        return None;
    }
    let mut acc: u32 = 0;
    let mut k: usize = 0;
    while k < m
        invariant
            k <= m,
            m == d@.len(),
            acc <= max,
            max <= 65535,
            d@ == (if s@.len() > 0 && s@[0] == '+' { s@.drop_first() } else { s@ }),
            forall|j: int| 0 <= j < k ==> is_ascii_digit(#[trigger] d@[j]),
            acc == digits_value(d@.subrange(0, k as int)),
        decreases m - k,
    {
        let c = d[k];
        if !('0' <= c && c <= '9') {
            assert(!is_ascii_digit(d@[k as int]));
            return None;
        }
        assert(d@.subrange(0, k + 1).drop_last() =~= d@.subrange(0, k as int));
        let next = acc * 10 + ((c as u32) - ('0' as u32));
        if next > max {
            proof {
                let ghost e = d@;
                if all_digits(e) {
                    lemma_digits_grow(e, k + 1);
                }
            }
            return None;
        }
        acc = next;
        k += 1;
    }
    assert(d@.subrange(0, m as int) =~= d@);
    Some(acc)
}

fn chars_is(v: &Vec<char>, s: &str) -> (b: bool)
    ensures
        b == (v@ == s@),
{
    crate::parser::chars_eq(v, &chars_of(s))
}

/// Resolves a `font-weight`: the keywords `normal`, `bold`, `bolder` and
/// `lighter`, or a number clamped to 1..=1000; anything else is 400.
pub fn parse_weight(value: &str) -> (w: u16)
    ensures
        w == parse_weight_spec(value@),
{
    let t = trim_chars(&chars_of(value));
    if chars_is(&t, "normal") {
        400
    } else if chars_is(&t, "bold") || chars_is(&t, "bolder") {
        700
    } else if chars_is(&t, "lighter") {
        300
    } else {
        match parse_uint(&t, 65535) {
            Some(v) => if v < 1 { 1 } else if v > 1000 { 1000 } else { v as u16 },
            None => 400,
        }
    }
}

pub open spec fn parse_style_spec(value: Seq<char>) -> FontStyle {
    let t = trim(value);
    if t == "italic"@ {
        FontStyle::Italic
    } else if t == "oblique"@ {
        FontStyle::Oblique
    } else {
        FontStyle::Normal
    }
}

/// Resolves a `font-style`: `italic`, `oblique`, or normal.
pub fn parse_style(value: &str) -> (s: FontStyle)
    ensures
        s == parse_style_spec(value@),
{
    let t = trim_chars(&chars_of(value));
    if chars_is(&t, "italic") {
        FontStyle::Italic
    } else if chars_is(&t, "oblique") {
        FontStyle::Oblique
    } else {
        FontStyle::Normal
    }
}

} // verus!
