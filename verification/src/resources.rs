//! Text helpers of the semantic pass that turns native resource records
//! into renderer input: SRNG string literals, XML escaping, shape records,
//! resource references, luminance masks and premultiplied pixels.
use vstd::prelude::*;
use crate::formatter::{line_views, lines, split_lines, trim, trim_chars};
use crate::image::{find_char, find_char_exec, hex, hex_value};
use vstd::utf8::{encode_utf8, is_char_boundary};
use crate::text::{append_chars, append_str, chars_of, string_of, sub_chars};

verus! {

// ---------------------------------------------------------------------------
// SRNG string literals

/// What the character after a backslash stands for.
pub open spec fn unescape_pair(c: char) -> Seq<char> {
    if c == '\\' {
        seq!['\\']
    } else if c == '"' {
        seq!['"']
    } else if c == 'n' {
        seq!['\n']
    } else if c == 'r' {
        seq!['\r']
    } else if c == 't' {
        seq!['\t']
    } else {
        seq!['\\', c]
    }
}

/// Undoes the escapes of a string literal's body, read from the front.
pub open spec fn unescape(s: Seq<char>) -> Seq<char>
    decreases s.len(),
{
    if s.len() == 0 {
        s
    } else if s[0] != '\\' {
        seq![s[0]] + unescape(s.drop_first())
    } else if s.len() == 1 {
        seq!['\\']
    } else {
        unescape_pair(s[1]) + unescape(s.subrange(2, s.len() as int))
    }
}

/// The text of a quoted SRNG value; any other value, trimmed, as it is.
pub open spec fn unquote_spec(value: Seq<char>) -> Seq<char> {
    let t = trim(value);
    if t.len() >= 2 && t[0] == '"' && t[t.len() - 1] == '"' {
        unescape(t.subrange(1, t.len() - 1))
    } else {
        t
    }
}

proof fn lemma_unescape_from(s: Seq<char>, i: int)
    requires
        0 <= i < s.len(),
    ensures
        s[i] != '\\' ==> unescape(s.subrange(i, s.len() as int)) == seq![s[i]] + unescape(s.subrange(i + 1, s.len() as int)),
        s[i] == '\\' && i + 1 == s.len() ==> unescape(s.subrange(i, s.len() as int)) == seq!['\\'],
        s[i] == '\\' && i + 1 < s.len() ==> unescape(s.subrange(i, s.len() as int))
            == unescape_pair(s[i + 1]) + unescape(s.subrange(i + 2, s.len() as int)),
{
    let t = s.subrange(i, s.len() as int);
    assert(t.drop_first() =~= s.subrange(i + 1, s.len() as int));
    if t.len() >= 2 {
        assert(t.subrange(2, t.len() as int) =~= s.subrange(i + 2, s.len() as int));
    }
}

/// Reads an SRNG value: the body of a quoted literal with its escapes
/// undone, or the trimmed value itself.
pub fn unquote(value: &str) -> (out: String)
    ensures
        out@ == unquote_spec(value@),
{
    let t = trim_chars(&chars_of(value));
    let n = t.len();
    if !(n >= 2 && t[0] == '"' && t[n - 1] == '"') {
        return string_of(&t);
    }
    let inner = sub_chars(&t, 1, n - 1);
    let m = inner.len();
    let ghost s = inner@;
    let mut out: Vec<char> = Vec::new();
    let mut i: usize = 0;
    assert(s.subrange(0, m as int) =~= s);
    while i < m
        invariant
            i <= m,
            m == s.len(),
            s == inner@,
            out@ + unescape(s.subrange(i as int, m as int)) == unescape(s),
        decreases m - i,
    {
        proof {
            lemma_unescape_from(s, i as int);
        }
        let c = inner[i];
        if c != '\\' {
            out.push(c);
            assert(out@ + unescape(s.subrange(i + 1, m as int)) =~= unescape(s));
            i += 1;
        } else if i + 1 == m {
            out.push('\\');
            assert(s.subrange(m as int, m as int) =~= Seq::<char>::empty());
            assert(out@ + unescape(s.subrange(m as int, m as int)) =~= unescape(s));
            i += 1;
        } else {
            let d = inner[i + 1];
            if d == '\\' {
                out.push('\\');
            } else if d == '"' {
                out.push('"');
            } else if d == 'n' {
                out.push('\n');
            } else if d == 'r' {
                out.push('\r');
            } else if d == 't' {
                out.push('\t');
            } else {
                out.push('\\');
                out.push(d);
            }
            assert(out@ + unescape(s.subrange(i + 2, m as int)) =~= unescape(s));
            i += 2;
        }
    }
    assert(s.subrange(m as int, m as int) =~= Seq::<char>::empty());
    assert(out@ =~= unescape(s));
    string_of(&out)
}

pub open spec fn quote_char(c: char) -> Seq<char> {
    if c == '\\' {
        seq!['\\', '\\']
    } else if c == '"' {
        seq!['\\', '"']
    } else if c == '\n' {
        seq!['\\', 'n']
    } else if c == '\r' {
        seq!['\\', 'r']
    } else if c == '\t' {
        seq!['\\', 't']
    } else {
        seq![c]
    }
}

/// Each character of `s` with its escape applied.
pub open spec fn map_chars(s: Seq<char>, f: spec_fn(char) -> Seq<char>) -> Seq<char>
    decreases s.len(),
{
    if s.len() == 0 {
        s
    } else {
        map_chars(s.drop_last(), f) + f(s.last())
    }
}

pub open spec fn quote_spec(value: Seq<char>) -> Seq<char> {
    seq!['"'] + map_chars(value, |c: char| quote_char(c)) + seq!['"']
}

/// Writes `value` as an SRNG string literal.
pub fn quote(value: &str) -> (out: String)
    ensures
        out@ == quote_spec(value@),
{
    let s = chars_of(value);
    let mut out: Vec<char> = Vec::new();
    out.push('"');
    let mut k: usize = 0;
    while k < s.len()
        invariant
            k <= s@.len(),
            out@ == seq!['"'] + map_chars(s@.subrange(0, k as int), |c: char| quote_char(c)),
        decreases s@.len() - k,
    {
        let c = s[k];
        if c == '\\' {
            out.push('\\');
            out.push('\\');
        } else if c == '"' {
            out.push('\\');
            out.push('"');
        } else if c == '\n' {
            out.push('\\');
            out.push('n');
        } else if c == '\r' {
            out.push('\\');
            out.push('r');
        } else if c == '\t' {
            out.push('\\');
            out.push('t');
        } else {
            out.push(c);
        }
        assert(s@.subrange(0, k + 1).drop_last() =~= s@.subrange(0, k as int));
        assert(out@ =~= seq!['"'] + map_chars(s@.subrange(0, k + 1), |c: char| quote_char(c)));
        k += 1;
    }
    assert(s@.subrange(0, s@.len() as int) =~= s@);
    out.push('"');
    string_of(&out)
}

pub open spec fn xml_char(c: char) -> Seq<char> {
    if c == '&' {
        "&amp;"@
    } else if c == '<' {
        "&lt;"@
    } else if c == '>' {
        "&gt;"@
    } else if c == '"' {
        "&quot;"@
    } else if c == '\'' {
        "&apos;"@
    } else {
        seq![c]
    }
}

pub open spec fn xml_escape_spec(s: Seq<char>) -> Seq<char> {
    map_chars(s, |c: char| xml_char(c))
}

fn xml_escape_into(out: &mut Vec<char>, s: &Vec<char>)
    ensures
        final(out)@ == old(out)@ + xml_escape_spec(s@),
{
    let ghost start = out@;
    let mut k: usize = 0;
    while k < s.len()
        invariant
            k <= s@.len(),
            out@ == start + map_chars(s@.subrange(0, k as int), |c: char| xml_char(c)),
        decreases s@.len() - k,
    {
        let c = s[k];
        if c == '&' {
            append_str(out, "&amp;");
        } else if c == '<' {
            append_str(out, "&lt;");
        } else if c == '>' {
            append_str(out, "&gt;");
        } else if c == '"' {
            append_str(out, "&quot;");
        } else if c == '\'' {
            append_str(out, "&apos;");
        } else {
            out.push(c);
        }
        assert(s@.subrange(0, k + 1).drop_last() =~= s@.subrange(0, k as int));
        assert(out@ =~= start + map_chars(s@.subrange(0, k + 1), |c: char| xml_char(c)));
        k += 1;
    }
    assert(s@.subrange(0, s@.len() as int) =~= s@);
}

/// Escapes the five XML special characters.
pub fn xml_escape(value: &str) -> (out: String)
    ensures
        out@ == xml_escape_spec(value@),
{
    let mut out: Vec<char> = Vec::new();
    xml_escape_into(&mut out, &chars_of(value));
    assert(out@ =~= xml_escape_spec(value@));
    string_of(&out)
}

// ---------------------------------------------------------------------------
// Shape records

pub open spec fn blank(l: Seq<char>) -> bool {
    trim(l).len() == 0
}

/// `fill|path` as an SVG `<path>` element.
pub open spec fn shape_record(l: Seq<char>) -> Option<Seq<char>> {
    let k = find_char(l, '|', 0);
    if k >= l.len() {
        None
    } else {
        Some("<path d=\""@ + xml_escape_spec(trim(l.subrange(k + 1, l.len() as int))) + "\" fill=\""@
            + xml_escape_spec(trim(l.subrange(0, k))) + "\"/>"@)
    }
}

pub open spec fn shapes_from(ls: Seq<Seq<char>>) -> Option<Seq<char>>
    decreases ls.len(),
{
    if ls.len() == 0 {
        Some(Seq::empty())
    } else {
        match shapes_from(ls.drop_last()) {
            None => None,
            Some(x) => if blank(ls.last()) {
                Some(x)
            } else {
                match shape_record(ls.last()) {
                    None => None,
                    Some(r) => Some(x + r),
                }
            },
        }
    }
}

pub open spec fn native_shapes_spec(data: Seq<char>) -> Option<Seq<char>> {
    match shapes_from(lines(data)) {
        Some(x) => if x.len() == 0 { None } else { Some(x) },
        None => None,
    }
}

/// Rebuilds SVG `<path>` elements from native shape records, one
/// `fill|path` record per non-blank line; `None` when a record has no `|`
/// or there is no record at all.
pub fn native_shapes_xml(data: &str) -> (r: Option<String>)
    ensures
        match native_shapes_spec(data@) {
            Some(x) => r is Some && r->0@ == x,
            None => r is None,
        },
{
    let ls = split_lines(&chars_of(data));
    let ghost lv = line_views(ls@);
    let mut xml: Vec<char> = Vec::new();
    let mut k: usize = 0;
    while k < ls.len()
        invariant
            k <= ls@.len(),
            lv == line_views(ls@),
            lv == lines(data@),
            shapes_from(lv.subrange(0, k as int)) == Some(xml@),
        decreases ls@.len() - k,
    {
        let line = &ls[k];
        assert(lv.subrange(0, k + 1).drop_last() =~= lv.subrange(0, k as int));
        assert(lv[k as int] == line@);
        let t = trim_chars(line);
        if t.len() > 0 {
            let bar = find_char_exec(line, '|', 0);
            if bar >= line.len() {
                proof {
                    lemma_shapes_none(lv, k as int + 1);
                }
                return None;
            }
            append_str(&mut xml, "<path d=\"");
            xml_escape_into(&mut xml, &trim_chars(&sub_chars(line, bar + 1, line.len())));
            append_str(&mut xml, "\" fill=\"");
            xml_escape_into(&mut xml, &trim_chars(&sub_chars(line, 0, bar)));
            append_str(&mut xml, "\"/>");
        }
        k += 1;
    }
    assert(lv.subrange(0, ls@.len() as int) =~= lv);
    if xml.len() == 0 {
        None
    } else {
        Some(string_of(&xml))
    }
}

/// Once a prefix has no rendering, no longer prefix has one.
proof fn lemma_shapes_none(ls: Seq<Seq<char>>, k: int)
    requires
        0 <= k <= ls.len(),
        shapes_from(ls.subrange(0, k)) is None,
    ensures
        shapes_from(ls) is None,
    decreases ls.len() - k,
{
    if k < ls.len() {
        assert(ls.subrange(0, k + 1).drop_last() =~= ls.subrange(0, k));
        lemma_shapes_none(ls, k + 1);
    } else {
        assert(ls.subrange(0, k) =~= ls);
    }
}

// ---------------------------------------------------------------------------
// Resource references

pub open spec fn contains_char(s: Seq<char>, c: char) -> bool {
    exists|i: int| 0 <= i < s.len() && s[i] == c
}

/// The id in `url(#id)`, or a bare id without parentheses.
pub open spec fn ref_id_spec(value: Seq<char>) -> Option<Seq<char>> {
    if value.len() >= 6 && value.subrange(0, 5) == "url(#"@ && value[value.len() - 1] == ')' {
        Some(value.subrange(5, value.len() - 1))
    } else if !contains_char(value, '(') && value.len() > 0 {
        Some(value)
    } else {
        None
    }
}

/// The resource id a reference value names.
pub fn ref_id(value: &str) -> (r: Option<String>)
    ensures
        match ref_id_spec(value@) {
            Some(x) => r is Some && r->0@ == x,
            None => r is None,
        },
{
    let v = chars_of(value);
    let n = v.len();
    let head = chars_of("url(#");
    proof {
        reveal_strlit("url(#");
    }
    if n >= 6 && v[n - 1] == ')' && crate::parser::chars_eq(&sub_chars(&v, 0, 5), &head) {
        return Some(string_of(&sub_chars(&v, 5, n - 1)));
    }
    let p = find_char_exec(&v, '(', 0);
    proof {
        lemma_find_char_some(v@, '(', 0);
    }
    if p >= n && n > 0 {
        return Some(string_of(&v));
    }
    None
}

/// `find_char` lands on the character it looks for unless none follows.
pub proof fn lemma_find_char_some(s: Seq<char>, c: char, i: int)
    requires
        0 <= i <= s.len(),
    ensures
        i <= find_char(s, c, i) <= s.len(),
        find_char(s, c, i) < s.len() ==> s[find_char(s, c, i)] == c,
        forall|k: int| i <= k < find_char(s, c, i) ==> s[k] != c,
    decreases s.len() - i,
{
    if i < s.len() && s[i] != c {
        lemma_find_char_some(s, c, i + 1);
    }
}

// ---------------------------------------------------------------------------
// Luminance masks

/// `u8::from_str_radix` in base 16 on the two bytes `x y`, with `0` for
/// text it rejects.
pub open spec fn pair_value(x: u8, y: u8) -> int {
    if x == 0x2b {
        match hex_value(y) {
            Some(v) => v as int,
            None => 0,
        }
    } else {
        match (hex_value(x), hex_value(y)) {
            (Some(a), Some(b)) => a * 16 + b,
            _ => 0,
        }
    }
}

pub open spec fn hex_digit_char(v: int) -> char {
    if v < 10 { ((v + 0x30) as u8) as char } else { ((v - 10 + 0x61) as u8) as char }
}

/// Two lower-case hex digits.
pub open spec fn hex2(v: int) -> Seq<char> {
    seq![hex_digit_char(v / 16), hex_digit_char(v % 16)]
}

/// The six hex digits a colour's bytes after `#` give: a three-digit
/// colour doubled, otherwise at most the first six bytes.
pub open spec fn six_digits(h: Seq<u8>) -> Seq<u8> {
    if h.len() == 3 {
        seq![h[0], h[0], h[1], h[1], h[2], h[2]]
    } else if h.len() < 6 {
        h
    } else {
        h.subrange(0, 6)
    }
}

/// Relative luminance (Rec. 709 weights 0.2126, 0.7152, 0.0722) rounded to
/// the nearest integer, halves away from zero.
pub open spec fn luminance(r: int, g: int, b: int) -> int {
    (2126 * r + 7152 * g + 722 * b + 5000) / 10000
}

/// The bytes after `#` in an unquoted colour value.
pub open spec fn colour_bytes(value: Seq<char>) -> Seq<u8> {
    let b = encode_utf8(unquote_spec(value));
    b.subrange(1, b.len() as int)
}

pub open spec fn is_hash_colour(value: Seq<char>) -> bool {
    let b = encode_utf8(unquote_spec(value));
    b.len() > 0 && b[0] == 0x23
}

/// The colour's bytes are cut only between characters.
pub open spec fn luminance_sliceable(value: Seq<char>) -> bool {
    let h = colour_bytes(value);
    is_hash_colour(value) ==> {
        &&& h.len() == 3 ==> h[0] < 0x80 && h[1] < 0x80 && h[2] < 0x80
        &&& h.len() >= 6 ==> is_char_boundary(h, 2) && is_char_boundary(h, 4) && is_char_boundary(h, 6)
    }
}

pub open spec fn luminance_alpha_spec(value: Seq<char>) -> Seq<char> {
    if !is_hash_colour(value) {
        "#ffffff00"@
    } else {
        let x = six_digits(colour_bytes(value));
        if x.len() < 6 {
            "#ffffff00"@
        } else {
            "#ffffff"@ + hex2(luminance(pair_value(x[0], x[1]), pair_value(x[2], x[3]), pair_value(x[4], x[5])))
        }
    }
}

fn pair_value_exec(x: u8, y: u8) -> (v: u8)
    ensures
        v == pair_value(x, y),
{
    if x == 0x2b {
        match hex(y) {
            Some(v) => v,
            None => 0,
        }
    } else {
        match (hex(x), hex(y)) {
            (Some(a), Some(b)) => a * 16 + b,
            _ => 0,
        }
    }
}

fn push_hex2(out: &mut Vec<char>, v: u8)
    ensures
        final(out)@ == old(out)@ + hex2(v as int),
{
    let hi = v / 16;
    let lo = v % 16;
    let c1 = if hi < 10 { (hi + 0x30) as char } else { (hi - 10 + 0x61) as char };
    let c2 = if lo < 10 { (lo + 0x30) as char } else { (lo - 10 + 0x61) as char };
    out.push(c1);
    out.push(c2);
}

proof fn lemma_after_hash_valid(b: Seq<u8>)
    requires
        vstd::utf8::valid_utf8(b),
        b.len() > 0,
        b[0] == 0x23,
    ensures
        vstd::utf8::valid_utf8(b.subrange(1, b.len() as int)),
{
    reveal_with_fuel(vstd::utf8::is_char_boundary, 2);
    assert(vstd::utf8::length_of_first_scalar(b) == 1);
    assert(is_char_boundary(b, 1));
    vstd::utf8::valid_utf8_split(b, 1);
}

/// Whether the bytes of a colour after its `#` can be cut where
/// `luminance_alpha` cuts them.
pub fn luminance_sliceable_exec(value: &str) -> (r: bool)
    ensures
        r == luminance_sliceable(value@),
{
    let v = unquote(value);
    let b = v.as_str().as_bytes();
    let n = b.len();
    if n == 0 || b[0] != 0x23 {
        return true;
    }
    let h = crate::text::sub_bytes(b, 1, n);
    proof {
        vstd::utf8::encode_utf8_valid_utf8(v@);
        lemma_after_hash_valid(b@);
    }
    if h.len() == 3 {
        return h[0] < 0x80 && h[1] < 0x80 && h[2] < 0x80;
    }
    if h.len() >= 6 {
        proof {
            vstd::utf8::is_char_boundary_iff_not_is_continuation_byte(h@, 2);
            vstd::utf8::is_char_boundary_iff_not_is_continuation_byte(h@, 4);
            if h@.len() > 6 {
                vstd::utf8::is_char_boundary_iff_not_is_continuation_byte(h@, 6);
            } else {
                vstd::utf8::is_char_boundary_start_end_of_seq(h@);
            }
        }
        let c2 = 0x80 <= h[2] && h[2] <= 0xbf;
        let c4 = 0x80 <= h[4] && h[4] <= 0xbf;
        let c6 = h.len() > 6 && 0x80 <= h[6] && h[6] <= 0xbf;
        return !c2 && !c4 && !c6;
    }
    true
}

/// Turns a colour into the white mask colour whose alpha is the colour's
/// luminance; anything but a `#` colour gives transparent white.
pub fn luminance_alpha(value: &str) -> (out: String)
    requires
        luminance_sliceable(value@),
    ensures
        out@ == luminance_alpha_spec(value@),
{
    let v = unquote(value);
    let b = v.as_str().as_bytes();
    let n = b.len();
    if n == 0 || b[0] != 0x23 {
        return crate::text::chars_to_string_lit("#ffffff00");
    }
    let h = crate::text::sub_bytes(b, 1, n);
    let x: Vec<u8> = if h.len() == 3 {
        vec![h[0], h[0], h[1], h[1], h[2], h[2]]
    } else if h.len() < 6 {
        h
    } else {
        crate::text::sub_bytes(h.as_slice(), 0, 6)
    };
    assert(x@ == six_digits(colour_bytes(value@)));
    if x.len() < 6 {
        return crate::text::chars_to_string_lit("#ffffff00");
    }
    let r = pair_value_exec(x[0], x[1]) as u32;
    let g = pair_value_exec(x[2], x[3]) as u32;
    let bl = pair_value_exec(x[4], x[5]) as u32;
    let a = (2126 * r + 7152 * g + 722 * bl + 5000) / 10000;
    assert(a <= 255) by (nonlinear_arith)
        requires
            r <= 255,
            g <= 255,
            bl <= 255,
            a == (2126 * r + 7152 * g + 722 * bl + 5000) / 10000,
    ;
    let mut out = chars_of("#ffffff");
    push_hex2(&mut out, a as u8);
    string_of(&out)
}

// ---------------------------------------------------------------------------
// Premultiplied alpha

/// A colour channel scaled by alpha, rounded to the nearest integer.
pub open spec fn premul(c: u8, a: u8) -> u8 {
    ((c as int * a as int + 127) / 255) as u8
}

/// Every complete RGBA pixel has its colour channels multiplied by its
/// alpha; alpha and a trailing partial pixel are left as they are.
pub open spec fn premultiplied(old: Seq<u8>, new: Seq<u8>) -> bool {
    &&& new.len() == old.len()
    &&& forall|k: int| 0 <= k < new.len() ==> #[trigger] new[k] == if k < old.len() / 4 * 4 && k % 4 != 3 {
        premul(old[k], old[k - k % 4 + 3])
    } else {
        old[k]
    }
}

fn premul_exec(c: u8, a: u8) -> (r: u8)
    ensures
        r == premul(c, a),
{
    let c16 = c as u16;
    let a16 = a as u16;
    assert(c16 * a16 <= 255 * 255) by (nonlinear_arith)
        requires
            c16 <= 255,
            a16 <= 255,
    ;
    let v = (c16 * a16 + 127) / 255;
    assert(v <= 255);
    v as u8
}

/// Multiplies the colour channels of each RGBA pixel by its alpha.
pub fn premultiply_rgba(pixels: &mut Vec<u8>)
    ensures
        premultiplied(old(pixels)@, final(pixels)@),
{
    let ghost start = pixels@;
    let n = pixels.len();
    let full = n / 4 * 4;
    let mut p: usize = 0;
    while p < full
        invariant
            n == start.len(),
            full == n / 4 * 4,
            p % 4 == 0,
            p <= full,
            pixels@.len() == n,
            forall|k: int| 0 <= k < n ==> #[trigger] pixels@[k] == if k < p && k % 4 != 3 {
                premul(start[k], start[k - k % 4 + 3])
            } else {
                start[k]
            },
        decreases full - p,
    {
        let a = pixels[p + 3];
        let r = premul_exec(pixels[p], a);
        let g = premul_exec(pixels[p + 1], a);
        let b = premul_exec(pixels[p + 2], a);
        pixels.set(p, r);
        pixels.set(p + 1, g);
        pixels.set(p + 2, b);
        p += 4;
    }
}


// ---------------------------------------------------------------------------
// Laws

proof fn lemma_map_chars_front(s: Seq<char>, f: spec_fn(char) -> Seq<char>)
    requires
        s.len() > 0,
    ensures
        map_chars(s, f) == f(s[0]) + map_chars(s.drop_first(), f),
    decreases s.len(),
{
    if s.len() == 1 {
        assert(s.drop_last() =~= Seq::<char>::empty());
        assert(s.drop_first() =~= Seq::<char>::empty());
        assert(map_chars(s.drop_last(), f) =~= Seq::<char>::empty());
        assert(map_chars(s, f) =~= f(s[0]));
        assert(f(s[0]) + map_chars(s.drop_first(), f) =~= f(s[0]));
    } else {
        lemma_map_chars_front(s.drop_last(), f);
        assert(s.drop_last().drop_first() =~= s.drop_first().drop_last());
        assert(s.drop_first().last() == s.last());
        assert(s.drop_last()[0] == s[0]);
        assert(map_chars(s.drop_first(), f) == map_chars(s.drop_first().drop_last(), f) + f(s.drop_first().last()));
        assert(map_chars(s, f) =~= f(s[0]) + map_chars(s.drop_first(), f));
    }
}

proof fn lemma_unescape_quoted(v: Seq<char>)
    ensures
        unescape(map_chars(v, |c: char| quote_char(c))) == v,
    decreases v.len(),
{
    let f = |c: char| quote_char(c);
    if v.len() == 0 {
        assert(map_chars(v, f) =~= Seq::<char>::empty());
    } else {
        lemma_map_chars_front(v, f);
        lemma_unescape_quoted(v.drop_first());
        let rest = map_chars(v.drop_first(), f);
        let q = quote_char(v[0]);
        let s = q + rest;
        assert(map_chars(v, f) == s);
        if q.len() == 1 {
            assert(s[0] == v[0] && v[0] != '\\');
            assert(s.drop_first() =~= rest);
        } else {
            assert(s[0] == '\\');
            assert(s.subrange(2, s.len() as int) =~= rest);
            assert(unescape_pair(s[1]) =~= seq![v[0]]);
        }
        assert(v =~= seq![v[0]] + v.drop_first());
    }
}

/// What the importer writes as an SRNG string literal, a reader gets back
/// unchanged: unquoting a quoted value gives the value.
pub proof fn law_unquote_quote(value: Seq<char>)
    ensures
        unquote_spec(quote_spec(value)) == value,
{
    let q = quote_spec(value);
    let body = map_chars(value, |c: char| quote_char(c));
    assert(q[0] == '"' && q[q.len() - 1] == '"');
    assert(!crate::formatter::is_ws('"'));
    assert(crate::formatter::ws_start(q, 0) == 0);
    assert(crate::formatter::ws_end(q, q.len() as int) == q.len());
    assert(trim(q) =~= q);
    assert(q.subrange(1, q.len() - 1) =~= body);
    lemma_unescape_quoted(value);
}

} // verus!
