//! Version 4 of the SVG import: viewBox, transforms, opacity, typography,
//! images, gradients (with `href` inheritance), masks, filter chains and
//! local `<use>` instances become native SRNG properties and references.
use vstd::prelude::*;
use crate::font::split_from;
use crate::formatter::{is_ws, line_views, lines, split_lines, trim, trim_chars, ws};
use crate::image::{find_char, find_char_exec, hex_value};
use crate::length::{digit_char, parse_px, parse_px_exec, px_wf, Px, UNITS};
use crate::props::copy_chars;
use crate::srctext::{
    ends_with, ends_with_exec, lead_len, lead_len_exec, replace_all, replace_all_exec, starts_with, starts_with_exec,
    trim_start, url_fragment, url_fragment_exec,
};
use crate::svg_import::{DiagV, ImportDiagnostic, ImportOptions, ImportResult};
use crate::text::{append_chars, append_str, chars_of, string_of, sub_chars};
use crate::xml::{attr, element_view, elements_view, get_attr, xml_elements, ElementView, XmlElement};

verus! {

// ---------------------------------------------------------------------------
// Text helpers of this pass

/// This pass's reading of a quoted value: trimmed, and inside quotes the
/// escapes `\n`, `\"` and `\\` replaced one after another.
pub open spec fn unquote4(v: Seq<char>) -> Seq<char> {
    let t = trim(v);
    if t.len() >= 2 && t[0] == '"' && t.last() == '"' {
        replace_all(replace_all(replace_all(t.subrange(1, t.len() - 1), "\\n"@, "\n"@), "\\\""@, "\""@), "\\\\"@, "\\"@)
    } else {
        t
    }
}

pub open spec fn quote4_char(c: char) -> Seq<char> {
    if c == '\\' { seq!['\\', '\\'] } else if c == '"' { seq!['\\', '"'] } else if c == '\n' { seq!['\\', 'n'] } else { seq![c] }
}

/// This pass's string literal: backslash, quote and newline escaped.
pub open spec fn quote4(v: Seq<char>) -> Seq<char> {
    seq!['"'] + crate::resources::map_chars(v, |c: char| quote4_char(c)) + seq!['"']
}

pub fn unquote4_exec(v: &Vec<char>) -> (r: Vec<char>)
    ensures
        r@ == unquote4(v@),
{
    let t = trim_chars(v);
    let n = t.len();
    if !(n >= 2 && t[0] == '"' && t[n - 1] == '"') {
        return t;
    }
    let inner = sub_chars(&t, 1, n - 1);
    proof {
        reveal_strlit("\\n");
        reveal_strlit("\\\"");
        reveal_strlit("\\\\");
    }
    let a = replace_all_exec(&inner, "\\n", "\n");
    let b = replace_all_exec(&a, "\\\"", "\"");
    replace_all_exec(&b, "\\\\", "\\")
}

pub fn quote4_exec(v: &Vec<char>) -> (r: Vec<char>)
    ensures
        r@ == quote4(v@),
{
    let mut out: Vec<char> = Vec::new();
    out.push('"');
    let mut k: usize = 0;
    while k < v.len()
        invariant
            k <= v@.len(),
            out@ == seq!['"'] + crate::resources::map_chars(v@.subrange(0, k as int), |c: char| quote4_char(c)),
        decreases v@.len() - k,
    {
        let c = v[k];
        if c == '\\' {
            out.push('\\');
            out.push('\\');
        } else if c == '"' {
            out.push('\\');
            out.push('"');
        } else if c == '\n' {
            out.push('\\');
            out.push('n');
        } else {
            out.push(c);
        }
        assert(v@.subrange(0, k + 1).drop_last() =~= v@.subrange(0, k as int));
        assert(out@ =~= seq!['"'] + crate::resources::map_chars(v@.subrange(0, k + 1), |c: char| quote4_char(c)));
        k += 1;
    }
    assert(v@.subrange(0, v@.len() as int) =~= v@);
    out.push('"');
    out
}

/// `s` without any number of trailing `px`.
pub open spec fn strip_px_all(s: Seq<char>) -> Seq<char>
    decreases s.len(),
{
    if s.len() >= 2 && ends_with(s, "px"@) { strip_px_all(s.subrange(0, s.len() - 2)) } else { s }
}

/// A number as this pass reads it: trimmed, trailing `px` dropped.
pub open spec fn num4(v: Seq<char>) -> Option<Px> {
    parse_px(strip_px_all(trim(v)))
}

pub fn num4_exec(v: &Vec<char>) -> (r: Option<Px>)
    ensures
        r == num4(v@),
        r matches Some(p) ==> px_wf(p),
{
    let mut t = trim_chars(v);
    proof {
        reveal_strlit("px");
    }
    while t.len() >= 2 && ends_with_exec(&t, "px")
        invariant
            strip_px_all(t@) == strip_px_all(trim(v@)),
        decreases t@.len(),
    {
        t = sub_chars(&t, 0, t.len() - 2);
    }
    parse_px_exec(&t)
}

pub open spec fn nine_places(f: nat) -> Seq<char> {
    seq![digit_char((f / 100000000) as int % 10), digit_char((f / 10000000) as int % 10),
        digit_char((f / 1000000) as int % 10), digit_char((f / 100000) as int % 10), digit_char((f / 10000) as int % 10),
        digit_char((f / 1000) as int % 10), digit_char((f / 100) as int % 10), digit_char((f / 10) as int % 10),
        digit_char(f as int % 10)]
}

/// How a double of this length displays with `{}`: its exact decimal value
/// (lengths hold nine decimals).
pub open spec fn display_px(p: Px) -> Seq<char> {
    match p {
        Px::NaN => "NaN"@,
        Px::Inf { neg } => if neg { "-inf"@ } else { "inf"@ },
        Px::Fin { neg, mag } => {
            let fr = crate::length::strip_zeros(nine_places((mag % UNITS) as nat));
            (if neg { seq!['-'] } else { Seq::empty() }) + crate::ir::decimal((mag / UNITS) as nat)
                + (if fr.len() == 0 { Seq::empty() } else { seq!['.'] + fr })
        },
    }
}

pub fn push_display_px(out: &mut Vec<char>, p: Px)
    requires
        px_wf(p),
    ensures
        final(out)@ == old(out)@ + display_px(p),
{
    match p {
        Px::NaN => append_str(out, "NaN"),
        Px::Inf { neg } => if neg { append_str(out, "-inf") } else { append_str(out, "inf") },
        Px::Fin { neg, mag } => {
            let ghost start = out@;
            if neg {
                out.push('-');
            }
            crate::length::push_decimal_wide(out, mag / 1000000000);
            let f = mag % 1000000000;
            let ghost sp = nine_places(f as nat);
            let mut ds: Vec<char> = Vec::new();
            ds.push(((f / 100000000 % 10) as u8 + 0x30) as char);
            ds.push(((f / 10000000 % 10) as u8 + 0x30) as char);
            ds.push(((f / 1000000 % 10) as u8 + 0x30) as char);
            ds.push(((f / 100000 % 10) as u8 + 0x30) as char);
            ds.push(((f / 10000 % 10) as u8 + 0x30) as char);
            ds.push(((f / 1000 % 10) as u8 + 0x30) as char);
            ds.push(((f / 100 % 10) as u8 + 0x30) as char);
            ds.push(((f / 10 % 10) as u8 + 0x30) as char);
            ds.push(((f % 10) as u8 + 0x30) as char);
            let mut n: usize = 9;
            assert(ds@ =~= sp);
            assert(ds@.subrange(0, 9) =~= ds@);
            while n > 0 && ds[n - 1] == '0'
                invariant
                    n <= 9,
                    ds@.len() == 9,
                    crate::length::strip_zeros(ds@.subrange(0, n as int)) == crate::length::strip_zeros(nine_places(f as nat)),
                decreases n,
            {
                assert(ds@.subrange(0, n as int).drop_last() =~= ds@.subrange(0, n - 1));
                n -= 1;
            }
            let t = sub_chars(&ds, 0, n);
            assert(crate::length::strip_zeros(ds@.subrange(0, n as int)) == ds@.subrange(0, n as int));
            if n > 0 {
                out.push('.');
                append_chars(out, &t);
            }
            assert(out@ =~= start + display_px(p));
        },
    }
}

// ---------------------------------------------------------------------------
// Masks and filters

pub struct MaskInfo {
    pub units: Seq<char>,
    pub content_units: Seq<char>,
    pub x: Seq<char>,
    pub y: Seq<char>,
    pub width: Seq<char>,
    pub height: Seq<char>,
}

pub open spec fn attr_or(e: ElementView, key: Seq<char>, default: Seq<char>) -> Seq<char> {
    match attr(e, key) {
        Some(v) => v,
        None => default,
    }
}

pub open spec fn mask_info(e: ElementView) -> MaskInfo {
    MaskInfo {
        units: attr_or(e, "maskUnits"@, "objectBoundingBox"@),
        content_units: attr_or(e, "maskContentUnits"@, "userSpaceOnUse"@),
        x: attr_or(e, "x"@, "-10%"@),
        y: attr_or(e, "y"@, "-10%"@),
        width: attr_or(e, "width"@, "120%"@),
        height: attr_or(e, "height"@, "120%"@),
    }
}

/// The masks among the first `k` elements, by id; a later mask with the
/// same id wins on lookup.
pub open spec fn masks4(els: Seq<ElementView>, k: int) -> Seq<(Seq<char>, MaskInfo)>
    decreases k,
{
    if k <= 0 || k > els.len() {
        Seq::empty()
    } else {
        let e = els[k - 1];
        if e.name == "mask"@ && attr(e, "id"@) is Some {
            masks4(els, k - 1).push((attr(e, "id"@)->0, mask_info(e)))
        } else {
            masks4(els, k - 1)
        }
    }
}

pub open spec fn last_get<V>(m: Seq<(Seq<char>, V)>, id: Seq<char>) -> Option<V>
    decreases m.len(),
{
    if m.len() == 0 {
        None
    } else if m.last().0 == id {
        Some(m.last().1)
    } else {
        last_get(m.drop_last(), id)
    }
}

/// The filter operations of one child of a filter: `blur(x y)` or
/// `offset(dx dy)`; `Err` for a primitive this pass cannot express.
pub open spec fn filter_op(c: ElementView) -> Result<Option<Seq<char>>, ()> {
    if c.name == "feGaussianBlur"@ {
        let vs = crate::length::tokens_from(attr_or(c, "stdDeviation"@, "0"@), 0, true);
        if vs.len() == 0 {
            Ok(None)
        } else {
            Ok(Some("blur("@ + vs[0] + " "@ + (if vs.len() > 1 { vs[1] } else { vs[0] }) + ")"@))
        }
    } else if c.name == "feOffset"@ {
        Ok(Some("offset("@ + attr_or(c, "dx"@, "0"@) + " "@ + attr_or(c, "dy"@, "0"@) + ")"@))
    } else {
        Err(())
    }
}

/// The operations of the children of element `i` from `j` on, appended to
/// `acc`.
pub open spec fn filter_ops(els: Seq<ElementView>, i: int, j: int, acc: Seq<Seq<char>>) -> Option<Seq<Seq<char>>>
    decreases els.len() - j,
{
    if i < 0 || j <= i || j >= els.len() {
        Some(acc)
    } else if els[j].parent == Some(els[i].id) {
        match filter_op(els[j]) {
            Err(_) => None,
            Ok(Some(op)) => filter_ops(els, i, j + 1, acc.push(op)),
            Ok(None) => filter_ops(els, i, j + 1, acc),
        }
    } else {
        filter_ops(els, i, j + 1, acc)
    }
}

pub open spec fn join_with(rs: Seq<Seq<char>>, sep: Seq<char>) -> Seq<char>
    decreases rs.len(),
{
    if rs.len() == 0 {
        Seq::empty()
    } else if rs.len() == 1 {
        rs[0]
    } else {
        join_with(rs.drop_last(), sep) + sep + rs.last()
    }
}

/// The filter chain of element `i`, when every child is expressible and
/// there is at least one operation.
pub open spec fn filter_chain(els: Seq<ElementView>, i: int) -> Option<Seq<char>> {
    match filter_ops(els, i, i + 1, Seq::empty()) {
        Some(ops) => if ops.len() == 0 { None } else { Some(join_with(ops, "; "@)) },
        None => None,
    }
}

pub open spec fn filters4(els: Seq<ElementView>, k: int) -> Seq<(Seq<char>, Seq<char>)>
    decreases k,
{
    if k <= 0 || k > els.len() {
        Seq::empty()
    } else {
        let e = els[k - 1];
        if e.name == "filter"@ && attr(e, "id"@) is Some && filter_chain(els, k - 1) is Some {
            filters4(els, k - 1).push((attr(e, "id"@)->0, filter_chain(els, k - 1)->0))
        } else {
            filters4(els, k - 1)
        }
    }
}

pub(crate) fn attr_or_exec(e: &XmlElement, key: &str, default: &str) -> (r: Vec<char>)
    ensures
        r@ == attr_or(element_view(*e), key@, default@),
{
    match get_attr(e, key) {
        Some(v) => chars_of(v.as_str()),
        None => chars_of(default),
    }
}

pub struct MaskRec {
    pub units: Vec<char>,
    pub content_units: Vec<char>,
    pub x: Vec<char>,
    pub y: Vec<char>,
    pub width: Vec<char>,
    pub height: Vec<char>,
}

pub open spec fn mask_rec_view(m: MaskRec) -> MaskInfo {
    MaskInfo { units: m.units@, content_units: m.content_units@, x: m.x@, y: m.y@, width: m.width@, height: m.height@ }
}

pub open spec fn masks_rec_view(v: Seq<(Vec<char>, MaskRec)>) -> Seq<(Seq<char>, MaskInfo)> {
    v.map_values(|p: (Vec<char>, MaskRec)| (p.0@, mask_rec_view(p.1)))
}

fn masks4_exec(els: &Vec<XmlElement>) -> (r: Vec<(Vec<char>, MaskRec)>)
    ensures
        masks_rec_view(r@) == masks4(elements_view(els@), els@.len() as int),
{
    let ghost ev = elements_view(els@);
    let mut out: Vec<(Vec<char>, MaskRec)> = Vec::new();
    let mut k: usize = 0;
    while k < els.len()
        invariant
            k <= els@.len(),
            ev == elements_view(els@),
            masks_rec_view(out@) == masks4(ev, k as int),
        decreases els@.len() - k,
    {
        let e = &els[k];
        assert(ev[k as int] == element_view(*e));
        if is_text(&chars_of(e.name.as_str()), "mask") {
            match get_attr(e, "id") {
                Some(id) => {
                    let m = MaskRec {
                        units: attr_or_exec(e, "maskUnits", "objectBoundingBox"),
                        content_units: attr_or_exec(e, "maskContentUnits", "userSpaceOnUse"),
                        x: attr_or_exec(e, "x", "-10%"),
                        y: attr_or_exec(e, "y", "-10%"),
                        width: attr_or_exec(e, "width", "120%"),
                        height: attr_or_exec(e, "height", "120%"),
                    };
                    let ghost before = masks_rec_view(out@);
                    let ghost mv = mask_rec_view(m);
                    out.push((chars_of(id.as_str()), m));
                    assert(masks_rec_view(out@) =~= before.push((id@, mv)));
                },
                None => {},
            }
        }
        k += 1;
    }
    out
}

pub fn is_text(v: &Vec<char>, s: &str) -> (b: bool)
    ensures
        b == (v@ == s@),
{
    crate::parser::chars_eq(v, &chars_of(s))
}

pub(crate) fn join_exec(rs: &Vec<Vec<char>>, sep: &str) -> (r: Vec<char>)
    requires
        rs@.len() > 0,
    ensures
        r@ == join_with(line_views(rs@), sep@),
{
    let ghost rv = line_views(rs@);
    let mut out = copy_chars(&rs[0]);
    let mut k: usize = 1;
    assert(rv.subrange(0, 1) =~= seq![rv[0]]);
    while k < rs.len()
        invariant
            1 <= k <= rs@.len(),
            rv == line_views(rs@),
            out@ == join_with(rv.subrange(0, k as int), sep@),
        decreases rs@.len() - k,
    {
        assert(rv.subrange(0, k + 1).drop_last() =~= rv.subrange(0, k as int));
        append_str(&mut out, sep);
        append_chars(&mut out, &rs[k]);
        assert(out@ =~= join_with(rv.subrange(0, k + 1), sep@));
        k += 1;
    }
    assert(rv.subrange(0, rs@.len() as int) =~= rv);
    out
}

fn filter_chain_exec(els: &Vec<XmlElement>, i: usize) -> (r: Option<Vec<char>>)
    requires
        i < els@.len(),
    ensures
        match filter_chain(elements_view(els@), i as int) {
            Some(c) => r is Some && r->0@ == c,
            None => r is None,
        },
{
    let ghost ev = elements_view(els@);
    let n = els.len();
    let mut ops: Vec<Vec<char>> = Vec::new();
    let mut j: usize = i + 1;
    let ghost target = filter_ops(ev, i as int, i + 1, Seq::empty());
    assert(line_views(ops@) =~= Seq::<Seq<char>>::empty());
    while j < n
        invariant
            i < j <= n,
            n == els@.len(),
            ev == elements_view(els@),
            filter_ops(ev, i as int, j as int, line_views(ops@)) == target,
            target == filter_ops(ev, i as int, i + 1, Seq::empty()),
        decreases n - j,
    {
        assert(ev[j as int] == element_view(els@[j as int]));
        assert(ev[i as int] == element_view(els@[i as int]));
        if els[j].parent == Some(els[i].id) {
            let c = &els[j];
            let name = chars_of(c.name.as_str());
            if is_text(&name, "feGaussianBlur") {
                let sd = attr_or_exec(c, "stdDeviation", "0");
                let vs = crate::length::tokens_exec(&sd, true);
                if vs.len() > 0 {
                    let mut op = chars_of("blur(");
                    append_chars(&mut op, &vs[0]);
                    append_str(&mut op, " ");
                    if vs.len() > 1 {
                        append_chars(&mut op, &vs[1]);
                    } else {
                        append_chars(&mut op, &vs[0]);
                    }
                    append_str(&mut op, ")");
                    let ghost before = line_views(ops@);
                    ops.push(op);
                    assert(line_views(ops@) =~= before.push(op@));
                }
            } else if is_text(&name, "feOffset") {
                let mut op = chars_of("offset(");
                append_chars(&mut op, &attr_or_exec(c, "dx", "0"));
                append_str(&mut op, " ");
                append_chars(&mut op, &attr_or_exec(c, "dy", "0"));
                append_str(&mut op, ")");
                let ghost before = line_views(ops@);
                ops.push(op);
                assert(line_views(ops@) =~= before.push(op@));
            } else {
                return None;
            }
        }
        j += 1;
    }
    if ops.len() == 0 {
        return None;
    }
    Some(join_exec(&ops, "; "))
}

fn filters4_exec(els: &Vec<XmlElement>) -> (r: Vec<(Vec<char>, Vec<char>)>)
    ensures
        crate::props::pm_view(r@) == filters4(elements_view(els@), els@.len() as int),
{
    let ghost ev = elements_view(els@);
    let mut out: Vec<(Vec<char>, Vec<char>)> = Vec::new();
    let mut k: usize = 0;
    while k < els.len()
        invariant
            k <= els@.len(),
            ev == elements_view(els@),
            crate::props::pm_view(out@) == filters4(ev, k as int),
        decreases els@.len() - k,
    {
        let e = &els[k];
        assert(ev[k as int] == element_view(*e));
        if is_text(&chars_of(e.name.as_str()), "filter") {
            match get_attr(e, "id") {
                Some(id) => match filter_chain_exec(els, k) {
                    Some(c) => {
                        let ghost before = crate::props::pm_view(out@);
                        out.push((chars_of(id.as_str()), c));
                        assert(crate::props::pm_view(out@) =~= before.push((id@, c@)));
                    },
                    None => {},
                },
                None => {},
            }
        }
        k += 1;
    }
    out
}

// ---------------------------------------------------------------------------
// Gradient stops

/// A colour channel written as two bytes, as `u8::from_str_radix(.., 16)`
/// reads it.
pub open spec fn channel(x: u8, y: u8) -> Option<int> {
    if x == 0x2b {
        match hex_value(y) {
            Some(v) => Some(v as int),
            None => None,
        }
    } else {
        match (hex_value(x), hex_value(y)) {
            (Some(a), Some(b)) => Some(a * 16 + b),
            _ => None,
        }
    }
}

/// The UTF-8 bytes of a colour after its leading `#`.
pub open spec fn colour_bytes4(t: Seq<char>) -> Seq<u8> {
    vstd::utf8::encode_utf8(t.drop_first())
}

/// `#rgb`, `#rgba`, `#rrggbb`, `#rrggbbaa` or `transparent` as channels.
pub open spec fn color_rgba(v: Seq<char>) -> Option<(int, int, int, int)> {
    let t = trim(v);
    if crate::number::eq_ignore_case(t, "transparent"@) {
        Some((0, 0, 0, 0))
    } else if t.len() == 0 || t[0] != '#' {
        None
    } else {
        let h = colour_bytes4(t);
        if h.len() == 3 || h.len() == 4 {
            let r = channel(h[0], h[0]);
            let g = channel(h[1], h[1]);
            let b = channel(h[2], h[2]);
            let a = if h.len() == 4 { channel(h[3], h[3]) } else { Some(255) };
            if r is Some && g is Some && b is Some && a is Some { Some((r->0, g->0, b->0, a->0)) } else { None }
        } else if h.len() == 6 || h.len() == 8 {
            let r = channel(h[0], h[1]);
            let g = channel(h[2], h[3]);
            let b = channel(h[4], h[5]);
            let a = if h.len() == 8 { channel(h[6], h[7]) } else { Some(255) };
            if r is Some && g is Some && b is Some && a is Some { Some((r->0, g->0, b->0, a->0)) } else { None }
        } else {
            None
        }
    }
}

/// The colour's bytes are sliced only between characters (the slices this
/// pass takes of a hex colour).
pub open spec fn rgba_sliceable(v: Seq<char>) -> bool {
    let t = trim(v);
    let h = colour_bytes4(t);
    (crate::number::eq_ignore_case(t, "transparent"@) || t.len() == 0 || t[0] != '#') || {
        &&& (h.len() == 3 || h.len() == 4) ==> (forall|k: int| 0 <= k < h.len() ==> #[trigger] h[k] < 0x80)
        &&& (h.len() == 6 || h.len() == 8) ==> vstd::utf8::is_char_boundary(h, 2) && vstd::utf8::is_char_boundary(h, 4)
            && vstd::utf8::is_char_boundary(h, 6)
    }
}

/// `p.clamp(0.0, 1.0)`.
pub open spec fn clamp01(p: Px) -> Px {
    match p {
        Px::NaN => Px::NaN,
        Px::Inf { neg } => if neg { Px::Fin { neg: false, mag: 0 } } else { Px::Fin { neg: false, mag: UNITS } },
        Px::Fin { neg, mag } => if neg && mag > 0 {
            Px::Fin { neg: false, mag: 0 }
        } else if !neg && mag > UNITS {
            Px::Fin { neg: false, mag: UNITS }
        } else {
            p
        },
    }
}

/// `(a * opacity.clamp(0, 1)).round() as u8`.
pub open spec fn stop_alpha(a: int, opacity: Px) -> int {
    match clamp01(opacity) {
        Px::Fin { mag, .. } => (a * mag + 500000000) / 1000000000,
        _ => 0,
    }
}

/// An offset in `0..=1`, from a number or a percentage.
pub open spec fn normalize_offset(v: Seq<char>) -> Seq<char> {
    let t = trim(v);
    if ends_with(t, "%"@) && num4(t.subrange(0, t.len() - 1)) is Some {
        display_px(clamp01(crate::length::px_scale(num4(t.subrange(0, t.len() - 1))->0, 1, 100)))
    } else {
        display_px(clamp01(match num4(t) {
            Some(p) => p,
            None => crate::svg_import::zero_px(),
        }))
    }
}

/// Colour and opacity of a stop after its `style` entries.
pub open spec fn stop_style(colour: Seq<char>, opacity: Px, parts: Seq<Seq<char>>) -> (Seq<char>, Px)
    decreases parts.len(),
{
    if parts.len() == 0 {
        (colour, opacity)
    } else {
        let (c0, o0) = stop_style(colour, opacity, parts.drop_last());
        let p = parts.last();
        let k = find_char(p, ':', 0);
        if k >= p.len() {
            (c0, o0)
        } else if trim(p.subrange(0, k)) == "stop-color"@ {
            (trim(p.subrange(k + 1, p.len() as int)), o0)
        } else if trim(p.subrange(0, k)) == "stop-opacity"@ {
            (c0, match num4(p.subrange(k + 1, p.len() as int)) {
                Some(o) => o,
                None => o0,
            })
        } else {
            (c0, o0)
        }
    }
}

pub open spec fn stop_colour_opacity(e: ElementView) -> (Seq<char>, Px) {
    let c = attr_or(e, "stop-color"@, "#000000"@);
    let o = match attr(e, "stop-opacity"@) {
        Some(v) => match num4(v) {
            Some(p) => p,
            None => crate::svg_native::one_px(),
        },
        None => crate::svg_native::one_px(),
    };
    match attr(e, "style"@) {
        Some(st) => stop_style(c, o, split_from(st, ';', 0)),
        None => (c, o),
    }
}

/// A colour in lower case with a few colour names as hex colours.
pub open spec fn named_colour(c: Seq<char>) -> Seq<char> {
    let v = crate::image::lower_seq(trim(c));
    match crate::svg_import::named_colour(v) {
        Some(h) => h,
        None => v,
    }
}

/// The colour of a stop, with colour names read when `named`.
pub open spec fn stop_colour(e: ElementView, named: bool) -> Seq<char> {
    if named { named_colour(stop_colour_opacity(e).0) } else { stop_colour_opacity(e).0 }
}

/// `offset #rrggbbaa` of a stop, when its colour reads.
pub open spec fn stop_text(e: ElementView, named: bool) -> Option<Seq<char>> {
    let o = stop_colour_opacity(e).1;
    match color_rgba(stop_colour(e, named)) {
        Some((r, g, b, a)) => Some(normalize_offset(attr_or(e, "offset"@, "0"@)) + " #"@ + crate::resources::hex2(r)
            + crate::resources::hex2(g) + crate::resources::hex2(b) + crate::resources::hex2(stop_alpha(a, o))),
        None => None,
    }
}

// ---------------------------------------------------------------------------
// Gradient stops, executable

pub fn eq_ignore_case_exec(v: &Vec<char>, word: &str) -> (b: bool)
    ensures
        b == crate::number::eq_ignore_case(v@, word@),
{
    let lowered = crate::image::lower_chars(v);
    let w = chars_of(word);
    let r = crate::parser::chars_eq(&lowered, &w);
    proof {
        if r {
            assert forall|k: int| 0 <= k < v@.len() implies crate::number::to_lower(#[trigger] v@[k]) == word@[k] by {
                assert(lowered@[k] == crate::number::to_lower(v@[k]));
            }
        }
        if crate::number::eq_ignore_case(v@, word@) {
            assert(lowered@ =~= w@);
        }
    }
    r
}

pub(crate) fn channel_exec(x: u8, y: u8) -> (r: Option<u32>)
    ensures
        match channel(x, y) {
            Some(v) => r is Some && r->0 == v,
            None => r is None,
        },
        r matches Some(v) ==> v <= 255,
{
    if x == 0x2b {
        match crate::image::hex(y) {
            Some(v) => Some(v as u32),
            None => None,
        }
    } else {
        match (crate::image::hex(x), crate::image::hex(y)) {
            (Some(a), Some(b)) => Some((a as u32) * 16 + (b as u32)),
            _ => None,
        }
    }
}

pub(crate) fn color_rgba_exec(v: &Vec<char>) -> (r: Option<(u32, u32, u32, u32)>)
    requires
        rgba_sliceable(v@),
    ensures
        match color_rgba(v@) {
            Some((a, b, c, d)) => r is Some && r.unwrap().0 == a && r.unwrap().1 == b && r.unwrap().2 == c && r.unwrap().3 == d,
            None => r is None,
        },
        r matches Some((a, b, c, d)) ==> a <= 255 && b <= 255 && c <= 255 && d <= 255,
{
    let t = trim_chars(v);
    if eq_ignore_case_exec(&t, "transparent") {
        return Some((0, 0, 0, 0));
    }
    if t.len() == 0 || t[0] != '#' {
        return None;
    }
    let rest = sub_chars(&t, 1, t.len());
    assert(rest@ =~= t@.drop_first());
    let text = string_of(&rest);
    let all = text.as_str().as_bytes();
    let h = crate::text::sub_bytes(all, 0, all.len());
    assert(h@ =~= colour_bytes4(t@));
    let n = h.len();
    if n == 3 || n == 4 {
        let r = channel_exec(h[0], h[0]);
        let g = channel_exec(h[1], h[1]);
        let b = channel_exec(h[2], h[2]);
        let a = if n == 4 { channel_exec(h[3], h[3]) } else { Some(255) };
        match (r, g, b, a) {
            (Some(r), Some(g), Some(b), Some(a)) => Some((r, g, b, a)),
            _ => None,
        }
    } else if n == 6 || n == 8 {
        let r = channel_exec(h[0], h[1]);
        let g = channel_exec(h[2], h[3]);
        let b = channel_exec(h[4], h[5]);
        let a = if n == 8 { channel_exec(h[6], h[7]) } else { Some(255) };
        match (r, g, b, a) {
            (Some(r), Some(g), Some(b), Some(a)) => Some((r, g, b, a)),
            _ => None,
        }
    } else {
        None
    }
}

fn clamp01_exec(p: Px) -> (r: Px)
    requires
        px_wf(p),
    ensures
        r == clamp01(p),
        px_wf(r),
{
    match p {
        Px::NaN => Px::NaN,
        Px::Inf { neg } => if neg { Px::Fin { neg: false, mag: 0 } } else { Px::Fin { neg: false, mag: 1000000000 } },
        Px::Fin { neg, mag } => if neg && mag > 0 {
            Px::Fin { neg: false, mag: 0 }
        } else if !neg && mag > 1000000000 {
            Px::Fin { neg: false, mag: 1000000000 }
        } else {
            p
        },
    }
}

pub(crate) fn stop_alpha_exec(a: u32, opacity: Px) -> (r: u32)
    requires
        a <= 255,
        px_wf(opacity),
    ensures
        r == stop_alpha(a as int, opacity),
        r <= 255,
{
    match clamp01_exec(opacity) {
        Px::Fin { mag, .. } => {
            assert(mag <= 1000000000);
            assert((a as u128) * mag <= 255 * 1000000000) by (nonlinear_arith)
                requires
                    a <= 255,
                    mag <= 1000000000,
            ;
            let v = ((a as u128) * mag + 500000000) / 1000000000;
            assert(v <= 255);
            v as u32
        },
        _ => 0,
    }
}

fn normalize_offset_exec(v: &Vec<char>) -> (r: Vec<char>)
    ensures
        r@ == normalize_offset(v@),
{
    let t = trim_chars(v);
    let mut out: Vec<char> = Vec::new();
    proof {
        reveal_strlit("%");
    }
    if ends_with_exec(&t, "%") {
        match num4_exec(&sub_chars(&t, 0, t.len() - 1)) {
            Some(p) => {
                push_display_px(&mut out, clamp01_exec(crate::length::scale_px(p, 1, 100)));
                return out;
            },
            None => {},
        }
    }
    let p = match num4_exec(&t) {
        Some(p) => p,
        None => Px::Fin { neg: false, mag: 0 },
    };
    push_display_px(&mut out, clamp01_exec(p));
    out
}

fn stop_colour_opacity_exec(e: &XmlElement) -> (r: (Vec<char>, Px))
    ensures
        (r.0@, r.1) == stop_colour_opacity(element_view(*e)),
        px_wf(r.1),
{
    let mut c = attr_or_exec(e, "stop-color", "#000000");
    let one = Px::Fin { neg: false, mag: 1000000000 };
    let mut o = match get_attr(e, "stop-opacity") {
        Some(v) => match num4_exec(&chars_of(v.as_str())) {
            Some(p) => p,
            None => one,
        },
        None => one,
    };
    match get_attr(e, "style") {
        Some(st) => {
            let parts = crate::svg_import::split_chars(&chars_of(st.as_str()), ';');
            let ghost pv = line_views(parts@);
            let ghost c0 = c@;
            let ghost o0 = o;
            let mut j: usize = 0;
            while j < parts.len()
                invariant
                    j <= parts@.len(),
                    pv == line_views(parts@),
                    px_wf(o),
                    (c@, o) == stop_style(c0, o0, pv.subrange(0, j as int)),
                decreases parts@.len() - j,
            {
                assert(pv.subrange(0, j + 1).drop_last() =~= pv.subrange(0, j as int));
                let p = &parts[j];
                assert(pv[j as int] == p@);
                let k = find_char_exec(p, ':', 0);
                if k < p.len() {
                    let key = trim_chars(&sub_chars(p, 0, k));
                    if is_text(&key, "stop-color") {
                        c = trim_chars(&sub_chars(p, k + 1, p.len()));
                    } else if is_text(&key, "stop-opacity") {
                        match num4_exec(&sub_chars(p, k + 1, p.len())) {
                            Some(x) => {
                                o = x;
                            },
                            None => {},
                        }
                    }
                }
                j += 1;
            }
            assert(pv.subrange(0, parts@.len() as int) =~= pv);
        },
        None => {},
    }
    (c, o)
}

pub(crate) fn push_hex(out: &mut Vec<char>, v: u32)
    requires
        v <= 255,
    ensures
        final(out)@ == old(out)@ + crate::resources::hex2(v as int),
{
    let hi = v / 16;
    let lo = v % 16;
    let c1 = if hi < 10 { ((hi + 0x30) as u8) as char } else { ((hi - 10 + 0x61) as u8) as char };
    let c2 = if lo < 10 { ((lo + 0x30) as u8) as char } else { ((lo - 10 + 0x61) as u8) as char };
    out.push(c1);
    out.push(c2);
}

/// Every stop colour of an element can be sliced safely.
pub open spec fn stop_sliceable(e: ElementView, named: bool) -> bool {
    rgba_sliceable(stop_colour(e, named))
}

pub(crate) fn named_colour_exec(c: &Vec<char>) -> (r: Vec<char>)
    ensures
        r@ == named_colour(c@),
{
    let v = crate::image::lower_chars(&trim_chars(c));
    match crate::svg_import::named_colour_exec(&v) {
        Some(h) => h,
        None => v,
    }
}

fn stop_colour_exec(e: &XmlElement, named: bool) -> (r: (Vec<char>, Px))
    ensures
        r.0@ == stop_colour(element_view(*e), named),
        r.1 == stop_colour_opacity(element_view(*e)).1,
        px_wf(r.1),
{
    let (c, o) = stop_colour_opacity_exec(e);
    if named { (named_colour_exec(&c), o) } else { (c, o) }
}

fn stop_text_exec(e: &XmlElement, named: bool) -> (r: Option<Vec<char>>)
    requires
        stop_sliceable(element_view(*e), named),
    ensures
        match stop_text(element_view(*e), named) {
            Some(t) => r is Some && r->0@ == t,
            None => r is None,
        },
{
    let (c, o) = stop_colour_exec(e, named);
    match color_rgba_exec(&c) {
        Some((r, g, b, a)) => {
            let mut out = normalize_offset_exec(&attr_or_exec(e, "offset", "0"));
            append_str(&mut out, " #");
            push_hex(&mut out, r);
            push_hex(&mut out, g);
            push_hex(&mut out, b);
            push_hex(&mut out, stop_alpha_exec(a, o));
            Some(out)
        },
        None => None,
    }
}

// ---------------------------------------------------------------------------
// Gradients

pub open spec fn stops_from(els: Seq<ElementView>, i: int, j: int, acc: Seq<Seq<char>>, named: bool) -> Seq<Seq<char>>
    decreases els.len() - j,
{
    if i < 0 || j <= i || j >= els.len() {
        acc
    } else if els[j].parent == Some(els[i].id) && els[j].name == "stop"@ && stop_text(els[j], named) is Some {
        stops_from(els, i, j + 1, acc.push(stop_text(els[j], named)->0), named)
    } else {
        stops_from(els, i, j + 1, acc, named)
    }
}

/// The stops of gradient `i`, comma separated.
pub open spec fn gradient_stops(els: Seq<ElementView>, i: int, named: bool) -> Seq<char> {
    join_with(stops_from(els, i, i + 1, Seq::empty(), named), ", "@)
}

pub open spec fn stops_sliceable(els: Seq<ElementView>, i: int, named: bool) -> bool {
    forall|j: int| i < j < els.len() && els[j].parent == Some(els[i].id) && els[j].name == "stop"@
        ==> #[trigger] stop_sliceable(els[j], named)
}

pub(crate) fn gradient_stops_exec(els: &Vec<XmlElement>, i: usize, named: bool) -> (r: Vec<char>)
    requires
        i < els@.len(),
        stops_sliceable(elements_view(els@), i as int, named),
    ensures
        r@ == gradient_stops(elements_view(els@), i as int, named),
{
    let ghost ev = elements_view(els@);
    let n = els.len();
    let mut acc: Vec<Vec<char>> = Vec::new();
    let mut j: usize = i + 1;
    let ghost target = stops_from(ev, i as int, i + 1, Seq::empty(), named);
    assert(line_views(acc@) =~= Seq::<Seq<char>>::empty());
    while j < n
        invariant
            i < j <= n,
            n == els@.len(),
            ev == elements_view(els@),
            stops_sliceable(ev, i as int, named),
            stops_from(ev, i as int, j as int, line_views(acc@), named) == target,
        decreases n - j,
    {
        assert(ev[j as int] == element_view(els@[j as int]));
        assert(ev[i as int] == element_view(els@[i as int]));
        if els[j].parent == Some(els[i].id) && is_text(&chars_of(els[j].name.as_str()), "stop") {
            assert(stop_sliceable(ev[j as int], named));
            match stop_text_exec(&els[j], named) {
                Some(t) => {
                    let ghost before = line_views(acc@);
                    acc.push(t);
                    assert(line_views(acc@) =~= before.push(t@));
                },
                None => {},
            }
        }
        j += 1;
    }
    if acc.len() == 0 {
        return Vec::new();
    }
    join_exec(&acc, ", ")
}

pub struct GradV {
    pub kind: Seq<char>,
    pub units: Seq<char>,
    pub spread: Seq<char>,
    pub transform: Seq<char>,
    pub x1: Seq<char>,
    pub y1: Seq<char>,
    pub x2: Seq<char>,
    pub y2: Seq<char>,
    pub cx: Seq<char>,
    pub cy: Seq<char>,
    pub r: Seq<char>,
    pub fx: Seq<char>,
    pub fy: Seq<char>,
    pub fr: Seq<char>,
    pub stops: Seq<char>,
}

pub open spec fn pick(own: Option<Seq<char>>, inherited: Option<Seq<char>>, default: Seq<char>) -> Seq<char> {
    match own {
        Some(v) => v,
        None => match inherited {
            Some(v) => v,
            None => default,
        },
    }
}

pub open spec fn field(base: Option<GradV>, f: spec_fn(GradV) -> Seq<char>) -> Option<Seq<char>> {
    match base {
        Some(b) => Some(f(b)),
        None => None,
    }
}

/// A gradient's own attributes over those it inherits through `href`.
pub open spec fn build_gradient(kind: Seq<char>, n: ElementView, base: Option<GradV>, stops: Seq<char>) -> GradV {
    GradV {
        kind,
        units: pick(attr(n, "gradientUnits"@), field(base, |g: GradV| g.units), "objectBoundingBox"@),
        spread: pick(attr(n, "spreadMethod"@), field(base, |g: GradV| g.spread), "pad"@),
        transform: pick(attr(n, "gradientTransform"@), field(base, |g: GradV| g.transform), Seq::empty()),
        x1: pick(attr(n, "x1"@), field(base, |g: GradV| g.x1), "0%"@),
        y1: pick(attr(n, "y1"@), field(base, |g: GradV| g.y1), "0%"@),
        x2: pick(attr(n, "x2"@), field(base, |g: GradV| g.x2), "100%"@),
        y2: pick(attr(n, "y2"@), field(base, |g: GradV| g.y2), "0%"@),
        cx: pick(attr(n, "cx"@), field(base, |g: GradV| g.cx), "50%"@),
        cy: pick(attr(n, "cy"@), field(base, |g: GradV| g.cy), "50%"@),
        r: pick(attr(n, "r"@), field(base, |g: GradV| g.r), "50%"@),
        fx: pick(attr(n, "fx"@), field(base, |g: GradV| g.fx), pick(attr(n, "cx"@), field(base, |g: GradV| g.cx), "50%"@)),
        fy: pick(attr(n, "fy"@), field(base, |g: GradV| g.fy), pick(attr(n, "cy"@), field(base, |g: GradV| g.cy), "50%"@)),
        fr: pick(attr(n, "fr"@), field(base, |g: GradV| g.fr), "0%"@),
        stops: if stops.len() == 0 {
            match base {
                Some(b) => b.stops,
                None => Seq::empty(),
            }
        } else {
            stops
        },
    }
}

pub open spec fn gradient_kind(name: Seq<char>) -> Option<Seq<char>> {
    if name == "linearGradient"@ {
        Some("linear-gradient"@)
    } else if name == "radialGradient"@ {
        Some("radial-gradient"@)
    } else {
        None
    }
}

/// The gradients among the first `k` elements: id, kind and index.
pub open spec fn gradient_index(els: Seq<ElementView>, k: int) -> Seq<(Seq<char>, (Seq<char>, int))>
    decreases k,
{
    if k <= 0 || k > els.len() {
        Seq::empty()
    } else {
        let e = els[k - 1];
        match (gradient_kind(e.name), attr(e, "id"@)) {
            (Some(kind), Some(id)) => gradient_index(els, k - 1).push((id, (kind, k - 1))),
            _ => gradient_index(els, k - 1),
        }
    }
}

/// Resolves gradient `id` with its `href` chain, remembering resolved
/// gradients and refusing cycles. `fuel` bounds the chain by the number of
/// gradients, which an acyclic chain never exceeds.
pub open spec fn resolve(els: Seq<ElementView>, by: Seq<(Seq<char>, (Seq<char>, int))>, id: Seq<char>,
    memo: Seq<(Seq<char>, GradV)>, visiting: Seq<Seq<char>>, fuel: nat) -> (Option<GradV>, Seq<(Seq<char>, GradV)>)
    decreases fuel,
{
    if last_get(memo, id) is Some {
        (last_get(memo, id), memo)
    } else if visiting.contains(id) {
        (None, memo)
    } else {
        match last_get(by, id) {
            None => (None, memo),
            Some((kind, idx)) => if fuel == 0 || idx < 0 || idx >= els.len() {
                (None, memo)
            } else {
                let n = els[idx];
                let (base, m1) = match attr(n, "href"@) {
                    Some(h) => if h.len() > 0 && h[0] == '#' {
                        resolve(els, by, h.subrange(1, h.len() as int), memo, visiting.push(id), (fuel - 1) as nat)
                    } else {
                        (None, memo)
                    },
                    None => (None, memo),
                };
                let g = build_gradient(kind, n, base, gradient_stops(els, idx, false));
                (Some(g), m1.push((id, g)))
            },
        }
    }
}

pub open spec fn collect_from(els: Seq<ElementView>, by: Seq<(Seq<char>, (Seq<char>, int))>, k: int) -> Seq<(Seq<char>, GradV)>
    decreases k,
{
    if k <= 0 || k > by.len() {
        Seq::empty()
    } else {
        let prev = collect_from(els, by, k - 1);
        let (g, m1) = resolve(els, by, by[k - 1].0, prev, Seq::empty(), els.len() as nat);
        match g {
            Some(g) => m1.push((by[k - 1].0, g)),
            None => m1,
        }
    }
}

/// Every gradient of the document, resolved, by id (a later entry wins).
pub open spec fn gradients(els: Seq<ElementView>) -> Seq<(Seq<char>, GradV)> {
    let by = gradient_index(els, els.len() as int);
    collect_from(els, by, by.len() as int)
}

/// The stop colours of every gradient that is resolved can be sliced
/// safely.
pub open spec fn gradients_sliceable(els: Seq<ElementView>) -> bool {
    let by = gradient_index(els, els.len() as int);
    forall|k: int| 0 <= k < by.len() && #[trigger] last_get(by, by[k].0) == Some(by[k].1) ==> stops_sliceable(els, by[k].1.1, false)
}

proof fn lemma_last_get_in<V>(m: Seq<(Seq<char>, V)>, id: Seq<char>)
    requires
        last_get(m, id) is Some,
    ensures
        exists|k: int| 0 <= k < m.len() && m[k].0 == id && m[k].1 == last_get(m, id)->0 && #[trigger] last_get(m, m[k].0) == Some(m[k].1),
    decreases m.len(),
{
    if m.last().0 == id {
        assert(last_get(m, m[m.len() - 1].0) == Some(m[m.len() - 1].1));
    } else {
        lemma_last_get_in(m.drop_last(), id);
        let k = choose|k: int| 0 <= k < m.drop_last().len() && m.drop_last()[k].0 == id && m.drop_last()[k].1 == last_get(m.drop_last(), id)->0
            && #[trigger] last_get(m.drop_last(), m.drop_last()[k].0) == Some(m.drop_last()[k].1);
        assert(m[k] == m.drop_last()[k]);
        assert(last_get(m, m[k].0) == last_get(m.drop_last(), m[k].0));
    }
}

// ---------------------------------------------------------------------------
// Gradients, executable

pub struct Grad {
    pub kind: Vec<char>,
    pub units: Vec<char>,
    pub spread: Vec<char>,
    pub transform: Vec<char>,
    pub x1: Vec<char>,
    pub y1: Vec<char>,
    pub x2: Vec<char>,
    pub y2: Vec<char>,
    pub cx: Vec<char>,
    pub cy: Vec<char>,
    pub r: Vec<char>,
    pub fx: Vec<char>,
    pub fy: Vec<char>,
    pub fr: Vec<char>,
    pub stops: Vec<char>,
}

pub open spec fn grad_view(g: Grad) -> GradV {
    GradV {
        kind: g.kind@, units: g.units@, spread: g.spread@, transform: g.transform@, x1: g.x1@, y1: g.y1@, x2: g.x2@,
        y2: g.y2@, cx: g.cx@, cy: g.cy@, r: g.r@, fx: g.fx@, fy: g.fy@, fr: g.fr@, stops: g.stops@,
    }
}

pub open spec fn opt_grad_view(g: Option<Grad>) -> Option<GradV> {
    match g {
        Some(g) => Some(grad_view(g)),
        None => None,
    }
}

pub open spec fn memo_view(m: Seq<(Vec<char>, Grad)>) -> Seq<(Seq<char>, GradV)> {
    m.map_values(|p: (Vec<char>, Grad)| (p.0@, grad_view(p.1)))
}

pub open spec fn index_view(m: Seq<(Vec<char>, (Vec<char>, usize))>) -> Seq<(Seq<char>, (Seq<char>, int))> {
    m.map_values(|p: (Vec<char>, (Vec<char>, usize))| (p.0@, (p.1.0@, p.1.1 as int)))
}

fn copy_grad(g: &Grad) -> (r: Grad)
    ensures
        grad_view(r) == grad_view(*g),
{
    Grad {
        kind: copy_chars(&g.kind), units: copy_chars(&g.units), spread: copy_chars(&g.spread),
        transform: copy_chars(&g.transform), x1: copy_chars(&g.x1), y1: copy_chars(&g.y1), x2: copy_chars(&g.x2),
        y2: copy_chars(&g.y2), cx: copy_chars(&g.cx), cy: copy_chars(&g.cy), r: copy_chars(&g.r), fx: copy_chars(&g.fx),
        fy: copy_chars(&g.fy), fr: copy_chars(&g.fr), stops: copy_chars(&g.stops),
    }
}

fn pick_exec(own: Option<String>, inherited: Option<&Vec<char>>, default: &str) -> (r: Vec<char>)
    ensures
        r@ == pick(crate::xml::opt_str_view(own), match inherited {
            Some(v) => Some(v@),
            None => None,
        }, default@),
{
    match own {
        Some(v) => chars_of(v.as_str()),
        None => match inherited {
            Some(v) => copy_chars(v),
            None => chars_of(default),
        },
    }
}

fn build_gradient_exec(kind: &Vec<char>, n: &XmlElement, base: &Option<Grad>, stops: Vec<char>) -> (g: Grad)
    ensures
        grad_view(g) == build_gradient(kind@, element_view(*n), opt_grad_view(*base), stops@),
{
    let b = base.as_ref();
    let fx_default = pick_exec(get_attr(n, "cx"), match b { Some(g) => Some(&g.cx), None => None }, "50%");
    let fy_default = pick_exec(get_attr(n, "cy"), match b { Some(g) => Some(&g.cy), None => None }, "50%");
    let fx = match get_attr(n, "fx") {
        Some(v) => chars_of(v.as_str()),
        None => match b {
            Some(g) => copy_chars(&g.fx),
            None => fx_default,
        },
    };
    let fy = match get_attr(n, "fy") {
        Some(v) => chars_of(v.as_str()),
        None => match b {
            Some(g) => copy_chars(&g.fy),
            None => fy_default,
        },
    };
    let st = if stops.len() == 0 {
        match b {
            Some(g) => copy_chars(&g.stops),
            None => Vec::new(),
        }
    } else {
        stops
    };
    let g = Grad {
        kind: copy_chars(kind),
        units: pick_exec(get_attr(n, "gradientUnits"), match b { Some(g) => Some(&g.units), None => None }, "objectBoundingBox"),
        spread: pick_exec(get_attr(n, "spreadMethod"), match b { Some(g) => Some(&g.spread), None => None }, "pad"),
        transform: pick_exec(get_attr(n, "gradientTransform"), match b { Some(g) => Some(&g.transform), None => None }, ""),
        x1: pick_exec(get_attr(n, "x1"), match b { Some(g) => Some(&g.x1), None => None }, "0%"),
        y1: pick_exec(get_attr(n, "y1"), match b { Some(g) => Some(&g.y1), None => None }, "0%"),
        x2: pick_exec(get_attr(n, "x2"), match b { Some(g) => Some(&g.x2), None => None }, "100%"),
        y2: pick_exec(get_attr(n, "y2"), match b { Some(g) => Some(&g.y2), None => None }, "0%"),
        cx: pick_exec(get_attr(n, "cx"), match b { Some(g) => Some(&g.cx), None => None }, "50%"),
        cy: pick_exec(get_attr(n, "cy"), match b { Some(g) => Some(&g.cy), None => None }, "50%"),
        r: pick_exec(get_attr(n, "r"), match b { Some(g) => Some(&g.r), None => None }, "50%"),
        fx,
        fy,
        fr: pick_exec(get_attr(n, "fr"), match b { Some(g) => Some(&g.fr), None => None }, "0%"),
        stops: st,
    };
    proof {
        reveal_strlit("");
        let bv = opt_grad_view(*base);
        let want = build_gradient(kind@, element_view(*n), bv, stops@);
        assert(g.units@ == want.units);
        assert(g.transform@ == want.transform);
        assert(g.fx@ == want.fx);
        assert(g.fy@ == want.fy);
        assert(g.stops@ == want.stops);
        assert(g.r@ == want.r);
    }
    g
}

fn last_memo(m: &Vec<(Vec<char>, Grad)>, id: &Vec<char>) -> (r: Option<Grad>)
    ensures
        opt_grad_view(r) == last_get(memo_view(m@), id@),
{
    let ghost mv = memo_view(m@);
    let mut k: usize = m.len();
    assert(mv.subrange(0, k as int) =~= mv);
    while k > 0
        invariant
            k <= m@.len(),
            mv == memo_view(m@),
            last_get(mv.subrange(0, k as int), id@) == last_get(mv, id@),
        decreases k,
    {
        assert(mv.subrange(0, k as int).drop_last() =~= mv.subrange(0, k - 1));
        if crate::parser::chars_eq(&m[k - 1].0, id) {
            return Some(copy_grad(&m[k - 1].1));
        }
        k -= 1;
    }
    None
}

fn last_index(m: &Vec<(Vec<char>, (Vec<char>, usize))>, id: &Vec<char>) -> (r: Option<(Vec<char>, usize)>)
    ensures
        match last_get(index_view(m@), id@) {
            Some((k, i)) => r is Some && r.unwrap().0@ == k && r.unwrap().1 == i,
            None => r is None,
        },
{
    let ghost mv = index_view(m@);
    let mut k: usize = m.len();
    assert(mv.subrange(0, k as int) =~= mv);
    while k > 0
        invariant
            k <= m@.len(),
            mv == index_view(m@),
            last_get(mv.subrange(0, k as int), id@) == last_get(mv, id@),
        decreases k,
    {
        assert(mv.subrange(0, k as int).drop_last() =~= mv.subrange(0, k - 1));
        if crate::parser::chars_eq(&m[k - 1].0, id) {
            return Some((copy_chars(&m[k - 1].1.0), m[k - 1].1.1));
        }
        k -= 1;
    }
    None
}

pub(crate) fn seq_contains_exec(v: &Vec<Vec<char>>, id: &Vec<char>) -> (b: bool)
    ensures
        b == line_views(v@).contains(id@),
{
    let mut k: usize = 0;
    while k < v.len()
        invariant
            k <= v@.len(),
            forall|j: int| 0 <= j < k ==> line_views(v@)[j] != id@,
        decreases v@.len() - k,
    {
        if crate::parser::chars_eq(&v[k], id) {
            assert(line_views(v@)[k as int] == id@);
            return true;
        }
        k += 1;
    }
    false
}

pub open spec fn index_wf(els: Seq<ElementView>, by: Seq<(Seq<char>, (Seq<char>, int))>) -> bool {
    forall|k: int| 0 <= k < by.len() ==> 0 <= #[trigger] by[k].1.1 < els.len()
}

fn resolve_exec(els: &Vec<XmlElement>, by: &Vec<(Vec<char>, (Vec<char>, usize))>, id: &Vec<char>,
    memo: &mut Vec<(Vec<char>, Grad)>, visiting: &Vec<Vec<char>>, fuel: usize) -> (r: Option<Grad>)
    requires
        gradients_sliceable(elements_view(els@)),
        index_view(by@) == gradient_index(elements_view(els@), els@.len() as int),
    ensures
        (opt_grad_view(r), memo_view(final(memo)@)) == resolve(elements_view(els@), index_view(by@), id@,
            memo_view(old(memo)@), line_views(visiting@), fuel as nat),
    decreases fuel,
{
    let ghost ev = elements_view(els@);
    let ghost bv = index_view(by@);
    match last_memo(memo, id) {
        Some(g) => {
            return Some(g);
        },
        None => {},
    }
    if seq_contains_exec(visiting, id) {
        return None;
    }
    let (kind, idx) = match last_index(by, id) {
        Some(p) => p,
        None => {
            return None;
        },
    };
    if fuel == 0 || idx >= els.len() {
        return None;
    }
    proof {
        lemma_last_get_in(bv, id@);
        lemma_index_in(ev, els@.len() as int);
    }
    let n = &els[idx];
    assert(ev[idx as int] == element_view(*n));
    let base = match get_attr(n, "href") {
        Some(h) => {
            let hc = chars_of(h.as_str());
            if hc.len() > 0 && hc[0] == '#' {
                let mut next: Vec<Vec<char>> = Vec::new();
                let mut k: usize = 0;
                while k < visiting.len()
                    invariant
                        k <= visiting@.len(),
                        line_views(next@) == line_views(visiting@).subrange(0, k as int),
                    decreases visiting@.len() - k,
                {
                    let ghost before = line_views(next@);
                    next.push(copy_chars(&visiting[k]));
                    assert(line_views(next@) =~= before.push(line_views(visiting@)[k as int]));
                    k += 1;
                }
                assert(line_views(visiting@).subrange(0, visiting@.len() as int) =~= line_views(visiting@));
                let ghost before = line_views(next@);
                next.push(copy_chars(id));
                assert(line_views(next@) =~= before.push(id@));
                resolve_exec(els, by, &sub_chars(&hc, 1, hc.len()), memo, &next, fuel - 1)
            } else {
                None
            }
        },
        None => None,
    };
    let stops = gradient_stops_exec(els, idx, false);
    let g = build_gradient_exec(&kind, n, &base, stops);
    let ghost before = memo_view(memo@);
    memo.push((copy_chars(id), copy_grad(&g)));
    assert(memo_view(memo@) =~= before.push((id@, grad_view(g))));
    Some(g)
}

proof fn lemma_index_in(els: Seq<ElementView>, k: int)
    requires
        0 <= k <= els.len(),
    ensures
        index_wf(els, gradient_index(els, k)),
    decreases k,
{
    if k > 0 {
        lemma_index_in(els, k - 1);
    }
}

fn gradient_index_exec(els: &Vec<XmlElement>) -> (r: Vec<(Vec<char>, (Vec<char>, usize))>)
    ensures
        index_view(r@) == gradient_index(elements_view(els@), els@.len() as int),
{
    let ghost ev = elements_view(els@);
    let mut out: Vec<(Vec<char>, (Vec<char>, usize))> = Vec::new();
    let mut k: usize = 0;
    while k < els.len()
        invariant
            k <= els@.len(),
            ev == elements_view(els@),
            index_view(out@) == gradient_index(ev, k as int),
        decreases els@.len() - k,
    {
        let e = &els[k];
        assert(ev[k as int] == element_view(*e));
        let name = chars_of(e.name.as_str());
        let kind = if is_text(&name, "linearGradient") {
            Some(chars_of("linear-gradient"))
        } else if is_text(&name, "radialGradient") {
            Some(chars_of("radial-gradient"))
        } else {
            None
        };
        match (kind, get_attr(e, "id")) {
            (Some(kind), Some(id)) => {
                let ghost before = index_view(out@);
                let ghost kv = kind@;
                out.push((chars_of(id.as_str()), (kind, k)));
                assert(index_view(out@) =~= before.push((id@, (kv, k as int))));
            },
            _ => {},
        }
        k += 1;
    }
    out
}

/// Every gradient of the document, resolved.
fn gradients_exec(els: &Vec<XmlElement>) -> (r: Vec<(Vec<char>, Grad)>)
    requires
        gradients_sliceable(elements_view(els@)),
    ensures
        memo_view(r@) == gradients(elements_view(els@)),
{
    let ghost ev = elements_view(els@);
    let by = gradient_index_exec(els);
    let ghost bv = index_view(by@);
    let mut memo: Vec<(Vec<char>, Grad)> = Vec::new();
    let fuel = els.len();
    let mut k: usize = 0;
    assert(memo_view(memo@) =~= collect_from(ev, bv, 0));
    while k < by.len()
        invariant
            k <= by@.len(),
            ev == elements_view(els@),
            bv == index_view(by@),
            bv == gradient_index(ev, els@.len() as int),
            gradients_sliceable(ev),
            fuel == els@.len(),
            memo_view(memo@) == collect_from(ev, bv, k as int),
        decreases by@.len() - k,
    {
        let id = copy_chars(&by[k].0);
        assert(id@ == bv[k as int].0);
        let visiting: Vec<Vec<char>> = Vec::new();
        assert(line_views(visiting@) =~= Seq::<Seq<char>>::empty());
        let g = resolve_exec(els, &by, &id, &mut memo, &visiting, fuel);
        match g {
            Some(g) => {
                let ghost before = memo_view(memo@);
                let ghost gv = grad_view(g);
                memo.push((id, g));
                assert(memo_view(memo@) =~= before.push((bv[k as int].0, gv)));
            },
            None => {},
        }
        k += 1;
    }
    memo
}

// ---------------------------------------------------------------------------
// Checking that colours slice safely

pub(crate) fn rgba_sliceable_exec(v: &Vec<char>) -> (b: bool)
    ensures
        b == rgba_sliceable(v@),
{
    let t = trim_chars(v);
    if eq_ignore_case_exec(&t, "transparent") || t.len() == 0 || t[0] != '#' {
        return true;
    }
    let rest = sub_chars(&t, 1, t.len());
    assert(rest@ =~= t@.drop_first());
    let text = string_of(&rest);
    let s = text.as_str();
    let h = s.as_bytes();
    let n = h.len();
    assert(h@ == colour_bytes4(t@));
    if n == 3 || n == 4 {
        let mut k: usize = 0;
        while k < n
            invariant
                k <= n,
                n == h@.len(),
                n == 3 || n == 4,
                t@ == trim(v@),
                h@ == colour_bytes4(t@),
                !(crate::number::eq_ignore_case(t@, "transparent"@) || t@.len() == 0 || t@[0] != '#'),
                forall|j: int| 0 <= j < k ==> h@[j] < 0x80,
            decreases n - k,
        {
            if h[k] >= 0x80 {
                return false;
            }
            k += 1;
        }
        return true;
    }
    if n == 6 || n == 8 {
        return s.is_char_boundary(2) && s.is_char_boundary(4) && s.is_char_boundary(6);
    }
    true
}

pub(crate) fn stops_sliceable_exec(els: &Vec<XmlElement>, i: usize, named: bool) -> (b: bool)
    requires
        i < els@.len(),
    ensures
        b == stops_sliceable(elements_view(els@), i as int, named),
{
    let ghost ev = elements_view(els@);
    let n = els.len();
    let mut j: usize = i + 1;
    while j < n
        invariant
            i < j <= n,
            n == els@.len(),
            ev == elements_view(els@),
            forall|k: int| i < k < j && ev[k].parent == Some(ev[i as int].id) && ev[k].name == "stop"@
                ==> #[trigger] stop_sliceable(ev[k], named),
        decreases n - j,
    {
        assert(ev[j as int] == element_view(els@[j as int]));
        assert(ev[i as int] == element_view(els@[i as int]));
        if els[j].parent == Some(els[i].id) && is_text(&chars_of(els[j].name.as_str()), "stop") {
            let (c, _o) = stop_colour_exec(&els[j], named);
            if !rgba_sliceable_exec(&c) {
                assert(!stop_sliceable(ev[j as int], named));
                return false;
            }
        }
        j += 1;
    }
    true
}

/// Whether every resolved gradient's stop colours slice safely.
pub fn gradients_sliceable_exec(els: &Vec<XmlElement>) -> (b: bool)
    ensures
        b == gradients_sliceable(elements_view(els@)),
{
    let ghost ev = elements_view(els@);
    let by = gradient_index_exec(els);
    let ghost bv = index_view(by@);
    proof {
        lemma_index_in(ev, els@.len() as int);
    }
    let mut k: usize = 0;
    while k < by.len()
        invariant
            k <= by@.len(),
            ev == elements_view(els@),
            bv == index_view(by@),
            bv == gradient_index(ev, els@.len() as int),
            index_wf(ev, bv),
            forall|j: int| 0 <= j < k && #[trigger] last_get(bv, bv[j].0) == Some(bv[j].1) ==> stops_sliceable(ev, bv[j].1.1, false),
        decreases by@.len() - k,
    {
        let id = copy_chars(&by[k].0);
        let own = match last_index(&by, &id) {
            Some((_kind, idx)) => idx == by[k].1.1 && crate::parser::chars_eq(&_kind, &by[k].1.0),
            None => false,
        };
        assert(bv[k as int] == (by@[k as int].0@, (by@[k as int].1.0@, by@[k as int].1.1 as int)));
        assert(own <==> last_get(bv, bv[k as int].0) == Some(bv[k as int].1));
        if own && by[k].1.1 < els.len() && !stops_sliceable_exec(els, by[k].1.1, false) {
            assert(last_get(bv, bv[k as int].0) == Some(bv[k as int].1) && !stops_sliceable(ev, bv[k as int].1.1, false));
            return false;
        }
        assert(own ==> by@[k as int].1.1 < els@.len());
        k += 1;
    }
    true
}

// ---------------------------------------------------------------------------
// Promotion

pub open spec fn attr_name(i: int) -> Seq<char> {
    seq!["transform"@, "opacity"@, "fill-opacity"@, "stroke-opacity"@, "viewBox"@, "preserveAspectRatio"@,
        "clipPathUnits"@, "maskUnits"@, "maskContentUnits"@, "font-size"@, "font-family"@, "font-weight"@,
        "font-style"@, "text-anchor"@, "letter-spacing"@, "word-spacing"@, "line-height"@, "x"@, "y"@, "width"@,
        "height"@][i]
}

pub open spec fn native_key(i: int) -> Seq<char> {
    seq!["transform"@, "opacity"@, "fill-opacity"@, "stroke-opacity"@, "viewbox"@, "preserve-aspect-ratio"@,
        "clip-units"@, "mask-units"@, "mask-content-units"@, "font-size"@, "font-family"@, "font-weight"@,
        "font-style"@, "text-anchor"@, "letter-spacing"@, "word-spacing"@, "line-height"@, "source-x"@, "source-y"@,
        "source-width"@, "source-height"@][i]
}

pub open spec fn attr_prefix(i: int) -> Seq<char> {
    "svg-attr-"@ + attr_name(i) + ":"@
}

/// `indent key: rest`, with a `;` added unless `rest` ends with one.
pub open spec fn raw_prop(ind: Seq<char>, key: Seq<char>, rest: Seq<char>) -> Seq<char> {
    ind + key + ": "@ + rest + (if ends_with(rest, ";"@) { Seq::empty() } else { ";"@ }) + "\n"@
}

pub open spec fn prop(ind: Seq<char>, key: Seq<char>, value: Seq<char>) -> Seq<char> {
    ind + key + ": "@ + value + ";\n"@
}

/// The native copies of the `svg-attr-*` properties among the first `k`
/// names.
pub open spec fn attr_copies(t: Seq<char>, ind: Seq<char>, k: int) -> Seq<char>
    decreases k,
{
    if k <= 0 || k > 21 {
        Seq::empty()
    } else {
        let prev = attr_copies(t, ind, k - 1);
        let i = k - 1;
        if starts_with(t, attr_prefix(i)) {
            let rest = trim(t.subrange(attr_prefix(i).len() as int, t.len() as int));
            prev + raw_prop(ind, native_key(i), rest) + (if i == 5 { raw_prop(ind, "image-preserve-aspect-ratio"@, rest) } else {
                Seq::empty()
            })
        } else {
            prev
        }
    }
}

/// The unquoted value of `prefix value;`.
pub open spec fn parse_prop(line: Seq<char>, prefix: Seq<char>) -> Option<Seq<char>> {
    if starts_with(line, prefix) {
        parse_rest(line.subrange(prefix.len() as int, line.len() as int))
    } else {
        None
    }
}

pub open spec fn parse_rest(rest: Seq<char>) -> Option<Seq<char>> {
    let r = trim(rest);
    if ends_with(r, ";"@) { Some(unquote4(trim(r.subrange(0, r.len() - 1)))) } else { None }
}

pub open spec fn gradient_head(ind: Seq<char>, g: GradV) -> Seq<char> {
    prop(ind, "fill"@, g.kind) + prop(ind, "gradient-kind"@, quote4(g.kind)) + prop(ind, "gradient-units"@, quote4(g.units))
        + prop(ind, "gradient-spread"@, quote4(g.spread))
        + (if g.transform.len() > 0 { prop(ind, "gradient-transform"@, quote4(g.transform)) } else { Seq::empty() })
        + prop(ind, "gradient-stops"@, g.stops)
}

pub open spec fn gradient_geometry(ind: Seq<char>, g: GradV) -> Seq<char> {
    if g.kind == "linear-gradient"@ {
        prop(ind, "gradient-x1"@, quote4(g.x1)) + prop(ind, "gradient-y1"@, quote4(g.y1)) + prop(ind, "gradient-x2"@,
            quote4(g.x2)) + prop(ind, "gradient-y2"@, quote4(g.y2))
    } else {
        prop(ind, "gradient-cx"@, quote4(g.cx)) + prop(ind, "gradient-cy"@, quote4(g.cy)) + prop(ind, "gradient-r"@,
            quote4(g.r)) + prop(ind, "gradient-fx"@, quote4(g.fx)) + prop(ind, "gradient-fy"@, quote4(g.fy)) + prop(ind,
            "gradient-fr"@, quote4(g.fr))
    }
}

/// The native paint properties of a resolved gradient.
pub open spec fn gradient_props(ind: Seq<char>, g: GradV) -> Seq<char> {
    gradient_head(ind, g) + gradient_geometry(ind, g)
}

pub open spec fn mask_props(ind: Seq<char>, m: MaskInfo) -> Seq<char> {
    prop(ind, "mask-units"@, quote4(m.units)) + prop(ind, "mask-content-units"@, quote4(m.content_units)) + prop(ind,
        "mask-x"@, quote4(m.x)) + prop(ind, "mask-y"@, quote4(m.y)) + prop(ind, "mask-width"@, quote4(m.width))
        + prop(ind, "mask-height"@, quote4(m.height))
}

pub open spec fn or_else(a: Option<Seq<char>>, b: Option<Seq<char>>) -> Option<Seq<char>> {
    if a is Some { a } else { b }
}

pub open spec fn frag(v: Option<Seq<char>>) -> Option<Seq<char>> {
    match v {
        Some(x) => url_fragment(x),
        None => None,
    }
}

/// The `href` copy of an `svg-attr-href` line and, for a data URL, its
/// image data; and whether there was an image.
#[verifier::opaque]
pub open spec fn href_text(t: Seq<char>, ind: Seq<char>) -> (Seq<char>, bool) {
    let href_rest = if starts_with(t, "svg-attr-href:"@) {
        Some(t.subrange(14, t.len() as int))
    } else if starts_with(t, "svg-attr-xlink-href:"@) {
        Some(t.subrange(20, t.len() as int))
    } else {
        None
    };
    match href_rest {
        Some(rest) => {
            let o = raw_prop(ind, "href"@, trim(rest));
            match parse_rest(rest) {
                Some(h) => if starts_with(h, "data:image/"@) { (o + prop(ind, "image-data"@, quote4(h)), true) } else { (o, false) },
                None => (o, false),
            }
        },
        None => (Seq::empty(), false),
    }
}

/// The gradient paint of an `svg-fill: url(#id)` line, when `id` names a
/// resolved gradient.
#[verifier::opaque]
pub open spec fn gradient_text(t: Seq<char>, ind: Seq<char>, grads: Seq<(Seq<char>, GradV)>) -> (Seq<char>, bool) {
    match frag(parse_prop(t, "svg-fill:"@)) {
        Some(id) => match last_get(grads, id) {
            Some(g) => (gradient_props(ind, g), true),
            None => (Seq::empty(), false),
        },
        None => (Seq::empty(), false),
    }
}

/// The mask region of a mask reference line.
#[verifier::opaque]
pub open spec fn mask_text4(t: Seq<char>, ind: Seq<char>, masks: Seq<(Seq<char>, MaskInfo)>) -> Seq<char> {
    match frag(or_else(parse_prop(t, "mask-ref:"@), parse_prop(t, "svg-attr-mask:"@))) {
        Some(id) => match last_get(masks, id) {
            Some(m) => mask_props(ind, m),
            None => Seq::empty(),
        },
        None => Seq::empty(),
    }
}

/// The filter chain of a filter reference line.
#[verifier::opaque]
pub open spec fn filter_text(t: Seq<char>, ind: Seq<char>, filters: Seq<(Seq<char>, Seq<char>)>) -> (Seq<char>, bool) {
    match frag(or_else(parse_prop(t, "svg-attr-filter:"@), parse_prop(t, "svg-filter:"@))) {
        Some(id) => match last_get(filters, id) {
            Some(c) => (prop(ind, "filter-chain"@, quote4(c)), true),
            None => (Seq::empty(), false),
        },
        None => (Seq::empty(), false),
    }
}

/// One promoted line, and whether it added image data, gradient paint or a
/// filter chain.
pub open spec fn line4(line: Seq<char>, grads: Seq<(Seq<char>, GradV)>, masks: Seq<(Seq<char>, MaskInfo)>,
    filters: Seq<(Seq<char>, Seq<char>)>) -> (Seq<char>, bool, bool, bool) {
    let t = trim_start(line);
    let ind = line.subrange(0, lead_len(line));
    let h = href_text(t, ind);
    let g = gradient_text(t, ind, grads);
    let f = filter_text(t, ind, filters);
    (line + "\n"@ + attr_copies(t, ind, 21) + h.0 + g.0 + mask_text4(t, ind, masks) + f.0, h.1, g.1, f.1)
}

/// Promoted text of lines `i..` with the flags gathered so far.
pub open spec fn lines4(ls: Seq<Seq<char>>, i: int, grads: Seq<(Seq<char>, GradV)>, masks: Seq<(Seq<char>, MaskInfo)>,
    filters: Seq<(Seq<char>, Seq<char>)>) -> (Seq<char>, bool, bool, bool)
    decreases ls.len() - i,
{
    if i < 0 || i >= ls.len() {
        (Seq::empty(), false, false, false)
    } else {
        let (o, im, gr, fi) = line4(ls[i], grads, masks, filters);
        let (rest, im2, gr2, fi2) = lines4(ls, i + 1, grads, masks, filters);
        (o + rest, im || im2, gr || gr2, fi || fi2)
    }
}

pub struct Features {
    pub viewbox: bool,
    pub transforms: bool,
    pub opacity: bool,
    pub gradients: bool,
    pub text: bool,
    pub images: bool,
    pub uses: bool,
    pub filters: bool,
}

pub open spec fn no_features() -> Features {
    Features { viewbox: false, transforms: false, opacity: false, gradients: false, text: false, images: false, uses: false, filters: false }
}

pub open spec fn any_attr(els: Seq<ElementView>, key: Seq<char>) -> bool {
    exists|i: int| 0 <= i < els.len() && #[trigger] attr(els[i], key) is Some
}

pub open spec fn any_named(els: Seq<ElementView>, name: Seq<char>) -> bool {
    exists|i: int| 0 <= i < els.len() && #[trigger] els[i].name == name
}

/// The promoted source and the features the document uses.
pub open spec fn promote4(svg: Seq<char>, source: Seq<char>) -> (Seq<char>, Features) {
    match xml_elements(svg) {
        Err(_) => (source, no_features()),
        Ok(els) => {
            let (o, im, gr, fi) = lines4(lines(source), 0, gradients(els), masks4(els, els.len() as int),
                filters4(els, els.len() as int));
            (o, Features {
                viewbox: els.len() > 0 && attr(els[0], "viewBox"@) is Some,
                transforms: any_attr(els, "transform"@),
                opacity: any_attr(els, "opacity"@) || any_attr(els, "fill-opacity"@) || any_attr(els, "stroke-opacity"@),
                gradients: gr,
                text: any_named(els, "text"@) || any_named(els, "tspan"@),
                images: im,
                uses: any_named(els, "use"@),
                filters: fi,
            })
        },
    }
}

// ---------------------------------------------------------------------------
// Promotion, executable

fn attr_pair(i: usize) -> (r: (&'static str, &'static str))
    requires
        i < 21,
    ensures
        r.0@ == attr_prefix(i as int),
        r.1@ == native_key(i as int),
{
    proof {
        reveal_strlit("svg-attr-");
        reveal_strlit(":");
    }
    let r = match i {
        0 => ("svg-attr-transform:", "transform"),
        1 => ("svg-attr-opacity:", "opacity"),
        2 => ("svg-attr-fill-opacity:", "fill-opacity"),
        3 => ("svg-attr-stroke-opacity:", "stroke-opacity"),
        4 => ("svg-attr-viewBox:", "viewbox"),
        5 => ("svg-attr-preserveAspectRatio:", "preserve-aspect-ratio"),
        6 => ("svg-attr-clipPathUnits:", "clip-units"),
        7 => ("svg-attr-maskUnits:", "mask-units"),
        8 => ("svg-attr-maskContentUnits:", "mask-content-units"),
        9 => ("svg-attr-font-size:", "font-size"),
        10 => ("svg-attr-font-family:", "font-family"),
        11 => ("svg-attr-font-weight:", "font-weight"),
        12 => ("svg-attr-font-style:", "font-style"),
        13 => ("svg-attr-text-anchor:", "text-anchor"),
        14 => ("svg-attr-letter-spacing:", "letter-spacing"),
        15 => ("svg-attr-word-spacing:", "word-spacing"),
        16 => ("svg-attr-line-height:", "line-height"),
        17 => ("svg-attr-x:", "source-x"),
        18 => ("svg-attr-y:", "source-y"),
        19 => ("svg-attr-width:", "source-width"),
        _ => ("svg-attr-height:", "source-height"),
    };
    proof {
        reveal_strlit("svg-attr-transform:");
        reveal_strlit("transform");
        reveal_strlit("svg-attr-opacity:");
        reveal_strlit("opacity");
        reveal_strlit("svg-attr-fill-opacity:");
        reveal_strlit("fill-opacity");
        reveal_strlit("svg-attr-stroke-opacity:");
        reveal_strlit("stroke-opacity");
        reveal_strlit("svg-attr-viewBox:");
        reveal_strlit("viewBox");
        reveal_strlit("svg-attr-preserveAspectRatio:");
        reveal_strlit("preserveAspectRatio");
        reveal_strlit("svg-attr-clipPathUnits:");
        reveal_strlit("clipPathUnits");
        reveal_strlit("svg-attr-maskUnits:");
        reveal_strlit("maskUnits");
        reveal_strlit("svg-attr-maskContentUnits:");
        reveal_strlit("maskContentUnits");
        reveal_strlit("svg-attr-font-size:");
        reveal_strlit("font-size");
        reveal_strlit("svg-attr-font-family:");
        reveal_strlit("font-family");
        reveal_strlit("svg-attr-font-weight:");
        reveal_strlit("font-weight");
        reveal_strlit("svg-attr-font-style:");
        reveal_strlit("font-style");
        reveal_strlit("svg-attr-text-anchor:");
        reveal_strlit("text-anchor");
        reveal_strlit("svg-attr-letter-spacing:");
        reveal_strlit("letter-spacing");
        reveal_strlit("svg-attr-word-spacing:");
        reveal_strlit("word-spacing");
        reveal_strlit("svg-attr-line-height:");
        reveal_strlit("line-height");
        reveal_strlit("svg-attr-x:");
        reveal_strlit("x");
        reveal_strlit("svg-attr-y:");
        reveal_strlit("y");
        reveal_strlit("svg-attr-width:");
        reveal_strlit("width");
        reveal_strlit("svg-attr-height:");
        reveal_strlit("height");
    }
    assert(r.0@ =~= attr_prefix(i as int));
    r
}

fn push_raw_prop(out: &mut Vec<char>, ind: &Vec<char>, key: &str, rest: &Vec<char>)
    ensures
        final(out)@ == old(out)@ + raw_prop(ind@, key@, rest@),
{
    let ghost start = out@;
    append_chars(out, ind);
    append_str(out, key);
    append_str(out, ": ");
    append_chars(out, rest);
    if !ends_with_exec(rest, ";") {
        append_str(out, ";");
    }
    append_str(out, "\n");
    assert(out@ =~= start + raw_prop(ind@, key@, rest@));
}

pub(crate) fn push_prop(out: &mut Vec<char>, ind: &Vec<char>, key: &str, value: &Vec<char>)
    ensures
        final(out)@ == old(out)@ + prop(ind@, key@, value@),
{
    let ghost start = out@;
    append_chars(out, ind);
    append_str(out, key);
    append_str(out, ": ");
    append_chars(out, value);
    append_str(out, ";\n");
    assert(out@ =~= start + prop(ind@, key@, value@));
}

pub(crate) fn push_qprop(out: &mut Vec<char>, ind: &Vec<char>, key: &str, value: &Vec<char>)
    ensures
        final(out)@ == old(out)@ + prop(ind@, key@, quote4(value@)),
{
    push_prop(out, ind, key, &quote4_exec(value));
}

fn attr_copies_exec(out: &mut Vec<char>, t: &Vec<char>, ind: &Vec<char>)
    ensures
        final(out)@ == old(out)@ + attr_copies(t@, ind@, 21),
{
    let ghost start = out@;
    let mut i: usize = 0;
    while i < 21
        invariant
            i <= 21,
            out@ == start + attr_copies(t@, ind@, i as int),
        decreases 21 - i,
    {
        let (prefix, key) = attr_pair(i);
        if starts_with_exec(t, prefix) {
            let m = chars_of(prefix).len();
            let rest = trim_chars(&sub_chars(t, m, t.len()));
            push_raw_prop(out, ind, key, &rest);
            if i == 5 {
                push_raw_prop(out, ind, "image-preserve-aspect-ratio", &rest);
            }
        }
        assert(out@ =~= start + attr_copies(t@, ind@, i + 1));
        i += 1;
    }
}

fn parse_rest_exec(rest: &Vec<char>) -> (r: Option<Vec<char>>)
    ensures
        match parse_rest(rest@) {
            Some(v) => r is Some && r->0@ == v,
            None => r is None,
        },
{
    let r = trim_chars(rest);
    proof {
        reveal_strlit(";");
    }
    if ends_with_exec(&r, ";") {
        Some(unquote4_exec(&trim_chars(&sub_chars(&r, 0, r.len() - 1))))
    } else {
        None
    }
}

fn parse_prop_exec(line: &Vec<char>, prefix: &str) -> (r: Option<Vec<char>>)
    ensures
        match parse_prop(line@, prefix@) {
            Some(v) => r is Some && r->0@ == v,
            None => r is None,
        },
{
    if starts_with_exec(line, prefix) {
        let m = chars_of(prefix).len();
        parse_rest_exec(&sub_chars(line, m, line.len()))
    } else {
        None
    }
}

fn frag_exec(v: Option<Vec<char>>) -> (r: Option<Vec<char>>)
    ensures
        match frag(crate::svg_native::opt_chars(v)) {
            Some(x) => r is Some && r->0@ == x,
            None => r is None,
        },
{
    match v {
        Some(x) => url_fragment_exec(&x),
        None => None,
    }
}

fn last_mask<'a>(m: &'a Vec<(Vec<char>, MaskRec)>, id: &Vec<char>) -> (r: Option<&'a MaskRec>)
    ensures
        match last_get(masks_rec_view(m@), id@) {
            Some(x) => r is Some && mask_rec_view(*r->0) == x,
            None => r is None,
        },
{
    let ghost mv = masks_rec_view(m@);
    let mut k: usize = m.len();
    assert(mv.subrange(0, k as int) =~= mv);
    while k > 0
        invariant
            k <= m@.len(),
            mv == masks_rec_view(m@),
            last_get(mv.subrange(0, k as int), id@) == last_get(mv, id@),
        decreases k,
    {
        assert(mv.subrange(0, k as int).drop_last() =~= mv.subrange(0, k - 1));
        if crate::parser::chars_eq(&m[k - 1].0, id) {
            return Some(&m[k - 1].1);
        }
        k -= 1;
    }
    None
}

fn last_filter(m: &Vec<(Vec<char>, Vec<char>)>, id: &Vec<char>) -> (r: Option<Vec<char>>)
    ensures
        match last_get(crate::props::pm_view(m@), id@) {
            Some(x) => r is Some && r->0@ == x,
            None => r is None,
        },
{
    let ghost mv = crate::props::pm_view(m@);
    let mut k: usize = m.len();
    assert(mv.subrange(0, k as int) =~= mv);
    while k > 0
        invariant
            k <= m@.len(),
            mv == crate::props::pm_view(m@),
            last_get(mv.subrange(0, k as int), id@) == last_get(mv, id@),
        decreases k,
    {
        assert(mv.subrange(0, k as int).drop_last() =~= mv.subrange(0, k - 1));
        if crate::parser::chars_eq(&m[k - 1].0, id) {
            return Some(copy_chars(&m[k - 1].1));
        }
        k -= 1;
    }
    None
}

fn gradient_head_exec(out: &mut Vec<char>, ind: &Vec<char>, g: &Grad)
    ensures
        final(out)@ == old(out)@ + gradient_head(ind@, grad_view(*g)),
{
    let ghost start = out@;
    push_prop(out, ind, "fill", &g.kind);
    push_qprop(out, ind, "gradient-kind", &g.kind);
    push_qprop(out, ind, "gradient-units", &g.units);
    push_qprop(out, ind, "gradient-spread", &g.spread);
    let ghost mid = out@;
    if g.transform.len() > 0 {
        push_qprop(out, ind, "gradient-transform", &g.transform);
    }
    push_prop(out, ind, "gradient-stops", &g.stops);
    assert(out@ =~= start + gradient_head(ind@, grad_view(*g)));
}

fn gradient_geometry_exec(out: &mut Vec<char>, ind: &Vec<char>, g: &Grad)
    ensures
        final(out)@ == old(out)@ + gradient_geometry(ind@, grad_view(*g)),
{
    let ghost start = out@;
    if is_text(&g.kind, "linear-gradient") {
        push_qprop(out, ind, "gradient-x1", &g.x1);
        push_qprop(out, ind, "gradient-y1", &g.y1);
        push_qprop(out, ind, "gradient-x2", &g.x2);
        push_qprop(out, ind, "gradient-y2", &g.y2);
    } else {
        push_qprop(out, ind, "gradient-cx", &g.cx);
        push_qprop(out, ind, "gradient-cy", &g.cy);
        push_qprop(out, ind, "gradient-r", &g.r);
        push_qprop(out, ind, "gradient-fx", &g.fx);
        push_qprop(out, ind, "gradient-fy", &g.fy);
        push_qprop(out, ind, "gradient-fr", &g.fr);
    }
    assert(out@ =~= start + gradient_geometry(ind@, grad_view(*g)));
}

fn gradient_props_exec(out: &mut Vec<char>, ind: &Vec<char>, g: &Grad)
    ensures
        final(out)@ == old(out)@ + gradient_props(ind@, grad_view(*g)),
{
    let ghost start = out@;
    gradient_head_exec(out, ind, g);
    gradient_geometry_exec(out, ind, g);
    assert(out@ =~= start + gradient_props(ind@, grad_view(*g)));
}

fn mask_props_exec(out: &mut Vec<char>, ind: &Vec<char>, m: &MaskRec)
    ensures
        final(out)@ == old(out)@ + mask_props(ind@, mask_rec_view(*m)),
{
    let ghost start = out@;
    push_qprop(out, ind, "mask-units", &m.units);
    push_qprop(out, ind, "mask-content-units", &m.content_units);
    push_qprop(out, ind, "mask-x", &m.x);
    push_qprop(out, ind, "mask-y", &m.y);
    push_qprop(out, ind, "mask-width", &m.width);
    push_qprop(out, ind, "mask-height", &m.height);
    assert(out@ =~= start + mask_props(ind@, mask_rec_view(*m)));
}


fn href_text_exec(out: &mut Vec<char>, t: &Vec<char>, ind: &Vec<char>) -> (b: bool)
    ensures
        (final(out)@, b) == ({
            let h = href_text(t@, ind@);
            (old(out)@ + h.0, h.1)
        }),
{
    reveal(href_text);
    let ghost start = out@;
    let rest = if starts_with_exec(t, "svg-attr-href:") {
        proof {
            reveal_strlit("svg-attr-href:");
        }
        sub_chars(t, 14, t.len())
    } else if starts_with_exec(t, "svg-attr-xlink-href:") {
        proof {
            reveal_strlit("svg-attr-xlink-href:");
        }
        sub_chars(t, 20, t.len())
    } else {
        assert(out@ =~= start + href_text(t@, ind@).0);
        return false;
    };
    push_raw_prop(out, ind, "href", &trim_chars(&rest));
    match parse_rest_exec(&rest) {
        Some(h) => {
            if starts_with_exec(&h, "data:image/") {
                push_qprop(out, ind, "image-data", &h);
                assert(out@ =~= start + href_text(t@, ind@).0);
                true
            } else {
                assert(out@ =~= start + href_text(t@, ind@).0);
                false
            }
        },
        None => {
            assert(out@ =~= start + href_text(t@, ind@).0);
            false
        },
    }
}

fn gradient_text_exec(out: &mut Vec<char>, t: &Vec<char>, ind: &Vec<char>, grads: &Vec<(Vec<char>, Grad)>) -> (b: bool)
    ensures
        (final(out)@, b) == ({
            let g = gradient_text(t@, ind@, memo_view(grads@));
            (old(out)@ + g.0, g.1)
        }),
{
    reveal(gradient_text);
    let ghost start = out@;
    match frag_exec(parse_prop_exec(t, "svg-fill:")) {
        Some(id) => match last_memo(grads, &id) {
            Some(g) => {
                gradient_props_exec(out, ind, &g);
                true
            },
            None => {
                assert(out@ =~= start + gradient_text(t@, ind@, memo_view(grads@)).0);
                false
            },
        },
        None => {
            assert(out@ =~= start + gradient_text(t@, ind@, memo_view(grads@)).0);
            false
        },
    }
}

fn mask_text4_exec(out: &mut Vec<char>, t: &Vec<char>, ind: &Vec<char>, masks: &Vec<(Vec<char>, MaskRec)>)
    ensures
        final(out)@ == old(out)@ + mask_text4(t@, ind@, masks_rec_view(masks@)),
{
    reveal(mask_text4);
    let ghost start = out@;
    let r = match parse_prop_exec(t, "mask-ref:") {
        Some(v) => Some(v),
        None => parse_prop_exec(t, "svg-attr-mask:"),
    };
    match frag_exec(r) {
        Some(id) => match last_mask(masks, &id) {
            Some(m) => {
                mask_props_exec(out, ind, m);
            },
            None => {
                assert(out@ =~= start + mask_text4(t@, ind@, masks_rec_view(masks@)));
            },
        },
        None => {
            assert(out@ =~= start + mask_text4(t@, ind@, masks_rec_view(masks@)));
        },
    }
}

fn filter_text_exec(out: &mut Vec<char>, t: &Vec<char>, ind: &Vec<char>, filters: &Vec<(Vec<char>, Vec<char>)>) -> (b: bool)
    ensures
        (final(out)@, b) == ({
            let f = filter_text(t@, ind@, crate::props::pm_view(filters@));
            (old(out)@ + f.0, f.1)
        }),
{
    reveal(filter_text);
    let ghost start = out@;
    let r = match parse_prop_exec(t, "svg-attr-filter:") {
        Some(v) => Some(v),
        None => parse_prop_exec(t, "svg-filter:"),
    };
    match frag_exec(r) {
        Some(id) => match last_filter(filters, &id) {
            Some(c) => {
                push_qprop(out, ind, "filter-chain", &c);
                true
            },
            None => {
                assert(out@ =~= start + filter_text(t@, ind@, crate::props::pm_view(filters@)).0);
                false
            },
        },
        None => {
            assert(out@ =~= start + filter_text(t@, ind@, crate::props::pm_view(filters@)).0);
            false
        },
    }
}

fn line4_exec(out: &mut Vec<char>, line: &Vec<char>, grads: &Vec<(Vec<char>, Grad)>, masks: &Vec<(Vec<char>, MaskRec)>,
    filters: &Vec<(Vec<char>, Vec<char>)>) -> (r: (bool, bool, bool))
    ensures
        ({
            let l = line4(line@, memo_view(grads@), masks_rec_view(masks@), crate::props::pm_view(filters@));
            final(out)@ == old(out)@ + l.0 && r == (l.1, l.2, l.3)
        }),
{
    let ghost start = out@;
    let lead = lead_len_exec(line);
    let t = sub_chars(line, lead, line.len());
    let ind = sub_chars(line, 0, lead);
    append_chars(out, line);
    out.push('\n');
    proof {
        reveal_strlit("\n");
    }
    attr_copies_exec(out, &t, &ind);
    let im = href_text_exec(out, &t, &ind);
    let gr = gradient_text_exec(out, &t, &ind, grads);
    mask_text4_exec(out, &t, &ind, masks);
    let fi = filter_text_exec(out, &t, &ind, filters);
    assert(out@ =~= start + line4(line@, memo_view(grads@), masks_rec_view(masks@), crate::props::pm_view(filters@)).0);
    (im, gr, fi)
}


fn any_attr_exec(els: &Vec<XmlElement>, key: &str) -> (b: bool)
    ensures
        b == any_attr(elements_view(els@), key@),
{
    let ghost ev = elements_view(els@);
    let mut k: usize = 0;
    while k < els.len()
        invariant
            k <= els@.len(),
            ev == elements_view(els@),
            forall|j: int| 0 <= j < k ==> !(#[trigger] attr(ev[j], key@) is Some),
        decreases els@.len() - k,
    {
        assert(ev[k as int] == element_view(els@[k as int]));
        if crate::xml::has_attr(&els[k], key) {
            return true;
        }
        k += 1;
    }
    false
}

pub(crate) fn any_named_exec(els: &Vec<XmlElement>, name: &str) -> (b: bool)
    ensures
        b == any_named(elements_view(els@), name@),
{
    let ghost ev = elements_view(els@);
    let mut k: usize = 0;
    while k < els.len()
        invariant
            k <= els@.len(),
            ev == elements_view(els@),
            forall|j: int| 0 <= j < k ==> #[trigger] ev[j].name != name@,
        decreases els@.len() - k,
    {
        assert(ev[k as int] == element_view(els@[k as int]));
        if is_text(&chars_of(els[k].name.as_str()), name) {
            assert(ev[k as int].name == name@);
            return true;
        }
        k += 1;
    }
    false
}

/// Documents whose gradient stop colours can all be read.
pub open spec fn v4_sliceable(svg: Seq<char>) -> bool {
    match xml_elements(svg) {
        Ok(els) => gradients_sliceable(els),
        Err(_) => true,
    }
}

/// Whether the gradient stop colours of `svg` can all be read.
pub fn v4_sliceable_exec(svg: &str) -> (b: bool)
    ensures
        b == v4_sliceable(svg@),
{
    match crate::xml::parse_xml(svg) {
        Ok(els) => gradients_sliceable_exec(&els),
        Err(_) => true,
    }
}

fn promote_lines(out: &mut Vec<char>, ls: &Vec<Vec<char>>, grads: &Vec<(Vec<char>, Grad)>, masks: &Vec<(Vec<char>, MaskRec)>,
    filters: &Vec<(Vec<char>, Vec<char>)>) -> (r: (bool, bool, bool))
    ensures
        ({
            let l = lines4(line_views(ls@), 0, memo_view(grads@), masks_rec_view(masks@), crate::props::pm_view(filters@));
            final(out)@ == old(out)@ + l.0 && r == (l.1, l.2, l.3)
        }),
{
    let ghost lv = line_views(ls@);
    let ghost gv = memo_view(grads@);
    let ghost mv = masks_rec_view(masks@);
    let ghost fv = crate::props::pm_view(filters@);
    let ghost total = lines4(lv, 0, gv, mv, fv);
    let ghost start = out@;
    let mut im = false;
    let mut gr = false;
    let mut fi = false;
    let mut i: usize = 0;
    while i < ls.len()
        invariant
            i <= ls@.len(),
            lv == line_views(ls@),
            gv == memo_view(grads@),
            mv == masks_rec_view(masks@),
            fv == crate::props::pm_view(filters@),
            total == lines4(lv, 0, gv, mv, fv),
            ({
                let rest = lines4(lv, i as int, gv, mv, fv);
                &&& start + total.0 == out@ + rest.0
                &&& total.1 == (im || rest.1)
                &&& total.2 == (gr || rest.2)
                &&& total.3 == (fi || rest.3)
            }),
        decreases ls@.len() - i,
    {
        let ghost before = out@;
        assert(lv[i as int] == ls@[i as int]@);
        let (a, b, c) = line4_exec(out, &ls[i], grads, masks, filters);
        proof {
            let l = line4(lv[i as int], gv, mv, fv);
            let rest = lines4(lv, i + 1, gv, mv, fv);
            assert(lines4(lv, i as int, gv, mv, fv) == (l.0 + rest.0, l.1 || rest.1, l.2 || rest.2, l.3 || rest.3));
            assert(start + total.0 =~= out@ + rest.0);
        }
        im = im || a;
        gr = gr || b;
        fi = fi || c;
        i += 1;
    }
    assert(start + total.0 =~= out@ + total.0.subrange(total.0.len() as int, total.0.len() as int));
    assert(out@ =~= start + total.0);
    (im, gr, fi)
}

/// Promotes the viewBox, transform, opacity, typography, image, gradient,
/// mask and filter semantics of `svg` into the imported `source`, and says
/// which of them the document uses.
pub fn promote4_exec(svg: &str, source: &Vec<char>) -> (r: (Vec<char>, Features))
    requires
        v4_sliceable(svg@),
    ensures
        (r.0@, r.1) == promote4(svg@, source@),
{
    let els = match crate::xml::parse_xml(svg) {
        Ok(els) => els,
        Err(_) => {
            let f = Features { viewbox: false, transforms: false, opacity: false, gradients: false, text: false, images: false,
                uses: false, filters: false };
            return (copy_chars(source), f);
        },
    };
    let ghost ev = elements_view(els@);
    let grads = gradients_exec(&els);
    let masks = masks4_exec(&els);
    let filters = filters4_exec(&els);
    let ls = split_lines(source);
    let mut out: Vec<char> = Vec::new();
    let (im, gr, fi) = promote_lines(&mut out, &ls, &grads, &masks, &filters);
    let viewbox = els.len() > 0 && crate::xml::has_attr(&els[0], "viewBox");
    proof {
        if els@.len() > 0 {
            assert(ev[0] == element_view(els@[0]));
        }
    }
    let transforms = any_attr_exec(&els, "transform");
    let opacity = any_attr_exec(&els, "opacity") || any_attr_exec(&els, "fill-opacity") || any_attr_exec(&els, "stroke-opacity");
    let text = any_named_exec(&els, "text") || any_named_exec(&els, "tspan");
    let uses = any_named_exec(&els, "use");
    let f = Features { viewbox, transforms, opacity, gradients: gr, text, images: im, uses, filters: fi };
    assert(out@ =~= promote4(svg@, source@).0);
    (out, f)
}


// ---------------------------------------------------------------------------
// The import

pub open spec fn as_info(d: DiagV, message: Seq<char>) -> DiagV {
    DiagV { severity: "info"@, message, ..d }
}

/// A diagnostic about something this pass represents natively becomes
/// information.
pub open spec fn adjust(d: DiagV, f: Features) -> DiagV {
    if d.code == "S120"@ && f.viewbox {
        as_info(d, "viewBox is represented by native SRNG viewbox/preserve-aspect-ratio semantics"@)
    } else if d.code == "S130"@ && f.transforms {
        as_info(d, "SVG transform is represented by native SRNG transform semantics"@)
    } else if d.code == "S131"@ && f.opacity && crate::srctext::contains(d.message, "opacity"@) {
        as_info(d, "opacity is represented by native SRNG opacity semantics"@)
    } else if d.code == "S131"@ && f.filters && crate::srctext::contains(d.message, "filter"@) {
        as_info(d, "supported SVG filter primitives are represented by native SRNG filter-chain semantics"@)
    } else if d.code == "S230"@ && f.gradients && crate::srctext::contains(d.message, "url(#"@) {
        as_info(d, "SVG gradient paint is mapped to native SRNG gradient semantics"@)
    } else if d.code == "S301"@ && f.text {
        as_info(d, "text is represented natively and uses deterministic vector fallback when no outline path is present"@)
    } else if d.code == "S302"@ && f.images && crate::srctext::contains(d.message, "<image>"@) {
        as_info(d, "embedded data images are represented by native SRNG image properties"@)
    } else if d.code == "S302"@ && f.uses && crate::srctext::contains(d.message, "<use>"@) {
        as_info(d, "local <use> instances are represented as native SRNG references"@)
    } else {
        d
    }
}

/// The import of this pass: the native import, its v4 promotion, local
/// `<use>` references, and the diagnostics adjusted to what is now native.
pub open spec fn import_v4_spec(svg: Seq<char>, name: Seq<char>, file_id: Option<Seq<char>>, keep: bool) -> (Seq<char>, Seq<DiagV>) {
    let (s0, d0) = crate::svg_native::native_import_spec(svg, name, file_id, keep);
    let (s1, f) = promote4(svg, s0);
    let (s2, d1) = crate::svg_use::use_refs(svg, s1);
    (s2, (d0 + d1).map_values(|d: DiagV| adjust(d, f)))
}

pub(crate) fn set_info(d: &mut ImportDiagnostic, message: &str)
    ensures
        crate::svg_import::diag_view(*final(d)) == as_info(crate::svg_import::diag_view(*old(d)), message@),
{
    d.severity = crate::text::chars_to_string_lit("info");
    d.message = crate::text::chars_to_string_lit(message);
}

fn adjust_exec(d: &mut ImportDiagnostic, f: &Features)
    ensures
        crate::svg_import::diag_view(*final(d)) == adjust(crate::svg_import::diag_view(*old(d)), *f),
{
    let code = chars_of(d.code.as_str());
    let m = chars_of(d.message.as_str());
    if is_text(&code, "S120") && f.viewbox {
        set_info(d, "viewBox is represented by native SRNG viewbox/preserve-aspect-ratio semantics");
    } else if is_text(&code, "S130") && f.transforms {
        set_info(d, "SVG transform is represented by native SRNG transform semantics");
    } else if is_text(&code, "S131") && f.opacity && crate::srctext::contains_exec(&m, "opacity") {
        set_info(d, "opacity is represented by native SRNG opacity semantics");
    } else if is_text(&code, "S131") && f.filters && crate::srctext::contains_exec(&m, "filter") {
        set_info(d, "supported SVG filter primitives are represented by native SRNG filter-chain semantics");
    } else if is_text(&code, "S230") && f.gradients && crate::srctext::contains_exec(&m, "url(#") {
        set_info(d, "SVG gradient paint is mapped to native SRNG gradient semantics");
    } else if is_text(&code, "S301") && f.text {
        set_info(d, "text is represented natively and uses deterministic vector fallback when no outline path is present");
    } else if is_text(&code, "S302") && f.images && crate::srctext::contains_exec(&m, "<image>") {
        set_info(d, "embedded data images are represented by native SRNG image properties");
    } else if is_text(&code, "S302") && f.uses && crate::srctext::contains_exec(&m, "<use>") {
        set_info(d, "local <use> instances are represented as native SRNG references");
    }
}

/// Imports SVG with viewBox, transform, opacity, typography, image,
/// gradient, mask, filter and `<use>` semantics promoted to native SRNG.
pub fn import_svg(svg: &str, source_name: &str, options: &ImportOptions) -> (r: ImportResult)
    requires
        v4_sliceable(svg@),
    ensures
        (r.source@, crate::svg_import::diags_of(r.diagnostics@)) == import_v4_spec(svg@, source_name@,
            crate::xml::opt_str_view(options.file_id), options.preserve_source_attributes),
{
    let base = crate::svg_native::import_svg(svg, source_name, options);
    let (s1, f) = promote4_exec(svg, &chars_of(base.source.as_str()));
    let mut diags = base.diagnostics;
    let s2 = crate::svg_use::promote_use_references(svg, &s1, &mut diags);
    let ghost dv0 = crate::svg_import::diags_of(diags@);
    let mut k: usize = 0;
    while k < diags.len()
        invariant
            k <= diags@.len(),
            diags@.len() == dv0.len(),
            forall|j: int| 0 <= j < k ==> #[trigger] crate::svg_import::diag_view(diags@[j]) == adjust(dv0[j], f),
            forall|j: int| k <= j < diags@.len() ==> #[trigger] crate::svg_import::diag_view(diags@[j]) == dv0[j],
        decreases diags@.len() - k,
    {
        let mut d = crate::svg_import::copy_diag(&diags[k]);
        adjust_exec(&mut d, &f);
        diags.set(k, d);
        k += 1;
    }
    assert(crate::svg_import::diags_of(diags@) =~= dv0.map_values(|d: DiagV| adjust(d, f)));
    ImportResult { source: string_of(&s2), diagnostics: diags }
}

/// The import of this pass for every document: nothing when a gradient
/// stop colour of `svg` cannot be read.
pub fn import_svg_checked(svg: &str, source_name: &str, options: &ImportOptions) -> (r: Option<ImportResult>)
    ensures
        match r {
            Some(res) => v4_sliceable(svg@) && (res.source@, crate::svg_import::diags_of(res.diagnostics@))
                == import_v4_spec(svg@, source_name@, crate::xml::opt_str_view(options.file_id),
                options.preserve_source_attributes),
            None => !v4_sliceable(svg@),
        },
{
    if v4_sliceable_exec(svg) {
        Some(import_svg(svg, source_name, options))
    } else {
        None
    }
}


// ---------------------------------------------------------------------------
// Laws

/// The v4 import keeps every diagnostic of the native import and of the
/// `<use>` pass, in order, with its code and element; it only turns some
/// into information.
pub proof fn law_v4_keeps_diagnostics(svg: Seq<char>, name: Seq<char>, file_id: Option<Seq<char>>, keep: bool)
    ensures
        ({
            let (s0, d0) = crate::svg_native::native_import_spec(svg, name, file_id, keep);
            let (s1, f) = promote4(svg, s0);
            let ds = d0 + crate::svg_use::use_refs(svg, s1).1;
            let out = import_v4_spec(svg, name, file_id, keep).1;
            &&& out.len() == ds.len()
            &&& forall|i: int| 0 <= i < ds.len() ==> #[trigger] out[i].code == ds[i].code && out[i].element == ds[i].element
                && (out[i] == ds[i] || out[i].severity == "info"@)
        }),
{
}

} // verus!
