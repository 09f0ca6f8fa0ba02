//! Native SRNG resource semantics on top of the SVG import: vector masks
//! and patterns become `fill|path` shape records, SVG-prefixed properties
//! gain native aliases, and provenance can be stripped again.
use vstd::prelude::*;
use crate::font::split_from;
use crate::formatter::{line_views, lines, split_lines, trim, trim_chars};
use crate::image::{find_char, find_char_exec};
use crate::length::{
    fmt_px_whole, parse_px, parse_px_exec, push_px_whole, px_differs, px_max0, px_scale, px_sub, px_wf, Px,
};
use crate::props::copy_chars;
use crate::resources::{lemma_find_char_some, quote, quote_spec, unquote_spec};
use crate::srctext::{
    contains, ends_with, ends_with_exec, lead_len, lead_len_exec, property_value, property_value_exec, starts_with,
    starts_with_exec, trim_start, url_fragment, url_fragment_exec,
};
use crate::svg_import::{ImportDiagnostic, ImportOptions, ImportResult};
use crate::text::{append_chars, append_str, chars_of, string_of, sub_chars};
use crate::xml::{attr, element_view, elements_view, get_attr, xml_elements, ElementView, XmlElement};

verus! {

// ---------------------------------------------------------------------------
// Numbers

/// A number attribute: trimmed, an optional `px` suffix dropped.
pub open spec fn pnum(v: Seq<char>) -> Option<Px> {
    let t = trim(v);
    let u = if ends_with(t, "px"@) { t.subrange(0, t.len() - 2) } else { t };
    parse_px(trim(u))
}

pub fn pnum_exec(v: &Vec<char>) -> (r: Option<Px>)
    ensures
        r == pnum(v@),
        r matches Some(p) ==> px_wf(p),
{
    let t = trim_chars(v);
    proof {
        reveal_strlit("px");
    }
    let u = if ends_with_exec(&t, "px") { sub_chars(&t, 0, t.len() - 2) } else { copy_chars(&t) };
    parse_px_exec(&trim_chars(&u))
}

pub open spec fn num_attr(e: ElementView, name: Seq<char>) -> Px {
    match attr(e, name) {
        Some(v) => match pnum(v) {
            Some(p) => p,
            None => crate::svg_import::zero_px(),
        },
        None => crate::svg_import::zero_px(),
    }
}

fn num_attr_exec(e: &XmlElement, name: &str) -> (r: Px)
    ensures
        r == num_attr(element_view(*e), name@),
        px_wf(r),
{
    match get_attr(e, name) {
        Some(v) => match pnum_exec(&chars_of(v.as_str())) {
            Some(p) => p,
            None => Px::Fin { neg: false, mag: 0 },
        },
        None => Px::Fin { neg: false, mag: 0 },
    }
}

pub open spec fn px_neg(a: Px) -> Px {
    match a {
        Px::Fin { neg, mag } => Px::Fin { neg: !neg, mag },
        Px::Inf { neg } => Px::Inf { neg: !neg },
        Px::NaN => Px::NaN,
    }
}

/// `a + b`.
pub open spec fn px_add(a: Px, b: Px) -> Px {
    px_sub(a, px_neg(b))
}

/// `a < b`.
pub open spec fn px_lt(a: Px, b: Px) -> bool {
    match px_sub(a, b) {
        Px::Fin { neg, mag } => neg && mag > 0,
        Px::Inf { neg } => neg,
        Px::NaN => false,
    }
}

/// `a.min(b)` for numbers that are not NaN.
pub open spec fn px_min(a: Px, b: Px) -> Px {
    if px_lt(b, a) { b } else { a }
}

/// `a <= 0.0`.
pub open spec fn px_le0(a: Px) -> bool {
    match a {
        Px::Fin { neg, mag } => neg || mag == 0,
        Px::Inf { neg } => neg,
        Px::NaN => false,
    }
}

pub(crate) fn neg_px(a: Px) -> (r: Px)
    requires
        px_wf(a),
    ensures
        r == px_neg(a),
        px_wf(r),
{
    match a {
        Px::Fin { neg, mag } => Px::Fin { neg: !neg, mag },
        Px::Inf { neg } => Px::Inf { neg: !neg },
        Px::NaN => Px::NaN,
    }
}

pub(crate) fn add_px(a: Px, b: Px) -> (r: Px)
    requires
        px_wf(a),
        px_wf(b),
    ensures
        r == px_add(a, b),
        px_wf(r),
{
    crate::length::sub_px(a, neg_px(b))
}

fn lt_px(a: Px, b: Px) -> (r: bool)
    requires
        px_wf(a),
        px_wf(b),
    ensures
        r == px_lt(a, b),
{
    match crate::length::sub_px(a, b) {
        Px::Fin { neg, mag } => neg && mag > 0,
        Px::Inf { neg } => neg,
        Px::NaN => false,
    }
}

fn min_px(a: Px, b: Px) -> (r: Px)
    requires
        px_wf(a),
        px_wf(b),
    ensures
        r == px_min(a, b),
        px_wf(r),
{
    if lt_px(b, a) { b } else { a }
}

fn le0_px(a: Px) -> (r: bool)
    ensures
        r == px_le0(a),
{
    match a {
        Px::Fin { neg, mag } => neg || mag == 0,
        Px::Inf { neg } => neg,
        Px::NaN => false,
    }
}

// ---------------------------------------------------------------------------
// Shape records

pub open spec fn f(p: Px) -> Seq<char> {
    fmt_px_whole(p)
}

pub open spec fn rounded_rect_path(x: Px, y: Px, w: Px, h: Px, rx: Px, ry: Px) -> Seq<char> {
    if px_le0(rx) || px_le0(ry) {
        "M "@ + f(x) + " "@ + f(y) + " h "@ + f(w) + " v "@ + f(h) + " h "@ + f(px_neg(w)) + " Z"@
    } else {
        let right = px_add(x, w);
        let bottom = px_add(y, h);
        "M "@ + f(px_add(x, rx)) + " "@ + f(y) + " H "@ + f(px_sub(right, rx)) + " A "@ + f(rx) + " "@ + f(ry)
            + " 0 0 1 "@ + f(right) + " "@ + f(px_add(y, ry)) + " V "@ + f(px_sub(bottom, ry)) + " A "@ + f(rx) + " "@
            + f(ry) + " 0 0 1 "@ + f(px_sub(right, rx)) + " "@ + f(bottom) + " H "@ + f(px_add(x, rx)) + " A "@ + f(rx)
            + " "@ + f(ry) + " 0 0 1 "@ + f(x) + " "@ + f(px_sub(bottom, ry)) + " V "@ + f(px_add(y, ry)) + " A "@
            + f(rx) + " "@ + f(ry) + " 0 0 1 "@ + f(px_add(x, rx)) + " "@ + f(y) + " Z"@
    }
}

pub open spec fn ellipse_path(cx: Px, cy: Px, rx: Px, ry: Px) -> Seq<char> {
    "M "@ + f(px_sub(cx, rx)) + " "@ + f(cy) + " A "@ + f(rx) + " "@ + f(ry) + " 0 1 0 "@ + f(px_add(cx, rx)) + " "@
        + f(cy) + " A "@ + f(rx) + " "@ + f(ry) + " 0 1 0 "@ + f(px_sub(cx, rx)) + " "@ + f(cy) + " Z"@
}

/// `M x0 y0` then ` L x y` per further pair, with the whole-number display.
pub open spec fn poly_pairs(v: Seq<Px>, i: int) -> Seq<char>
    decreases v.len() - i,
{
    if i < 0 || i + 1 >= v.len() {
        Seq::empty()
    } else {
        " L "@ + f(v[i]) + " "@ + f(v[i + 1]) + poly_pairs(v, i + 2)
    }
}

pub open spec fn poly_path(points: Seq<char>) -> Option<Seq<char>> {
    match crate::length::number_list(points, true) {
        Some(v) => if v.len() < 2 || v.len() % 2 != 0 {
            None
        } else {
            Some("M "@ + f(v[0]) + " "@ + f(v[1]) + poly_pairs(v, 2))
        },
        None => None,
    }
}

pub open spec fn half(p: Px) -> Px {
    px_scale(p, 1, 2)
}

/// The path data of a basic shape element.
pub open spec fn shape_path(e: ElementView) -> Option<Seq<char>> {
    let tag = e.name;
    if tag == "path"@ {
        attr(e, "d"@)
    } else if tag == "rect"@ {
        let w = px_max0(num_attr(e, "width"@));
        let h = px_max0(num_attr(e, "height"@));
        let rx = px_min(px_max0(num_attr(e, "rx"@)), half(w));
        let ry0 = match attr(e, "ry"@) {
            Some(v) => match pnum(v) {
                Some(p) => p,
                None => rx,
            },
            None => rx,
        };
        let ry = px_min(px_max0(ry0), half(h));
        Some(rounded_rect_path(num_attr(e, "x"@), num_attr(e, "y"@), w, h, rx, ry))
    } else if tag == "circle"@ {
        let r = px_max0(num_attr(e, "r"@));
        Some(ellipse_path(num_attr(e, "cx"@), num_attr(e, "cy"@), r, r))
    } else if tag == "ellipse"@ {
        Some(ellipse_path(num_attr(e, "cx"@), num_attr(e, "cy"@), px_max0(num_attr(e, "rx"@)), px_max0(num_attr(e, "ry"@))))
    } else if tag == "line"@ {
        Some("M "@ + f(num_attr(e, "x1"@)) + " "@ + f(num_attr(e, "y1"@)) + " L "@ + f(num_attr(e, "x2"@)) + " "@
            + f(num_attr(e, "y2"@)))
    } else if tag == "polyline"@ || tag == "polygon"@ {
        match attr(e, "points"@) {
            Some(pts) => match poly_path(pts) {
                Some(d) => Some(if tag == "polygon"@ { d + " Z"@ } else { d }),
                None => None,
            },
            None => None,
        }
    } else {
        None
    }
}

/// The last `fill` entry of a `style` attribute's pieces, over `fill`.
pub open spec fn style_fill(fill: Option<Seq<char>>, parts: Seq<Seq<char>>) -> Option<Seq<char>>
    decreases parts.len(),
{
    if parts.len() == 0 {
        fill
    } else {
        let before = style_fill(fill, parts.drop_last());
        let p = parts.last();
        let c = find_char(p, ':', 0);
        if c < p.len() && trim(p.subrange(0, c)) == "fill"@ {
            Some(trim(p.subrange(c + 1, p.len() as int)))
        } else {
            before
        }
    }
}

pub open spec fn one_px() -> Px {
    Px::Fin { neg: false, mag: 1000000000 }
}

/// The solid fill of a shape, when it is opaque and not a paint server.
pub open spec fn shape_fill(e: ElementView) -> Option<Seq<char>> {
    let translucent = match attr(e, "opacity"@) {
        Some(v) => match pnum(v) {
            Some(o) => px_differs(o, one_px()),
            None => false,
        },
        None => false,
    };
    if translucent {
        None
    } else {
        let fill = match attr(e, "style"@) {
            Some(st) => style_fill(attr(e, "fill"@), split_from(st, ';', 0)),
            None => attr(e, "fill"@),
        };
        let fill = match fill {
            Some(v) => v,
            None => "#000000"@,
        };
        if fill == "none"@ || starts_with(fill, "url("@) { None } else { Some(fill) }
    }
}

/// The `fill|path` records of the child elements of element `i` from `j`
/// on, appended to `acc`; `None` when a child cannot be recorded.
pub open spec fn records_from(els: Seq<ElementView>, i: int, j: int, acc: Seq<Seq<char>>) -> Option<Seq<Seq<char>>>
    decreases els.len() - j,
{
    if i < 0 || j <= i || j >= els.len() {
        Some(acc)
    } else if els[j].parent == Some(els[i].id) {
        let c = els[j];
        if attr(c, "transform"@) is Some || shape_path(c) is None || shape_fill(c) is None {
            None
        } else {
            records_from(els, i, j + 1, acc.push(shape_fill(c)->0 + "|"@ + shape_path(c)->0))
        }
    } else {
        records_from(els, i, j + 1, acc)
    }
}

/// The records joined with newlines.
pub open spec fn join_lines(rs: Seq<Seq<char>>) -> Seq<char>
    decreases rs.len(),
{
    if rs.len() == 0 {
        Seq::empty()
    } else if rs.len() == 1 {
        rs[0]
    } else {
        join_lines(rs.drop_last()) + "\n"@ + rs.last()
    }
}

/// The shape records of the children of element `i`, one per line; `None`
/// when there is none or one cannot be recorded.
pub open spec fn serialize_shapes(els: Seq<ElementView>, i: int) -> Option<Seq<char>> {
    match records_from(els, i, i + 1, Seq::empty()) {
        Some(rs) => if rs.len() == 0 { None } else { Some(join_lines(rs)) },
        None => None,
    }
}

// ---------------------------------------------------------------------------
// Shape records, executable

pub(crate) fn push_f(out: &mut Vec<char>, p: Px)
    requires
        px_wf(p),
    ensures
        final(out)@ == old(out)@ + f(p),
{
    push_px_whole(out, p);
}

pub(crate) fn push_sp_f(out: &mut Vec<char>, sep: &str, p: Px)
    requires
        px_wf(p),
    ensures
        final(out)@ == old(out)@ + sep@ + f(p),
{
    let ghost start = out@;
    append_str(out, sep);
    push_px_whole(out, p);
    assert(out@ =~= start + sep@ + f(p));
}

fn rounded_rect_exec(x: Px, y: Px, w: Px, h: Px, rx: Px, ry: Px) -> (r: Vec<char>)
    requires
        px_wf(x),
        px_wf(y),
        px_wf(w),
        px_wf(h),
        px_wf(rx),
        px_wf(ry),
    ensures
        r@ == rounded_rect_path(x, y, w, h, rx, ry),
{
    let mut out = chars_of("M ");
    if le0_px(rx) || le0_px(ry) {
        push_f(&mut out, x);
        push_sp_f(&mut out, " ", y);
        push_sp_f(&mut out, " h ", w);
        push_sp_f(&mut out, " v ", h);
        push_sp_f(&mut out, " h ", neg_px(w));
        append_str(&mut out, " Z");
        return out;
    }
    let right = add_px(x, w);
    let bottom = add_px(y, h);
    push_f(&mut out, add_px(x, rx));
    push_sp_f(&mut out, " ", y);
    push_sp_f(&mut out, " H ", crate::length::sub_px(right, rx));
    push_sp_f(&mut out, " A ", rx);
    push_sp_f(&mut out, " ", ry);
    push_sp_f(&mut out, " 0 0 1 ", right);
    push_sp_f(&mut out, " ", add_px(y, ry));
    push_sp_f(&mut out, " V ", crate::length::sub_px(bottom, ry));
    push_sp_f(&mut out, " A ", rx);
    push_sp_f(&mut out, " ", ry);
    push_sp_f(&mut out, " 0 0 1 ", crate::length::sub_px(right, rx));
    push_sp_f(&mut out, " ", bottom);
    push_sp_f(&mut out, " H ", add_px(x, rx));
    push_sp_f(&mut out, " A ", rx);
    push_sp_f(&mut out, " ", ry);
    push_sp_f(&mut out, " 0 0 1 ", x);
    push_sp_f(&mut out, " ", crate::length::sub_px(bottom, ry));
    push_sp_f(&mut out, " V ", add_px(y, ry));
    push_sp_f(&mut out, " A ", rx);
    push_sp_f(&mut out, " ", ry);
    push_sp_f(&mut out, " 0 0 1 ", add_px(x, rx));
    push_sp_f(&mut out, " ", y);
    append_str(&mut out, " Z");
    out
}

fn ellipse_exec(cx: Px, cy: Px, rx: Px, ry: Px) -> (r: Vec<char>)
    requires
        px_wf(cx),
        px_wf(cy),
        px_wf(rx),
        px_wf(ry),
    ensures
        r@ == ellipse_path(cx, cy, rx, ry),
{
    let mut out = chars_of("M ");
    push_f(&mut out, crate::length::sub_px(cx, rx));
    push_sp_f(&mut out, " ", cy);
    push_sp_f(&mut out, " A ", rx);
    push_sp_f(&mut out, " ", ry);
    push_sp_f(&mut out, " 0 1 0 ", add_px(cx, rx));
    push_sp_f(&mut out, " ", cy);
    push_sp_f(&mut out, " A ", rx);
    push_sp_f(&mut out, " ", ry);
    push_sp_f(&mut out, " 0 1 0 ", crate::length::sub_px(cx, rx));
    push_sp_f(&mut out, " ", cy);
    append_str(&mut out, " Z");
    out
}

pub(crate) fn poly_exec(points: &Vec<char>) -> (r: Option<Vec<char>>)
    ensures
        match poly_path(points@) {
            Some(d) => r is Some && r->0@ == d,
            None => r is None,
        },
{
    let v = match crate::length::parse_number_list(points, true) {
        Some(v) => v,
        None => {
            return None;
        },
    };
    let n = v.len();
    if n < 2 || n % 2 != 0 {
        return None;
    }
    let mut out = chars_of("M ");
    push_f(&mut out, v[0]);
    push_sp_f(&mut out, " ", v[1]);
    let ghost head = out@;
    let mut i: usize = 2;
    while i + 1 < n
        invariant
            2 <= i <= n,
            n == v@.len(),
            n % 2 == 0,
            i % 2 == 0,
            crate::length::px_all_wf(v@),
            out@ + poly_pairs(v@, i as int) == head + poly_pairs(v@, 2),
        decreases n - i,
    {
        let ghost before = out@;
        push_sp_f(&mut out, " L ", v[i]);
        push_sp_f(&mut out, " ", v[i + 1]);
        assert(poly_pairs(v@, i as int) == " L "@ + f(v@[i as int]) + " "@ + f(v@[i + 1]) + poly_pairs(v@, i + 2));
        assert(out@ + poly_pairs(v@, i + 2) =~= before + poly_pairs(v@, i as int));
        i += 2;
    }
    assert(poly_pairs(v@, i as int) == Seq::<char>::empty());
    assert(out@ =~= head + poly_pairs(v@, 2));
    Some(out)
}

fn is_text(v: &Vec<char>, s: &str) -> (b: bool)
    ensures
        b == (v@ == s@),
{
    crate::parser::chars_eq(v, &chars_of(s))
}

pub fn shape_path_exec(e: &XmlElement) -> (r: Option<Vec<char>>)
    ensures
        match shape_path(element_view(*e)) {
            Some(d) => r is Some && r->0@ == d,
            None => r is None,
        },
{
    let tag = chars_of(e.name.as_str());
    if is_text(&tag, "path") {
        match get_attr(e, "d") {
            Some(d) => Some(chars_of(d.as_str())),
            None => None,
        }
    } else if is_text(&tag, "rect") {
        let w = crate::length::max0_px(num_attr_exec(e, "width"));
        let h = crate::length::max0_px(num_attr_exec(e, "height"));
        let rx = min_px(crate::length::max0_px(num_attr_exec(e, "rx")), crate::length::scale_px(w, 1, 2));
        let ry0 = match get_attr(e, "ry") {
            Some(v) => match pnum_exec(&chars_of(v.as_str())) {
                Some(p) => p,
                None => rx,
            },
            None => rx,
        };
        let ry = min_px(crate::length::max0_px(ry0), crate::length::scale_px(h, 1, 2));
        Some(rounded_rect_exec(num_attr_exec(e, "x"), num_attr_exec(e, "y"), w, h, rx, ry))
    } else if is_text(&tag, "circle") {
        let r = crate::length::max0_px(num_attr_exec(e, "r"));
        Some(ellipse_exec(num_attr_exec(e, "cx"), num_attr_exec(e, "cy"), r, r))
    } else if is_text(&tag, "ellipse") {
        Some(ellipse_exec(num_attr_exec(e, "cx"), num_attr_exec(e, "cy"), crate::length::max0_px(num_attr_exec(e, "rx")),
            crate::length::max0_px(num_attr_exec(e, "ry"))))
    } else if is_text(&tag, "line") {
        let mut out = chars_of("M ");
        push_f(&mut out, num_attr_exec(e, "x1"));
        push_sp_f(&mut out, " ", num_attr_exec(e, "y1"));
        push_sp_f(&mut out, " L ", num_attr_exec(e, "x2"));
        push_sp_f(&mut out, " ", num_attr_exec(e, "y2"));
        Some(out)
    } else if is_text(&tag, "polyline") || is_text(&tag, "polygon") {
        match get_attr(e, "points") {
            Some(pts) => match poly_exec(&chars_of(pts.as_str())) {
                Some(mut d) => {
                    if is_text(&tag, "polygon") {
                        append_str(&mut d, " Z");
                    }
                    Some(d)
                },
                None => None,
            },
            None => None,
        }
    } else {
        None
    }
}

pub open spec fn opt_chars(o: Option<Vec<char>>) -> Option<Seq<char>> {
    match o {
        Some(v) => Some(v@),
        None => None,
    }
}

fn style_fill_exec(fill: Option<Vec<char>>, parts: &Vec<Vec<char>>) -> (r: Option<Vec<char>>)
    ensures
        match style_fill(opt_chars(fill), line_views(parts@)) {
            Some(v) => r is Some && r->0@ == v,
            None => r is None,
        },
{
    let ghost fv: Option<Seq<char>> = opt_chars(fill);
    let ghost pv = line_views(parts@);
    let mut cur = fill;
    let mut j: usize = 0;
    while j < parts.len()
        invariant
            j <= parts@.len(),
            pv == line_views(parts@),
            opt_chars(cur) == style_fill(fv, pv.subrange(0, j as int)),
        decreases parts@.len() - j,
    {
        assert(pv.subrange(0, j + 1).drop_last() =~= pv.subrange(0, j as int));
        let p = &parts[j];
        assert(pv[j as int] == p@);
        let c = find_char_exec(p, ':', 0);
        if c < p.len() && is_text(&trim_chars(&sub_chars(p, 0, c)), "fill") {
            cur = Some(trim_chars(&sub_chars(p, c + 1, p.len())));
        }
        j += 1;
    }
    assert(pv.subrange(0, parts@.len() as int) =~= pv);
    cur
}

pub fn shape_fill_exec(e: &XmlElement) -> (r: Option<Vec<char>>)
    ensures
        match shape_fill(element_view(*e)) {
            Some(d) => r is Some && r->0@ == d,
            None => r is None,
        },
{
    let translucent = match get_attr(e, "opacity") {
        Some(v) => match pnum_exec(&chars_of(v.as_str())) {
            Some(o) => crate::length::differs_px(o, Px::Fin { neg: false, mag: 1000000000 }),
            None => false,
        },
        None => false,
    };
    if translucent {
        return None;
    }
    let attr_fill = match get_attr(e, "fill") {
        Some(v) => Some(chars_of(v.as_str())),
        None => None,
    };
    let fill = match get_attr(e, "style") {
        Some(st) => style_fill_exec(attr_fill, &crate::svg_import::split_chars(&chars_of(st.as_str()), ';')),
        None => attr_fill,
    };
    let fill = match fill {
        Some(v) => v,
        None => chars_of("#000000"),
    };
    if is_text(&fill, "none") || starts_with_exec(&fill, "url(") {
        None
    } else {
        Some(fill)
    }
}

proof fn lemma_records_none(els: Seq<ElementView>, i: int, j: int, acc: Seq<Seq<char>>)
    requires
        i >= 0,
        i < j < els.len(),
        els[j].parent == Some(els[i].id),
        attr(els[j], "transform"@) is Some || shape_path(els[j]) is None || shape_fill(els[j]) is None,
    ensures
        records_from(els, i, j, acc) is None,
{
}

/// The shape records of the children of element `i`.
pub fn serialize_shapes_exec(els: &Vec<XmlElement>, i: usize) -> (r: Option<Vec<char>>)
    requires
        i < els@.len(),
    ensures
        match serialize_shapes(elements_view(els@), i as int) {
            Some(d) => r is Some && r->0@ == d,
            None => r is None,
        },
{
    let ghost ev = elements_view(els@);
    let n = els.len();
    let mut recs: Vec<Vec<char>> = Vec::new();
    let mut j: usize = i + 1;
    let ghost target = records_from(ev, i as int, i + 1, Seq::empty());
    assert(line_views(recs@) =~= Seq::<Seq<char>>::empty());
    while j < n
        invariant
            i < j <= n,
            n == els@.len(),
            ev == elements_view(els@),
            records_from(ev, i as int, j as int, line_views(recs@)) == target,
            target == records_from(ev, i as int, i + 1, Seq::empty()),
        decreases n - j,
    {
        assert(ev[j as int] == element_view(els@[j as int]));
        assert(ev[i as int] == element_view(els@[i as int]));
        if els[j].parent == Some(els[i].id) {
            let c = &els[j];
            if crate::xml::has_attr(c, "transform") {
                proof {
                    lemma_records_none(ev, i as int, j as int, line_views(recs@));
                }
                return None;
            }
            let path = match shape_path_exec(c) {
                Some(p) => p,
                None => {
                    proof {
                        lemma_records_none(ev, i as int, j as int, line_views(recs@));
                    }
                    return None;
                },
            };
            let fill = match shape_fill_exec(c) {
                Some(v) => v,
                None => {
                    proof {
                        lemma_records_none(ev, i as int, j as int, line_views(recs@));
                    }
                    return None;
                },
            };
            let mut rec = fill;
            rec.push('|');
            append_chars(&mut rec, &path);
            let ghost before = line_views(recs@);
            proof {
                reveal_strlit("|");
            }
            assert(rec@ =~= shape_fill(ev[j as int])->0 + "|"@ + shape_path(ev[j as int])->0);
            recs.push(rec);
            assert(line_views(recs@) =~= before.push(rec@));
        }
        j += 1;
    }
    let ghost rv = line_views(recs@);
    if recs.len() == 0 {
        return None;
    }
    let mut out = copy_chars(&recs[0]);
    let mut k: usize = 1;
    assert(rv.subrange(0, 1) =~= seq![rv[0]]);
    while k < recs.len()
        invariant
            1 <= k <= recs@.len(),
            rv == line_views(recs@),
            out@ == join_lines(rv.subrange(0, k as int)),
        decreases recs@.len() - k,
    {
        assert(rv.subrange(0, k + 1).drop_last() =~= rv.subrange(0, k as int));
        out.push('\n');
        append_chars(&mut out, &recs[k]);
        proof {
            reveal_strlit("\n");
        }
        assert(out@ =~= join_lines(rv.subrange(0, k + 1)));
        k += 1;
    }
    assert(rv.subrange(0, recs@.len() as int) =~= rv);
    Some(out)
}

// ---------------------------------------------------------------------------
// Masks and patterns

/// The first `mask-type` entry among the pieces of a `style` attribute.
pub open spec fn mask_type_entry(parts: Seq<Seq<char>>) -> Option<Seq<char>>
    decreases parts.len(),
{
    if parts.len() == 0 {
        None
    } else {
        let p = parts[0];
        let c = find_char(p, ':', 0);
        if c < p.len() && trim(p.subrange(0, c)) == "mask-type"@ {
            Some(trim(p.subrange(c + 1, p.len() as int)))
        } else {
            mask_type_entry(parts.drop_first())
        }
    }
}

/// `luminance` or `alpha`, as the mask's style or attribute says.
pub open spec fn mask_mode(e: ElementView) -> Seq<char> {
    let from_style = match attr(e, "style"@) {
        Some(st) => mask_type_entry(split_from(st, ';', 0)),
        None => None,
    };
    match from_style {
        Some(m) => m,
        None => match attr(e, "mask-type"@) {
            Some(m) => m,
            None => "luminance"@,
        },
    }
}

/// The vector masks among the first `k` elements: id, records, mode.
pub open spec fn doc_masks(els: Seq<ElementView>, k: int) -> Seq<(Seq<char>, Seq<char>, Seq<char>)>
    decreases k,
{
    if k <= 0 || k > els.len() {
        Seq::empty()
    } else {
        let prev = doc_masks(els, k - 1);
        let e = els[k - 1];
        if e.name == "mask"@ && attr(e, "id"@) is Some && serialize_shapes(els, k - 1) is Some {
            prev.push((attr(e, "id"@)->0, serialize_shapes(els, k - 1)->0, mask_mode(e)))
        } else {
            prev
        }
    }
}

/// The vector masks in the preserved XML of one SRNG line.
pub open spec fn line_masks(line: Seq<char>) -> Seq<(Seq<char>, Seq<char>, Seq<char>)> {
    match property_value(trim_start(line), "svg-source-xml:"@) {
        Some(xml) => match xml_elements(xml) {
            Ok(els) => doc_masks(els, els.len() as int),
            Err(_) => Seq::empty(),
        },
        None => Seq::empty(),
    }
}

pub open spec fn collect_masks(ls: Seq<Seq<char>>) -> Seq<(Seq<char>, Seq<char>, Seq<char>)>
    decreases ls.len(),
{
    if ls.len() == 0 {
        Seq::empty()
    } else {
        collect_masks(ls.drop_last()) + line_masks(ls.last())
    }
}

/// The records and mode of the last mask found with this id.
pub open spec fn mask_get(ms: Seq<(Seq<char>, Seq<char>, Seq<char>)>, id: Seq<char>) -> Option<(Seq<char>, Seq<char>)>
    decreases ms.len(),
{
    if ms.len() == 0 {
        None
    } else if ms.last().0 == id {
        Some((ms.last().1, ms.last().2))
    } else {
        mask_get(ms.drop_last(), id)
    }
}

pub open spec fn first_named(els: Seq<ElementView>, name: Seq<char>, k: int) -> Option<int>
    decreases els.len() - k,
{
    if k < 0 || k >= els.len() {
        None
    } else if els[k].name == name {
        Some(k)
    } else {
        first_named(els, name, k + 1)
    }
}

/// The records, units and content units of the first pattern in `xml`.
pub open spec fn native_pattern(xml: Seq<char>) -> Option<(Seq<char>, Seq<char>, Seq<char>)> {
    match xml_elements(xml) {
        Ok(els) => match first_named(els, "pattern"@, 0) {
            Some(i) => match serialize_shapes(els, i) {
                Some(d) => Some((d, match attr(els[i], "patternUnits"@) {
                    Some(u) => u,
                    None => "objectBoundingBox"@,
                }, match attr(els[i], "patternContentUnits"@) {
                    Some(u) => u,
                    None => "userSpaceOnUse"@,
                })),
                None => None,
            },
            None => None,
        },
        Err(_) => None,
    }
}

fn mask_mode_exec(e: &XmlElement) -> (r: Vec<char>)
    ensures
        r@ == mask_mode(element_view(*e)),
{
    match get_attr(e, "style") {
        Some(st) => {
            let parts = crate::svg_import::split_chars(&chars_of(st.as_str()), ';');
            let ghost pv = line_views(parts@);
            let mut j: usize = 0;
            assert(pv.subrange(0, parts@.len() as int) =~= pv);
            while j < parts.len()
                invariant
                    j <= parts@.len(),
                    pv == line_views(parts@),
                    pv == split_from(st@, ';', 0),
                    attr(element_view(*e), "style"@) == Some(st@),
                    mask_type_entry(pv.subrange(j as int, pv.len() as int)) == mask_type_entry(pv),
                decreases parts@.len() - j,
            {
                assert(pv.subrange(j as int, pv.len() as int).drop_first() =~= pv.subrange(j + 1, pv.len() as int));
                let p = &parts[j];
                assert(pv[j as int] == p@);
                let c = find_char_exec(p, ':', 0);
                if c < p.len() && is_text(&trim_chars(&sub_chars(p, 0, c)), "mask-type") {
                    return trim_chars(&sub_chars(p, c + 1, p.len()));
                }
                j += 1;
            }
            assert(pv.subrange(j as int, pv.len() as int) =~= Seq::<Seq<char>>::empty());
        },
        None => {},
    }
    match get_attr(e, "mask-type") {
        Some(m) => chars_of(m.as_str()),
        None => chars_of("luminance"),
    }
}

fn doc_masks_exec(els: &Vec<XmlElement>, out: &mut Vec<(Vec<char>, Vec<char>, Vec<char>)>)
    ensures
        masks_view(final(out)@) == masks_view(old(out)@) + doc_masks(elements_view(els@), els@.len() as int),
{
    let ghost ev = elements_view(els@);
    let ghost start = masks_view(out@);
    let mut k: usize = 0;
    while k < els.len()
        invariant
            k <= els@.len(),
            ev == elements_view(els@),
            masks_view(out@) == start + doc_masks(ev, k as int),
        decreases els@.len() - k,
    {
        let e = &els[k];
        assert(ev[k as int] == element_view(*e));
        if is_text(&chars_of(e.name.as_str()), "mask") {
            match get_attr(e, "id") {
                Some(id) => match serialize_shapes_exec(els, k) {
                    Some(d) => {
                        let ghost before = masks_view(out@);
                        let m = mask_mode_exec(e);
                        out.push((chars_of(id.as_str()), d, m));
                        assert(masks_view(out@) =~= before.push((id@, d@, m@)));
                    },
                    None => {},
                },
                None => {},
            }
        }
        k += 1;
    }
}

pub open spec fn masks_view(v: Seq<(Vec<char>, Vec<char>, Vec<char>)>) -> Seq<(Seq<char>, Seq<char>, Seq<char>)> {
    v.map_values(|m: (Vec<char>, Vec<char>, Vec<char>)| (m.0@, m.1@, m.2@))
}

fn collect_masks_exec(ls: &Vec<Vec<char>>) -> (r: Vec<(Vec<char>, Vec<char>, Vec<char>)>)
    ensures
        masks_view(r@) == collect_masks(line_views(ls@)),
{
    let ghost lv = line_views(ls@);
    let mut out: Vec<(Vec<char>, Vec<char>, Vec<char>)> = Vec::new();
    let mut i: usize = 0;
    while i < ls.len()
        invariant
            i <= ls@.len(),
            lv == line_views(ls@),
            masks_view(out@) == collect_masks(lv.subrange(0, i as int)),
        decreases ls@.len() - i,
    {
        assert(lv.subrange(0, i + 1).drop_last() =~= lv.subrange(0, i as int));
        let line = &ls[i];
        assert(lv[i as int] == line@);
        let lead = lead_len_exec(line);
        let t = sub_chars(line, lead, line.len());
        match property_value_exec(&t, "svg-source-xml:") {
            Some(xml) => match crate::xml::parse_xml(string_of(&xml).as_str()) {
                Ok(els) => doc_masks_exec(&els, &mut out),
                Err(_) => {
                    assert(masks_view(out@) =~= masks_view(out@) + Seq::<(Seq<char>, Seq<char>, Seq<char>)>::empty());
                },
            },
            None => {
                assert(masks_view(out@) =~= masks_view(out@) + Seq::<(Seq<char>, Seq<char>, Seq<char>)>::empty());
            },
        }
        i += 1;
    }
    assert(lv.subrange(0, ls@.len() as int) =~= lv);
    out
}

fn mask_get_exec(ms: &Vec<(Vec<char>, Vec<char>, Vec<char>)>, id: &Vec<char>) -> (r: Option<(Vec<char>, Vec<char>)>)
    ensures
        match mask_get(masks_view(ms@), id@) {
            Some((d, m)) => r is Some && r.unwrap().0@ == d && r.unwrap().1@ == m,
            None => r is None,
        },
{
    let ghost mv = masks_view(ms@);
    let mut k: usize = ms.len();
    assert(mv.subrange(0, k as int) =~= mv);
    while k > 0
        invariant
            k <= ms@.len(),
            mv == masks_view(ms@),
            mask_get(mv.subrange(0, k as int), id@) == mask_get(mv, id@),
        decreases k,
    {
        assert(mv.subrange(0, k as int).drop_last() =~= mv.subrange(0, k - 1));
        if crate::parser::chars_eq(&ms[k - 1].0, id) {
            return Some((copy_chars(&ms[k - 1].1), copy_chars(&ms[k - 1].2)));
        }
        k -= 1;
    }
    None
}

fn native_pattern_exec(xml: &Vec<char>) -> (r: Option<(Vec<char>, Vec<char>, Vec<char>)>)
    ensures
        match native_pattern(xml@) {
            Some((d, u, c)) => r is Some && r.unwrap().0@ == d && r.unwrap().1@ == u && r.unwrap().2@ == c,
            None => r is None,
        },
{
    let text = string_of(xml);
    let els = match crate::xml::parse_xml(text.as_str()) {
        Ok(els) => els,
        Err(_) => {
            return None;
        },
    };
    let ghost ev = elements_view(els@);
    assert(xml_elements(xml@) == Ok::<Seq<ElementView>, Seq<char>>(ev));
    let mut k: usize = 0;
    while k < els.len()
        invariant
            k <= els@.len(),
            ev == elements_view(els@),
            xml_elements(xml@) == Ok::<Seq<ElementView>, Seq<char>>(ev),
            first_named(ev, "pattern"@, k as int) == first_named(ev, "pattern"@, 0),
        decreases els@.len() - k,
    {
        assert(ev[k as int] == element_view(els@[k as int]));
        if is_text(&chars_of(els[k].name.as_str()), "pattern") {
            let d = match serialize_shapes_exec(&els, k) {
                Some(d) => d,
                None => {
                    return None;
                },
            };
            let units = match get_attr(&els[k], "patternUnits") {
                Some(u) => chars_of(u.as_str()),
                None => chars_of("objectBoundingBox"),
            };
            let content = match get_attr(&els[k], "patternContentUnits") {
                Some(u) => chars_of(u.as_str()),
                None => chars_of("userSpaceOnUse"),
            };
            return Some((d, units, content));
        }
        k += 1;
    }
    None
}

// ---------------------------------------------------------------------------
// Promotion

pub open spec fn alias_prefix(i: int) -> Seq<char> {
    if i == 0 { "svg-pattern-ref:"@ } else if i == 1 { "svg-pattern-width:"@ } else if i == 2 { "svg-pattern-height:"@ }
    else if i == 3 { "svg-pattern-source-xml:"@ } else if i == 4 { "svg-mask-ref:"@ } else if i == 5 { "svg-mask-mode:"@ }
    else if i == 6 { "svg-attr-mask:"@ } else if i == 7 { "svg-source-tag:"@ } else { "svg-source-xml:"@ }
}

pub open spec fn alias_key(i: int) -> Seq<char> {
    if i == 0 { "pattern-ref:"@ } else if i == 1 { "pattern-width:"@ } else if i == 2 { "pattern-height:"@ }
    else if i == 3 { "pattern-source:"@ } else if i == 4 { "mask-ref:"@ } else if i == 5 { "mask-mode:"@ }
    else if i == 6 { "mask-ref:"@ } else if i == 7 { "source-tag:"@ } else { "source-data:"@ }
}

/// The native key of the first provenance prefix of `t` among those from
/// `i` on, and the rest of the line after it.
pub open spec fn alias_from(t: Seq<char>, i: int) -> Option<(Seq<char>, Seq<char>)>
    decreases 9 - i,
{
    if i < 0 || i >= 9 {
        None
    } else if starts_with(t, alias_prefix(i)) {
        Some((alias_key(i), t.subrange(alias_prefix(i).len() as int, t.len() as int)))
    } else {
        alias_from(t, i + 1)
    }
}

pub open spec fn prop_line(indent: Seq<char>, key: Seq<char>, value: Seq<char>) -> Seq<char> {
    indent + key + ": "@ + quote_spec(value) + ";\n"@
}

/// What one source line becomes, and whether mask data has been written for
/// the current block.
/// The native alias line of a provenance property line.
pub open spec fn alias_text(t: Seq<char>, ind: Seq<char>) -> Seq<char> {
    match alias_from(t, 0) {
        Some((k, rest)) => ind + k + rest + "\n"@,
        None => Seq::empty(),
    }
}

/// The pattern records that follow an `svg-pattern-source-xml` line.
pub open spec fn pattern_text(t: Seq<char>, ind: Seq<char>) -> Seq<char> {
    if starts_with(t, "svg-pattern-source-xml:"@) {
        match property_value(t, "svg-pattern-source-xml:"@) {
            Some(xml) => match native_pattern(xml) {
                Some((d, u, c)) => prop_line(ind, "pattern-data"@, d) + prop_line(ind, "pattern-units"@, u)
                    + prop_line(ind, "pattern-content-units"@, c),
                None => Seq::empty(),
            },
            None => Seq::empty(),
        }
    } else {
        Seq::empty()
    }
}

/// The mask records that follow the first mask reference of a block, and
/// whether the block has them now.
pub open spec fn mask_text(t: Seq<char>, ind: Seq<char>, masks: Seq<(Seq<char>, Seq<char>, Seq<char>)>, e1: bool) -> (Seq<char>, bool) {
    if !e1 && (starts_with(t, "svg-attr-mask:"@) || starts_with(t, "svg-mask-ref:"@)) {
        let prefix = if starts_with(t, "svg-attr-mask:"@) { "svg-attr-mask:"@ } else { "svg-mask-ref:"@ };
        let found = match property_value(t, prefix) {
            Some(raw) => match url_fragment(raw) {
                Some(id) => mask_get(masks, id),
                None => None,
            },
            None => None,
        };
        match found {
            Some((d, m)) => (prop_line(ind, "mask-data"@, d) + prop_line(ind, "mask-type"@, m), true),
            None => (Seq::empty(), e1),
        }
    } else {
        (Seq::empty(), e1)
    }
}

/// One line of the promotion: the line itself, then its native alias,
/// pattern records and mask records; and whether the current block has its
/// mask records.
pub open spec fn line_step(line: Seq<char>, masks: Seq<(Seq<char>, Seq<char>, Seq<char>)>, emitted: bool) -> (Seq<char>, bool) {
    let t = trim_start(line);
    let ind = line.subrange(0, lead_len(line));
    let e1 = if ends_with(t, "{"@) { false } else { emitted };
    let m = mask_text(t, ind, masks, e1);
    (line + "\n"@ + alias_text(t, ind) + pattern_text(t, ind) + m.0, m.1)
}

pub open spec fn promote_from(ls: Seq<Seq<char>>, i: int, masks: Seq<(Seq<char>, Seq<char>, Seq<char>)>, emitted: bool) -> Seq<char>
    decreases ls.len() - i,
{
    if i < 0 || i >= ls.len() {
        Seq::empty()
    } else {
        let (o, e) = line_step(ls[i], masks, emitted);
        o + promote_from(ls, i + 1, masks, e)
    }
}

/// The source with native aliases and vector mask and pattern records added
/// after the lines they come from.
pub open spec fn promote_native(source: Seq<char>) -> Seq<char> {
    promote_from(lines(source), 0, collect_masks(lines(source)), false)
}

fn alias_at(i: usize) -> (r: (&'static str, &'static str))
    requires
        i < 9,
    ensures
        r.0@ == alias_prefix(i as int),
        r.1@ == alias_key(i as int),
{
    match i {
        0 => ("svg-pattern-ref:", "pattern-ref:"),
        1 => ("svg-pattern-width:", "pattern-width:"),
        2 => ("svg-pattern-height:", "pattern-height:"),
        3 => ("svg-pattern-source-xml:", "pattern-source:"),
        4 => ("svg-mask-ref:", "mask-ref:"),
        5 => ("svg-mask-mode:", "mask-mode:"),
        6 => ("svg-attr-mask:", "mask-ref:"),
        7 => ("svg-source-tag:", "source-tag:"),
        _ => ("svg-source-xml:", "source-data:"),
    }
}

fn alias_exec(t: &Vec<char>) -> (r: Option<(Vec<char>, Vec<char>)>)
    ensures
        match alias_from(t@, 0) {
            Some((k, rest)) => r is Some && r.unwrap().0@ == k && r.unwrap().1@ == rest,
            None => r is None,
        },
{
    let mut i: usize = 0;
    while i < 9
        invariant
            i <= 9,
            alias_from(t@, i as int) == alias_from(t@, 0),
        decreases 9 - i,
    {
        let (prefix, key) = alias_at(i);
        if starts_with_exec(t, prefix) {
            let m = chars_of(prefix).len();
            return Some((chars_of(key), sub_chars(t, m, t.len())));
        }
        i += 1;
    }
    None
}

fn push_prop_line(out: &mut Vec<char>, indent: &Vec<char>, key: &str, value: &Vec<char>)
    ensures
        final(out)@ == old(out)@ + prop_line(indent@, key@, value@),
{
    let ghost start = out@;
    append_chars(out, indent);
    append_str(out, key);
    append_str(out, ": ");
    append_str(out, quote(string_of(value).as_str()).as_str());
    append_str(out, ";\n");
    assert(out@ =~= start + prop_line(indent@, key@, value@));
}

fn alias_text_exec(out: &mut Vec<char>, t: &Vec<char>, ind: &Vec<char>)
    ensures
        final(out)@ == old(out)@ + alias_text(t@, ind@),
{
    match alias_exec(t) {
        Some((k, rest)) => {
            let ghost start = out@;
            append_chars(out, ind);
            append_chars(out, &k);
            append_chars(out, &rest);
            out.push('\n');
            proof {
                reveal_strlit("\n");
            }
            assert(out@ =~= start + alias_text(t@, ind@));
        },
        None => {
            assert(out@ =~= old(out)@ + alias_text(t@, ind@));
        },
    }
}

fn pattern_text_exec(out: &mut Vec<char>, t: &Vec<char>, ind: &Vec<char>)
    ensures
        final(out)@ == old(out)@ + pattern_text(t@, ind@),
{
    let ghost start = out@;
    if starts_with_exec(t, "svg-pattern-source-xml:") {
        match property_value_exec(t, "svg-pattern-source-xml:") {
            Some(xml) => match native_pattern_exec(&xml) {
                Some((d, u, c)) => {
                    push_prop_line(out, ind, "pattern-data", &d);
                    push_prop_line(out, ind, "pattern-units", &u);
                    push_prop_line(out, ind, "pattern-content-units", &c);
                    assert(out@ =~= start + pattern_text(t@, ind@));
                },
                None => {
                    assert(out@ =~= start + pattern_text(t@, ind@));
                },
            },
            None => {
                assert(out@ =~= start + pattern_text(t@, ind@));
            },
        }
    } else {
        assert(out@ =~= start + pattern_text(t@, ind@));
    }
}

fn mask_text_exec(out: &mut Vec<char>, t: &Vec<char>, ind: &Vec<char>, masks: &Vec<(Vec<char>, Vec<char>, Vec<char>)>, e1: bool) -> (e: bool)
    ensures
        (final(out)@, e) == ({
            let m = mask_text(t@, ind@, masks_view(masks@), e1);
            (old(out)@ + m.0, m.1)
        }),
{
    let ghost start = out@;
    if !e1 && (starts_with_exec(t, "svg-attr-mask:") || starts_with_exec(t, "svg-mask-ref:")) {
        let prefix = if starts_with_exec(t, "svg-attr-mask:") { "svg-attr-mask:" } else { "svg-mask-ref:" };
        let found = match property_value_exec(t, prefix) {
            Some(raw) => match url_fragment_exec(&raw) {
                Some(id) => mask_get_exec(masks, &id),
                None => None,
            },
            None => None,
        };
        match found {
            Some((d, m)) => {
                push_prop_line(out, ind, "mask-data", &d);
                push_prop_line(out, ind, "mask-type", &m);
                assert(out@ =~= start + mask_text(t@, ind@, masks_view(masks@), e1).0);
                true
            },
            None => {
                assert(out@ =~= start + mask_text(t@, ind@, masks_view(masks@), e1).0);
                e1
            },
        }
    } else {
        assert(out@ =~= start + mask_text(t@, ind@, masks_view(masks@), e1).0);
        e1
    }
}

fn line_step_exec(out: &mut Vec<char>, line: &Vec<char>, masks: &Vec<(Vec<char>, Vec<char>, Vec<char>)>, emitted: bool) -> (e: bool)
    ensures
        (final(out)@, e) == ({
            let (o, e2) = line_step(line@, masks_view(masks@), emitted);
            (old(out)@ + o, e2)
        }),
{
    let ghost start = out@;
    let lead = lead_len_exec(line);
    let t = sub_chars(line, lead, line.len());
    let ind = sub_chars(line, 0, lead);
    let e1 = if ends_with_exec(&t, "{") { false } else { emitted };
    append_chars(out, line);
    out.push('\n');
    proof {
        reveal_strlit("\n");
    }
    alias_text_exec(out, &t, &ind);
    pattern_text_exec(out, &t, &ind);
    let e = mask_text_exec(out, &t, &ind, masks, e1);
    proof {
        let (o, e2) = line_step(line@, masks_view(masks@), emitted);
        assert(out@ =~= start + o);
    }
    e
}

/// Adds native aliases and vector mask and pattern records to imported
/// SRNG text.
#[verifier::spinoff_prover]
#[verifier::rlimit(40)]
pub fn promote_native_semantics(source: &Vec<char>) -> (r: Vec<char>)
    ensures
        r@ == promote_native(source@),
{
    let ls = split_lines(source);
    let ghost lv = line_views(ls@);
    let masks = collect_masks_exec(&ls);
    let ghost mv = masks_view(masks@);
    let mut out: Vec<char> = Vec::new();
    let mut emitted = false;
    let mut i: usize = 0;
    while i < ls.len()
        invariant
            i <= ls@.len(),
            lv == line_views(ls@),
            lv == lines(source@),
            mv == masks_view(masks@),
            mv == collect_masks(lv),
            out@ + promote_from(lv, i as int, mv, emitted) == promote_from(lv, 0, mv, false),
        decreases ls@.len() - i,
    {
        let ghost before = out@;
        let ghost e0 = emitted;
        assert(lv[i as int] == ls@[i as int]@);
        emitted = line_step_exec(&mut out, &ls[i], &masks, emitted);
        proof {
            let (o, e2) = line_step(lv[i as int], mv, e0);
            assert(promote_from(lv, i as int, mv, e0) == o + promote_from(lv, i + 1, mv, e2));
            assert(out@ + promote_from(lv, i + 1, mv, emitted) =~= before + promote_from(lv, i as int, mv, e0));
        }
        i += 1;
    }
    assert(promote_from(lv, i as int, mv, emitted) == Seq::<char>::empty());
    assert(out@ =~= promote_from(lv, 0, mv, false));
    out
}

// ---------------------------------------------------------------------------
// Provenance

pub open spec fn keep_line(line: Seq<char>, can_drop: bool) -> bool {
    let t = trim_start(line);
    !starts_with(t, "svg-"@) && !(can_drop && (starts_with(t, "source-tag:"@) || starts_with(t, "source-data:"@)
        || starts_with(t, "pattern-source:"@)))
}

pub open spec fn kept_text(ls: Seq<Seq<char>>, can_drop: bool) -> Seq<char>
    decreases ls.len(),
{
    if ls.len() == 0 {
        Seq::empty()
    } else {
        kept_text(ls.drop_last(), can_drop) + if keep_line(ls.last(), can_drop) { ls.last() + "\n"@ } else { Seq::empty() }
    }
}

/// Whether every pattern and mask reference has a native payload, so that
/// the raw XML payloads can go too.
pub open spec fn payloads_native(source: Seq<char>) -> bool {
    (!contains(source, "pattern-ref:"@) || contains(source, "pattern-data:"@))
        && (!contains(source, "mask-ref:"@) || contains(source, "mask-data:"@)
        || contains(source, "mask-mode: \"binary-opaque-clip\""@))
}

/// The source without SVG provenance lines (and without raw resource
/// payloads once every resource is native), one line per line.
pub open spec fn strip_spec(source: Seq<char>) -> Seq<char> {
    let k = kept_text(lines(source), payloads_native(source));
    if k.len() == 0 { "\n"@ } else { k }
}

/// Removes SVG provenance from SRNG text.
pub fn strip_svg_provenance(source: &str) -> (r: String)
    ensures
        r@ == strip_spec(source@),
{
    let s = chars_of(source);
    let can_drop = (!crate::srctext::contains_exec(&s, "pattern-ref:") || crate::srctext::contains_exec(&s, "pattern-data:"))
        && (!crate::srctext::contains_exec(&s, "mask-ref:") || crate::srctext::contains_exec(&s, "mask-data:")
        || crate::srctext::contains_exec(&s, "mask-mode: \"binary-opaque-clip\""));
    let ls = split_lines(&s);
    let ghost lv = line_views(ls@);
    let mut out: Vec<char> = Vec::new();
    let mut i: usize = 0;
    while i < ls.len()
        invariant
            i <= ls@.len(),
            lv == line_views(ls@),
            out@ == kept_text(lv.subrange(0, i as int), can_drop),
        decreases ls@.len() - i,
    {
        assert(lv.subrange(0, i + 1).drop_last() =~= lv.subrange(0, i as int));
        let line = &ls[i];
        assert(lv[i as int] == line@);
        let lead = lead_len_exec(line);
        let t = sub_chars(line, lead, line.len());
        let keep = !starts_with_exec(&t, "svg-") && !(can_drop && (starts_with_exec(&t, "source-tag:")
            || starts_with_exec(&t, "source-data:") || starts_with_exec(&t, "pattern-source:")));
        if keep {
            append_chars(&mut out, line);
            out.push('\n');
            proof {
                reveal_strlit("\n");
            }
        }
        assert(out@ =~= kept_text(lv.subrange(0, i + 1), can_drop));
        i += 1;
    }
    assert(lv.subrange(0, ls@.len() as int) =~= lv);
    if out.len() == 0 {
        return crate::text::chars_to_string_lit("\n");
    }
    string_of(&out)
}

// ---------------------------------------------------------------------------
// Import

pub open spec fn s232_from() -> Seq<char> {
    "is preserved with tile metadata; pattern painting is the next renderer stage"@
}

pub open spec fn s232_to() -> Seq<char> {
    "is mapped to native SRNG pattern paint with SVG provenance retained"@
}

pub open spec fn s242_from() -> Seq<char> {
    "requires alpha/luminance compositing that is not yet supported"@
}

pub open spec fn s242_to() -> Seq<char> {
    "is mapped to native SRNG mask semantics with SVG provenance retained"@
}

/// Pattern and mask diagnostics become informational once those resources
/// are native.
pub open spec fn soften(d: crate::svg_import::DiagV) -> crate::svg_import::DiagV {
    if d.code == "S232"@ {
        crate::svg_import::DiagV { severity: "info"@, message: crate::srctext::replace_all(d.message, s232_from(), s232_to()), ..d }
    } else if d.code == "S242"@ {
        crate::svg_import::DiagV { severity: "info"@, message: crate::srctext::replace_all(d.message, s242_from(), s242_to()), ..d }
    } else {
        d
    }
}

pub open spec fn diags_view(ds: Seq<ImportDiagnostic>) -> Seq<crate::svg_import::DiagV> {
    crate::svg_import::diags_of(ds)
}

/// The native import: source text and diagnostics.
pub open spec fn native_import_spec(svg: Seq<char>, name: Seq<char>, file_id: Option<Seq<char>>, keep: bool) -> (Seq<char>, Seq<crate::svg_import::DiagV>) {
    let (src, ds) = crate::svg_import::import_spec(svg, name, file_id, keep);
    (promote_native(crate::svg_refs::resource_refs(svg, src)), ds.map_values(|d: crate::svg_import::DiagV| soften(d)))
}

fn soften_exec(d: &mut ImportDiagnostic)
    ensures
        crate::svg_import::diag_view(*final(d)) == soften(crate::svg_import::diag_view(*old(d))),
{
    let code = chars_of(d.code.as_str());
    proof {
        reveal_strlit("is preserved with tile metadata; pattern painting is the next renderer stage");
        reveal_strlit("requires alpha/luminance compositing that is not yet supported");
    }
    if is_text(&code, "S232") {
        d.severity = crate::text::chars_to_string_lit("info");
        d.message = string_of(&crate::srctext::replace_all_exec(&chars_of(d.message.as_str()),
            "is preserved with tile metadata; pattern painting is the next renderer stage",
            "is mapped to native SRNG pattern paint with SVG provenance retained"));
    } else if is_text(&code, "S242") {
        d.severity = crate::text::chars_to_string_lit("info");
        d.message = string_of(&crate::srctext::replace_all_exec(&chars_of(d.message.as_str()),
            "requires alpha/luminance compositing that is not yet supported",
            "is mapped to native SRNG mask semantics with SVG provenance retained"));
    }
}

/// Imports SVG and promotes supported resource semantics to native SRNG
/// properties; SVG-prefixed properties stay as provenance.
pub fn import_svg(svg: &str, source_name: &str, options: &ImportOptions) -> (r: ImportResult)
    ensures
        (r.source@, diags_view(r.diagnostics@)) == native_import_spec(svg@, source_name@,
            crate::xml::opt_str_view(options.file_id), options.preserve_source_attributes),
{
    let base = crate::svg_import::import_svg(svg, source_name, options);
    let refs = crate::svg_refs::resource_refs_exec(svg, &chars_of(base.source.as_str()));
    let source = promote_native_semantics(&refs);
    let mut diags = base.diagnostics;
    let ghost dv0 = diags_view(diags@);
    let mut k: usize = 0;
    while k < diags.len()
        invariant
            k <= diags@.len(),
            diags@.len() == dv0.len(),
            forall|j: int| 0 <= j < k ==> #[trigger] crate::svg_import::diag_view(diags@[j]) == soften(dv0[j]),
            forall|j: int| k <= j < diags@.len() ==> #[trigger] crate::svg_import::diag_view(diags@[j]) == dv0[j],
        decreases diags@.len() - k,
    {
        let mut d = crate::svg_import::copy_diag(&diags[k]);
        soften_exec(&mut d);
        diags.set(k, d);
        k += 1;
    }
    assert(diags_view(diags@) =~= dv0.map_values(|d: crate::svg_import::DiagV| soften(d)));
    ImportResult { source: string_of(&source), diagnostics: diags }
}

// ---------------------------------------------------------------------------
// Laws

/// A word that starts with a character other than white space, found at the
/// start of a line without its last character, is found at the start of the
/// line.
proof fn lemma_starts_word_prefix(l: Seq<char>, w: Seq<char>)
    requires
        l.len() > 0,
        w.len() > 0,
        !crate::formatter::is_ws(w[0]),
        starts_with(trim_start(l.drop_last()), w),
    ensures
        starts_with(trim_start(l), w),
{
    let p = l.drop_last();
    crate::formatter::lemma_ws_start(p, 0);
    crate::formatter::lemma_ws_start(l, 0);
    let a = crate::formatter::ws_start(p, 0);
    let b = crate::formatter::ws_start(l, 0);
    assert(lead_len(p) == a);
    assert(trim_start(p)[0] == p[a]);
    assert(p[a] == w[0]);
    assert(a < p.len());
    if b < a {
        assert(l[b] == p[b]);
    } else if b > a {
        assert(crate::formatter::is_ws(l[a]));
        assert(l[a] == p[a]);
    }
    assert(b == a);
    assert(trim_start(l).subrange(0, w.len() as int) =~= trim_start(p).subrange(0, w.len() as int));
}

proof fn lemma_keep_line_cr(l: Seq<char>, can_drop: bool)
    requires
        keep_line(l, can_drop),
    ensures
        keep_line(crate::formatter::strip_cr(l), can_drop),
{
    if l.len() > 0 && l[l.len() - 1] == '\r' {
        reveal_strlit("svg-");
        reveal_strlit("source-tag:");
        reveal_strlit("source-data:");
        reveal_strlit("pattern-source:");
        assert(!crate::formatter::is_ws('s'));
        assert(!crate::formatter::is_ws('p'));
        if starts_with(trim_start(l.drop_last()), "svg-"@) {
            lemma_starts_word_prefix(l, "svg-"@);
        }
        if starts_with(trim_start(l.drop_last()), "source-tag:"@) {
            lemma_starts_word_prefix(l, "source-tag:"@);
        }
        if starts_with(trim_start(l.drop_last()), "source-data:"@) {
            lemma_starts_word_prefix(l, "source-data:"@);
        }
        if starts_with(trim_start(l.drop_last()), "pattern-source:"@) {
            lemma_starts_word_prefix(l, "pattern-source:"@);
        }
    }
}

proof fn lemma_kept_lines(ls: Seq<Seq<char>>, can_drop: bool)
    requires
        forall|k: int| 0 <= k < ls.len() ==> crate::formatter::no_newline(#[trigger] ls[k]),
    ensures
        kept_text(ls, can_drop).len() == 0 || kept_text(ls, can_drop).last() == '\n',
        forall|k: int| 0 <= k < lines(kept_text(ls, can_drop)).len() ==> keep_line(#[trigger] lines(kept_text(ls, can_drop))[k],
            can_drop),
    decreases ls.len(),
{
    if ls.len() > 0 {
        let prev = ls.drop_last();
        assert forall|k: int| 0 <= k < prev.len() implies crate::formatter::no_newline(#[trigger] prev[k]) by {
            assert(prev[k] == ls[k]);
        }
        lemma_kept_lines(prev, can_drop);
        let l = ls.last();
        assert(crate::formatter::no_newline(ls[ls.len() - 1]));
        if keep_line(l, can_drop) {
            reveal_strlit("\n");
            assert(l + "\n"@ =~= l.push('\n'));
            assert(kept_text(prev, can_drop) + (l + "\n"@) =~= kept_text(prev, can_drop) + l.push('\n'));
            crate::formatter::lemma_lines_append_cr(kept_text(prev, can_drop), l);
            lemma_keep_line_cr(l, can_drop);
            let all = lines(kept_text(ls, can_drop));
            assert forall|k: int| 0 <= k < all.len() implies keep_line(#[trigger] all[k], can_drop) by {
                if k < all.len() - 1 {
                    assert(all[k] == lines(kept_text(prev, can_drop))[k]);
                }
            }
        } else {
            assert(kept_text(ls, can_drop) =~= kept_text(prev, can_drop));
        }
    }
}

/// Removing SVG provenance leaves no line that starts with `svg-`, and once
/// every pattern and mask reference has a native payload, no raw resource
/// line (`source-tag:`, `source-data:`, `pattern-source:`) either.
pub proof fn law_strip_leaves_no_provenance(source: Seq<char>)
    ensures
        forall|k: int| 0 <= k < lines(strip_spec(source)).len() ==> keep_line(#[trigger] lines(strip_spec(source))[k],
            payloads_native(source)),
{
    let cd = payloads_native(source);
    crate::formatter::lemma_lines_no_newline(source, 0);
    lemma_kept_lines(lines(source), cd);
    let k = kept_text(lines(source), cd);
    if k.len() == 0 {
        reveal_strlit("\n");
        let e = Seq::<char>::empty();
        crate::formatter::lemma_lines_append_cr(e, e);
        assert(e + e.push('\n') =~= "\n"@);
        assert(lines(e) =~= Seq::<Seq<char>>::empty());
        assert(crate::formatter::no_newline(e));
        assert(lines(strip_spec(source)) =~= seq![e]);
        assert(keep_line(e, cd)) by {
            assert(trim_start(e).len() == 0);
            reveal_strlit("svg-");
            reveal_strlit("source-tag:");
            reveal_strlit("source-data:");
            reveal_strlit("pattern-source:");
        }
    }
}

/// The text each line of the promotion gives, from line `i` on.
pub open spec fn promote_pieces(ls: Seq<Seq<char>>, i: int, masks: Seq<(Seq<char>, Seq<char>, Seq<char>)>, emitted: bool) -> Seq<Seq<char>>
    decreases ls.len() - i,
{
    if i < 0 || i >= ls.len() {
        Seq::empty()
    } else {
        let (o, e) = line_step(ls[i], masks, emitted);
        seq![o] + promote_pieces(ls, i + 1, masks, e)
    }
}

pub open spec fn concat_all(v: Seq<Seq<char>>) -> Seq<char>
    decreases v.len(),
{
    if v.len() == 0 {
        Seq::empty()
    } else {
        v[0] + concat_all(v.drop_first())
    }
}

/// A line of the source followed by its native alias line, if it has one.
pub open spec fn line_with_alias(line: Seq<char>) -> Seq<char> {
    line + "\n"@ + alias_text(trim_start(line), line.subrange(0, lead_len(line)))
}

proof fn lemma_promote_pieces(ls: Seq<Seq<char>>, i: int, masks: Seq<(Seq<char>, Seq<char>, Seq<char>)>, emitted: bool)
    requires
        0 <= i <= ls.len(),
    ensures
        promote_from(ls, i, masks, emitted) == concat_all(promote_pieces(ls, i, masks, emitted)),
        promote_pieces(ls, i, masks, emitted).len() == ls.len() - i,
        forall|k: int| 0 <= k < ls.len() - i ==> starts_with(#[trigger] promote_pieces(ls, i, masks, emitted)[k],
            line_with_alias(ls[i + k])),
    decreases ls.len() - i,
{
    if i < ls.len() {
        let (o, e) = line_step(ls[i], masks, emitted);
        lemma_promote_pieces(ls, i + 1, masks, e);
        let rest = promote_pieces(ls, i + 1, masks, e);
        let ps = promote_pieces(ls, i, masks, emitted);
        assert(ps == seq![o] + rest);
        assert(ps.drop_first() =~= rest);
        let p = line_with_alias(ls[i]);
        let t = trim_start(ls[i]);
        let ind = ls[i].subrange(0, lead_len(ls[i]));
        let e1 = if ends_with(t, "{"@) { false } else { emitted };
        let m = mask_text(t, ind, masks, e1);
        assert(o == p + (pattern_text(t, ind) + m.0));
        assert(o.subrange(0, p.len() as int) =~= p);
        assert forall|k: int| 0 <= k < ls.len() - i implies starts_with(#[trigger] ps[k], line_with_alias(ls[i + k])) by {
            if k > 0 {
                assert(ps[k] == rest[k - 1]);
                assert(i + k == (i + 1) + (k - 1));
            }
        }
    } else {
        assert(promote_pieces(ls, i, masks, emitted) =~= Seq::<Seq<char>>::empty());
    }
}

/// The promotion keeps the lines of the source in order: its text is one
/// piece per source line, joined, and each piece starts with its line and
/// then, for a provenance line `svg-Q: rest` (and `svg-attr-mask:`,
/// `svg-pattern-source-xml:`, `svg-source-xml:`), the native line
/// `Q: rest` under the same indentation.
pub proof fn law_promotion_keeps_lines(source: Seq<char>)
    ensures
        ({
            let ls = lines(source);
            let ps = promote_pieces(ls, 0, collect_masks(ls), false);
            &&& promote_native(source) == concat_all(ps)
            &&& ps.len() == ls.len()
            &&& forall|k: int| 0 <= k < ls.len() ==> starts_with(#[trigger] ps[k], line_with_alias(ls[k]))
        }),
{
    let ls = lines(source);
    lemma_promote_pieces(ls, 0, collect_masks(ls), false);
    assert forall|k: int| 0 <= k < ls.len() implies starts_with(#[trigger] promote_pieces(ls, 0, collect_masks(ls), false)[k],
        line_with_alias(ls[k])) by {
        assert(0 + k == k);
    }
}

/// The first provenance prefix a trimmed line starts with, and its native
/// key: `svg-pattern-ref:` to `pattern-ref:`, `svg-pattern-width:` to
/// `pattern-width:`, `svg-pattern-height:` to `pattern-height:`,
/// `svg-pattern-source-xml:` to `pattern-source:`, `svg-mask-ref:` and
/// `svg-attr-mask:` to `mask-ref:`, `svg-mask-mode:` to `mask-mode:`,
/// `svg-source-tag:` to `source-tag:`, `svg-source-xml:` to `source-data:`.
pub proof fn lemma_alias_from(t: Seq<char>, i: int)
    requires
        0 <= i <= 9,
    ensures
        match alias_from(t, i) {
            Some((k, rest)) => exists|j: int| i <= j < 9 && starts_with(t, #[trigger] alias_prefix(j)) && k == alias_key(j)
                && t == alias_prefix(j) + rest,
            None => forall|j: int| i <= j < 9 ==> !starts_with(t, #[trigger] alias_prefix(j)),
        },
    decreases 9 - i,
{
    if i < 9 {
        lemma_alias_from(t, i + 1);
        if starts_with(t, alias_prefix(i)) {
            assert(t =~= alias_prefix(i) + t.subrange(alias_prefix(i).len() as int, t.len() as int));
        }
    }
}

/// Every line of the source stays in the promotion, in order, and a line
/// whose trimmed text is a provenance prefix `P` followed by `rest` is
/// followed at once by the line `indent + K + rest`, where `K` is the native
/// key of `P`; a line with no such prefix gets no alias line.
pub proof fn law_promotion_rewrites_provenance(source: Seq<char>, k: int)
    requires
        0 <= k < lines(source).len(),
    ensures
        ({
            let ls = lines(source);
            let ps = promote_pieces(ls, 0, collect_masks(ls), false);
            let line = ls[k];
            let t = trim_start(line);
            let ind = line.subrange(0, lead_len(line));
            &&& promote_native(source) == concat_all(ps)
            &&& ps.len() == ls.len()
            &&& forall|j: int| 0 <= j < 9 && starts_with(t, #[trigger] alias_prefix(j)) && (forall|m: int| 0 <= m < j ==> !starts_with(t, #[trigger] alias_prefix(m)))
                ==> starts_with(ps[k], line + "\n"@ + ind + alias_key(j) + t.subrange(alias_prefix(j).len() as int, t.len() as int) + "\n"@)
            &&& (forall|j: int| 0 <= j < 9 ==> !starts_with(t, #[trigger] alias_prefix(j))) ==> starts_with(ps[k], line + "\n"@)
        }),
{
    let ls = lines(source);
    law_promotion_keeps_lines(source);
    let ps = promote_pieces(ls, 0, collect_masks(ls), false);
    let line = ls[k];
    let t = trim_start(line);
    let ind = line.subrange(0, lead_len(line));
    assert(starts_with(ps[k], line_with_alias(ls[k])));
    lemma_alias_from(t, 0);
    assert forall|j: int| 0 <= j < 9 && starts_with(t, #[trigger] alias_prefix(j)) && (forall|m: int| 0 <= m < j ==> !starts_with(t, #[trigger] alias_prefix(m)))
        implies starts_with(ps[k], line + "\n"@ + ind + alias_key(j) + t.subrange(alias_prefix(j).len() as int, t.len() as int) + "\n"@) by {
        lemma_alias_first(t, 0, j);
        let rest = t.subrange(alias_prefix(j).len() as int, t.len() as int);
        assert(line_with_alias(line) =~= line + "\n"@ + ind + alias_key(j) + rest + "\n"@);
    }
    if forall|j: int| 0 <= j < 9 ==> !starts_with(t, #[trigger] alias_prefix(j)) {
        assert(alias_from(t, 0) is None);
        assert(line_with_alias(line) =~= line + "\n"@);
    }
}

proof fn lemma_alias_first(t: Seq<char>, i: int, j: int)
    requires
        0 <= i <= j < 9,
        starts_with(t, alias_prefix(j)),
        forall|m: int| 0 <= m < j ==> !starts_with(t, #[trigger] alias_prefix(m)),
    ensures
        alias_from(t, i) == Some((alias_key(j), t.subrange(alias_prefix(j).len() as int, t.len() as int))),
    decreases j - i,
{
    if i < j {
        assert(!starts_with(t, alias_prefix(i)));
        lemma_alias_first(t, i + 1, j);
    }
}

} // verus!
