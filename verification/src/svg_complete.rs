//! A promotion of SVG semantics over the native import: source attributes
//! as native properties, local gradients (without `href` inheritance), mask
//! units, and simple `<use>` targets resolved to path data and paint.
use vstd::prelude::*;
use crate::formatter::{line_views, lines, split_lines, trim, trim_chars};
use crate::length::{tokens_from, px_wf, Px};
use crate::srctext::{
    contains, ends_with, ends_with_exec, lead_len, lead_len_exec, replace_all, replace_all_exec, starts_with,
    starts_with_exec, trim_start, url_fragment, url_fragment_exec,
};
use crate::svg_import::{diag_view, diags_of, DiagV, ImportDiagnostic, ImportOptions, ImportResult};
use crate::svg_native::{px_add};
use crate::svg_v4::{
    any_named, as_info, attr_or, attr_or_exec, color_rgba, display_px, gradient_kind, gradient_stops, last_get, named_colour, num4, prop,
    push_prop, push_qprop, quote4, quote4_exec, rgba_sliceable, stops_sliceable,
};
use crate::text::{append_chars, append_str, chars_of, string_of, sub_chars};
use crate::xml::{attr, element_view, elements_view, get_attr, xml_elements, ElementView, XmlElement};

verus! {

// ---------------------------------------------------------------------------
// Values

/// This pass's reading of a quoted value: trimmed, and inside quotes the
/// escapes `\"`, `\n` and `\\` replaced one after another.
pub open spec fn unquote_c(v: Seq<char>) -> Seq<char> {
    let t = trim(v);
    if t.len() >= 2 && t[0] == '"' && t.last() == '"' {
        replace_all(replace_all(replace_all(t.subrange(1, t.len() - 1), "\\\""@, "\""@), "\\n"@, "\n"@), "\\\\"@, "\\"@)
    } else {
        t
    }
}

/// The value of a `key: value;` rest, unquoted.
pub open spec fn parse_rest_c(rest: Seq<char>) -> Option<Seq<char>> {
    let r = trim(rest);
    if ends_with(r, ";"@) { Some(unquote_c(trim(r.subrange(0, r.len() - 1)))) } else { None }
}

pub open spec fn parse_prop_c(line: Seq<char>, prefix: Seq<char>) -> Option<Seq<char>> {
    if starts_with(line, prefix) { parse_rest_c(line.subrange(prefix.len() as int, line.len() as int)) } else { None }
}

pub open spec fn frag_c(v: Option<Seq<char>>) -> Option<Seq<char>> {
    match v {
        Some(x) => url_fragment(x),
        None => None,
    }
}

/// `#rrggbb` for an opaque colour, else `#rrggbbaa`.
pub open spec fn rgba_hex(r: int, g: int, b: int, a: int) -> Seq<char> {
    "#"@ + crate::resources::hex2(r) + crate::resources::hex2(g) + crate::resources::hex2(b) + if a == 255 {
        Seq::empty()
    } else {
        crate::resources::hex2(a)
    }
}

/// A paint attribute as a hex colour, or `default` when absent or unreadable.
pub open spec fn paint_c(v: Option<Seq<char>>, default: Seq<char>) -> Seq<char> {
    match v {
        Some(x) => match color_rgba(named_colour(x)) {
            Some((r, g, b, a)) => rgba_hex(r, g, b, a),
            None => default,
        },
        None => default,
    }
}

pub open spec fn paint_sliceable(v: Option<Seq<char>>) -> bool {
    match v {
        Some(x) => rgba_sliceable(named_colour(x)),
        None => true,
    }
}

// ---------------------------------------------------------------------------
// Shapes

/// A number attribute, zero when absent or unreadable.
pub open spec fn n0(e: ElementView, name: Seq<char>) -> Px {
    match attr(e, name) {
        Some(v) => match num4(v) {
            Some(p) => p,
            None => Px::Fin { neg: false, mag: 0 },
        },
        None => Px::Fin { neg: false, mag: 0 },
    }
}

pub open spec fn arc_path(cx: Px, cy: Px, rx: Px, ry: Px) -> Seq<char> {
    let d = display_px(cy);
    "M "@ + display_px(crate::length::px_sub(cx, rx)) + " "@ + d + " A "@ + display_px(rx) + " "@ + display_px(ry)
        + " 0 1 0 "@ + display_px(px_add(cx, rx)) + " "@ + d + " A "@ + display_px(rx) + " "@ + display_px(ry) + " 0 1 0 "@
        + display_px(crate::length::px_sub(cx, rx)) + " "@ + d + " Z"@
}

/// ` L a b` per further pair of raw numbers.
pub open spec fn raw_pairs(v: Seq<Seq<char>>, i: int) -> Seq<char>
    decreases v.len() - i,
{
    if i < 0 || i + 1 >= v.len() {
        Seq::empty()
    } else {
        " L "@ + v[i] + " "@ + v[i + 1] + raw_pairs(v, i + 2)
    }
}

/// The path data of a shape a `<use>` can target.
pub open spec fn shape_path_c(e: ElementView) -> Option<Seq<char>> {
    let tag = e.name;
    if tag == "path"@ {
        attr(e, "d"@)
    } else if tag == "rect"@ {
        let x = n0(e, "x"@);
        let y = n0(e, "y"@);
        Some("M "@ + display_px(x) + " "@ + display_px(y) + " H "@ + display_px(px_add(x, n0(e, "width"@))) + " V "@
            + display_px(px_add(y, n0(e, "height"@))) + " H "@ + display_px(x) + " Z"@)
    } else if tag == "circle"@ {
        Some(arc_path(n0(e, "cx"@), n0(e, "cy"@), n0(e, "r"@), n0(e, "r"@)))
    } else if tag == "ellipse"@ {
        Some(arc_path(n0(e, "cx"@), n0(e, "cy"@), n0(e, "rx"@), n0(e, "ry"@)))
    } else if tag == "line"@ {
        Some("M "@ + display_px(n0(e, "x1"@)) + " "@ + display_px(n0(e, "y1"@)) + " L "@ + display_px(n0(e, "x2"@)) + " "@
            + display_px(n0(e, "y2"@)))
    } else if tag == "polygon"@ || tag == "polyline"@ {
        match attr(e, "points"@) {
            Some(p) => {
                let vals = tokens_from(p, 0, true);
                if vals.len() < 2 || vals.len() % 2 != 0 {
                    None
                } else {
                    Some("M "@ + vals[0] + " "@ + vals[1] + raw_pairs(vals, 2) + if tag == "polygon"@ { " Z"@ } else { Seq::empty() })
                }
            },
            None => None,
        }
    } else {
        None
    }
}

// ---------------------------------------------------------------------------
// Resources

pub struct GradC {
    pub kind: Seq<char>,
    pub units: Seq<char>,
    pub x1: Seq<char>,
    pub y1: Seq<char>,
    pub x2: Seq<char>,
    pub y2: Seq<char>,
    pub cx: Seq<char>,
    pub cy: Seq<char>,
    pub r: Seq<char>,
    pub fx: Seq<char>,
    pub fy: Seq<char>,
    pub stops: Seq<char>,
}

pub open spec fn grad_c(e: ElementView, kind: Seq<char>, stops: Seq<char>) -> GradC {
    GradC {
        kind,
        units: attr_or(e, "gradientUnits"@, "objectBoundingBox"@),
        x1: attr_or(e, "x1"@, "0%"@),
        y1: attr_or(e, "y1"@, "0%"@),
        x2: attr_or(e, "x2"@, "100%"@),
        y2: attr_or(e, "y2"@, "0%"@),
        cx: attr_or(e, "cx"@, "50%"@),
        cy: attr_or(e, "cy"@, "50%"@),
        r: attr_or(e, "r"@, "50%"@),
        fx: attr_or(e, "fx"@, attr_or(e, "cx"@, "50%"@)),
        fy: attr_or(e, "fy"@, attr_or(e, "cy"@, "50%"@)),
        stops,
    }
}

/// The gradients with stops among the first `k` elements, by id (a later
/// entry wins).
pub open spec fn gradients_c(els: Seq<ElementView>, k: int) -> Seq<(Seq<char>, GradC)>
    decreases k,
{
    if k <= 0 || k > els.len() {
        Seq::empty()
    } else {
        let prev = gradients_c(els, k - 1);
        let e = els[k - 1];
        match (gradient_kind(e.name), attr(e, "id"@)) {
            (Some(kind), Some(id)) => {
                let st = gradient_stops(els, k - 1, true);
                if st.len() == 0 { prev } else { prev.push((id, grad_c(e, kind, st))) }
            },
            _ => prev,
        }
    }
}

/// The mask units of the masks among the first `k` elements, by id.
pub open spec fn masks_c(els: Seq<ElementView>, k: int) -> Seq<(Seq<char>, (Seq<char>, Seq<char>))>
    decreases k,
{
    if k <= 0 || k > els.len() {
        Seq::empty()
    } else {
        let prev = masks_c(els, k - 1);
        let e = els[k - 1];
        if e.name == "mask"@ && attr(e, "id"@) is Some {
            prev.push((attr(e, "id"@)->0, (attr_or(e, "maskUnits"@, "objectBoundingBox"@), attr_or(e,
                "maskContentUnits"@, "userSpaceOnUse"@))))
        } else {
            prev
        }
    }
}

/// Path data, fill and stroke of a shape a `<use>` can target.
pub open spec fn use_target(e: ElementView) -> Option<(Seq<char>, Seq<char>, Seq<char>)> {
    match shape_path_c(e) {
        Some(d) => Some((d, paint_c(attr(e, "fill"@), "#000000"@), paint_c(attr(e, "stroke"@), "none"@))),
        None => None,
    }
}

/// The `<use>` targets among the first `k` elements, by id.
pub open spec fn uses_c(els: Seq<ElementView>, k: int) -> Seq<(Seq<char>, (Seq<char>, Seq<char>, Seq<char>))>
    decreases k,
{
    if k <= 0 || k > els.len() {
        Seq::empty()
    } else {
        let prev = uses_c(els, k - 1);
        let e = els[k - 1];
        if attr(e, "id"@) is Some && use_target(e) is Some {
            prev.push((attr(e, "id"@)->0, use_target(e)->0))
        } else {
            prev
        }
    }
}

/// Every colour this pass reads from `els` can be sliced safely.
pub open spec fn complete_sliceable_els(els: Seq<ElementView>) -> bool {
    &&& forall|i: int| 0 <= i < els.len() && gradient_kind(els[i].name) is Some && attr(els[i], "id"@) is Some
        ==> #[trigger] stops_sliceable(els, i, true)
    &&& forall|i: int| 0 <= i < els.len() && attr(els[i], "id"@) is Some && shape_path_c(els[i]) is Some
        ==> paint_sliceable(attr(#[trigger] els[i], "fill"@)) && paint_sliceable(attr(els[i], "stroke"@))
}

pub open spec fn complete_sliceable(svg: Seq<char>) -> bool {
    match xml_elements(svg) {
        Ok(els) => complete_sliceable_els(els),
        Err(_) => true,
    }
}

// ---------------------------------------------------------------------------
// Lines

pub open spec fn alias_from_c(i: int) -> Seq<char> {
    if i == 0 { "svg-attr-transform:"@ } else if i == 1 { "svg-attr-opacity:"@ } else if i == 2 { "svg-attr-fill-opacity:"@ }
    else if i == 3 { "svg-attr-stroke-opacity:"@ } else if i == 4 { "svg-attr-viewBox:"@ }
    else if i == 5 { "svg-attr-preserveAspectRatio:"@ } else if i == 6 { "svg-attr-clipPathUnits:"@ }
    else if i == 7 { "svg-attr-maskUnits:"@ } else if i == 8 { "svg-attr-maskContentUnits:"@ }
    else if i == 9 { "svg-attr-font-size:"@ } else if i == 10 { "svg-attr-font-family:"@ }
    else if i == 11 { "svg-attr-font-weight:"@ } else if i == 12 { "svg-attr-font-style:"@ }
    else if i == 13 { "svg-attr-text-anchor:"@ } else if i == 14 { "svg-attr-preserveAspectRatio:"@ }
    else if i == 15 { "svg-attr-x:"@ } else if i == 16 { "svg-attr-y:"@ } else if i == 17 { "svg-attr-width:"@ }
    else { "svg-attr-height:"@ }
}

pub open spec fn alias_to_c(i: int) -> Seq<char> {
    if i == 0 { "transform:"@ } else if i == 1 { "opacity:"@ } else if i == 2 { "fill-opacity:"@ }
    else if i == 3 { "stroke-opacity:"@ } else if i == 4 { "viewbox:"@ } else if i == 5 { "preserve-aspect-ratio:"@ }
    else if i == 6 { "clip-units:"@ } else if i == 7 { "mask-units:"@ } else if i == 8 { "mask-content-units:"@ }
    else if i == 9 { "font-size:"@ } else if i == 10 { "font-family:"@ } else if i == 11 { "font-weight:"@ }
    else if i == 12 { "font-style:"@ } else if i == 13 { "text-anchor:"@ } else if i == 14 { "image-preserve-aspect-ratio:"@ }
    else if i == 15 { "source-x:"@ } else if i == 16 { "source-y:"@ } else if i == 17 { "source-width:"@ }
    else { "source-height:"@ }
}

/// The native copy of a provenance line for each of the first `k` prefixes
/// it starts with.
pub open spec fn aliases_c(t: Seq<char>, ind: Seq<char>, k: int) -> Seq<char>
    decreases k,
{
    if k <= 0 {
        Seq::empty()
    } else {
        aliases_c(t, ind, k - 1) + if starts_with(t, alias_from_c(k - 1)) {
            ind + alias_to_c(k - 1) + t.subrange(alias_from_c(k - 1).len() as int, t.len() as int) + "\n"@
        } else {
            Seq::empty()
        }
    }
}

pub open spec fn href_rest(t: Seq<char>) -> Option<Seq<char>> {
    if starts_with(t, "svg-attr-href:"@) {
        Some(t.subrange(14, t.len() as int))
    } else if starts_with(t, "svg-attr-xlink-href:"@) {
        Some(t.subrange(20, t.len() as int))
    } else {
        None
    }
}

/// The `href` copy of an `href` line and, for a local shape target, its
/// path data and paint.
#[verifier::opaque]
pub open spec fn href_c(t: Seq<char>, ind: Seq<char>, uses: Seq<(Seq<char>, (Seq<char>, Seq<char>, Seq<char>))>) -> Seq<char> {
    match href_rest(t) {
        Some(rest) => ind + "href:"@ + rest + "\n"@ + match parse_rest_c(rest) {
            Some(raw) => if raw.len() > 0 && raw[0] == '#' {
                match last_get(uses, raw.subrange(1, raw.len() as int)) {
                    Some((d, fl, st)) => prop(ind, "use-data"@, quote4(d)) + prop(ind, "use-fill"@, fl) + prop(ind,
                        "use-stroke"@, st),
                    None => Seq::empty(),
                }
            } else {
                Seq::empty()
            },
            None => Seq::empty(),
        },
        None => Seq::empty(),
    }
}

pub open spec fn gradient_head_c(ind: Seq<char>, g: GradC) -> Seq<char> {
    prop(ind, "fill"@, g.kind) + prop(ind, "gradient-kind"@, quote4(g.kind)) + prop(ind, "gradient-units"@, quote4(g.units))
        + prop(ind, "gradient-stops"@, g.stops)
}

pub open spec fn gradient_geometry_c(ind: Seq<char>, g: GradC) -> Seq<char> {
    if g.kind == "linear-gradient"@ {
        prop(ind, "gradient-x1"@, quote4(g.x1)) + prop(ind, "gradient-y1"@, quote4(g.y1)) + prop(ind, "gradient-x2"@,
            quote4(g.x2)) + prop(ind, "gradient-y2"@, quote4(g.y2))
    } else {
        prop(ind, "gradient-cx"@, quote4(g.cx)) + prop(ind, "gradient-cy"@, quote4(g.cy)) + prop(ind, "gradient-r"@,
            quote4(g.r)) + prop(ind, "gradient-fx"@, quote4(g.fx)) + prop(ind, "gradient-fy"@, quote4(g.fy))
    }
}

/// The native properties of a gradient fill.
pub open spec fn gradient_props_c(ind: Seq<char>, g: GradC) -> Seq<char> {
    gradient_head_c(ind, g) + gradient_geometry_c(ind, g)
}

#[verifier::opaque]
pub open spec fn gradient_c_text(t: Seq<char>, ind: Seq<char>, grads: Seq<(Seq<char>, GradC)>) -> Seq<char> {
    match frag_c(parse_prop_c(t, "svg-fill:"@)) {
        Some(id) => match last_get(grads, id) {
            Some(g) => gradient_props_c(ind, g),
            None => Seq::empty(),
        },
        None => Seq::empty(),
    }
}

#[verifier::opaque]
pub open spec fn mask_c_text(t: Seq<char>, ind: Seq<char>, masks: Seq<(Seq<char>, (Seq<char>, Seq<char>))>) -> Seq<char> {
    let r = match parse_prop_c(t, "mask-ref:"@) {
        Some(v) => Some(v),
        None => parse_prop_c(t, "svg-attr-mask:"@),
    };
    match frag_c(r) {
        Some(id) => match last_get(masks, id) {
            Some((u, c)) => prop(ind, "mask-units"@, quote4(u)) + prop(ind, "mask-content-units"@, quote4(c)),
            None => Seq::empty(),
        },
        None => Seq::empty(),
    }
}

pub struct ResC {
    pub grads: Seq<(Seq<char>, GradC)>,
    pub masks: Seq<(Seq<char>, (Seq<char>, Seq<char>))>,
    pub uses: Seq<(Seq<char>, (Seq<char>, Seq<char>, Seq<char>))>,
}

/// One line and what it adds.
pub open spec fn line_c(line: Seq<char>, res: ResC) -> Seq<char> {
    let t = trim_start(line);
    let ind = line.subrange(0, lead_len(line));
    line + "\n"@ + aliases_c(t, ind, 19) + href_c(t, ind, res.uses) + gradient_c_text(t, ind, res.grads) + mask_c_text(t,
        ind, res.masks)
}

pub open spec fn lines_c(ls: Seq<Seq<char>>, res: ResC) -> Seq<char>
    decreases ls.len(),
{
    if ls.len() == 0 {
        Seq::empty()
    } else {
        lines_c(ls.drop_last(), res) + line_c(ls.last(), res)
    }
}

pub struct FeaturesC {
    pub viewbox: bool,
    pub gradients: bool,
    pub text: bool,
    pub images: bool,
    pub uses: bool,
}

pub open spec fn res_of(els: Seq<ElementView>) -> ResC {
    ResC { grads: gradients_c(els, els.len() as int), masks: masks_c(els, els.len() as int), uses: uses_c(els, els.len() as int) }
}

/// The promoted source and the features the document uses.
pub open spec fn promote_c(svg: Seq<char>, source: Seq<char>) -> (Seq<char>, FeaturesC) {
    match xml_elements(svg) {
        Err(_) => (source, FeaturesC { viewbox: false, gradients: false, text: false, images: false, uses: false }),
        Ok(els) => {
            let res = res_of(els);
            let out = lines_c(lines(source), res);
            (out, FeaturesC {
                viewbox: els.len() > 0 && attr(els[0], "viewBox"@) is Some,
                gradients: res.grads.len() > 0 && contains(out, "gradient-kind:"@),
                text: any_named(els, "text"@) || any_named(els, "tspan"@),
                images: any_named(els, "image"@),
                uses: any_named(els, "use"@),
            })
        },
    }
}

/// A diagnostic about something this pass represents natively becomes
/// information.
pub open spec fn adjust_c(d: DiagV, f: FeaturesC) -> DiagV {
    if d.code == "S120"@ && f.viewbox {
        as_info(d, "viewBox is represented by native SRNG viewbox/preserve-aspect-ratio semantics"@)
    } else if d.code == "S131"@ && contains(d.message, "opacity"@) {
        as_info(d, replace_all(d.message, "is preserved but not yet represented by the renderer"@,
            "is represented by native SRNG opacity semantics"@))
    } else if d.code == "S230"@ && f.gradients && contains(d.message, "url(#"@) {
        as_info(d, replace_all(replace_all(d.message, "unsupported"@, "native gradient"@), "preserved but not rendered"@,
            "mapped to SRNG gradient semantics"@))
    } else if d.code == "S301"@ && f.text {
        as_info(d, "text is represented natively and uses the practical text rendering path when no outline data is present"@)
    } else if d.code == "S302"@ && f.images && contains(d.message, "<image>"@) {
        as_info(d, "embedded/local image metadata is represented by native SRNG image properties"@)
    } else if d.code == "S302"@ && f.uses && contains(d.message, "<use>"@) {
        as_info(d, "simple <use> references are resolved to native SRNG path semantics"@)
    } else {
        d
    }
}

/// The import of this pass: source text and diagnostics.
pub open spec fn import_c_spec(svg: Seq<char>, name: Seq<char>, file_id: Option<Seq<char>>, keep: bool) -> (Seq<char>, Seq<DiagV>) {
    let (s0, d0) = crate::svg_native::native_import_spec(svg, name, file_id, keep);
    let (s1, f) = promote_c(svg, s0);
    (s1, d0.map_values(|d: DiagV| adjust_c(d, f)))
}


// ---------------------------------------------------------------------------
// Values, executable

fn unquote_c_exec(v: &Vec<char>) -> (r: Vec<char>)
    ensures
        r@ == unquote_c(v@),
{
    let t = trim_chars(v);
    let n = t.len();
    if !(n >= 2 && t[0] == '"' && t[n - 1] == '"') {
        return t;
    }
    let inner = sub_chars(&t, 1, n - 1);
    proof {
        reveal_strlit("\\\"");
        reveal_strlit("\\n");
        reveal_strlit("\\\\");
    }
    let a = replace_all_exec(&inner, "\\\"", "\"");
    let b = replace_all_exec(&a, "\\n", "\n");
    replace_all_exec(&b, "\\\\", "\\")
}

fn parse_rest_c_exec(rest: &Vec<char>) -> (r: Option<Vec<char>>)
    ensures
        crate::svg_native::opt_chars(r) == parse_rest_c(rest@),
{
    let r = trim_chars(rest);
    proof {
        reveal_strlit(";");
    }
    if ends_with_exec(&r, ";") {
        Some(unquote_c_exec(&trim_chars(&sub_chars(&r, 0, r.len() - 1))))
    } else {
        None
    }
}

fn parse_prop_c_exec(line: &Vec<char>, prefix: &str) -> (r: Option<Vec<char>>)
    ensures
        crate::svg_native::opt_chars(r) == parse_prop_c(line@, prefix@),
{
    if starts_with_exec(line, prefix) {
        let m = chars_of(prefix).len();
        parse_rest_c_exec(&sub_chars(line, m, line.len()))
    } else {
        None
    }
}

fn frag_c_exec(v: Option<Vec<char>>) -> (r: Option<Vec<char>>)
    ensures
        crate::svg_native::opt_chars(r) == frag_c(crate::svg_native::opt_chars(v)),
{
    match v {
        Some(x) => {
            let f = url_fragment_exec(&x);
            proof {
                match url_fragment(x@) {
                    Some(y) => {},
                    None => {},
                }
            }
            f
        },
        None => None,
    }
}

fn paint_c_exec(v: Option<String>, default: &str) -> (r: Vec<char>)
    requires
        paint_sliceable(crate::xml::opt_str_view(v)),
    ensures
        r@ == paint_c(crate::xml::opt_str_view(v), default@),
{
    match v {
        Some(x) => {
            let c = crate::svg_v4::named_colour_exec(&chars_of(x.as_str()));
            match crate::svg_v4::color_rgba_exec(&c) {
                Some((r, g, b, a)) => {
                    let mut out = chars_of("#");
                    crate::svg_v4::push_hex(&mut out, r);
                    crate::svg_v4::push_hex(&mut out, g);
                    crate::svg_v4::push_hex(&mut out, b);
                    if a != 255 {
                        crate::svg_v4::push_hex(&mut out, a);
                    }
                    proof {
                        reveal_strlit("#");
                    }
                    assert(out@ =~= rgba_hex(r as int, g as int, b as int, a as int));
                    out
                },
                None => chars_of(default),
            }
        },
        None => chars_of(default),
    }
}

fn paint_sliceable_exec(v: Option<String>) -> (b: bool)
    ensures
        b == paint_sliceable(crate::xml::opt_str_view(v)),
{
    match v {
        Some(x) => crate::svg_v4::rgba_sliceable_exec(&crate::svg_v4::named_colour_exec(&chars_of(x.as_str()))),
        None => true,
    }
}

// ---------------------------------------------------------------------------
// Shapes, executable

fn n0_exec(e: &XmlElement, name: &str) -> (r: Px)
    ensures
        r == n0(element_view(*e), name@),
        px_wf(r),
{
    match get_attr(e, name) {
        Some(v) => match crate::svg_v4::num4_exec(&chars_of(v.as_str())) {
            Some(p) => p,
            None => Px::Fin { neg: false, mag: 0 },
        },
        None => Px::Fin { neg: false, mag: 0 },
    }
}

fn push_d(out: &mut Vec<char>, sep: &str, p: Px)
    requires
        px_wf(p),
    ensures
        final(out)@ == old(out)@ + sep@ + display_px(p),
{
    let ghost start = out@;
    append_str(out, sep);
    crate::svg_v4::push_display_px(out, p);
    assert(out@ =~= start + sep@ + display_px(p));
}

fn arc_path_exec(cx: Px, cy: Px, rx: Px, ry: Px) -> (r: Vec<char>)
    requires
        px_wf(cx),
        px_wf(cy),
        px_wf(rx),
        px_wf(ry),
    ensures
        r@ == arc_path(cx, cy, rx, ry),
{
    let mut out: Vec<char> = Vec::new();
    push_d(&mut out, "M ", crate::length::sub_px(cx, rx));
    push_d(&mut out, " ", cy);
    push_d(&mut out, " A ", rx);
    push_d(&mut out, " ", ry);
    push_d(&mut out, " 0 1 0 ", crate::svg_native::add_px(cx, rx));
    push_d(&mut out, " ", cy);
    push_d(&mut out, " A ", rx);
    push_d(&mut out, " ", ry);
    push_d(&mut out, " 0 1 0 ", crate::length::sub_px(cx, rx));
    push_d(&mut out, " ", cy);
    append_str(&mut out, " Z");
    proof {
        reveal_strlit(" Z");
    }
    assert(out@ =~= arc_path(cx, cy, rx, ry));
    out
}

fn rect_path_exec(e: &XmlElement) -> (r: Vec<char>)
    ensures
        r@ == "M "@ + display_px(n0(element_view(*e), "x"@)) + " "@ + display_px(n0(element_view(*e), "y"@)) + " H "@
            + display_px(px_add(n0(element_view(*e), "x"@), n0(element_view(*e), "width"@))) + " V "@
            + display_px(px_add(n0(element_view(*e), "y"@), n0(element_view(*e), "height"@))) + " H "@
            + display_px(n0(element_view(*e), "x"@)) + " Z"@,
{
    let x = n0_exec(e, "x");
    let y = n0_exec(e, "y");
    let mut out: Vec<char> = Vec::new();
    push_d(&mut out, "M ", x);
    push_d(&mut out, " ", y);
    push_d(&mut out, " H ", crate::svg_native::add_px(x, n0_exec(e, "width")));
    push_d(&mut out, " V ", crate::svg_native::add_px(y, n0_exec(e, "height")));
    push_d(&mut out, " H ", x);
    append_str(&mut out, " Z");
    proof {
        reveal_strlit(" Z");
        reveal_strlit("M ");
    }
    out
}

fn line_path_exec(e: &XmlElement) -> (r: Vec<char>)
    ensures
        r@ == "M "@ + display_px(n0(element_view(*e), "x1"@)) + " "@ + display_px(n0(element_view(*e), "y1"@)) + " L "@
            + display_px(n0(element_view(*e), "x2"@)) + " "@ + display_px(n0(element_view(*e), "y2"@)),
{
    let mut out: Vec<char> = Vec::new();
    push_d(&mut out, "M ", n0_exec(e, "x1"));
    push_d(&mut out, " ", n0_exec(e, "y1"));
    push_d(&mut out, " L ", n0_exec(e, "x2"));
    push_d(&mut out, " ", n0_exec(e, "y2"));
    out
}

fn poly_path_exec(points: &Vec<char>, polygon: bool) -> (r: Option<Vec<char>>)
    ensures
        crate::svg_native::opt_chars(r) == ({
            let vals = tokens_from(points@, 0, true);
            if vals.len() < 2 || vals.len() % 2 != 0 {
                None
            } else {
                Some("M "@ + vals[0] + " "@ + vals[1] + raw_pairs(vals, 2) + if polygon { " Z"@ } else { Seq::empty() })
            }
        }),
{
    let vals = crate::length::tokens_exec(points, true);
    let ghost vv = line_views(vals@);
    let n = vals.len();
    if n < 2 || n % 2 != 0 {
        return None;
    }
    let mut out = chars_of("M ");
    append_chars(&mut out, &vals[0]);
    out.push(' ');
    append_chars(&mut out, &vals[1]);
    proof {
        reveal_strlit("M ");
        reveal_strlit(" ");
        reveal_strlit(" L ");
        reveal_strlit(" Z");
    }
    let ghost head = out@;
    assert(head =~= "M "@ + vv[0] + " "@ + vv[1]);
    let mut i: usize = 2;
    while i + 1 < n
        invariant
            2 <= i <= n,
            n == vals@.len(),
            n % 2 == 0,
            i % 2 == 0,
            vv == line_views(vals@),
            out@ + raw_pairs(vv, i as int) == head + raw_pairs(vv, 2),
        decreases n - i,
    {
        let ghost before = out@;
        proof {
            reveal_strlit(" L ");
            reveal_strlit(" ");
        }
        assert(vv[i as int] == vals@[i as int]@ && vv[i + 1] == vals@[i + 1]@);
        assert(raw_pairs(vv, i as int) == " L "@ + vv[i as int] + " "@ + vv[i + 1] + raw_pairs(vv, i + 2));
        append_str(&mut out, " L ");
        append_chars(&mut out, &vals[i]);
        out.push(' ');
        append_chars(&mut out, &vals[i + 1]);
        assert(out@ =~= before + " L "@ + vv[i as int] + " "@ + vv[i + 1]);
        assert(out@ + raw_pairs(vv, i + 2) =~= before + raw_pairs(vv, i as int));
        i += 2;
    }
    assert(raw_pairs(vv, i as int) == Seq::<char>::empty());
    if polygon {
        append_str(&mut out, " Z");
    }
    assert(out@ =~= "M "@ + vv[0] + " "@ + vv[1] + raw_pairs(vv, 2) + if polygon { " Z"@ } else { Seq::empty() });
    Some(out)
}

fn shape_path_c_exec(e: &XmlElement) -> (r: Option<Vec<char>>)
    ensures
        crate::svg_native::opt_chars(r) == shape_path_c(element_view(*e)),
{
    let tag = chars_of(e.name.as_str());
    let is = |s: &str| -> (b: bool) ensures b == (tag@ == s@) { crate::svg_v4::is_text(&tag, s) };
    if is("path") {
        match get_attr(e, "d") {
            Some(d) => Some(chars_of(d.as_str())),
            None => None,
        }
    } else if is("rect") {
        Some(rect_path_exec(e))
    } else if is("circle") {
        let r = n0_exec(e, "r");
        Some(arc_path_exec(n0_exec(e, "cx"), n0_exec(e, "cy"), r, r))
    } else if is("ellipse") {
        Some(arc_path_exec(n0_exec(e, "cx"), n0_exec(e, "cy"), n0_exec(e, "rx"), n0_exec(e, "ry")))
    } else if is("line") {
        Some(line_path_exec(e))
    } else if is("polygon") || is("polyline") {
        match get_attr(e, "points") {
            Some(p) => poly_path_exec(&chars_of(p.as_str()), is("polygon")),
            None => None,
        }
    } else {
        None
    }
}

// ---------------------------------------------------------------------------
// Resources, executable

struct GradRec {
    kind: Vec<char>,
    units: Vec<char>,
    x1: Vec<char>,
    y1: Vec<char>,
    x2: Vec<char>,
    y2: Vec<char>,
    cx: Vec<char>,
    cy: Vec<char>,
    r: Vec<char>,
    fx: Vec<char>,
    fy: Vec<char>,
    stops: Vec<char>,
}

spec fn grad_rec_view(g: GradRec) -> GradC {
    GradC {
        kind: g.kind@,
        units: g.units@,
        x1: g.x1@,
        y1: g.y1@,
        x2: g.x2@,
        y2: g.y2@,
        cx: g.cx@,
        cy: g.cy@,
        r: g.r@,
        fx: g.fx@,
        fy: g.fy@,
        stops: g.stops@,
    }
}

spec fn grads_view(v: Seq<(Vec<char>, GradRec)>) -> Seq<(Seq<char>, GradC)> {
    v.map_values(|p: (Vec<char>, GradRec)| (p.0@, grad_rec_view(p.1)))
}

spec fn masks_view(v: Seq<(Vec<char>, (Vec<char>, Vec<char>))>) -> Seq<(Seq<char>, (Seq<char>, Seq<char>))> {
    v.map_values(|p: (Vec<char>, (Vec<char>, Vec<char>))| (p.0@, (p.1.0@, p.1.1@)))
}

spec fn uses_view(v: Seq<(Vec<char>, (Vec<char>, Vec<char>, Vec<char>))>) -> Seq<(Seq<char>, (Seq<char>, Seq<char>, Seq<char>))> {
    v.map_values(|p: (Vec<char>, (Vec<char>, Vec<char>, Vec<char>))| (p.0@, (p.1.0@, p.1.1@, p.1.2@)))
}

fn fy_exec(e: &XmlElement, own: &str, base: &str) -> (r: Vec<char>)
    ensures
        r@ == attr_or(element_view(*e), own@, attr_or(element_view(*e), base@, "50%"@)),
{
    match get_attr(e, own) {
        Some(v) => chars_of(v.as_str()),
        None => crate::svg_v4::attr_or_exec(e, base, "50%"),
    }
}

fn grad_c_exec(e: &XmlElement, kind: Vec<char>, stops: Vec<char>) -> (g: GradRec)
    ensures
        grad_rec_view(g) == grad_c(element_view(*e), kind@, stops@),
{
    GradRec {
        kind,
        units: attr_or_exec(e, "gradientUnits", "objectBoundingBox"),
        x1: attr_or_exec(e, "x1", "0%"),
        y1: attr_or_exec(e, "y1", "0%"),
        x2: attr_or_exec(e, "x2", "100%"),
        y2: attr_or_exec(e, "y2", "0%"),
        cx: attr_or_exec(e, "cx", "50%"),
        cy: attr_or_exec(e, "cy", "50%"),
        r: attr_or_exec(e, "r", "50%"),
        fx: fy_exec(e, "fx", "cx"),
        fy: fy_exec(e, "fy", "cy"),
        stops,
    }
}

fn gradients_c_exec(els: &Vec<XmlElement>) -> (r: Vec<(Vec<char>, GradRec)>)
    requires
        complete_sliceable_els(elements_view(els@)),
    ensures
        grads_view(r@) == gradients_c(elements_view(els@), els@.len() as int),
{
    let ghost ev = elements_view(els@);
    let mut out: Vec<(Vec<char>, GradRec)> = Vec::new();
    let mut k: usize = 0;
    while k < els.len()
        invariant
            k <= els@.len(),
            ev == elements_view(els@),
            complete_sliceable_els(ev),
            grads_view(out@) == gradients_c(ev, k as int),
        decreases els@.len() - k,
    {
        let e = &els[k];
        assert(ev[k as int] == element_view(*e));
        let name = chars_of(e.name.as_str());
        let kind = if crate::svg_v4::is_text(&name, "linearGradient") {
            Some(chars_of("linear-gradient"))
        } else if crate::svg_v4::is_text(&name, "radialGradient") {
            Some(chars_of("radial-gradient"))
        } else {
            None
        };
        match (kind, get_attr(e, "id")) {
            (Some(kind), Some(id)) => {
                assert(stops_sliceable(ev, k as int, true));
                let st = crate::svg_v4::gradient_stops_exec(els, k, true);
                if st.len() > 0 {
                    let g = grad_c_exec(e, kind, st);
                    let ghost before = grads_view(out@);
                    let ghost gv = grad_rec_view(g);
                    out.push((chars_of(id.as_str()), g));
                    assert(grads_view(out@) =~= before.push((id@, gv)));
                }
            },
            _ => {},
        }
        k += 1;
    }
    out
}

fn masks_c_exec(els: &Vec<XmlElement>) -> (r: Vec<(Vec<char>, (Vec<char>, Vec<char>))>)
    ensures
        masks_view(r@) == masks_c(elements_view(els@), els@.len() as int),
{
    let ghost ev = elements_view(els@);
    let mut out: Vec<(Vec<char>, (Vec<char>, Vec<char>))> = Vec::new();
    let mut k: usize = 0;
    while k < els.len()
        invariant
            k <= els@.len(),
            ev == elements_view(els@),
            masks_view(out@) == masks_c(ev, k as int),
        decreases els@.len() - k,
    {
        let e = &els[k];
        assert(ev[k as int] == element_view(*e));
        if crate::svg_v4::is_text(&chars_of(e.name.as_str()), "mask") {
            match get_attr(e, "id") {
                Some(id) => {
                    let u = crate::svg_v4::attr_or_exec(e, "maskUnits", "objectBoundingBox");
                    let c = crate::svg_v4::attr_or_exec(e, "maskContentUnits", "userSpaceOnUse");
                    let ghost before = masks_view(out@);
                    let ghost item = (id@, (u@, c@));
                    out.push((chars_of(id.as_str()), (u, c)));
                    assert(masks_view(out@) =~= before.push(item));
                },
                None => {},
            }
        }
        k += 1;
    }
    out
}

fn uses_c_exec(els: &Vec<XmlElement>) -> (r: Vec<(Vec<char>, (Vec<char>, Vec<char>, Vec<char>))>)
    requires
        complete_sliceable_els(elements_view(els@)),
    ensures
        uses_view(r@) == uses_c(elements_view(els@), els@.len() as int),
{
    let ghost ev = elements_view(els@);
    let mut out: Vec<(Vec<char>, (Vec<char>, Vec<char>, Vec<char>))> = Vec::new();
    let mut k: usize = 0;
    while k < els.len()
        invariant
            k <= els@.len(),
            ev == elements_view(els@),
            complete_sliceable_els(ev),
            uses_view(out@) == uses_c(ev, k as int),
        decreases els@.len() - k,
    {
        let e = &els[k];
        assert(ev[k as int] == element_view(*e));
        match get_attr(e, "id") {
            Some(id) => match shape_path_c_exec(e) {
                Some(d) => {
                    assert(paint_sliceable(attr(ev[k as int], "fill"@)));
                    let fl = paint_c_exec(get_attr(e, "fill"), "#000000");
                    let st = paint_c_exec(get_attr(e, "stroke"), "none");
                    let ghost before = uses_view(out@);
                    let ghost item = (id@, (d@, fl@, st@));
                    out.push((chars_of(id.as_str()), (d, fl, st)));
                    assert(uses_view(out@) =~= before.push(item));
                },
                None => {},
            },
            None => {},
        }
        k += 1;
    }
    out
}

fn complete_sliceable_els_exec(els: &Vec<XmlElement>) -> (b: bool)
    ensures
        b == complete_sliceable_els(elements_view(els@)),
{
    let ghost ev = elements_view(els@);
    let mut k: usize = 0;
    while k < els.len()
        invariant
            k <= els@.len(),
            ev == elements_view(els@),
            forall|i: int| 0 <= i < k && gradient_kind(ev[i].name) is Some && attr(ev[i], "id"@) is Some
                ==> #[trigger] stops_sliceable(ev, i, true),
            forall|i: int| 0 <= i < k && attr(ev[i], "id"@) is Some && shape_path_c(ev[i]) is Some
                ==> paint_sliceable(attr(#[trigger] ev[i], "fill"@)) && paint_sliceable(attr(ev[i], "stroke"@)),
        decreases els@.len() - k,
    {
        let e = &els[k];
        assert(ev[k as int] == element_view(*e));
        let name = chars_of(e.name.as_str());
        let has_id = crate::xml::has_attr(e, "id");
        if has_id && (crate::svg_v4::is_text(&name, "linearGradient") || crate::svg_v4::is_text(&name, "radialGradient")) {
            if !crate::svg_v4::stops_sliceable_exec(els, k, true) {
                return false;
            }
        }
        if has_id && shape_path_c_exec(e).is_some() {
            if !paint_sliceable_exec(get_attr(e, "fill")) || !paint_sliceable_exec(get_attr(e, "stroke")) {
                return false;
            }
        }
        k += 1;
    }
    true
}

/// Whether every colour this pass reads from `svg` can be sliced safely.
pub fn complete_sliceable_exec(svg: &str) -> (b: bool)
    ensures
        b == complete_sliceable(svg@),
{
    match crate::xml::parse_xml(svg) {
        Ok(els) => complete_sliceable_els_exec(&els),
        Err(_) => true,
    }
}

// ---------------------------------------------------------------------------
// Lines, executable

fn alias_pair(i: usize) -> (r: (&'static str, &'static str))
    requires
        i < 19,
    ensures
        r.0@ == alias_from_c(i as int),
        r.1@ == alias_to_c(i as int),
{
    match i {
        0 => ("svg-attr-transform:", "transform:"),
        1 => ("svg-attr-opacity:", "opacity:"),
        2 => ("svg-attr-fill-opacity:", "fill-opacity:"),
        3 => ("svg-attr-stroke-opacity:", "stroke-opacity:"),
        4 => ("svg-attr-viewBox:", "viewbox:"),
        5 => ("svg-attr-preserveAspectRatio:", "preserve-aspect-ratio:"),
        6 => ("svg-attr-clipPathUnits:", "clip-units:"),
        7 => ("svg-attr-maskUnits:", "mask-units:"),
        8 => ("svg-attr-maskContentUnits:", "mask-content-units:"),
        9 => ("svg-attr-font-size:", "font-size:"),
        10 => ("svg-attr-font-family:", "font-family:"),
        11 => ("svg-attr-font-weight:", "font-weight:"),
        12 => ("svg-attr-font-style:", "font-style:"),
        13 => ("svg-attr-text-anchor:", "text-anchor:"),
        14 => ("svg-attr-preserveAspectRatio:", "image-preserve-aspect-ratio:"),
        15 => ("svg-attr-x:", "source-x:"),
        16 => ("svg-attr-y:", "source-y:"),
        17 => ("svg-attr-width:", "source-width:"),
        _ => ("svg-attr-height:", "source-height:"),
    }
}

fn aliases_c_exec(out: &mut Vec<char>, t: &Vec<char>, ind: &Vec<char>)
    ensures
        final(out)@ == old(out)@ + aliases_c(t@, ind@, 19),
{
    let ghost start = out@;
    let mut i: usize = 0;
    while i < 19
        invariant
            i <= 19,
            out@ == start + aliases_c(t@, ind@, i as int),
        decreases 19 - i,
    {
        let (from, to) = alias_pair(i);
        proof {
            reveal_strlit("\n");
        }
        if starts_with_exec(t, from) {
            let m = chars_of(from).len();
            append_chars(out, ind);
            append_str(out, to);
            append_chars(out, &sub_chars(t, m, t.len()));
            out.push('\n');
        }
        assert(out@ =~= start + aliases_c(t@, ind@, i + 1));
        i += 1;
    }
}

fn last_use(m: &Vec<(Vec<char>, (Vec<char>, Vec<char>, Vec<char>))>, id: &Vec<char>) -> (r: Option<usize>)
    ensures
        match last_get(uses_view(m@), id@) {
            Some(x) => r is Some && r->0 < m@.len() && uses_view(m@)[r->0 as int].1 == x,
            None => r is None,
        },
{
    let ghost mv = uses_view(m@);
    let mut k: usize = m.len();
    assert(mv.subrange(0, k as int) =~= mv);
    while k > 0
        invariant
            k <= m@.len(),
            mv == uses_view(m@),
            last_get(mv.subrange(0, k as int), id@) == last_get(mv, id@),
        decreases k,
    {
        assert(mv.subrange(0, k as int).drop_last() =~= mv.subrange(0, k - 1));
        if crate::parser::chars_eq(&m[k - 1].0, id) {
            return Some(k - 1);
        }
        k -= 1;
    }
    None
}

fn last_grad(m: &Vec<(Vec<char>, GradRec)>, id: &Vec<char>) -> (r: Option<usize>)
    ensures
        match last_get(grads_view(m@), id@) {
            Some(x) => r is Some && r->0 < m@.len() && grad_rec_view(m@[r->0 as int].1) == x,
            None => r is None,
        },
{
    let ghost mv = grads_view(m@);
    let mut k: usize = m.len();
    assert(mv.subrange(0, k as int) =~= mv);
    while k > 0
        invariant
            k <= m@.len(),
            mv == grads_view(m@),
            last_get(mv.subrange(0, k as int), id@) == last_get(mv, id@),
        decreases k,
    {
        assert(mv.subrange(0, k as int).drop_last() =~= mv.subrange(0, k - 1));
        if crate::parser::chars_eq(&m[k - 1].0, id) {
            return Some(k - 1);
        }
        k -= 1;
    }
    None
}

fn last_mask_c(m: &Vec<(Vec<char>, (Vec<char>, Vec<char>))>, id: &Vec<char>) -> (r: Option<usize>)
    ensures
        match last_get(masks_view(m@), id@) {
            Some(x) => r is Some && r->0 < m@.len() && masks_view(m@)[r->0 as int].1 == x,
            None => r is None,
        },
{
    let ghost mv = masks_view(m@);
    let mut k: usize = m.len();
    assert(mv.subrange(0, k as int) =~= mv);
    while k > 0
        invariant
            k <= m@.len(),
            mv == masks_view(m@),
            last_get(mv.subrange(0, k as int), id@) == last_get(mv, id@),
        decreases k,
    {
        assert(mv.subrange(0, k as int).drop_last() =~= mv.subrange(0, k - 1));
        if crate::parser::chars_eq(&m[k - 1].0, id) {
            return Some(k - 1);
        }
        k -= 1;
    }
    None
}

fn href_c_exec(out: &mut Vec<char>, t: &Vec<char>, ind: &Vec<char>, uses: &Vec<(Vec<char>, (Vec<char>, Vec<char>, Vec<char>))>)
    ensures
        final(out)@ == old(out)@ + href_c(t@, ind@, uses_view(uses@)),
{
    reveal(href_c);
    let ghost start = out@;
    let rest = if starts_with_exec(t, "svg-attr-href:") {
        proof {
            reveal_strlit("svg-attr-href:");
        }
        sub_chars(t, 14, t.len())
    } else if starts_with_exec(t, "svg-attr-xlink-href:") {
        proof {
            reveal_strlit("svg-attr-xlink-href:");
        }
        sub_chars(t, 20, t.len())
    } else {
        assert(out@ =~= start + href_c(t@, ind@, uses_view(uses@)));
        return;
    };
    assert(href_rest(t@) == Some(rest@));
    append_chars(out, ind);
    append_str(out, "href:");
    append_chars(out, &rest);
    out.push('\n');
    proof {
        reveal_strlit("\n");
    }
    let ghost head = out@;
    assert(head =~= start + ind@ + "href:"@ + rest@ + "\n"@);
    match parse_rest_c_exec(&rest) {
        Some(raw) => {
            if raw.len() > 0 && raw[0] == '#' {
                let id = sub_chars(&raw, 1, raw.len());
                match last_use(uses, &id) {
                    Some(k) => {
                        let target = &uses[k].1;
                        push_prop(out, ind, "use-data", &quote4_exec(&target.0));
                        push_prop(out, ind, "use-fill", &target.1);
                        push_prop(out, ind, "use-stroke", &target.2);
                    },
                    None => {},
                }
            }
        },
        None => {},
    }
    assert(out@ =~= start + href_c(t@, ind@, uses_view(uses@)));
}

fn gradient_head_c_exec(out: &mut Vec<char>, ind: &Vec<char>, g: &GradRec)
    ensures
        final(out)@ == old(out)@ + gradient_head_c(ind@, grad_rec_view(*g)),
{
    let ghost start = out@;
    push_prop(out, ind, "fill", &g.kind);
    push_qprop(out, ind, "gradient-kind", &g.kind);
    push_qprop(out, ind, "gradient-units", &g.units);
    push_prop(out, ind, "gradient-stops", &g.stops);
    assert(out@ =~= start + gradient_head_c(ind@, grad_rec_view(*g)));
}

fn gradient_geometry_c_exec(out: &mut Vec<char>, ind: &Vec<char>, g: &GradRec)
    ensures
        final(out)@ == old(out)@ + gradient_geometry_c(ind@, grad_rec_view(*g)),
{
    let ghost start = out@;
    if crate::svg_v4::is_text(&g.kind, "linear-gradient") {
        push_qprop(out, ind, "gradient-x1", &g.x1);
        push_qprop(out, ind, "gradient-y1", &g.y1);
        push_qprop(out, ind, "gradient-x2", &g.x2);
        push_qprop(out, ind, "gradient-y2", &g.y2);
        assert(out@ =~= start + gradient_geometry_c(ind@, grad_rec_view(*g)));
    } else {
        push_qprop(out, ind, "gradient-cx", &g.cx);
        push_qprop(out, ind, "gradient-cy", &g.cy);
        push_qprop(out, ind, "gradient-r", &g.r);
        push_qprop(out, ind, "gradient-fx", &g.fx);
        push_qprop(out, ind, "gradient-fy", &g.fy);
        assert(out@ =~= start + gradient_geometry_c(ind@, grad_rec_view(*g)));
    }
}

fn gradient_props_c_exec(out: &mut Vec<char>, ind: &Vec<char>, g: &GradRec)
    ensures
        final(out)@ == old(out)@ + gradient_props_c(ind@, grad_rec_view(*g)),
{
    let ghost start = out@;
    gradient_head_c_exec(out, ind, g);
    gradient_geometry_c_exec(out, ind, g);
    assert(out@ =~= start + gradient_props_c(ind@, grad_rec_view(*g)));
}

fn gradient_c_text_exec(out: &mut Vec<char>, t: &Vec<char>, ind: &Vec<char>, grads: &Vec<(Vec<char>, GradRec)>)
    ensures
        final(out)@ == old(out)@ + gradient_c_text(t@, ind@, grads_view(grads@)),
{
    reveal(gradient_c_text);
    let ghost start = out@;
    match frag_c_exec(parse_prop_c_exec(t, "svg-fill:")) {
        Some(id) => match last_grad(grads, &id) {
            Some(k) => gradient_props_c_exec(out, ind, &grads[k].1),
            None => {},
        },
        None => {},
    }
    assert(out@ =~= start + gradient_c_text(t@, ind@, grads_view(grads@)));
}

fn mask_c_text_exec(out: &mut Vec<char>, t: &Vec<char>, ind: &Vec<char>, masks: &Vec<(Vec<char>, (Vec<char>, Vec<char>))>)
    ensures
        final(out)@ == old(out)@ + mask_c_text(t@, ind@, masks_view(masks@)),
{
    reveal(mask_c_text);
    let ghost start = out@;
    let r = match parse_prop_c_exec(t, "mask-ref:") {
        Some(v) => Some(v),
        None => parse_prop_c_exec(t, "svg-attr-mask:"),
    };
    match frag_c_exec(r) {
        Some(id) => match last_mask_c(masks, &id) {
            Some(k) => {
                push_qprop(out, ind, "mask-units", &masks[k].1.0);
                push_qprop(out, ind, "mask-content-units", &masks[k].1.1);
            },
            None => {},
        },
        None => {},
    }
    assert(out@ =~= start + mask_c_text(t@, ind@, masks_view(masks@)));
}

fn line_c_exec(out: &mut Vec<char>, line: &Vec<char>, grads: &Vec<(Vec<char>, GradRec)>,
    masks: &Vec<(Vec<char>, (Vec<char>, Vec<char>))>, uses: &Vec<(Vec<char>, (Vec<char>, Vec<char>, Vec<char>))>)
    ensures
        final(out)@ == old(out)@ + line_c(line@, ResC { grads: grads_view(grads@), masks: masks_view(masks@), uses: uses_view(uses@) }),
{
    let ghost start = out@;
    let lead = lead_len_exec(line);
    let t = sub_chars(line, lead, line.len());
    let ind = sub_chars(line, 0, lead);
    append_chars(out, line);
    out.push('\n');
    proof {
        reveal_strlit("\n");
    }
    aliases_c_exec(out, &t, &ind);
    href_c_exec(out, &t, &ind, uses);
    gradient_c_text_exec(out, &t, &ind, grads);
    mask_c_text_exec(out, &t, &ind, masks);
    assert(out@ =~= start + line_c(line@, ResC { grads: grads_view(grads@), masks: masks_view(masks@), uses: uses_view(uses@) }));
}

fn lines_c_exec(out: &mut Vec<char>, ls: &Vec<Vec<char>>, grads: &Vec<(Vec<char>, GradRec)>,
    masks: &Vec<(Vec<char>, (Vec<char>, Vec<char>))>, uses: &Vec<(Vec<char>, (Vec<char>, Vec<char>, Vec<char>))>)
    ensures
        final(out)@ == old(out)@ + lines_c(line_views(ls@), ResC { grads: grads_view(grads@), masks: masks_view(masks@), uses: uses_view(uses@) }),
{
    let ghost lv = line_views(ls@);
    let ghost res = ResC { grads: grads_view(grads@), masks: masks_view(masks@), uses: uses_view(uses@) };
    let ghost start = out@;
    let mut i: usize = 0;
    while i < ls.len()
        invariant
            i <= ls@.len(),
            lv == line_views(ls@),
            res == (ResC { grads: grads_view(grads@), masks: masks_view(masks@), uses: uses_view(uses@) }),
            out@ == start + lines_c(lv.subrange(0, i as int), res),
        decreases ls@.len() - i,
    {
        assert(lv[i as int] == ls@[i as int]@);
        line_c_exec(out, &ls[i], grads, masks, uses);
        assert(lv.subrange(0, i + 1).drop_last() =~= lv.subrange(0, i as int));
        i += 1;
    }
    assert(lv.subrange(0, i as int) =~= lv);
}

/// Promotes the source attributes, local gradients, mask units and simple
/// `<use>` targets of `svg` into the imported `source`, and says which
/// features the document uses.
pub fn promote_c_exec(svg: &str, source: &Vec<char>) -> (r: (Vec<char>, FeaturesC))
    requires
        complete_sliceable(svg@),
    ensures
        (r.0@, r.1) == promote_c(svg@, source@),
{
    let els = match crate::xml::parse_xml(svg) {
        Ok(els) => els,
        Err(_) => {
            let f = FeaturesC { viewbox: false, gradients: false, text: false, images: false, uses: false };
            return (crate::props::copy_chars(source), f);
        },
    };
    let ghost ev = elements_view(els@);
    let grads = gradients_c_exec(&els);
    let masks = masks_c_exec(&els);
    let uses = uses_c_exec(&els);
    let ls = split_lines(source);
    let mut out: Vec<char> = Vec::new();
    lines_c_exec(&mut out, &ls, &grads, &masks, &uses);
    let viewbox = els.len() > 0 && crate::xml::has_attr(&els[0], "viewBox");
    proof {
        if els@.len() > 0 {
            assert(ev[0] == element_view(els@[0]));
        }
    }
    let gradients = grads.len() > 0 && crate::srctext::contains_exec(&out, "gradient-kind:");
    let text = crate::svg_v4::any_named_exec(&els, "text") || crate::svg_v4::any_named_exec(&els, "tspan");
    let images = crate::svg_v4::any_named_exec(&els, "image");
    let uses_f = crate::svg_v4::any_named_exec(&els, "use");
    let f = FeaturesC { viewbox, gradients, text, images, uses: uses_f };
    assert(out@ =~= promote_c(svg@, source@).0);
    (out, f)
}

fn set_info_text(d: &mut ImportDiagnostic, message: &Vec<char>)
    ensures
        diag_view(*final(d)) == as_info(diag_view(*old(d)), message@),
{
    d.severity = crate::text::chars_to_string_lit("info");
    d.message = string_of(message);
}

fn adjust_c_exec(d: &mut ImportDiagnostic, f: &FeaturesC)
    ensures
        diag_view(*final(d)) == adjust_c(diag_view(*old(d)), *f),
{
    let code = chars_of(d.code.as_str());
    let m = chars_of(d.message.as_str());
    let is = |s: &str| -> (b: bool) ensures b == (code@ == s@) { crate::svg_v4::is_text(&code, s) };
    proof {
        reveal_strlit("is preserved but not yet represented by the renderer");
        reveal_strlit("unsupported");
        reveal_strlit("preserved but not rendered");
    }
    if is("S120") && f.viewbox {
        crate::svg_v4::set_info(d, "viewBox is represented by native SRNG viewbox/preserve-aspect-ratio semantics");
    } else if is("S131") && crate::srctext::contains_exec(&m, "opacity") {
        let msg = replace_all_exec(&m, "is preserved but not yet represented by the renderer",
            "is represented by native SRNG opacity semantics");
        set_info_text(d, &msg);
    } else if is("S230") && f.gradients && crate::srctext::contains_exec(&m, "url(#") {
        let a = replace_all_exec(&m, "unsupported", "native gradient");
        let msg = replace_all_exec(&a, "preserved but not rendered", "mapped to SRNG gradient semantics");
        set_info_text(d, &msg);
    } else if is("S301") && f.text {
        crate::svg_v4::set_info(d,
            "text is represented natively and uses the practical text rendering path when no outline data is present");
    } else if is("S302") && f.images && crate::srctext::contains_exec(&m, "<image>") {
        crate::svg_v4::set_info(d, "embedded/local image metadata is represented by native SRNG image properties");
    } else if is("S302") && f.uses && crate::srctext::contains_exec(&m, "<use>") {
        crate::svg_v4::set_info(d, "simple <use> references are resolved to native SRNG path semantics");
    }
}

/// Imports SVG and promotes its source attributes, local gradients, mask
/// units and simple `<use>` targets to native SRNG properties.
pub fn import_svg(svg: &str, source_name: &str, options: &ImportOptions) -> (r: ImportResult)
    requires
        complete_sliceable(svg@),
    ensures
        (r.source@, diags_of(r.diagnostics@)) == import_c_spec(svg@, source_name@, crate::xml::opt_str_view(options.file_id),
            options.preserve_source_attributes),
{
    let base = crate::svg_native::import_svg(svg, source_name, options);
    let (s1, f) = promote_c_exec(svg, &chars_of(base.source.as_str()));
    let mut diags = base.diagnostics;
    let ghost dv0 = diags_of(diags@);
    let mut k: usize = 0;
    while k < diags.len()
        invariant
            k <= diags@.len(),
            diags@.len() == dv0.len(),
            forall|j: int| 0 <= j < k ==> #[trigger] diag_view(diags@[j]) == adjust_c(dv0[j], f),
            forall|j: int| k <= j < diags@.len() ==> #[trigger] diag_view(diags@[j]) == dv0[j],
        decreases diags@.len() - k,
    {
        let mut d = crate::svg_import::copy_diag(&diags[k]);
        adjust_c_exec(&mut d, &f);
        diags.set(k, d);
        k += 1;
    }
    assert(diags_of(diags@) =~= dv0.map_values(|d: DiagV| adjust_c(d, f)));
    ImportResult { source: string_of(&s1), diagnostics: diags }
}

/// The import of this pass for every document: nothing when a colour it
/// reads from `svg` cannot be sliced safely.
pub fn import_svg_checked(svg: &str, source_name: &str, options: &ImportOptions) -> (r: Option<ImportResult>)
    ensures
        match r {
            Some(res) => complete_sliceable(svg@) && (res.source@, diags_of(res.diagnostics@)) == import_c_spec(svg@,
                source_name@, crate::xml::opt_str_view(options.file_id), options.preserve_source_attributes),
            None => !complete_sliceable(svg@),
        },
{
    if complete_sliceable_exec(svg) {
        Some(import_svg(svg, source_name, options))
    } else {
        None
    }
}

// ---------------------------------------------------------------------------
// Laws

/// The promotion reports native gradients only when it wrote a gradient
/// declaration.
pub proof fn law_gradient_flag_is_honest(svg: Seq<char>, source: Seq<char>)
    ensures
        promote_c(svg, source).1.gradients ==> contains(promote_c(svg, source).0, "gradient-kind:"@),
{
}

/// The import keeps every diagnostic of the native import, in order, with
/// its code and element; it only turns some into information.
pub proof fn law_complete_keeps_diagnostics(svg: Seq<char>, name: Seq<char>, file_id: Option<Seq<char>>, keep: bool)
    ensures
        ({
            let ds = crate::svg_native::native_import_spec(svg, name, file_id, keep).1;
            let out = import_c_spec(svg, name, file_id, keep).1;
            &&& out.len() == ds.len()
            &&& forall|i: int| 0 <= i < ds.len() ==> #[trigger] out[i].code == ds[i].code && out[i].element == ds[i].element
                && (out[i] == ds[i] || out[i].severity == "info"@)
        }),
{
}

} // verus!
