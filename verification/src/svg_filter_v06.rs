//! Filter graphs: each SVG `<filter>` with an id becomes a native filter
//! graph, with its units and region, on the lines that use it, over the
//! final import. The values of colour-matrix primitives are computed in
//! floating point by the caller and handed in, one per request.
use vstd::prelude::*;
use crate::font::split_from;
use crate::formatter::{line_views, lines, split_lines, trim, trim_chars};
use crate::image::{find_char, find_char_exec};
use crate::ir::{decimal, push_decimal};
use crate::length::{parse_px, parse_px_exec, px_wf, tokens_from, Px};
use crate::srctext::{
    contains, ends_with, ends_with_exec, lead_len, lead_len_exec, replace_all, replace_all_exec, starts_with,
    starts_with_exec, trim_start, url_fragment, url_fragment_exec,
};
use crate::svg_import::{diag_view, diags_of, DiagV, ImportDiagnostic, ImportOptions, ImportResult};
use crate::svg_v4::{
    as_info, attr_or, attr_or_exec, channel, colour_bytes4, is_text, join_with, last_get, prop, push_prop, push_qprop, quote4,
    rgba_sliceable, stop_alpha, v4_sliceable,
};
use crate::text::{append_chars, append_str, chars_of, string_of, sub_chars};
use crate::xml::{attr, element_view, elements_view, get_attr, xml_elements, ElementView, XmlElement};

verus! {

// ---------------------------------------------------------------------------
// Values

/// This pass's reading of a quoted value: trimmed, and inside quotes the
/// escapes `\n`, `\"` and `\\` replaced one after another.
pub open spec fn unquote_f(v: Seq<char>) -> Seq<char> {
    let t = trim(v);
    if t.len() >= 2 && t[0] == '"' && t.last() == '"' {
        replace_all(replace_all(replace_all(t.subrange(1, t.len() - 1), "\\n"@, "\n"@), "\\\""@, "\""@), "\\\\"@, "\\"@)
    } else {
        t
    }
}

/// The unquoted value of a `prefix value;` line.
pub open spec fn parse_prop_f(line: Seq<char>, prefix: Seq<char>) -> Option<Seq<char>> {
    if starts_with(line, prefix) {
        let r = trim(line.subrange(prefix.len() as int, line.len() as int));
        if ends_with(r, ";"@) { Some(unquote_f(trim(r.subrange(0, r.len() - 1)))) } else { None }
    } else {
        None
    }
}

// ---------------------------------------------------------------------------
// Primitives

/// ` key=value` when the attribute is present.
pub open spec fn in_part(e: ElementView, key: Seq<char>) -> Seq<char> {
    match attr(e, key) {
        Some(v) => " "@ + key + "="@ + v,
        None => Seq::empty(),
    }
}

/// The result name of the `n`-th primitive of a filter.
pub open spec fn result_name(e: ElementView, n: nat) -> Seq<char> {
    match attr(e, "result"@) {
        Some(v) => v,
        None => "_filter_"@ + decimal(n),
    }
}

pub open spec fn item_or(v: Seq<Seq<char>>, i: int, d: Seq<char>) -> Seq<char> {
    if 0 <= i < v.len() { v[i] } else { d }
}

/// The first two numbers of a list, the second defaulting to the first.
pub open spec fn pair_of(v: Seq<char>) -> (Seq<char>, Seq<char>) {
    let t = tokens_from(v, 0, true);
    let x = item_or(t, 0, "0"@);
    (x, item_or(t, 1, x))
}

/// Whether element `k` is an element child of element `j`.
pub open spec fn child_of(els: Seq<ElementView>, k: int, j: int) -> bool {
    0 <= j < els.len() && 0 <= k < els.len() && els[k].parent == Some(els[j].id)
}

/// The `in` of each `feMergeNode` child of `j` from element `k` on.
pub open spec fn merge_inputs(els: Seq<ElementView>, j: int, k: int) -> Seq<Seq<char>>
    decreases els.len() - k,
{
    if k < 0 || k >= els.len() {
        Seq::empty()
    } else {
        let rest = merge_inputs(els, j, k + 1);
        if child_of(els, k, j) && els[k].name == "feMergeNode"@ && attr(els[k], "in"@) is Some {
            seq![attr(els[k], "in"@)->0] + rest
        } else {
            rest
        }
    }
}

/// The first child of `j` named `name` from element `k` on.
pub open spec fn first_child(els: Seq<ElementView>, j: int, name: Seq<char>, k: int) -> Option<int>
    decreases els.len() - k,
{
    if k < 0 || k >= els.len() {
        None
    } else if child_of(els, k, j) && els[k].name == name {
        Some(k)
    } else {
        first_child(els, j, name, k + 1)
    }
}

/// A transfer function as text.
pub open spec fn transfer_text(e: ElementView) -> Seq<char> {
    let ty = attr_or(e, "type"@, "identity"@);
    if ty == "table"@ {
        "table:"@ + join_with(tokens_from(attr_or(e, "tableValues"@, Seq::empty()), 0, true), "|"@)
    } else if ty == "discrete"@ {
        "discrete:"@ + join_with(tokens_from(attr_or(e, "tableValues"@, Seq::empty()), 0, true), "|"@)
    } else if ty == "linear"@ {
        "linear:"@ + attr_or(e, "slope"@, "1"@) + "|"@ + attr_or(e, "intercept"@, "0"@)
    } else if ty == "gamma"@ {
        "gamma:"@ + attr_or(e, "amplitude"@, "1"@) + "|"@ + attr_or(e, "exponent"@, "1"@) + "|"@ + attr_or(e, "offset"@, "0"@)
    } else {
        "identity"@
    }
}

pub open spec fn func_name(c: int) -> Seq<char> {
    if c == 0 { "feFuncR"@ } else if c == 1 { "feFuncG"@ } else if c == 2 { "feFuncB"@ } else { "feFuncA"@ }
}

pub open spec fn func_key(c: int) -> Seq<char> {
    if c == 0 { "r"@ } else if c == 1 { "g"@ } else if c == 2 { "b"@ } else { "a"@ }
}

/// `key=function` for each of the first `c` channels that `j` has a
/// function for.
pub open spec fn transfer_fields(els: Seq<ElementView>, j: int, c: int) -> Seq<Seq<char>>
    decreases c,
{
    if c <= 0 {
        Seq::empty()
    } else {
        let prev = transfer_fields(els, j, c - 1);
        match first_child(els, j, func_name(c - 1), j + 1) {
            Some(k) => prev.push(func_key(c - 1) + "="@ + transfer_text(els[k])),
            None => prev,
        }
    }
}

/// Colour and opacity of a flood after its `style` entries.
pub open spec fn flood_style(colour: Seq<char>, opacity: Px, parts: Seq<Seq<char>>) -> (Seq<char>, Px)
    decreases parts.len(),
{
    if parts.len() == 0 {
        (colour, opacity)
    } else {
        let (c0, o0) = flood_style(colour, opacity, parts.drop_last());
        let p = parts.last();
        let k = find_char(p, ':', 0);
        if k >= p.len() {
            (c0, o0)
        } else if trim(p.subrange(0, k)) == "flood-color"@ {
            (trim(p.subrange(k + 1, p.len() as int)), o0)
        } else if trim(p.subrange(0, k)) == "flood-opacity"@ {
            (c0, match parse_px(trim(p.subrange(k + 1, p.len() as int))) {
                Some(o) => o,
                None => o0,
            })
        } else {
            (c0, o0)
        }
    }
}

pub open spec fn flood_colour_opacity(e: ElementView) -> (Seq<char>, Px) {
    let c = attr_or(e, "flood-color"@, "#000000"@);
    let o = match attr(e, "flood-opacity"@) {
        Some(v) => match parse_px(trim(v)) {
            Some(p) => p,
            None => crate::svg_native::one_px(),
        },
        None => crate::svg_native::one_px(),
    };
    match attr(e, "style"@) {
        Some(st) => flood_style(c, o, split_from(st, ';', 0)),
        None => (c, o),
    }
}

pub open spec fn channel0(x: u8, y: u8) -> int {
    match channel(x, y) {
        Some(v) => v,
        None => 0,
    }
}

/// The channels of a flood colour: a few names, hex colours with unreadable
/// channels as zero, opaque black otherwise.
pub open spec fn flood_rgba(v: Seq<char>) -> (int, int, int, int) {
    let t = trim(v);
    if crate::number::eq_ignore_case(t, "transparent"@) {
        (0, 0, 0, 0)
    } else if crate::number::eq_ignore_case(t, "black"@) {
        (0, 0, 0, 255)
    } else if crate::number::eq_ignore_case(t, "white"@) {
        (255, 255, 255, 255)
    } else if crate::number::eq_ignore_case(t, "red"@) {
        (255, 0, 0, 255)
    } else if crate::number::eq_ignore_case(t, "green"@) {
        (0, 128, 0, 255)
    } else if crate::number::eq_ignore_case(t, "blue"@) {
        (0, 0, 255, 255)
    } else if t.len() == 0 || t[0] != '#' {
        (0, 0, 0, 255)
    } else {
        let h = colour_bytes4(t);
        if h.len() == 3 {
            (channel0(h[0], h[0]), channel0(h[1], h[1]), channel0(h[2], h[2]), 255)
        } else if h.len() == 4 {
            (channel0(h[0], h[0]), channel0(h[1], h[1]), channel0(h[2], h[2]), channel0(h[3], h[3]))
        } else if h.len() == 6 {
            (channel0(h[0], h[1]), channel0(h[2], h[3]), channel0(h[4], h[5]), 255)
        } else if h.len() == 8 {
            (channel0(h[0], h[1]), channel0(h[2], h[3]), channel0(h[4], h[5]), channel0(h[6], h[7]))
        } else {
            (0, 0, 0, 255)
        }
    }
}

/// A flood as `#rrggbbaa`, its opacity folded into the alpha.
pub open spec fn flood_text(e: ElementView) -> Seq<char> {
    let (c, o) = flood_colour_opacity(e);
    let (r, g, b, a) = flood_rgba(c);
    "#"@ + crate::resources::hex2(r) + crate::resources::hex2(g) + crate::resources::hex2(b) + crate::resources::hex2(
        stop_alpha(a, o),
    )
}

pub open spec fn known_primitive(tag: Seq<char>) -> bool {
    tag == "feGaussianBlur"@ || tag == "feOffset"@ || tag == "feBlend"@ || tag == "feComposite"@ || tag == "feColorMatrix"@
        || tag == "feFlood"@ || tag == "feMerge"@ || tag == "feMorphology"@ || tag == "feComponentTransfer"@
}

/// The `k1..k4` coefficients of an arithmetic composite.
pub open spec fn coefficients(e: ElementView) -> Seq<char> {
    if attr_or(e, "operator"@, "over"@) == "arithmetic"@ {
        " k1="@ + attr_or(e, "k1"@, "0"@) + " k2="@ + attr_or(e, "k2"@, "0"@) + " k3="@ + attr_or(e, "k3"@, "0"@) + " k4="@
            + attr_or(e, "k4"@, "0"@)
    } else {
        Seq::empty()
    }
}

/// The arguments of primitive `j` inside its brackets.
pub open spec fn arguments(els: Seq<ElementView>, j: int, m: Seq<char>) -> Seq<char> {
    let e = els[j];
    let tag = e.name;
    let input = in_part(e, "in"@);
    if tag == "feGaussianBlur"@ {
        let (sx, sy) = pair_of(attr_or(e, "stdDeviation"@, "0"@));
        input + " sigma_x="@ + sx + " sigma_y="@ + sy
    } else if tag == "feOffset"@ {
        input + " dx="@ + attr_or(e, "dx"@, "0"@) + " dy="@ + attr_or(e, "dy"@, "0"@)
    } else if tag == "feBlend"@ {
        input + in_part(e, "in2"@) + " mode="@ + attr_or(e, "mode"@, "normal"@)
    } else if tag == "feComposite"@ {
        input + in_part(e, "in2"@) + " operator="@ + attr_or(e, "operator"@, "over"@) + coefficients(e)
    } else if tag == "feColorMatrix"@ {
        input + " values="@ + m
    } else if tag == "feFlood"@ {
        "color="@ + flood_text(e)
    } else if tag == "feMerge"@ {
        let ins = merge_inputs(els, j, j + 1);
        if ins.len() == 0 { "SourceGraphic"@ } else { join_with(ins, " "@) }
    } else if tag == "feMorphology"@ {
        let (rx, ry) = pair_of(attr_or(e, "radius"@, "0"@));
        input + " operator="@ + attr_or(e, "operator"@, "erode"@) + " radius_x="@ + rx + " radius_y="@ + ry
    } else if tag == "feComponentTransfer"@ {
        input + " "@ + join_with(transfer_fields(els, j, 4), " "@)
    } else {
        input
    }
}

/// The graph statement of primitive `j`, the `n`-th child of its filter,
/// with `m` as the values of a colour matrix.
pub open spec fn statement(els: Seq<ElementView>, j: int, n: nat, m: Seq<char>) -> Seq<char> {
    els[j].name + "("@ + arguments(els, j, m) + ")->"@ + result_name(els[j], n)
}

// ---------------------------------------------------------------------------
// Filters

/// Statements and unsupported primitives of a filter so far, and how many
/// colour matrices have been used.
pub struct GraphAcc {
    pub stmts: Seq<Seq<char>>,
    pub unsupported: Seq<Seq<char>>,
    pub cursor: int,
}

/// The `k`-th matrix handed in; a missing one reads as empty.
pub open spec fn matrix_at(ms: Seq<Seq<char>>, k: int) -> Seq<char> {
    if 0 <= k < ms.len() { ms[k] } else { Seq::empty() }
}

/// The graph of filter `i` after its children from element `j` on.
pub open spec fn graph_from(els: Seq<ElementView>, i: int, j: int, acc: GraphAcc, ms: Seq<Seq<char>>) -> GraphAcc
    decreases els.len() - j,
{
    if j < 0 || j >= els.len() {
        acc
    } else if child_of(els, j, i) {
        let tag = els[j].name;
        let st = statement(els, j, (acc.stmts.len() + 1) as nat, matrix_at(ms, acc.cursor));
        graph_from(els, i, j + 1, GraphAcc {
            stmts: acc.stmts.push(st),
            unsupported: if known_primitive(tag) { acc.unsupported } else { acc.unsupported.push(tag) },
            cursor: if tag == "feColorMatrix"@ && acc.cursor < ms.len() { acc.cursor + 1 } else { acc.cursor },
        }, ms)
    } else {
        graph_from(els, i, j + 1, acc, ms)
    }
}

pub struct FilterV {
    pub graph: Seq<char>,
    pub units: Seq<char>,
    pub primitive_units: Seq<char>,
    pub x: Seq<char>,
    pub y: Seq<char>,
    pub width: Seq<char>,
    pub height: Seq<char>,
    pub unsupported: Seq<Seq<char>>,
}

pub open spec fn filter_v(e: ElementView, acc: GraphAcc) -> FilterV {
    FilterV {
        graph: join_with(acc.stmts, "; "@),
        units: attr_or(e, "filterUnits"@, "objectBoundingBox"@),
        primitive_units: attr_or(e, "primitiveUnits"@, "userSpaceOnUse"@),
        x: attr_or(e, "x"@, "-10%"@),
        y: attr_or(e, "y"@, "-10%"@),
        width: attr_or(e, "width"@, "120%"@),
        height: attr_or(e, "height"@, "120%"@),
        unsupported: acc.unsupported,
    }
}

pub open spec fn is_filter(e: ElementView) -> bool {
    e.name == "filter"@ && attr(e, "id"@) is Some
}

/// The filters with at least one primitive among the first `k` elements,
/// by id, and how many colour matrices they used.
pub open spec fn filters_f(els: Seq<ElementView>, k: int, ms: Seq<Seq<char>>) -> (Seq<(Seq<char>, FilterV)>, int)
    decreases k,
{
    if k <= 0 || k > els.len() {
        (Seq::empty(), 0)
    } else {
        let (prev, cur) = filters_f(els, k - 1, ms);
        let e = els[k - 1];
        if is_filter(e) {
            let acc = graph_from(els, k - 1, k, GraphAcc { stmts: Seq::empty(), unsupported: Seq::empty(), cursor: cur }, ms);
            if acc.stmts.len() == 0 {
                (prev, acc.cursor)
            } else {
                (prev.push((attr(e, "id"@)->0, filter_v(e, acc))), acc.cursor)
            }
        } else {
            (prev, cur)
        }
    }
}

/// Type and values of each colour matrix among the children of filter `i`
/// from element `j` on.
pub open spec fn requests_from(els: Seq<ElementView>, i: int, j: int) -> Seq<(Seq<char>, Option<Seq<char>>)>
    decreases els.len() - j,
{
    if j < 0 || j >= els.len() {
        Seq::empty()
    } else if child_of(els, j, i) && els[j].name == "feColorMatrix"@ {
        seq![(attr_or(els[j], "type"@, "matrix"@), attr(els[j], "values"@))] + requests_from(els, i, j + 1)
    } else {
        requests_from(els, i, j + 1)
    }
}

/// The colour matrices of the filters among the first `k` elements.
pub open spec fn matrix_requests(els: Seq<ElementView>, k: int) -> Seq<(Seq<char>, Option<Seq<char>>)>
    decreases k,
{
    if k <= 0 || k > els.len() {
        Seq::empty()
    } else if is_filter(els[k - 1]) {
        matrix_requests(els, k - 1) + requests_from(els, k - 1, k)
    } else {
        matrix_requests(els, k - 1)
    }
}

/// Type and values of every colour-matrix primitive this pass reads, in
/// order: the caller computes their matrices.
pub open spec fn colour_matrix_requests_spec(svg: Seq<char>) -> Seq<(Seq<char>, Option<Seq<char>>)> {
    match xml_elements(svg) {
        Ok(els) => matrix_requests(els, els.len() as int),
        Err(_) => Seq::empty(),
    }
}

/// Whether the flood colour of element `j`, read when `j` is a primitive of
/// filter `i`, can be sliced safely.
pub open spec fn flood_ok(els: Seq<ElementView>, i: int, j: int) -> bool {
    (0 <= i < j < els.len() && is_filter(els[i]) && child_of(els, j, i) && els[j].name == "feFlood"@) ==> rgba_sliceable(
        flood_colour_opacity(els[j]).0,
    )
}

pub open spec fn filter_sliceable(svg: Seq<char>) -> bool {
    match xml_elements(svg) {
        Ok(els) => forall|i: int, j: int| #[trigger] flood_ok(els, i, j),
        Err(_) => true,
    }
}

// ---------------------------------------------------------------------------
// Diagnostics and lines

/// No later filter has the same id.
pub open spec fn live(fs: Seq<(Seq<char>, FilterV)>, i: int) -> bool {
    forall|j: int| i < j < fs.len() ==> fs[j].0 != fs[i].0
}

pub open spec fn s360(name: Seq<char>) -> DiagV {
    DiagV {
        severity: "warning"@,
        code: "S360"@,
        message: "unsupported filter primitive <"@ + name
            + "> is retained as an explicit native filter-graph node and will be diagnosed and bypassed by the CPU renderer"@,
        element: None,
    }
}

/// A warning for each unsupported primitive of the first `k` filters that
/// no later filter replaces.
pub open spec fn unsupported_diags(fs: Seq<(Seq<char>, FilterV)>, k: int) -> Seq<DiagV>
    decreases k,
{
    if k <= 0 || k > fs.len() {
        Seq::empty()
    } else {
        unsupported_diags(fs, k - 1) + if live(fs, k - 1) {
            fs[k - 1].1.unsupported.map_values(|n: Seq<char>| s360(n))
        } else {
            Seq::empty()
        }
    }
}

pub open spec fn filter_props(ind: Seq<char>, f: FilterV) -> Seq<char> {
    prop(ind, "filter-graph"@, quote4(f.graph)) + prop(ind, "filter-units"@, quote4(f.units)) + prop(ind,
        "filter-primitive-units"@, quote4(f.primitive_units)) + prop(ind, "filter-x"@, quote4(f.x)) + prop(ind, "filter-y"@,
        quote4(f.y)) + prop(ind, "filter-width"@, quote4(f.width)) + prop(ind, "filter-height"@, quote4(f.height))
}

/// One line and, when it names a filter, the filter's graph.
#[verifier::opaque]
pub open spec fn filter_line(line: Seq<char>, fs: Seq<(Seq<char>, FilterV)>) -> Seq<char> {
    let t = trim_start(line);
    let ind = line.subrange(0, lead_len(line));
    let raw = match parse_prop_f(t, "svg-attr-filter:"@) {
        Some(v) => Some(v),
        None => parse_prop_f(t, "svg-filter:"@),
    };
    line + "\n"@ + match raw {
        Some(r) => match url_fragment(r) {
            Some(id) => match last_get(fs, id) {
                Some(f) => filter_props(ind, f),
                None => Seq::empty(),
            },
            None => Seq::empty(),
        },
        None => Seq::empty(),
    }
}

pub open spec fn filter_lines(ls: Seq<Seq<char>>, fs: Seq<(Seq<char>, FilterV)>) -> Seq<char>
    decreases ls.len(),
{
    if ls.len() == 0 {
        Seq::empty()
    } else {
        filter_lines(ls.drop_last(), fs) + filter_line(ls.last(), fs)
    }
}

pub open spec fn adjust_f(d: DiagV) -> DiagV {
    if d.code == "S131"@ && contains(d.message, "filter"@) {
        as_info(d, "SVG filter is represented by native SRNG filter-graph semantics"@)
    } else {
        d
    }
}

/// The import of this pass, `ms` holding the values of each colour matrix.
pub open spec fn import_f_spec(svg: Seq<char>, name: Seq<char>, file_id: Option<Seq<char>>, keep: bool, ms: Seq<Seq<char>>) -> (
    Seq<char>,
    Seq<DiagV>,
) {
    let (s0, d0) = crate::svg::import_spec(svg, name, file_id, keep);
    match xml_elements(svg) {
        Err(_) => (s0, d0),
        Ok(els) => {
            let fs = filters_f(els, els.len() as int, ms).0;
            (filter_lines(lines(s0), fs), filter_diags(d0, fs))
        },
    }
}

/// The diagnostics of the filter import over those of the final import.
pub open spec fn filter_diags(d0: Seq<DiagV>, fs: Seq<(Seq<char>, FilterV)>) -> Seq<DiagV> {
    let d1 = d0 + unsupported_diags(fs, fs.len() as int);
    if fs.len() > 0 { d1.map_values(|d: DiagV| adjust_f(d)) } else { d1 }
}

// ---------------------------------------------------------------------------
// Values and primitives, executable

fn unquote_f_exec(v: &Vec<char>) -> (r: Vec<char>)
    ensures
        r@ == unquote_f(v@),
{
    let t = trim_chars(v);
    let n = t.len();
    if !(n >= 2 && t[0] == '"' && t[n - 1] == '"') {
        return t;
    }
    let inner = sub_chars(&t, 1, n - 1);
    proof {
        reveal_strlit("\\\"");
        reveal_strlit("\\n");
        reveal_strlit("\\\\");
    }
    let a = replace_all_exec(&inner, "\\n", "\n");
    let b = replace_all_exec(&a, "\\\"", "\"");
    replace_all_exec(&b, "\\\\", "\\")
}

fn parse_prop_f_exec(line: &Vec<char>, prefix: &str) -> (r: Option<Vec<char>>)
    ensures
        crate::svg_native::opt_chars(r) == parse_prop_f(line@, prefix@),
{
    if !starts_with_exec(line, prefix) {
        return None;
    }
    let m = chars_of(prefix).len();
    let r = trim_chars(&sub_chars(line, m, line.len()));
    proof {
        reveal_strlit(";");
    }
    if ends_with_exec(&r, ";") {
        Some(unquote_f_exec(&trim_chars(&sub_chars(&r, 0, r.len() - 1))))
    } else {
        None
    }
}

fn in_part_exec(out: &mut Vec<char>, e: &XmlElement, key: &str)
    ensures
        final(out)@ == old(out)@ + in_part(element_view(*e), key@),
{
    let ghost start = out@;
    match get_attr(e, key) {
        Some(v) => {
            append_str(out, " ");
            append_str(out, key);
            append_str(out, "=");
            append_str(out, v.as_str());
            assert(out@ =~= start + in_part(element_view(*e), key@));
        },
        None => {
            assert(out@ =~= start + in_part(element_view(*e), key@));
        },
    }
}

fn result_name_exec(out: &mut Vec<char>, e: &XmlElement, n: usize)
    ensures
        final(out)@ == old(out)@ + result_name(element_view(*e), n as nat),
{
    let ghost start = out@;
    match get_attr(e, "result") {
        Some(v) => {
            append_str(out, v.as_str());
        },
        None => {
            append_str(out, "_filter_");
            push_decimal(out, n);
        },
    }
    assert(out@ =~= start + result_name(element_view(*e), n as nat));
}

fn pair_of_exec(v: &Vec<char>) -> (r: (Vec<char>, Vec<char>))
    ensures
        (r.0@, r.1@) == pair_of(v@),
{
    let t = crate::length::tokens_exec(v, true);
    let ghost tv = line_views(t@);
    let x = if t.len() > 0 {
        crate::props::copy_chars(&t[0])
    } else {
        chars_of("0")
    };
    let y = if t.len() > 1 {
        crate::props::copy_chars(&t[1])
    } else {
        crate::props::copy_chars(&x)
    };
    proof {
        if tv.len() > 0 {
            assert(tv[0] == t@[0]@);
        }
        if tv.len() > 1 {
            assert(tv[1] == t@[1]@);
        }
    }
    (x, y)
}

fn merge_inputs_exec(els: &Vec<XmlElement>, j: usize) -> (r: Vec<Vec<char>>)
    requires
        j < els@.len(),
    ensures
        line_views(r@) == merge_inputs(elements_view(els@), j as int, j + 1),
{
    let ghost ev = elements_view(els@);
    let n = els.len();
    let mut acc: Vec<Vec<char>> = Vec::new();
    let mut k: usize = j + 1;
    assert(line_views(acc@) =~= Seq::<Seq<char>>::empty());
    while k < n
        invariant
            j < k <= n,
            n == els@.len(),
            ev == elements_view(els@),
            line_views(acc@) + merge_inputs(ev, j as int, k as int) == merge_inputs(ev, j as int, j + 1),
        decreases n - k,
    {
        assert(ev[k as int] == element_view(els@[k as int]));
        assert(ev[j as int] == element_view(els@[j as int]));
        if els[k].parent == Some(els[j].id) && is_text(&chars_of(els[k].name.as_str()), "feMergeNode") {
            match get_attr(&els[k], "in") {
                Some(v) => {
                    let ghost before = line_views(acc@);
                    acc.push(chars_of(v.as_str()));
                    assert(line_views(acc@) =~= before.push(v@));
                    assert(before.push(v@) + merge_inputs(ev, j as int, k + 1) =~= before + merge_inputs(ev, j as int, k as int));
                },
                None => {},
            }
        }
        k += 1;
    }
    assert(line_views(acc@) + merge_inputs(ev, j as int, k as int) =~= line_views(acc@));
    acc
}

fn first_child_exec(els: &Vec<XmlElement>, j: usize, name: &str) -> (r: Option<usize>)
    requires
        j < els@.len(),
    ensures
        match first_child(elements_view(els@), j as int, name@, j + 1) {
            Some(k) => r is Some && r->0 == k && k < els@.len(),
            None => r is None,
        },
{
    let ghost ev = elements_view(els@);
    let n = els.len();
    let mut k: usize = j + 1;
    while k < n
        invariant
            j < k <= n,
            n == els@.len(),
            ev == elements_view(els@),
            first_child(ev, j as int, name@, k as int) == first_child(ev, j as int, name@, j + 1),
        decreases n - k,
    {
        assert(ev[k as int] == element_view(els@[k as int]));
        assert(ev[j as int] == element_view(els@[j as int]));
        if els[k].parent == Some(els[j].id) && is_text(&chars_of(els[k].name.as_str()), name) {
            return Some(k);
        }
        k += 1;
    }
    None
}

/// The items joined by `sep`; nothing for no items.
fn join_all_exec(rs: &Vec<Vec<char>>, sep: &str) -> (r: Vec<char>)
    ensures
        r@ == join_with(line_views(rs@), sep@),
{
    if rs.len() == 0 {
        return Vec::new();
    }
    crate::svg_v4::join_exec(rs, sep)
}

fn transfer_text_exec(e: &XmlElement) -> (r: Vec<char>)
    ensures
        r@ == transfer_text(element_view(*e)),
{
    let ty = attr_or_exec(e, "type", "identity");
    let mut out: Vec<char> = Vec::new();
    if is_text(&ty, "table") || is_text(&ty, "discrete") {
        append_chars(&mut out, &ty);
        out.push(':');
        let vals = attr_or_exec(e, "tableValues", "");
        proof {
            reveal_strlit("");
        }
        let toks = crate::length::tokens_exec(&vals, true);
        append_chars(&mut out, &join_all_exec(&toks, "|"));
        proof {
            reveal_strlit("table:");
            reveal_strlit("table");
            reveal_strlit("discrete:");
            reveal_strlit("discrete");
        }
    } else if is_text(&ty, "linear") {
        append_str(&mut out, "linear:");
        append_chars(&mut out, &attr_or_exec(e, "slope", "1"));
        append_str(&mut out, "|");
        append_chars(&mut out, &attr_or_exec(e, "intercept", "0"));
    } else if is_text(&ty, "gamma") {
        append_str(&mut out, "gamma:");
        append_chars(&mut out, &attr_or_exec(e, "amplitude", "1"));
        append_str(&mut out, "|");
        append_chars(&mut out, &attr_or_exec(e, "exponent", "1"));
        append_str(&mut out, "|");
        append_chars(&mut out, &attr_or_exec(e, "offset", "0"));
    } else {
        append_str(&mut out, "identity");
    }
    assert(out@ =~= transfer_text(element_view(*e)));
    out
}

fn func_pair(c: usize) -> (r: (&'static str, &'static str))
    requires
        c < 4,
    ensures
        r.0@ == func_name(c as int),
        r.1@ == func_key(c as int),
{
    match c {
        0 => ("feFuncR", "r"),
        1 => ("feFuncG", "g"),
        2 => ("feFuncB", "b"),
        _ => ("feFuncA", "a"),
    }
}

fn transfer_fields_exec(els: &Vec<XmlElement>, j: usize) -> (r: Vec<Vec<char>>)
    requires
        j < els@.len(),
    ensures
        line_views(r@) == transfer_fields(elements_view(els@), j as int, 4),
{
    let ghost ev = elements_view(els@);
    let mut out: Vec<Vec<char>> = Vec::new();
    let mut c: usize = 0;
    assert(line_views(out@) =~= transfer_fields(ev, j as int, 0));
    while c < 4
        invariant
            c <= 4,
            j < els@.len(),
            ev == elements_view(els@),
            line_views(out@) == transfer_fields(ev, j as int, c as int),
        decreases 4 - c,
    {
        let (name, key) = func_pair(c);
        match first_child_exec(els, j, name) {
            Some(k) => {
                assert(ev[k as int] == element_view(els@[k as int]));
                let mut f = chars_of(key);
                f.push('=');
                append_chars(&mut f, &transfer_text_exec(&els[k]));
                proof {
                    reveal_strlit("=");
                }
                let ghost before = line_views(out@);
                let ghost fv = f@;
                assert(fv =~= func_key(c as int) + "="@ + transfer_text(ev[k as int]));
                out.push(f);
                assert(line_views(out@) =~= before.push(fv));
                assert(line_views(out@) == transfer_fields(ev, j as int, c + 1));
            },
            None => {
                assert(line_views(out@) == transfer_fields(ev, j as int, c + 1));
            },
        }
        c += 1;
    }
    out
}

fn flood_colour_opacity_exec(e: &XmlElement) -> (r: (Vec<char>, Px))
    ensures
        (r.0@, r.1) == flood_colour_opacity(element_view(*e)),
        px_wf(r.1),
{
    let mut c = attr_or_exec(e, "flood-color", "#000000");
    let one = Px::Fin { neg: false, mag: 1000000000 };
    let mut o = match get_attr(e, "flood-opacity") {
        Some(v) => match parse_px_exec(&trim_chars(&chars_of(v.as_str()))) {
            Some(p) => p,
            None => one,
        },
        None => one,
    };
    match get_attr(e, "style") {
        Some(st) => {
            let parts = crate::svg_import::split_chars(&chars_of(st.as_str()), ';');
            let ghost pv = line_views(parts@);
            let ghost c0 = c@;
            let ghost o0 = o;
            let mut j: usize = 0;
            while j < parts.len()
                invariant
                    j <= parts@.len(),
                    pv == line_views(parts@),
                    px_wf(o),
                    (c@, o) == flood_style(c0, o0, pv.subrange(0, j as int)),
                decreases parts@.len() - j,
            {
                assert(pv.subrange(0, j + 1).drop_last() =~= pv.subrange(0, j as int));
                let p = &parts[j];
                assert(pv[j as int] == p@);
                let k = find_char_exec(p, ':', 0);
                if k < p.len() {
                    let key = trim_chars(&sub_chars(p, 0, k));
                    if is_text(&key, "flood-color") {
                        c = trim_chars(&sub_chars(p, k + 1, p.len()));
                    } else if is_text(&key, "flood-opacity") {
                        match parse_px_exec(&trim_chars(&sub_chars(p, k + 1, p.len()))) {
                            Some(x) => {
                                o = x;
                            },
                            None => {},
                        }
                    }
                }
                j += 1;
            }
            assert(pv.subrange(0, parts@.len() as int) =~= pv);
        },
        None => {},
    }
    (c, o)
}

fn channel0_exec(x: u8, y: u8) -> (r: u32)
    ensures
        r == channel0(x, y),
        r <= 255,
{
    match crate::svg_v4::channel_exec(x, y) {
        Some(v) => v,
        None => 0,
    }
}

fn flood_rgba_exec(v: &Vec<char>) -> (r: (u32, u32, u32, u32))
    ensures
        (r.0 as int, r.1 as int, r.2 as int, r.3 as int) == flood_rgba(v@),
        r.0 <= 255 && r.1 <= 255 && r.2 <= 255 && r.3 <= 255,
{
    let t = trim_chars(v);
    let ci = |w: &str| -> (b: bool)
        ensures
            b == crate::number::eq_ignore_case(t@, w@),
        { crate::svg_v4::eq_ignore_case_exec(&t, w) };
    if ci("transparent") {
        return (0, 0, 0, 0);
    } else if ci("black") {
        return (0, 0, 0, 255);
    } else if ci("white") {
        return (255, 255, 255, 255);
    } else if ci("red") {
        return (255, 0, 0, 255);
    } else if ci("green") {
        return (0, 128, 0, 255);
    } else if ci("blue") {
        return (0, 0, 255, 255);
    }
    if t.len() == 0 || t[0] != '#' {
        return (0, 0, 0, 255);
    }
    let rest = sub_chars(&t, 1, t.len());
    assert(rest@ =~= t@.drop_first());
    let text = string_of(&rest);
    let all = text.as_str().as_bytes();
    let h = crate::text::sub_bytes(all, 0, all.len());
    assert(h@ =~= colour_bytes4(t@));
    let n = h.len();
    if n == 3 {
        (channel0_exec(h[0], h[0]), channel0_exec(h[1], h[1]), channel0_exec(h[2], h[2]), 255)
    } else if n == 4 {
        (channel0_exec(h[0], h[0]), channel0_exec(h[1], h[1]), channel0_exec(h[2], h[2]), channel0_exec(h[3], h[3]))
    } else if n == 6 {
        (channel0_exec(h[0], h[1]), channel0_exec(h[2], h[3]), channel0_exec(h[4], h[5]), 255)
    } else if n == 8 {
        (channel0_exec(h[0], h[1]), channel0_exec(h[2], h[3]), channel0_exec(h[4], h[5]), channel0_exec(h[6], h[7]))
    } else {
        (0, 0, 0, 255)
    }
}

fn flood_text_exec(out: &mut Vec<char>, e: &XmlElement)
    ensures
        final(out)@ == old(out)@ + flood_text(element_view(*e)),
{
    let ghost start = out@;
    let (c, o) = flood_colour_opacity_exec(e);
    let (r, g, b, a) = flood_rgba_exec(&c);
    out.push('#');
    crate::svg_v4::push_hex(out, r);
    crate::svg_v4::push_hex(out, g);
    crate::svg_v4::push_hex(out, b);
    crate::svg_v4::push_hex(out, crate::svg_v4::stop_alpha_exec(a, o));
    proof {
        reveal_strlit("#");
    }
    assert(out@ =~= start + flood_text(element_view(*e)));
}

fn pair_args_exec(out: &mut Vec<char>, e: &XmlElement, key: &str, first: &str, second: &str)
    ensures
        final(out)@ == old(out)@ + ({
            let (x, y) = pair_of(attr_or(element_view(*e), key@, "0"@));
            first@ + x + second@ + y
        }),
{
    let ghost start = out@;
    let (x, y) = pair_of_exec(&attr_or_exec(e, key, "0"));
    append_str(out, first);
    append_chars(out, &x);
    append_str(out, second);
    append_chars(out, &y);
    assert(out@ =~= start + ({
        let (x, y) = pair_of(attr_or(element_view(*e), key@, "0"@));
        first@ + x + second@ + y
    }));
}

fn key_value_exec(out: &mut Vec<char>, e: &XmlElement, label: &str, key: &str, default: &str)
    ensures
        final(out)@ == old(out)@ + label@ + attr_or(element_view(*e), key@, default@),
{
    let ghost start = out@;
    append_str(out, label);
    append_chars(out, &attr_or_exec(e, key, default));
    assert(out@ =~= start + label@ + attr_or(element_view(*e), key@, default@));
}

fn coefficients_exec(out: &mut Vec<char>, e: &XmlElement)
    ensures
        final(out)@ == old(out)@ + coefficients(element_view(*e)),
{
    let ghost start = out@;
    if is_text(&attr_or_exec(e, "operator", "over"), "arithmetic") {
        key_value_exec(out, e, " k1=", "k1", "0");
        key_value_exec(out, e, " k2=", "k2", "0");
        key_value_exec(out, e, " k3=", "k3", "0");
        key_value_exec(out, e, " k4=", "k4", "0");
    }
    assert(out@ =~= start + coefficients(element_view(*e)));
}

fn merge_args_exec(out: &mut Vec<char>, els: &Vec<XmlElement>, j: usize)
    requires
        j < els@.len(),
    ensures
        final(out)@ == old(out)@ + ({
            let ins = merge_inputs(elements_view(els@), j as int, j + 1);
            if ins.len() == 0 { "SourceGraphic"@ } else { join_with(ins, " "@) }
        }),
{
    let ins = merge_inputs_exec(els, j);
    if ins.len() == 0 {
        append_str(out, "SourceGraphic");
    } else {
        append_chars(out, &join_all_exec(&ins, " "));
    }
}

fn arguments_exec(out: &mut Vec<char>, els: &Vec<XmlElement>, j: usize, m: &Vec<char>)
    requires
        j < els@.len(),
    ensures
        final(out)@ == old(out)@ + arguments(elements_view(els@), j as int, m@),
{
    let ghost ev = elements_view(els@);
    let ghost start = out@;
    let e = &els[j];
    assert(ev[j as int] == element_view(*e));
    let tag = chars_of(e.name.as_str());
    let is = |s: &str| -> (b: bool) ensures b == (tag@ == s@) { is_text(&tag, s) };
    if is("feGaussianBlur") {
        in_part_exec(out, e, "in");
        pair_args_exec(out, e, "stdDeviation", " sigma_x=", " sigma_y=");
    } else if is("feOffset") {
        in_part_exec(out, e, "in");
        key_value_exec(out, e, " dx=", "dx", "0");
        key_value_exec(out, e, " dy=", "dy", "0");
    } else if is("feBlend") {
        in_part_exec(out, e, "in");
        in_part_exec(out, e, "in2");
        key_value_exec(out, e, " mode=", "mode", "normal");
    } else if is("feComposite") {
        in_part_exec(out, e, "in");
        in_part_exec(out, e, "in2");
        key_value_exec(out, e, " operator=", "operator", "over");
        coefficients_exec(out, e);
    } else if is("feColorMatrix") {
        in_part_exec(out, e, "in");
        append_str(out, " values=");
        append_chars(out, m);
    } else if is("feFlood") {
        append_str(out, "color=");
        flood_text_exec(out, e);
    } else if is("feMerge") {
        merge_args_exec(out, els, j);
    } else if is("feMorphology") {
        in_part_exec(out, e, "in");
        key_value_exec(out, e, " operator=", "operator", "erode");
        pair_args_exec(out, e, "radius", " radius_x=", " radius_y=");
    } else if is("feComponentTransfer") {
        in_part_exec(out, e, "in");
        out.push(' ');
        proof {
            reveal_strlit(" ");
        }
        append_chars(out, &join_all_exec(&transfer_fields_exec(els, j), " "));
    } else {
        in_part_exec(out, e, "in");
    }
    assert(out@ =~= start + arguments(ev, j as int, m@));
}

fn statement_exec(els: &Vec<XmlElement>, j: usize, n: usize, m: &Vec<char>) -> (r: Vec<char>)
    requires
        j < els@.len(),
    ensures
        r@ == statement(elements_view(els@), j as int, n as nat, m@),
{
    let ghost ev = elements_view(els@);
    assert(ev[j as int] == element_view(els@[j as int]));
    let mut out = chars_of(els[j].name.as_str());
    out.push('(');
    arguments_exec(&mut out, els, j, m);
    append_str(&mut out, ")->");
    result_name_exec(&mut out, &els[j], n);
    proof {
        reveal_strlit("(");
    }
    assert(out@ =~= statement(ev, j as int, n as nat, m@));
    out
}

// ---------------------------------------------------------------------------
// Filters, executable

fn known_primitive_exec(tag: &Vec<char>) -> (b: bool)
    ensures
        b == known_primitive(tag@),
{
    is_text(tag, "feGaussianBlur") || is_text(tag, "feOffset") || is_text(tag, "feBlend") || is_text(tag, "feComposite")
        || is_text(tag, "feColorMatrix") || is_text(tag, "feFlood") || is_text(tag, "feMerge") || is_text(tag, "feMorphology")
        || is_text(tag, "feComponentTransfer")
}

pub open spec fn acc_view(stmts: Seq<Vec<char>>, uns: Seq<Vec<char>>, cursor: int) -> GraphAcc {
    GraphAcc { stmts: line_views(stmts), unsupported: line_views(uns), cursor }
}

fn graph_exec(els: &Vec<XmlElement>, i: usize, cursor: usize, ms: &Vec<Vec<char>>) -> (r: (Vec<Vec<char>>, Vec<Vec<char>>, usize))
    requires
        i < els@.len(),
        cursor <= ms@.len(),
    ensures
        acc_view(r.0@, r.1@, r.2 as int) == graph_from(elements_view(els@), i as int, i + 1, GraphAcc {
            stmts: Seq::empty(),
            unsupported: Seq::empty(),
            cursor: cursor as int,
        }, line_views(ms@)),
        r.2 <= ms@.len(),
{
    let ghost ev = elements_view(els@);
    let ghost mv = line_views(ms@);
    let ghost target = graph_from(ev, i as int, i + 1, GraphAcc { stmts: Seq::empty(), unsupported: Seq::empty(), cursor: cursor as int }, mv);
    let n = els.len();
    let mut stmts: Vec<Vec<char>> = Vec::new();
    let mut uns: Vec<Vec<char>> = Vec::new();
    let mut cur = cursor;
    let mut j: usize = i + 1;
    assert(line_views(stmts@) =~= Seq::<Seq<char>>::empty());
    assert(line_views(uns@) =~= Seq::<Seq<char>>::empty());
    assert(acc_view(stmts@, uns@, cur as int) == GraphAcc { stmts: Seq::empty(), unsupported: Seq::empty(), cursor: cursor as int });
    while j < n
        invariant
            i < j <= n,
            n == els@.len(),
            ev == elements_view(els@),
            mv == line_views(ms@),
            cur <= ms@.len(),
            stmts@.len() <= j,
            graph_from(ev, i as int, j as int, acc_view(stmts@, uns@, cur as int), mv) == target,
        decreases n - j,
    {
        assert(ev[j as int] == element_view(els@[j as int]));
        assert(ev[i as int] == element_view(els@[i as int]));
        if els[j].parent == Some(els[i].id) {
            let tag = chars_of(els[j].name.as_str());
            let m = if cur < ms.len() {
                crate::props::copy_chars(&ms[cur])
            } else {
                Vec::new()
            };
            assert(m@ == matrix_at(mv, cur as int));
            let st = statement_exec(els, j, stmts.len() + 1, &m);
            let ghost before = acc_view(stmts@, uns@, cur as int);
            stmts.push(st);
            if !known_primitive_exec(&tag) {
                uns.push(tag);
            } else {
            }
            if is_text(&chars_of(els[j].name.as_str()), "feColorMatrix") && cur < ms.len() {
                cur = cur + 1;
            }
            assert(line_views(stmts@) =~= before.stmts.push(statement(ev, j as int, (before.stmts.len() + 1) as nat, matrix_at(mv, before.cursor))));
            assert(line_views(uns@) =~= if known_primitive(ev[j as int].name) { before.unsupported } else { before.unsupported.push(ev[j as int].name) });
        }
        j += 1;
    }
    (stmts, uns, cur)
}

struct FilterRec {
    graph: Vec<char>,
    units: Vec<char>,
    primitive_units: Vec<char>,
    x: Vec<char>,
    y: Vec<char>,
    width: Vec<char>,
    height: Vec<char>,
    unsupported: Vec<Vec<char>>,
}

spec fn filter_rec_view(f: FilterRec) -> FilterV {
    FilterV {
        graph: f.graph@,
        units: f.units@,
        primitive_units: f.primitive_units@,
        x: f.x@,
        y: f.y@,
        width: f.width@,
        height: f.height@,
        unsupported: line_views(f.unsupported@),
    }
}

spec fn filters_view(v: Seq<(Vec<char>, FilterRec)>) -> Seq<(Seq<char>, FilterV)> {
    v.map_values(|p: (Vec<char>, FilterRec)| (p.0@, filter_rec_view(p.1)))
}

fn filters_exec(els: &Vec<XmlElement>, ms: &Vec<Vec<char>>) -> (r: Vec<(Vec<char>, FilterRec)>)
    ensures
        filters_view(r@) == filters_f(elements_view(els@), els@.len() as int, line_views(ms@)).0,
{
    let ghost ev = elements_view(els@);
    let ghost mv = line_views(ms@);
    let mut out: Vec<(Vec<char>, FilterRec)> = Vec::new();
    let mut cur: usize = 0;
    let mut k: usize = 0;
    while k < els.len()
        invariant
            k <= els@.len(),
            ev == elements_view(els@),
            mv == line_views(ms@),
            cur <= ms@.len(),
            (filters_view(out@), cur as int) == filters_f(ev, k as int, mv),
        decreases els@.len() - k,
    {
        let e = &els[k];
        assert(ev[k as int] == element_view(*e));
        if is_text(&chars_of(e.name.as_str()), "filter") {
            match get_attr(e, "id") {
                Some(id) => {
                    let (stmts, uns, c2) = graph_exec(els, k, cur, ms);
                    if stmts.len() > 0 {
                        let f = FilterRec {
                            graph: join_all_exec(&stmts, "; "),
                            units: attr_or_exec(e, "filterUnits", "objectBoundingBox"),
                            primitive_units: attr_or_exec(e, "primitiveUnits", "userSpaceOnUse"),
                            x: attr_or_exec(e, "x", "-10%"),
                            y: attr_or_exec(e, "y", "-10%"),
                            width: attr_or_exec(e, "width", "120%"),
                            height: attr_or_exec(e, "height", "120%"),
                            unsupported: uns,
                        };
                        let ghost before = filters_view(out@);
                        let ghost fv = filter_rec_view(f);
                        out.push((chars_of(id.as_str()), f));
                        assert(filters_view(out@) =~= before.push((id@, fv)));
                    }
                    cur = c2;
                },
                None => {},
            }
        }
        k += 1;
    }
    out
}

fn requests_exec(els: &Vec<XmlElement>) -> (r: Vec<(String, Option<String>)>)
    ensures
        r@.map_values(|p: (String, Option<String>)| (p.0@, crate::xml::opt_str_view(p.1))) == matrix_requests(
            elements_view(els@),
            els@.len() as int,
        ),
{
    let ghost ev = elements_view(els@);
    let mut out: Vec<(String, Option<String>)> = Vec::new();
    let mut k: usize = 0;
    while k < els.len()
        invariant
            k <= els@.len(),
            ev == elements_view(els@),
            out@.map_values(|p: (String, Option<String>)| (p.0@, crate::xml::opt_str_view(p.1))) == matrix_requests(ev, k as int),
        decreases els@.len() - k,
    {
        let e = &els[k];
        assert(ev[k as int] == element_view(*e));
        if is_text(&chars_of(e.name.as_str()), "filter") && crate::xml::has_attr(e, "id") {
            let ghost base = matrix_requests(ev, k as int);
            let n = els.len();
            let mut j: usize = k + 1;
            assert(requests_from(ev, k as int, k + 1) == requests_from(ev, k as int, k + 1));
            while j < n
                invariant
                    k < j <= n,
                    n == els@.len(),
                    ev == elements_view(els@),
                    is_filter(ev[k as int]),
                    out@.map_values(|p: (String, Option<String>)| (p.0@, crate::xml::opt_str_view(p.1))) + requests_from(ev,
                        k as int, j as int) == base + requests_from(ev, k as int, k + 1),
                decreases n - j,
            {
                assert(ev[j as int] == element_view(els@[j as int]));
                assert(ev[k as int] == element_view(els@[k as int]));
                if els[j].parent == Some(els[k].id) && is_text(&chars_of(els[j].name.as_str()), "feColorMatrix") {
                    let item = (string_of(&attr_or_exec(&els[j], "type", "matrix")), get_attr(&els[j], "values"));
                    let ghost before = out@.map_values(|p: (String, Option<String>)| (p.0@, crate::xml::opt_str_view(p.1)));
                    let ghost iv = (item.0@, crate::xml::opt_str_view(item.1));
                    out.push(item);
                    assert(out@.map_values(|p: (String, Option<String>)| (p.0@, crate::xml::opt_str_view(p.1))) =~= before.push(iv));
                    assert(before.push(iv) + requests_from(ev, k as int, j + 1) =~= before + requests_from(ev, k as int, j as int));
                }
                j += 1;
            }
            assert(requests_from(ev, k as int, j as int) =~= Seq::<(Seq<char>, Option<Seq<char>>)>::empty());
        }
        k += 1;
    }
    out
}

/// Type and values of every colour-matrix primitive the filter pass reads,
/// in order: `values` of the `k`-th request's matrix is the `k`-th text
/// handed to `import_svg`.
pub fn colour_matrix_requests(svg: &str) -> (r: Vec<(String, Option<String>)>)
    ensures
        r@.map_values(|p: (String, Option<String>)| (p.0@, crate::xml::opt_str_view(p.1))) == colour_matrix_requests_spec(svg@),
{
    match crate::xml::parse_xml(svg) {
        Ok(els) => requests_exec(&els),
        Err(_) => {
            let out: Vec<(String, Option<String>)> = Vec::new();
            assert(out@.map_values(|p: (String, Option<String>)| (p.0@, crate::xml::opt_str_view(p.1))) =~= Seq::<(Seq<char>, Option<Seq<char>>)>::empty());
            out
        },
    }
}

/// Whether the flood colours this pass reads from `svg` can be sliced
/// safely.
pub fn filter_sliceable_exec(svg: &str) -> (b: bool)
    ensures
        b == filter_sliceable(svg@),
{
    let els = match crate::xml::parse_xml(svg) {
        Ok(els) => els,
        Err(_) => {
            return true;
        },
    };
    let ghost ev = elements_view(els@);
    let n = els.len();
    let mut i: usize = 0;
    while i < n
        invariant
            i <= n,
            n == els@.len(),
            ev == elements_view(els@),
            xml_elements(svg@) is Ok && xml_elements(svg@)->Ok_0 == ev,
            forall|a: int, b: int| 0 <= a < i ==> #[trigger] flood_ok(ev, a, b),
        decreases n - i,
    {
        assert(ev[i as int] == element_view(els@[i as int]));
        if is_text(&chars_of(els[i].name.as_str()), "filter") && crate::xml::has_attr(&els[i], "id") {
            let mut j: usize = i + 1;
            while j < n
                invariant
                    i < j <= n,
                    n == els@.len(),
                    ev == elements_view(els@),
                    is_filter(ev[i as int]),
                    xml_elements(svg@) is Ok && xml_elements(svg@)->Ok_0 == ev,
                    forall|b: int| b < j ==> #[trigger] flood_ok(ev, i as int, b),
                decreases n - j,
            {
                assert(ev[j as int] == element_view(els@[j as int]));
                assert(ev[i as int] == element_view(els@[i as int]));
                if els[j].parent == Some(els[i].id) && is_text(&chars_of(els[j].name.as_str()), "feFlood") {
                    let (c, _o) = flood_colour_opacity_exec(&els[j]);
                    if !crate::svg_v4::rgba_sliceable_exec(&c) {
                        assert(!flood_ok(ev, i as int, j as int));
                        return false;
                    }
                }
                assert(flood_ok(ev, i as int, j as int));
                j += 1;
            }
            assert forall|b: int| #[trigger] flood_ok(ev, i as int, b) by {
                if b < j {
                }
            }
        } else {
            assert forall|b: int| #[trigger] flood_ok(ev, i as int, b) by {}
        }
        i += 1;
    }
    assert forall|a: int, b: int| #[trigger] flood_ok(ev, a, b) by {
        if 0 <= a < n {
        }
    }
    true
}

// ---------------------------------------------------------------------------
// Lines and diagnostics, executable

fn last_filter_rec(m: &Vec<(Vec<char>, FilterRec)>, id: &Vec<char>) -> (r: Option<usize>)
    ensures
        match last_get(filters_view(m@), id@) {
            Some(x) => r is Some && r->0 < m@.len() && filter_rec_view(m@[r->0 as int].1) == x,
            None => r is None,
        },
{
    let ghost mv = filters_view(m@);
    let mut k: usize = m.len();
    assert(mv.subrange(0, k as int) =~= mv);
    while k > 0
        invariant
            k <= m@.len(),
            mv == filters_view(m@),
            last_get(mv.subrange(0, k as int), id@) == last_get(mv, id@),
        decreases k,
    {
        assert(mv.subrange(0, k as int).drop_last() =~= mv.subrange(0, k - 1));
        if crate::parser::chars_eq(&m[k - 1].0, id) {
            return Some(k - 1);
        }
        k -= 1;
    }
    None
}

fn filter_props_exec(out: &mut Vec<char>, ind: &Vec<char>, f: &FilterRec)
    ensures
        final(out)@ == old(out)@ + filter_props(ind@, filter_rec_view(*f)),
{
    let ghost start = out@;
    push_qprop(out, ind, "filter-graph", &f.graph);
    push_qprop(out, ind, "filter-units", &f.units);
    push_qprop(out, ind, "filter-primitive-units", &f.primitive_units);
    push_qprop(out, ind, "filter-x", &f.x);
    push_qprop(out, ind, "filter-y", &f.y);
    push_qprop(out, ind, "filter-width", &f.width);
    push_qprop(out, ind, "filter-height", &f.height);
    assert(out@ =~= start + filter_props(ind@, filter_rec_view(*f)));
}

fn filter_line_exec(out: &mut Vec<char>, line: &Vec<char>, fs: &Vec<(Vec<char>, FilterRec)>)
    ensures
        final(out)@ == old(out)@ + filter_line(line@, filters_view(fs@)),
{
    reveal(filter_line);
    let ghost start = out@;
    let lead = lead_len_exec(line);
    let t = sub_chars(line, lead, line.len());
    let ind = sub_chars(line, 0, lead);
    append_chars(out, line);
    out.push('\n');
    proof {
        reveal_strlit("\n");
    }
    let raw = match parse_prop_f_exec(&t, "svg-attr-filter:") {
        Some(v) => Some(v),
        None => parse_prop_f_exec(&t, "svg-filter:"),
    };
    match raw {
        Some(r) => match url_fragment_exec(&r) {
            Some(id) => match last_filter_rec(fs, &id) {
                Some(k) => filter_props_exec(out, &ind, &fs[k].1),
                None => {},
            },
            None => {},
        },
        None => {},
    }
    assert(out@ =~= start + filter_line(line@, filters_view(fs@)));
}

fn filter_lines_exec(out: &mut Vec<char>, ls: &Vec<Vec<char>>, fs: &Vec<(Vec<char>, FilterRec)>)
    ensures
        final(out)@ == old(out)@ + filter_lines(line_views(ls@), filters_view(fs@)),
{
    let ghost lv = line_views(ls@);
    let ghost fv = filters_view(fs@);
    let ghost start = out@;
    let mut i: usize = 0;
    while i < ls.len()
        invariant
            i <= ls@.len(),
            lv == line_views(ls@),
            fv == filters_view(fs@),
            out@ == start + filter_lines(lv.subrange(0, i as int), fv),
        decreases ls@.len() - i,
    {
        assert(lv[i as int] == ls@[i as int]@);
        filter_line_exec(out, &ls[i], fs);
        assert(lv.subrange(0, i + 1).drop_last() =~= lv.subrange(0, i as int));
        i += 1;
    }
    assert(lv.subrange(0, i as int) =~= lv);
}

fn live_exec(fs: &Vec<(Vec<char>, FilterRec)>, i: usize) -> (b: bool)
    requires
        i < fs@.len(),
    ensures
        b == live(filters_view(fs@), i as int),
{
    let ghost fv = filters_view(fs@);
    let n = fs.len();
    let mut j: usize = i + 1;
    while j < fs.len()
        invariant
            i < j <= fs@.len(),
            fv == filters_view(fs@),
            forall|k: int| i < k < j ==> fv[k].0 != fv[i as int].0,
        decreases fs@.len() - j,
    {
        if crate::parser::chars_eq(&fs[j].0, &fs[i].0) {
            assert(fv[j as int].0 == fv[i as int].0);
            return false;
        }
        j += 1;
    }
    true
}

fn s360_exec(name: &Vec<char>) -> (d: ImportDiagnostic)
    ensures
        diag_view(d) == s360(name@),
{
    let mut m = chars_of("unsupported filter primitive <");
    append_chars(&mut m, name);
    append_str(&mut m,
        "> is retained as an explicit native filter-graph node and will be diagnosed and bypassed by the CPU renderer");
    ImportDiagnostic {
        severity: crate::text::chars_to_string_lit("warning"),
        code: crate::text::chars_to_string_lit("S360"),
        message: string_of(&m),
        element: None,
    }
}

fn unsupported_diags_exec(out: &mut Vec<ImportDiagnostic>, fs: &Vec<(Vec<char>, FilterRec)>)
    ensures
        diags_of(final(out)@) == diags_of(old(out)@) + unsupported_diags(filters_view(fs@), fs@.len() as int),
{
    let ghost fv = filters_view(fs@);
    let ghost start = diags_of(out@);
    let mut k: usize = 0;
    while k < fs.len()
        invariant
            k <= fs@.len(),
            fv == filters_view(fs@),
            diags_of(out@) == start + unsupported_diags(fv, k as int),
        decreases fs@.len() - k,
    {
        if live_exec(fs, k) {
            let names = &fs[k].1.unsupported;
            let ghost nv = line_views(names@);
            assert(nv == fv[k as int].1.unsupported);
            let ghost base = diags_of(out@);
            let mut q: usize = 0;
            while q < names.len()
                invariant
                    q <= names@.len(),
                    nv == line_views(names@),
                    diags_of(out@) == base + nv.subrange(0, q as int).map_values(|n: Seq<char>| s360(n)),
                decreases names@.len() - q,
            {
                assert(nv[q as int] == names@[q as int]@);
                let d = s360_exec(&names[q]);
                let ghost before = diags_of(out@);
                out.push(d);
                assert(diags_of(out@) =~= before.push(s360(nv[q as int])));
                assert(nv.subrange(0, q + 1).map_values(|n: Seq<char>| s360(n)) =~= nv.subrange(0, q as int).map_values(
                    |n: Seq<char>| s360(n),
                ).push(s360(nv[q as int])));
                q += 1;
            }
            assert(nv.subrange(0, q as int) =~= nv);
            assert(diags_of(out@) =~= start + unsupported_diags(fv, k + 1));
        } else {
            assert(diags_of(out@) =~= start + unsupported_diags(fv, k + 1));
        }
        k += 1;
    }
}

fn adjust_f_exec(d: &mut ImportDiagnostic)
    ensures
        diag_view(*final(d)) == adjust_f(diag_view(*old(d))),
{
    let code = chars_of(d.code.as_str());
    let m = chars_of(d.message.as_str());
    if is_text(&code, "S131") && crate::srctext::contains_exec(&m, "filter") {
        crate::svg_v4::set_info(d, "SVG filter is represented by native SRNG filter-graph semantics");
    }
}

/// The texts of a list of strings.
pub open spec fn texts_view(v: Seq<String>) -> Seq<Seq<char>> {
    v.map_values(|s: String| s@)
}

fn texts_exec(v: &Vec<String>) -> (r: Vec<Vec<char>>)
    ensures
        line_views(r@) == texts_view(v@),
{
    let mut out: Vec<Vec<char>> = Vec::new();
    let mut k: usize = 0;
    while k < v.len()
        invariant
            k <= v@.len(),
            line_views(out@) == texts_view(v@).subrange(0, k as int),
        decreases v@.len() - k,
    {
        let ghost before = line_views(out@);
        let c = chars_of(v[k].as_str());
        assert(c@ == texts_view(v@)[k as int]);
        out.push(c);
        assert(line_views(out@) =~= before.push(texts_view(v@)[k as int]));
        assert(texts_view(v@).subrange(0, k + 1) =~= texts_view(v@).subrange(0, k as int).push(texts_view(v@)[k as int]));
        k += 1;
    }
    assert(texts_view(v@).subrange(0, k as int) =~= texts_view(v@));
    out
}

/// Imports SVG with its filters as native filter graphs over the final
/// import; `matrices` holds the values of each colour matrix that
/// `colour_matrix_requests` lists, in order.
pub fn import_svg(svg: &str, source_name: &str, options: &ImportOptions, matrices: &Vec<String>) -> (r: ImportResult)
    requires
        v4_sliceable(svg@),
        filter_sliceable(svg@),
    ensures
        (r.source@, diags_of(r.diagnostics@)) == import_f_spec(svg@, source_name@, crate::xml::opt_str_view(options.file_id),
            options.preserve_source_attributes, texts_view(matrices@)),
{
    let base = crate::svg::import_svg(svg, source_name, options);
    let els = match crate::xml::parse_xml(svg) {
        Ok(els) => els,
        Err(_) => {
            return base;
        },
    };
    let ms = texts_exec(matrices);
    let fs = filters_exec(&els, &ms);
    let ls = split_lines(&chars_of(base.source.as_str()));
    let mut out: Vec<char> = Vec::new();
    filter_lines_exec(&mut out, &ls, &fs);
    let mut diags = base.diagnostics;
    unsupported_diags_exec(&mut diags, &fs);
    if fs.len() > 0 {
        let ghost dv0 = diags_of(diags@);
        let mut k: usize = 0;
        while k < diags.len()
            invariant
                k <= diags@.len(),
                diags@.len() == dv0.len(),
                forall|j: int| 0 <= j < k ==> #[trigger] diag_view(diags@[j]) == adjust_f(dv0[j]),
                forall|j: int| k <= j < diags@.len() ==> #[trigger] diag_view(diags@[j]) == dv0[j],
            decreases diags@.len() - k,
        {
            let mut d = crate::svg_import::copy_diag(&diags[k]);
            adjust_f_exec(&mut d);
            diags.set(k, d);
            k += 1;
        }
        assert(diags_of(diags@) =~= dv0.map_values(|d: DiagV| adjust_f(d)));
    }
    ImportResult { source: string_of(&out), diagnostics: diags }
}

/// The filter import for every document: nothing when a colour it reads
/// from `svg` cannot be sliced safely.
pub fn import_svg_checked(svg: &str, source_name: &str, options: &ImportOptions, matrices: &Vec<String>) -> (r: Option<ImportResult>)
    ensures
        match r {
            Some(res) => v4_sliceable(svg@) && filter_sliceable(svg@) && (res.source@, diags_of(res.diagnostics@))
                == import_f_spec(svg@, source_name@, crate::xml::opt_str_view(options.file_id), options.preserve_source_attributes,
                texts_view(matrices@)),
            None => !(v4_sliceable(svg@) && filter_sliceable(svg@)),
        },
{
    if crate::svg_v4::v4_sliceable_exec(svg) && filter_sliceable_exec(svg) {
        Some(import_svg(svg, source_name, options, matrices))
    } else {
        None
    }
}

// ---------------------------------------------------------------------------
// Laws

proof fn lemma_unsupported_are_warnings(fs: Seq<(Seq<char>, FilterV)>, k: int)
    ensures
        forall|i: int| 0 <= i < unsupported_diags(fs, k).len() ==> #[trigger] unsupported_diags(fs, k)[i].code == "S360"@
            && unsupported_diags(fs, k)[i].severity == "warning"@ && unsupported_diags(fs, k)[i].element is None,
    decreases k,
{
    if 0 < k <= fs.len() {
        lemma_unsupported_are_warnings(fs, k - 1);
        let prev = unsupported_diags(fs, k - 1);
        let more = if live(fs, k - 1) {
            fs[k - 1].1.unsupported.map_values(|n: Seq<char>| s360(n))
        } else {
            Seq::empty()
        };
        assert forall|i: int| 0 <= i < unsupported_diags(fs, k).len() implies #[trigger] unsupported_diags(fs, k)[i].code == "S360"@
            && unsupported_diags(fs, k)[i].severity == "warning"@ && unsupported_diags(fs, k)[i].element is None by {
            if i < prev.len() {
                assert(unsupported_diags(fs, k)[i] == prev[i]);
            } else {
                assert(unsupported_diags(fs, k)[i] == more[i - prev.len()]);
            }
        }
    }
}

proof fn lemma_filter_diags(ds: Seq<DiagV>, fs: Seq<(Seq<char>, FilterV)>)
    ensures
        ({
            let out = filter_diags(ds, fs);
            &&& out.len() >= ds.len()
            &&& forall|i: int| 0 <= i < ds.len() ==> #[trigger] out[i].code == ds[i].code && out[i].element == ds[i].element
                && (out[i] == ds[i] || out[i].severity == "info"@)
            &&& forall|i: int| ds.len() <= i < out.len() ==> #[trigger] out[i].code == "S360"@ && out[i].severity == "warning"@
                && out[i].element is None
        }),
{
    lemma_unsupported_are_warnings(fs, fs.len() as int);
    let u = unsupported_diags(fs, fs.len() as int);
    let d1 = ds + u;
    let out = filter_diags(ds, fs);
    assert forall|i: int| ds.len() <= i < out.len() implies #[trigger] out[i].code == "S360"@ && out[i].severity == "warning"@
        && out[i].element is None by {
        assert(d1[i] == u[i - ds.len()]);
        assert(u[i - ds.len()].code == "S360"@);
        reveal_strlit("S360");
        reveal_strlit("S131");
        assert("S360"@ != "S131"@) by {
            assert("S360"@[1] != "S131"@[1]);
        }
        assert(d1[i].code != "S131"@);
        assert(adjust_f(d1[i]) == d1[i]);
    }
    assert forall|i: int| 0 <= i < ds.len() implies #[trigger] out[i].code == ds[i].code && out[i].element == ds[i].element
        && (out[i] == ds[i] || out[i].severity == "info"@) by {
        assert(d1[i] == ds[i]);
    }
}

/// The filter import keeps every diagnostic of the final import, in order,
/// with its code and element (some may turn into information), and only
/// adds `S360` warnings after them, which name no element.
pub proof fn law_filter_diagnostics_extend(svg: Seq<char>, name: Seq<char>, file_id: Option<Seq<char>>, keep: bool,
    ms: Seq<Seq<char>>)
    ensures
        ({
            let ds = crate::svg::import_spec(svg, name, file_id, keep).1;
            let out = import_f_spec(svg, name, file_id, keep, ms).1;
            &&& out.len() >= ds.len()
            &&& forall|i: int| 0 <= i < ds.len() ==> #[trigger] out[i].code == ds[i].code && out[i].element == ds[i].element
                && (out[i] == ds[i] || out[i].severity == "info"@)
            &&& forall|i: int| ds.len() <= i < out.len() ==> #[trigger] out[i].code == "S360"@ && out[i].severity == "warning"@
                && out[i].element is None
        }),
{
    let ds = crate::svg::import_spec(svg, name, file_id, keep).1;
    match xml_elements(svg) {
        Ok(els) => {
            lemma_filter_diags(ds, filters_f(els, els.len() as int, ms).0);
        },
        Err(_) => {},
    }
}

proof fn lemma_graph_uses_requests(els: Seq<ElementView>, i: int, j: int, acc: GraphAcc, ms: Seq<Seq<char>>)
    requires
        acc.cursor + requests_from(els, i, j).len() <= ms.len(),
    ensures
        graph_from(els, i, j, acc, ms).cursor == acc.cursor + requests_from(els, i, j).len(),
    decreases els.len() - j,
{
    if 0 <= j < els.len() {
        if child_of(els, j, i) {
            let tag = els[j].name;
            let st = statement(els, j, (acc.stmts.len() + 1) as nat, matrix_at(ms, acc.cursor));
            let next = GraphAcc {
                stmts: acc.stmts.push(st),
                unsupported: if known_primitive(tag) { acc.unsupported } else { acc.unsupported.push(tag) },
                cursor: if tag == "feColorMatrix"@ && acc.cursor < ms.len() { acc.cursor + 1 } else { acc.cursor },
            };
            lemma_graph_uses_requests(els, i, j + 1, next, ms);
        } else {
            lemma_graph_uses_requests(els, i, j + 1, acc, ms);
        }
    }
}

proof fn lemma_filters_use_requests(els: Seq<ElementView>, k: int, ms: Seq<Seq<char>>)
    requires
        matrix_requests(els, k).len() <= ms.len(),
    ensures
        filters_f(els, k, ms).1 == matrix_requests(els, k).len(),
    decreases k,
{
    if 0 < k <= els.len() {
        let e = els[k - 1];
        if is_filter(e) {
            assert(matrix_requests(els, k) == matrix_requests(els, k - 1) + requests_from(els, k - 1, k));
        }
        lemma_filters_use_requests(els, k - 1, ms);
        if is_filter(e) {
            let cur = filters_f(els, k - 1, ms).1;
            lemma_graph_uses_requests(els, k - 1, k, GraphAcc { stmts: Seq::empty(), unsupported: Seq::empty(), cursor: cur }, ms);
        }
    }
}

/// The colour matrices handed in are used one per colour-matrix request, in
/// order: with at least one matrix per request, the pass uses exactly as
/// many as `colour_matrix_requests` lists.
pub proof fn law_matrices_follow_requests(els: Seq<ElementView>, ms: Seq<Seq<char>>)
    requires
        matrix_requests(els, els.len() as int).len() <= ms.len(),
    ensures
        filters_f(els, els.len() as int, ms).1 == matrix_requests(els, els.len() as int).len(),
{
    lemma_filters_use_requests(els, els.len() as int, ms);
}

} // verus!
