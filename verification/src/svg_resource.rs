//! Reusable resources: every element that a local `<use>` references
//! becomes, with its subtree, resource-only SRNG declarations, and each
//! `<use>` inside such a subtree a resource-only reference. Resource-only
//! declarations do not paint until something references them.
use vstd::prelude::*;
use crate::font::split_from;
use crate::formatter::{lines, line_views, split_lines, trim, trim_chars};
use crate::image::{find_char, find_char_exec, lower_seq};
use crate::ir::decimal;
use crate::length::{fmt_px_whole, number_list, px_max0, px_scale, px_sub, px_wf, resolve_length, resolve_length_spec, Axis, Px};
use crate::number::eq_ignore_case;
use crate::props::{copy_chars, pm_extend, pm_extend_exec, pm_get, pm_insert, pm_lookup, pm_set, pm_view};
use crate::srctext::{ends_with, ends_with_exec, starts_with, starts_with_exec, trim_start};
use crate::svg_import::{diag_view, diags_of, props_text, safe_ident, safe_ident_exec, safe_suffix, style_attrs, utf8_len,
    DiagV, ImportDiagnostic, PMap};
use crate::svg_native::{f, poly_path};
use crate::svg_use::second_word;
use crate::svg_v4::{quote4, quote4_exec};
use crate::text::{append_chars, append_str, chars_of, string_of, sub_chars};
use crate::xml::{attr, element_view, elements_view, get_attr, xml_elements, ElementView, XmlElement};

verus! {

// ---------------------------------------------------------------------------
// Values

/// The style keys a resource inherits.
pub open spec fn rr_keys() -> Seq<Seq<char>> {
    seq!["fill"@, "stroke"@, "fill-rule"@, "stroke-width"@, "stroke-linecap"@, "stroke-linejoin"@,
        "stroke-dasharray"@, "stroke-dashoffset"@, "opacity"@, "fill-opacity"@, "stroke-opacity"@, "visibility"@]
}

/// An identifier made from any text; nothing becomes `resource`.
pub open spec fn rr_ident(raw: Seq<char>) -> Seq<char> {
    if raw.len() == 0 { "resource"@ } else { safe_ident(raw) }
}

/// A `key: value` entry of a `style` attribute, kept when `key` is
/// inherited by resources.
pub open spec fn rr_decl(m: PMap, part: Seq<char>) -> PMap {
    let c = find_char(part, ':', 0);
    if c >= part.len() {
        m
    } else if rr_keys().contains(trim(part.subrange(0, c))) {
        pm_insert(m, trim(part.subrange(0, c)), trim(part.subrange(c + 1, part.len() as int)))
    } else {
        m
    }
}

pub open spec fn rr_decls(m: PMap, parts: Seq<Seq<char>>) -> PMap
    decreases parts.len(),
{
    if parts.len() == 0 {
        m
    } else {
        rr_decl(rr_decls(m, parts.drop_last()), parts.last())
    }
}

/// The inherited presentation attributes of an element, then those of its
/// `style` attribute, which win.
pub open spec fn rr_style(e: ElementView) -> PMap {
    let m = style_attrs(e, rr_keys());
    match attr(e, "style"@) {
        Some(st) => rr_decls(m, split_from(st, ';', 0)),
        None => m,
    }
}

pub open spec fn rr_named(v: Seq<char>) -> Option<Seq<char>> {
    if v == "black"@ {
        Some("#000000"@)
    } else if v == "white"@ {
        Some("#ffffff"@)
    } else if v == "red"@ {
        Some("#ff0000"@)
    } else if v == "green"@ {
        Some("#008000"@)
    } else if v == "blue"@ {
        Some("#0000ff"@)
    } else if v == "transparent"@ {
        Some("#00000000"@)
    } else {
        None
    }
}

/// `none`, a hex colour, or one of a few colour names.
pub open spec fn rr_colour(value: Seq<char>) -> Option<Seq<char>> {
    let v = trim(value);
    if eq_ignore_case(v, "none"@) {
        Some("none"@)
    } else if v.len() > 0 && v[0] == '#' && (utf8_len(v) == 4 || utf8_len(v) == 5 || utf8_len(v) == 7 || utf8_len(v) == 9) {
        Some(v)
    } else {
        rr_named(lower_seq(v))
    }
}

/// A style value as a resource property: paints normalized or quoted, a
/// stroke width in pixels or quoted, anything else as it is.
pub open spec fn style_value(key: Seq<char>, value: Seq<char>) -> Seq<char> {
    if key == "fill"@ || key == "stroke"@ {
        match rr_colour(value) {
            Some(c) => c,
            None => quote4(value),
        }
    } else if key == "stroke-width"@ {
        match crate::length::parse_px(trim(value)) {
            Some(n) => f(n) + "px"@,
            None => quote4(value),
        }
    } else {
        value
    }
}

/// A length with percentages of `base`; `default` when absent or unreadable.
pub open spec fn rr_length(v: Option<Seq<char>>, base: Px, default: Px) -> Px {
    match v {
        Some(x) => match resolve_length_spec(x, Axis::X, base, base) {
            Some(p) => p,
            None => default,
        },
        None => default,
    }
}

pub open spec fn zero() -> Px {
    Px::Fin { neg: false, mag: 0 }
}

pub open spec fn rr_pair(x: Px, y: Px) -> Seq<char> {
    f(x) + "px "@ + f(y) + "px"@
}

/// The viewBox numbers of the root, when there are exactly four.
pub open spec fn root_view_box(root: ElementView) -> Option<Seq<Px>> {
    match attr(root, "viewBox"@) {
        Some(v) => match number_list(v, true) {
            Some(ns) => if ns.len() == 4 { Some(ns) } else { None },
            None => None,
        },
        None => None,
    }
}

/// The viewport percentages resolve against.
pub open spec fn root_viewport(root: ElementView) -> (Px, Px) {
    let vb = root_view_box(root);
    let bw = match vb {
        Some(ns) => ns[2],
        None => crate::svg_import::whole_px(300),
    };
    let bh = match vb {
        Some(ns) => ns[3],
        None => crate::svg_import::whole_px(150),
    };
    (rr_length(attr(root, "width"@), bw, bw), rr_length(attr(root, "height"@), bh, bh))
}

// ---------------------------------------------------------------------------
// Properties

pub open spec fn ins(m: PMap, k: Seq<char>, v: Seq<char>) -> PMap {
    pm_insert(m, k, v)
}

pub open spec fn box_geometry(x: Px, y: Px, w: Px, h: Px) -> PMap {
    ins(ins(Seq::empty(), "position"@, rr_pair(x, y)), "size"@, rr_pair(w, h))
}

pub open spec fn rect_geometry(e: ElementView, vw: Px, vh: Px) -> PMap {
    box_geometry(rr_length(attr(e, "x"@), vw, zero()), rr_length(attr(e, "y"@), vh, zero()),
        px_max0(rr_length(attr(e, "width"@), vw, zero())), px_max0(rr_length(attr(e, "height"@), vh, zero())))
}

pub open spec fn circle_geometry(e: ElementView, vw: Px, vh: Px) -> PMap {
    let cx = rr_length(attr(e, "cx"@), vw, zero());
    let cy = rr_length(attr(e, "cy"@), vh, zero());
    let r = px_max0(rr_length(attr(e, "r"@), vw, zero()));
    box_geometry(px_sub(cx, r), px_sub(cy, r), px_scale(r, 2, 1), px_scale(r, 2, 1))
}

pub open spec fn ellipse_geometry(e: ElementView, vw: Px, vh: Px) -> PMap {
    let cx = rr_length(attr(e, "cx"@), vw, zero());
    let cy = rr_length(attr(e, "cy"@), vh, zero());
    let rx = px_max0(rr_length(attr(e, "rx"@), vw, zero()));
    let ry = px_max0(rr_length(attr(e, "ry"@), vh, zero()));
    box_geometry(px_sub(cx, rx), px_sub(cy, ry), px_scale(rx, 2, 1), px_scale(ry, 2, 1))
}

pub open spec fn with_data(d: Option<Seq<char>>) -> PMap {
    let p = ins(Seq::empty(), "position"@, "0px 0px"@);
    match d {
        Some(x) => ins(p, "data"@, quote4(x)),
        None => p,
    }
}

pub open spec fn line_data(e: ElementView, vw: Px, vh: Px) -> Seq<char> {
    "M "@ + f(rr_length(attr(e, "x1"@), vw, zero())) + " "@ + f(rr_length(attr(e, "y1"@), vh, zero())) + " L "@
        + f(rr_length(attr(e, "x2"@), vw, zero())) + " "@ + f(rr_length(attr(e, "y2"@), vh, zero()))
}

pub open spec fn poly_data(e: ElementView) -> Option<Seq<char>> {
    match attr(e, "points"@) {
        Some(pts) => match poly_path(pts) {
            Some(d) => Some(if e.name == "polygon"@ { d + " Z"@ } else { d }),
            None => None,
        },
        None => None,
    }
}

pub open spec fn text_geometry(e: ElementView, vw: Px, vh: Px) -> PMap {
    ins(ins(Seq::empty(), "position"@, rr_pair(rr_length(attr(e, "x"@), vw, zero()), rr_length(attr(e, "y"@), vh, zero()))),
        "content"@, quote4(match e.text {
            Some(t) => t,
            None => Seq::empty(),
        }))
}

pub open spec fn blank_geometry(stroke: bool) -> PMap {
    let p = ins(ins(ins(Seq::empty(), "position"@, "0px 0px"@), "size"@, "0px 0px"@), "fill"@, "none"@);
    if stroke { ins(p, "stroke"@, "none"@) } else { p }
}

/// The geometry of a resource element.
pub open spec fn geometry(e: ElementView, vw: Px, vh: Px) -> PMap {
    let tag = e.name;
    if tag == "g"@ || tag == "symbol"@ || tag == "svg"@ {
        blank_geometry(true)
    } else if tag == "rect"@ {
        rect_geometry(e, vw, vh)
    } else if tag == "circle"@ {
        circle_geometry(e, vw, vh)
    } else if tag == "ellipse"@ {
        ellipse_geometry(e, vw, vh)
    } else if tag == "path"@ {
        with_data(attr(e, "d"@))
    } else if tag == "line"@ {
        with_data(Some(line_data(e, vw, vh)))
    } else if tag == "polyline"@ || tag == "polygon"@ {
        with_data(poly_data(e))
    } else if tag == "text"@ || tag == "tspan"@ {
        text_geometry(e, vw, vh)
    } else {
        blank_geometry(false)
    }
}

/// The inherited style values among the first `k` keys.
pub open spec fn style_props(m: PMap, style: PMap, k: int) -> PMap
    decreases k,
{
    if k <= 0 || k > rr_keys().len() {
        m
    } else {
        let prev = style_props(m, style, k - 1);
        match pm_get(style, rr_keys()[k - 1]) {
            Some(v) => ins(prev, rr_keys()[k - 1], style_value(rr_keys()[k - 1], v)),
            None => prev,
        }
    }
}

/// Paints that neither the element nor its resource ancestors set are
/// left to each instance.
pub open spec fn inheritance_marks(local: PMap, inherited: PMap, m: PMap) -> PMap {
    let m1 = if pm_get(local, "fill"@) is None && pm_get(inherited, "fill"@) is None {
        ins(m, "resource-inherit-fill"@, "true"@)
    } else {
        m
    };
    if pm_get(local, "stroke"@) is None && pm_get(inherited, "stroke"@) is None {
        ins(m1, "resource-inherit-stroke"@, "true"@)
    } else {
        m1
    }
}

/// Every source attribute as a `resource-attr-*` property.
pub open spec fn resource_attrs(m: PMap, attrs: Seq<crate::xml::AttributeView>) -> PMap
    decreases attrs.len(),
{
    if attrs.len() == 0 {
        m
    } else {
        ins(resource_attrs(m, attrs.drop_last()), "resource-attr-"@ + safe_suffix(attrs.last().name), quote4(attrs.last().value))
    }
}

pub open spec fn resource_kind(tag: Seq<char>) -> Seq<char> {
    if tag == "g"@ || tag == "symbol"@ || tag == "svg"@ {
        "group"@
    } else if tag == "line"@ || tag == "polyline"@ || tag == "polygon"@ {
        "path"@
    } else {
        tag
    }
}

/// The properties of a resource declaration.
pub open spec fn node_props(e: ElementView, id: Seq<char>, eff: PMap, local: PMap, inherited: PMap, vw: Px, vh: Px) -> PMap {
    let tag = e.name;
    let p1 = ins(ins(ins(geometry(e, vw, vh), "resource-only"@, "true"@), "source-tag"@, quote4(tag)), "resource-source-id"@,
        quote4(match attr(e, "id"@) {
            Some(v) => v,
            None => id,
        }));
    let p4 = resource_attrs(inheritance_marks(local, inherited, style_props(p1, eff, 12)), e.attributes);
    let p5 = if tag == "symbol"@ {
        let s1 = ins(p4, "resource-kind"@, quote4("symbol"@));
        let s2 = match attr(e, "viewBox"@) {
            Some(v) => ins(s1, "viewbox"@, quote4(v)),
            None => s1,
        };
        ins(s2, "preserve-aspect-ratio"@, quote4(match attr(e, "preserveAspectRatio"@) {
            Some(v) => v,
            None => "xMidYMid meet"@,
        }))
    } else if tag == "g"@ {
        ins(p4, "resource-kind"@, quote4("group"@))
    } else {
        p4
    };
    match attr(e, "transform"@) {
        Some(t) => ins(p5, "transform"@, quote4(t)),
        None => p5,
    }
}

/// The properties of a resource-only reference.
pub open spec fn reference_props(e: ElementView, style: PMap, vw: Px, vh: Px) -> PMap {
    let z = Seq::<(Seq<char>, Seq<char>)>::empty();
    let x = rr_length(attr(e, "x"@), vw, zero());
    let y = rr_length(attr(e, "y"@), vh, zero());
    let p1 = ins(z, "position"@, rr_pair(x, y));
    let p2 = if attr(e, "width"@) is Some || attr(e, "height"@) is Some {
        ins(p1, "size"@, rr_pair(px_max0(rr_length(attr(e, "width"@), vw, zero())), px_max0(rr_length(attr(e, "height"@), vh, zero()))))
    } else {
        p1
    };
    let p3 = style_props(p2, style, 12);
    match attr(e, "transform"@) {
        Some(t) => ins(p3, "transform"@, quote4(t)),
        None => p3,
    }
}

// ---------------------------------------------------------------------------
// Emission

pub struct RNode {
    pub kind: Seq<char>,
    pub id: Seq<char>,
    pub props: PMap,
    pub parent: Option<Seq<char>>,
}

pub struct RRef {
    pub id: Seq<char>,
    pub target: Seq<char>,
    pub props: PMap,
}

/// What the emission has produced so far.
pub struct RSt {
    pub emitted: Seq<Seq<char>>,
    pub nodes: Seq<RNode>,
    pub refs: Seq<RRef>,
    pub diags: Seq<DiagV>,
}

pub struct REnv {
    pub els: Seq<ElementView>,
    pub vw: Px,
    pub vh: Px,
}

pub open spec fn skipped_tag(tag: Seq<char>) -> bool {
    tag == "metadata"@ || tag == "title"@ || tag == "desc"@ || resource_tag(tag)
}

/// Elements that are resources of their own kind.
pub open spec fn resource_tag(tag: Seq<char>) -> bool {
    tag == "linearGradient"@ || tag == "radialGradient"@ || tag == "pattern"@ || tag == "mask"@ || tag == "clipPath"@
        || tag == "filter"@
}

/// The target of a local `href`: what follows its `#`.
pub open spec fn local_href(e: ElementView) -> Option<Seq<char>> {
    match attr(e, "href"@) {
        Some(h) => if h.len() > 0 && h[0] == '#' { Some(h.subrange(1, h.len() as int)) } else { None },
        None => None,
    }
}

/// The identifier of a resource element: from its `id`, else numbered
/// under its parent.
pub open spec fn node_ident(e: ElementView, parent: Option<Seq<char>>, st: RSt) -> Seq<char> {
    match attr(e, "id"@) {
        Some(v) => rr_ident(v),
        None => rr_ident(match parent {
            Some(p) => p,
            None => "resource"@,
        } + "__resource_"@ + decimal((st.nodes.len() + st.refs.len() + 1) as nat)),
    }
}

pub open spec fn no_target(id: Seq<char>) -> DiagV {
    DiagV { severity: "warning"@, code: "S310"@, message: "resource <use> has no local href target"@, element: Some(id) }
}

/// Emits element `i` itself: whether its children follow, its identifier,
/// the style its children inherit, and the new state.
pub open spec fn emit_step(env: REnv, i: int, parent: Option<Seq<char>>, inherited: PMap, st: RSt) -> (bool, Seq<char>, PMap, RSt) {
    let e = env.els[i];
    let tag = e.name;
    if skipped_tag(tag) {
        (false, Seq::empty(), inherited, st)
    } else {
        let id = node_ident(e, parent, st);
        if st.emitted.contains(id) {
            (false, id, inherited, st)
        } else {
            let s1 = RSt { emitted: st.emitted.push(id), ..st };
            let local = rr_style(e);
            let eff = pm_extend(inherited, local);
            if tag == "use"@ {
                match local_href(e) {
                    None => (false, id, eff, RSt { diags: s1.diags.push(no_target(id)), ..s1 }),
                    Some(target) => {
                        let p1 = ins(ins(reference_props(e, eff, env.vw, env.vh), "resource-only"@, "true"@),
                            "resource-provenance"@, quote4("svg#"@ + target));
                        let p2 = match parent {
                            Some(p) => ins(p1, "resource-parent"@, quote4(p)),
                            None => p1,
                        };
                        (false, id, eff, RSt { refs: s1.refs.push(RRef { id, target: rr_ident(target), props: p2 }), ..s1 })
                    },
                }
            } else {
                let props = node_props(e, id, eff, local, inherited, env.vw, env.vh);
                (true, id, eff, RSt { nodes: s1.nodes.push(RNode { kind: resource_kind(tag), id, props, parent }), ..s1 })
            }
        }
    }
}

/// Emits element `i` and then its child elements in order.
pub open spec fn emit(env: REnv, i: int, parent: Option<Seq<char>>, inherited: PMap, st: RSt) -> RSt
    decreases env.els.len() - i, env.els.len() + 1 - i,
{
    if i < 0 || i >= env.els.len() {
        st
    } else {
        let (more, id, eff, s1) = emit_step(env, i, parent, inherited, st);
        if more {
            emit_children(env, i, i + 1, id, eff, s1)
        } else {
            s1
        }
    }
}

/// Emits the child elements of element `i` from index `j` on.
pub open spec fn emit_children(env: REnv, i: int, j: int, id: Seq<char>, eff: PMap, st: RSt) -> RSt
    decreases env.els.len() - i, env.els.len() - j,
{
    if i < 0 || j <= i || j >= env.els.len() {
        st
    } else if env.els[j].parent == Some(env.els[i].id) {
        emit_children(env, i, j + 1, id, eff, emit(env, j, Some(id), eff, st))
    } else {
        emit_children(env, i, j + 1, id, eff, st)
    }
}

// ---------------------------------------------------------------------------
// Roots

/// The local targets of the first `k` `<use>` elements.
pub open spec fn referenced(els: Seq<ElementView>, k: int) -> Seq<Seq<char>>
    decreases k,
{
    if k <= 0 || k > els.len() {
        Seq::empty()
    } else {
        let prev = referenced(els, k - 1);
        if els[k - 1].name == "use"@ && local_href(els[k - 1]) is Some {
            prev.push(local_href(els[k - 1])->0)
        } else {
            prev
        }
    }
}

/// The element before index `k` whose node is `node`, the nearest first.
pub open spec fn node_index(els: Seq<ElementView>, node: usize, k: int) -> Option<int>
    decreases k,
{
    if k <= 0 || k > els.len() {
        None
    } else if els[k - 1].id == node {
        Some(k - 1)
    } else {
        node_index(els, node, k - 1)
    }
}

/// Whether an element above element `i` is itself referenced.
pub open spec fn referenced_ancestor(els: Seq<ElementView>, refs: Seq<Seq<char>>, i: int) -> bool
    decreases i,
{
    if i <= 0 || i >= els.len() {
        false
    } else {
        match els[i].parent {
            None => false,
            Some(p) => match node_index(els, p, i) {
                Some(k) => if 0 <= k < i {
                    (attr(els[k], "id"@) matches Some(a) && refs.contains(a)) || referenced_ancestor(els, refs, k)
                } else {
                    false
                },
                None => false,
            },
        }
    }
}

/// A referenced element that is no other kind of resource and lies in no
/// referenced subtree.
pub open spec fn is_root(els: Seq<ElementView>, refs: Seq<Seq<char>>, i: int) -> bool {
    &&& attr(els[i], "id"@) matches Some(a) && refs.contains(a)
    &&& !resource_tag(els[i].name)
    &&& !referenced_ancestor(els, refs, i)
}

/// The identifiers the SRNG text already declares.
pub open spec fn declared_ids(ls: Seq<Seq<char>>) -> Seq<Seq<char>>
    decreases ls.len(),
{
    if ls.len() == 0 {
        Seq::empty()
    } else {
        let prev = declared_ids(ls.drop_last());
        let t = trim(ls.last());
        if ends_with(t, "{"@) && !starts_with(t, "relation "@) && second_word(t) is Some {
            prev.push(second_word(t)->0)
        } else {
            prev
        }
    }
}

/// Emits the resource roots among the first `k` elements.
pub open spec fn emit_roots(env: REnv, refs: Seq<Seq<char>>, existing: Seq<Seq<char>>, k: int, st: RSt) -> RSt
    decreases k,
{
    if k <= 0 || k > env.els.len() {
        st
    } else {
        let s = emit_roots(env, refs, existing, k - 1, st);
        let i = k - 1;
        if is_root(env.els, refs, i) && !existing.contains(rr_ident(attr(env.els[i], "id"@)->0)) {
            emit(env, i, None, Seq::empty(), s)
        } else {
            s
        }
    }
}

// ---------------------------------------------------------------------------
// Output

pub open spec fn node_text(n: RNode) -> Seq<char> {
    n.kind + " "@ + n.id + " {\n"@ + props_text(n.props) + "}\n\n"@
}

pub open spec fn nodes_text(ns: Seq<RNode>) -> Seq<char>
    decreases ns.len(),
{
    if ns.len() == 0 {
        Seq::empty()
    } else {
        nodes_text(ns.drop_last()) + node_text(ns.last())
    }
}

/// Property lines, without `resource-parent`.
pub open spec fn ref_props_text(ps: PMap) -> Seq<char>
    decreases ps.len(),
{
    if ps.len() == 0 {
        Seq::empty()
    } else {
        ref_props_text(ps.drop_last()) + if ps.last().0 == "resource-parent"@ {
            Seq::empty()
        } else {
            "    "@ + ps.last().0 + ": "@ + ps.last().1 + ";\n"@
        }
    }
}

pub open spec fn ref_text(r: RRef) -> Seq<char> {
    "reference "@ + r.id + " = \"#"@ + r.target + "\" {\n"@ + ref_props_text(r.props) + "}\n\n"@
}

pub open spec fn refs_text(rs: Seq<RRef>) -> Seq<char>
    decreases rs.len(),
{
    if rs.len() == 0 {
        Seq::empty()
    } else {
        refs_text(rs.drop_last()) + ref_text(rs.last())
    }
}

pub open spec fn relation(from: Seq<char>, to: Seq<char>) -> Seq<char> {
    "relation "@ + from + " -> "@ + to + " {\n    kind: contains;\n}\n\n"@
}

pub open spec fn node_rels(ns: Seq<RNode>) -> Seq<char>
    decreases ns.len(),
{
    if ns.len() == 0 {
        Seq::empty()
    } else {
        node_rels(ns.drop_last()) + match ns.last().parent {
            Some(p) => relation(p, ns.last().id),
            None => Seq::empty(),
        }
    }
}

/// A quoted value without its quotes (no escapes undone).
pub open spec fn rr_unquote(v: Seq<char>) -> Seq<char> {
    let t = trim(v);
    if t.len() >= 2 && t[0] == '"' && t.last() == '"' { t.subrange(1, t.len() - 1) } else { v }
}

pub open spec fn ref_rels(rs: Seq<RRef>) -> Seq<char>
    decreases rs.len(),
{
    if rs.len() == 0 {
        Seq::empty()
    } else {
        ref_rels(rs.drop_last()) + match pm_get(rs.last().props, "resource-parent"@) {
            Some(p) => relation(rr_unquote(p), rs.last().id),
            None => Seq::empty(),
        }
    }
}

pub open spec fn resources_header() -> Seq<char> {
    "\n// Native reusable resource declarations. Resource-only nodes do not paint until referenced.\n"@
}

/// The text the emitted resources add.
pub open spec fn resources_text(st: RSt) -> Seq<char> {
    (if st.nodes.len() > 0 || st.refs.len() > 0 { resources_header() } else { Seq::empty() }) + nodes_text(st.nodes)
        + refs_text(st.refs) + node_rels(st.nodes) + ref_rels(st.refs)
}

pub open spec fn empty_state() -> RSt {
    RSt { emitted: Seq::empty(), nodes: Seq::empty(), refs: Seq::empty(), diags: Seq::empty() }
}

/// The source with the reusable resources of `svg` appended, and the
/// diagnostics about resource instances without a target.
pub open spec fn reusable_spec(svg: Seq<char>, source: Seq<char>) -> (Seq<char>, Seq<DiagV>) {
    match xml_elements(svg) {
        Err(_) => (source, Seq::empty()),
        Ok(els) => if els.len() == 0 {
            (source, Seq::empty())
        } else {
            let (vw, vh) = root_viewport(els[0]);
            let env = REnv { els, vw, vh };
            let st = emit_roots(env, referenced(els, els.len() as int), declared_ids(lines(source)), els.len() as int,
                empty_state());
            (source + resources_text(st), st.diags)
        },
    }
}


// ---------------------------------------------------------------------------
// Values, executable

fn rr_key_at(i: usize) -> (k: &'static str)
    requires
        i < 12,
    ensures
        k@ == rr_keys()[i as int],
{
    match i {
        0 => "fill",
        1 => "stroke",
        2 => "fill-rule",
        3 => "stroke-width",
        4 => "stroke-linecap",
        5 => "stroke-linejoin",
        6 => "stroke-dasharray",
        7 => "stroke-dashoffset",
        8 => "opacity",
        9 => "fill-opacity",
        10 => "stroke-opacity",
        _ => "visibility",
    }
}

fn is_rr_key(k: &Vec<char>) -> (b: bool)
    ensures
        b == rr_keys().contains(k@),
{
    let mut i: usize = 0;
    while i < 12
        invariant
            i <= 12,
            forall|j: int| 0 <= j < i ==> rr_keys()[j] != k@,
        decreases 12 - i,
    {
        if crate::svg_v4::is_text(k, rr_key_at(i)) {
            assert(rr_keys()[i as int] == k@);
            return true;
        }
        i += 1;
    }
    proof {
        assert forall|j: int| 0 <= j < rr_keys().len() implies rr_keys()[j] != k@ by {}
    }
    false
}

fn rr_style_exec(e: &XmlElement) -> (r: Vec<(Vec<char>, Vec<char>)>)
    ensures
        pm_view(r@) == rr_style(element_view(*e)),
{
    let ghost ev = element_view(*e);
    let mut m: Vec<(Vec<char>, Vec<char>)> = Vec::new();
    let mut i: usize = 0;
    while i < 12
        invariant
            i <= 12,
            ev == element_view(*e),
            pm_view(m@) == style_attrs(ev, rr_keys().subrange(0, i as int)),
        decreases 12 - i,
    {
        let key = rr_key_at(i);
        assert(rr_keys().subrange(0, i + 1).drop_last() =~= rr_keys().subrange(0, i as int));
        match get_attr(e, key) {
            Some(v) => {
                pm_set(&mut m, chars_of(key), trim_chars(&chars_of(v.as_str())));
            },
            None => {},
        }
        i += 1;
    }
    assert(rr_keys().subrange(0, 12) =~= rr_keys());
    match get_attr(e, "style") {
        Some(st) => {
            let parts = crate::svg_import::split_chars(&chars_of(st.as_str()), ';');
            let ghost pv = line_views(parts@);
            let ghost m0 = pm_view(m@);
            let mut j: usize = 0;
            while j < parts.len()
                invariant
                    j <= parts@.len(),
                    pv == line_views(parts@),
                    pm_view(m@) == rr_decls(m0, pv.subrange(0, j as int)),
                decreases parts@.len() - j,
            {
                assert(pv.subrange(0, j + 1).drop_last() =~= pv.subrange(0, j as int));
                let part = &parts[j];
                assert(pv[j as int] == part@);
                let c = find_char_exec(part, ':', 0);
                if c < part.len() {
                    let k = trim_chars(&sub_chars(part, 0, c));
                    if is_rr_key(&k) {
                        let v = trim_chars(&sub_chars(part, c + 1, part.len()));
                        pm_set(&mut m, k, v);
                    }
                }
                j += 1;
            }
            assert(pv.subrange(0, parts@.len() as int) =~= pv);
        },
        None => {},
    }
    m
}

fn rr_named_exec(v: &Vec<char>) -> (r: Option<Vec<char>>)
    ensures
        match rr_named(v@) {
            Some(c) => r is Some && r->0@ == c,
            None => r is None,
        },
{
    let is_text = |s: &str| -> (b: bool) ensures b == (v@ == s@) { crate::svg_v4::is_text(v, s) };
    if is_text("black") {
        Some(chars_of("#000000"))
    } else if is_text("white") {
        Some(chars_of("#ffffff"))
    } else if is_text("red") {
        Some(chars_of("#ff0000"))
    } else if is_text("green") {
        Some(chars_of("#008000"))
    } else if is_text("blue") {
        Some(chars_of("#0000ff"))
    } else if is_text("transparent") {
        Some(chars_of("#00000000"))
    } else {
        None
    }
}

fn rr_colour_exec(value: &Vec<char>) -> (r: Option<Vec<char>>)
    ensures
        match rr_colour(value@) {
            Some(c) => r is Some && r->0@ == c,
            None => r is None,
        },
{
    let v = trim_chars(value);
    let lowered = crate::image::lower_chars(&v);
    proof {
        reveal_strlit("none");
        if eq_ignore_case(v@, "none"@) {
            assert(lowered@ =~= "none"@);
        }
        if lowered@ == "none"@ {
            assert forall|k: int| 0 <= k < v@.len() implies crate::number::to_lower(#[trigger] v@[k]) == "none"@[k] by {
                assert(lowered@[k] == crate::number::to_lower(v@[k]));
            }
        }
    }
    if crate::svg_v4::is_text(&lowered, "none") {
        return Some(chars_of("none"));
    }
    let text = string_of(&v);
    let blen = text.as_str().as_bytes().len();
    if v.len() > 0 && v[0] == '#' && (blen == 4 || blen == 5 || blen == 7 || blen == 9) {
        return Some(v);
    }
    rr_named_exec(&lowered)
}

fn style_value_exec(key: &Vec<char>, value: &Vec<char>) -> (r: Vec<char>)
    ensures
        r@ == style_value(key@, value@),
{
    if crate::svg_v4::is_text(key, "fill") || crate::svg_v4::is_text(key, "stroke") {
        match rr_colour_exec(value) {
            Some(c) => c,
            None => quote4_exec(value),
        }
    } else if crate::svg_v4::is_text(key, "stroke-width") {
        match crate::length::parse_px_exec(&trim_chars(value)) {
            Some(n) => {
                let mut out: Vec<char> = Vec::new();
                crate::svg_native::push_f(&mut out, n);
                append_str(&mut out, "px");
                proof {
                    reveal_strlit("px");
                }
                out
            },
            None => quote4_exec(value),
        }
    } else {
        copy_chars(value)
    }
}

fn rr_length_exec(v: Option<String>, base: Px, default: Px) -> (r: Px)
    requires
        px_wf(base),
        px_wf(default),
    ensures
        r == rr_length(crate::xml::opt_str_view(v), base, default),
        px_wf(r),
{
    match v {
        Some(x) => match resolve_length(x.as_str(), Axis::X, base, base) {
            Some(p) => p,
            None => default,
        },
        None => default,
    }
}

fn rr_pair_exec(x: Px, y: Px) -> (r: Vec<char>)
    requires
        px_wf(x),
        px_wf(y),
    ensures
        r@ == rr_pair(x, y),
{
    let mut out: Vec<char> = Vec::new();
    crate::svg_native::push_f(&mut out, x);
    append_str(&mut out, "px ");
    crate::svg_native::push_f(&mut out, y);
    append_str(&mut out, "px");
    proof {
        reveal_strlit("px ");
        reveal_strlit("px");
    }
    assert(out@ =~= rr_pair(x, y));
    out
}

fn root_viewport_exec(root: &XmlElement) -> (r: (Px, Px))
    ensures
        r == root_viewport(element_view(*root)),
        px_wf(r.0),
        px_wf(r.1),
{
    let vb = match get_attr(root, "viewBox") {
        Some(v) => match crate::length::parse_number_list(&chars_of(v.as_str()), true) {
            Some(ns) => if ns.len() == 4 { Some(ns) } else { None },
            None => None,
        },
        None => None,
    };
    let p300 = Px::Fin { neg: false, mag: 300000000000 };
    let p150 = Px::Fin { neg: false, mag: 150000000000 };
    assert(p300 == crate::svg_import::whole_px(300) && p150 == crate::svg_import::whole_px(150));
    let (bw, bh) = match &vb {
        Some(ns) => (ns[2], ns[3]),
        None => (p300, p150),
    };
    (rr_length_exec(get_attr(root, "width"), bw, bw), rr_length_exec(get_attr(root, "height"), bh, bh))
}


// ---------------------------------------------------------------------------
// Properties, executable

fn set_lit(m: &mut Vec<(Vec<char>, Vec<char>)>, k: &str, v: &str)
    ensures
        pm_view(final(m)@) == pm_insert(pm_view(old(m)@), k@, v@),
{
    pm_set(m, chars_of(k), chars_of(v));
}

fn box_geometry_exec(x: Px, y: Px, w: Px, h: Px) -> (r: Vec<(Vec<char>, Vec<char>)>)
    requires
        px_wf(x),
        px_wf(y),
        px_wf(w),
        px_wf(h),
    ensures
        pm_view(r@) == box_geometry(x, y, w, h),
{
    let mut m: Vec<(Vec<char>, Vec<char>)> = Vec::new();
    pm_set(&mut m, chars_of("position"), rr_pair_exec(x, y));
    pm_set(&mut m, chars_of("size"), rr_pair_exec(w, h));
    m
}

fn len_attr(e: &XmlElement, name: &str, base: Px) -> (r: Px)
    requires
        px_wf(base),
    ensures
        r == rr_length(attr(element_view(*e), name@), base, zero()),
        px_wf(r),
{
    rr_length_exec(get_attr(e, name), base, Px::Fin { neg: false, mag: 0 })
}

fn rect_geometry_exec(e: &XmlElement, vw: Px, vh: Px) -> (r: Vec<(Vec<char>, Vec<char>)>)
    requires
        px_wf(vw),
        px_wf(vh),
    ensures
        pm_view(r@) == rect_geometry(element_view(*e), vw, vh),
{
    box_geometry_exec(len_attr(e, "x", vw), len_attr(e, "y", vh), crate::length::max0_px(len_attr(e, "width", vw)),
        crate::length::max0_px(len_attr(e, "height", vh)))
}

fn circle_geometry_exec(e: &XmlElement, vw: Px, vh: Px) -> (r: Vec<(Vec<char>, Vec<char>)>)
    requires
        px_wf(vw),
        px_wf(vh),
    ensures
        pm_view(r@) == circle_geometry(element_view(*e), vw, vh),
{
    let cx = len_attr(e, "cx", vw);
    let cy = len_attr(e, "cy", vh);
    let r = crate::length::max0_px(len_attr(e, "r", vw));
    let d = crate::length::scale_px(r, 2, 1);
    box_geometry_exec(crate::length::sub_px(cx, r), crate::length::sub_px(cy, r), d, d)
}

fn ellipse_geometry_exec(e: &XmlElement, vw: Px, vh: Px) -> (r: Vec<(Vec<char>, Vec<char>)>)
    requires
        px_wf(vw),
        px_wf(vh),
    ensures
        pm_view(r@) == ellipse_geometry(element_view(*e), vw, vh),
{
    let cx = len_attr(e, "cx", vw);
    let cy = len_attr(e, "cy", vh);
    let rx = crate::length::max0_px(len_attr(e, "rx", vw));
    let ry = crate::length::max0_px(len_attr(e, "ry", vh));
    box_geometry_exec(crate::length::sub_px(cx, rx), crate::length::sub_px(cy, ry), crate::length::scale_px(rx, 2, 1),
        crate::length::scale_px(ry, 2, 1))
}

fn with_data_exec(d: Option<Vec<char>>) -> (r: Vec<(Vec<char>, Vec<char>)>)
    ensures
        pm_view(r@) == with_data(crate::svg_native::opt_chars(d)),
{
    let mut m: Vec<(Vec<char>, Vec<char>)> = Vec::new();
    set_lit(&mut m, "position", "0px 0px");
    match d {
        Some(x) => pm_set(&mut m, chars_of("data"), quote4_exec(&x)),
        None => {},
    }
    m
}

fn line_data_exec(e: &XmlElement, vw: Px, vh: Px) -> (r: Vec<char>)
    requires
        px_wf(vw),
        px_wf(vh),
    ensures
        r@ == line_data(element_view(*e), vw, vh),
{
    let mut out = chars_of("M ");
    crate::svg_native::push_f(&mut out, len_attr(e, "x1", vw));
    crate::svg_native::push_sp_f(&mut out, " ", len_attr(e, "y1", vh));
    crate::svg_native::push_sp_f(&mut out, " L ", len_attr(e, "x2", vw));
    crate::svg_native::push_sp_f(&mut out, " ", len_attr(e, "y2", vh));
    proof {
        reveal_strlit("M ");
    }
    assert(out@ =~= line_data(element_view(*e), vw, vh));
    out
}

fn poly_data_exec(e: &XmlElement) -> (r: Option<Vec<char>>)
    ensures
        crate::svg_native::opt_chars(r) == poly_data(element_view(*e)),
{
    match get_attr(e, "points") {
        Some(pts) => match crate::svg_native::poly_exec(&chars_of(pts.as_str())) {
            Some(d) => {
                if crate::svg_v4::is_text(&chars_of(e.name.as_str()), "polygon") {
                    let mut out = d;
                    append_str(&mut out, " Z");
                    Some(out)
                } else {
                    Some(d)
                }
            },
            None => None,
        },
        None => None,
    }
}

fn text_geometry_exec(e: &XmlElement, vw: Px, vh: Px) -> (r: Vec<(Vec<char>, Vec<char>)>)
    requires
        px_wf(vw),
        px_wf(vh),
    ensures
        pm_view(r@) == text_geometry(element_view(*e), vw, vh),
{
    let mut m: Vec<(Vec<char>, Vec<char>)> = Vec::new();
    pm_set(&mut m, chars_of("position"), rr_pair_exec(len_attr(e, "x", vw), len_attr(e, "y", vh)));
    let t = match &e.text {
        Some(t) => chars_of(t.as_str()),
        None => Vec::new(),
    };
    pm_set(&mut m, chars_of("content"), quote4_exec(&t));
    m
}

fn blank_geometry_exec(stroke: bool) -> (r: Vec<(Vec<char>, Vec<char>)>)
    ensures
        pm_view(r@) == blank_geometry(stroke),
{
    let mut m: Vec<(Vec<char>, Vec<char>)> = Vec::new();
    set_lit(&mut m, "position", "0px 0px");
    set_lit(&mut m, "size", "0px 0px");
    set_lit(&mut m, "fill", "none");
    if stroke {
        set_lit(&mut m, "stroke", "none");
    }
    m
}

fn geometry_exec(e: &XmlElement, vw: Px, vh: Px) -> (r: Vec<(Vec<char>, Vec<char>)>)
    requires
        px_wf(vw),
        px_wf(vh),
    ensures
        pm_view(r@) == geometry(element_view(*e), vw, vh),
{
    let tag = chars_of(e.name.as_str());
    let is = |s: &str| -> (b: bool) ensures b == (tag@ == s@) { crate::svg_v4::is_text(&tag, s) };
    if is("g") || is("symbol") || is("svg") {
        blank_geometry_exec(true)
    } else if is("rect") {
        rect_geometry_exec(e, vw, vh)
    } else if is("circle") {
        circle_geometry_exec(e, vw, vh)
    } else if is("ellipse") {
        ellipse_geometry_exec(e, vw, vh)
    } else if is("path") {
        with_data_exec(match get_attr(e, "d") {
            Some(d) => Some(chars_of(d.as_str())),
            None => None,
        })
    } else if is("line") {
        with_data_exec(Some(line_data_exec(e, vw, vh)))
    } else if is("polyline") || is("polygon") {
        with_data_exec(poly_data_exec(e))
    } else if is("text") || is("tspan") {
        text_geometry_exec(e, vw, vh)
    } else {
        blank_geometry_exec(false)
    }
}

fn style_props_exec(m: &mut Vec<(Vec<char>, Vec<char>)>, style: &Vec<(Vec<char>, Vec<char>)>)
    ensures
        pm_view(final(m)@) == style_props(pm_view(old(m)@), pm_view(style@), 12),
{
    let ghost m0 = pm_view(m@);
    let mut i: usize = 0;
    while i < 12
        invariant
            i <= 12,
            pm_view(m@) == style_props(m0, pm_view(style@), i as int),
        decreases 12 - i,
    {
        let key = chars_of(rr_key_at(i));
        match pm_lookup(style, &key) {
            Some(v) => {
                let sv = style_value_exec(&key, &v);
                pm_set(m, key, sv);
            },
            None => {},
        }
        i += 1;
    }
}

fn inheritance_marks_exec(local: &Vec<(Vec<char>, Vec<char>)>, inherited: &Vec<(Vec<char>, Vec<char>)>,
    m: &mut Vec<(Vec<char>, Vec<char>)>)
    ensures
        pm_view(final(m)@) == inheritance_marks(pm_view(local@), pm_view(inherited@), pm_view(old(m)@)),
{
    if pm_lookup(local, &chars_of("fill")).is_none() && pm_lookup(inherited, &chars_of("fill")).is_none() {
        set_lit(m, "resource-inherit-fill", "true");
    }
    if pm_lookup(local, &chars_of("stroke")).is_none() && pm_lookup(inherited, &chars_of("stroke")).is_none() {
        set_lit(m, "resource-inherit-stroke", "true");
    }
}

fn resource_attrs_exec(e: &XmlElement, m: &mut Vec<(Vec<char>, Vec<char>)>)
    ensures
        pm_view(final(m)@) == resource_attrs(pm_view(old(m)@), element_view(*e).attributes),
{
    let ghost ev = element_view(*e);
    let ghost m0 = pm_view(m@);
    let mut i: usize = 0;
    while i < e.attributes.len()
        invariant
            i <= e.attributes@.len(),
            ev == element_view(*e),
            ev.attributes.len() == e.attributes@.len(),
            pm_view(m@) == resource_attrs(m0, ev.attributes.subrange(0, i as int)),
        decreases e.attributes@.len() - i,
    {
        let a = &e.attributes[i];
        assert(ev.attributes[i as int] == crate::xml::attribute_view(*a));
        assert(ev.attributes.subrange(0, i + 1).drop_last() =~= ev.attributes.subrange(0, i as int));
        let mut k = chars_of("resource-attr-");
        append_chars(&mut k, &crate::svg_import::safe_suffix_exec(&chars_of(a.name.as_str())));
        proof {
            reveal_strlit("resource-attr-");
        }
        pm_set(m, k, quote4_exec(&chars_of(a.value.as_str())));
        i += 1;
    }
    assert(ev.attributes.subrange(0, e.attributes@.len() as int) =~= ev.attributes);
}

fn node_props_exec(e: &XmlElement, id: &Vec<char>, eff: &Vec<(Vec<char>, Vec<char>)>, local: &Vec<(Vec<char>, Vec<char>)>,
    inherited: &Vec<(Vec<char>, Vec<char>)>, vw: Px, vh: Px) -> (r: Vec<(Vec<char>, Vec<char>)>)
    requires
        px_wf(vw),
        px_wf(vh),
    ensures
        pm_view(r@) == node_props(element_view(*e), id@, pm_view(eff@), pm_view(local@), pm_view(inherited@), vw, vh),
{
    let tag = chars_of(e.name.as_str());
    let mut m = geometry_exec(e, vw, vh);
    set_lit(&mut m, "resource-only", "true");
    pm_set(&mut m, chars_of("source-tag"), quote4_exec(&tag));
    let sid = match get_attr(e, "id") {
        Some(v) => chars_of(v.as_str()),
        None => copy_chars(id),
    };
    pm_set(&mut m, chars_of("resource-source-id"), quote4_exec(&sid));
    style_props_exec(&mut m, eff);
    inheritance_marks_exec(local, inherited, &mut m);
    resource_attrs_exec(e, &mut m);
    if crate::svg_v4::is_text(&tag, "symbol") {
        pm_set(&mut m, chars_of("resource-kind"), quote4_exec(&chars_of("symbol")));
        match get_attr(e, "viewBox") {
            Some(v) => pm_set(&mut m, chars_of("viewbox"), quote4_exec(&chars_of(v.as_str()))),
            None => {},
        }
        let par = match get_attr(e, "preserveAspectRatio") {
            Some(v) => chars_of(v.as_str()),
            None => chars_of("xMidYMid meet"),
        };
        pm_set(&mut m, chars_of("preserve-aspect-ratio"), quote4_exec(&par));
    } else if crate::svg_v4::is_text(&tag, "g") {
        pm_set(&mut m, chars_of("resource-kind"), quote4_exec(&chars_of("group")));
    }
    match get_attr(e, "transform") {
        Some(t) => pm_set(&mut m, chars_of("transform"), quote4_exec(&chars_of(t.as_str()))),
        None => {},
    }
    m
}

fn reference_props_exec(e: &XmlElement, style: &Vec<(Vec<char>, Vec<char>)>, vw: Px, vh: Px) -> (r: Vec<(Vec<char>, Vec<char>)>)
    requires
        px_wf(vw),
        px_wf(vh),
    ensures
        pm_view(r@) == reference_props(element_view(*e), pm_view(style@), vw, vh),
{
    let mut m: Vec<(Vec<char>, Vec<char>)> = Vec::new();
    pm_set(&mut m, chars_of("position"), rr_pair_exec(len_attr(e, "x", vw), len_attr(e, "y", vh)));
    if crate::xml::has_attr(e, "width") || crate::xml::has_attr(e, "height") {
        pm_set(&mut m, chars_of("size"), rr_pair_exec(crate::length::max0_px(len_attr(e, "width", vw)),
            crate::length::max0_px(len_attr(e, "height", vh))));
    }
    style_props_exec(&mut m, style);
    match get_attr(e, "transform") {
        Some(t) => pm_set(&mut m, chars_of("transform"), quote4_exec(&chars_of(t.as_str()))),
        None => {},
    }
    m
}


// ---------------------------------------------------------------------------
// Emission, executable

pub struct RNodeE {
    pub kind: Vec<char>,
    pub id: Vec<char>,
    pub props: Vec<(Vec<char>, Vec<char>)>,
    pub parent: Option<Vec<char>>,
}

pub struct RRefE {
    pub id: Vec<char>,
    pub target: Vec<char>,
    pub props: Vec<(Vec<char>, Vec<char>)>,
}

pub struct Emitter {
    pub emitted: Vec<Vec<char>>,
    pub nodes: Vec<RNodeE>,
    pub refs: Vec<RRefE>,
    pub diags: Vec<ImportDiagnostic>,
}

pub open spec fn node_view(n: RNodeE) -> RNode {
    RNode { kind: n.kind@, id: n.id@, props: pm_view(n.props@), parent: crate::svg_native::opt_chars(n.parent) }
}

pub open spec fn ref_view(r: RRefE) -> RRef {
    RRef { id: r.id@, target: r.target@, props: pm_view(r.props@) }
}

pub open spec fn nodes_view(ns: Seq<RNodeE>) -> Seq<RNode> {
    ns.map_values(|n: RNodeE| node_view(n))
}

pub open spec fn refs_view(rs: Seq<RRefE>) -> Seq<RRef> {
    rs.map_values(|r: RRefE| ref_view(r))
}

pub open spec fn emitter_view(em: Emitter) -> RSt {
    RSt { emitted: line_views(em.emitted@), nodes: nodes_view(em.nodes@), refs: refs_view(em.refs@), diags: diags_of(em.diags@) }
}

pub open spec fn env_of(els: Seq<XmlElement>, vw: Px, vh: Px) -> REnv {
    REnv { els: elements_view(els), vw, vh }
}

fn opt_copy(o: &Option<Vec<char>>) -> (r: Option<Vec<char>>)
    ensures
        crate::svg_native::opt_chars(r) == crate::svg_native::opt_chars(*o),
{
    match o {
        Some(v) => Some(copy_chars(v)),
        None => None,
    }
}

fn no_target_exec(id: &Vec<char>) -> (d: ImportDiagnostic)
    ensures
        diag_view(d) == no_target(id@),
{
    ImportDiagnostic {
        severity: crate::text::chars_to_string_lit("warning"),
        code: crate::text::chars_to_string_lit("S310"),
        message: crate::text::chars_to_string_lit("resource <use> has no local href target"),
        element: Some(string_of(id)),
    }
}

fn local_href_exec(e: &XmlElement) -> (r: Option<Vec<char>>)
    ensures
        crate::svg_native::opt_chars(r) == local_href(element_view(*e)),
{
    match get_attr(e, "href") {
        Some(h) => {
            let c = chars_of(h.as_str());
            if c.len() > 0 && c[0] == '#' {
                Some(sub_chars(&c, 1, c.len()))
            } else {
                None
            }
        },
        None => None,
    }
}

fn skipped_tag_exec(tag: &Vec<char>) -> (b: bool)
    ensures
        b == skipped_tag(tag@),
{
    let is = |s: &str| -> (b: bool) ensures b == (tag@ == s@) { crate::svg_v4::is_text(tag, s) };
    is("metadata") || is("title") || is("desc") || resource_tag_exec(tag)
}

fn resource_tag_exec(tag: &Vec<char>) -> (b: bool)
    ensures
        b == resource_tag(tag@),
{
    let is = |s: &str| -> (b: bool) ensures b == (tag@ == s@) { crate::svg_v4::is_text(tag, s) };
    is("linearGradient") || is("radialGradient") || is("pattern") || is("mask") || is("clipPath") || is("filter")
}

fn resource_kind_exec(tag: &Vec<char>) -> (r: Vec<char>)
    ensures
        r@ == resource_kind(tag@),
{
    let is = |s: &str| -> (b: bool) ensures b == (tag@ == s@) { crate::svg_v4::is_text(tag, s) };
    if is("g") || is("symbol") || is("svg") {
        chars_of("group")
    } else if is("line") || is("polyline") || is("polygon") {
        chars_of("path")
    } else {
        copy_chars(tag)
    }
}

fn rr_ident_exec(raw: &Vec<char>) -> (r: Vec<char>)
    ensures
        r@ == rr_ident(raw@),
{
    if raw.len() == 0 { chars_of("resource") } else { safe_ident_exec(raw) }
}

impl Emitter {
    fn node_ident_exec(&self, e: &XmlElement, parent: &Option<Vec<char>>) -> (r: Vec<char>)
        ensures
            r@ == node_ident(element_view(*e), crate::svg_native::opt_chars(*parent), emitter_view(*self)),
    {
        match get_attr(e, "id") {
            Some(v) => rr_ident_exec(&chars_of(v.as_str())),
            None => {
                let mut raw = match parent {
                    Some(p) => copy_chars(p),
                    None => chars_of("resource"),
                };
                append_str(&mut raw, "__resource_");
                let n = (self.nodes.len() as u128) + (self.refs.len() as u128) + 1;
                crate::length::push_decimal_wide(&mut raw, n);
                proof {
                    reveal_strlit("__resource_");
                    reveal_strlit("resource");
                }
                rr_ident_exec(&raw)
            },
        }
    }

    fn emit_step_exec(&mut self, els: &Vec<XmlElement>, vw: Px, vh: Px, i: usize, parent: &Option<Vec<char>>,
        inherited: &Vec<(Vec<char>, Vec<char>)>) -> (r: (bool, Vec<char>, Vec<(Vec<char>, Vec<char>)>))
        requires
            i < els@.len(),
            px_wf(vw),
            px_wf(vh),
        ensures
            (r.0, r.1@, pm_view(r.2@), emitter_view(*final(self))) == emit_step(env_of(els@, vw, vh), i as int,
                crate::svg_native::opt_chars(*parent), pm_view(inherited@), emitter_view(*old(self))),
    {
        let ghost env = env_of(els@, vw, vh);
        let e = &els[i];
        assert(env.els[i as int] == element_view(*e));
        let tag = chars_of(e.name.as_str());
        if skipped_tag_exec(&tag) {
            return (false, Vec::new(), crate::svg_import::copy_map(inherited));
        }
        let id = self.node_ident_exec(e, parent);
        if crate::svg_v4::seq_contains_exec(&self.emitted, &id) {
            return (false, id, crate::svg_import::copy_map(inherited));
        }
        let ghost s0 = emitter_view(*self);
        self.emitted.push(copy_chars(&id));
        assert(line_views(self.emitted@) =~= s0.emitted.push(id@));
        let local = rr_style_exec(e);
        let eff = crate::svg_import::effective_exec(inherited, &local);
        let ghost s1 = emitter_view(*self);
        if crate::svg_v4::is_text(&tag, "use") {
            match local_href_exec(e) {
                None => {
                    self.diags.push(no_target_exec(&id));
                    assert(diags_of(self.diags@) =~= s1.diags.push(no_target(id@)));
                    (false, id, eff)
                },
                Some(target) => {
                    let mut p = reference_props_exec(e, &eff, vw, vh);
                    set_lit(&mut p, "resource-only", "true");
                    let mut prov = chars_of("svg#");
                    append_chars(&mut prov, &target);
                    proof {
                        reveal_strlit("svg#");
                    }
                    pm_set(&mut p, chars_of("resource-provenance"), quote4_exec(&prov));
                    match parent {
                        Some(pp) => pm_set(&mut p, chars_of("resource-parent"), quote4_exec(pp)),
                        None => {},
                    }
                    let rf = RRefE { id: copy_chars(&id), target: rr_ident_exec(&target), props: p };
                    let ghost rv = ref_view(rf);
                    self.refs.push(rf);
                    assert(refs_view(self.refs@) =~= s1.refs.push(rv));
                    (false, id, eff)
                },
            }
        } else {
            let props = node_props_exec(e, &id, &eff, &local, inherited, vw, vh);
            let n = RNodeE { kind: resource_kind_exec(&tag), id: copy_chars(&id), props, parent: opt_copy(parent) };
            let ghost nv = node_view(n);
            self.nodes.push(n);
            assert(nodes_view(self.nodes@) =~= s1.nodes.push(nv));
            (true, id, eff)
        }
    }

    fn emit_exec(&mut self, els: &Vec<XmlElement>, vw: Px, vh: Px, i: usize, parent: &Option<Vec<char>>,
        inherited: &Vec<(Vec<char>, Vec<char>)>)
        requires
            i < els@.len(),
            px_wf(vw),
            px_wf(vh),
        ensures
            emitter_view(*final(self)) == emit(env_of(els@, vw, vh), i as int, crate::svg_native::opt_chars(*parent),
                pm_view(inherited@), emitter_view(*old(self))),
        decreases els@.len() - i, els@.len() + 1 - i,
    {
        let (more, id, eff) = self.emit_step_exec(els, vw, vh, i, parent, inherited);
        if more {
            self.emit_children_exec(els, vw, vh, i, &id, &eff);
        }
    }

    fn emit_children_exec(&mut self, els: &Vec<XmlElement>, vw: Px, vh: Px, i: usize, id: &Vec<char>,
        eff: &Vec<(Vec<char>, Vec<char>)>)
        requires
            i < els@.len(),
            px_wf(vw),
            px_wf(vh),
        ensures
            emitter_view(*final(self)) == emit_children(env_of(els@, vw, vh), i as int, i + 1, id@, pm_view(eff@),
                emitter_view(*old(self))),
        decreases els@.len() - i, els@.len() - i,
    {
        let ghost env = env_of(els@, vw, vh);
        let ghost target = emit_children(env, i as int, i + 1, id@, pm_view(eff@), emitter_view(*self));
        let n = els.len();
        let parent = Some(copy_chars(id));
        let mut j: usize = i + 1;
        while j < n
            invariant
                i < j <= n,
                n == els@.len(),
                env == env_of(els@, vw, vh),
                px_wf(vw),
                px_wf(vh),
                crate::svg_native::opt_chars(parent) == Some(id@),
                emit_children(env, i as int, j as int, id@, pm_view(eff@), emitter_view(*self)) == target,
            decreases n - j,
        {
            assert(env.els[j as int] == element_view(els@[j as int]));
            assert(env.els[i as int] == element_view(els@[i as int]));
            if els[j].parent == Some(els[i].id) {
                self.emit_exec(els, vw, vh, j, &parent, eff);
            }
            j += 1;
        }
    }
}


// ---------------------------------------------------------------------------
// Roots, executable

fn referenced_exec(els: &Vec<XmlElement>) -> (r: Vec<Vec<char>>)
    ensures
        line_views(r@) == referenced(elements_view(els@), els@.len() as int),
{
    let ghost ev = elements_view(els@);
    let mut out: Vec<Vec<char>> = Vec::new();
    let mut k: usize = 0;
    while k < els.len()
        invariant
            k <= els@.len(),
            ev == elements_view(els@),
            line_views(out@) == referenced(ev, k as int),
        decreases els@.len() - k,
    {
        let e = &els[k];
        assert(ev[k as int] == element_view(*e));
        if crate::svg_v4::is_text(&chars_of(e.name.as_str()), "use") {
            match local_href_exec(e) {
                Some(t) => {
                    let ghost before = line_views(out@);
                    out.push(t);
                    assert(line_views(out@) =~= before.push(local_href(ev[k as int])->0));
                },
                None => {},
            }
        }
        k += 1;
    }
    out
}

pub(crate) fn node_index_exec(els: &Vec<XmlElement>, node: usize, k: usize) -> (r: Option<usize>)
    requires
        k <= els@.len(),
    ensures
        match node_index(elements_view(els@), node, k as int) {
            Some(j) => r is Some && r->0 as int == j && j < k,
            None => r is None,
        },
{
    let ghost ev = elements_view(els@);
    let mut j = k;
    while j > 0
        invariant
            j <= k <= els@.len(),
            ev == elements_view(els@),
            node_index(ev, node, j as int) == node_index(ev, node, k as int),
        decreases j,
    {
        assert(ev[j - 1] == element_view(els@[j - 1]));
        if els[j - 1].id == node {
            return Some(j - 1);
        }
        j -= 1;
    }
    None
}

proof fn lemma_node_index_below(els: Seq<ElementView>, node: usize, k: int)
    requires
        0 <= k <= els.len(),
    ensures
        node_index(els, node, k) matches Some(j) ==> 0 <= j < k,
    decreases k,
{
    if k > 0 {
        lemma_node_index_below(els, node, k - 1);
    }
}

fn referenced_ancestor_exec(els: &Vec<XmlElement>, refs: &Vec<Vec<char>>, i: usize) -> (b: bool)
    requires
        i < els@.len(),
    ensures
        b == referenced_ancestor(elements_view(els@), line_views(refs@), i as int),
{
    let ghost ev = elements_view(els@);
    let ghost rv = line_views(refs@);
    let mut cur = i;
    while cur > 0
        invariant
            cur < els@.len(),
            ev == elements_view(els@),
            rv == line_views(refs@),
            referenced_ancestor(ev, rv, cur as int) == referenced_ancestor(ev, rv, i as int),
        decreases cur,
    {
        assert(ev[cur as int] == element_view(els@[cur as int]));
        let p = match els[cur].parent {
            Some(p) => p,
            None => {
                return false;
            },
        };
        proof {
            lemma_node_index_below(ev, p, cur as int);
        }
        let k = match node_index_exec(els, p, cur) {
            Some(k) => k,
            None => {
                return false;
            },
        };
        assert(ev[k as int] == element_view(els@[k as int]));
        match get_attr(&els[k], "id") {
            Some(a) => {
                if crate::svg_v4::seq_contains_exec(refs, &chars_of(a.as_str())) {
                    return true;
                }
            },
            None => {},
        }
        cur = k;
    }
    false
}

fn is_root_exec(els: &Vec<XmlElement>, refs: &Vec<Vec<char>>, i: usize) -> (b: bool)
    requires
        i < els@.len(),
    ensures
        b == is_root(elements_view(els@), line_views(refs@), i as int),
{
    let ghost ev = elements_view(els@);
    let e = &els[i];
    assert(ev[i as int] == element_view(*e));
    match get_attr(e, "id") {
        Some(a) => {
            crate::svg_v4::seq_contains_exec(refs, &chars_of(a.as_str())) && !resource_tag_exec(&chars_of(e.name.as_str()))
                && !referenced_ancestor_exec(els, refs, i)
        },
        None => false,
    }
}

fn declared_ids_exec(ls: &Vec<Vec<char>>) -> (r: Vec<Vec<char>>)
    ensures
        line_views(r@) == declared_ids(line_views(ls@)),
{
    let ghost lv = line_views(ls@);
    let mut out: Vec<Vec<char>> = Vec::new();
    let mut k: usize = 0;
    while k < ls.len()
        invariant
            k <= ls@.len(),
            lv == line_views(ls@),
            line_views(out@) == declared_ids(lv.subrange(0, k as int)),
        decreases ls@.len() - k,
    {
        assert(lv.subrange(0, k + 1).drop_last() =~= lv.subrange(0, k as int));
        assert(lv[k as int] == ls@[k as int]@);
        let t = trim_chars(&ls[k]);
        if ends_with_exec(&t, "{") && !starts_with_exec(&t, "relation ") {
            match crate::svg_use::second_word_exec(&t) {
                Some(w) => {
                    let ghost before = line_views(out@);
                    out.push(w);
                    assert(line_views(out@) =~= before.push(second_word(t@)->0));
                },
                None => {},
            }
        }
        k += 1;
    }
    assert(lv.subrange(0, ls@.len() as int) =~= lv);
    out
}

// ---------------------------------------------------------------------------
// Output, executable

fn push_props(out: &mut Vec<char>, ps: &Vec<(Vec<char>, Vec<char>)>, skip_parent: bool)
    ensures
        final(out)@ == old(out)@ + if skip_parent { ref_props_text(pm_view(ps@)) } else { props_text(pm_view(ps@)) },
{
    let ghost start = out@;
    let ghost v = pm_view(ps@);
    let mut i: usize = 0;
    while i < ps.len()
        invariant
            i <= ps@.len(),
            v == pm_view(ps@),
            out@ == start + if skip_parent { ref_props_text(v.subrange(0, i as int)) } else { props_text(v.subrange(0, i as int)) },
        decreases ps@.len() - i,
    {
        assert(v.subrange(0, i + 1).drop_last() =~= v.subrange(0, i as int));
        proof {
            reveal_strlit("    ");
            reveal_strlit(": ");
            reveal_strlit(";\n");
            reveal_strlit("resource-parent");
        }
        if !(skip_parent && crate::svg_v4::is_text(&ps[i].0, "resource-parent")) {
            append_str(out, "    ");
            append_chars(out, &ps[i].0);
            append_str(out, ": ");
            append_chars(out, &ps[i].1);
            append_str(out, ";\n");
        }
        assert(out@ =~= start + if skip_parent { ref_props_text(v.subrange(0, i + 1)) } else { props_text(v.subrange(0, i + 1)) });
        i += 1;
    }
    assert(v.subrange(0, ps@.len() as int) =~= v);
}

fn push_relation(out: &mut Vec<char>, from: &Vec<char>, to: &Vec<char>)
    ensures
        final(out)@ == old(out)@ + relation(from@, to@),
{
    let ghost start = out@;
    append_str(out, "relation ");
    append_chars(out, from);
    append_str(out, " -> ");
    append_chars(out, to);
    append_str(out, " {\n    kind: contains;\n}\n\n");
    proof {
        reveal_strlit("relation ");
        reveal_strlit(" -> ");
        reveal_strlit(" {\n    kind: contains;\n}\n\n");
    }
    assert(out@ =~= start + relation(from@, to@));
}

fn push_nodes(out: &mut Vec<char>, ns: &Vec<RNodeE>)
    ensures
        final(out)@ == old(out)@ + nodes_text(nodes_view(ns@)),
{
    let ghost start = out@;
    let ghost v = nodes_view(ns@);
    let mut i: usize = 0;
    while i < ns.len()
        invariant
            i <= ns@.len(),
            v == nodes_view(ns@),
            out@ == start + nodes_text(v.subrange(0, i as int)),
        decreases ns@.len() - i,
    {
        assert(v.subrange(0, i + 1).drop_last() =~= v.subrange(0, i as int));
        let n = &ns[i];
        assert(v[i as int] == node_view(*n));
        let ghost before = out@;
        append_chars(out, &n.kind);
        append_str(out, " ");
        append_chars(out, &n.id);
        append_str(out, " {\n");
        push_props(out, &n.props, false);
        append_str(out, "}\n\n");
        proof {
            reveal_strlit(" ");
            reveal_strlit(" {\n");
            reveal_strlit("}\n\n");
        }
        assert(out@ =~= before + node_text(v[i as int]));
        assert(out@ =~= start + nodes_text(v.subrange(0, i + 1)));
        i += 1;
    }
    assert(v.subrange(0, ns@.len() as int) =~= v);
}

fn push_refs(out: &mut Vec<char>, rs: &Vec<RRefE>)
    ensures
        final(out)@ == old(out)@ + refs_text(refs_view(rs@)),
{
    let ghost start = out@;
    let ghost v = refs_view(rs@);
    let mut i: usize = 0;
    while i < rs.len()
        invariant
            i <= rs@.len(),
            v == refs_view(rs@),
            out@ == start + refs_text(v.subrange(0, i as int)),
        decreases rs@.len() - i,
    {
        assert(v.subrange(0, i + 1).drop_last() =~= v.subrange(0, i as int));
        let r = &rs[i];
        assert(v[i as int] == ref_view(*r));
        let ghost before = out@;
        append_str(out, "reference ");
        append_chars(out, &r.id);
        append_str(out, " = \"#");
        append_chars(out, &r.target);
        append_str(out, "\" {\n");
        push_props(out, &r.props, true);
        append_str(out, "}\n\n");
        proof {
            reveal_strlit("reference ");
            reveal_strlit(" = \"#");
            reveal_strlit("\" {\n");
            reveal_strlit("}\n\n");
        }
        assert(out@ =~= before + ref_text(v[i as int]));
        assert(out@ =~= start + refs_text(v.subrange(0, i + 1)));
        i += 1;
    }
    assert(v.subrange(0, rs@.len() as int) =~= v);
}

fn push_node_rels(out: &mut Vec<char>, ns: &Vec<RNodeE>)
    ensures
        final(out)@ == old(out)@ + node_rels(nodes_view(ns@)),
{
    let ghost start = out@;
    let ghost v = nodes_view(ns@);
    let mut i: usize = 0;
    while i < ns.len()
        invariant
            i <= ns@.len(),
            v == nodes_view(ns@),
            out@ == start + node_rels(v.subrange(0, i as int)),
        decreases ns@.len() - i,
    {
        assert(v.subrange(0, i + 1).drop_last() =~= v.subrange(0, i as int));
        let n = &ns[i];
        assert(v[i as int] == node_view(*n));
        let ghost before = out@;
        match &n.parent {
            Some(p) => push_relation(out, p, &n.id),
            None => {},
        }
        assert(out@ =~= start + node_rels(v.subrange(0, i + 1)));
        i += 1;
    }
    assert(v.subrange(0, ns@.len() as int) =~= v);
}

fn rr_unquote_exec(v: &Vec<char>) -> (r: Vec<char>)
    ensures
        r@ == rr_unquote(v@),
{
    let t = trim_chars(v);
    let n = t.len();
    if n >= 2 && t[0] == '"' && t[n - 1] == '"' {
        sub_chars(&t, 1, n - 1)
    } else {
        copy_chars(v)
    }
}

fn push_ref_rels(out: &mut Vec<char>, rs: &Vec<RRefE>)
    ensures
        final(out)@ == old(out)@ + ref_rels(refs_view(rs@)),
{
    let ghost start = out@;
    let ghost v = refs_view(rs@);
    let mut i: usize = 0;
    while i < rs.len()
        invariant
            i <= rs@.len(),
            v == refs_view(rs@),
            out@ == start + ref_rels(v.subrange(0, i as int)),
        decreases rs@.len() - i,
    {
        assert(v.subrange(0, i + 1).drop_last() =~= v.subrange(0, i as int));
        let r = &rs[i];
        assert(v[i as int] == ref_view(*r));
        match pm_lookup(&r.props, &chars_of("resource-parent")) {
            Some(p) => push_relation(out, &rr_unquote_exec(&p), &r.id),
            None => {},
        }
        assert(out@ =~= start + ref_rels(v.subrange(0, i + 1)));
        i += 1;
    }
    assert(v.subrange(0, rs@.len() as int) =~= v);
}

fn new_emitter() -> (em: Emitter)
    ensures
        emitter_view(em) == empty_state(),
{
    let em = Emitter { emitted: Vec::new(), nodes: Vec::new(), refs: Vec::new(), diags: Vec::new() };
    assert(line_views(em.emitted@) =~= Seq::<Seq<char>>::empty());
    assert(nodes_view(em.nodes@) =~= Seq::<RNode>::empty());
    assert(refs_view(em.refs@) =~= Seq::<RRef>::empty());
    assert(diags_of(em.diags@) =~= Seq::<DiagV>::empty());
    em
}

fn emit_all(els: &Vec<XmlElement>, vw: Px, vh: Px, refs: &Vec<Vec<char>>, existing: &Vec<Vec<char>>) -> (em: Emitter)
    requires
        px_wf(vw),
        px_wf(vh),
    ensures
        emitter_view(em) == emit_roots(env_of(els@, vw, vh), line_views(refs@), line_views(existing@), els@.len() as int,
            empty_state()),
{
    let ghost ev = elements_view(els@);
    let ghost env = env_of(els@, vw, vh);
    let mut em = new_emitter();
    let ghost rv = line_views(refs@);
    let ghost xv = line_views(existing@);
    let mut k: usize = 0;
    while k < els.len()
        invariant
            k <= els@.len(),
            ev == elements_view(els@),
            env == env_of(els@, vw, vh),
            px_wf(vw),
            px_wf(vh),
            rv == line_views(refs@),
            xv == line_views(existing@),
            emitter_view(em) == emit_roots(env, rv, xv, k as int, empty_state()),
        decreases els@.len() - k,
    {
        assert(ev[k as int] == element_view(els@[k as int]));
        if is_root_exec(els, refs, k) {
            let a = get_attr(&els[k], "id");
            let id = match a {
                Some(v) => rr_ident_exec(&chars_of(v.as_str())),
                None => Vec::new(),
            };
            if !crate::svg_v4::seq_contains_exec(existing, &id) {
                let none: Vec<(Vec<char>, Vec<char>)> = Vec::new();
                assert(pm_view(none@) =~= Seq::<(Seq<char>, Seq<char>)>::empty());
                em.emit_exec(els, vw, vh, k, &None, &none);
            }
        }
        k += 1;
    }
    em
}

fn push_resources(out: &mut Vec<char>, em: &Emitter)
    ensures
        final(out)@ == old(out)@ + resources_text(emitter_view(*em)),
{
    let ghost start = out@;
    if em.nodes.len() > 0 || em.refs.len() > 0 {
        append_str(out, "\n// Native reusable resource declarations. Resource-only nodes do not paint until referenced.\n");
    }
    proof {
        reveal_strlit("\n// Native reusable resource declarations. Resource-only nodes do not paint until referenced.\n");
    }
    let ghost mid = out@;
    push_nodes(out, &em.nodes);
    push_refs(out, &em.refs);
    push_node_rels(out, &em.nodes);
    push_ref_rels(out, &em.refs);
    assert(out@ =~= start + resources_text(emitter_view(*em)));
}

fn append_diags(diags: &mut Vec<ImportDiagnostic>, more: &Vec<ImportDiagnostic>)
    ensures
        diags_of(final(diags)@) == diags_of(old(diags)@) + diags_of(more@),
{
    let ghost d0 = diags_of(diags@);
    let mut j: usize = 0;
    while j < more.len()
        invariant
            j <= more@.len(),
            diags_of(diags@) == d0 + diags_of(more@).subrange(0, j as int),
        decreases more@.len() - j,
    {
        let ghost before = diags_of(diags@);
        diags.push(crate::svg_import::copy_diag(&more[j]));
        assert(diags_of(diags@) =~= before.push(diag_view(more@[j as int])));
        assert(diags_of(more@).subrange(0, j + 1) =~= diags_of(more@).subrange(0, j as int).push(diag_view(more@[j as int])));
        j += 1;
    }
    assert(diags_of(more@).subrange(0, more@.len() as int) =~= diags_of(more@));
}

/// Appends the reusable resources of `svg` to the SRNG `source`:
/// resource-only declarations for each referenced element and its subtree,
/// resource-only references for the `<use>` elements among them, and their
/// `contains` relations; resource `<use>` elements without a local target
/// are diagnosed.
pub fn promote_reusable_resources(svg: &str, source: &Vec<char>, diags: &mut Vec<ImportDiagnostic>) -> (r: Vec<char>)
    ensures
        r@ == reusable_spec(svg@, source@).0,
        diags_of(final(diags)@) == diags_of(old(diags)@) + reusable_spec(svg@, source@).1,
{
    let ghost d0 = diags_of(diags@);
    assert(d0 + Seq::<DiagV>::empty() =~= d0);
    let els = match crate::xml::parse_xml(svg) {
        Ok(els) => els,
        Err(_) => {
            return copy_chars(source);
        },
    };
    if els.len() == 0 {
        return copy_chars(source);
    }
    let ghost ev = elements_view(els@);
    assert(ev[0] == element_view(els@[0]));
    let (vw, vh) = root_viewport_exec(&els[0]);
    let refs = referenced_exec(&els);
    let existing = declared_ids_exec(&split_lines(source));
    let em = emit_all(&els, vw, vh, &refs, &existing);
    let mut out = copy_chars(source);
    push_resources(&mut out, &em);
    append_diags(diags, &em.diags);
    out
}


// ---------------------------------------------------------------------------
// Laws

/// Reusable resources are only ever added after the imported text: the
/// text that was there stays, unchanged, in front.
pub proof fn law_resources_only_append(svg: Seq<char>, source: Seq<char>)
    ensures
        reusable_spec(svg, source).0.len() >= source.len(),
        reusable_spec(svg, source).0.subrange(0, source.len() as int) == source,
{
    let r = reusable_spec(svg, source).0;
    assert(r.subrange(0, source.len() as int) =~= source);
}

} // verus!
