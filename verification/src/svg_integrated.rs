//! The integrated import: over the filter import, each `reference` block
//! of a `<use>` gets the fill it inherits, pattern references get their
//! pattern's size, and binary masks drop their vector payload.
use vstd::prelude::*;
use crate::font::{split_from, strip_all, strip_back, strip_front};
use crate::formatter::{line_views, lines, split_lines, trim, trim_chars};
use crate::image::{find_char, find_char_exec, lower_seq};
use crate::ir::{decimal, push_decimal};
use crate::length::{parse_px, parse_px_exec, px_scale, px_wf, Px};
use crate::srctext::{ends_with, ends_with_exec, starts_with, starts_with_exec, trim_start};
use crate::svg_filter_v06::{filter_sliceable, import_f_spec, texts_view};
use crate::svg_import::{diags_of, safe_ident, safe_ident_exec, DiagV, ImportOptions, ImportResult};
use crate::svg_resource::node_index;
use crate::svg_use::{joined, second_word};
use crate::svg_v4::{display_px, last_get, strip_px_all, v4_sliceable};
use crate::text::{append_chars, append_str, chars_of, string_of, sub_chars};
use crate::xml::{attr, element_view, elements_view, get_attr, xml_elements, ElementView, XmlElement};

verus! {

// ---------------------------------------------------------------------------
// What the document says

/// The value of the first `key: value` entry of an element's `style`.
pub open spec fn style_find(parts: Seq<Seq<char>>, key: Seq<char>, k: int) -> Option<Seq<char>>
    decreases parts.len() - k,
{
    if k < 0 || k >= parts.len() {
        None
    } else {
        let p = parts[k];
        let c = find_char(p, ':', 0);
        if c < p.len() && trim(p.subrange(0, c)) == key {
            Some(trim(p.subrange(c + 1, p.len() as int)))
        } else {
            style_find(parts, key, k + 1)
        }
    }
}

pub open spec fn style_property(e: ElementView, key: Seq<char>) -> Option<Seq<char>> {
    match attr(e, "style"@) {
        Some(st) => style_find(split_from(st, ';', 0), key, 0),
        None => None,
    }
}

/// A fill with a few colour names as hex colours.
pub open spec fn normalize_fill(v: Seq<char>) -> Seq<char> {
    let t = trim(v);
    let l = lower_seq(t);
    if l == "black"@ {
        "#000000"@
    } else if l == "white"@ {
        "#ffffff"@
    } else if l == "red"@ {
        "#ff0000"@
    } else if l == "green"@ {
        "#008000"@
    } else if l == "blue"@ {
        "#0000ff"@
    } else {
        t
    }
}

/// The fill element `i` has or inherits: from the style or the attribute of
/// itself or its nearest ancestor that has one; black without.
pub open spec fn computed_fill(els: Seq<ElementView>, i: int) -> Seq<char>
    decreases i,
{
    if i < 0 || i >= els.len() {
        "#000000"@
    } else {
        match style_property(els[i], "fill"@) {
            Some(v) => normalize_fill(v),
            None => match attr(els[i], "fill"@) {
                Some(v) => normalize_fill(v),
                None => match els[i].parent {
                    Some(p) => match node_index(els, p, i) {
                        Some(k) => if 0 <= k < i {
                            computed_fill(els, k)
                        } else {
                            "#000000"@
                        },
                        None => "#000000"@,
                    },
                    None => "#000000"@,
                },
            },
        }
    }
}

/// The fill of each `<use>` among the first `k` elements, by identifier,
/// and how many `<use>` elements there were.
pub open spec fn fills_i(els: Seq<ElementView>, k: int) -> (Seq<(Seq<char>, Seq<char>)>, nat)
    decreases k,
{
    if k <= 0 || k > els.len() {
        (Seq::empty(), 0)
    } else {
        let (prev, g) = fills_i(els, k - 1);
        let e = els[k - 1];
        if e.name == "use"@ {
            let raw = match attr(e, "id"@) {
                Some(v) => v,
                None => "use_"@ + decimal(g + 1),
            };
            (prev.push((safe_ident(raw), computed_fill(els, k - 1))), g + 1)
        } else {
            (prev, g)
        }
    }
}

/// A pattern size: a percentage as a fraction, or a finite positive number
/// of pixels.
pub open spec fn pattern_dimension(v: Seq<char>) -> Option<Px> {
    let t = trim(v);
    if ends_with(t, "%"@) {
        match parse_px(trim(t.subrange(0, t.len() - 1))) {
            Some(p) => Some(px_scale(p, 1, 100)),
            None => None,
        }
    } else {
        match parse_px(strip_px_all(t)) {
            Some(p) => if p matches Px::Fin { neg: false, mag } && mag > 0 { Some(p) } else { None },
            None => None,
        }
    }
}

pub open spec fn pattern_size(e: ElementView) -> Option<(Px, Px)> {
    match (attr(e, "width"@), attr(e, "height"@)) {
        (Some(w), Some(h)) => match (pattern_dimension(w), pattern_dimension(h)) {
            (Some(pw), Some(ph)) => Some((pw, ph)),
            _ => None,
        },
        _ => None,
    }
}

/// The sizes of the patterns among the first `k` elements, by id.
pub open spec fn patterns_i(els: Seq<ElementView>, k: int) -> Seq<(Seq<char>, (Px, Px))>
    decreases k,
{
    if k <= 0 || k > els.len() {
        Seq::empty()
    } else {
        let prev = patterns_i(els, k - 1);
        let e = els[k - 1];
        if e.name == "pattern"@ && attr(e, "id"@) is Some && pattern_size(e) is Some {
            prev.push((attr(e, "id"@)->0, pattern_size(e)->0))
        } else {
            prev
        }
    }
}

// ---------------------------------------------------------------------------
// Blocks

/// The value of a `key: value;` line.
pub open spec fn prop_of(line: Seq<char>, key: Seq<char>) -> Option<Seq<char>> {
    let t = trim_start(line);
    let p = key + ":"@;
    if starts_with(t, p) {
        let r = trim(t.subrange(p.len() as int, t.len() as int));
        if ends_with(r, ";"@) { Some(trim(r.subrange(0, r.len() - 1))) } else { None }
    } else {
        None
    }
}

/// The first value of `key` in the lines from `k` on.
pub open spec fn property_value_i(ls: Seq<Seq<char>>, key: Seq<char>, k: int) -> Option<Seq<char>>
    decreases ls.len() - k,
{
    if k < 0 || k >= ls.len() {
        None
    } else {
        match prop_of(ls[k], key) {
            Some(v) => Some(v),
            None => property_value_i(ls, key, k + 1),
        }
    }
}

pub open spec fn either(ls: Seq<Seq<char>>, a: Seq<char>, b: Seq<char>) -> Option<Seq<char>> {
    match property_value_i(ls, a, 0) {
        Some(v) => Some(v),
        None => property_value_i(ls, b, 0),
    }
}

/// The first line from `k` on that sets `key`.
pub open spec fn key_line(ls: Seq<Seq<char>>, key: Seq<char>, k: int) -> int
    decreases ls.len() - k,
{
    if k < 0 || k >= ls.len() {
        ls.len() as int
    } else if starts_with(trim_start(ls[k]), key + ":"@) {
        k
    } else {
        key_line(ls, key, k + 1)
    }
}

/// The lines with `key` set to `value`: the first line that sets it is
/// replaced, or the setting added.
pub open spec fn set_property(ls: Seq<Seq<char>>, key: Seq<char>, value: Seq<char>) -> Seq<Seq<char>> {
    let k = key_line(ls, key, 0);
    let nl = "    "@ + key + ": "@ + value + ";"@;
    if 0 <= k < ls.len() { ls.update(k, nl) } else { ls.push(nl) }
}

/// The id a `reference` header names.
pub open spec fn reference_id(t: Seq<char>) -> Option<Seq<char>> {
    if starts_with(t, "reference "@) {
        match second_word(t) {
            Some(w) => Some(w),
            None => Some(Seq::empty()),
        }
    } else {
        None
    }
}

/// The pattern id of a pattern reference value.
pub open spec fn pattern_id(v: Seq<char>) -> Seq<char> {
    strip_back(strip_lead_url(trim(strip_all(v, '"'))), ')')
}

pub open spec fn strip_lead_url(s: Seq<char>) -> Seq<char>
    decreases s.len(),
{
    if s.len() >= 5 && starts_with(s, "url(#"@) { strip_lead_url(s.subrange(5, s.len() as int)) } else { s }
}

pub open spec fn mask_payload(l: Seq<char>) -> bool {
    starts_with(trim_start(l), "mask-data:"@) || starts_with(trim_start(l), "mask-type:"@)
}

/// The lines without mask payload.
pub open spec fn without_mask_payload(ls: Seq<Seq<char>>) -> Seq<Seq<char>>
    decreases ls.len(),
{
    if ls.len() == 0 {
        Seq::empty()
    } else {
        without_mask_payload(ls.drop_last()) + if mask_payload(ls.last()) { Seq::empty() } else { seq![ls.last()] }
    }
}

pub open spec fn with_fill(t: Seq<char>, ls: Seq<Seq<char>>, fills: Seq<(Seq<char>, Seq<char>)>) -> Seq<Seq<char>> {
    match reference_id(t) {
        Some(id) => match last_get(fills, id) {
            Some(f) => set_property(ls, "fill"@, f),
            None => ls,
        },
        None => ls,
    }
}

pub open spec fn with_pattern_size(ls: Seq<Seq<char>>, pats: Seq<(Seq<char>, (Px, Px))>) -> Seq<Seq<char>> {
    match either(ls, "pattern-ref"@, "svg-pattern-ref"@) {
        Some(v) => match last_get(pats, pattern_id(v)) {
            Some((w, h)) => set_property(set_property(ls, "pattern-width"@, display_px(w) + "px"@), "pattern-height"@,
                display_px(h) + "px"@),
            None => ls,
        },
        None => ls,
    }
}

pub open spec fn binary_mask(ls: Seq<Seq<char>>) -> bool {
    match either(ls, "mask-mode"@, "svg-mask-mode"@) {
        Some(v) => strip_all(v, '"') == "binary-opaque-clip"@,
        None => false,
    }
}

/// The lines of a block with the header `t` (trimmed), as this pass leaves
/// them.
pub open spec fn fix_block(t: Seq<char>, ls: Seq<Seq<char>>, fills: Seq<(Seq<char>, Seq<char>)>, pats: Seq<(Seq<char>, (Px, Px))>) -> Seq<
    Seq<char>,
> {
    let b = with_pattern_size(with_fill(t, ls, fills), pats);
    if binary_mask(b) { without_mask_payload(b) } else { b }
}

/// The first line from `j` on that is a lone `}`.
pub open spec fn block_close(ls: Seq<Seq<char>>, j: int) -> int
    decreases ls.len() - j,
{
    if j < 0 || j >= ls.len() {
        ls.len() as int
    } else if trim(ls[j]) == "}"@ {
        j
    } else {
        block_close(ls, j + 1)
    }
}

pub open spec fn opens_block(t: Seq<char>) -> bool {
    ends_with(t, "{"@) && !starts_with(t, "relation "@)
}

/// The text from line `i` on, each block fixed.
pub open spec fn integrate_from(ls: Seq<Seq<char>>, i: int, fills: Seq<(Seq<char>, Seq<char>)>, pats: Seq<(Seq<char>, (Px, Px))>) -> Seq<
    char,
>
    decreases ls.len() - i,
{
    if i < 0 || i >= ls.len() {
        Seq::empty()
    } else if opens_block(trim(ls[i])) {
        let e = block_close(ls, i + 1);
        if i < e <= ls.len() {
            ls[i] + "\n"@ + joined(fix_block(trim(ls[i]), ls.subrange(i + 1, e), fills, pats)) + if e < ls.len() {
                ls[e] + "\n"@ + integrate_from(ls, e + 1, fills, pats)
            } else {
                Seq::empty()
            }
        } else {
            Seq::empty()
        }
    } else {
        ls[i] + "\n"@ + integrate_from(ls, i + 1, fills, pats)
    }
}

/// The source after this pass: unchanged when `svg` does not parse.
pub open spec fn integrated_spec(svg: Seq<char>, source: Seq<char>) -> Seq<char> {
    match xml_elements(svg) {
        Err(_) => source,
        Ok(els) => integrate_from(lines(source), 0, fills_i(els, els.len() as int).0, patterns_i(els, els.len() as int)),
    }
}

/// The integrated import: source text and diagnostics.
pub open spec fn import_i_spec(svg: Seq<char>, name: Seq<char>, file_id: Option<Seq<char>>, keep: bool, ms: Seq<Seq<char>>) -> (
    Seq<char>,
    Seq<DiagV>,
) {
    let (s0, d0) = import_f_spec(svg, name, file_id, keep, ms);
    (integrated_spec(svg, s0), d0)
}

// ---------------------------------------------------------------------------
// What the document says, executable

fn style_property_exec(e: &XmlElement, key: &str) -> (r: Option<Vec<char>>)
    ensures
        crate::svg_native::opt_chars(r) == style_property(element_view(*e), key@),
{
    let st = match get_attr(e, "style") {
        Some(st) => st,
        None => {
            return None;
        },
    };
    let parts = crate::svg_import::split_chars(&chars_of(st.as_str()), ';');
    let ghost pv = line_views(parts@);
    let mut k: usize = 0;
    while k < parts.len()
        invariant
            k <= parts@.len(),
            pv == line_views(parts@),
            pv == split_from(st@, ';', 0),
            attr(element_view(*e), "style"@) == Some(st@),
            style_find(pv, key@, k as int) == style_find(pv, key@, 0),
        decreases parts@.len() - k,
    {
        let p = &parts[k];
        assert(pv[k as int] == p@);
        let c = find_char_exec(p, ':', 0);
        if c < p.len() && crate::svg_v4::is_text(&trim_chars(&sub_chars(p, 0, c)), key) {
            return Some(trim_chars(&sub_chars(p, c + 1, p.len())));
        }
        k += 1;
    }
    None
}

fn normalize_fill_exec(v: &Vec<char>) -> (r: Vec<char>)
    ensures
        r@ == normalize_fill(v@),
{
    let t = trim_chars(v);
    let l = crate::image::lower_chars(&t);
    let is = |s: &str| -> (b: bool) ensures b == (l@ == s@) { crate::svg_v4::is_text(&l, s) };
    if is("black") {
        chars_of("#000000")
    } else if is("white") {
        chars_of("#ffffff")
    } else if is("red") {
        chars_of("#ff0000")
    } else if is("green") {
        chars_of("#008000")
    } else if is("blue") {
        chars_of("#0000ff")
    } else {
        t
    }
}

fn computed_fill_exec(els: &Vec<XmlElement>, i: usize) -> (r: Vec<char>)
    requires
        i < els@.len(),
    ensures
        r@ == computed_fill(elements_view(els@), i as int),
{
    let ghost ev = elements_view(els@);
    let mut cur = i;
    loop
        invariant
            cur < els@.len(),
            ev == elements_view(els@),
            computed_fill(ev, cur as int) == computed_fill(ev, i as int),
        decreases cur,
    {
        let e = &els[cur];
        assert(ev[cur as int] == element_view(*e));
        match style_property_exec(e, "fill") {
            Some(v) => {
                return normalize_fill_exec(&v);
            },
            None => {},
        }
        match get_attr(e, "fill") {
            Some(v) => {
                return normalize_fill_exec(&chars_of(v.as_str()));
            },
            None => {},
        }
        match e.parent {
            Some(p) => match crate::svg_resource::node_index_exec(els, p, cur) {
                Some(k) => {
                    cur = k;
                },
                None => {
                    return chars_of("#000000");
                },
            },
            None => {
                return chars_of("#000000");
            },
        }
    }
}

fn fills_exec(els: &Vec<XmlElement>) -> (r: Vec<(Vec<char>, Vec<char>)>)
    ensures
        crate::props::pm_view(r@) == fills_i(elements_view(els@), els@.len() as int).0,
{
    let ghost ev = elements_view(els@);
    let mut out: Vec<(Vec<char>, Vec<char>)> = Vec::new();
    let mut g: usize = 0;
    let mut k: usize = 0;
    while k < els.len()
        invariant
            k <= els@.len(),
            g <= k,
            ev == elements_view(els@),
            (crate::props::pm_view(out@), g as nat) == fills_i(ev, k as int),
        decreases els@.len() - k,
    {
        let e = &els[k];
        assert(ev[k as int] == element_view(*e));
        if crate::svg_v4::is_text(&chars_of(e.name.as_str()), "use") {
            let raw = match get_attr(e, "id") {
                Some(v) => chars_of(v.as_str()),
                None => {
                    let mut r = chars_of("use_");
                    push_decimal(&mut r, g + 1);
                    r
                },
            };
            let key = safe_ident_exec(&raw);
            let fill = computed_fill_exec(els, k);
            let ghost before = crate::props::pm_view(out@);
            let ghost item = (key@, fill@);
            out.push((key, fill));
            assert(crate::props::pm_view(out@) =~= before.push(item));
            g = g + 1;
        }
        k += 1;
    }
    out
}

fn pattern_dimension_exec(v: &Vec<char>) -> (r: Option<Px>)
    ensures
        r == pattern_dimension(v@),
        r matches Some(p) ==> px_wf(p),
{
    let t = trim_chars(v);
    proof {
        reveal_strlit("%");
    }
    if ends_with_exec(&t, "%") {
        match parse_px_exec(&trim_chars(&sub_chars(&t, 0, t.len() - 1))) {
            Some(p) => Some(crate::length::scale_px(p, 1, 100)),
            None => None,
        }
    } else {
        let mut u = t;
        proof {
            reveal_strlit("px");
        }
        while u.len() >= 2 && ends_with_exec(&u, "px")
            invariant
                strip_px_all(u@) == strip_px_all(trim(v@)),
            decreases u@.len(),
        {
            u = sub_chars(&u, 0, u.len() - 2);
        }
        match parse_px_exec(&u) {
            Some(p) => match p {
                Px::Fin { neg, mag } => if !neg && mag > 0 {
                    Some(p)
                } else {
                    None
                },
                _ => None,
            },
            None => None,
        }
    }
}

fn patterns_exec(els: &Vec<XmlElement>) -> (r: Vec<(Vec<char>, (Px, Px))>)
    ensures
        r@.map_values(|p: (Vec<char>, (Px, Px))| (p.0@, p.1)) == patterns_i(elements_view(els@), els@.len() as int),
        forall|k: int| #![trigger r@[k]] 0 <= k < r@.len() ==> px_wf(r@[k].1.0) && px_wf(r@[k].1.1),
{
    let ghost ev = elements_view(els@);
    let mut out: Vec<(Vec<char>, (Px, Px))> = Vec::new();
    let mut k: usize = 0;
    while k < els.len()
        invariant
            k <= els@.len(),
            ev == elements_view(els@),
            out@.map_values(|p: (Vec<char>, (Px, Px))| (p.0@, p.1)) == patterns_i(ev, k as int),
            forall|q: int| #![trigger out@[q]] 0 <= q < out@.len() ==> px_wf(out@[q].1.0) && px_wf(out@[q].1.1),
        decreases els@.len() - k,
    {
        let e = &els[k];
        assert(ev[k as int] == element_view(*e));
        if crate::svg_v4::is_text(&chars_of(e.name.as_str()), "pattern") {
            match (get_attr(e, "id"), get_attr(e, "width"), get_attr(e, "height")) {
                (Some(id), Some(w), Some(h)) => match (
                    pattern_dimension_exec(&chars_of(w.as_str())),
                    pattern_dimension_exec(&chars_of(h.as_str())),
                ) {
                    (Some(pw), Some(ph)) => {
                        let ghost before = out@.map_values(|p: (Vec<char>, (Px, Px))| (p.0@, p.1));
                        let ghost old = out@;
                        assert(px_wf(pw));
                        assert(px_wf(ph));
                        out.push((chars_of(id.as_str()), (pw, ph)));
                        assert forall|q: int| #![trigger out@[q]] 0 <= q < out@.len() implies px_wf(out@[q].1.0) && px_wf(out@[q].1.1) by {
                            if q < old.len() {
                                assert(out@[q] == old[q]);
                            }
                        }
                        assert(out@.map_values(|p: (Vec<char>, (Px, Px))| (p.0@, p.1)) =~= before.push((id@, (pw, ph))));
                    },
                    _ => {},
                },
                _ => {},
            }
        }
        k += 1;
    }
    out
}

// ---------------------------------------------------------------------------
// Blocks, executable

fn prop_of_exec(line: &Vec<char>, key: &str) -> (r: Option<Vec<char>>)
    ensures
        crate::svg_native::opt_chars(r) == prop_of(line@, key@),
{
    let lead = crate::srctext::lead_len_exec(line);
    let t = sub_chars(line, lead, line.len());
    let mut p = chars_of(key);
    p.push(':');
    proof {
        reveal_strlit(":");
    }
    assert(p@ == key@ + ":"@);
    if !crate::srctext::occurs_at_exec(&t, &p, 0) {
        assert(!starts_with(t@, p@));
        return None;
    }
    let r = trim_chars(&sub_chars(&t, p.len(), t.len()));
    proof {
        reveal_strlit(";");
    }
    if ends_with_exec(&r, ";") {
        Some(trim_chars(&sub_chars(&r, 0, r.len() - 1)))
    } else {
        None
    }
}

fn property_value_exec(ls: &Vec<Vec<char>>, key: &str) -> (r: Option<Vec<char>>)
    ensures
        crate::svg_native::opt_chars(r) == property_value_i(line_views(ls@), key@, 0),
{
    let ghost lv = line_views(ls@);
    let mut k: usize = 0;
    while k < ls.len()
        invariant
            k <= ls@.len(),
            lv == line_views(ls@),
            property_value_i(lv, key@, k as int) == property_value_i(lv, key@, 0),
        decreases ls@.len() - k,
    {
        assert(lv[k as int] == ls@[k as int]@);
        match prop_of_exec(&ls[k], key) {
            Some(v) => {
                return Some(v);
            },
            None => {},
        }
        k += 1;
    }
    None
}

fn either_exec(ls: &Vec<Vec<char>>, a: &str, b: &str) -> (r: Option<Vec<char>>)
    ensures
        crate::svg_native::opt_chars(r) == either(line_views(ls@), a@, b@),
{
    match property_value_exec(ls, a) {
        Some(v) => Some(v),
        None => property_value_exec(ls, b),
    }
}

fn key_line_exec(ls: &Vec<Vec<char>>, key: &str) -> (r: usize)
    ensures
        r as int == key_line(line_views(ls@), key@, 0),
        r <= ls@.len(),
{
    let ghost lv = line_views(ls@);
    let mut p = chars_of(key);
    p.push(':');
    proof {
        reveal_strlit(":");
    }
    assert(p@ == key@ + ":"@);
    let mut k: usize = 0;
    while k < ls.len()
        invariant
            k <= ls@.len(),
            lv == line_views(ls@),
            p@ == key@ + ":"@,
            key_line(lv, key@, k as int) == key_line(lv, key@, 0),
        decreases ls@.len() - k,
    {
        assert(lv[k as int] == ls@[k as int]@);
        let lead = crate::srctext::lead_len_exec(&ls[k]);
        let t = sub_chars(&ls[k], lead, ls[k].len());
        if crate::srctext::occurs_at_exec(&t, &p, 0) {
            return k;
        }
        k += 1;
    }
    k
}

fn set_property_exec(ls: &mut Vec<Vec<char>>, key: &str, value: &Vec<char>)
    ensures
        line_views(final(ls)@) == set_property(line_views(old(ls)@), key@, value@),
{
    let ghost lv = line_views(ls@);
    let k = key_line_exec(ls, key);
    let mut nl = chars_of("    ");
    append_str(&mut nl, key);
    append_str(&mut nl, ": ");
    append_chars(&mut nl, value);
    nl.push(';');
    proof {
        reveal_strlit(";");
    }
    assert(nl@ =~= "    "@ + key@ + ": "@ + value@ + ";"@);
    let ghost nv = nl@;
    if k < ls.len() {
        ls.set(k, nl);
        assert(line_views(ls@) =~= lv.update(k as int, nv));
    } else {
        ls.push(nl);
        assert(line_views(ls@) =~= lv.push(nv));
    }
}

fn reference_id_exec(t: &Vec<char>) -> (r: Option<Vec<char>>)
    ensures
        crate::svg_native::opt_chars(r) == reference_id(t@),
{
    if starts_with_exec(t, "reference ") {
        match crate::svg_use::second_word_exec(t) {
            Some(w) => Some(w),
            None => Some(Vec::new()),
        }
    } else {
        None
    }
}

fn pattern_id_exec(v: &Vec<char>) -> (r: Vec<char>)
    ensures
        r@ == pattern_id(v@),
{
    let mut s = trim_chars(&crate::font::strip_all_exec(v, '"'));
    proof {
        reveal_strlit("url(#");
    }
    while s.len() >= 5 && starts_with_exec(&s, "url(#")
        invariant
            strip_lead_url(s@) == strip_lead_url(trim(strip_all(v@, '"'))),
        decreases s@.len(),
    {
        s = sub_chars(&s, 5, s.len());
    }
    assert(strip_lead_url(s@) == s@);
    let mut n = s.len();
    assert(s@.subrange(0, n as int) =~= s@);
    while n > 0 && s[n - 1] == ')'
        invariant
            n <= s@.len(),
            strip_back(s@.subrange(0, n as int), ')') == strip_back(s@, ')'),
        decreases n,
    {
        assert(s@.subrange(0, n as int).drop_last() =~= s@.subrange(0, n - 1));
        n -= 1;
    }
    let r = sub_chars(&s, 0, n);
    assert(strip_back(r@, ')') == r@);
    r
}

fn mask_payload_exec(l: &Vec<char>) -> (b: bool)
    ensures
        b == mask_payload(l@),
{
    let lead = crate::srctext::lead_len_exec(l);
    let t = sub_chars(l, lead, l.len());
    starts_with_exec(&t, "mask-data:") || starts_with_exec(&t, "mask-type:")
}

fn without_mask_payload_exec(ls: &Vec<Vec<char>>) -> (r: Vec<Vec<char>>)
    ensures
        line_views(r@) == without_mask_payload(line_views(ls@)),
{
    let ghost lv = line_views(ls@);
    let mut out: Vec<Vec<char>> = Vec::new();
    let mut k: usize = 0;
    assert(lv.subrange(0, 0) =~= Seq::<Seq<char>>::empty());
    assert(line_views(out@) =~= Seq::<Seq<char>>::empty());
    while k < ls.len()
        invariant
            k <= ls@.len(),
            lv == line_views(ls@),
            line_views(out@) == without_mask_payload(lv.subrange(0, k as int)),
        decreases ls@.len() - k,
    {
        assert(lv[k as int] == ls@[k as int]@);
        assert(lv.subrange(0, k + 1).drop_last() =~= lv.subrange(0, k as int));
        assert(lv.subrange(0, k + 1).last() == lv[k as int]);
        let ghost before = line_views(out@);
        if !mask_payload_exec(&ls[k]) {
            out.push(crate::props::copy_chars(&ls[k]));
            assert(line_views(out@) =~= before + seq![lv[k as int]]);
        } else {
            assert(line_views(out@) =~= before + Seq::<Seq<char>>::empty());
        }
        k += 1;
    }
    assert(lv.subrange(0, k as int) =~= lv);
    out
}

pub open spec fn pats_view(v: Seq<(Vec<char>, (Px, Px))>) -> Seq<(Seq<char>, (Px, Px))> {
    v.map_values(|p: (Vec<char>, (Px, Px))| (p.0@, p.1))
}

pub open spec fn pats_wf(v: Seq<(Vec<char>, (Px, Px))>) -> bool {
    forall|k: int| #![trigger v[k]] 0 <= k < v.len() ==> px_wf(v[k].1.0) && px_wf(v[k].1.1)
}

fn last_fill(m: &Vec<(Vec<char>, Vec<char>)>, id: &Vec<char>) -> (r: Option<usize>)
    ensures
        match last_get(crate::props::pm_view(m@), id@) {
            Some(x) => r is Some && r->0 < m@.len() && m@[r->0 as int].1@ == x,
            None => r is None,
        },
{
    let ghost mv = crate::props::pm_view(m@);
    let mut k: usize = m.len();
    assert(mv.subrange(0, k as int) =~= mv);
    while k > 0
        invariant
            k <= m@.len(),
            mv == crate::props::pm_view(m@),
            last_get(mv.subrange(0, k as int), id@) == last_get(mv, id@),
        decreases k,
    {
        assert(mv.subrange(0, k as int).drop_last() =~= mv.subrange(0, k - 1));
        if crate::parser::chars_eq(&m[k - 1].0, id) {
            return Some(k - 1);
        }
        k -= 1;
    }
    None
}

fn last_pattern(m: &Vec<(Vec<char>, (Px, Px))>, id: &Vec<char>) -> (r: Option<usize>)
    ensures
        match last_get(pats_view(m@), id@) {
            Some(x) => r is Some && r->0 < m@.len() && m@[r->0 as int].1 == x,
            None => r is None,
        },
{
    let ghost mv = pats_view(m@);
    let mut k: usize = m.len();
    assert(mv.subrange(0, k as int) =~= mv);
    while k > 0
        invariant
            k <= m@.len(),
            mv == pats_view(m@),
            last_get(mv.subrange(0, k as int), id@) == last_get(mv, id@),
        decreases k,
    {
        assert(mv.subrange(0, k as int).drop_last() =~= mv.subrange(0, k - 1));
        if crate::parser::chars_eq(&m[k - 1].0, id) {
            return Some(k - 1);
        }
        k -= 1;
    }
    None
}

fn px_text(p: Px) -> (r: Vec<char>)
    requires
        px_wf(p),
    ensures
        r@ == display_px(p) + "px"@,
{
    let mut out: Vec<char> = Vec::new();
    crate::svg_v4::push_display_px(&mut out, p);
    append_str(&mut out, "px");
    assert(out@ =~= display_px(p) + "px"@);
    out
}

fn fix_block_exec(t: &Vec<char>, ls: Vec<Vec<char>>, fills: &Vec<(Vec<char>, Vec<char>)>, pats: &Vec<(Vec<char>, (Px, Px))>) -> (r: Vec<
    Vec<char>,
>)
    requires
        pats_wf(pats@),
    ensures
        line_views(r@) == fix_block(t@, line_views(ls@), crate::props::pm_view(fills@), pats_view(pats@)),
{
    let ghost fv = crate::props::pm_view(fills@);
    let ghost pv = pats_view(pats@);
    let ghost l0 = line_views(ls@);
    let mut b = ls;
    match reference_id_exec(t) {
        Some(id) => match last_fill(fills, &id) {
            Some(k) => set_property_exec(&mut b, "fill", &fills[k].1),
            None => {},
        },
        None => {},
    }
    let ghost l1 = line_views(b@);
    assert(l1 == with_fill(t@, l0, fv));
    match either_exec(&b, "pattern-ref", "svg-pattern-ref") {
        Some(v) => match last_pattern(pats, &pattern_id_exec(&v)) {
            Some(k) => {
                let (w, h) = pats[k].1;
                assert(pats@[k as int] == pats@[k as int]);
                set_property_exec(&mut b, "pattern-width", &px_text(w));
                set_property_exec(&mut b, "pattern-height", &px_text(h));
            },
            None => {},
        },
        None => {},
    }
    let ghost l2 = line_views(b@);
    assert(l2 == with_pattern_size(l1, pv));
    let bin = match either_exec(&b, "mask-mode", "svg-mask-mode") {
        Some(v) => {
            let q = crate::font::strip_all_exec(&v, '"');
            crate::svg_v4::is_text(&q, "binary-opaque-clip")
        },
        None => false,
    };
    if bin {
        without_mask_payload_exec(&b)
    } else {
        b
    }
}

fn block_close_exec(ls: &Vec<Vec<char>>, j: usize) -> (r: usize)
    requires
        j <= ls@.len(),
    ensures
        r as int == block_close(line_views(ls@), j as int),
        j <= r <= ls@.len(),
{
    let ghost lv = line_views(ls@);
    let mut k = j;
    while k < ls.len()
        invariant
            j <= k <= ls@.len(),
            lv == line_views(ls@),
            block_close(lv, k as int) == block_close(lv, j as int),
        decreases ls@.len() - k,
    {
        assert(lv[k as int] == ls@[k as int]@);
        if crate::svg_v4::is_text(&trim_chars(&ls[k]), "}") {
            return k;
        }
        k += 1;
    }
    k
}

fn sub_lines(ls: &Vec<Vec<char>>, a: usize, b: usize) -> (r: Vec<Vec<char>>)
    requires
        a <= b <= ls@.len(),
    ensures
        line_views(r@) == line_views(ls@).subrange(a as int, b as int),
{
    let ghost lv = line_views(ls@);
    let mut out: Vec<Vec<char>> = Vec::new();
    let mut k = a;
    assert(line_views(out@) =~= lv.subrange(a as int, a as int));
    while k < b
        invariant
            a <= k <= b <= ls@.len(),
            lv == line_views(ls@),
            line_views(out@) == lv.subrange(a as int, k as int),
        decreases b - k,
    {
        assert(lv[k as int] == ls@[k as int]@);
        let ghost before = line_views(out@);
        let c = crate::props::copy_chars(&ls[k]);
        assert(c@ == lv[k as int]);
        out.push(c);
        assert(line_views(out@) =~= before.push(lv[k as int]));
        assert(lv.subrange(a as int, k + 1) =~= lv.subrange(a as int, k as int).push(lv[k as int]));
        k += 1;
    }
    out
}

fn integrate_exec(ls: &Vec<Vec<char>>, fills: &Vec<(Vec<char>, Vec<char>)>, pats: &Vec<(Vec<char>, (Px, Px))>) -> (r: Vec<char>)
    requires
        pats_wf(pats@),
    ensures
        r@ == integrate_from(line_views(ls@), 0, crate::props::pm_view(fills@), pats_view(pats@)),
{
    let ghost lv = line_views(ls@);
    let ghost fv = crate::props::pm_view(fills@);
    let ghost pv = pats_view(pats@);
    let ghost total = integrate_from(lv, 0, fv, pv);
    let n = ls.len();
    let mut out: Vec<char> = Vec::new();
    let mut i: usize = 0;
    while i < n
        invariant
            i <= n,
            n == ls@.len(),
            lv == line_views(ls@),
            fv == crate::props::pm_view(fills@),
            pv == pats_view(pats@),
            pats_wf(pats@),
            out@ + integrate_from(lv, i as int, fv, pv) == total,
        decreases n - i,
    {
        assert(lv[i as int] == ls@[i as int]@);
        let t = trim_chars(&ls[i]);
        let ghost before = out@;
        proof {
            reveal_strlit("\n");
        }
        if ends_with_exec(&t, "{") && !starts_with_exec(&t, "relation ") {
            let e = block_close_exec(ls, i + 1);
            let block = sub_lines(ls, i + 1, e);
            let nb = fix_block_exec(&t, block, fills, pats);
            append_chars(&mut out, &ls[i]);
            out.push('\n');
            crate::svg_use::push_joined(&mut out, &nb);
            if e < n {
                assert(lv[e as int] == ls@[e as int]@);
                append_chars(&mut out, &ls[e]);
                out.push('\n');
                assert(out@ + integrate_from(lv, e + 1, fv, pv) =~= before + integrate_from(lv, i as int, fv, pv));
                i = e + 1;
            } else {
                assert(out@ + integrate_from(lv, n as int, fv, pv) =~= before + integrate_from(lv, i as int, fv, pv));
                i = n;
            }
        } else {
            append_chars(&mut out, &ls[i]);
            out.push('\n');
            assert(out@ + integrate_from(lv, i + 1, fv, pv) =~= before + integrate_from(lv, i as int, fv, pv));
            i += 1;
        }
    }
    assert(integrate_from(lv, i as int, fv, pv) =~= Seq::<char>::empty());
    assert(out@ =~= total);
    out
}

// ---------------------------------------------------------------------------
// The import

/// Gives each `reference` block of a `<use>` of `svg` the fill the `<use>`
/// inherits, each pattern reference its pattern's size, and drops the vector
/// payload of binary masks.
pub fn normalize_integrated_resources(svg: &str, source: &mut String)
    ensures
        final(source)@ == integrated_spec(svg@, old(source)@),
{
    let els = match crate::xml::parse_xml(svg) {
        Ok(els) => els,
        Err(_) => {
            return;
        },
    };
    let fills = fills_exec(&els);
    let pats = patterns_exec(&els);
    let ls = split_lines(&chars_of(source.as_str()));
    let out = integrate_exec(&ls, &fills, &pats);
    *source = string_of(&out);
}

/// Imports SVG through the filter import, then gives each `<use>`
/// reference the fill it inherits, each pattern reference its pattern's
/// size, and drops the vector payload of binary masks; `matrices` holds the
/// values of each colour matrix, as for the filter import.
pub fn import_svg(svg: &str, source_name: &str, options: &ImportOptions, matrices: &Vec<String>) -> (r: ImportResult)
    requires
        v4_sliceable(svg@),
        filter_sliceable(svg@),
    ensures
        (r.source@, diags_of(r.diagnostics@)) == import_i_spec(svg@, source_name@, crate::xml::opt_str_view(options.file_id),
            options.preserve_source_attributes, texts_view(matrices@)),
{
    let mut result = crate::svg_filter_v06::import_svg(svg, source_name, options, matrices);
    normalize_integrated_resources(svg, &mut result.source);
    result
}

/// The integrated import for every document: nothing when a colour it
/// reads from `svg` cannot be sliced safely.
pub fn import_svg_checked(svg: &str, source_name: &str, options: &ImportOptions, matrices: &Vec<String>) -> (r: Option<ImportResult>)
    ensures
        match r {
            Some(res) => v4_sliceable(svg@) && filter_sliceable(svg@) && (res.source@, diags_of(res.diagnostics@))
                == import_i_spec(svg@, source_name@, crate::xml::opt_str_view(options.file_id), options.preserve_source_attributes,
                texts_view(matrices@)),
            None => !(v4_sliceable(svg@) && filter_sliceable(svg@)),
        },
{
    if crate::svg_v4::v4_sliceable_exec(svg) && crate::svg_filter_v06::filter_sliceable_exec(svg) {
        Some(import_svg(svg, source_name, options, matrices))
    } else {
        None
    }
}

// ---------------------------------------------------------------------------
// Laws

/// The integrated import reports exactly what the filter import reports.
pub proof fn law_integrated_keeps_diagnostics(svg: Seq<char>, name: Seq<char>, file_id: Option<Seq<char>>, keep: bool,
    ms: Seq<Seq<char>>)
    ensures
        import_i_spec(svg, name, file_id, keep, ms).1 == import_f_spec(svg, name, file_id, keep, ms).1,
{
}

} // verus!
