//! SVG to SRNG: every SVG element becomes an SRNG declaration with its
//! geometry in pixels, its paint, and its source attributes kept as
//! provenance; what SRNG cannot represent yet is preserved and diagnosed.
use vstd::prelude::*;
use crate::font::{parse_uint, parse_uint_spec, split_from};
use crate::formatter::{trim, trim_chars};
use crate::image::{find_char, find_char_exec, lower_seq};
use crate::ir::decimal;
use crate::lexer::{ident_continue, ident_start, is_ident_continue, is_ident_start};
use crate::length::{
    differs_px, fmt_px, nonzero_px, parse_view_box, points_path_spec, points_to_path, push_px, px_differs,
    px_nonzero, px_wf, resolve_length, resolve_length_spec, view_box_spec, Axis, Px, UNITS,
};
use crate::number::eq_ignore_case;
use crate::props::{copy_chars, ids_get, ids_lookup, ids_put, ids_store, ids_view, pm_extend, pm_extend_exec,
    pm_get, pm_insert, pm_lookup, pm_set, pm_view};
use crate::resources::{hex2, lemma_find_char_some, quote, quote_spec};
use crate::text::{append_chars, append_str, chars_of, string_of, sub_chars};
use crate::xml::{attr, element_view, get_attr, xml_elements, ElementView, XmlElement};

verus! {

#[derive(Debug, Clone)]
pub struct ImportOptions {
    pub file_id: Option<String>,
    pub preserve_source_attributes: bool,
}

impl Default for ImportOptions {
    fn default() -> (r: Self)
        ensures
            r.file_id is None,
            r.preserve_source_attributes,
    {
        ImportOptions { file_id: None, preserve_source_attributes: true }
    }
}

#[derive(Debug, Clone, PartialEq, Eq)]
pub struct ImportDiagnostic {
    pub severity: String,
    pub code: String,
    pub message: String,
    pub element: Option<String>,
}

#[derive(Debug, Clone)]
pub struct ImportResult {
    pub source: String,
    pub diagnostics: Vec<ImportDiagnostic>,
}

pub open spec fn any_error(ds: Seq<ImportDiagnostic>) -> bool {
    exists|i: int| 0 <= i < ds.len() && #[trigger] ds[i].severity@ == "error"@
}

impl ImportResult {
    /// Whether any diagnostic has severity `error`.
    pub fn has_errors(&self) -> (r: bool)
        ensures
            r == any_error(self.diagnostics@),
    {
        let mut k: usize = 0;
        while k < self.diagnostics.len()
            invariant
                k <= self.diagnostics@.len(),
                forall|i: int| 0 <= i < k ==> #[trigger] self.diagnostics@[i].severity@ != "error"@,
            decreases self.diagnostics@.len() - k,
        {
            if crate::parser::str_eq(self.diagnostics[k].severity.as_str(), "error") {
                return true;
            }
            k += 1;
        }
        false
    }
}

// ---------------------------------------------------------------------------
// Identifiers

pub open spec fn ident_char(i: int, c: char) -> char {
    if (i == 0 && is_ident_start(c)) || (i > 0 && is_ident_continue(c)) { c } else { '_' }
}

/// An SRNG identifier made from any text: invalid characters become `_`.
pub open spec fn safe_ident(raw: Seq<char>) -> Seq<char> {
    if raw.len() == 0 {
        "svg_node"@
    } else {
        Seq::new(raw.len(), |i: int| ident_char(i, raw[i]))
    }
}

pub open spec fn suffix_char(c: char) -> char {
    if crate::lexer::is_alpha(c) || crate::text::is_ascii_digit(c) || c == '_' || c == '-' || c == '.' { c } else { '-' }
}

/// A property-name suffix made from an attribute name.
pub open spec fn safe_suffix(raw: Seq<char>) -> Seq<char> {
    Seq::new(raw.len(), |i: int| suffix_char(raw[i]))
}

pub fn safe_ident_exec(raw: &Vec<char>) -> (r: Vec<char>)
    ensures
        r@ == safe_ident(raw@),
{
    if raw.len() == 0 {
        return chars_of("svg_node");
    }
    let mut out: Vec<char> = Vec::new();
    let mut i: usize = 0;
    while i < raw.len()
        invariant
            i <= raw@.len(),
            out@ =~= Seq::new(i as nat, |j: int| ident_char(j, raw@[j])),
        decreases raw@.len() - i,
    {
        let c = raw[i];
        let ok = if i == 0 { ident_start(c) } else { ident_continue(c) };
        out.push(if ok { c } else { '_' });
        i += 1;
    }
    out
}

pub fn safe_suffix_exec(raw: &Vec<char>) -> (r: Vec<char>)
    ensures
        r@ == safe_suffix(raw@),
{
    let mut out: Vec<char> = Vec::new();
    let mut i: usize = 0;
    while i < raw.len()
        invariant
            i <= raw@.len(),
            out@ =~= Seq::new(i as nat, |j: int| suffix_char(raw@[j])),
        decreases raw@.len() - i,
    {
        let c = raw[i];
        let ok = ('a' <= c && c <= 'z') || ('A' <= c && c <= 'Z') || ('0' <= c && c <= '9') || c == '_' || c == '-' || c == '.';
        out.push(if ok { c } else { '-' });
        i += 1;
    }
    out
}

// ---------------------------------------------------------------------------
// Importer state

pub struct DeclV {
    pub kind: Seq<char>,
    pub id: Seq<char>,
    pub props: Seq<(Seq<char>, Seq<char>)>,
}

pub struct DiagV {
    pub severity: Seq<char>,
    pub code: Seq<char>,
    pub message: Seq<char>,
    pub element: Option<Seq<char>>,
}

/// What the importer has produced so far.
pub struct St {
    pub decls: Seq<DeclV>,
    pub rels: Seq<(Seq<char>, Seq<char>)>,
    pub diags: Seq<DiagV>,
    pub ids: Seq<(Seq<char>, usize)>,
    pub generated: usize,
}

pub struct Decl {
    pub kind: Vec<char>,
    pub id: Vec<char>,
    pub props: Vec<(Vec<char>, Vec<char>)>,
}

pub struct Importer {
    pub decls: Vec<Decl>,
    pub rels: Vec<(Vec<char>, Vec<char>)>,
    pub diags: Vec<ImportDiagnostic>,
    pub ids: Vec<(Vec<char>, usize)>,
    pub generated: usize,
}

pub open spec fn decl_view(d: Decl) -> DeclV {
    DeclV { kind: d.kind@, id: d.id@, props: pm_view(d.props@) }
}

pub open spec fn diag_view(d: ImportDiagnostic) -> DiagV {
    DiagV { severity: d.severity@, code: d.code@, message: d.message@, element: crate::xml::opt_str_view(d.element) }
}

pub fn copy_str(s: &String) -> (r: String)
    ensures
        r@ == s@,
{
    string_of(&chars_of(s.as_str()))
}

/// A field-by-field copy of a diagnostic.
pub fn copy_diag(d: &ImportDiagnostic) -> (r: ImportDiagnostic)
    ensures
        diag_view(r) == diag_view(*d),
{
    ImportDiagnostic {
        severity: copy_str(&d.severity),
        code: copy_str(&d.code),
        message: copy_str(&d.message),
        element: match &d.element {
            Some(e) => Some(copy_str(e)),
            None => None,
        },
    }
}

pub open spec fn diags_of(ds: Seq<ImportDiagnostic>) -> Seq<DiagV> {
    ds.map_values(|d: ImportDiagnostic| diag_view(d))
}

pub open spec fn rels_view(r: Seq<(Vec<char>, Vec<char>)>) -> Seq<(Seq<char>, Seq<char>)> {
    r.map_values(|p: (Vec<char>, Vec<char>)| (p.0@, p.1@))
}

pub open spec fn st_view(imp: Importer) -> St {
    St {
        decls: imp.decls@.map_values(|d: Decl| decl_view(d)),
        rels: rels_view(imp.rels@),
        diags: diags_of(imp.diags@),
        ids: ids_view(imp.ids@),
        generated: imp.generated,
    }
}

pub open spec fn wrap_inc(n: usize) -> usize {
    if n == usize::MAX { 0 } else { (n + 1) as usize }
}

/// A fresh identifier for `raw`: its safe form, numbered from the second use
/// on.
pub open spec fn unique_id(st: St, raw: Seq<char>) -> (Seq<char>, St) {
    let base = safe_ident(raw);
    let count = wrap_inc(ids_get(st.ids, base));
    let id = if count == 1 { base } else { base + "_"@ + decimal(count as nat) };
    (id, St { ids: ids_put(st.ids, base, count), ..st })
}

/// The identifier of an element: from its `id`, or generated from its tag.
pub open spec fn node_id(st: St, e: ElementView, tag: Seq<char>) -> (Seq<char>, St) {
    match attr(e, "id"@) {
        Some(v) => unique_id(st, v),
        None => {
            let g = wrap_inc(st.generated);
            unique_id(St { generated: g, ..st }, tag + "_"@ + decimal(g as nat))
        },
    }
}

pub open spec fn push_diag(st: St, severity: Seq<char>, code: Seq<char>, message: Seq<char>, element: Option<Seq<char>>) -> St {
    St { diags: st.diags.push(DiagV { severity, code, message, element }), ..st }
}

pub open spec fn warn(st: St, code: Seq<char>, message: Seq<char>, id: Seq<char>) -> St {
    push_diag(st, "warning"@, code, message, Some(id))
}

impl Importer {
    pub fn unique_id(&mut self, raw: &Vec<char>) -> (id: Vec<char>)
        ensures
            (id@, st_view(*final(self))) == unique_id(st_view(*old(self)), raw@),
    {
        let base = safe_ident_exec(raw);
        let prev = ids_lookup(&self.ids, &base);
        let count = prev.wrapping_add(1);
        ids_store(&mut self.ids, &base, count);
        if count == 1 {
            base
        } else {
            let mut id = copy_chars(&base);
            id.push('_');
            crate::length::push_decimal_wide(&mut id, count as u128);
            proof {
                reveal_strlit("_");
            }
            assert(id@ =~= base@ + "_"@ + decimal(count as nat));
            id
        }
    }

    pub fn node_id(&mut self, e: &XmlElement, tag: &Vec<char>) -> (id: Vec<char>)
        ensures
            (id@, st_view(*final(self))) == node_id(st_view(*old(self)), element_view(*e), tag@),
    {
        match get_attr(e, "id") {
            Some(v) => self.unique_id(&chars_of(v.as_str())),
            None => {
                self.generated = self.generated.wrapping_add(1);
                let mut raw = copy_chars(tag);
                raw.push('_');
                crate::length::push_decimal_wide(&mut raw, self.generated as u128);
                proof {
                    reveal_strlit("_");
                }
                assert(raw@ =~= tag@ + "_"@ + decimal(self.generated as nat));
                self.unique_id(&raw)
            },
        }
    }

    pub fn push_diag(&mut self, severity: &str, code: &str, message: Vec<char>, element: Option<&Vec<char>>)
        ensures
            st_view(*final(self)) == push_diag(st_view(*old(self)), severity@, code@, message@, match element {
                Some(e) => Some(e@),
                None => None,
            }),
    {
        let d = ImportDiagnostic {
            severity: crate::text::chars_to_string_lit(severity),
            code: crate::text::chars_to_string_lit(code),
            message: string_of(&message),
            element: match element {
                Some(e) => Some(string_of(e)),
                None => None,
            },
        };
        let ghost before = st_view(*self);
        self.diags.push(d);
        assert(st_view(*self).diags =~= before.diags.push(diag_view(d)));
    }
}

// ---------------------------------------------------------------------------
// Splitting

pub fn split_chars(s: &Vec<char>, c: char) -> (r: Vec<Vec<char>>)
    ensures
        crate::formatter::line_views(r@) == split_from(s@, c, 0),
{
    let ghost target = split_from(s@, c, 0);
    let n = s.len();
    let mut out: Vec<Vec<char>> = Vec::new();
    let mut i: usize = 0;
    loop
        invariant
            i <= n,
            n == s@.len(),
            target == split_from(s@, c, 0),
            crate::formatter::line_views(out@) + split_from(s@, c, i as int) == target,
        decreases n - i,
    {
        let k = find_char_exec(s, c, i);
        proof {
            lemma_find_char_some(s@, c, i as int);
        }
        let seg = sub_chars(s, i, k);
        let ghost rest = if k >= n { Seq::<Seq<char>>::empty() } else { split_from(s@, c, k + 1) };
        let ghost before = out@;
        assert(split_from(s@, c, i as int) == seq![seg@] + rest);
        out.push(seg);
        assert(crate::formatter::line_views(out@) =~= crate::formatter::line_views(before).push(seg@));
        assert(crate::formatter::line_views(out@) + rest =~= crate::formatter::line_views(before) + (seq![seg@] + rest));
        if k >= n {
            assert(crate::formatter::line_views(out@) + Seq::<Seq<char>>::empty() =~= crate::formatter::line_views(out@));
            return out;
        }
        i = k + 1;
    }
}

// ---------------------------------------------------------------------------
// Style

pub open spec fn style_keys() -> Seq<Seq<char>> {
    seq!["fill"@, "stroke"@, "fill-rule"@, "stroke-width"@, "stroke-linecap"@, "stroke-linejoin"@,
        "stroke-dasharray"@, "stroke-dashoffset"@, "opacity"@, "fill-opacity"@, "stroke-opacity"@,
        "filter"@, "mask"@, "clip-path"@, "display"@, "visibility"@]
}

fn style_key_at(i: usize) -> (k: &'static str)
    requires
        i < 16,
    ensures
        k@ == style_keys()[i as int],
{
    match i {
        0 => "fill",
        1 => "stroke",
        2 => "fill-rule",
        3 => "stroke-width",
        4 => "stroke-linecap",
        5 => "stroke-linejoin",
        6 => "stroke-dasharray",
        7 => "stroke-dashoffset",
        8 => "opacity",
        9 => "fill-opacity",
        10 => "stroke-opacity",
        11 => "filter",
        12 => "mask",
        13 => "clip-path",
        14 => "display",
        _ => "visibility",
    }
}

pub open spec fn style_attr(m: Seq<(Seq<char>, Seq<char>)>, e: ElementView, key: Seq<char>) -> Seq<(Seq<char>, Seq<char>)> {
    match attr(e, key) {
        Some(v) => pm_insert(m, key, trim(v)),
        None => m,
    }
}

pub open spec fn style_attrs(e: ElementView, keys: Seq<Seq<char>>) -> Seq<(Seq<char>, Seq<char>)>
    decreases keys.len(),
{
    if keys.len() == 0 {
        Seq::empty()
    } else {
        style_attr(style_attrs(e, keys.drop_last()), e, keys.last())
    }
}

/// A `key: value` entry of a `style` attribute.
pub open spec fn style_decl(m: Seq<(Seq<char>, Seq<char>)>, part: Seq<char>) -> Seq<(Seq<char>, Seq<char>)> {
    let c = find_char(part, ':', 0);
    if c >= part.len() {
        m
    } else if trim(part.subrange(0, c)).len() == 0 {
        m
    } else {
        pm_insert(m, trim(part.subrange(0, c)), trim(part.subrange(c + 1, part.len() as int)))
    }
}

pub open spec fn style_decls(m: Seq<(Seq<char>, Seq<char>)>, parts: Seq<Seq<char>>) -> Seq<(Seq<char>, Seq<char>)>
    decreases parts.len(),
{
    if parts.len() == 0 {
        m
    } else {
        style_decl(style_decls(m, parts.drop_last()), parts.last())
    }
}

/// The presentation attributes of an element, then the entries of its
/// `style` attribute, which win.
pub open spec fn collect_style(e: ElementView) -> Seq<(Seq<char>, Seq<char>)> {
    let m = style_attrs(e, style_keys());
    match attr(e, "style"@) {
        Some(st) => style_decls(m, split_from(st, ';', 0)),
        None => m,
    }
}

pub fn collect_style_exec(e: &XmlElement) -> (r: Vec<(Vec<char>, Vec<char>)>)
    ensures
        pm_view(r@) == collect_style(element_view(*e)),
{
    let ghost ev = element_view(*e);
    let mut m: Vec<(Vec<char>, Vec<char>)> = Vec::new();
    let mut i: usize = 0;
    while i < 16
        invariant
            i <= 16,
            ev == element_view(*e),
            pm_view(m@) == style_attrs(ev, style_keys().subrange(0, i as int)),
        decreases 16 - i,
    {
        let key = style_key_at(i);
        assert(style_keys().subrange(0, i + 1).drop_last() =~= style_keys().subrange(0, i as int));
        match get_attr(e, key) {
            Some(v) => {
                pm_set(&mut m, chars_of(key), trim_chars(&chars_of(v.as_str())));
            },
            None => {},
        }
        i += 1;
    }
    assert(style_keys().subrange(0, 16) =~= style_keys());
    match get_attr(e, "style") {
        Some(st) => {
            let parts = split_chars(&chars_of(st.as_str()), ';');
            let ghost pv = crate::formatter::line_views(parts@);
            let ghost m0 = pm_view(m@);
            let mut j: usize = 0;
            while j < parts.len()
                invariant
                    j <= parts@.len(),
                    pv == crate::formatter::line_views(parts@),
                    pm_view(m@) == style_decls(m0, pv.subrange(0, j as int)),
                decreases parts@.len() - j,
            {
                assert(pv.subrange(0, j + 1).drop_last() =~= pv.subrange(0, j as int));
                let part = &parts[j];
                assert(pv[j as int] == part@);
                let c = find_char_exec(part, ':', 0);
                if c < part.len() {
                    let k = trim_chars(&sub_chars(part, 0, c));
                    if k.len() > 0 {
                        let v = trim_chars(&sub_chars(part, c + 1, part.len()));
                        pm_set(&mut m, k, v);
                    }
                }
                j += 1;
            }
            assert(pv.subrange(0, parts@.len() as int) =~= pv);
        },
        None => {},
    }
    m
}

// ---------------------------------------------------------------------------
// Paint

pub open spec fn named_colour(v: Seq<char>) -> Option<Seq<char>> {
    if v == "black"@ {
        Some("#000000"@)
    } else if v == "white"@ {
        Some("#ffffff"@)
    } else if v == "red"@ {
        Some("#ff0000"@)
    } else if v == "green"@ {
        Some("#008000"@)
    } else if v == "blue"@ {
        Some("#0000ff"@)
    } else if v == "yellow"@ {
        Some("#ffff00"@)
    } else if v == "gray"@ || v == "grey"@ {
        Some("#808080"@)
    } else if v == "transparent"@ {
        Some("#00000000"@)
    } else {
        None
    }
}

pub open spec fn parse_channels(parts: Seq<Seq<char>>) -> Option<Seq<int>>
    decreases parts.len(),
{
    if parts.len() == 0 {
        Some(Seq::empty())
    } else {
        match (parse_channels(parts.drop_last()), parse_uint_spec(trim(parts.last()), 255)) {
            (Some(vs), Some(v)) => Some(vs.push(v)),
            _ => None,
        }
    }
}

/// `rgb(r, g, b)` with byte channels as a `#rrggbb` colour.
pub open spec fn parse_rgb(v: Seq<char>) -> Option<Seq<char>> {
    if v.len() >= 5 && v.subrange(0, 4) == "rgb("@ && v.last() == ')' {
        match parse_channels(split_from(v.subrange(4, v.len() - 1), ',', 0)) {
            Some(c) => if c.len() == 3 {
                Some(seq!['#'] + hex2(c[0]) + hex2(c[1]) + hex2(c[2]))
            } else {
                None
            },
            None => None,
        }
    } else {
        None
    }
}

pub open spec fn utf8_len(v: Seq<char>) -> int {
    vstd::utf8::encode_utf8(v).len() as int
}

/// A paint SRNG can render: `none`, a hex colour, a basic colour name, or
/// `rgb(..)`.
pub open spec fn normalize_paint(value: Seq<char>) -> Option<Seq<char>> {
    let v = trim(value);
    if eq_ignore_case(v, "none"@) {
        Some("none"@)
    } else if v.len() > 0 && v[0] == '#' && (utf8_len(v) == 4 || utf8_len(v) == 5 || utf8_len(v) == 7 || utf8_len(v) == 9) {
        Some(v)
    } else if named_colour(lower_seq(v)) is Some {
        named_colour(lower_seq(v))
    } else {
        parse_rgb(v)
    }
}

fn is_text(v: &Vec<char>, s: &str) -> (b: bool)
    ensures
        b == (v@ == s@),
{
    crate::parser::chars_eq(v, &chars_of(s))
}

pub(crate) fn named_colour_exec(v: &Vec<char>) -> (r: Option<Vec<char>>)
    ensures
        match named_colour(v@) {
            Some(c) => r is Some && r->0@ == c,
            None => r is None,
        },
{
    if is_text(v, "black") {
        Some(chars_of("#000000"))
    } else if is_text(v, "white") {
        Some(chars_of("#ffffff"))
    } else if is_text(v, "red") {
        Some(chars_of("#ff0000"))
    } else if is_text(v, "green") {
        Some(chars_of("#008000"))
    } else if is_text(v, "blue") {
        Some(chars_of("#0000ff"))
    } else if is_text(v, "yellow") {
        Some(chars_of("#ffff00"))
    } else if is_text(v, "gray") || is_text(v, "grey") {
        Some(chars_of("#808080"))
    } else if is_text(v, "transparent") {
        Some(chars_of("#00000000"))
    } else {
        None
    }
}

fn push_hex_byte(out: &mut Vec<char>, v: u32)
    requires
        v <= 255,
    ensures
        final(out)@ == old(out)@ + hex2(v as int),
{
    let hi = v / 16;
    let lo = v % 16;
    let c1 = if hi < 10 { ((hi + 0x30) as u8) as char } else { ((hi - 10 + 0x61) as u8) as char };
    let c2 = if lo < 10 { ((lo + 0x30) as u8) as char } else { ((lo - 10 + 0x61) as u8) as char };
    out.push(c1);
    out.push(c2);
}

fn parse_rgb_exec(v: &Vec<char>) -> (r: Option<Vec<char>>)
    ensures
        match parse_rgb(v@) {
            Some(c) => r is Some && r->0@ == c,
            None => r is None,
        },
{
    let n = v.len();
    if !(n >= 5 && is_text(&sub_chars(v, 0, 4), "rgb(") && v[n - 1] == ')') {
        return None;
    }
    let parts = split_chars(&sub_chars(v, 4, n - 1), ',');
    let ghost pv = crate::formatter::line_views(parts@);
    assert(v@.subrange(0, 4) == "rgb("@);
    let mut vals: Vec<u32> = Vec::new();
    let mut j: usize = 0;
    while j < parts.len()
        invariant
            j <= parts@.len(),
            pv == crate::formatter::line_views(parts@),
            pv == split_from(v@.subrange(4, v@.len() - 1), ',', 0),
            v@.len() >= 5 && v@.subrange(0, 4) == "rgb("@ && v@.last() == ')',
            parse_channels(pv.subrange(0, j as int)) == Some(vals@.map_values(|x: u32| x as int)),
            forall|k: int| 0 <= k < vals@.len() ==> vals@[k] <= 255,
        decreases parts@.len() - j,
    {
        assert(pv.subrange(0, j + 1).drop_last() =~= pv.subrange(0, j as int));
        assert(pv[j as int] == parts@[j as int]@);
        match parse_uint(&trim_chars(&parts[j]), 255) {
            Some(x) => {
                let ghost before = vals@;
                vals.push(x);
                assert(vals@.map_values(|x: u32| x as int) =~= before.map_values(|x: u32| x as int).push(x as int));
            },
            None => {
                proof {
                    lemma_channels_none(pv, j as int + 1);
                }
                return None;
            },
        }
        j += 1;
    }
    assert(pv.subrange(0, parts@.len() as int) =~= pv);
    if vals.len() != 3 {
        return None;
    }
    let mut out: Vec<char> = Vec::new();
    out.push('#');
    push_hex_byte(&mut out, vals[0]);
    push_hex_byte(&mut out, vals[1]);
    push_hex_byte(&mut out, vals[2]);
    Some(out)
}

proof fn lemma_channels_none(ps: Seq<Seq<char>>, k: int)
    requires
        0 <= k <= ps.len(),
        parse_channels(ps.subrange(0, k)) is None,
    ensures
        parse_channels(ps) is None,
    decreases ps.len() - k,
{
    if k < ps.len() {
        assert(ps.subrange(0, k + 1).drop_last() =~= ps.subrange(0, k));
        lemma_channels_none(ps, k + 1);
    } else {
        assert(ps.subrange(0, k) =~= ps);
    }
}

pub fn normalize_paint_exec(value: &Vec<char>) -> (r: Option<Vec<char>>)
    ensures
        match normalize_paint(value@) {
            Some(c) => r is Some && r->0@ == c,
            None => r is None,
        },
{
    let v = trim_chars(value);
    let lowered = crate::image::lower_chars(&v);
    if is_text(&lowered, "none") {
        proof {
            reveal_strlit("none");
            assert(eq_ignore_case(v@, "none"@) <==> lowered@ == "none"@) by {
                if lowered@ == "none"@ {
                    assert forall|k: int| 0 <= k < v@.len() implies crate::number::to_lower(#[trigger] v@[k]) == "none"@[k] by {
                        assert(lowered@[k] == crate::number::to_lower(v@[k]));
                    }
                }
                if eq_ignore_case(v@, "none"@) {
                    assert(lowered@ =~= "none"@);
                }
            }
        }
        return Some(chars_of("none"));
    }
    proof {
        reveal_strlit("none");
        if eq_ignore_case(v@, "none"@) {
            assert(lowered@ =~= "none"@);
        }
    }
    let text = string_of(&v);
    let blen = text.as_str().as_bytes().len();
    if v.len() > 0 && v[0] == '#' && (blen == 4 || blen == 5 || blen == 7 || blen == 9) {
        return Some(v);
    }
    match named_colour_exec(&lowered) {
        Some(c) => Some(c),
        None => parse_rgb_exec(&v),
    }
}

// ---------------------------------------------------------------------------
// Elements

/// What the importer reads: the SVG text, whether source attributes are
/// kept, the viewport size, and the document's elements.
pub struct EnvV {
    pub svg: Seq<char>,
    pub preserve: bool,
    pub width: Px,
    pub height: Px,
    pub els: Seq<ElementView>,
}

pub struct Env {
    pub svg: String,
    pub preserve: bool,
    pub width: Px,
    pub height: Px,
    pub els: Vec<XmlElement>,
}

pub open spec fn env_view(env: Env) -> EnvV {
    EnvV { svg: env.svg@, preserve: env.preserve, width: env.width, height: env.height, els: crate::xml::elements_view(env.els@) }
}

pub open spec fn env_wf(env: Env) -> bool {
    px_wf(env.width) && px_wf(env.height)
}

pub open spec fn zero_px() -> Px {
    Px::Fin { neg: false, mag: 0 }
}

/// `{x}px {y}px`.
pub open spec fn pair(x: Px, y: Px) -> Seq<char> {
    fmt_px(x) + "px "@ + fmt_px(y) + "px"@
}

pub open spec fn ins(m: Seq<(Seq<char>, Seq<char>)>, k: Seq<char>, v: Seq<char>) -> Seq<(Seq<char>, Seq<char>)> {
    pm_insert(m, k, v)
}

pub open spec fn preserve_from(m: Seq<(Seq<char>, Seq<char>)>, attrs: Seq<crate::xml::AttributeView>) -> Seq<(Seq<char>, Seq<char>)>
    decreases attrs.len(),
{
    if attrs.len() == 0 {
        m
    } else {
        ins(preserve_from(m, attrs.drop_last()), "svg-attr-"@ + safe_suffix(attrs.last().name), quote_spec(attrs.last().value))
    }
}

/// Every source attribute as an `svg-attr-*` property, when the options
/// keep them.
pub open spec fn preserve(env: EnvV, e: ElementView, m: Seq<(Seq<char>, Seq<char>)>) -> Seq<(Seq<char>, Seq<char>)> {
    if env.preserve { preserve_from(m, e.attributes) } else { m }
}

pub open spec fn placeholder(tag: Seq<char>, xml: Seq<char>) -> Seq<(Seq<char>, Seq<char>)> {
    ins(ins(ins(ins(ins(ins(Seq::empty(), "position"@, "0px 0px"@), "size"@, "0px 0px"@), "fill"@, "none"@), "stroke"@,
        "none"@), "svg-source-tag"@, quote_spec(tag)), "svg-source-xml"@, quote_spec(xml))
}

/// The length attribute `name` in pixels (zero when absent); an unsupported
/// value is diagnosed and counts as zero.
pub open spec fn len(env: EnvV, st: St, e: ElementView, name: Seq<char>, axis: Axis, id: Seq<char>) -> (Px, St) {
    match attr(e, name) {
        None => (zero_px(), st),
        Some(raw) => match resolve_length_spec(raw, axis, env.width, env.height) {
            Some(v) => (v, st),
            None => (zero_px(), warn(st, "S201"@, "unsupported length `"@ + raw + "` for `"@ + name + "`; using 0px"@, id)),
        },
    }
}

pub open spec fn paint_key(st: St, style: Seq<(Seq<char>, Seq<char>)>, props: Seq<(Seq<char>, Seq<char>)>, key: Seq<char>, id: Seq<char>) -> (Seq<(Seq<char>, Seq<char>)>, St) {
    match pm_get(style, key) {
        None => (props, st),
        Some(value) => match normalize_paint(value) {
            Some(v) => (ins(props, key, v), st),
            None => (ins(props, "svg-"@ + key, quote_spec(value)),
                warn(st, "S230"@, "unsupported "@ + key + " paint `"@ + value + "` preserved but not rendered"@, id)),
        },
    }
}

pub open spec fn copy_key(style: Seq<(Seq<char>, Seq<char>)>, props: Seq<(Seq<char>, Seq<char>)>, key: Seq<char>) -> Seq<(Seq<char>, Seq<char>)> {
    match pm_get(style, key) {
        Some(v) => ins(props, key, v),
        None => props,
    }
}

/// Fill and stroke paint, stroke settings and stroke width from the
/// effective style.
pub open spec fn paint(env: EnvV, st: St, style: Seq<(Seq<char>, Seq<char>)>, props: Seq<(Seq<char>, Seq<char>)>, id: Seq<char>) -> (Seq<(Seq<char>, Seq<char>)>, St) {
    let (p1, s1) = paint_key(st, style, props, "fill"@, id);
    let (p2, s2) = paint_key(s1, style, p1, "stroke"@, id);
    let p3 = copy_key(style, copy_key(style, copy_key(style, copy_key(style, copy_key(style, p2, "fill-rule"@),
        "stroke-linecap"@), "stroke-linejoin"@), "stroke-dasharray"@), "stroke-dashoffset"@);
    match pm_get(style, "stroke-width"@) {
        None => (p3, s2),
        Some(v) => match resolve_length_spec(v, Axis::X, env.width, env.height) {
            Some(px) => (ins(p3, "stroke-width"@, fmt_px(px) + "px"@), s2),
            None => (ins(p3, "svg-stroke-width"@, quote_spec(v)),
                warn(s2, "S231"@, "unsupported stroke-width unit preserved but not rendered"@, id)),
        },
    }
}

pub fn pair_exec(x: Px, y: Px) -> (r: Vec<char>)
    requires
        px_wf(x),
        px_wf(y),
    ensures
        r@ == pair(x, y),
{
    let mut out: Vec<char> = Vec::new();
    push_px(&mut out, x);
    append_str(&mut out, "px ");
    push_px(&mut out, y);
    append_str(&mut out, "px");
    out
}

fn set_lit(m: &mut Vec<(Vec<char>, Vec<char>)>, k: &str, v: &str)
    ensures
        pm_view(final(m)@) == pm_insert(pm_view(old(m)@), k@, v@),
{
    pm_set(m, chars_of(k), chars_of(v));
}

fn preserve_exec(env: &Env, e: &XmlElement, m: &mut Vec<(Vec<char>, Vec<char>)>)
    ensures
        pm_view(final(m)@) == preserve(env_view(*env), element_view(*e), pm_view(old(m)@)),
{
    if !env.preserve {
        return;
    }
    let ghost ev = element_view(*e);
    let ghost m0 = pm_view(m@);
    let mut i: usize = 0;
    while i < e.attributes.len()
        invariant
            i <= e.attributes@.len(),
            ev == element_view(*e),
            ev.attributes.len() == e.attributes@.len(),
            pm_view(m@) == preserve_from(m0, ev.attributes.subrange(0, i as int)),
        decreases e.attributes@.len() - i,
    {
        let a = &e.attributes[i];
        assert(ev.attributes[i as int] == crate::xml::attribute_view(*a));
        assert(ev.attributes.subrange(0, i + 1).drop_last() =~= ev.attributes.subrange(0, i as int));
        let mut k = chars_of("svg-attr-");
        append_chars(&mut k, &safe_suffix_exec(&chars_of(a.name.as_str())));
        let v = chars_of(quote(a.value.as_str()).as_str());
        pm_set(m, k, v);
        i += 1;
    }
    assert(ev.attributes.subrange(0, e.attributes@.len() as int) =~= ev.attributes);
}

fn placeholder_exec(tag: &Vec<char>, xml: &str) -> (m: Vec<(Vec<char>, Vec<char>)>)
    ensures
        pm_view(m@) == placeholder(tag@, xml@),
{
    let mut m: Vec<(Vec<char>, Vec<char>)> = Vec::new();
    set_lit(&mut m, "position", "0px 0px");
    set_lit(&mut m, "size", "0px 0px");
    set_lit(&mut m, "fill", "none");
    set_lit(&mut m, "stroke", "none");
    pm_set(&mut m, chars_of("svg-source-tag"), chars_of(quote(string_of(tag).as_str()).as_str()));
    pm_set(&mut m, chars_of("svg-source-xml"), chars_of(quote(xml).as_str()));
    m
}

impl Importer {
    pub fn warn(&mut self, code: &str, message: Vec<char>, id: &Vec<char>)
        ensures
            st_view(*final(self)) == warn(st_view(*old(self)), code@, message@, id@),
    {
        self.push_diag("warning", code, message, Some(id));
    }

    pub fn len_exec(&mut self, env: &Env, e: &XmlElement, name: &str, axis: Axis, id: &Vec<char>) -> (r: Px)
        requires
            env_wf(*env),
        ensures
            (r, st_view(*final(self))) == len(env_view(*env), st_view(*old(self)), element_view(*e), name@, axis, id@),
            px_wf(r),
    {
        match get_attr(e, name) {
            None => Px::Fin { neg: false, mag: 0 },
            Some(raw) => match resolve_length(raw.as_str(), axis, env.width, env.height) {
                Some(v) => v,
                None => {
                    let mut m = chars_of("unsupported length `");
                    append_str(&mut m, raw.as_str());
                    append_str(&mut m, "` for `");
                    append_str(&mut m, name);
                    append_str(&mut m, "`; using 0px");
                    self.warn("S201", m, id);
                    Px::Fin { neg: false, mag: 0 }
                },
            },
        }
    }

    fn paint_key_exec(&mut self, style: &Vec<(Vec<char>, Vec<char>)>, props: &mut Vec<(Vec<char>, Vec<char>)>, key: &str, id: &Vec<char>)
        ensures
            (pm_view(final(props)@), st_view(*final(self))) == paint_key(st_view(*old(self)), pm_view(style@), pm_view(old(props)@), key@, id@),
    {
        match pm_lookup(style, &chars_of(key)) {
            None => {},
            Some(value) => match normalize_paint_exec(&value) {
                Some(v) => pm_set(props, chars_of(key), v),
                None => {
                    let mut k = chars_of("svg-");
                    append_str(&mut k, key);
                    pm_set(props, k, chars_of(quote(string_of(&value).as_str()).as_str()));
                    let mut m = chars_of("unsupported ");
                    append_str(&mut m, key);
                    append_str(&mut m, " paint `");
                    append_chars(&mut m, &value);
                    append_str(&mut m, "` preserved but not rendered");
                    self.warn("S230", m, id);
                },
            },
        }
    }

    pub fn paint_exec(&mut self, env: &Env, style: &Vec<(Vec<char>, Vec<char>)>, props: &mut Vec<(Vec<char>, Vec<char>)>, id: &Vec<char>)
        requires
            env_wf(*env),
        ensures
            (pm_view(final(props)@), st_view(*final(self))) == paint(env_view(*env), st_view(*old(self)), pm_view(style@), pm_view(old(props)@), id@),
    {
        self.paint_key_exec(style, props, "fill", id);
        self.paint_key_exec(style, props, "stroke", id);
        copy_key_exec(style, props, "fill-rule");
        copy_key_exec(style, props, "stroke-linecap");
        copy_key_exec(style, props, "stroke-linejoin");
        copy_key_exec(style, props, "stroke-dasharray");
        copy_key_exec(style, props, "stroke-dashoffset");
        match pm_lookup(style, &chars_of("stroke-width")) {
            None => {},
            Some(v) => match resolve_length(string_of(&v).as_str(), Axis::X, env.width, env.height) {
                Some(px) => {
                    let mut t: Vec<char> = Vec::new();
                    push_px(&mut t, px);
                    append_str(&mut t, "px");
                    pm_set(props, chars_of("stroke-width"), t);
                },
                None => {
                    pm_set(props, chars_of("svg-stroke-width"), chars_of(quote(string_of(&v).as_str()).as_str()));
                    self.warn("S231", chars_of("unsupported stroke-width unit preserved but not rendered"), id);
                },
            },
        }
    }
}

fn copy_key_exec(style: &Vec<(Vec<char>, Vec<char>)>, props: &mut Vec<(Vec<char>, Vec<char>)>, key: &str)
    ensures
        pm_view(final(props)@) == copy_key(pm_view(style@), pm_view(old(props)@), key@),
{
    match pm_lookup(style, &chars_of(key)) {
        Some(v) => pm_set(props, chars_of(key), v),
        None => {},
    }
}

// ---------------------------------------------------------------------------
// Shapes

pub type PMap = Seq<(Seq<char>, Seq<char>)>;

pub open spec fn rect_shape(env: EnvV, st: St, e: ElementView, eff: PMap, props: PMap, id: Seq<char>) -> (PMap, St) {
    let (x, s1) = len(env, st, e, "x"@, Axis::X, id);
    let (y, s2) = len(env, s1, e, "y"@, Axis::Y, id);
    let (w, s3) = len(env, s2, e, "width"@, Axis::X, id);
    let (h, s4) = len(env, s3, e, "height"@, Axis::Y, id);
    let p1 = ins(ins(props, "position"@, pair(x, y)), "size"@, pair(crate::length::px_max0(w), crate::length::px_max0(h)));
    let s5 = if attr(e, "rx"@) is Some || attr(e, "ry"@) is Some {
        warn(s4, "S210"@, "rounded rectangle radii are preserved but not rendered yet"@, id)
    } else {
        s4
    };
    paint(env, s5, eff, p1, id)
}

pub open spec fn circle_shape(env: EnvV, st: St, e: ElementView, eff: PMap, props: PMap, id: Seq<char>) -> (PMap, St) {
    let (cx, s1) = len(env, st, e, "cx"@, Axis::X, id);
    let (cy, s2) = len(env, s1, e, "cy"@, Axis::Y, id);
    let (r0, s3) = len(env, s2, e, "r"@, Axis::X, id);
    let r = crate::length::px_max0(r0);
    let d = crate::length::px_scale(r, 2, 1);
    let p1 = ins(ins(props, "position"@, pair(crate::length::px_sub(cx, r), crate::length::px_sub(cy, r))), "size"@, pair(d, d));
    paint(env, s3, eff, p1, id)
}

pub open spec fn ellipse_shape(env: EnvV, st: St, e: ElementView, eff: PMap, props: PMap, id: Seq<char>) -> (PMap, St) {
    let (cx, s1) = len(env, st, e, "cx"@, Axis::X, id);
    let (cy, s2) = len(env, s1, e, "cy"@, Axis::Y, id);
    let (rx0, s3) = len(env, s2, e, "rx"@, Axis::X, id);
    let (ry0, s4) = len(env, s3, e, "ry"@, Axis::Y, id);
    let rx = crate::length::px_max0(rx0);
    let ry = crate::length::px_max0(ry0);
    let p1 = ins(ins(props, "position"@, pair(crate::length::px_sub(cx, rx), crate::length::px_sub(cy, ry))), "size"@,
        pair(crate::length::px_scale(rx, 2, 1), crate::length::px_scale(ry, 2, 1)));
    paint(env, s4, eff, p1, id)
}

pub open spec fn path_shape(env: EnvV, st: St, e: ElementView, eff: PMap, props: PMap, id: Seq<char>) -> (PMap, St) {
    let p0 = ins(props, "position"@, "0px 0px"@);
    let (p1, s1) = match attr(e, "d"@) {
        Some(d) => (ins(p0, "data"@, quote_spec(d)), st),
        None => (p0, warn(st, "S220"@, "path has no `d` attribute"@, id)),
    };
    paint(env, s1, eff, p1, id)
}

pub open spec fn line_shape(env: EnvV, st: St, e: ElementView, eff: PMap, props: PMap, id: Seq<char>) -> (PMap, St) {
    let (x1, s1) = len(env, st, e, "x1"@, Axis::X, id);
    let (y1, s2) = len(env, s1, e, "y1"@, Axis::Y, id);
    let (x2, s3) = len(env, s2, e, "x2"@, Axis::X, id);
    let (y2, s4) = len(env, s3, e, "y2"@, Axis::Y, id);
    let d = "M "@ + fmt_px(x1) + " "@ + fmt_px(y1) + " L "@ + fmt_px(x2) + " "@ + fmt_px(y2);
    paint(env, s4, eff, ins(ins(props, "position"@, "0px 0px"@), "data"@, quote_spec(d)), id)
}

pub open spec fn poly_shape(env: EnvV, st: St, e: ElementView, tag: Seq<char>, eff: PMap, props: PMap, id: Seq<char>) -> (PMap, St) {
    let p0 = ins(props, "position"@, "0px 0px"@);
    let d = match attr(e, "points"@) {
        Some(pts) => points_path_spec(pts),
        None => None,
    };
    let (p1, s1) = match d {
        Some(d) => (ins(p0, "data"@, quote_spec(if tag == "polygon"@ { d + " Z"@ } else { d })), st),
        None => (p0, warn(st, "S221"@, "invalid or missing points"@, id)),
    };
    paint(env, s1, eff, p1, id)
}

pub open spec fn text_shape(env: EnvV, st: St, e: ElementView, eff: PMap, props: PMap, id: Seq<char>) -> (PMap, St) {
    let (x, s1) = len(env, st, e, "x"@, Axis::X, id);
    let (y, s2) = len(env, s1, e, "y"@, Axis::Y, id);
    let content = match e.text {
        Some(t) => t,
        None => Seq::empty(),
    };
    let p1 = ins(ins(props, "position"@, pair(x, y)), "content"@, quote_spec(content));
    let (p2, s3) = paint(env, s2, eff, p1, id);
    (p2, warn(s3, "S301"@, "text is preserved but requires pre-shaped outline path data for rendering"@, id))
}

pub open spec fn empty_group(props: PMap) -> PMap {
    ins(ins(ins(props, "position"@, "0px 0px"@), "size"@, "0px 0px"@), "fill"@, "none"@)
}

/// The declaration kind, properties and diagnostics of a rendering element.
pub open spec fn shape(env: EnvV, st: St, e: ElementView, tag: Seq<char>, eff: PMap, props: PMap, id: Seq<char>) -> (Seq<char>, PMap, St) {
    if tag == "g"@ || tag == "symbol"@ {
        ("group"@, ins(empty_group(props), "stroke"@, "none"@), st)
    } else if tag == "rect"@ {
        let (p, s1) = rect_shape(env, st, e, eff, props, id);
        ("rect"@, p, s1)
    } else if tag == "circle"@ {
        let (p, s1) = circle_shape(env, st, e, eff, props, id);
        ("circle"@, p, s1)
    } else if tag == "ellipse"@ {
        let (p, s1) = ellipse_shape(env, st, e, eff, props, id);
        ("ellipse"@, p, s1)
    } else if tag == "path"@ {
        let (p, s1) = path_shape(env, st, e, eff, props, id);
        ("path"@, p, s1)
    } else if tag == "line"@ {
        let (p, s1) = line_shape(env, st, e, eff, props, id);
        ("path"@, p, s1)
    } else if tag == "polyline"@ || tag == "polygon"@ {
        let (p, s1) = poly_shape(env, st, e, tag, eff, props, id);
        ("path"@, p, s1)
    } else if tag == "text"@ || tag == "tspan"@ {
        let (p, s1) = text_shape(env, st, e, eff, props, id);
        ("text"@, p, s1)
    } else if tag == "image"@ || tag == "use"@ {
        ("group"@, empty_group(props), warn(st, "S302"@, "<"@ + tag + "> is preserved as metadata but not rendered in v0.1"@, id))
    } else {
        ("group"@, ins(empty_group(props), "svg-source-xml"@, quote_spec(crate::xml::text_range(env.svg, e.start, e.end))),
            warn(st, "S399"@, "unsupported SVG element <"@ + tag + "> preserved as metadata"@, id))
    }
}

pub open spec fn s131_keys() -> Seq<Seq<char>> {
    seq!["opacity"@, "fill-opacity"@, "stroke-opacity"@, "filter"@, "mask"@, "clip-path"@]
}

pub open spec fn s131_checks(st: St, e: ElementView, local: PMap, keys: Seq<Seq<char>>, id: Seq<char>) -> St
    decreases keys.len(),
{
    if keys.len() == 0 {
        st
    } else {
        let s1 = s131_checks(st, e, local, keys.drop_last(), id);
        let key = keys.last();
        if pm_get(local, key) is Some || attr(e, key) is Some {
            warn(s1, "S131"@, "`"@ + key + "` is preserved but not yet represented by the renderer"@, id)
        } else {
            s1
        }
    }
}

/// Diagnostics for what an element carries that the renderer cannot show.
pub open spec fn checks(st: St, e: ElementView, local: PMap, id: Seq<char>) -> St {
    let s1 = if attr(e, "transform"@) is Some {
        warn(st, "S130"@, "transform is preserved as metadata but is not yet baked into geometry"@, id)
    } else {
        st
    };
    s131_checks(s1, e, local, s131_keys(), id)
}

pub open spec fn declare(st: St, kind: Seq<char>, id: Seq<char>, props: PMap, parent: Seq<char>) -> St {
    St { decls: st.decls.push(DeclV { kind, id, props }), rels: st.rels.push((parent, id)), ..st }
}

pub open spec fn non_rendering(local: PMap, tag: Seq<char>) -> bool {
    pm_get(local, "display"@) == Some("none"@) || tag == "defs"@ || tag == "metadata"@ || tag == "title"@ || tag == "desc"@
}

/// Imports element `i` itself under `parent` with the inherited style:
/// whether its subtree stops there, its identifier, the style its children
/// inherit, and the new state.
pub open spec fn element_step(env: EnvV, i: int, parent: Seq<char>, inherited: PMap, st: St) -> (bool, Seq<char>, PMap, St) {
    let e = env.els[i];
    let tag = e.name;
    let local = collect_style(e);
    let eff = pm_extend(inherited, local);
    let (id, s1) = node_id(st, e, tag);
    if non_rendering(local, tag) {
        let props = preserve(env, e, placeholder(tag, crate::xml::text_range(env.svg, e.start, e.end)));
        (true, id, eff, push_diag(declare(s1, "group"@, id, props, parent), "info"@, "S140"@,
            "non-rendering SVG subtree preserved as metadata"@, Some(id)))
    } else {
        let props = preserve(env, e, ins(Seq::empty(), "svg-source-tag"@, quote_spec(tag)));
        let (kind, p1, s2) = shape(env, s1, e, tag, eff, props, id);
        (false, id, eff, declare(checks(s2, e, local, id), kind, id, p1, parent))
    }
}

/// Imports element `i` under `parent` with the inherited style, then its
/// child elements in order.
pub open spec fn visit(env: EnvV, i: int, parent: Seq<char>, inherited: PMap, st: St) -> St
    decreases env.els.len() - i, env.els.len() + 1 - i,
{
    if i < 0 || i >= env.els.len() {
        st
    } else {
        let (stop, id, eff, s1) = element_step(env, i, parent, inherited, st);
        if stop {
            s1
        } else {
            visit_children(env, i, i + 1, id, eff, s1)
        }
    }
}

/// Imports the child elements of element `i` from index `j` on.
pub open spec fn visit_children(env: EnvV, i: int, j: int, id: Seq<char>, eff: PMap, st: St) -> St
    decreases env.els.len() - i, env.els.len() - j,
{
    if i < 0 || j <= i || j >= env.els.len() {
        st
    } else if env.els[j].parent == Some(env.els[i].id) {
        visit_children(env, i, j + 1, id, eff, visit(env, j, id, eff, st))
    } else {
        visit_children(env, i, j + 1, id, eff, st)
    }
}

// ---------------------------------------------------------------------------
// Shapes, executable

fn push_lit(m: &mut Vec<(Vec<char>, Vec<char>)>, k: &str, v: Vec<char>)
    ensures
        pm_view(final(m)@) == pm_insert(pm_view(old(m)@), k@, v@),
{
    pm_set(m, chars_of(k), v);
}

fn quoted_chars(v: &Vec<char>) -> (r: Vec<char>)
    ensures
        r@ == quote_spec(v@),
{
    chars_of(quote(string_of(v).as_str()).as_str())
}

impl Importer {
    fn rect_exec(&mut self, env: &Env, e: &XmlElement, eff: &Vec<(Vec<char>, Vec<char>)>, props: &mut Vec<(Vec<char>, Vec<char>)>, id: &Vec<char>)
        requires
            env_wf(*env),
        ensures
            (pm_view(final(props)@), st_view(*final(self))) == rect_shape(env_view(*env), st_view(*old(self)), element_view(*e), pm_view(eff@), pm_view(old(props)@), id@),
    {
        let x = self.len_exec(env, e, "x", Axis::X, id);
        let y = self.len_exec(env, e, "y", Axis::Y, id);
        let w = self.len_exec(env, e, "width", Axis::X, id);
        let h = self.len_exec(env, e, "height", Axis::Y, id);
        push_lit(props, "position", pair_exec(x, y));
        push_lit(props, "size", pair_exec(crate::length::max0_px(w), crate::length::max0_px(h)));
        if crate::xml::has_attr(e, "rx") || crate::xml::has_attr(e, "ry") {
            self.warn("S210", chars_of("rounded rectangle radii are preserved but not rendered yet"), id);
        }
        self.paint_exec(env, eff, props, id);
    }

    fn circle_exec(&mut self, env: &Env, e: &XmlElement, eff: &Vec<(Vec<char>, Vec<char>)>, props: &mut Vec<(Vec<char>, Vec<char>)>, id: &Vec<char>)
        requires
            env_wf(*env),
        ensures
            (pm_view(final(props)@), st_view(*final(self))) == circle_shape(env_view(*env), st_view(*old(self)), element_view(*e), pm_view(eff@), pm_view(old(props)@), id@),
    {
        let cx = self.len_exec(env, e, "cx", Axis::X, id);
        let cy = self.len_exec(env, e, "cy", Axis::Y, id);
        let r0 = self.len_exec(env, e, "r", Axis::X, id);
        let r = crate::length::max0_px(r0);
        let d = crate::length::scale_px(r, 2, 1);
        push_lit(props, "position", pair_exec(crate::length::sub_px(cx, r), crate::length::sub_px(cy, r)));
        push_lit(props, "size", pair_exec(d, d));
        self.paint_exec(env, eff, props, id);
    }

    fn ellipse_exec(&mut self, env: &Env, e: &XmlElement, eff: &Vec<(Vec<char>, Vec<char>)>, props: &mut Vec<(Vec<char>, Vec<char>)>, id: &Vec<char>)
        requires
            env_wf(*env),
        ensures
            (pm_view(final(props)@), st_view(*final(self))) == ellipse_shape(env_view(*env), st_view(*old(self)), element_view(*e), pm_view(eff@), pm_view(old(props)@), id@),
    {
        let cx = self.len_exec(env, e, "cx", Axis::X, id);
        let cy = self.len_exec(env, e, "cy", Axis::Y, id);
        let rx0 = self.len_exec(env, e, "rx", Axis::X, id);
        let ry0 = self.len_exec(env, e, "ry", Axis::Y, id);
        let rx = crate::length::max0_px(rx0);
        let ry = crate::length::max0_px(ry0);
        push_lit(props, "position", pair_exec(crate::length::sub_px(cx, rx), crate::length::sub_px(cy, ry)));
        push_lit(props, "size", pair_exec(crate::length::scale_px(rx, 2, 1), crate::length::scale_px(ry, 2, 1)));
        self.paint_exec(env, eff, props, id);
    }

    fn path_exec(&mut self, env: &Env, e: &XmlElement, eff: &Vec<(Vec<char>, Vec<char>)>, props: &mut Vec<(Vec<char>, Vec<char>)>, id: &Vec<char>)
        requires
            env_wf(*env),
        ensures
            (pm_view(final(props)@), st_view(*final(self))) == path_shape(env_view(*env), st_view(*old(self)), element_view(*e), pm_view(eff@), pm_view(old(props)@), id@),
    {
        push_lit(props, "position", chars_of("0px 0px"));
        match get_attr(e, "d") {
            Some(d) => push_lit(props, "data", quoted_chars(&chars_of(d.as_str()))),
            None => self.warn("S220", chars_of("path has no `d` attribute"), id),
        }
        self.paint_exec(env, eff, props, id);
    }

    fn line_exec(&mut self, env: &Env, e: &XmlElement, eff: &Vec<(Vec<char>, Vec<char>)>, props: &mut Vec<(Vec<char>, Vec<char>)>, id: &Vec<char>)
        requires
            env_wf(*env),
        ensures
            (pm_view(final(props)@), st_view(*final(self))) == line_shape(env_view(*env), st_view(*old(self)), element_view(*e), pm_view(eff@), pm_view(old(props)@), id@),
    {
        let x1 = self.len_exec(env, e, "x1", Axis::X, id);
        let y1 = self.len_exec(env, e, "y1", Axis::Y, id);
        let x2 = self.len_exec(env, e, "x2", Axis::X, id);
        let y2 = self.len_exec(env, e, "y2", Axis::Y, id);
        let mut d = chars_of("M ");
        push_px(&mut d, x1);
        append_str(&mut d, " ");
        push_px(&mut d, y1);
        append_str(&mut d, " L ");
        push_px(&mut d, x2);
        append_str(&mut d, " ");
        push_px(&mut d, y2);
        assert(d@ =~= "M "@ + fmt_px(x1) + " "@ + fmt_px(y1) + " L "@ + fmt_px(x2) + " "@ + fmt_px(y2));
        push_lit(props, "position", chars_of("0px 0px"));
        push_lit(props, "data", quoted_chars(&d));
        self.paint_exec(env, eff, props, id);
    }

    fn poly_exec(&mut self, env: &Env, e: &XmlElement, tag: &Vec<char>, eff: &Vec<(Vec<char>, Vec<char>)>, props: &mut Vec<(Vec<char>, Vec<char>)>, id: &Vec<char>)
        requires
            env_wf(*env),
        ensures
            (pm_view(final(props)@), st_view(*final(self))) == poly_shape(env_view(*env), st_view(*old(self)), element_view(*e), tag@, pm_view(eff@), pm_view(old(props)@), id@),
    {
        push_lit(props, "position", chars_of("0px 0px"));
        let d = match get_attr(e, "points") {
            Some(pts) => points_to_path(pts.as_str()),
            None => None,
        };
        match d {
            Some(d) => {
                let mut v = chars_of(d.as_str());
                if is_text(tag, "polygon") {
                    append_str(&mut v, " Z");
                }
                push_lit(props, "data", quoted_chars(&v));
            },
            None => self.warn("S221", chars_of("invalid or missing points"), id),
        }
        self.paint_exec(env, eff, props, id);
    }

    fn text_exec(&mut self, env: &Env, e: &XmlElement, eff: &Vec<(Vec<char>, Vec<char>)>, props: &mut Vec<(Vec<char>, Vec<char>)>, id: &Vec<char>)
        requires
            env_wf(*env),
        ensures
            (pm_view(final(props)@), st_view(*final(self))) == text_shape(env_view(*env), st_view(*old(self)), element_view(*e), pm_view(eff@), pm_view(old(props)@), id@),
    {
        let x = self.len_exec(env, e, "x", Axis::X, id);
        let y = self.len_exec(env, e, "y", Axis::Y, id);
        let content = match &e.text {
            Some(t) => chars_of(t.as_str()),
            None => Vec::new(),
        };
        assert(content@ == (match element_view(*e).text {
            Some(t) => t,
            None => Seq::<char>::empty(),
        }));
        push_lit(props, "position", pair_exec(x, y));
        push_lit(props, "content", quoted_chars(&content));
        self.paint_exec(env, eff, props, id);
        self.warn("S301", chars_of("text is preserved but requires pre-shaped outline path data for rendering"), id);
    }

    fn shape_exec(&mut self, env: &Env, e: &XmlElement, tag: &Vec<char>, eff: &Vec<(Vec<char>, Vec<char>)>, props: &mut Vec<(Vec<char>, Vec<char>)>, id: &Vec<char>) -> (kind: Vec<char>)
        requires
            env_wf(*env),
        ensures
            (kind@, pm_view(final(props)@), st_view(*final(self))) == shape(env_view(*env), st_view(*old(self)), element_view(*e), tag@, pm_view(eff@), pm_view(old(props)@), id@),
    {
        if is_text(tag, "g") || is_text(tag, "symbol") {
            set_lit(props, "position", "0px 0px");
            set_lit(props, "size", "0px 0px");
            set_lit(props, "fill", "none");
            set_lit(props, "stroke", "none");
            chars_of("group")
        } else if is_text(tag, "rect") {
            self.rect_exec(env, e, eff, props, id);
            chars_of("rect")
        } else if is_text(tag, "circle") {
            self.circle_exec(env, e, eff, props, id);
            chars_of("circle")
        } else if is_text(tag, "ellipse") {
            self.ellipse_exec(env, e, eff, props, id);
            chars_of("ellipse")
        } else if is_text(tag, "path") {
            self.path_exec(env, e, eff, props, id);
            chars_of("path")
        } else if is_text(tag, "line") {
            self.line_exec(env, e, eff, props, id);
            chars_of("path")
        } else if is_text(tag, "polyline") || is_text(tag, "polygon") {
            self.poly_exec(env, e, tag, eff, props, id);
            chars_of("path")
        } else if is_text(tag, "text") || is_text(tag, "tspan") {
            self.text_exec(env, e, eff, props, id);
            chars_of("text")
        } else if is_text(tag, "image") || is_text(tag, "use") {
            set_lit(props, "position", "0px 0px");
            set_lit(props, "size", "0px 0px");
            set_lit(props, "fill", "none");
            let mut m = chars_of("<");
            append_chars(&mut m, tag);
            append_str(&mut m, "> is preserved as metadata but not rendered in v0.1");
            self.warn("S302", m, id);
            chars_of("group")
        } else {
            set_lit(props, "position", "0px 0px");
            set_lit(props, "size", "0px 0px");
            set_lit(props, "fill", "none");
            let xml = crate::xml::source_text(env.svg.as_str(), e.start, e.end);
            push_lit(props, "svg-source-xml", quoted_chars(&chars_of(xml.as_str())));
            let mut m = chars_of("unsupported SVG element <");
            append_chars(&mut m, tag);
            append_str(&mut m, "> preserved as metadata");
            self.warn("S399", m, id);
            chars_of("group")
        }
    }
}

// ---------------------------------------------------------------------------
// Traversal

fn s131_key_at(i: usize) -> (k: &'static str)
    requires
        i < 6,
    ensures
        k@ == s131_keys()[i as int],
{
    match i {
        0 => "opacity",
        1 => "fill-opacity",
        2 => "stroke-opacity",
        3 => "filter",
        4 => "mask",
        _ => "clip-path",
    }
}

impl Importer {
    fn checks_exec(&mut self, e: &XmlElement, local: &Vec<(Vec<char>, Vec<char>)>, id: &Vec<char>)
        ensures
            st_view(*final(self)) == checks(st_view(*old(self)), element_view(*e), pm_view(local@), id@),
    {
        if crate::xml::has_attr(e, "transform") {
            self.warn("S130", chars_of("transform is preserved as metadata but is not yet baked into geometry"), id);
        }
        let ghost s1 = st_view(*self);
        let mut i: usize = 0;
        while i < 6
            invariant
                i <= 6,
                st_view(*self) == s131_checks(s1, element_view(*e), pm_view(local@), s131_keys().subrange(0, i as int), id@),
            decreases 6 - i,
        {
            let key = s131_key_at(i);
            assert(s131_keys().subrange(0, i + 1).drop_last() =~= s131_keys().subrange(0, i as int));
            if pm_lookup(local, &chars_of(key)).is_some() || crate::xml::has_attr(e, key) {
                let mut m = chars_of("`");
                append_str(&mut m, key);
                append_str(&mut m, "` is preserved but not yet represented by the renderer");
                self.warn("S131", m, id);
            }
            i += 1;
        }
        assert(s131_keys().subrange(0, 6) =~= s131_keys());
    }

    fn declare_exec(&mut self, kind: Vec<char>, id: &Vec<char>, props: Vec<(Vec<char>, Vec<char>)>, parent: &Vec<char>)
        ensures
            st_view(*final(self)) == declare(st_view(*old(self)), kind@, id@, pm_view(props@), parent@),
    {
        let ghost before = st_view(*self);
        let d = Decl { kind, id: copy_chars(id), props };
        let ghost dv = decl_view(d);
        self.decls.push(d);
        self.rels.push((copy_chars(parent), copy_chars(id)));
        assert(st_view(*self).decls =~= before.decls.push(dv));
        assert(st_view(*self).rels =~= before.rels.push((parent@, id@)));
    }

    fn element_exec(&mut self, env: &Env, i: usize, parent: &Vec<char>, inherited: &Vec<(Vec<char>, Vec<char>)>) -> (r: (bool, Vec<char>, Vec<(Vec<char>, Vec<char>)>))
        requires
            env_wf(*env),
            i < env.els@.len(),
        ensures
            (r.0, r.1@, pm_view(r.2@), st_view(*final(self))) == element_step(env_view(*env), i as int, parent@, pm_view(inherited@), st_view(*old(self))),
    {
        let ghost ev = env_view(*env);
        let e = &env.els[i];
        assert(ev.els[i as int] == element_view(*e));
        let tag = chars_of(e.name.as_str());
        let local = collect_style_exec(e);
        let eff = effective_exec(inherited, &local);
        let id = self.node_id(e, &tag);
        let display_none = match pm_lookup(&local, &chars_of("display")) {
            Some(v) => is_text(&v, "none"),
            None => false,
        };
        if display_none || is_text(&tag, "defs") || is_text(&tag, "metadata") || is_text(&tag, "title") || is_text(&tag, "desc") {
            let xml = crate::xml::source_text(env.svg.as_str(), e.start, e.end);
            let mut props = placeholder_exec(&tag, xml.as_str());
            preserve_exec(env, e, &mut props);
            self.declare_exec(chars_of("group"), &id, props, parent);
            self.push_diag("info", "S140", chars_of("non-rendering SVG subtree preserved as metadata"), Some(&id));
            return (true, id, eff);
        }
        let mut props: Vec<(Vec<char>, Vec<char>)> = Vec::new();
        pm_set(&mut props, chars_of("svg-source-tag"), quoted_chars(&tag));
        preserve_exec(env, e, &mut props);
        let kind = self.shape_exec(env, e, &tag, &eff, &mut props, &id);
        self.checks_exec(e, &local, &id);
        self.declare_exec(kind, &id, props, parent);
        (false, id, eff)
    }

    /// Imports element `i` and its descendants.
    pub fn visit(&mut self, env: &Env, i: usize, parent: &Vec<char>, inherited: &Vec<(Vec<char>, Vec<char>)>)
        requires
            env_wf(*env),
            i < env.els@.len(),
        ensures
            st_view(*final(self)) == visit(env_view(*env), i as int, parent@, pm_view(inherited@), st_view(*old(self))),
        decreases env.els@.len() - i, env.els@.len() + 1 - i,
    {
        let ghost ev = env_view(*env);
        let (stop, id, eff) = self.element_exec(env, i, parent, inherited);
        if stop {
            return;
        }
        self.children_exec(env, i, &id, &eff);
    }

    fn children_exec(&mut self, env: &Env, i: usize, id: &Vec<char>, eff: &Vec<(Vec<char>, Vec<char>)>)
        requires
            env_wf(*env),
            i < env.els@.len(),
        ensures
            st_view(*final(self)) == visit_children(env_view(*env), i as int, i + 1, id@, pm_view(eff@), st_view(*old(self))),
        decreases env.els@.len() - i, env.els@.len() - i,
    {
        let ghost ev = env_view(*env);
        let ghost target = visit_children(ev, i as int, i + 1, id@, pm_view(eff@), st_view(*self));
        let n = env.els.len();
        let mut j: usize = i + 1;
        while j < n
            invariant
                i < j <= n,
                n == env.els@.len(),
                ev == env_view(*env),
                env_wf(*env),
                visit_children(ev, i as int, j as int, id@, pm_view(eff@), st_view(*self)) == target,
            decreases n - j,
        {
            assert(ev.els[j as int] == element_view(env.els@[j as int]));
            assert(ev.els[i as int] == element_view(env.els@[i as int]));
            if env.els[j].parent == Some(env.els[i].id) {
                self.visit(env, j, id, eff);
            }
            j += 1;
        }
    }
}

/// A copy of a property map.
pub(crate) fn copy_map(m: &Vec<(Vec<char>, Vec<char>)>) -> (r: Vec<(Vec<char>, Vec<char>)>)
    ensures
        pm_view(r@) == pm_view(m@),
{
    let none: Vec<(Vec<char>, Vec<char>)> = Vec::new();
    assert(pm_view(none@) =~= Seq::<(Seq<char>, Seq<char>)>::empty());
    effective_exec(m, &none)
}

pub(crate) fn effective_exec(inherited: &Vec<(Vec<char>, Vec<char>)>, local: &Vec<(Vec<char>, Vec<char>)>) -> (eff: Vec<(Vec<char>, Vec<char>)>)
    ensures
        pm_view(eff@) == pm_extend(pm_view(inherited@), pm_view(local@)),
{
    let mut eff: Vec<(Vec<char>, Vec<char>)> = Vec::new();
    let mut k: usize = 0;
    while k < inherited.len()
        invariant
            k <= inherited@.len(),
            pm_view(eff@) == pm_view(inherited@).subrange(0, k as int),
        decreases inherited@.len() - k,
    {
        let ghost before = eff@;
        eff.push((copy_chars(&inherited[k].0), copy_chars(&inherited[k].1)));
        assert(pm_view(eff@) =~= pm_view(before).push(pm_view(inherited@)[k as int]));
        k += 1;
    }
    assert(pm_view(inherited@).subrange(0, inherited@.len() as int) =~= pm_view(inherited@));
    pm_extend_exec(&mut eff, local);
    eff
}


// ---------------------------------------------------------------------------
// The document

/// The property lines of a declaration.
pub open spec fn props_text(ps: PMap) -> Seq<char>
    decreases ps.len(),
{
    if ps.len() == 0 {
        Seq::empty()
    } else {
        props_text(ps.drop_last()) + "    "@ + ps.last().0 + ": "@ + ps.last().1 + ";\n"@
    }
}

pub open spec fn decl_text(d: DeclV) -> Seq<char> {
    d.kind + " "@ + d.id + " {\n"@ + props_text(d.props) + "}\n\n"@
}

pub open spec fn decls_text(ds: Seq<DeclV>) -> Seq<char>
    decreases ds.len(),
{
    if ds.len() == 0 {
        Seq::empty()
    } else {
        decls_text(ds.drop_last()) + decl_text(ds.last())
    }
}

pub open spec fn rel_text(r: (Seq<char>, Seq<char>)) -> Seq<char> {
    "relation "@ + r.0 + " -> "@ + r.1 + " {\n    kind: contains;\n}\n\n"@
}

pub open spec fn rels_text(rs: Seq<(Seq<char>, Seq<char>)>) -> Seq<char>
    decreases rs.len(),
{
    if rs.len() == 0 {
        Seq::empty()
    } else {
        rels_text(rs.drop_last()) + rel_text(rs.last())
    }
}

/// The SRNG source of an import: header, declarations, then one
/// `contains` relation per parent and child.
pub open spec fn document_text(st: St, file_id: Seq<char>) -> Seq<char> {
    "srng 0.1;\nfile "@ + quote_spec(file_id) + ";\n\n"@ + decls_text(st.decls) + rels_text(st.rels)
}

pub open spec fn initial_state() -> St {
    St { decls: Seq::empty(), rels: Seq::empty(), diags: Seq::empty(), ids: Seq::empty(), generated: 0 }
}

/// A whole number of pixels.
pub open spec fn whole_px(n: nat) -> Px {
    Px::Fin { neg: false, mag: (n * UNITS) as u128 }
}

pub open spec fn or_px(a: Option<Px>, b: Option<Px>, d: Px) -> Px {
    match a {
        Some(v) => v,
        None => match b {
            Some(v) => v,
            None => d,
        },
    }
}

/// The canvas width: the `width` attribute, else the viewBox width, else 300.
pub open spec fn root_width(root: ElementView, vb: Option<(Px, Px, Px, Px)>) -> Px {
    or_px(
        match attr(root, "width"@) {
            Some(v) => resolve_length_spec(v, Axis::X, whole_px(300), whole_px(150)),
            None => None,
        },
        match vb {
            Some(b) => Some(b.2),
            None => None,
        },
        whole_px(300),
    )
}

/// The canvas height: the `height` attribute (percent of the width), else
/// the viewBox height, else 150.
pub open spec fn root_height(root: ElementView, vb: Option<(Px, Px, Px, Px)>, width: Px) -> Px {
    or_px(
        match attr(root, "height"@) {
            Some(v) => resolve_length_spec(v, Axis::Y, width, whole_px(150)),
            None => None,
        },
        match vb {
            Some(b) => Some(b.3),
            None => None,
        },
        whole_px(150),
    )
}

/// Whether the viewBox does more than restate the canvas size.
pub open spec fn view_box_moves(vb: Option<(Px, Px, Px, Px)>, width: Px, height: Px) -> bool {
    match vb {
        Some(b) => px_nonzero(b.0) || px_nonzero(b.1) || px_differs(b.2, width) || px_differs(b.3, height),
        None => false,
    }
}

pub open spec fn root_props(env: EnvV, root: ElementView, name: Seq<char>) -> PMap {
    preserve(env, root, ins(ins(ins(ins(ins(Seq::empty(), "position"@, "0px 0px"@), "size"@, pair(env.width, env.height)),
        "fill"@, "none"@), "svg-source-tag"@, quote_spec("svg"@)), "svg-source"@, quote_spec(name)))
}

/// The style every top-level element inherits.
pub open spec fn root_style() -> PMap {
    ins(ins(Seq::empty(), "fill"@, "#000000"@), "stroke"@, "none"@)
}

pub open spec fn failed_import(code: Seq<char>, message: Seq<char>) -> (Seq<char>, Seq<DiagV>) {
    ("srng 0.1;\n"@, seq![DiagV { severity: "error"@, code, message, element: None }])
}

/// The import of a document whose root is an `<svg>` element.
pub open spec fn import_root(svg: Seq<char>, name: Seq<char>, file_id: Option<Seq<char>>, keep: bool, els: Seq<ElementView>) -> (Seq<char>, Seq<DiagV>) {
    let root = els[0];
    let vb = view_box_spec(attr(root, "viewBox"@));
    let w = root_width(root, vb);
    let h = root_height(root, vb, w);
    let env = EnvV { svg, preserve: keep, width: w, height: h, els };
    let (rid, s1) = unique_id(initial_state(), match attr(root, "id"@) {
        Some(v) => v,
        None => "svg_root"@,
    });
    let s2 = St { decls: s1.decls.push(DeclV { kind: "canvas"@, id: rid, props: root_props(env, root, name) }), ..s1 };
    let s3 = if view_box_moves(vb, w, h) {
        warn(s2, "S120"@, "viewBox mapping is preserved as metadata but is not yet baked into geometry"@, rid)
    } else {
        s2
    };
    let s4 = visit_children(env, 0, 1, rid, root_style(), s3);
    (document_text(s4, match file_id {
        Some(f) => f,
        None => name,
    }), s4.diags)
}

/// SVG text to SRNG source and diagnostics.
pub open spec fn import_spec(svg: Seq<char>, name: Seq<char>, file_id: Option<Seq<char>>, keep: bool) -> (Seq<char>, Seq<DiagV>) {
    match xml_elements(svg) {
        Err(e) => failed_import("S001"@, "invalid SVG/XML: "@ + e),
        Ok(els) => {
            let rname = if els.len() > 0 { els[0].name } else { Seq::empty() };
            if els.len() == 0 || rname != "svg"@ {
                failed_import("S002"@, "expected <svg> root, found <"@ + rname + ">"@)
            } else {
                import_root(svg, name, file_id, keep, els)
            }
        },
    }
}

fn failed_exec(code: &str, message: Vec<char>) -> (r: ImportResult)
    ensures
        (r.source@, diags_of(r.diagnostics@)) == failed_import(code@, message@),
{
    let d = ImportDiagnostic {
        severity: crate::text::chars_to_string_lit("error"),
        code: crate::text::chars_to_string_lit(code),
        message: string_of(&message),
        element: None,
    };
    let r = ImportResult { source: crate::text::chars_to_string_lit("srng 0.1;\n"), diagnostics: vec![d] };
    assert(diags_of(r.diagnostics@) =~= seq![diag_view(d)]);
    r
}

fn push_props(out: &mut Vec<char>, ps: &Vec<(Vec<char>, Vec<char>)>)
    ensures
        final(out)@ == old(out)@ + props_text(pm_view(ps@)),
{
    let ghost start = out@;
    let ghost v = pm_view(ps@);
    let mut i: usize = 0;
    while i < ps.len()
        invariant
            i <= ps@.len(),
            v == pm_view(ps@),
            out@ == start + props_text(v.subrange(0, i as int)),
        decreases ps@.len() - i,
    {
        assert(v.subrange(0, i + 1).drop_last() =~= v.subrange(0, i as int));
        append_str(out, "    ");
        append_chars(out, &ps[i].0);
        append_str(out, ": ");
        append_chars(out, &ps[i].1);
        append_str(out, ";\n");
        proof {
            reveal_strlit("    ");
            reveal_strlit(": ");
            reveal_strlit(";\n");
        }
        assert(out@ =~= start + props_text(v.subrange(0, i + 1)));
        i += 1;
    }
    assert(v.subrange(0, ps@.len() as int) =~= v);
}

fn push_decls(out: &mut Vec<char>, ds: &Vec<Decl>)
    ensures
        final(out)@ == old(out)@ + decls_text(ds@.map_values(|d: Decl| decl_view(d))),
{
    let ghost start = out@;
    let ghost v = ds@.map_values(|d: Decl| decl_view(d));
    let mut i: usize = 0;
    while i < ds.len()
        invariant
            i <= ds@.len(),
            v == ds@.map_values(|d: Decl| decl_view(d)),
            out@ == start + decls_text(v.subrange(0, i as int)),
        decreases ds@.len() - i,
    {
        assert(v.subrange(0, i + 1).drop_last() =~= v.subrange(0, i as int));
        let d = &ds[i];
        assert(v[i as int] == decl_view(*d));
        let ghost before = out@;
        append_chars(out, &d.kind);
        append_str(out, " ");
        append_chars(out, &d.id);
        append_str(out, " {\n");
        push_props(out, &d.props);
        append_str(out, "}\n\n");
        proof {
            reveal_strlit(" ");
            reveal_strlit(" {\n");
            reveal_strlit("}\n\n");
        }
        assert(out@ =~= before + decl_text(v[i as int]));
        assert(out@ =~= start + decls_text(v.subrange(0, i + 1)));
        i += 1;
    }
    assert(v.subrange(0, ds@.len() as int) =~= v);
}

fn push_rels(out: &mut Vec<char>, rs: &Vec<(Vec<char>, Vec<char>)>)
    ensures
        final(out)@ == old(out)@ + rels_text(rels_view(rs@)),
{
    let ghost start = out@;
    let ghost v = rels_view(rs@);
    let mut i: usize = 0;
    while i < rs.len()
        invariant
            i <= rs@.len(),
            v == rels_view(rs@),
            out@ == start + rels_text(v.subrange(0, i as int)),
        decreases rs@.len() - i,
    {
        assert(v.subrange(0, i + 1).drop_last() =~= v.subrange(0, i as int));
        let ghost before = out@;
        append_str(out, "relation ");
        append_chars(out, &rs[i].0);
        append_str(out, " -> ");
        append_chars(out, &rs[i].1);
        append_str(out, " {\n    kind: contains;\n}\n\n");
        proof {
            reveal_strlit("relation ");
            reveal_strlit(" -> ");
            reveal_strlit(" {\n    kind: contains;\n}\n\n");
        }
        assert(out@ =~= before + rel_text(v[i as int]));
        assert(out@ =~= start + rels_text(v.subrange(0, i + 1)));
        i += 1;
    }
    assert(v.subrange(0, rs@.len() as int) =~= v);
}

fn root_size(root: &XmlElement, vb: Option<(Px, Px, Px, Px)>) -> (r: (Px, Px))
    requires
        vb matches Some((a, b, c, d)) ==> px_wf(a) && px_wf(b) && px_wf(c) && px_wf(d),
    ensures
        r.0 == root_width(element_view(*root), vb),
        r.1 == root_height(element_view(*root), vb, r.0),
        px_wf(r.0),
        px_wf(r.1),
{
    let p300 = Px::Fin { neg: false, mag: 300000000000 };
    let p150 = Px::Fin { neg: false, mag: 150000000000 };
    assert(p300 == whole_px(300) && p150 == whole_px(150));
    let wa = match get_attr(root, "width") {
        Some(v) => resolve_length(v.as_str(), Axis::X, p300, p150),
        None => None,
    };
    let w = match wa {
        Some(v) => v,
        None => match vb {
            Some(b) => b.2,
            None => p300,
        },
    };
    let ha = match get_attr(root, "height") {
        Some(v) => resolve_length(v.as_str(), Axis::Y, w, p150),
        None => None,
    };
    let h = match ha {
        Some(v) => v,
        None => match vb {
            Some(b) => b.3,
            None => p150,
        },
    };
    (w, h)
}

/// Imports an SVG document as SRNG source.
pub fn import_svg(svg: &str, source_name: &str, options: &ImportOptions) -> (r: ImportResult)
    ensures
        (r.source@, diags_of(r.diagnostics@)) == import_spec(svg@, source_name@, crate::xml::opt_str_view(options.file_id),
            options.preserve_source_attributes),
{
    let els = match crate::xml::parse_xml(svg) {
        Ok(els) => els,
        Err(e) => {
            let mut m = chars_of("invalid SVG/XML: ");
            append_str(&mut m, e.as_str());
            proof {
                reveal_strlit("invalid SVG/XML: ");
            }
            return failed_exec("S001", m);
        },
    };
    let ghost ev = crate::xml::elements_view(els@);
    let root_svg = els.len() > 0 && is_text(&chars_of(els[0].name.as_str()), "svg");
    if !root_svg {
        let mut m = chars_of("expected <svg> root, found <");
        if els.len() > 0 {
            append_str(&mut m, els[0].name.as_str());
            assert(ev[0] == element_view(els@[0]));
        }
        append_str(&mut m, ">");
        proof {
            reveal_strlit("expected <svg> root, found <");
            reveal_strlit(">");
        }
        return failed_exec("S002", m);
    }
    assert(ev[0] == element_view(els@[0]));
    let root = &els[0];
    let vb_attr = get_attr(root, "viewBox");
    let vb = crate::length::parse_view_box(match &vb_attr {
        Some(v) => Some(v.as_str()),
        None => None,
    });
    let ghost vba = attr(element_view(*root), "viewBox"@);
    assert(vb == view_box_spec(vba));
    let (w, h) = root_size(root, vb);
    let raw_id = match get_attr(root, "id") {
        Some(v) => chars_of(v.as_str()),
        None => chars_of("svg_root"),
    };
    let mut imp = Importer { decls: Vec::new(), rels: Vec::new(), diags: Vec::new(), ids: Vec::new(), generated: 0 };
    assert(st_view(imp).decls =~= initial_state().decls);
    assert(st_view(imp).rels =~= initial_state().rels);
    assert(st_view(imp).diags =~= initial_state().diags);
    assert(st_view(imp).ids =~= initial_state().ids);
    assert(st_view(imp) == initial_state());
    let rid = imp.unique_id(&raw_id);
    let env = Env {
        svg: string_of(&chars_of(svg)),
        preserve: options.preserve_source_attributes,
        width: w,
        height: h,
        els: els,
    };
    let ghost envv = env_view(env);
    let root = &env.els[0];
    assert(envv.els[0] == element_view(*root));
    let mut props: Vec<(Vec<char>, Vec<char>)> = Vec::new();
    set_lit(&mut props, "position", "0px 0px");
    pm_set(&mut props, chars_of("size"), pair_exec(w, h));
    set_lit(&mut props, "fill", "none");
    pm_set(&mut props, chars_of("svg-source-tag"), quoted_chars(&chars_of("svg")));
    pm_set(&mut props, chars_of("svg-source"), quoted_chars(&chars_of(source_name)));
    preserve_exec(&env, root, &mut props);
    let ghost s1 = st_view(imp);
    let d = Decl { kind: chars_of("canvas"), id: copy_chars(&rid), props };
    let ghost dv = decl_view(d);
    imp.decls.push(d);
    assert(st_view(imp).decls =~= s1.decls.push(dv));
    let moved = match vb {
        Some(b) => nonzero_px(b.0) || nonzero_px(b.1) || differs_px(b.2, w) || differs_px(b.3, h),
        None => false,
    };
    if moved {
        imp.warn("S120", chars_of("viewBox mapping is preserved as metadata but is not yet baked into geometry"), &rid);
    }
    let mut inherited: Vec<(Vec<char>, Vec<char>)> = Vec::new();
    set_lit(&mut inherited, "fill", "#000000");
    set_lit(&mut inherited, "stroke", "none");
    imp.children_exec(&env, 0, &rid, &inherited);
    let mut out = chars_of("srng 0.1;\nfile ");
    let fid = match &options.file_id {
        Some(f) => chars_of(f.as_str()),
        None => chars_of(source_name),
    };
    append_chars(&mut out, &quoted_chars(&fid));
    append_str(&mut out, ";\n\n");
    push_decls(&mut out, &imp.decls);
    push_rels(&mut out, &imp.rels);
    proof {
        reveal_strlit("srng 0.1;\nfile ");
        reveal_strlit(";\n\n");
    }
    ImportResult { source: string_of(&out), diagnostics: imp.diags }
}


// ---------------------------------------------------------------------------
// Laws

/// Every identifier the importer makes is an SRNG identifier: not empty,
/// an identifier start, then identifier characters only.
pub proof fn law_safe_ident_is_identifier(raw: Seq<char>)
    ensures
        safe_ident(raw).len() > 0,
        is_ident_start(safe_ident(raw)[0]),
        forall|i: int| 1 <= i < safe_ident(raw).len() ==> is_ident_continue(#[trigger] safe_ident(raw)[i]),
{
    reveal_strlit("svg_node");
    if raw.len() > 0 {
        assert(safe_ident(raw)[0] == ident_char(0, raw[0]));
        assert forall|i: int| 1 <= i < safe_ident(raw).len() implies is_ident_continue(#[trigger] safe_ident(raw)[i]) by {
            assert(safe_ident(raw)[i] == ident_char(i, raw[i]));
        }
    }
}

/// `b` holds every diagnostic of `a`, in place.
pub open spec fn keeps(a: St, b: St) -> bool {
    &&& a.diags.len() <= b.diags.len()
    &&& forall|k: int| 0 <= k < a.diags.len() ==> #[trigger] b.diags[k] == a.diags[k]
}

proof fn lemma_keeps_trans(a: St, b: St, c: St)
    requires
        keeps(a, b),
        keeps(b, c),
    ensures
        keeps(a, c),
{
    assert forall|k: int| 0 <= k < a.diags.len() implies #[trigger] c.diags[k] == a.diags[k] by {
        assert(c.diags[k] == b.diags[k]);
    }
}

proof fn lemma_warn_keeps(st: St, code: Seq<char>, message: Seq<char>, id: Seq<char>)
    ensures
        keeps(st, warn(st, code, message, id)),
{
}

proof fn lemma_len_keeps(env: EnvV, st: St, e: ElementView, name: Seq<char>, axis: Axis, id: Seq<char>)
    ensures
        keeps(st, len(env, st, e, name, axis, id).1),
{
}

proof fn lemma_paint_keeps(env: EnvV, st: St, style: PMap, props: PMap, id: Seq<char>)
    ensures
        keeps(st, paint(env, st, style, props, id).1),
{
    let (p1, s1) = paint_key(st, style, props, "fill"@, id);
    let (p2, s2) = paint_key(s1, style, p1, "stroke"@, id);
    assert(keeps(st, s1));
    assert(keeps(s1, s2));
    lemma_keeps_trans(st, s1, s2);
    lemma_keeps_trans(st, s2, paint(env, st, style, props, id).1);
}

proof fn lemma_lens_keep(env: EnvV, st: St, e: ElementView, n1: Seq<char>, a1: Axis, n2: Seq<char>, a2: Axis, id: Seq<char>)
    ensures
        keeps(st, len(env, len(env, st, e, n1, a1, id).1, e, n2, a2, id).1),
{
    let s1 = len(env, st, e, n1, a1, id).1;
    lemma_len_keeps(env, st, e, n1, a1, id);
    lemma_len_keeps(env, s1, e, n2, a2, id);
    lemma_keeps_trans(st, s1, len(env, s1, e, n2, a2, id).1);
}

proof fn lemma_paint_after(env: EnvV, st: St, s1: St, eff: PMap, pm: PMap, id: Seq<char>)
    requires
        keeps(st, s1),
    ensures
        keeps(st, paint(env, s1, eff, pm, id).1),
{
    lemma_paint_keeps(env, s1, eff, pm, id);
    lemma_keeps_trans(st, s1, paint(env, s1, eff, pm, id).1);
}

proof fn lemma_four_lens(env: EnvV, st: St, e: ElementView, n1: Seq<char>, n2: Seq<char>, n3: Seq<char>, n4: Seq<char>, id: Seq<char>)
    ensures
        keeps(st, len(env, len(env, len(env, len(env, st, e, n1, Axis::X, id).1, e, n2, Axis::Y, id).1, e, n3, Axis::X, id).1, e,
            n4, Axis::Y, id).1),
{
    let s2 = len(env, len(env, st, e, n1, Axis::X, id).1, e, n2, Axis::Y, id).1;
    lemma_lens_keep(env, st, e, n1, Axis::X, n2, Axis::Y, id);
    lemma_lens_keep(env, s2, e, n3, Axis::X, n4, Axis::Y, id);
    lemma_keeps_trans(st, s2, len(env, len(env, s2, e, n3, Axis::X, id).1, e, n4, Axis::Y, id).1);
}

proof fn lemma_rect_keeps(env: EnvV, st: St, e: ElementView, eff: PMap, props: PMap, id: Seq<char>)
    ensures
        keeps(st, rect_shape(env, st, e, eff, props, id).1),
{
    let (x, s1) = len(env, st, e, "x"@, Axis::X, id);
    let (y, s2) = len(env, s1, e, "y"@, Axis::Y, id);
    let (w, s3) = len(env, s2, e, "width"@, Axis::X, id);
    let (h, s4) = len(env, s3, e, "height"@, Axis::Y, id);
    lemma_four_lens(env, st, e, "x"@, "y"@, "width"@, "height"@, id);
    let s5 = if attr(e, "rx"@) is Some || attr(e, "ry"@) is Some {
        warn(s4, "S210"@, "rounded rectangle radii are preserved but not rendered yet"@, id)
    } else {
        s4
    };
    lemma_keeps_trans(st, s4, s5);
    let p1 = ins(ins(props, "position"@, pair(x, y)), "size"@, pair(crate::length::px_max0(w), crate::length::px_max0(h)));
    lemma_paint_after(env, st, s5, eff, p1, id);
}

proof fn lemma_circle_keeps(env: EnvV, st: St, e: ElementView, eff: PMap, props: PMap, id: Seq<char>)
    ensures
        keeps(st, circle_shape(env, st, e, eff, props, id).1),
{
    let (cx, s1) = len(env, st, e, "cx"@, Axis::X, id);
    let (cy, s2) = len(env, s1, e, "cy"@, Axis::Y, id);
    let (r0, s3) = len(env, s2, e, "r"@, Axis::X, id);
    lemma_lens_keep(env, st, e, "cx"@, Axis::X, "cy"@, Axis::Y, id);
    lemma_len_keeps(env, s2, e, "r"@, Axis::X, id);
    lemma_keeps_trans(st, s2, s3);
    let r = crate::length::px_max0(r0);
    let d = crate::length::px_scale(r, 2, 1);
    let p1 = ins(ins(props, "position"@, pair(crate::length::px_sub(cx, r), crate::length::px_sub(cy, r))), "size"@, pair(d, d));
    lemma_paint_after(env, st, s3, eff, p1, id);
}

proof fn lemma_ellipse_keeps(env: EnvV, st: St, e: ElementView, eff: PMap, props: PMap, id: Seq<char>)
    ensures
        keeps(st, ellipse_shape(env, st, e, eff, props, id).1),
{
    let (cx, s1) = len(env, st, e, "cx"@, Axis::X, id);
    let (cy, s2) = len(env, s1, e, "cy"@, Axis::Y, id);
    let (rx0, s3) = len(env, s2, e, "rx"@, Axis::X, id);
    let (ry0, s4) = len(env, s3, e, "ry"@, Axis::Y, id);
    lemma_four_lens(env, st, e, "cx"@, "cy"@, "rx"@, "ry"@, id);
    let rx = crate::length::px_max0(rx0);
    let ry = crate::length::px_max0(ry0);
    let p1 = ins(ins(props, "position"@, pair(crate::length::px_sub(cx, rx), crate::length::px_sub(cy, ry))), "size"@,
        pair(crate::length::px_scale(rx, 2, 1), crate::length::px_scale(ry, 2, 1)));
    lemma_paint_after(env, st, s4, eff, p1, id);
}

proof fn lemma_line_keeps(env: EnvV, st: St, e: ElementView, eff: PMap, props: PMap, id: Seq<char>)
    ensures
        keeps(st, line_shape(env, st, e, eff, props, id).1),
{
    let (x1, s1) = len(env, st, e, "x1"@, Axis::X, id);
    let (y1, s2) = len(env, s1, e, "y1"@, Axis::Y, id);
    let (x2, s3) = len(env, s2, e, "x2"@, Axis::X, id);
    let (y2, s4) = len(env, s3, e, "y2"@, Axis::Y, id);
    lemma_four_lens(env, st, e, "x1"@, "y1"@, "x2"@, "y2"@, id);
    let d = "M "@ + fmt_px(x1) + " "@ + fmt_px(y1) + " L "@ + fmt_px(x2) + " "@ + fmt_px(y2);
    lemma_paint_after(env, st, s4, eff, ins(ins(props, "position"@, "0px 0px"@), "data"@, quote_spec(d)), id);
}

proof fn lemma_path_keeps(env: EnvV, st: St, e: ElementView, eff: PMap, props: PMap, id: Seq<char>)
    ensures
        keeps(st, path_shape(env, st, e, eff, props, id).1),
{
    let p0 = ins(props, "position"@, "0px 0px"@);
    let (p1, s1) = match attr(e, "d"@) {
        Some(d) => (ins(p0, "data"@, quote_spec(d)), st),
        None => (p0, warn(st, "S220"@, "path has no `d` attribute"@, id)),
    };
    lemma_paint_after(env, st, s1, eff, p1, id);
}

proof fn lemma_poly_keeps(env: EnvV, st: St, e: ElementView, tag: Seq<char>, eff: PMap, props: PMap, id: Seq<char>)
    ensures
        keeps(st, poly_shape(env, st, e, tag, eff, props, id).1),
{
    let p0 = ins(props, "position"@, "0px 0px"@);
    let d = match attr(e, "points"@) {
        Some(pts) => points_path_spec(pts),
        None => None,
    };
    let (p1, s1) = match d {
        Some(d) => (ins(p0, "data"@, quote_spec(if tag == "polygon"@ { d + " Z"@ } else { d })), st),
        None => (p0, warn(st, "S221"@, "invalid or missing points"@, id)),
    };
    lemma_paint_after(env, st, s1, eff, p1, id);
}

proof fn lemma_text_keeps(env: EnvV, st: St, e: ElementView, eff: PMap, props: PMap, id: Seq<char>)
    ensures
        keeps(st, text_shape(env, st, e, eff, props, id).1),
{
    let (x, s1) = len(env, st, e, "x"@, Axis::X, id);
    let (y, s2) = len(env, s1, e, "y"@, Axis::Y, id);
    lemma_lens_keep(env, st, e, "x"@, Axis::X, "y"@, Axis::Y, id);
    let content = match e.text {
        Some(t) => t,
        None => Seq::empty(),
    };
    let p1 = ins(ins(props, "position"@, pair(x, y)), "content"@, quote_spec(content));
    let (p2, s3) = paint(env, s2, eff, p1, id);
    lemma_paint_after(env, st, s2, eff, p1, id);
    lemma_keeps_trans(st, s3, warn(s3, "S301"@, "text is preserved but requires pre-shaped outline path data for rendering"@, id));
}

proof fn lemma_shape_keeps(env: EnvV, st: St, e: ElementView, tag: Seq<char>, eff: PMap, props: PMap, id: Seq<char>)
    ensures
        keeps(st, shape(env, st, e, tag, eff, props, id).2),
{
    if tag == "g"@ || tag == "symbol"@ {
    } else if tag == "rect"@ {
        lemma_rect_keeps(env, st, e, eff, props, id);
    } else if tag == "circle"@ {
        lemma_circle_keeps(env, st, e, eff, props, id);
    } else if tag == "ellipse"@ {
        lemma_ellipse_keeps(env, st, e, eff, props, id);
    } else if tag == "path"@ {
        lemma_path_keeps(env, st, e, eff, props, id);
    } else if tag == "line"@ {
        lemma_line_keeps(env, st, e, eff, props, id);
    } else if tag == "polyline"@ || tag == "polygon"@ {
        lemma_poly_keeps(env, st, e, tag, eff, props, id);
    } else if tag == "text"@ || tag == "tspan"@ {
        lemma_text_keeps(env, st, e, eff, props, id);
    } else if tag == "image"@ || tag == "use"@ {
        lemma_warn_keeps(st, "S302"@, "<"@ + tag + "> is preserved as metadata but not rendered in v0.1"@, id);
    } else {
        lemma_warn_keeps(st, "S399"@, "unsupported SVG element <"@ + tag + "> preserved as metadata"@, id);
    }
}

proof fn lemma_s131_keeps(st: St, e: ElementView, local: PMap, keys: Seq<Seq<char>>, id: Seq<char>)
    ensures
        keeps(st, s131_checks(st, e, local, keys, id)),
    decreases keys.len(),
{
    if keys.len() > 0 {
        let s1 = s131_checks(st, e, local, keys.drop_last(), id);
        lemma_s131_keeps(st, e, local, keys.drop_last(), id);
        lemma_keeps_trans(st, s1, s131_checks(st, e, local, keys, id));
    }
}

proof fn lemma_step_keeps(env: EnvV, i: int, parent: Seq<char>, inherited: PMap, st: St)
    requires
        0 <= i < env.els.len(),
    ensures
        keeps(st, element_step(env, i, parent, inherited, st).3),
{
    let e = env.els[i];
    let tag = e.name;
    let local = collect_style(e);
    let eff = pm_extend(inherited, local);
    let (id, s1) = node_id(st, e, tag);
    assert(keeps(st, s1));
    if !non_rendering(local, tag) {
        let props = preserve(env, e, ins(Seq::empty(), "svg-source-tag"@, quote_spec(tag)));
        let (kind, p1, s2) = shape(env, s1, e, tag, eff, props, id);
        lemma_shape_keeps(env, s1, e, tag, eff, props, id);
        lemma_keeps_trans(st, s1, s2);
        let s3 = if attr(e, "transform"@) is Some {
            warn(s2, "S130"@, "transform is preserved as metadata but is not yet baked into geometry"@, id)
        } else {
            s2
        };
        lemma_keeps_trans(st, s2, s3);
        lemma_s131_keeps(s3, e, local, s131_keys(), id);
        lemma_keeps_trans(st, s3, checks(s2, e, local, id));
    }
}

proof fn lemma_visit_keeps(env: EnvV, i: int, parent: Seq<char>, inherited: PMap, st: St)
    ensures
        keeps(st, visit(env, i, parent, inherited, st)),
    decreases env.els.len() - i, env.els.len() + 1 - i,
{
    if 0 <= i < env.els.len() {
        let (stop, id, eff, s1) = element_step(env, i, parent, inherited, st);
        lemma_step_keeps(env, i, parent, inherited, st);
        if !stop {
            lemma_children_keep(env, i, i + 1, id, eff, s1);
            lemma_keeps_trans(st, s1, visit_children(env, i, i + 1, id, eff, s1));
        }
    }
}

proof fn lemma_children_keep(env: EnvV, i: int, j: int, id: Seq<char>, eff: PMap, st: St)
    ensures
        keeps(st, visit_children(env, i, j, id, eff, st)),
    decreases env.els.len() - i, env.els.len() - j,
{
    if !(i < 0 || j <= i || j >= env.els.len()) {
        if env.els[j].parent == Some(env.els[i].id) {
            let s1 = visit(env, j, id, eff, st);
            lemma_visit_keeps(env, j, id, eff, st);
            lemma_children_keep(env, i, j + 1, id, eff, s1);
            lemma_keeps_trans(st, s1, visit_children(env, i, j + 1, id, eff, s1));
        } else {
            lemma_children_keep(env, i, j + 1, id, eff, st);
        }
    }
}

/// Importing an element and its subtree never drops or changes a
/// diagnostic reported before; it only adds new ones after them.
pub proof fn law_visit_keeps_diagnostics(env: EnvV, i: int, parent: Seq<char>, inherited: PMap, st: St)
    ensures
        keeps(st, visit(env, i, parent, inherited, st)),
{
    lemma_visit_keeps(env, i, parent, inherited, st);
}

/// An imported element that carries a `transform` is never silent about
/// it: its import reports an `S130` warning that names the element.
pub proof fn law_transform_is_diagnosed(env: EnvV, i: int, parent: Seq<char>, inherited: PMap, st: St)
    requires
        0 <= i < env.els.len(),
        attr(env.els[i], "transform"@) is Some,
        !non_rendering(collect_style(env.els[i]), env.els[i].name),
    ensures
        ({
            let (stop, id, eff, s) = element_step(env, i, parent, inherited, st);
            s.diags.contains(DiagV {
                severity: "warning"@,
                code: "S130"@,
                message: "transform is preserved as metadata but is not yet baked into geometry"@,
                element: Some(id),
            })
        }),
{
    let e = env.els[i];
    let tag = e.name;
    let local = collect_style(e);
    let eff = pm_extend(inherited, local);
    let (id, s1) = node_id(st, e, tag);
    let props = preserve(env, e, ins(Seq::empty(), "svg-source-tag"@, quote_spec(tag)));
    let (kind, p1, s2) = shape(env, s1, e, tag, eff, props, id);
    let s3 = warn(s2, "S130"@, "transform is preserved as metadata but is not yet baked into geometry"@, id);
    lemma_s131_keeps(s3, e, local, s131_keys(), id);
    let s4 = checks(s2, e, local, id);
    let k = s2.diags.len() as int;
    assert(s3.diags[k] == s4.diags[k]);
    let s = element_step(env, i, parent, inherited, st).3;
    assert(s.diags[k] == s4.diags[k]);
}

// ---------------------------------------------------------------------------
// How many declarations an import adds

/// Whether two states hold the same declarations and relations.
pub open spec fn same_graph(a: St, b: St) -> bool {
    a.decls == b.decls && a.rels == b.rels
}

proof fn lemma_rect_graph(env: EnvV, st: St, e: ElementView, eff: PMap, props: PMap, id: Seq<char>)
    ensures
        same_graph(st, rect_shape(env, st, e, eff, props, id).1),
{
    let (x, s1) = len(env, st, e, "x"@, Axis::X, id);
    let (y, s2) = len(env, s1, e, "y"@, Axis::Y, id);
    let (w, s3) = len(env, s2, e, "width"@, Axis::X, id);
    let (h, s4) = len(env, s3, e, "height"@, Axis::Y, id);
    assert(same_graph(st, s1));
    assert(same_graph(st, s2));
    assert(same_graph(st, s3));
    assert(same_graph(st, s4));
    let s5 = if attr(e, "rx"@) is Some || attr(e, "ry"@) is Some {
        warn(s4, "S210"@, "rounded rectangle radii are preserved but not rendered yet"@, id)
    } else {
        s4
    };
    assert(same_graph(st, s5));
    let p1 = ins(ins(props, "position"@, pair(x, y)), "size"@, pair(crate::length::px_max0(w), crate::length::px_max0(h)));
    assert(same_graph(s5, paint(env, s5, eff, p1, id).1));
}

proof fn lemma_circle_graph(env: EnvV, st: St, e: ElementView, eff: PMap, props: PMap, id: Seq<char>)
    ensures
        same_graph(st, circle_shape(env, st, e, eff, props, id).1),
{
}

proof fn lemma_ellipse_graph(env: EnvV, st: St, e: ElementView, eff: PMap, props: PMap, id: Seq<char>)
    ensures
        same_graph(st, ellipse_shape(env, st, e, eff, props, id).1),
{
}

proof fn lemma_path_graph(env: EnvV, st: St, e: ElementView, eff: PMap, props: PMap, id: Seq<char>)
    ensures
        same_graph(st, path_shape(env, st, e, eff, props, id).1),
{
}

proof fn lemma_line_graph(env: EnvV, st: St, e: ElementView, eff: PMap, props: PMap, id: Seq<char>)
    ensures
        same_graph(st, line_shape(env, st, e, eff, props, id).1),
{
}

proof fn lemma_text_graph(env: EnvV, st: St, e: ElementView, eff: PMap, props: PMap, id: Seq<char>)
    ensures
        same_graph(st, text_shape(env, st, e, eff, props, id).1),
{
}

proof fn lemma_poly_graph(env: EnvV, st: St, e: ElementView, tag: Seq<char>, eff: PMap, props: PMap, id: Seq<char>)
    ensures
        same_graph(st, poly_shape(env, st, e, tag, eff, props, id).1),
{
}

proof fn lemma_shape_graph(env: EnvV, st: St, e: ElementView, tag: Seq<char>, eff: PMap, props: PMap, id: Seq<char>)
    ensures
        same_graph(st, shape(env, st, e, tag, eff, props, id).2),
{
    if tag == "g"@ || tag == "symbol"@ {
    } else if tag == "rect"@ {
        lemma_rect_graph(env, st, e, eff, props, id);
    } else if tag == "circle"@ {
        lemma_circle_graph(env, st, e, eff, props, id);
    } else if tag == "ellipse"@ {
        lemma_ellipse_graph(env, st, e, eff, props, id);
    } else if tag == "path"@ {
        lemma_path_graph(env, st, e, eff, props, id);
    } else if tag == "line"@ {
        lemma_line_graph(env, st, e, eff, props, id);
    } else if tag == "polyline"@ || tag == "polygon"@ {
        lemma_poly_graph(env, st, e, tag, eff, props, id);
    } else if tag == "text"@ || tag == "tspan"@ {
        lemma_text_graph(env, st, e, eff, props, id);
    }
}

/// How many declarations importing element `i` adds: one for the element,
/// and one for each element of its subtree unless the element is a
/// non-rendering one (`defs`, `metadata`, `title`, `desc`, or
/// `display: none`), whose subtree is kept as metadata of that one.
pub open spec fn subtree_size(env: EnvV, i: int) -> nat
    decreases env.els.len() - i, env.els.len() + 1 - i,
{
    if i < 0 || i >= env.els.len() {
        0
    } else if non_rendering(collect_style(env.els[i]), env.els[i].name) {
        1
    } else {
        1 + children_size(env, i, i + 1)
    }
}

/// How many declarations the children of element `i` from index `j` on add.
pub open spec fn children_size(env: EnvV, i: int, j: int) -> nat
    decreases env.els.len() - i, env.els.len() - j,
{
    if i < 0 || j <= i || j >= env.els.len() {
        0
    } else if env.els[j].parent == Some(env.els[i].id) {
        subtree_size(env, j) + children_size(env, i, j + 1)
    } else {
        children_size(env, i, j + 1)
    }
}

/// `b` extends the declarations and relations of `a` by `n` each, the k-th
/// new relation leading to the k-th new declaration.
pub open spec fn grows_by(a: St, b: St, n: nat) -> bool {
    &&& b.decls.len() == a.decls.len() + n
    &&& b.rels.len() == a.rels.len() + n
    &&& b.decls.subrange(0, a.decls.len() as int) == a.decls
    &&& b.rels.subrange(0, a.rels.len() as int) == a.rels
    &&& forall|k: int| 0 <= k < n ==> (#[trigger] b.rels[a.rels.len() + k]).1 == b.decls[a.decls.len() + k].id
}

proof fn lemma_grows_trans(a: St, b: St, c: St, n: nat, m: nat)
    requires
        grows_by(a, b, n),
        grows_by(b, c, m),
    ensures
        grows_by(a, c, n + m),
{
    assert(c.decls.subrange(0, a.decls.len() as int) =~= c.decls.subrange(0, b.decls.len() as int).subrange(0, a.decls.len() as int));
    assert(c.rels.subrange(0, a.rels.len() as int) =~= c.rels.subrange(0, b.rels.len() as int).subrange(0, a.rels.len() as int));
    assert forall|k: int| 0 <= k < n + m implies (#[trigger] c.rels[a.rels.len() + k]).1 == c.decls[a.decls.len() + k].id by {
        if k < n {
            assert(c.rels[a.rels.len() + k] == c.rels.subrange(0, b.rels.len() as int)[a.rels.len() + k]);
            assert(c.decls[a.decls.len() + k] == c.decls.subrange(0, b.decls.len() as int)[a.decls.len() + k]);
            assert(b.rels[a.rels.len() + k].1 == b.decls[a.decls.len() + k].id);
        } else {
            assert(c.rels[b.rels.len() + (k - n)].1 == c.decls[b.decls.len() + (k - n)].id);
            assert(a.rels.len() + k == b.rels.len() + (k - n));
            assert(a.decls.len() + k == b.decls.len() + (k - n));
        }
    }
}

proof fn lemma_step_declares(env: EnvV, i: int, parent: Seq<char>, inherited: PMap, st: St)
    requires
        0 <= i < env.els.len(),
    ensures
        ({
            let (stop, id, eff, s) = element_step(env, i, parent, inherited, st);
            &&& grows_by(st, s, 1)
            &&& s.rels[st.rels.len() as int].0 == parent
            &&& s.decls[st.decls.len() as int].id == id
            &&& stop == non_rendering(collect_style(env.els[i]), env.els[i].name)
        }),
{
    let e = env.els[i];
    let tag = e.name;
    let local = collect_style(e);
    let eff = pm_extend(inherited, local);
    let (id, s1) = node_id(st, e, tag);
    assert(same_graph(st, s1));
    if !non_rendering(local, tag) {
        let props = preserve(env, e, ins(Seq::empty(), "svg-source-tag"@, quote_spec(tag)));
        let (kind, p1, s2) = shape(env, s1, e, tag, eff, props, id);
        lemma_shape_graph(env, s1, e, tag, eff, props, id);
        lemma_s131_graph(if attr(e, "transform"@) is Some {
            warn(s2, "S130"@, "transform is preserved as metadata but is not yet baked into geometry"@, id)
        } else {
            s2
        }, e, local, s131_keys(), id);
        assert(same_graph(s2, checks(s2, e, local, id)));
    }
    let s = element_step(env, i, parent, inherited, st).3;
    assert(s.decls.subrange(0, st.decls.len() as int) =~= st.decls);
    assert(s.rels.subrange(0, st.rels.len() as int) =~= st.rels);
    assert(s.rels[st.rels.len() + 0int] == s.rels[st.rels.len() as int]);
}

proof fn lemma_s131_graph(st: St, e: ElementView, local: PMap, keys: Seq<Seq<char>>, id: Seq<char>)
    ensures
        same_graph(st, s131_checks(st, e, local, keys, id)),
    decreases keys.len(),
{
    if keys.len() > 0 {
        lemma_s131_graph(st, e, local, keys.drop_last(), id);
    }
}

#[verifier::spinoff_prover]
#[verifier::rlimit(100)]
proof fn lemma_visit_declares(env: EnvV, i: int, parent: Seq<char>, inherited: PMap, st: St)
    ensures
        grows_by(st, visit(env, i, parent, inherited, st), subtree_size(env, i)),
        subtree_size(env, i) > 0 ==> visit(env, i, parent, inherited, st).rels[st.rels.len() as int].0 == parent,
    decreases env.els.len() - i, env.els.len() + 1 - i,
{
    if 0 <= i < env.els.len() {
        let (stop, id, eff, s1) = element_step(env, i, parent, inherited, st);
        lemma_step_declares(env, i, parent, inherited, st);
        if !stop {
            let r = visit_children(env, i, i + 1, id, eff, s1);
            lemma_children_declare(env, i, i + 1, id, eff, s1);
            lemma_grows_trans(st, s1, r, 1, children_size(env, i, i + 1));
            assert(r.rels[st.rels.len() as int] == r.rels.subrange(0, s1.rels.len() as int)[st.rels.len() as int]);
        }
    } else {
        assert(st.decls.subrange(0, st.decls.len() as int) =~= st.decls);
        assert(st.rels.subrange(0, st.rels.len() as int) =~= st.rels);
    }
}

proof fn lemma_children_declare(env: EnvV, i: int, j: int, id: Seq<char>, eff: PMap, st: St)
    ensures
        grows_by(st, visit_children(env, i, j, id, eff, st), children_size(env, i, j)),
    decreases env.els.len() - i, env.els.len() - j,
{
    if !(i < 0 || j <= i || j >= env.els.len()) {
        if env.els[j].parent == Some(env.els[i].id) {
            let s1 = visit(env, j, id, eff, st);
            lemma_visit_declares(env, j, id, eff, st);
            lemma_children_declare(env, i, j + 1, id, eff, s1);
            lemma_grows_trans(st, s1, visit_children(env, i, j + 1, id, eff, s1), subtree_size(env, j), children_size(env, i, j + 1));
        } else {
            lemma_children_declare(env, i, j + 1, id, eff, st);
        }
    } else {
        assert(st.decls.subrange(0, st.decls.len() as int) =~= st.decls);
        assert(st.rels.subrange(0, st.rels.len() as int) =~= st.rels);
    }
}

/// Each of the first `n` new relations of `b` over `a` comes from `pid` or
/// from a declaration added before the one it leads to.
pub open spec fn linked(a: St, b: St, n: nat, pid: Seq<char>) -> bool {
    forall|k: int| 0 <= k < n ==> (#[trigger] b.rels[a.rels.len() + k]).0 == pid || exists|j: int|
        0 <= j < k && b.rels[a.rels.len() + k].0 == (#[trigger] b.decls[a.decls.len() + j]).id
}

/// The new relations of a subtree: the first from `parent`, each later one
/// from a declaration added before the one it leads to.
pub open spec fn rooted(a: St, b: St, n: nat, parent: Seq<char>) -> bool {
    &&& n > 0 ==> b.rels[a.rels.len() as int].0 == parent
    &&& forall|k: int| 0 < k < n ==> exists|j: int|
        0 <= j < k && (#[trigger] b.rels[a.rels.len() + k]).0 == (#[trigger] b.decls[a.decls.len() + j]).id
}

proof fn lemma_linked_concat(a: St, b: St, c: St, n: nat, m: nat, pid: Seq<char>)
    requires
        grows_by(a, b, n),
        grows_by(b, c, m),
        linked(a, b, n, pid),
        linked(b, c, m, pid),
    ensures
        linked(a, c, n + m, pid),
{
    assert forall|k: int| 0 <= k < n + m implies (#[trigger] c.rels[a.rels.len() + k]).0 == pid || exists|j: int|
        0 <= j < k && c.rels[a.rels.len() + k].0 == (#[trigger] c.decls[a.decls.len() + j]).id by {
        if k < n {
            assert(c.rels[a.rels.len() + k] == c.rels.subrange(0, b.rels.len() as int)[a.rels.len() + k]);
            if b.rels[a.rels.len() + k].0 != pid {
                let j = choose|j: int| 0 <= j < k && b.rels[a.rels.len() + k].0 == (#[trigger] b.decls[a.decls.len() + j]).id;
                assert(c.decls[a.decls.len() + j] == c.decls.subrange(0, b.decls.len() as int)[a.decls.len() + j]);
            }
        } else {
            let k2 = k - n;
            assert(a.rels.len() + k == b.rels.len() + k2);
            assert(c.rels[b.rels.len() + k2] == c.rels[a.rels.len() + k]);
            if c.rels[b.rels.len() + k2].0 != pid {
                let j2 = choose|j: int| 0 <= j < k2 && c.rels[b.rels.len() + k2].0 == (#[trigger] c.decls[b.decls.len() + j]).id;
                assert(b.decls.len() + j2 == a.decls.len() + (n + j2));
                assert(c.decls[a.decls.len() + (n + j2)] == c.decls[b.decls.len() + j2]);
            }
        }
    }
}

proof fn lemma_rooted_linked(a: St, b: St, n: nat, parent: Seq<char>)
    requires
        rooted(a, b, n, parent),
    ensures
        linked(a, b, n, parent),
{
    assert forall|k: int| 0 <= k < n implies (#[trigger] b.rels[a.rels.len() + k]).0 == parent || exists|j: int|
        0 <= j < k && b.rels[a.rels.len() + k].0 == (#[trigger] b.decls[a.decls.len() + j]).id by {
        if k == 0 {
            assert(a.rels.len() + k == a.rels.len() as int);
        } else {
            let j = choose|j: int| 0 <= j < k && (#[trigger] b.rels[a.rels.len() + k]).0 == (#[trigger] b.decls[a.decls.len() + j]).id;
            assert(0 <= j < k && b.rels[a.rels.len() + k].0 == b.decls[a.decls.len() + j].id);
        }
    }
}

/// After an element's own declaration, relations linked to it make the
/// whole rooted at its parent.
proof fn lemma_rooted_step(a: St, b: St, c: St, m: nat, parent: Seq<char>, id: Seq<char>)
    requires
        grows_by(a, b, 1),
        grows_by(b, c, m),
        b.rels[a.rels.len() as int].0 == parent,
        b.decls[a.decls.len() as int].id == id,
        linked(b, c, m, id),
    ensures
        rooted(a, c, 1 + m, parent),
{
    assert(c.rels[a.rels.len() as int] == c.rels.subrange(0, b.rels.len() as int)[a.rels.len() as int]);
    assert(c.decls[a.decls.len() + 0int] == c.decls.subrange(0, b.decls.len() as int)[a.decls.len() as int]);
    assert forall|k: int| 0 < k < 1 + m implies exists|j: int|
        0 <= j < k && (#[trigger] c.rels[a.rels.len() + k]).0 == (#[trigger] c.decls[a.decls.len() + j]).id by {
        let k2 = k - 1;
        assert(a.rels.len() + k == b.rels.len() + k2);
        if c.rels[b.rels.len() + k2].0 == id {
            assert(c.rels[a.rels.len() + k].0 == c.decls[a.decls.len() + 0int].id);
        } else {
            let j2 = choose|j: int| 0 <= j < k2 && c.rels[b.rels.len() + k2].0 == (#[trigger] c.decls[b.decls.len() + j]).id;
            assert(b.decls.len() + j2 == a.decls.len() + (1 + j2));
            assert(c.rels[a.rels.len() + k].0 == c.decls[a.decls.len() + (1 + j2)].id);
        }
    }
}

#[verifier::spinoff_prover]
#[verifier::rlimit(100)]
proof fn lemma_visit_rooted(env: EnvV, i: int, parent: Seq<char>, inherited: PMap, st: St)
    ensures
        rooted(st, visit(env, i, parent, inherited, st), subtree_size(env, i), parent),
    decreases env.els.len() - i, env.els.len() + 1 - i,
{
    if 0 <= i < env.els.len() {
        let (stop, id, eff, s1) = element_step(env, i, parent, inherited, st);
        lemma_step_declares(env, i, parent, inherited, st);
        if !stop {
            let r = visit_children(env, i, i + 1, id, eff, s1);
            lemma_children_declare(env, i, i + 1, id, eff, s1);
            lemma_children_linked(env, i, i + 1, id, eff, s1);
            lemma_rooted_step(st, s1, r, children_size(env, i, i + 1), parent, id);
        } else {
            assert(s1.decls.subrange(0, s1.decls.len() as int) =~= s1.decls);
            assert(s1.rels.subrange(0, s1.rels.len() as int) =~= s1.rels);
            lemma_rooted_step(st, s1, s1, 0, parent, id);
        }
    }
}

proof fn lemma_children_linked(env: EnvV, i: int, j: int, id: Seq<char>, eff: PMap, st: St)
    ensures
        linked(st, visit_children(env, i, j, id, eff, st), children_size(env, i, j), id),
    decreases env.els.len() - i, env.els.len() - j,
{
    if !(i < 0 || j <= i || j >= env.els.len()) {
        if env.els[j].parent == Some(env.els[i].id) {
            let s1 = visit(env, j, id, eff, st);
            lemma_visit_declares(env, j, id, eff, st);
            lemma_visit_rooted(env, j, id, eff, st);
            lemma_rooted_linked(st, s1, subtree_size(env, j), id);
            let r = visit_children(env, i, j + 1, id, eff, s1);
            lemma_children_declare(env, i, j + 1, id, eff, s1);
            lemma_children_linked(env, i, j + 1, id, eff, s1);
            lemma_linked_concat(st, s1, r, subtree_size(env, j), children_size(env, i, j + 1), id);
        } else {
            lemma_children_linked(env, i, j + 1, id, eff, st);
        }
    }
}

/// Importing element `i` adds exactly `subtree_size(env, i)` declarations
/// and as many relations after the ones already there, which stay as they
/// were; the k-th new relation leads to the k-th new declaration; the first
/// comes from `parent`, and each later one from a declaration added before
/// the one it leads to.
pub proof fn law_visit_declares(env: EnvV, i: int, parent: Seq<char>, inherited: PMap, st: St)
    ensures
        grows_by(st, visit(env, i, parent, inherited, st), subtree_size(env, i)),
        rooted(st, visit(env, i, parent, inherited, st), subtree_size(env, i), parent),
        0 <= i < env.els.len() ==> subtree_size(env, i) >= 1,
{
    lemma_visit_declares(env, i, parent, inherited, st);
    lemma_visit_rooted(env, i, parent, inherited, st);
}

/// The style an element hands to its children: for each property, the
/// element's own value where it sets one (the last, where it sets it
/// twice), and otherwise the value it inherited.
pub proof fn law_style_inheritance(env: EnvV, i: int, parent: Seq<char>, inherited: PMap, st: St, q: Seq<char>)
    requires
        0 <= i < env.els.len(),
    ensures
        pm_get(element_step(env, i, parent, inherited, st).2, q) == match crate::props::last_value(collect_style(env.els[i]), q) {
            Some(v) => Some(v),
            None => pm_get(inherited, q),
        },
{
    crate::props::law_extend_overrides(inherited, collect_style(env.els[i]), q);
}

} // verus!
