//! The public SVG import: the v4 import, then opacity given through inline
//! `style` as native properties, then reusable resources as native
//! resource-only declarations.
use vstd::prelude::*;
pub use crate::svg_import::{ImportDiagnostic, ImportOptions, ImportResult};
pub use crate::svg_native::strip_svg_provenance;
use crate::formatter::{line_views, lines, split_lines};
use crate::srctext::{contains, lead_len, lead_len_exec, starts_with, starts_with_exec, trim_start};
use crate::svg_import::{diag_view, diags_of, DiagV};
use crate::svg_v4::{as_info, import_v4_spec, v4_sliceable};
use crate::text::{append_chars, append_str, chars_of, string_of, sub_chars};

verus! {

pub open spec fn style_from(i: int) -> Seq<char> {
    if i == 0 { "svg-opacity:"@ } else if i == 1 { "svg-fill-opacity:"@ } else { "svg-stroke-opacity:"@ }
}

pub open spec fn style_to(i: int) -> Seq<char> {
    if i == 0 { "opacity:"@ } else if i == 1 { "fill-opacity:"@ } else { "stroke-opacity:"@ }
}

/// The native key of the first style compatibility prefix of `t` among
/// those from `i` on, and the rest of the line after it.
pub open spec fn style_alias(t: Seq<char>, i: int) -> Option<(Seq<char>, Seq<char>)>
    decreases 3 - i,
{
    if i < 0 || i >= 3 {
        None
    } else if starts_with(t, style_from(i)) {
        Some((style_to(i), t.subrange(style_from(i).len() as int, t.len() as int)))
    } else {
        style_alias(t, i + 1)
    }
}

/// A line, then its native alias when it is a style compatibility line.
pub open spec fn style_line(line: Seq<char>) -> Seq<char> {
    line + "\n"@ + match style_alias(trim_start(line), 0) {
        Some((to, rest)) => line.subrange(0, lead_len(line)) + to + rest + "\n"@,
        None => Seq::empty(),
    }
}

pub open spec fn style_lines(ls: Seq<Seq<char>>) -> Seq<char>
    decreases ls.len(),
{
    if ls.len() == 0 {
        Seq::empty()
    } else {
        style_lines(ls.drop_last()) + style_line(ls.last())
    }
}

/// Whether a line of the text sets a native opacity.
pub open spec fn has_opacity(source: Seq<char>) -> bool {
    exists|k: int| 0 <= k < lines(source).len() && opacity_line(#[trigger] lines(source)[k])
}

pub open spec fn opacity_line(l: Seq<char>) -> bool {
    let t = trim_start(l);
    starts_with(t, "opacity:"@) || starts_with(t, "fill-opacity:"@) || starts_with(t, "stroke-opacity:"@)
}

pub open spec fn opacity_info(d: DiagV) -> DiagV {
    if d.code == "S131"@ && contains(d.message, "opacity"@) {
        as_info(d, "opacity is represented by native SRNG opacity semantics"@)
    } else {
        d
    }
}

/// The public import: source text and diagnostics.
pub open spec fn import_spec(svg: Seq<char>, name: Seq<char>, file_id: Option<Seq<char>>, keep: bool) -> (Seq<char>, Seq<DiagV>) {
    let (s0, d0) = import_v4_spec(svg, name, file_id, keep);
    let s1 = style_lines(lines(s0));
    let (s2, d1) = crate::svg_resource::reusable_spec(svg, s1);
    let ds = d0 + d1;
    (s2, if has_opacity(s2) { ds.map_values(|d: DiagV| opacity_info(d)) } else { ds })
}

fn style_alias_exec(t: &Vec<char>) -> (r: Option<(&'static str, Vec<char>)>)
    ensures
        match style_alias(t@, 0) {
            Some((to, rest)) => r is Some && r.unwrap().0@ == to && r.unwrap().1@ == rest,
            None => r is None,
        },
{
    proof {
        reveal_strlit("svg-opacity:");
        reveal_strlit("svg-fill-opacity:");
        reveal_strlit("svg-stroke-opacity:");
        reveal_strlit("opacity:");
        reveal_strlit("fill-opacity:");
        reveal_strlit("stroke-opacity:");
        reveal_with_fuel(style_alias, 4);
    }
    if starts_with_exec(t, "svg-opacity:") {
        Some(("opacity:", sub_chars(t, 12, t.len())))
    } else if starts_with_exec(t, "svg-fill-opacity:") {
        Some(("fill-opacity:", sub_chars(t, 17, t.len())))
    } else if starts_with_exec(t, "svg-stroke-opacity:") {
        Some(("stroke-opacity:", sub_chars(t, 19, t.len())))
    } else {
        None
    }
}

/// Adds a native opacity line after each style compatibility opacity line.
pub fn promote_style_semantics(source: &Vec<char>) -> (r: Vec<char>)
    ensures
        r@ == style_lines(lines(source@)),
{
    let ls = split_lines(source);
    let ghost lv = line_views(ls@);
    let mut out: Vec<char> = Vec::new();
    let mut i: usize = 0;
    while i < ls.len()
        invariant
            i <= ls@.len(),
            lv == line_views(ls@),
            out@ == style_lines(lv.subrange(0, i as int)),
        decreases ls@.len() - i,
    {
        assert(lv.subrange(0, i + 1).drop_last() =~= lv.subrange(0, i as int));
        assert(lv[i as int] == ls@[i as int]@);
        let ghost before = out@;
        let line = &ls[i];
        let lead = lead_len_exec(line);
        let t = sub_chars(line, lead, line.len());
        append_chars(&mut out, line);
        out.push('\n');
        match style_alias_exec(&t) {
            Some((to, rest)) => {
                append_chars(&mut out, &sub_chars(line, 0, lead));
                append_str(&mut out, to);
                append_chars(&mut out, &rest);
                out.push('\n');
            },
            None => {},
        }
        proof {
            reveal_strlit("\n");
        }
        assert(out@ =~= before + style_line(lv[i as int]));
        i += 1;
    }
    assert(lv.subrange(0, ls@.len() as int) =~= lv);
    out
}

fn has_opacity_exec(source: &Vec<char>) -> (b: bool)
    ensures
        b == has_opacity(source@),
{
    let ls = split_lines(source);
    let ghost lv = line_views(ls@);
    let mut k: usize = 0;
    while k < ls.len()
        invariant
            k <= ls@.len(),
            lv == line_views(ls@),
            lv == lines(source@),
            forall|j: int| 0 <= j < k ==> !opacity_line(#[trigger] lv[j]),
        decreases ls@.len() - k,
    {
        assert(lv[k as int] == ls@[k as int]@);
        let lead = lead_len_exec(&ls[k]);
        let t = sub_chars(&ls[k], lead, ls[k].len());
        if starts_with_exec(&t, "opacity:") || starts_with_exec(&t, "fill-opacity:") || starts_with_exec(&t, "stroke-opacity:") {
            assert(opacity_line(lv[k as int]));
            return true;
        }
        k += 1;
    }
    false
}

fn opacity_info_exec(d: &mut ImportDiagnostic)
    ensures
        diag_view(*final(d)) == opacity_info(diag_view(*old(d))),
{
    if crate::svg_v4::is_text(&chars_of(d.code.as_str()), "S131") && crate::srctext::contains_exec(&chars_of(d.message.as_str()), "opacity") {
        d.severity = crate::text::chars_to_string_lit("info");
        d.message = crate::text::chars_to_string_lit("opacity is represented by native SRNG opacity semantics");
    }
}

/// Imports SVG as SRNG source with every supported semantic native:
/// geometry, paint, masks and patterns, viewBox, transforms, opacity,
/// typography, images, gradients, filters, `<use>` references and reusable
/// resources; SVG provenance is kept alongside.
pub fn import_svg(svg: &str, source_name: &str, options: &ImportOptions) -> (r: ImportResult)
    requires
        v4_sliceable(svg@),
    ensures
        (r.source@, diags_of(r.diagnostics@)) == import_spec(svg@, source_name@, crate::xml::opt_str_view(options.file_id),
            options.preserve_source_attributes),
{
    let base = crate::svg_v4::import_svg(svg, source_name, options);
    let s1 = promote_style_semantics(&chars_of(base.source.as_str()));
    let mut diags = base.diagnostics;
    let s2 = crate::svg_resource::promote_reusable_resources(svg, &s1, &mut diags);
    if has_opacity_exec(&s2) {
        let ghost dv0 = diags_of(diags@);
        let mut k: usize = 0;
        while k < diags.len()
            invariant
                k <= diags@.len(),
                diags@.len() == dv0.len(),
                forall|j: int| 0 <= j < k ==> #[trigger] diag_view(diags@[j]) == opacity_info(dv0[j]),
                forall|j: int| k <= j < diags@.len() ==> #[trigger] diag_view(diags@[j]) == dv0[j],
            decreases diags@.len() - k,
        {
            let mut d = crate::svg_import::copy_diag(&diags[k]);
            opacity_info_exec(&mut d);
            diags.set(k, d);
            k += 1;
        }
        assert(diags_of(diags@) =~= dv0.map_values(|d: DiagV| opacity_info(d)));
    }
    ImportResult { source: string_of(&s2), diagnostics: diags }
}

/// The public import for every document: nothing when a gradient stop
/// colour of `svg` cannot be read.
pub fn import_svg_checked(svg: &str, source_name: &str, options: &ImportOptions) -> (r: Option<ImportResult>)
    ensures
        match r {
            Some(res) => v4_sliceable(svg@) && (res.source@, diags_of(res.diagnostics@)) == import_spec(svg@, source_name@,
                crate::xml::opt_str_view(options.file_id), options.preserve_source_attributes),
            None => !v4_sliceable(svg@),
        },
{
    if crate::svg_v4::v4_sliceable_exec(svg) {
        Some(import_svg(svg, source_name, options))
    } else {
        None
    }
}

} // verus!
