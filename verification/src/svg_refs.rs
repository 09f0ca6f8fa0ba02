//! Resource references of imported SVG: a paint `url(#id)` that names a
//! `<pattern>` gets the pattern's id, tile size and source next to it, and a
//! mask `url(#id)` that names a mask of opaque white shapes is marked as a
//! binary clip.
use vstd::prelude::*;
use crate::formatter::{line_views, lines, split_lines};
use crate::resources::{quote, quote_spec};
use crate::srctext::{ends_with, ends_with_exec, lead_len, lead_len_exec, starts_with, starts_with_exec, trim_start};
use crate::text::{append_chars, append_str, chars_of, sub_chars};
use crate::xml::{attr, element_view, elements_view, get_attr, parse_xml, source_text, text_range, xml_elements, ElementView, XmlElement};

verus! {

/// The id in a line `prefix + id + ")";`.
pub open spec fn url_ref(t: Seq<char>, prefix: Seq<char>) -> Option<Seq<char>> {
    if starts_with(t, prefix) && ends_with(t, ")\";"@) && t.len() >= prefix.len() + 3 {
        Some(t.subrange(prefix.len() as int, t.len() - 3))
    } else {
        None
    }
}

/// The first element from `k` on named `name` whose `id` is `id`, or the
/// number of elements.
pub open spec fn find_named(els: Seq<ElementView>, name: Seq<char>, id: Seq<char>, k: int) -> int
    decreases els.len() - k,
{
    if k < 0 || k >= els.len() {
        els.len() as int
    } else if els[k].name == name && attr(els[k], "id"@) == Some(id) {
        k
    } else {
        find_named(els, name, id, k + 1)
    }
}

pub open spec fn is_white(v: Seq<char>) -> bool {
    v == "white"@ || v == "#fff"@ || v == "#ffffff"@
}

/// A shape painted opaque white, with no opacity or style of its own.
pub open spec fn white_shape(e: ElementView) -> bool {
    &&& attr(e, "fill"@) matches Some(v) && is_white(v)
    &&& attr(e, "opacity"@) is None
    &&& attr(e, "fill-opacity"@) is None
    &&& attr(e, "style"@) is None
}

pub open spec fn child_of(els: Seq<ElementView>, j: int, i: int) -> bool {
    els[j].parent == Some(els[i].id)
}

/// A mask whose children are all opaque white shapes: it lets through
/// exactly what they cover, as a clip does.
pub open spec fn binary_mask(els: Seq<ElementView>, i: int) -> bool {
    &&& exists|j: int| 0 <= j < els.len() && #[trigger] child_of(els, j, i)
    &&& forall|j: int| 0 <= j < els.len() && #[trigger] child_of(els, j, i) ==> white_shape(els[j])
}

pub open spec fn opt_line(lead: Seq<char>, key: Seq<char>, v: Option<Seq<char>>) -> Seq<char> {
    match v {
        Some(x) => lead + key + quote_spec(x) + ";\n"@,
        None => Seq::empty(),
    }
}

/// The lines added after a paint reference to pattern `id`.
pub open spec fn pattern_extra(svg: Seq<char>, els: Seq<ElementView>, lead: Seq<char>, id: Seq<char>) -> Seq<char> {
    let j = find_named(els, "pattern"@, id, 0);
    if j < els.len() {
        let e = els[j];
        lead + "svg-pattern-ref: "@ + quote_spec(id) + ";\n"@ + opt_line(lead, "svg-pattern-width: "@, attr(e, "width"@))
            + opt_line(lead, "svg-pattern-height: "@, attr(e, "height"@)) + lead + "svg-pattern-source-xml: "@
            + quote_spec(text_range(svg, e.start, e.end)) + ";\n"@
    } else {
        Seq::empty()
    }
}

/// The lines added after a mask reference to mask `id`.
pub open spec fn mask_extra(els: Seq<ElementView>, lead: Seq<char>, id: Seq<char>) -> Seq<char> {
    let j = find_named(els, "mask"@, id, 0);
    if j < els.len() && binary_mask(els, j) {
        lead + "svg-mask-mode: \"binary-opaque-clip\";\n"@ + lead + "clip: "@ + quote_spec(id) + ";\n"@
    } else {
        Seq::empty()
    }
}

/// The lines added after a paint or mask reference line.
pub open spec fn ref_extra(svg: Seq<char>, els: Seq<ElementView>, line: Seq<char>) -> Seq<char> {
    let lead = line.subrange(0, lead_len(line));
    let t = trim_start(line);
    match url_ref(t, "svg-fill: \"url(#"@) {
        Some(id) => pattern_extra(svg, els, lead, id),
        None => match url_ref(t, "svg-attr-mask: \"url(#"@) {
            Some(id) => mask_extra(els, lead, id),
            None => Seq::empty(),
        },
    }
}

pub open spec fn ref_lines(svg: Seq<char>, els: Seq<ElementView>, ls: Seq<Seq<char>>) -> Seq<char>
    decreases ls.len(),
{
    if ls.len() == 0 {
        Seq::empty()
    } else {
        ref_lines(svg, els, ls.drop_last()) + ls.last() + "\n"@ + ref_extra(svg, els, ls.last())
    }
}

/// Every line of the generated source, each followed by the lines its
/// resource reference adds; the source is kept when `svg` does not parse.
pub open spec fn resource_refs(svg: Seq<char>, source: Seq<char>) -> Seq<char> {
    match xml_elements(svg) {
        Ok(els) => ref_lines(svg, els, lines(source)),
        Err(_) => source,
    }
}

fn url_ref_exec(t: &Vec<char>, prefix: &str) -> (r: Option<Vec<char>>)
    ensures
        match url_ref(t@, prefix@) {
            Some(id) => r matches Some(v) && v@ == id,
            None => r is None,
        },
{
    let p = chars_of(prefix);
    if starts_with_exec(t, prefix) && ends_with_exec(t, ")\";") && t.len() >= 3 && t.len() - 3 >= p.len() {
        proof {
            reveal_strlit(")\";");
        }
        Some(sub_chars(t, p.len(), t.len() - 3))
    } else {
        None
    }
}

fn find_named_exec(els: &Vec<XmlElement>, name: &str, id: &Vec<char>) -> (r: usize)
    ensures
        r == find_named(elements_view(els@), name@, id@, 0),
{
    let ghost ev = elements_view(els@);
    let nm = chars_of(name);
    let mut k: usize = 0;
    while k < els.len()
        invariant
            k <= els@.len(),
            ev == elements_view(els@),
            nm@ == name@,
            find_named(ev, name@, id@, 0) == find_named(ev, name@, id@, k as int),
        decreases els@.len() - k,
    {
        assert(ev[k as int] == element_view(els@[k as int]));
        if crate::parser::chars_eq(&chars_of(els[k].name.as_str()), &nm) {
            match get_attr(&els[k], "id") {
                Some(v) => {
                    if crate::parser::chars_eq(&chars_of(v.as_str()), id) {
                        return k;
                    }
                },
                None => {},
            }
        }
        k += 1;
    }
    k
}

fn is_white_exec(v: &String) -> (b: bool)
    ensures
        b == is_white(v@),
{
    let c = chars_of(v.as_str());
    crate::svg_v4::is_text(&c, "white") || crate::svg_v4::is_text(&c, "#fff") || crate::svg_v4::is_text(&c, "#ffffff")
}

fn white_shape_exec(e: &XmlElement) -> (b: bool)
    ensures
        b == white_shape(element_view(*e)),
{
    let fill_ok = match get_attr(e, "fill") {
        Some(v) => is_white_exec(&v),
        None => false,
    };
    fill_ok && get_attr(e, "opacity").is_none() && get_attr(e, "fill-opacity").is_none() && get_attr(e, "style").is_none()
}

fn binary_mask_exec(els: &Vec<XmlElement>, i: usize) -> (b: bool)
    requires
        i < els@.len(),
    ensures
        b == binary_mask(elements_view(els@), i as int),
{
    let ghost ev = elements_view(els@);
    let mut has = false;
    let mut j: usize = 0;
    while j < els.len()
        invariant
            j <= els@.len(),
            i < els@.len(),
            ev == elements_view(els@),
            has <==> exists|k: int| 0 <= k < j && #[trigger] child_of(ev, k, i as int),
            forall|k: int| 0 <= k < j && #[trigger] child_of(ev, k, i as int) ==> white_shape(ev[k]),
        decreases els@.len() - j,
    {
        assert(ev[j as int] == element_view(els@[j as int]));
        assert(ev[i as int] == element_view(els@[i as int]));
        if els[j].parent == Some(els[i].id) {
            assert(child_of(ev, j as int, i as int));
            if !white_shape_exec(&els[j]) {
                return false;
            }
            has = true;
        }
        j += 1;
    }
    has
}

fn push_line(out: &mut Vec<char>, lead: &Vec<char>, key: &str, quoted: &String)
    ensures
        final(out)@ == old(out)@ + lead@ + key@ + quoted@ + ";\n"@,
{
    append_chars(out, lead);
    append_str(out, key);
    append_chars(out, &chars_of(quoted.as_str()));
    append_str(out, ";\n");
}

#[verifier::spinoff_prover]
#[verifier::rlimit(40)]
fn pattern_extra_exec(svg: &str, els: &Vec<XmlElement>, lead: &Vec<char>, id: &Vec<char>, out: &mut Vec<char>)
    ensures
        final(out)@ == old(out)@ + pattern_extra(svg@, elements_view(els@), lead@, id@),
{
    let ghost ev = elements_view(els@);
    let j = find_named_exec(els, "pattern", id);
    if j < els.len() {
        assert(ev[j as int] == element_view(els@[j as int]));
        let e = &els[j];
        let ids = crate::text::string_of(id);
        push_line(out, lead, "svg-pattern-ref: ", &quote(ids.as_str()));
        match get_attr(e, "width") {
            Some(w) => push_line(out, lead, "svg-pattern-width: ", &quote(w.as_str())),
            None => {},
        }
        match get_attr(e, "height") {
            Some(h) => push_line(out, lead, "svg-pattern-height: ", &quote(h.as_str())),
            None => {},
        }
        let xml = source_text(svg, e.start, e.end);
        push_line(out, lead, "svg-pattern-source-xml: ", &quote(xml.as_str()));
        proof {
            reveal_strlit("");
        }
    }
}

fn mask_extra_exec(els: &Vec<XmlElement>, lead: &Vec<char>, id: &Vec<char>, out: &mut Vec<char>)
    ensures
        final(out)@ == old(out)@ + mask_extra(elements_view(els@), lead@, id@),
{
    let j = find_named_exec(els, "mask", id);
    if j < els.len() && binary_mask_exec(els, j) {
        append_chars(out, lead);
        append_str(out, "svg-mask-mode: \"binary-opaque-clip\";\n");
        let ids = crate::text::string_of(id);
        push_line(out, lead, "clip: ", &quote(ids.as_str()));
    }
}

fn ref_extra_exec(svg: &str, els: &Vec<XmlElement>, line: &Vec<char>, out: &mut Vec<char>)
    ensures
        final(out)@ == old(out)@ + ref_extra(svg@, elements_view(els@), line@),
{
    let lead_n = lead_len_exec(line);
    let lead = sub_chars(line, 0, lead_n);
    let t = sub_chars(line, lead_n, line.len());
    assert(t@ == trim_start(line@));
    match url_ref_exec(&t, "svg-fill: \"url(#") {
        Some(id) => pattern_extra_exec(svg, els, &lead, &id, out),
        None => match url_ref_exec(&t, "svg-attr-mask: \"url(#") {
            Some(id) => mask_extra_exec(els, &lead, &id, out),
            None => {},
        },
    }
}

/// Adds the resource lines after each paint or mask reference line.
pub fn resource_refs_exec(svg: &str, source: &Vec<char>) -> (r: Vec<char>)
    ensures
        r@ == resource_refs(svg@, source@),
{
    let els = match parse_xml(svg) {
        Ok(e) => e,
        Err(_) => {
            return crate::props::copy_chars(source);
        },
    };
    let ls = split_lines(source);
    let ghost lv = line_views(ls@);
    let ghost ev = elements_view(els@);
    let mut out: Vec<char> = Vec::new();
    let mut i: usize = 0;
    while i < ls.len()
        invariant
            i <= ls@.len(),
            lv == line_views(ls@),
            lv == lines(source@),
            ev == elements_view(els@),
            xml_elements(svg@) == Ok::<Seq<ElementView>, Seq<char>>(ev),
            out@ == ref_lines(svg@, ev, lv.subrange(0, i as int)),
        decreases ls@.len() - i,
    {
        assert(lv.subrange(0, i + 1).drop_last() =~= lv.subrange(0, i as int));
        assert(lv[i as int] == ls@[i as int]@);
        let ghost before = out@;
        append_chars(&mut out, &ls[i]);
        out.push('\n');
        proof {
            reveal_strlit("\n");
        }
        assert(out@ =~= before + ls@[i as int]@ + "\n"@);
        ref_extra_exec(svg, &els, &ls[i], &mut out);
        i += 1;
    }
    assert(lv.subrange(0, ls@.len() as int) =~= lv);
    out
}

} // verus!
