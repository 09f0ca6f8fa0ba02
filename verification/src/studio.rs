//! What a conversion in the studio reports: the SRNG text, diagnostics, and
//! the reference and rendered rasters.
use vstd::prelude::*;
use crate::ir::{decimal, push_decimal};
use crate::svg::import_spec;
use crate::svg_import::{copy_str, diag_view, DiagV, ImportDiagnostic, ImportOptions};
use crate::svg_v4::v4_sliceable;
use crate::text::{append_str, chars_of, chars_to_string_lit, string_of};

verus! {

#[derive(Debug, Clone)]
pub struct RgbaImage {
    pub width: usize,
    pub height: usize,
    pub pixels: Vec<u8>,
}

#[derive(Debug, Clone)]
pub struct StudioDiagnostic {
    pub severity: String,
    pub code: String,
    pub message: String,
}

#[derive(Debug, Clone)]
pub struct ConversionOutcome {
    pub srng: String,
    pub diagnostics: Vec<StudioDiagnostic>,
    pub original: Option<RgbaImage>,
    pub rendered: Option<RgbaImage>,
}

pub open spec fn any_error(ds: Seq<StudioDiagnostic>) -> bool {
    exists|i: int| 0 <= i < ds.len() && #[trigger] ds[i].severity@ == "error"@
}

impl ConversionOutcome {
    /// Whether any diagnostic has severity `error`.
    pub fn has_errors(&self) -> (r: bool)
        ensures
            r == any_error(self.diagnostics@),
    {
        let mut k: usize = 0;
        while k < self.diagnostics.len()
            invariant
                k <= self.diagnostics@.len(),
                forall|i: int| 0 <= i < k ==> #[trigger] self.diagnostics@[i].severity@ != "error"@,
            decreases self.diagnostics@.len() - k,
        {
            if crate::parser::str_eq(self.diagnostics[k].severity.as_str(), "error") {
                return true;
            }
            k += 1;
        }
        false
    }
}

// ---------------------------------------------------------------------------
// Previews

/// One colour channel of a premultiplied pixel with alpha `a` taken back to
/// straight alpha; opaque and fully transparent pixels are kept.
pub open spec fn unpremul(c: u8, a: u8) -> u8 {
    if a == 0 || a == 255 {
        c
    } else {
        let v = (c as int * 255 + a as int / 2) / a as int;
        (if v > 255 { 255 } else { v }) as u8
    }
}

/// Every complete RGBA pixel has its colour channels divided by its alpha;
/// alpha and a trailing partial pixel are left as they are.
pub open spec fn unpremultiplied(old: Seq<u8>, new: Seq<u8>) -> bool {
    &&& new.len() == old.len()
    &&& forall|k: int| 0 <= k < new.len() ==> #[trigger] new[k] == if k < old.len() / 4 * 4 && k % 4 != 3 {
        unpremul(old[k], old[k - k % 4 + 3])
    } else {
        old[k]
    }
}

fn unpremul_exec(c: u8, a: u8) -> (r: u8)
    ensures
        r == unpremul(c, a),
{
    if a == 0 || a == 255 {
        return c;
    }
    let c32 = c as u32;
    let a32 = a as u32;
    let v = (c32 * 255 + a32 / 2) / a32;
    if v > 255 {
        255
    } else {
        v as u8
    }
}

/// Turns premultiplied RGBA bytes back into straight RGBA.
pub fn unpremultiply_rgba(source: &[u8]) -> (r: Vec<u8>)
    ensures
        unpremultiplied(source@, r@),
{
    let mut pixels = crate::text::sub_bytes(source, 0, source.len());
    assert(pixels@ =~= source@);
    let ghost start = source@;
    let n = pixels.len();
    let full = n / 4 * 4;
    let mut p: usize = 0;
    while p < full
        invariant
            n == start.len(),
            full == n / 4 * 4,
            p % 4 == 0,
            p <= full,
            pixels@.len() == n,
            forall|k: int| 0 <= k < n ==> #[trigger] pixels@[k] == if k < p && k % 4 != 3 {
                unpremul(start[k], start[k - k % 4 + 3])
            } else {
                start[k]
            },
        decreases full - p,
    {
        let a = pixels[p + 3];
        let r = unpremul_exec(pixels[p], a);
        let g = unpremul_exec(pixels[p + 1], a);
        let b = unpremul_exec(pixels[p + 2], a);
        pixels.set(p, r);
        pixels.set(p + 1, g);
        pixels.set(p + 2, b);
        p += 4;
    }
    pixels
}

// ---------------------------------------------------------------------------
// Converting an SVG file

/// The largest source, in bytes, that the studio converts.
pub const MAX_SOURCE_BYTES: usize = 33554432;

pub open spec fn sdiag_view(d: StudioDiagnostic) -> (Seq<char>, Seq<char>, Seq<char>) {
    (d.severity@, d.code@, d.message@)
}

pub open spec fn sdiags_view(ds: Seq<StudioDiagnostic>) -> Seq<(Seq<char>, Seq<char>, Seq<char>)> {
    ds.map_values(|d: StudioDiagnostic| sdiag_view(d))
}

/// An importer diagnostic as the studio shows it.
pub open spec fn from_import(d: DiagV) -> (Seq<char>, Seq<char>, Seq<char>) {
    (d.severity, d.code, d.message)
}

/// The UI300 diagnostic for a source of `len` bytes.
pub open spec fn too_large(len: nat) -> (Seq<char>, Seq<char>, Seq<char>) {
    ("error"@, "UI300"@, "source is "@ + decimal(len) + " bytes; Studio limit is 33554432 bytes"@)
}

/// The diagnostics of a conversion before rendering: the UI100 error of a
/// reference raster that failed, then the importer's.
pub open spec fn start_diags(raster: Result<RgbaImage, String>, imported: Seq<DiagV>) -> Seq<(Seq<char>, Seq<char>, Seq<char>)> {
    (match raster {
        Ok(_) => Seq::empty(),
        Err(m) => seq![("error"@, "UI100"@, m@)],
    }) + imported.map_values(|d: DiagV| from_import(d))
}

fn studio_diag(d: &ImportDiagnostic) -> (r: StudioDiagnostic)
    ensures
        sdiag_view(r) == from_import(diag_view(*d)),
{
    StudioDiagnostic { severity: copy_str(&d.severity), code: copy_str(&d.code), message: copy_str(&d.message) }
}

/// Starts converting an SVG file: a source over the size limit gives the
/// UI300 outcome; otherwise the reference raster the caller made of it
/// (`raster`) is kept, its error reported as UI100, and the SVG is imported
/// with default options. The second result says whether the SRNG text should
/// now be rendered: no diagnostic so far is an error.
pub fn convert_svg_start(svg: &str, source_name: &str, raster: Option<Result<RgbaImage, String>>) -> (r: (
    ConversionOutcome,
    bool,
))
    requires
        vstd::utf8::encode_utf8(svg@).len() <= MAX_SOURCE_BYTES ==> raster is Some && v4_sliceable(svg@),
    ensures
        vstd::utf8::encode_utf8(svg@).len() > MAX_SOURCE_BYTES ==> r.0.srng@ == Seq::<char>::empty() && sdiags_view(
            r.0.diagnostics@,
        ) == seq![too_large(vstd::utf8::encode_utf8(svg@).len())] && r.0.original is None && r.0.rendered is None && !r.1,
        vstd::utf8::encode_utf8(svg@).len() <= MAX_SOURCE_BYTES ==> {
            let (src, ds) = import_spec(svg@, source_name@, None, true);
            &&& r.0.srng@ == src
            &&& sdiags_view(r.0.diagnostics@) == start_diags(raster->0, ds)
            &&& r.0.original == match raster->0 {
                Ok(img) => Some(img),
                Err(_) => None::<RgbaImage>,
            }
            &&& r.0.rendered is None
            &&& r.1 == !any_error(r.0.diagnostics@)
        },
{
    let bytes = svg.as_bytes();
    let len = bytes.len();
    if len > MAX_SOURCE_BYTES {
        let mut m = chars_of("source is ");
        push_decimal(&mut m, len);
        append_str(&mut m, " bytes; Studio limit is 33554432 bytes");
        let d = StudioDiagnostic {
            severity: chars_to_string_lit("error"),
            code: chars_to_string_lit("UI300"),
            message: string_of(&m),
        };
        let diagnostics = vec![d];
        assert(sdiags_view(diagnostics@) =~= seq![too_large(len as nat)]);
        let empty: Vec<char> = Vec::new();
        let outcome = ConversionOutcome { srng: string_of(&empty), diagnostics, original: None, rendered: None };
        return (outcome, false);
    }
    let mut diagnostics: Vec<StudioDiagnostic> = Vec::new();
    let original = match raster {
        Some(Ok(image)) => Some(image),
        Some(Err(message)) => {
            diagnostics.push(StudioDiagnostic {
                severity: chars_to_string_lit("error"),
                code: chars_to_string_lit("UI100"),
                message,
            });
            None
        },
        None => None,
    };
    let imported = crate::svg::import_svg(svg, source_name, &ImportOptions::default());
    let ghost first = sdiags_view(diagnostics@);
    let ghost ids = crate::svg_import::diags_of(imported.diagnostics@);
    let mut k: usize = 0;
    while k < imported.diagnostics.len()
        invariant
            k <= imported.diagnostics@.len(),
            ids == crate::svg_import::diags_of(imported.diagnostics@),
            sdiags_view(diagnostics@) == first + ids.subrange(0, k as int).map_values(|d: DiagV| from_import(d)),
        decreases imported.diagnostics@.len() - k,
    {
        let ghost before = sdiags_view(diagnostics@);
        diagnostics.push(studio_diag(&imported.diagnostics[k]));
        assert(sdiags_view(diagnostics@) =~= before.push(from_import(ids[k as int])));
        assert(ids.subrange(0, k + 1).map_values(|d: DiagV| from_import(d)) =~= ids.subrange(0, k as int).map_values(
            |d: DiagV| from_import(d),
        ).push(from_import(ids[k as int])));
        k += 1;
    }
    assert(ids.subrange(0, k as int) =~= ids);
    let outcome = ConversionOutcome { srng: imported.source, diagnostics, original, rendered: None };
    let render = !outcome.has_errors();
    (outcome, render)
}

/// Finishes a conversion with what rendering its SRNG text gave: the image,
/// and diagnostics added after the earlier ones.
pub fn convert_svg_finish(o: ConversionOutcome, rendered: (Option<RgbaImage>, Vec<StudioDiagnostic>)) -> (r: ConversionOutcome)
    ensures
        r.srng == o.srng,
        r.original == o.original,
        r.diagnostics@ == o.diagnostics@ + rendered.1@,
        r.rendered == rendered.0,
{
    let ConversionOutcome { srng, mut diagnostics, original, rendered: _ } = o;
    let (image, mut more) = rendered;
    diagnostics.append(&mut more);
    ConversionOutcome { srng, diagnostics, original, rendered: image }
}

} // verus!
