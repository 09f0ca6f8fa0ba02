//! Font faces read from OpenType bytes: their name, weight and style when
//! loaded, and their metrics, glyph indices and glyph metrics on demand.
//! The parsing is done by `ttf-parser`.
use vstd::prelude::*;
use crate::font::{FontMetrics, FontStyle, GlyphBoundingBox, GlyphIdValue, GlyphMetrics};
use crate::text::chars_to_string_lit;
use crate::xml::opt_str_view;

verus! {

// ---------------------------------------------------------------------------
// What `ttf-parser` reads from a face

/// The `{:?}` text of the error `ttf_parser::Face::parse` gives for a face,
/// or nothing when the face parses.
pub uninterp spec fn face_parse_error(data: Seq<u8>, index: u32) -> Option<Seq<char>>;

/// `Face::weight().to_number()` of a face that parses.
pub uninterp spec fn face_weight(data: Seq<u8>, index: u32) -> u16;

/// `Face::is_italic()` of a face that parses.
pub uninterp spec fn face_is_italic(data: Seq<u8>, index: u32) -> bool;

/// The entries of `Face::names()`: each name id with its text, when it has
/// one as `Name::to_string` reads it.
pub uninterp spec fn face_names(data: Seq<u8>, index: u32) -> Seq<(u16, Option<Seq<char>>)>;

/// `Face::units_per_em()`.
pub uninterp spec fn face_units_per_em(data: Seq<u8>, index: u32) -> u16;

/// `Face::ascender()`.
pub uninterp spec fn face_ascender(data: Seq<u8>, index: u32) -> i16;

/// `Face::descender()`.
pub uninterp spec fn face_descender(data: Seq<u8>, index: u32) -> i16;

/// `Face::line_gap()`.
pub uninterp spec fn face_line_gap(data: Seq<u8>, index: u32) -> i16;

/// `Face::glyph_index(c)`, as the glyph's number.
pub uninterp spec fn face_glyph_index(data: Seq<u8>, index: u32, c: char) -> Option<u16>;

/// `Face::glyph_hor_advance(glyph)`.
pub uninterp spec fn face_glyph_advance(data: Seq<u8>, index: u32, glyph: u16) -> Option<u16>;

/// `Face::glyph_bounding_box(glyph)` as `(x_min, y_min, x_max, y_max)`.
pub uninterp spec fn face_glyph_bbox(data: Seq<u8>, index: u32, glyph: u16) -> Option<(i16, i16, i16, i16)>;

/// Calls `ttf_parser::Face::parse`; the claim is that the result depends on
/// the bytes and the index alone, and that its error prints as named.
#[verifier::external_body]
fn ttf_parse_error(data: &[u8], index: u32) -> (r: Option<String>)
    ensures
        opt_str_view(r) == face_parse_error(data@, index),
{
    match ttf_parser::Face::parse(data, index) {
        Ok(_) => None,
        Err(error) => Some(format!("{error:?}")),
    }
}

/// Calls `Face::weight` and `Weight::to_number` on a face that parses.
#[verifier::external_body]
fn ttf_weight(data: &[u8], index: u32) -> (r: u16)
    requires
        face_parse_error(data@, index) is None,
    ensures
        r == face_weight(data@, index),
{
    match ttf_parser::Face::parse(data, index) {
        Ok(face) => face.weight().to_number(),
        Err(_) => 0,
    }
}

/// Calls `Face::is_italic` on a face that parses.
#[verifier::external_body]
fn ttf_is_italic(data: &[u8], index: u32) -> (r: bool)
    requires
        face_parse_error(data@, index) is None,
    ensures
        r == face_is_italic(data@, index),
{
    match ttf_parser::Face::parse(data, index) {
        Ok(face) => face.is_italic(),
        Err(_) => false,
    }
}

/// Walks `Face::names` of a face that parses, converting each entry to its
/// name id and `Name::to_string`.
#[verifier::external_body]
fn ttf_names(data: &[u8], index: u32) -> (r: Vec<(u16, Option<String>)>)
    requires
        face_parse_error(data@, index) is None,
    ensures
        r@.map_values(|p: (u16, Option<String>)| (p.0, opt_str_view(p.1))) == face_names(data@, index),
{
    match ttf_parser::Face::parse(data, index) {
        Ok(face) => face.names().into_iter().map(|name| (name.name_id, name.to_string())).collect(),
        Err(_) => Vec::new(),
    }
}

/// Calls `Face::units_per_em` on a face that parses; `ttf-parser` refuses a
/// face whose value lies outside `16..=16384`.
#[verifier::external_body]
fn ttf_units_per_em(data: &[u8], index: u32) -> (r: u16)
    requires
        face_parse_error(data@, index) is None,
    ensures
        r == face_units_per_em(data@, index),
        16 <= r <= 16384,
{
    match ttf_parser::Face::parse(data, index) {
        Ok(face) => face.units_per_em(),
        Err(_) => 16,
    }
}

/// Calls `Face::ascender` on a face that parses.
#[verifier::external_body]
fn ttf_ascender(data: &[u8], index: u32) -> (r: i16)
    requires
        face_parse_error(data@, index) is None,
    ensures
        r == face_ascender(data@, index),
{
    match ttf_parser::Face::parse(data, index) {
        Ok(face) => face.ascender(),
        Err(_) => 0,
    }
}

/// Calls `Face::descender` on a face that parses.
#[verifier::external_body]
fn ttf_descender(data: &[u8], index: u32) -> (r: i16)
    requires
        face_parse_error(data@, index) is None,
    ensures
        r == face_descender(data@, index),
{
    match ttf_parser::Face::parse(data, index) {
        Ok(face) => face.descender(),
        Err(_) => 0,
    }
}

/// Calls `Face::line_gap` on a face that parses.
#[verifier::external_body]
fn ttf_line_gap(data: &[u8], index: u32) -> (r: i16)
    requires
        face_parse_error(data@, index) is None,
    ensures
        r == face_line_gap(data@, index),
{
    match ttf_parser::Face::parse(data, index) {
        Ok(face) => face.line_gap(),
        Err(_) => 0,
    }
}

/// Calls `Face::glyph_index` on a face that parses.
#[verifier::external_body]
fn ttf_glyph_index(data: &[u8], index: u32, c: char) -> (r: Option<u16>)
    requires
        face_parse_error(data@, index) is None,
    ensures
        r == face_glyph_index(data@, index, c),
{
    match ttf_parser::Face::parse(data, index) {
        Ok(face) => face.glyph_index(c).map(|id| id.0),
        Err(_) => None,
    }
}

/// Calls `Face::glyph_hor_advance` on a face that parses.
#[verifier::external_body]
fn ttf_glyph_advance(data: &[u8], index: u32, glyph: u16) -> (r: Option<u16>)
    requires
        face_parse_error(data@, index) is None,
    ensures
        r == face_glyph_advance(data@, index, glyph),
{
    match ttf_parser::Face::parse(data, index) {
        Ok(face) => face.glyph_hor_advance(ttf_parser::GlyphId(glyph)),
        Err(_) => None,
    }
}

/// Calls `Face::glyph_bounding_box` on a face that parses.
#[verifier::external_body]
fn ttf_glyph_bbox(data: &[u8], index: u32, glyph: u16) -> (r: Option<(i16, i16, i16, i16)>)
    requires
        face_parse_error(data@, index) is None,
    ensures
        r == face_glyph_bbox(data@, index, glyph),
{
    match ttf_parser::Face::parse(data, index) {
        Ok(face) => face.glyph_bounding_box(ttf_parser::GlyphId(glyph)).map(|b| (b.x_min, b.y_min, b.x_max, b.y_max)),
        Err(_) => None,
    }
}

// ---------------------------------------------------------------------------
// Faces

/// Why a font could not be used.
#[derive(Debug)]
pub enum FontError {
    Io { path: std::path::PathBuf, source: std::io::Error },
    InvalidFont { source: String },
    FaceUnavailable,
}

/// A parsed font face: its bytes and index, and what was read from it.
#[derive(Clone, Debug)]
pub struct FontFace {
    data: Vec<u8>,
    face_index: u32,
    pub family_name: String,
    pub post_script_name: Option<String>,
    pub weight: u16,
    pub style: FontStyle,
    pub source_path: Option<std::path::PathBuf>,
}

/// The text of the first name with id `id`, when that name has one.
pub open spec fn first_name(names: Seq<(u16, Option<Seq<char>>)>, id: u16, k: int) -> Option<Seq<char>>
    decreases names.len() - k,
{
    if k < 0 || k >= names.len() {
        None
    } else if names[k].0 == id {
        names[k].1
    } else {
        first_name(names, id, k + 1)
    }
}

/// The name id of a face's PostScript name.
pub open spec fn post_script_name_id() -> u16 {
    6
}

pub open spec fn style_of(italic: bool) -> FontStyle {
    if italic { FontStyle::Italic } else { FontStyle::Normal }
}

/// The error of a face that does not parse.
pub open spec fn invalid_font(r: Result<FontFace, FontError>, e: Seq<char>) -> bool {
    r matches Err(FontError::InvalidFont { source }) && source@ == e
}

fn first_name_exec(names: &Vec<(u16, Option<String>)>, id: u16) -> (r: Option<String>)
    ensures
        opt_str_view(r) == first_name(names@.map_values(|p: (u16, Option<String>)| (p.0, opt_str_view(p.1))), id, 0),
{
    let ghost nv = names@.map_values(|p: (u16, Option<String>)| (p.0, opt_str_view(p.1)));
    let mut k: usize = 0;
    while k < names.len()
        invariant
            k <= names@.len(),
            nv == names@.map_values(|p: (u16, Option<String>)| (p.0, opt_str_view(p.1))),
            first_name(nv, id, k as int) == first_name(nv, id, 0),
        decreases names@.len() - k,
    {
        if names[k].0 == id {
            return match &names[k].1 {
                Some(s) => Some(crate::svg_import::copy_str(s)),
                None => None,
            };
        }
        k += 1;
    }
    None
}

impl FontFace {
    /// The bytes of the face.
    pub closed spec fn data_view(&self) -> Seq<u8> {
        self.data@
    }

    /// The index of the face in its font.
    pub closed spec fn index_view(&self) -> u32 {
        self.face_index
    }

    /// Whether the face's bytes, index and the data read from them are as
    /// given, with no file path recorded.
    pub closed spec fn read_as(&self, data: Seq<u8>, index: u32, family: Seq<char>, post: Option<Seq<char>>, weight: u16, style: FontStyle) -> bool {
        &&& self.data@ == data
        &&& self.face_index == index
        &&& self.family_name@ == family
        &&& opt_str_view(self.post_script_name) == post
        &&& self.weight == weight
        &&& self.style == style
        &&& self.source_path is None
    }

    /// A face read as given holds those bytes and that index.
    pub proof fn lemma_read_as(&self, data: Seq<u8>, index: u32, family: Seq<char>, post: Option<Seq<char>>, weight: u16, style: FontStyle)
        requires
            self.read_as(data, index, family, post, weight, style),
        ensures
            self.data_view() == data,
            self.index_view() == index,
    {
    }

    /// Reads a face from font bytes under the given family name: its weight,
    /// its style (italic or normal) and its PostScript name.
    pub fn from_bytes(data: Vec<u8>, face_index: u32, family_name: String) -> (r: Result<Self, FontError>)
        ensures
            match face_parse_error(data@, face_index) {
                Some(e) => invalid_font(r, e),
                None => r matches Ok(f) && f.read_as(data@, face_index, family_name@, first_name(face_names(data@, face_index),
                    post_script_name_id(), 0), face_weight(data@, face_index), style_of(face_is_italic(data@, face_index)))
                    && f.data_view() == data@ && f.index_view() == face_index,
            },
    {
        match ttf_parse_error(data.as_slice(), face_index) {
            Some(e) => {
                return Err(FontError::InvalidFont { source: e });
            },
            None => {},
        }
        let weight = ttf_weight(data.as_slice(), face_index);
        let style = if ttf_is_italic(data.as_slice(), face_index) {
            FontStyle::Italic
        } else {
            FontStyle::Normal
        };
        let names = ttf_names(data.as_slice(), face_index);
        let post_script_name = first_name_exec(&names, 6);
        Ok(FontFace { data, face_index, family_name, post_script_name, weight, style, source_path: None })
    }

    /// Reads a face from the bytes of a font file: the family name is the
    /// face's typographic family name, else its family name, else the file's
    /// stem, else `Unknown`. The caller records the file's path.
    pub fn from_file_bytes(data: Vec<u8>, face_index: u32, file_stem: Option<String>) -> (r: Result<Self, FontError>)
        ensures
            match face_parse_error(data@, face_index) {
                Some(e) => invalid_font(r, e),
                None => r matches Ok(f) && f.read_as(data@, face_index, family_from(face_names(data@, face_index),
                    opt_str_view(file_stem)), first_name(face_names(data@, face_index), post_script_name_id(), 0), face_weight(
                    data@, face_index), style_of(face_is_italic(data@, face_index))) && f.data_view() == data@
                    && f.index_view() == face_index,
            },
    {
        match ttf_parse_error(data.as_slice(), face_index) {
            Some(e) => {
                return Err(FontError::InvalidFont { source: e });
            },
            None => {},
        }
        let names = ttf_names(data.as_slice(), face_index);
        let family = match first_name_exec(&names, 16) {
            Some(n) => n,
            None => match first_name_exec(&names, 1) {
                Some(n) => n,
                None => match file_stem {
                    Some(s) => s,
                    None => chars_to_string_lit("Unknown"),
                },
            },
        };
        Self::from_bytes(data, face_index, family)
    }

    /// The face's units per em, ascent, descent and line gap.
    pub fn metrics(&self) -> (r: Result<FontMetrics, FontError>)
        ensures
            match face_parse_error(self.data_view(), self.index_view()) {
                Some(e) => r matches Err(FontError::InvalidFont { source }) && source@ == e,
                None => r matches Ok(m) && m.units_per_em == face_units_per_em(self.data_view(), self.index_view())
                    && m.ascent == face_ascender(self.data_view(), self.index_view()) && m.descent == face_descender(
                    self.data_view(), self.index_view()) && m.line_gap == face_line_gap(self.data_view(), self.index_view())
                    && 16 <= m.units_per_em <= 16384,
            },
    {
        let data = self.data.as_slice();
        match ttf_parse_error(data, self.face_index) {
            Some(e) => {
                return Err(FontError::InvalidFont { source: e });
            },
            None => {},
        }
        Ok(FontMetrics {
            units_per_em: ttf_units_per_em(data, self.face_index),
            ascent: ttf_ascender(data, self.face_index),
            descent: ttf_descender(data, self.face_index),
            line_gap: ttf_line_gap(data, self.face_index),
        })
    }

    /// The glyph the face maps a character to, if any.
    pub fn glyph_for_char(&self, ch: char) -> (r: Result<Option<GlyphIdValue>, FontError>)
        ensures
            match face_parse_error(self.data_view(), self.index_view()) {
                Some(e) => r matches Err(FontError::InvalidFont { source }) && source@ == e,
                None => r matches Ok(g) && match face_glyph_index(self.data_view(), self.index_view(), ch) {
                    Some(id) => g == Some(GlyphIdValue(id)),
                    None => g is None,
                },
            },
    {
        let data = self.data.as_slice();
        match ttf_parse_error(data, self.face_index) {
            Some(e) => {
                return Err(FontError::InvalidFont { source: e });
            },
            None => {},
        }
        match ttf_glyph_index(data, self.face_index, ch) {
            Some(id) => Ok(Some(GlyphIdValue(id))),
            None => Ok(None),
        }
    }

    /// A glyph's horizontal advance (zero when the face has none) and its
    /// bounding box.
    pub fn glyph_metrics(&self, glyph: GlyphIdValue) -> (r: Result<GlyphMetrics, FontError>)
        ensures
            match face_parse_error(self.data_view(), self.index_view()) {
                Some(e) => r matches Err(FontError::InvalidFont { source }) && source@ == e,
                None => r matches Ok(m) && m.advance == match face_glyph_advance(self.data_view(), self.index_view(), glyph.0) {
                    Some(a) => a,
                    None => 0,
                } && match face_glyph_bbox(self.data_view(), self.index_view(), glyph.0) {
                    Some((x0, y0, x1, y1)) => m.bbox == Some(GlyphBoundingBox { x_min: x0, y_min: y0, x_max: x1, y_max: y1 }),
                    None => m.bbox is None,
                },
            },
    {
        let data = self.data.as_slice();
        match ttf_parse_error(data, self.face_index) {
            Some(e) => {
                return Err(FontError::InvalidFont { source: e });
            },
            None => {},
        }
        let advance = match ttf_glyph_advance(data, self.face_index, glyph.0) {
            Some(a) => a,
            None => 0,
        };
        let bbox = match ttf_glyph_bbox(data, self.face_index, glyph.0) {
            Some((x0, y0, x1, y1)) => Some(GlyphBoundingBox { x_min: x0, y_min: y0, x_max: x1, y_max: y1 }),
            None => None,
        };
        Ok(GlyphMetrics { advance, bbox })
    }
}

/// The family name of a font file's face: typographic family, family, the
/// file's stem, or `Unknown`.
pub open spec fn family_from(names: Seq<(u16, Option<Seq<char>>)>, stem: Option<Seq<char>>) -> Seq<char> {
    match first_name(names, 16, 0) {
        Some(n) => n,
        None => match first_name(names, 1, 0) {
            Some(n) => n,
            None => match stem {
                Some(s) => s,
                None => "Unknown"@,
            },
        },
    }
}

} // verus!
