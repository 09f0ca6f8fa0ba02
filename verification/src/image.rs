//! Embedded images: `data:` URIs, format sniffing, size limits, and decoding
//! through the `image` and `resvg` crates.
use vstd::prelude::*;
use vstd::utf8::{decode_utf8, encode_utf8, encode_utf8_decode_utf8, valid_utf8};
use crate::formatter::{trim, trim_chars};
use crate::ir::decimal;
use crate::number::{eq_ignore_case, lower_char, to_lower};
use crate::text::{append_chars, append_str, chars_of, string_of, sub_chars};

verus! {

pub const MAX_DATA_URI_BYTES: usize = 16777216;
pub const MAX_DECODED_PIXELS: u64 = 16777216;
pub const MAX_DECODED_BYTES: usize = 67108864;
pub const MAX_DIMENSION: u32 = 16384;

#[derive(Debug, Clone, Copy, PartialEq, Eq, Structural)]
pub enum ImageCodec {
    Png,
    Jpeg,
    WebP,
    Gif,
    Svg,
}

pub open spec fn mime_text(codec: ImageCodec) -> Seq<char> {
    match codec {
        ImageCodec::Png => "image/png"@,
        ImageCodec::Jpeg => "image/jpeg"@,
        ImageCodec::WebP => "image/webp"@,
        ImageCodec::Gif => "image/gif"@,
        ImageCodec::Svg => "image/svg+xml"@,
    }
}

impl ImageCodec {
    pub fn mime(self) -> (m: &'static str)
        ensures
            m@ == mime_text(self),
    {
        match self {
            ImageCodec::Png => "image/png",
            ImageCodec::Jpeg => "image/jpeg",
            ImageCodec::WebP => "image/webp",
            ImageCodec::Gif => "image/gif",
            ImageCodec::Svg => "image/svg+xml",
        }
    }
}

#[derive(Debug, Clone)]
pub struct DecodedImage {
    pub codec: ImageCodec,
    pub width: u32,
    pub height: u32,
    pub pixels: Vec<u8>,
}

// ---------------------------------------------------------------------------
// Outside decoders

/// What `base64`'s standard engine (padding required) decodes `input` to;
/// `None` when it reports an error.
pub uninterp spec fn base64_standard(input: Seq<u8>) -> Option<Seq<u8>>;

/// The dimensions the `image` crate reads from the header of `bytes` in the
/// given raster format, or its error text.
pub uninterp spec fn raster_dimensions(codec: ImageCodec, bytes: Seq<u8>) -> Result<(u32, u32), Seq<char>>;

/// The RGBA8 pixels the `image` crate decodes from `bytes` in the given
/// raster format, or its error text.
pub uninterp spec fn raster_pixels(codec: ImageCodec, bytes: Seq<u8>) -> Result<Seq<u8>, Seq<char>>;

/// Calls `base64::engine::general_purpose::STANDARD.decode`; the contract
/// says only that the result is the one its name stands for.
#[verifier::external_body]
fn base64_decode(input: &Vec<u8>) -> (r: Option<Vec<u8>>)
    ensures
        match base64_standard(input@) {
            Some(v) => r is Some && r->0@ == v,
            None => r is None,
        },
{
    base64::Engine::decode(&base64::engine::general_purpose::STANDARD, input).ok()
}

/// The text `base64`'s standard engine (with padding) encodes `bytes` as.
pub uninterp spec fn base64_text(bytes: Seq<u8>) -> Seq<char>;

/// Calls `base64::engine::general_purpose::STANDARD.encode`.
#[verifier::external_body]
fn base64_encode(bytes: &Vec<u8>) -> (r: String)
    ensures
        r@ == base64_text(bytes@),
{
    base64::Engine::encode(&base64::engine::general_purpose::STANDARD, bytes)
}

/// The PNG file the `image` crate writes for a `width` by `height` RGBA8
/// buffer holding `pixels`, or its error text.
pub uninterp spec fn png_encoding(width: u32, height: u32, pixels: Seq<u8>) -> Result<Seq<u8>, Seq<char>>;

/// Calls `image::RgbaImage::from_raw` and writes the image as PNG with
/// `DynamicImage::write_to`; the PNG encoder takes only a buffer of exactly
/// `4 * width * height` bytes, which `requires` asks for.
#[verifier::external_body]
fn encode_png(width: u32, height: u32, pixels: &Vec<u8>) -> (r: Result<Vec<u8>, String>)
    requires
        4 * width * height == pixels@.len(),
    ensures
        match png_encoding(width, height, pixels@) {
            Ok(b) => r matches Ok(v) && v@ == b,
            Err(e) => r matches Err(m) && m@ == e,
        },
{
    match image::RgbaImage::from_raw(width, height, pixels.clone()) {
        Some(rgba) => {
            let mut cursor = std::io::Cursor::new(Vec::new());
            match image::DynamicImage::ImageRgba8(rgba).write_to(&mut cursor, image::ImageFormat::Png) {
                Ok(()) => Ok(cursor.into_inner()),
                Err(e) => Err(e.to_string()),
            }
        },
        None => Err(String::new()),
    }
}

/// Calls `image::ImageReader::with_format(..).into_dimensions()` for a
/// raster codec and returns the dimensions or the error's text.
#[verifier::external_body]
fn decode_raster_dimensions(codec: ImageCodec, bytes: &Vec<u8>) -> (r: Result<(u32, u32), String>)
    requires
        codec != ImageCodec::Svg,
    ensures
        match raster_dimensions(codec, bytes@) {
            Ok(d) => r == Ok::<(u32, u32), String>(d),
            Err(e) => r is Err && r->Err_0@ == e,
        },
{
    let format = match codec {
        ImageCodec::Png => image::ImageFormat::Png,
        ImageCodec::Jpeg => image::ImageFormat::Jpeg,
        ImageCodec::WebP => image::ImageFormat::WebP,
        _ => image::ImageFormat::Gif,
    };
    let reader = image::ImageReader::with_format(std::io::Cursor::new(bytes.as_slice()), format);
    reader.into_dimensions().map_err(|e| e.to_string())
}

/// Calls `image::ImageReader::with_format(..).decode()` for a raster codec
/// and returns the RGBA8 pixels or the error's text.
#[verifier::external_body]
fn decode_raster_pixels(codec: ImageCodec, bytes: &Vec<u8>) -> (r: Result<Vec<u8>, String>)
    requires
        codec != ImageCodec::Svg,
    ensures
        match raster_pixels(codec, bytes@) {
            Ok(p) => r is Ok && r->Ok_0@ == p,
            Err(e) => r is Err && r->Err_0@ == e,
        },
{
    let format = match codec {
        ImageCodec::Png => image::ImageFormat::Png,
        ImageCodec::Jpeg => image::ImageFormat::Jpeg,
        ImageCodec::WebP => image::ImageFormat::WebP,
        _ => image::ImageFormat::Gif,
    };
    let reader = image::ImageReader::with_format(std::io::Cursor::new(bytes.as_slice()), format);
    reader.decode().map(|image| image.to_rgba8().into_raw()).map_err(|e| e.to_string())
}

#[verifier::external_type_specification]
#[verifier::external_body]
pub struct ExSvgTree(resvg::usvg::Tree);

#[verifier::external_type_specification]
#[verifier::external_body]
pub struct ExPixmap(resvg::tiny_skia::Pixmap);

/// `std::str::from_utf8`: the text when `bytes` are valid UTF-8.
#[verifier::external_body]
pub(crate) fn utf8_text(bytes: &[u8]) -> (r: Option<&str>)
    ensures
        r is Some <==> valid_utf8(bytes@),
        r is Some ==> encode_utf8(r->0@) == bytes@,
{
    std::str::from_utf8(bytes).ok()
}

/// The text of the error `usvg::Tree::from_str` reports for an SVG
/// document under default options; `None` when it parses.
pub uninterp spec fn svg_tree_error(text: Seq<char>) -> Option<Seq<char>>;

/// The size `usvg` gives a document that parses under default options,
/// each side rounded up to whole pixels.
pub uninterp spec fn svg_tree_size(text: Seq<char>) -> (u32, u32);

/// Calls `usvg::Tree::from_str` with default options and reads the tree's
/// size (`Tree::size`), each side rounded up; the error is turned into its
/// text. Nothing is stated of the tree itself.
#[verifier::external_body]
fn parse_svg_tree(text: &str) -> (r: Result<(resvg::usvg::Tree, u32, u32), String>)
    ensures
        match svg_tree_error(text@) {
            Some(e) => r is Err && r->Err_0@ == e,
            None => r matches Ok((_, w, h)) && (w, h) == svg_tree_size(text@),
        },
{
    resvg::usvg::Tree::from_str(text, &resvg::usvg::Options::default()).map(|tree| {
        let size = tree.size();
        let (w, h) = (size.width().ceil() as u32, size.height().ceil() as u32);
        (tree, w, h)
    }).map_err(|e| e.to_string())
}

/// A pixmap together with the size it was made with.
struct Canvas {
    pixmap: resvg::tiny_skia::Pixmap,
    width: u32,
    height: u32,
}

/// Calls `tiny_skia::Pixmap::new`, which allocates a transparent pixmap.
/// Its source returns `None` for a zero side and when the byte length
/// `4 * width * height` overflows, which cannot happen for sides of at most
/// 16384; the contract states those two facts, and the canvas records the
/// size.
#[verifier::external_body]
fn new_pixmap(width: u32, height: u32) -> (r: Option<Canvas>)
    ensures
        width == 0 || height == 0 ==> r is None,
        1 <= width <= MAX_DIMENSION && 1 <= height <= MAX_DIMENSION ==> r is Some,
        r matches Some(c) ==> c.width == width && c.height == height,
{
    resvg::tiny_skia::Pixmap::new(width, height).map(|pixmap| Canvas { pixmap, width, height })
}

/// Calls `resvg::render` with the identity transform; the pixmap keeps its
/// size.
#[verifier::external_body]
fn render_svg_tree(tree: &resvg::usvg::Tree, canvas: &mut Canvas)
    ensures
        final(canvas).width == old(canvas).width,
        final(canvas).height == old(canvas).height,
{
    resvg::render(tree, resvg::tiny_skia::Transform::identity(), &mut canvas.pixmap.as_mut());
}

/// Calls `tiny_skia::Pixmap::data` and copies the premultiplied RGBA bytes:
/// four bytes for each pixel of a canvas made by `new_pixmap`.
#[verifier::external_body]
fn pixmap_bytes(canvas: &Canvas) -> (r: Vec<u8>)
    ensures
        r@.len() == 4 * canvas.width * canvas.height,
{
    canvas.pixmap.data().to_vec()
}

// ---------------------------------------------------------------------------
// Sniffing and limits

pub open spec fn starts_with_bytes(b: Seq<u8>, p: Seq<u8>) -> bool {
    b.len() >= p.len() && b.subrange(0, p.len() as int) == p
}

pub open spec fn is_ascii_ws_byte(b: u8) -> bool {
    b == 0x20 || b == 0x09 || b == 0x0a || b == 0x0c || b == 0x0d
}

/// Index of the first byte at or after `i` that is not ASCII white space.
pub open spec fn skip_ws_bytes(b: Seq<u8>, i: int) -> int
    decreases b.len() - i,
{
    if i < 0 || i >= b.len() {
        i
    } else if !is_ascii_ws_byte(b[i]) {
        i
    } else {
        skip_ws_bytes(b, i + 1)
    }
}

pub open spec fn png_signature() -> Seq<u8> {
    seq![0x89u8, 0x50u8, 0x4eu8, 0x47u8, 0x0du8, 0x0au8, 0x1au8, 0x0au8]
}

pub open spec fn contains_svg_tag(p: Seq<u8>) -> bool {
    exists|k: int| 0 <= k && k + 4 <= p.len() && #[trigger] p.subrange(k, k + 4) == seq![0x3cu8, 0x73u8, 0x76u8, 0x67u8]
}

/// The image format the leading bytes identify.
pub open spec fn sniff_spec(b: Seq<u8>) -> Option<ImageCodec> {
    let start = skip_ws_bytes(b, 0);
    let probe = b.subrange(start, if b.len() - start > 256 { start + 256 } else { b.len() as int });
    if starts_with_bytes(b, png_signature()) {
        Some(ImageCodec::Png)
    } else if starts_with_bytes(b, seq![0xffu8, 0xd8u8, 0xffu8]) {
        Some(ImageCodec::Jpeg)
    } else if b.len() >= 12 && b.subrange(0, 4) == seq![0x52u8, 0x49u8, 0x46u8, 0x46u8]
        && b.subrange(8, 12) == seq![0x57u8, 0x45u8, 0x42u8, 0x50u8] {
        Some(ImageCodec::WebP)
    } else if starts_with_bytes(b, seq![0x47u8, 0x49u8, 0x46u8, 0x38u8, 0x37u8, 0x61u8])
        || starts_with_bytes(b, seq![0x47u8, 0x49u8, 0x46u8, 0x38u8, 0x39u8, 0x61u8]) {
        Some(ImageCodec::Gif)
    } else if starts_with_bytes(probe, seq![0x3cu8, 0x3fu8, 0x78u8, 0x6du8, 0x6cu8])
        || starts_with_bytes(probe, seq![0x3cu8, 0x73u8, 0x76u8, 0x67u8]) || contains_svg_tag(probe) {
        Some(ImageCodec::Svg)
    } else {
        None
    }
}

fn has_prefix(b: &[u8], from: usize, p: &[u8]) -> (r: bool)
    requires
        from <= b@.len(),
    ensures
        r == starts_with_bytes(b@.subrange(from as int, b@.len() as int), p@),
{
    let n = b.len();
    if n - from < p.len() {
        return false;
    }
    let mut k: usize = 0;
    while k < p.len()
        invariant
            k <= p@.len(),
            n == b@.len(),
            from + p@.len() <= n,
            forall|m: int| 0 <= m < k ==> b@[from + m] == p@[m],
        decreases p@.len() - k,
    {
        if b[from + k] != p[k] {
            assert(b@.subrange(from as int, n as int).subrange(0, p@.len() as int)[k as int] != p@[k as int]);
            return false;
        }
        k += 1;
    }
    assert(b@.subrange(from as int, n as int).subrange(0, p@.len() as int) =~= p@);
    true
}

/// Whether `<svg` occurs anywhere in `probe`.
fn has_svg_tag(probe: &Vec<u8>) -> (r: bool)
    ensures
        r == contains_svg_tag(probe@),
{
    let ghost pv = probe@;
    let pn = probe.len();
    let mut k: usize = 0;
    while pn >= 4 && k <= pn - 4
        invariant
            pn == pv.len(),
            pv == probe@,
            forall|m: int| 0 <= m < k && m + 4 <= pv.len() ==> #[trigger] pv.subrange(m, m + 4) != seq![0x3cu8, 0x73u8, 0x76u8, 0x67u8],
        decreases pn - k,
    {
        if probe[k] == 0x3c && probe[k + 1] == 0x73 && probe[k + 2] == 0x76 && probe[k + 3] == 0x67 {
            assert(pv.subrange(k as int, k + 4) =~= seq![0x3cu8, 0x73u8, 0x76u8, 0x67u8]);
            assert(contains_svg_tag(pv));
            return true;
        }
        assert(pv.subrange(k as int, k + 4)[0] == pv[k as int]);
        assert(pv.subrange(k as int, k + 4)[1] == pv[k + 1]);
        assert(pv.subrange(k as int, k + 4)[2] == pv[k + 2]);
        assert(pv.subrange(k as int, k + 4)[3] == pv[k + 3]);
        k += 1;
    }
    false
}

/// Identifies PNG, JPEG, WebP, GIF and SVG payloads by their first bytes.
pub fn sniff_codec(bytes: &[u8]) -> (r: Option<ImageCodec>)
    ensures
        r == sniff_spec(bytes@),
{
    let ghost b = bytes@;
    let n = bytes.len();
    assert(b.subrange(0, n as int) =~= b);
    if has_prefix(bytes, 0, &[0x89u8, 0x50u8, 0x4eu8, 0x47u8, 0x0du8, 0x0au8, 0x1au8, 0x0au8]) {
        return Some(ImageCodec::Png);
    }
    if has_prefix(bytes, 0, &[0xffu8, 0xd8u8, 0xffu8]) {
        return Some(ImageCodec::Jpeg);
    }
    if n >= 12 && has_prefix(bytes, 0, &[0x52u8, 0x49u8, 0x46u8, 0x46u8]) && has_prefix(bytes, 8, &[0x57u8, 0x45u8, 0x42u8, 0x50u8]) {
        assert(b.subrange(0, 4) =~= b.subrange(0, n as int).subrange(0, 4));
        assert(b.subrange(8, 12) =~= b.subrange(8, n as int).subrange(0, 4));
        return Some(ImageCodec::WebP);
    }
    proof {
        if b.len() >= 12 && b.subrange(0, 4) == seq![0x52u8, 0x49u8, 0x46u8, 0x46u8]
            && b.subrange(8, 12) == seq![0x57u8, 0x45u8, 0x42u8, 0x50u8] {
            assert(b.subrange(0, 4) =~= b.subrange(0, n as int).subrange(0, 4));
            assert(b.subrange(8, 12) =~= b.subrange(8, n as int).subrange(0, 4));
        }
    }
    if has_prefix(bytes, 0, &[0x47u8, 0x49u8, 0x46u8, 0x38u8, 0x37u8, 0x61u8])
        || has_prefix(bytes, 0, &[0x47u8, 0x49u8, 0x46u8, 0x38u8, 0x39u8, 0x61u8]) {
        return Some(ImageCodec::Gif);
    }
    let mut start: usize = 0;
    while start < n && (bytes[start] == 0x20 || bytes[start] == 0x09 || bytes[start] == 0x0a || bytes[start] == 0x0c || bytes[start] == 0x0d)
        invariant
            start <= n,
            n == b.len(),
            b == bytes@,
            skip_ws_bytes(b, start as int) == skip_ws_bytes(b, 0),
        decreases n - start,
    {
        start += 1;
    }
    assert(skip_ws_bytes(b, start as int) == start);
    let end = if n - start > 256 { start + 256 } else { n };
    let probe = crate::text::sub_bytes(bytes, start, end);
    let ghost pv = probe@;
    assert(pv == b.subrange(skip_ws_bytes(b, 0), if b.len() - skip_ws_bytes(b, 0) > 256 { skip_ws_bytes(b, 0) + 256 } else { b.len() as int }));
    let pn = probe.len();
    assert(pv.subrange(0, pn as int) =~= pv);
    if has_prefix(probe.as_slice(), 0, &[0x3cu8, 0x3fu8, 0x78u8, 0x6du8, 0x6cu8])
        || has_prefix(probe.as_slice(), 0, &[0x3cu8, 0x73u8, 0x76u8, 0x67u8]) {
        return Some(ImageCodec::Svg);
    }
    if has_svg_tag(&probe) {
        return Some(ImageCodec::Svg);
    }
    None
}

pub open spec fn dims_error(width: u32, height: u32) -> Option<Seq<char>> {
    if width == 0 || height == 0 {
        Some("embedded image has empty dimensions"@)
    } else if width > MAX_DIMENSION || height > MAX_DIMENSION {
        Some("embedded image dimensions "@ + decimal(width as nat) + "x"@ + decimal(height as nat)
            + " exceed 16384px per-axis limit"@)
    } else if width * height > MAX_DECODED_PIXELS {
        Some("embedded image has "@ + decimal((width * height) as nat) + " pixels; limit is 16777216"@)
    } else {
        None
    }
}

/// Rejects empty images, sides over 16384 pixels and areas over 16777216
/// pixels.
pub fn validate_dimensions(width: u32, height: u32) -> (r: Result<(), String>)
    ensures
        match dims_error(width, height) {
            Some(m) => r is Err && r->Err_0@ == m,
            None => r is Ok,
        },
{
    if width == 0 || height == 0 {
        return Err(chars_to_string("embedded image has empty dimensions"));
    }
    if width > MAX_DIMENSION || height > MAX_DIMENSION {
        let mut m = chars_of("embedded image dimensions ");
        crate::ir::push_decimal(&mut m, width as usize);
        append_str(&mut m, "x");
        crate::ir::push_decimal(&mut m, height as usize);
        append_str(&mut m, " exceed 16384px per-axis limit");
        return Err(string_of(&m));
    }
    assert((width as u64) * (height as u64) <= 16384 * 16384) by (nonlinear_arith)
        requires
            width <= 16384,
            height <= 16384,
    ;
    let pixels: u64 = (width as u64) * (height as u64);
    if pixels > MAX_DECODED_PIXELS {
        let mut m = chars_of("embedded image has ");
        crate::ir::push_decimal(&mut m, pixels as usize);
        append_str(&mut m, " pixels; limit is 16777216");
        return Err(string_of(&m));
    }
    Ok(())
}


// ---------------------------------------------------------------------------
// `data:` URIs

/// Index of the first `c` at or after `i`, or the length when there is none.
pub open spec fn find_char(s: Seq<char>, c: char, i: int) -> int
    decreases s.len() - i,
{
    if i < 0 || i >= s.len() {
        s.len() as int
    } else if s[i] == c {
        i
    } else {
        find_char(s, c, i + 1)
    }
}

pub open spec fn lower_seq(s: Seq<char>) -> Seq<char> {
    s.map_values(|c: char| to_lower(c))
}

/// A `;`-separated parameter that starts at `a` and spells `base64` in any case.
pub open spec fn is_base64_at(m: Seq<char>, a: int) -> bool {
    &&& 1 <= a
    &&& a + 6 <= m.len()
    &&& m[a - 1] == ';'
    &&& (a + 6 == m.len() || m[a + 6] == ';')
    &&& eq_ignore_case(m.subrange(a, a + 6), "base64"@)
}

pub open spec fn has_base64_param(m: Seq<char>) -> bool {
    exists|a: int| #[trigger] is_base64_at(m, a)
}

/// The header of a `data:` URI: the declared media type (trimmed, lower
/// case), whether a `base64` parameter follows it, and the payload after the
/// first comma.
pub open spec fn data_uri_header(u: Seq<char>) -> Result<(Seq<char>, bool, Seq<char>), Seq<char>> {
    let c = find_char(u, ',', 0);
    if c >= u.len() {
        Err("invalid data image URI: missing comma"@)
    } else {
        let meta = u.subrange(0, c);
        if !(meta.len() >= 5 && meta.subrange(0, 5) == "data:"@) {
            Err("invalid data image URI scheme"@)
        } else {
            let m = meta.subrange(5, meta.len() as int);
            Ok((lower_seq(trim(m.subrange(0, find_char(m, ';', 0)))), has_base64_param(m), u.subrange(c + 1, u.len() as int)))
        }
    }
}

/// `b` without its ASCII white-space bytes.
pub open spec fn strip_ws_bytes(b: Seq<u8>) -> Seq<u8>
    decreases b.len(),
{
    if b.len() == 0 {
        b
    } else if is_ascii_ws_byte(b.last()) {
        strip_ws_bytes(b.drop_last())
    } else {
        strip_ws_bytes(b.drop_last()).push(b.last())
    }
}

pub open spec fn base64_payload(b: Seq<u8>) -> Result<Seq<u8>, Seq<char>> {
    let compact = strip_ws_bytes(b);
    if compact.len() > 2 * MAX_DATA_URI_BYTES {
        Err("base64 image payload is too large"@)
    } else {
        match base64_standard(compact) {
            Some(v) => Ok(v),
            None => Err("invalid base64 in image URI"@),
        }
    }
}

pub open spec fn hex_value(b: u8) -> Option<u8> {
    if 0x30 <= b && b <= 0x39 {
        Some((b - 0x30) as u8)
    } else if 0x61 <= b && b <= 0x66 {
        Some((b - 0x61 + 10) as u8)
    } else if 0x41 <= b && b <= 0x46 {
        Some((b - 0x41 + 10) as u8)
    } else {
        None
    }
}

/// Percent-decodes `b` from index `i`, appending to `out`.
pub open spec fn percent_from(b: Seq<u8>, i: int, out: Seq<u8>) -> Result<Seq<u8>, Seq<char>>
    decreases b.len() - i,
{
    if i < 0 || i >= b.len() {
        Ok(out)
    } else if out.len() >= MAX_DATA_URI_BYTES {
        Err("embedded image payload exceeds byte limit"@)
    } else if b[i] == 0x25 {
        if i + 2 >= b.len() {
            Err("truncated percent escape in data URI"@)
        } else {
            match (hex_value(b[i + 1]), hex_value(b[i + 2])) {
                (Some(h), Some(l)) => percent_from(b, i + 3, out.push((h * 16 + l) as u8)),
                _ => Err("invalid percent escape in data URI"@),
            }
        }
    } else {
        percent_from(b, i + 1, out.push(b[i]))
    }
}

pub open spec fn percent_payload(b: Seq<u8>) -> Result<Seq<u8>, Seq<char>> {
    if b.len() > 3 * MAX_DATA_URI_BYTES {
        Err("percent-encoded image payload is too large"@)
    } else {
        percent_from(b, 0, seq![])
    }
}

pub(crate) fn find_char_exec(s: &Vec<char>, c: char, from: usize) -> (k: usize)
    requires
        from <= s@.len(),
    ensures
        k == find_char(s@, c, from as int),
        from <= k <= s@.len(),
{
    let mut k = from;
    while k < s.len() && s[k] != c
        invariant
            from <= k <= s@.len(),
            find_char(s@, c, k as int) == find_char(s@, c, from as int),
        decreases s@.len() - k,
    {
        k += 1;
    }
    k
}

pub fn lower_chars(s: &Vec<char>) -> (out: Vec<char>)
    ensures
        out@ == lower_seq(s@),
{
    let mut out: Vec<char> = Vec::new();
    let mut k: usize = 0;
    while k < s.len()
        invariant
            k <= s@.len(),
            out@ == lower_seq(s@.subrange(0, k as int)),
        decreases s@.len() - k,
    {
        out.push(lower_char(s[k]));
        assert(lower_seq(s@.subrange(0, k + 1)) =~= lower_seq(s@.subrange(0, k as int)).push(to_lower(s@[k as int])));
        k += 1;
    }
    assert(s@.subrange(0, s@.len() as int) =~= s@);
    out
}

fn base64_param_at(m: &Vec<char>, a: usize) -> (r: bool)
    requires
        1 <= a,
        a + 6 <= m@.len(),
    ensures
        r == is_base64_at(m@, a as int),
{
    let n = m.len();
    if m[a - 1] != ';' || !(a + 6 == n || m[a + 6] == ';') {
        return false;
    }
    let w = chars_of("base64");
    let ghost part = m@.subrange(a as int, a + 6);
    let mut k: usize = 0;
    while k < 6
        invariant
            k <= 6,
            w@ == "base64"@,
            a + 6 <= m@.len(),
            n == m@.len(),
            part == m@.subrange(a as int, a + 6),
            forall|j: int| 0 <= j < k ==> to_lower(#[trigger] part[j]) == w@[j],
        decreases 6 - k,
    {
        proof {
            reveal_strlit("base64");
        }
        if lower_char(m[a + k]) != w[k] {
            assert(to_lower(part[k as int]) != w@[k as int]);
            return false;
        }
        k += 1;
    }
    proof {
        reveal_strlit("base64");
    }
    true
}

fn has_base64_exec(m: &Vec<char>) -> (r: bool)
    ensures
        r == has_base64_param(m@),
{
    let n = m.len();
    let mut a: usize = 1;
    while n >= 6 && a <= n - 6
        invariant
            1 <= a,
            n == m@.len(),
            forall|j: int| 1 <= j < a ==> !#[trigger] is_base64_at(m@, j),
        decreases n + 1 - a,
    {
        if base64_param_at(m, a) {
            return true;
        }
        a += 1;
    }
    assert forall|j: int| !#[trigger] is_base64_at(m@, j) by {
        if 1 <= j && j >= a {
            assert(j + 6 > n);
        }
    }
    false
}

/// Splits a `data:` URI into its declared media type, its encoding flag and
/// its payload.
pub fn data_uri_parts(uri: &str) -> (r: Result<(Vec<char>, bool, Vec<char>), String>)
    ensures
        match data_uri_header(uri@) {
            Ok((declared, b64, payload)) => r is Ok && r->Ok_0.0@ == declared && r->Ok_0.1 == b64 && r->Ok_0.2@ == payload,
            Err(e) => r is Err && r->Err_0@ == e,
        },
{
    let u = chars_of(uri);
    let c = find_char_exec(&u, ',', 0);
    if c >= u.len() {
        return Err(chars_to_string("invalid data image URI: missing comma"));
    }
    let meta = sub_chars(&u, 0, c);
    let prefix = chars_of("data:");
    proof {
        reveal_strlit("data:");
    }
    let mut ok = meta.len() >= 5;
    let mut k: usize = 0;
    while ok && k < 5
        invariant
            k <= 5,
            prefix@ == "data:"@,
            prefix@.len() == 5,
            ok ==> meta@.len() >= 5,
            ok ==> forall|j: int| 0 <= j < k ==> meta@[j] == prefix@[j],
            !ok ==> !(meta@.len() >= 5 && meta@.subrange(0, 5) == "data:"@),
        decreases 5 - k + (if ok { 1int } else { 0int }),
    {
        if meta[k] != prefix[k] {
            assert(meta@.subrange(0, 5)[k as int] != prefix@[k as int]);
            ok = false;
        } else {
            k += 1;
        }
    }
    if !ok {
        return Err(chars_to_string("invalid data image URI scheme"));
    }
    assert(meta@.subrange(0, 5) =~= "data:"@);
    let m = sub_chars(&meta, 5, meta.len());
    let semi = find_char_exec(&m, ';', 0);
    let first = sub_chars(&m, 0, semi);
    let declared = lower_chars(&trim_chars(&first));
    let b64 = has_base64_exec(&m);
    let payload = sub_chars(&u, c + 1, u.len());
    Ok((declared, b64, payload))
}

fn strip_ws(b: &[u8]) -> (out: Vec<u8>)
    ensures
        out@ == strip_ws_bytes(b@),
{
    let mut out: Vec<u8> = Vec::new();
    let mut k: usize = 0;
    while k < b.len()
        invariant
            k <= b@.len(),
            out@ == strip_ws_bytes(b@.subrange(0, k as int)),
        decreases b@.len() - k,
    {
        assert(b@.subrange(0, k + 1).drop_last() =~= b@.subrange(0, k as int));
        let c = b[k];
        if !(c == 0x20 || c == 0x09 || c == 0x0a || c == 0x0c || c == 0x0d) {
            out.push(c);
        }
        k += 1;
    }
    assert(b@.subrange(0, b@.len() as int) =~= b@);
    out
}

/// Drops ASCII white space and decodes standard, padded base64.
fn decode_base64(input: &[u8]) -> (r: Result<Vec<u8>, String>)
    ensures
        match base64_payload(input@) {
            Ok(v) => r is Ok && r->Ok_0@ == v,
            Err(e) => r is Err && r->Err_0@ == e,
        },
{
    let compact = strip_ws(input);
    if compact.len() > MAX_DATA_URI_BYTES * 2 {
        return Err(chars_to_string("base64 image payload is too large"));
    }
    match base64_decode(&compact) {
        Some(v) => Ok(v),
        None => Err(chars_to_string("invalid base64 in image URI")),
    }
}

pub(crate) fn hex(b: u8) -> (r: Option<u8>)
    ensures
        r == hex_value(b),
        r is Some ==> r->0 < 16,
{
    if 0x30 <= b && b <= 0x39 {
        Some(b - 0x30)
    } else if 0x61 <= b && b <= 0x66 {
        Some(b - 0x61 + 10)
    } else if 0x41 <= b && b <= 0x46 {
        Some(b - 0x41 + 10)
    } else {
        None
    }
}

/// Decodes `%XX` escapes; every other byte stands for itself.
fn percent_decode(input: &[u8]) -> (r: Result<Vec<u8>, String>)
    ensures
        match percent_payload(input@) {
            Ok(v) => r is Ok && r->Ok_0@ == v,
            Err(e) => r is Err && r->Err_0@ == e,
        },
{
    let n = input.len();
    if n > MAX_DATA_URI_BYTES * 3 {
        return Err(chars_to_string("percent-encoded image payload is too large"));
    }
    let ghost b = input@;
    let mut out: Vec<u8> = Vec::new();
    let mut i: usize = 0;
    while i < n
        invariant
            i <= n,
            n == b.len(),
            n <= 3 * MAX_DATA_URI_BYTES,
            b == input@,
            out@.len() <= i,
            percent_from(b, i as int, out@) == percent_from(b, 0, seq![]),
        decreases n - i,
    {
        if out.len() >= MAX_DATA_URI_BYTES {
            return Err(chars_to_string("embedded image payload exceeds byte limit"));
        }
        if input[i] == 0x25 {
            if i + 2 >= n {
                return Err(chars_to_string("truncated percent escape in data URI"));
            }
            let h = match hex(input[i + 1]) {
                Some(h) => h,
                None => {
                    return Err(chars_to_string("invalid percent escape in data URI"));
                },
            };
            let l = match hex(input[i + 2]) {
                Some(l) => l,
                None => {
                    return Err(chars_to_string("invalid percent escape in data URI"));
                },
            };
            let v: u8 = (h << 4) | l;
            assert(v == h * 16 + l) by (bit_vector)
                requires
                    h < 16,
                    l < 16,
                    v == (h << 4) | l,
            ;
            out.push(v);
            i += 3;
        } else {
            out.push(input[i]);
            i += 1;
        }
    }
    Ok(out)
}

// ---------------------------------------------------------------------------
// Decoding

pub open spec fn decoded_is(d: DecodedImage, codec: ImageCodec, width: u32, height: u32, pixels: Seq<u8>) -> bool {
    d.codec == codec && d.width == width && d.height == height && d.pixels@ == pixels
}

/// What decoding a PNG, JPEG, WebP or GIF payload gives: its dimensions and
/// RGBA8 pixels, or the first error met.
pub open spec fn raster_outcome(codec: ImageCodec, bytes: Seq<u8>) -> Result<(u32, u32, Seq<u8>), Seq<char>> {
    match raster_dimensions(codec, bytes) {
        Err(e) => Err("invalid embedded "@ + mime_text(codec) + ": "@ + e),
        Ok((w, h)) => match dims_error(w, h) {
            Some(m) => Err(m),
            None => match raster_pixels(codec, bytes) {
                Err(e) => Err("could not decode embedded "@ + mime_text(codec) + ": "@ + e),
                Ok(p) => if p.len() > MAX_DECODED_BYTES {
                    Err("decoded image exceeds memory limit"@)
                } else {
                    Ok((w, h, p))
                },
            },
        },
    }
}

/// What decoding an SVG payload gives: its size as `usvg` reads it, with
/// four bytes for each pixel, or the first error met. The pixel values
/// themselves are left open: an `<image>` in the document may load files.
pub open spec fn svg_outcome(bytes: Seq<u8>, r: Result<DecodedImage, String>) -> bool {
    if !valid_utf8(bytes) {
        r is Err && r->Err_0@ == "embedded SVG is not UTF-8"@
    } else {
        match svg_tree_error(decode_utf8(bytes)) {
            Some(e) => r is Err && r->Err_0@ == "invalid embedded SVG: "@ + e,
            None => {
                let (w, h) = svg_tree_size(decode_utf8(bytes));
                match dims_error(w, h) {
                    Some(m) => r is Err && r->Err_0@ == m,
                    None => r matches Ok(d) && d.codec == ImageCodec::Svg && d.width == w && d.height == h
                        && d.pixels@.len() == 4 * w * h,
                }
            },
        }
    }
}

pub open spec fn decode_outcome(codec: ImageCodec, bytes: Seq<u8>, r: Result<DecodedImage, String>) -> bool {
    if codec == ImageCodec::Svg {
        svg_outcome(bytes, r)
    } else {
        match raster_outcome(codec, bytes) {
            Ok((w, h, p)) => r is Ok && decoded_is(r->Ok_0, codec, w, h, p),
            Err(e) => r is Err && r->Err_0@ == e,
        }
    }
}

fn decode_raster(codec: ImageCodec, bytes: &Vec<u8>) -> (r: Result<DecodedImage, String>)
    requires
        codec != ImageCodec::Svg,
    ensures
        match raster_outcome(codec, bytes@) {
            Ok((w, h, p)) => r is Ok && decoded_is(r->Ok_0, codec, w, h, p),
            Err(e) => r is Err && r->Err_0@ == e,
        },
{
    let (width, height) = match decode_raster_dimensions(codec, bytes) {
        Ok(d) => d,
        Err(e) => {
            let mut m = chars_of("invalid embedded ");
            append_str(&mut m, codec.mime());
            append_str(&mut m, ": ");
            append_str(&mut m, e.as_str());
            return Err(string_of(&m));
        },
    };
    match validate_dimensions(width, height) {
        Ok(()) => {},
        Err(m) => {
            return Err(m);
        },
    }
    let pixels = match decode_raster_pixels(codec, bytes) {
        Ok(p) => p,
        Err(e) => {
            let mut m = chars_of("could not decode embedded ");
            append_str(&mut m, codec.mime());
            append_str(&mut m, ": ");
            append_str(&mut m, e.as_str());
            return Err(string_of(&m));
        },
    };
    if pixels.len() > MAX_DECODED_BYTES {
        return Err(chars_to_string("decoded image exceeds memory limit"));
    }
    Ok(DecodedImage { codec, width, height, pixels })
}

fn decode_svg(bytes: &Vec<u8>) -> (r: Result<DecodedImage, String>)
    ensures
        svg_outcome(bytes@, r),
{
    let text = match utf8_text(bytes.as_slice()) {
        Some(t) => t,
        None => {
            return Err(chars_to_string("embedded SVG is not UTF-8"));
        },
    };
    proof {
        encode_utf8_decode_utf8(text@);
    }
    let (tree, width, height) = match parse_svg_tree(text) {
        Ok(t) => t,
        Err(e) => {
            let mut m = chars_of("invalid embedded SVG: ");
            append_str(&mut m, e.as_str());
            return Err(string_of(&m));
        },
    };
    match validate_dimensions(width, height) {
        Ok(()) => {},
        Err(m) => {
            return Err(m);
        },
    }
    let mut source = match new_pixmap(width, height) {
        Some(p) => p,
        None => {
            return Err(chars_to_string("could not allocate embedded SVG"));
        },
    };
    render_svg_tree(&tree, &mut source);
    let pixels = pixmap_bytes(&source);
    assert(pixels@.len() <= MAX_DECODED_BYTES) by (nonlinear_arith)
        requires
            pixels@.len() == 4 * width * height,
            width * height <= 16777216,
    ;
    if pixels.len() > MAX_DECODED_BYTES {
        return Err(chars_to_string("decoded SVG exceeds memory limit"));
    }
    Ok(DecodedImage { codec: ImageCodec::Svg, width, height, pixels })
}

/// Decodes a payload whose format is already known.
pub fn decode_bytes(codec: ImageCodec, bytes: &[u8]) -> (r: Result<DecodedImage, String>)
    ensures
        decode_outcome(codec, bytes@, r),
{
    let owned = crate::text::sub_bytes(bytes, 0, bytes.len());
    assert(owned@ =~= bytes@);
    match codec {
        ImageCodec::Svg => decode_svg(&owned),
        _ => decode_raster(codec, &owned),
    }
}

pub open spec fn mime_mismatch(declared: Seq<char>, codec: ImageCodec) -> bool {
    declared.len() > 0 && declared != mime_text(codec) && !(codec == ImageCodec::Jpeg && declared == "image/jpg"@)
}

/// How a `data:` URI is checked before its payload is decoded: the payload
/// bytes and their format, or the first error met.
pub open spec fn data_uri_payload(u: Seq<char>) -> Result<(ImageCodec, Seq<u8>), Seq<char>> {
    match data_uri_header(u) {
        Err(e) => Err(e),
        Ok((declared, b64, payload)) => {
            let raw = encode_utf8(payload);
            match (if b64 { base64_payload(raw) } else { percent_payload(raw) }) {
                Err(e) => Err(e),
                Ok(bytes) => if bytes.len() > MAX_DATA_URI_BYTES {
                    Err("embedded image payload exceeds 16777216 byte limit"@)
                } else {
                    match sniff_spec(bytes) {
                        None => Err("embedded image payload is not a supported raster/SVG format"@),
                        Some(codec) => if mime_mismatch(declared, codec) {
                            Err("embedded image MIME `"@ + declared + "` does not match detected `"@ + mime_text(codec) + "` payload"@)
                        } else {
                            Ok((codec, bytes))
                        },
                    }
                },
            }
        },
    }
}

/// Decodes a `data:` URI holding a PNG, JPEG, WebP, GIF or SVG image.
pub fn decode_data_uri(uri: &str) -> (r: Result<DecodedImage, String>)
    ensures
        match data_uri_payload(uri@) {
            Err(e) => r is Err && r->Err_0@ == e,
            Ok((codec, bytes)) => decode_outcome(codec, bytes, r),
        },
{
    let (declared, b64, payload) = match data_uri_parts(uri) {
        Ok(p) => p,
        Err(e) => {
            return Err(e);
        },
    };
    let payload_text = string_of(&payload);
    let raw = payload_text.as_str().as_bytes();
    let decoded = if b64 { decode_base64(raw) } else { percent_decode(raw) };
    let bytes = match decoded {
        Ok(b) => b,
        Err(e) => {
            return Err(e);
        },
    };
    if bytes.len() > MAX_DATA_URI_BYTES {
        return Err(chars_to_string("embedded image payload exceeds 16777216 byte limit"));
    }
    let codec = match sniff_codec(bytes.as_slice()) {
        Some(c) => c,
        None => {
            return Err(chars_to_string("embedded image payload is not a supported raster/SVG format"));
        },
    };
    let mime = codec.mime();
    let mismatch = declared.len() > 0 && !crate::parser::chars_eq(&declared, &chars_of(mime))
        && !(codec == ImageCodec::Jpeg && crate::parser::chars_eq(&declared, &chars_of("image/jpg")));
    if mismatch {
        let mut m = chars_of("embedded image MIME `");
        append_chars(&mut m, &declared);
        append_str(&mut m, "` does not match detected `");
        append_str(&mut m, mime);
        append_str(&mut m, "` payload");
        return Err(string_of(&m));
    }
    decode_bytes(codec, bytes.as_slice())
}

fn chars_to_string(s: &str) -> (r: String)
    ensures
        r@ == s@,
{
    crate::text::chars_to_string_lit(s)
}

// ---------------------------------------------------------------------------
// Normalizing to PNG

/// What normalizing a decoded image to a PNG `data:` URI gives.
pub open spec fn png_uri_spec(width: u32, height: u32, pixels: Seq<u8>) -> Result<Seq<char>, Seq<char>> {
    if pixels.len() != 4 * width * height {
        Err("decoded RGBA buffer length does not match dimensions"@)
    } else {
        match png_encoding(width, height, pixels) {
            Err(e) => Err("could not normalize embedded image to PNG: "@ + e),
            Ok(b) => Ok("data:image/png;base64,"@ + base64_text(b)),
        }
    }
}

/// Writes a decoded image as a PNG `data:` URI.
pub fn png_data_uri(decoded: &DecodedImage) -> (r: Result<String, String>)
    ensures
        match png_uri_spec(decoded.width, decoded.height, decoded.pixels@) {
            Ok(u) => r matches Ok(v) && v@ == u,
            Err(e) => r matches Err(m) && m@ == e,
        },
{
    let w = decoded.width as u128;
    let h = decoded.height as u128;
    assert(w * h <= 0xffff_ffff * 0xffff_ffff) by (nonlinear_arith)
        requires
            w <= 0xffff_ffff,
            h <= 0xffff_ffff,
    ;
    let need: u128 = 4 * (w * h);
    assert(need == 4 * decoded.width * decoded.height) by (nonlinear_arith)
        requires
            need == 4 * (w * h),
            w == decoded.width,
            h == decoded.height,
    ;
    if (decoded.pixels.len() as u128) != need {
        return Err(chars_to_string("decoded RGBA buffer length does not match dimensions"));
    }
    match encode_png(decoded.width, decoded.height, &decoded.pixels) {
        Err(e) => {
            let mut m = chars_of("could not normalize embedded image to PNG: ");
            append_str(&mut m, e.as_str());
            Err(string_of(&m))
        },
        Ok(bytes) => {
            let text = base64_encode(&bytes);
            let mut m = chars_of("data:image/png;base64,");
            append_str(&mut m, text.as_str());
            Ok(string_of(&m))
        },
    }
}

} // verus!
