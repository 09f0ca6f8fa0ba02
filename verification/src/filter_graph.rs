//! Native filter graphs: the text of a `filter-graph` property (statements
//! such as `blur(2)->a; offset(in=a dx=3 dy=4)->b`) parsed into nodes with
//! named results, the graph's output and its region. Numbers are held as
//! exact decimals.
use vstd::prelude::*;
use crate::font::split_from;
use crate::formatter::{is_ws, line_views, trim, trim_chars};
use crate::image::{find_char, find_char_exec};
use crate::ir::{decimal, push_decimal};
use crate::length::{parse_px, parse_px_exec, px_wf, tokens_exec, tokens_from, Px};
use crate::model::{BlendMode, FilterInput, MorphologyOperator, RenderDiagnostic, Rgba};
use crate::srctext::{starts_with, starts_with_exec};
use crate::svg_v4::{channel, channel_exec, colour_bytes4, is_text, last_get};
use crate::props::{copy_chars, pm_view};
use crate::svg_import::copy_str;
use crate::text::{append_chars, append_str, chars_of, string_of, sub_chars};

verus! {

// ---------------------------------------------------------------------------
// Graphs

/// The area a filter may paint into.
#[derive(Debug, Clone, Copy, PartialEq, Eq, Structural)]
pub struct FilterRegion {
    pub x: Px,
    pub y: Px,
    pub width: Px,
    pub height: Px,
}

impl FilterRegion {
    /// The whole of a `width` by `height` canvas.
    pub fn full(width: u16, height: u16) -> (r: Self)
        ensures
            r.x == (Px::Fin { neg: false, mag: 0 }),
            r.y == (Px::Fin { neg: false, mag: 0 }),
            r.width == (Px::Fin { neg: false, mag: (width as u128 * 1000000000) as u128 }),
            r.height == (Px::Fin { neg: false, mag: (height as u128 * 1000000000) as u128 }),
    {
        FilterRegion {
            x: Px::Fin { neg: false, mag: 0 },
            y: Px::Fin { neg: false, mag: 0 },
            width: Px::Fin { neg: false, mag: width as u128 * 1000000000 },
            height: Px::Fin { neg: false, mag: height as u128 * 1000000000 },
        }
    }
}

#[derive(Debug, Clone, Copy, PartialEq, Eq, Structural)]
pub enum CompositeOperator {
    Over,
    In,
    Out,
    Atop,
    Xor,
    Arithmetic { k1: Px, k2: Px, k3: Px, k4: Px },
}

#[derive(Debug, Clone, PartialEq)]
pub enum TransferFunction {
    Identity,
    Table(Vec<Px>),
    Discrete(Vec<Px>),
    Linear { slope: Px, intercept: Px },
    Gamma { amplitude: Px, exponent: Px, offset: Px },
}

/// One primitive of a filter graph; a colour matrix holds twenty values.
#[derive(Debug, Clone, PartialEq)]
pub enum FilterPrimitive {
    GaussianBlur { input: FilterInput, sigma_x: Px, sigma_y: Px },
    Offset { input: FilterInput, dx: Px, dy: Px },
    Blend { input: FilterInput, input2: FilterInput, mode: BlendMode },
    Composite { input: FilterInput, input2: FilterInput, operator: CompositeOperator },
    ColorMatrix { input: FilterInput, matrix: Vec<Px> },
    Flood { color: Rgba },
    Merge { inputs: Vec<FilterInput> },
    Morphology { input: FilterInput, operator: MorphologyOperator, radius_x: Px, radius_y: Px },
    ComponentTransfer {
        input: FilterInput,
        red: TransferFunction,
        green: TransferFunction,
        blue: TransferFunction,
        alpha: TransferFunction,
    },
    Unsupported { name: String, input: FilterInput },
}

#[derive(Debug, Clone, PartialEq)]
pub struct FilterNode {
    pub result: String,
    pub op: FilterPrimitive,
}

#[derive(Debug, Clone, PartialEq)]
pub struct FilterGraph {
    pub nodes: Vec<FilterNode>,
    pub output: FilterInput,
    pub region: FilterRegion,
}

// ---------------------------------------------------------------------------
// Views

pub enum InputV {
    SourceGraphic,
    SourceAlpha,
    Named(Seq<char>),
}

pub open spec fn input_view(i: FilterInput) -> InputV {
    match i {
        FilterInput::SourceGraphic => InputV::SourceGraphic,
        FilterInput::SourceAlpha => InputV::SourceAlpha,
        FilterInput::Named(n) => InputV::Named(n@),
    }
}

pub enum TransferV {
    Identity,
    Table(Seq<Px>),
    Discrete(Seq<Px>),
    Linear(Px, Px),
    Gamma(Px, Px, Px),
}

pub open spec fn transfer_view(t: TransferFunction) -> TransferV {
    match t {
        TransferFunction::Identity => TransferV::Identity,
        TransferFunction::Table(v) => TransferV::Table(v@),
        TransferFunction::Discrete(v) => TransferV::Discrete(v@),
        TransferFunction::Linear { slope, intercept } => TransferV::Linear(slope, intercept),
        TransferFunction::Gamma { amplitude, exponent, offset } => TransferV::Gamma(amplitude, exponent, offset),
    }
}

pub enum PrimV {
    GaussianBlur(InputV, Px, Px),
    Offset(InputV, Px, Px),
    Blend(InputV, InputV, BlendMode),
    Composite(InputV, InputV, CompositeOperator),
    ColorMatrix(InputV, Seq<Px>),
    Flood(Rgba),
    Merge(Seq<InputV>),
    Morphology(InputV, MorphologyOperator, Px, Px),
    ComponentTransfer(InputV, TransferV, TransferV, TransferV, TransferV),
    Unsupported(Seq<char>, InputV),
}

pub open spec fn inputs_view(v: Seq<FilterInput>) -> Seq<InputV> {
    v.map_values(|i: FilterInput| input_view(i))
}

pub open spec fn prim_view(p: FilterPrimitive) -> PrimV {
    match p {
        FilterPrimitive::GaussianBlur { input, sigma_x, sigma_y } => PrimV::GaussianBlur(input_view(input), sigma_x, sigma_y),
        FilterPrimitive::Offset { input, dx, dy } => PrimV::Offset(input_view(input), dx, dy),
        FilterPrimitive::Blend { input, input2, mode } => PrimV::Blend(input_view(input), input_view(input2), mode),
        FilterPrimitive::Composite { input, input2, operator } => PrimV::Composite(input_view(input), input_view(input2), operator),
        FilterPrimitive::ColorMatrix { input, matrix } => PrimV::ColorMatrix(input_view(input), matrix@),
        FilterPrimitive::Flood { color } => PrimV::Flood(color),
        FilterPrimitive::Merge { inputs } => PrimV::Merge(inputs_view(inputs@)),
        FilterPrimitive::Morphology { input, operator, radius_x, radius_y } => PrimV::Morphology(input_view(input), operator,
            radius_x, radius_y),
        FilterPrimitive::ComponentTransfer { input, red, green, blue, alpha } => PrimV::ComponentTransfer(input_view(input),
            transfer_view(red), transfer_view(green), transfer_view(blue), transfer_view(alpha)),
        FilterPrimitive::Unsupported { name, input } => PrimV::Unsupported(name@, input_view(input)),
    }
}

pub open spec fn nodes_view(v: Seq<FilterNode>) -> Seq<(Seq<char>, PrimV)> {
    v.map_values(|n: FilterNode| (n.result@, prim_view(n.op)))
}

/// A renderer warning as plain values: severity, code and message.
pub open spec fn rdiag_view(d: RenderDiagnostic) -> (Seq<char>, Seq<char>, Seq<char>, Option<Seq<char>>) {
    (d.severity@, d.code@, d.message@, crate::xml::opt_str_view(d.declaration))
}

pub open spec fn rdiags_view(v: Seq<RenderDiagnostic>) -> Seq<(Seq<char>, Seq<char>, Seq<char>, Option<Seq<char>>)> {
    v.map_values(|d: RenderDiagnostic| rdiag_view(d))
}

// ---------------------------------------------------------------------------
// Pieces of text

/// Whether `c` separates the items of a list: `,` and `|`, and white space
/// when `ws`.
pub open spec fn list_sep(c: char, ws: bool) -> bool {
    c == ',' || c == '|' || (ws && is_ws(c))
}

/// The first separator at or after `i`.
pub open spec fn sep_at(s: Seq<char>, i: int, ws: bool) -> int
    decreases s.len() - i,
{
    if i < 0 || i >= s.len() {
        s.len() as int
    } else if list_sep(s[i], ws) {
        i
    } else {
        sep_at(s, i + 1, ws)
    }
}

pub proof fn lemma_sep_at(s: Seq<char>, i: int, ws: bool)
    requires
        0 <= i <= s.len(),
    ensures
        i <= sep_at(s, i, ws) <= s.len(),
        forall|k: int| i <= k < sep_at(s, i, ws) ==> !list_sep(#[trigger] s[k], ws),
        sep_at(s, i, ws) < s.len() ==> list_sep(s[sep_at(s, i, ws)], ws),
    decreases s.len() - i,
{
    if i < s.len() && !list_sep(s[i], ws) {
        lemma_sep_at(s, i + 1, ws);
    }
}

/// `str::split` at the separators, from index `i` on.
pub open spec fn pieces(s: Seq<char>, i: int, ws: bool) -> Seq<Seq<char>>
    decreases s.len() - i,
{
    if i < 0 || i > s.len() {
        Seq::empty()
    } else {
        let k = sep_at(s, i, ws);
        proof {
            lemma_sep_at(s, i, ws);
        }
        if k >= s.len() {
            seq![s.subrange(i, s.len() as int)]
        } else {
            seq![s.subrange(i, k)] + pieces(s, k + 1, ws)
        }
    }
}

/// The items that are not empty.
pub open spec fn non_empty(v: Seq<Seq<char>>) -> Seq<Seq<char>>
    decreases v.len(),
{
    if v.len() == 0 {
        Seq::empty()
    } else {
        non_empty(v.drop_last()) + if v.last().len() > 0 { seq![v.last()] } else { Seq::empty() }
    }
}

/// A list of numbers separated by `,`, `|` or white space; the first item
/// that is no number is an error.
pub open spec fn number_list(items: Seq<Seq<char>>) -> Result<Seq<Px>, Seq<char>>
    decreases items.len(),
{
    if items.len() == 0 {
        Ok(Seq::empty())
    } else {
        match number_list(items.drop_last()) {
            Err(e) => Err(e),
            Ok(ns) => match parse_px(items.last()) {
                Some(p) => Ok(ns.push(p)),
                None => Err("invalid filter number `"@ + items.last() + "`"@),
            },
        }
    }
}

pub open spec fn parse_number_list(v: Seq<char>) -> Result<Seq<Px>, Seq<char>> {
    number_list(non_empty(pieces(v, 0, true)))
}

pub open spec fn parse_input(v: Seq<char>) -> InputV {
    let t = trim(v);
    if t == "SourceGraphic"@ {
        InputV::SourceGraphic
    } else if t == "SourceAlpha"@ {
        InputV::SourceAlpha
    } else {
        InputV::Named(t)
    }
}

pub open spec fn parse_blend(v: Seq<char>) -> Result<BlendMode, Seq<char>> {
    if v == "normal"@ {
        Ok(BlendMode::Normal)
    } else if v == "multiply"@ {
        Ok(BlendMode::Multiply)
    } else if v == "screen"@ {
        Ok(BlendMode::Screen)
    } else if v == "darken"@ {
        Ok(BlendMode::Darken)
    } else if v == "lighten"@ {
        Ok(BlendMode::Lighten)
    } else {
        Err("unsupported blend mode `"@ + v + "`"@)
    }
}

pub open spec fn parse_composite(v: Seq<char>) -> Result<CompositeOperator, Seq<char>> {
    if v == "over"@ {
        Ok(CompositeOperator::Over)
    } else if v == "in"@ {
        Ok(CompositeOperator::In)
    } else if v == "out"@ {
        Ok(CompositeOperator::Out)
    } else if v == "atop"@ {
        Ok(CompositeOperator::Atop)
    } else if v == "xor"@ {
        Ok(CompositeOperator::Xor)
    } else {
        Err("unsupported composite operator `"@ + v + "`"@)
    }
}

/// A finite number that is not below zero (a negative zero included).
pub open spec fn finite_nonnegative(p: Px) -> bool {
    p matches Px::Fin { neg, mag } && (!neg || mag == 0)
}

pub open spec fn parse_transfer(v: Option<Seq<char>>) -> Result<TransferV, Seq<char>> {
    match v {
        None => Ok(TransferV::Identity),
        Some(raw) => {
            let t = trim(raw);
            if t == "identity"@ {
                Ok(TransferV::Identity)
            } else if starts_with(t, "table:"@) {
                match parse_number_list(t.subrange(6, t.len() as int)) {
                    Ok(n) => Ok(TransferV::Table(n)),
                    Err(e) => Err(e),
                }
            } else if starts_with(t, "discrete:"@) {
                match parse_number_list(t.subrange(9, t.len() as int)) {
                    Ok(n) => Ok(TransferV::Discrete(n)),
                    Err(e) => Err(e),
                }
            } else if starts_with(t, "linear:"@) {
                match parse_number_list(t.subrange(7, t.len() as int)) {
                    Ok(n) => if n.len() == 2 {
                        Ok(TransferV::Linear(n[0], n[1]))
                    } else {
                        Err("linear transfer requires slope intercept"@)
                    },
                    Err(e) => Err(e),
                }
            } else if starts_with(t, "gamma:"@) {
                match parse_number_list(t.subrange(6, t.len() as int)) {
                    Ok(n) => if n.len() == 3 {
                        Ok(TransferV::Gamma(n[0], n[1], n[2]))
                    } else {
                        Err("gamma transfer requires amplitude exponent offset"@)
                    },
                    Err(e) => Err(e),
                }
            } else {
                Err("unsupported component transfer function `"@ + t + "`"@)
            }
        },
    }
}

/// A colour channel as `u8::from_str_radix(.., 16)` reads two bytes.
pub open spec fn byte_of(x: u8, y: u8) -> Option<u8> {
    match channel(x, y) {
        Some(v) => Some(v as u8),
        None => None,
    }
}

pub open spec fn hex_rgba(r: Option<u8>, g: Option<u8>, b: Option<u8>, a: Option<u8>) -> Result<Rgba, Seq<char>> {
    if r is Some && g is Some && b is Some && a is Some {
        Ok(Rgba { r: r->0, g: g->0, b: b->0, a: a->0 })
    } else {
        Err("invalid flood color"@)
    }
}

/// A flood colour: `#rgb`, `#rgba`, `#rrggbb` or `#rrggbbaa`.
pub open spec fn parse_hex_color(v: Seq<char>) -> Result<Rgba, Seq<char>> {
    let t = trim(v);
    if t.len() == 0 || t[0] != '#' {
        Err("unsupported flood color `"@ + t + "`"@)
    } else {
        let h = colour_bytes4(t);
        if h.len() == 3 {
            hex_rgba(byte_of(h[0], h[0]), byte_of(h[1], h[1]), byte_of(h[2], h[2]), Some(255))
        } else if h.len() == 4 {
            hex_rgba(byte_of(h[0], h[0]), byte_of(h[1], h[1]), byte_of(h[2], h[2]), byte_of(h[3], h[3]))
        } else if h.len() == 6 {
            hex_rgba(byte_of(h[0], h[1]), byte_of(h[2], h[3]), byte_of(h[4], h[5]), Some(255))
        } else if h.len() == 8 {
            hex_rgba(byte_of(h[0], h[1]), byte_of(h[2], h[3]), byte_of(h[4], h[5]), byte_of(h[6], h[7]))
        } else {
            Err("flood color must be hexadecimal RGB or RGBA"@)
        }
    }
}

/// Whether reading a flood colour slices its bytes only between characters:
/// the slices are taken channel by channel, and the first channel that is
/// no hexadecimal number ends the reading.
pub open spec fn flood_sliceable(v: Seq<char>) -> bool {
    let t = trim(v);
    let h = colour_bytes4(t);
    if t.len() == 0 || t[0] != '#' {
        true
    } else if h.len() == 3 || h.len() == 4 {
        vstd::utf8::is_char_boundary(h, 1) && (byte_of(h[0], h[0]) is None || (vstd::utf8::is_char_boundary(h, 2) && (
        byte_of(h[1], h[1]) is None || vstd::utf8::is_char_boundary(h, 3))))
    } else if h.len() == 6 || h.len() == 8 {
        vstd::utf8::is_char_boundary(h, 2) && (byte_of(h[0], h[1]) is None || (vstd::utf8::is_char_boundary(h, 4) && (
        byte_of(h[2], h[3]) is None || vstd::utf8::is_char_boundary(h, 6))))
    } else {
        true
    }
}

// ---------------------------------------------------------------------------
// Arguments

/// `(key, value)` of a `key=value` token, both trimmed.
pub open spec fn field_of(t: Seq<char>) -> Option<(Seq<char>, Seq<char>)> {
    let k = find_char(t, '=', 0);
    if k < t.len() { Some((trim(t.subrange(0, k)), trim(t.subrange(k + 1, t.len() as int)))) } else { None }
}

pub open spec fn fields_from(ts: Seq<Seq<char>>) -> Seq<(Seq<char>, Seq<char>)>
    decreases ts.len(),
{
    if ts.len() == 0 {
        Seq::empty()
    } else {
        fields_from(ts.drop_last()) + match field_of(ts.last()) {
            Some(f) => seq![f],
            None => Seq::empty(),
        }
    }
}

/// The `key=value` arguments; for a repeated key the last value counts.
pub open spec fn fields(args: Seq<char>) -> Seq<(Seq<char>, Seq<char>)> {
    fields_from(tokens_from(args, 0, true))
}

pub open spec fn positional_from(ts: Seq<Seq<char>>) -> Seq<Seq<char>>
    decreases ts.len(),
{
    if ts.len() == 0 {
        Seq::empty()
    } else {
        positional_from(ts.drop_last()) + if find_char(ts.last(), '=', 0) >= ts.last().len() {
            seq![ts.last()]
        } else {
            Seq::empty()
        }
    }
}

/// The arguments that are no `key=value` pair.
pub open spec fn positional(args: Seq<char>) -> Seq<Seq<char>> {
    positional_from(tokens_from(args, 0, true))
}

pub open spec fn numbers_from(ts: Seq<Seq<char>>) -> Seq<Px>
    decreases ts.len(),
{
    if ts.len() == 0 {
        Seq::empty()
    } else {
        numbers_from(ts.drop_last()) + match parse_px(ts.last()) {
            Some(p) => seq![p],
            None => Seq::empty(),
        }
    }
}

/// The positional arguments that are numbers.
pub open spec fn nums(args: Seq<char>) -> Seq<Px> {
    numbers_from(positional(args))
}

pub open spec fn field_number(fs: Seq<(Seq<char>, Seq<char>)>, key: Seq<char>) -> Option<Px> {
    match last_get(fs, key) {
        Some(v) => parse_px(v),
        None => None,
    }
}

pub open spec fn or_px(a: Option<Px>, b: Option<Px>) -> Option<Px> {
    match a {
        Some(x) => Some(x),
        None => b,
    }
}

pub open spec fn nth(ns: Seq<Px>, i: int) -> Option<Px> {
    if 0 <= i < ns.len() { Some(ns[i]) } else { None }
}

pub open spec fn px_or(a: Option<Px>, d: Px) -> Px {
    match a {
        Some(x) => x,
        None => d,
    }
}

pub open spec fn zero() -> Px {
    Px::Fin { neg: false, mag: 0 }
}

pub open spec fn text_or(a: Option<Seq<char>>, b: Option<Seq<char>>, d: Seq<char>) -> Seq<char> {
    match a {
        Some(x) => x,
        None => match b {
            Some(y) => y,
            None => d,
        },
    }
}

// ---------------------------------------------------------------------------
// Primitives

pub open spec fn input_of(fs: Seq<(Seq<char>, Seq<char>)>, previous: InputV) -> InputV {
    match last_get(fs, "in"@) {
        Some(v) => parse_input(v),
        None => previous,
    }
}

pub open spec fn input2_of(fs: Seq<(Seq<char>, Seq<char>)>) -> InputV {
    match last_get(fs, "in2"@) {
        Some(v) => parse_input(v),
        None => InputV::SourceGraphic,
    }
}

pub open spec fn blur_spec(args: Seq<char>, input: InputV) -> Result<PrimV, Seq<char>> {
    let fs = fields(args);
    let ns = nums(args);
    match or_px(field_number(fs, "sigma"@), or_px(field_number(fs, "sigma_x"@), nth(ns, 0))) {
        None => Err("feGaussianBlur requires sigma"@),
        Some(sx) => {
            let sy = px_or(or_px(field_number(fs, "sigma_y"@), nth(ns, 1)), sx);
            if !finite_nonnegative(sx) || !finite_nonnegative(sy) {
                Err("blur sigma must be finite and non-negative"@)
            } else {
                Ok(PrimV::GaussianBlur(input, sx, sy))
            }
        },
    }
}

pub open spec fn offset_spec(args: Seq<char>, input: InputV) -> PrimV {
    let fs = fields(args);
    let ns = nums(args);
    PrimV::Offset(input, px_or(or_px(field_number(fs, "dx"@), nth(ns, 0)), zero()), px_or(or_px(field_number(fs, "dy"@),
        nth(ns, 1)), zero()))
}

pub open spec fn composite_spec(args: Seq<char>, input: InputV) -> Result<PrimV, Seq<char>> {
    let fs = fields(args);
    let op = text_or(last_get(fs, "operator"@), last_get(fs, "op"@), "over"@);
    if op == "arithmetic"@ {
        Ok(PrimV::Composite(input, input2_of(fs), CompositeOperator::Arithmetic {
            k1: px_or(field_number(fs, "k1"@), zero()),
            k2: px_or(field_number(fs, "k2"@), zero()),
            k3: px_or(field_number(fs, "k3"@), zero()),
            k4: px_or(field_number(fs, "k4"@), zero()),
        }))
    } else {
        match parse_composite(op) {
            Ok(o) => Ok(PrimV::Composite(input, input2_of(fs), o)),
            Err(e) => Err(e),
        }
    }
}

pub open spec fn matrix_spec(args: Seq<char>, input: InputV) -> Result<PrimV, Seq<char>> {
    let values = match last_get(fields(args), "values"@) {
        Some(v) => parse_number_list(v),
        None => Ok(nums(args)),
    };
    match values {
        Err(e) => Err(e),
        Ok(vs) => if vs.len() != 20 {
            Err("feColorMatrix matrix requires exactly 20 values"@)
        } else {
            Ok(PrimV::ColorMatrix(input, vs))
        },
    }
}

pub open spec fn flood_value(args: Seq<char>) -> Seq<char> {
    let fs = fields(args);
    text_or(last_get(fs, "color"@), last_get(fs, "flood-color"@), "#000000ff"@)
}

pub open spec fn merge_spec(args: Seq<char>) -> Result<PrimV, Seq<char>> {
    let vs = match last_get(fields(args), "inputs"@) {
        Some(v) => non_empty(pieces(v, 0, false)).map_values(|s: Seq<char>| parse_input(s)),
        None => positional(args).map_values(|s: Seq<char>| parse_input(s)),
    };
    if vs.len() == 0 {
        Err("feMerge requires at least one input"@)
    } else {
        Ok(PrimV::Merge(vs))
    }
}

pub open spec fn morphology_spec(args: Seq<char>, input: InputV) -> Result<PrimV, Seq<char>> {
    let fs = fields(args);
    let ns = nums(args);
    let rx = px_or(or_px(field_number(fs, "radius"@), or_px(field_number(fs, "radius_x"@), nth(ns, 0))), zero());
    let ry = px_or(or_px(field_number(fs, "radius_y"@), nth(ns, 1)), rx);
    if !finite_nonnegative(rx) || !finite_nonnegative(ry) {
        Err("morphology radius must be finite and non-negative"@)
    } else {
        let op = text_or(last_get(fs, "operator"@), None, "erode"@);
        if op == "erode"@ {
            Ok(PrimV::Morphology(input, MorphologyOperator::Erode, rx, ry))
        } else if op == "dilate"@ {
            Ok(PrimV::Morphology(input, MorphologyOperator::Dilate, rx, ry))
        } else {
            Err("unsupported morphology operator `"@ + op + "`"@)
        }
    }
}

pub open spec fn transfer_spec(args: Seq<char>, input: InputV) -> Result<PrimV, Seq<char>> {
    let fs = fields(args);
    match (parse_transfer(last_get(fs, "r"@)), parse_transfer(last_get(fs, "g"@)), parse_transfer(last_get(fs, "b"@)),
        parse_transfer(last_get(fs, "a"@))) {
        (Err(e), _, _, _) => Err(e),
        (Ok(_), Err(e), _, _) => Err(e),
        (Ok(_), Ok(_), Err(e), _) => Err(e),
        (Ok(_), Ok(_), Ok(_), Err(e)) => Err(e),
        (Ok(r), Ok(g), Ok(b), Ok(a)) => Ok(PrimV::ComponentTransfer(input, r, g, b, a)),
    }
}

/// The warning for a primitive the renderer bypasses.
pub open spec fn bypass_diag(name: Seq<char>) -> (Seq<char>, Seq<char>, Seq<char>, Option<Seq<char>>) {
    ("warning"@, "G241"@, "unsupported filter primitive `"@ + name + "` is explicitly bypassed; its input is preserved"@, None)
}

/// The primitive `name(args)` reads as, taking `previous` as its input when
/// it names none, and the warning it gives.
pub open spec fn primitive(name: Seq<char>, args: Seq<char>, previous: InputV) -> Result<
    (PrimV, Option<(Seq<char>, Seq<char>, Seq<char>, Option<Seq<char>>)>),
    Seq<char>,
> {
    let input = input_of(fields(args), previous);
    let plain = |r: Result<PrimV, Seq<char>>|
        match r {
            Ok(p) => Ok((p, None::<(Seq<char>, Seq<char>, Seq<char>, Option<Seq<char>>)>)),
            Err(e) => Err(e),
        };
    if name == "blur"@ || name == "feGaussianBlur"@ {
        plain(blur_spec(args, input))
    } else if name == "offset"@ || name == "feOffset"@ {
        plain(Ok(offset_spec(args, input)))
    } else if name == "blend"@ || name == "feBlend"@ {
        let fs = fields(args);
        match parse_blend(text_or(last_get(fs, "mode"@), None, "normal"@)) {
            Ok(m) => plain(Ok(PrimV::Blend(input, input2_of(fs), m))),
            Err(e) => Err(e),
        }
    } else if name == "composite"@ || name == "feComposite"@ {
        plain(composite_spec(args, input))
    } else if name == "colorMatrix"@ || name == "feColorMatrix"@ {
        plain(matrix_spec(args, input))
    } else if name == "flood"@ || name == "feFlood"@ {
        match parse_hex_color(flood_value(args)) {
            Ok(c) => plain(Ok(PrimV::Flood(c))),
            Err(e) => Err(e),
        }
    } else if name == "merge"@ || name == "feMerge"@ {
        plain(merge_spec(args))
    } else if name == "morphology"@ || name == "feMorphology"@ {
        plain(morphology_spec(args, input))
    } else if name == "componentTransfer"@ || name == "feComponentTransfer"@ {
        plain(transfer_spec(args, input))
    } else {
        Ok((PrimV::Unsupported(name, input), Some(bypass_diag(name))))
    }
}

// ---------------------------------------------------------------------------
// Statements

/// The last index `i < k` at which `c` stands, or -1.
pub open spec fn last_char(s: Seq<char>, c: char, k: int) -> int
    decreases k,
{
    if k <= 0 || k > s.len() {
        -1
    } else if s[k - 1] == c {
        k - 1
    } else {
        last_char(s, c, k - 1)
    }
}

/// The last index `i` with `i + 2 <= k` at which `->` starts, or -1.
pub open spec fn last_arrow(s: Seq<char>, k: int) -> int
    decreases k,
{
    if k < 2 || k > s.len() {
        -1
    } else if s[k - 2] == '-' && s[k - 1] == '>' {
        k - 2
    } else {
        last_arrow(s, k - 1)
    }
}

/// The name and the arguments of `name(arguments)`.
pub open spec fn split_call(body: Seq<char>) -> Result<(Seq<char>, Seq<char>), Seq<char>> {
    let open = find_char(body, '(', 0);
    let close = last_char(body, ')', body.len() as int);
    if open >= body.len() || close < 0 || close < open {
        Err("invalid filter primitive `"@ + body + "`"@)
    } else {
        Ok((trim(body.subrange(0, open)), trim(body.subrange(open + 1, close))))
    }
}

pub struct GraphV {
    pub nodes: Seq<(Seq<char>, PrimV)>,
    pub previous: InputV,
    pub serial: nat,
    pub diags: Seq<(Seq<char>, Seq<char>, Seq<char>, Option<Seq<char>>)>,
}

/// The body, the result name and the serial number after a statement.
pub open spec fn head_of(stmt: Seq<char>, serial: nat) -> (Seq<char>, Seq<char>, nat) {
    let a = last_arrow(stmt, stmt.len() as int);
    if a >= 0 {
        (trim(stmt.subrange(0, a)), trim(stmt.subrange(a + 2, stmt.len() as int)), serial)
    } else {
        (stmt, "_filter_"@ + decimal(serial + 1), serial + 1)
    }
}

/// One statement added to the graph.
#[verifier::opaque]
pub open spec fn step(stmt: Seq<char>, g: GraphV) -> Result<GraphV, Seq<char>> {
    let (body, result, serial) = head_of(stmt, g.serial);
    if result.len() == 0 {
        Err("filter result name cannot be empty"@)
    } else {
        match split_call(body) {
            Err(e) => Err(e),
            Ok((name, args)) => match primitive(name, args, g.previous) {
                Err(e) => Err(e),
                Ok((p, d)) => Ok(GraphV {
                    nodes: g.nodes.push((result, p)),
                    previous: InputV::Named(result),
                    serial,
                    diags: match d {
                        Some(x) => g.diags.push(x),
                        None => g.diags,
                    },
                }),
            },
        }
    }
}

/// Whether a statement reads a flood colour that would be sliced inside a
/// character.
pub open spec fn step_slices_badly(stmt: Seq<char>, g: GraphV) -> bool {
    let (body, result, serial) = head_of(stmt, g.serial);
    result.len() > 0 && match split_call(body) {
        Err(_) => false,
        Ok((name, args)) => (name == "flood"@ || name == "feFlood"@) && !flood_sliceable(flood_value(args)),
    }
}

/// The statements from `k` on added to the graph.
pub open spec fn run(stmts: Seq<Seq<char>>, k: int, g: GraphV) -> Result<GraphV, Seq<char>>
    decreases stmts.len() - k,
{
    if k < 0 || k >= stmts.len() {
        Ok(g)
    } else {
        match step(stmts[k], g) {
            Err(e) => Err(e),
            Ok(g2) => run(stmts, k + 1, g2),
        }
    }
}

/// Whether a statement from `k` on that the parse reaches slices a flood
/// colour inside a character.
pub open spec fn run_slices_badly(stmts: Seq<Seq<char>>, k: int, g: GraphV) -> bool
    decreases stmts.len() - k,
{
    if k < 0 || k >= stmts.len() {
        false
    } else if step_slices_badly(stmts[k], g) {
        true
    } else {
        match step(stmts[k], g) {
            Err(_) => false,
            Ok(g2) => run_slices_badly(stmts, k + 1, g2),
        }
    }
}

pub open spec fn trimmed_all(v: Seq<Seq<char>>) -> Seq<Seq<char>> {
    v.map_values(|s: Seq<char>| trim(s))
}

/// The statements of a graph: its `;`-separated pieces, trimmed, without
/// the empty ones.
pub open spec fn statements(t: Seq<char>) -> Seq<Seq<char>> {
    non_empty(trimmed_all(split_from(t, ';', 0)))
}

pub open spec fn start_graph() -> GraphV {
    GraphV { nodes: Seq::empty(), previous: InputV::SourceGraphic, serial: 0, diags: Seq::empty() }
}

/// The parse of a filter graph: its nodes, its output (the last result),
/// and the warnings for primitives the renderer bypasses.
pub open spec fn parse_graph_spec(raw: Seq<char>) -> Result<GraphV, Seq<char>> {
    let t = trim(raw);
    if t.len() == 0 {
        Err("filter graph is empty"@)
    } else {
        match run(statements(t), 0, start_graph()) {
            Err(e) => Err(e),
            Ok(g) => if g.nodes.len() == 0 {
                Err("filter graph contains no primitives"@)
            } else {
                Ok(g)
            },
        }
    }
}

/// Graph text whose flood colours can be read without slicing a character.
pub open spec fn graph_sliceable(raw: Seq<char>) -> bool {
    trim(raw).len() == 0 || !run_slices_badly(statements(trim(raw)), 0, start_graph())
}

// ---------------------------------------------------------------------------
// Executable pieces of text

fn is_list_sep(c: char, ws: bool) -> (b: bool)
    ensures
        b == list_sep(c, ws),
{
    c == ',' || c == '|' || (ws && crate::formatter::ws(c))
}

/// The pieces of `s` between separators, empty ones included.
fn pieces_exec(s: &Vec<char>, ws: bool) -> (r: Vec<Vec<char>>)
    ensures
        line_views(r@) == pieces(s@, 0, ws),
{
    let n = s.len();
    let ghost all = pieces(s@, 0, ws);
    let mut out: Vec<Vec<char>> = Vec::new();
    let mut i: usize = 0;
    loop
        invariant
            i <= n,
            n == s@.len(),
            all == pieces(s@, 0, ws),
            line_views(out@) + pieces(s@, i as int, ws) == all,
        decreases n - i,
    {
        let mut k = i;
        while k < n && !is_list_sep(s[k], ws)
            invariant
                i <= k <= n,
                n == s@.len(),
                sep_at(s@, k as int, ws) == sep_at(s@, i as int, ws),
            decreases n - k,
        {
            k += 1;
        }
        proof {
            lemma_sep_at(s@, i as int, ws);
        }
        let piece = sub_chars(s, i, k);
        let ghost before = line_views(out@);
        out.push(piece);
        assert(line_views(out@) =~= before.push(piece@));
        if k >= n {
            assert(pieces(s@, i as int, ws) == seq![piece@]);
            assert(line_views(out@) =~= before + seq![piece@]);
            return out;
        }
        assert(pieces(s@, i as int, ws) == seq![piece@] + pieces(s@, k + 1, ws));
        assert(line_views(out@) + pieces(s@, k + 1, ws) =~= before + (seq![piece@] + pieces(s@, k + 1, ws)));
        i = k + 1;
    }
}

/// The items of `v` that are not empty, in order.
fn non_empty_exec(v: Vec<Vec<char>>) -> (r: Vec<Vec<char>>)
    ensures
        line_views(r@) == non_empty(line_views(v@)),
{
    let ghost vv = line_views(v@);
    let mut out: Vec<Vec<char>> = Vec::new();
    let mut k: usize = 0;
    let n = v.len();
    assert(vv.subrange(0, 0) =~= Seq::<Seq<char>>::empty());
    while k < n
        invariant
            k <= n,
            n == v@.len(),
            vv == line_views(v@),
            line_views(out@) == non_empty(vv.subrange(0, k as int)),
        decreases n - k,
    {
        assert(vv.subrange(0, k + 1).drop_last() =~= vv.subrange(0, k as int));
        let ghost before = line_views(out@);
        if v[k].len() > 0 {
            out.push(copy_chars(&v[k]));
            assert(line_views(out@) =~= before + seq![vv[k as int]]);
        } else {
            assert(line_views(out@) =~= before + Seq::<Seq<char>>::empty());
        }
        k += 1;
    }
    assert(vv.subrange(0, n as int) =~= vv);
    out
}

/// `"prefix" + v + "suffix"` as a `String`.
fn framed(prefix: &str, v: &Vec<char>, suffix: &str) -> (r: String)
    ensures
        r@ == prefix@ + v@ + suffix@,
{
    let mut m = chars_of(prefix);
    append_chars(&mut m, v);
    append_str(&mut m, suffix);
    string_of(&m)
}

proof fn lemma_number_list_err(items: Seq<Seq<char>>, k: int)
    requires
        0 <= k <= items.len(),
        number_list(items.subrange(0, k)) is Err,
    ensures
        number_list(items) == number_list(items.subrange(0, k)),
    decreases items.len() - k,
{
    if k == items.len() {
        assert(items.subrange(0, k) =~= items);
    } else {
        let d = items.drop_last();
        assert(d.subrange(0, k) =~= items.subrange(0, k));
        lemma_number_list_err(d, k);
    }
}

fn number_list_exec(items: &Vec<Vec<char>>) -> (r: Result<Vec<Px>, String>)
    ensures
        match number_list(line_views(items@)) {
            Ok(ns) => r is Ok && r->Ok_0@ == ns,
            Err(e) => r is Err && r->Err_0@ == e,
        },
        r matches Ok(ns) ==> forall|j: int| 0 <= j < ns@.len() ==> px_wf(#[trigger] ns@[j]),
{
    let ghost iv = line_views(items@);
    let mut out: Vec<Px> = Vec::new();
    let mut k: usize = 0;
    let n = items.len();
    assert(iv.subrange(0, 0) =~= Seq::<Seq<char>>::empty());
    while k < n
        invariant
            k <= n,
            n == items@.len(),
            iv == line_views(items@),
            number_list(iv.subrange(0, k as int)) == Ok::<Seq<Px>, Seq<char>>(out@),
            forall|j: int| 0 <= j < out@.len() ==> px_wf(#[trigger] out@[j]),
        decreases n - k,
    {
        assert(iv.subrange(0, k + 1).drop_last() =~= iv.subrange(0, k as int));
        assert(iv.subrange(0, k + 1).last() == iv[k as int]);
        match parse_px_exec(&items[k]) {
            Some(p) => {
                out.push(p);
            },
            None => {
                let e = framed("invalid filter number `", &items[k], "`");
                proof {
                    lemma_number_list_err(iv, k + 1);
                }
                return Err(e);
            },
        }
        k += 1;
    }
    assert(iv.subrange(0, n as int) =~= iv);
    Ok(out)
}

fn parse_number_list_exec(v: &Vec<char>) -> (r: Result<Vec<Px>, String>)
    ensures
        match parse_number_list(v@) {
            Ok(ns) => r is Ok && r->Ok_0@ == ns,
            Err(e) => r is Err && r->Err_0@ == e,
        },
        r matches Ok(ns) ==> forall|j: int| 0 <= j < ns@.len() ==> px_wf(#[trigger] ns@[j]),
{
    let items = non_empty_exec(pieces_exec(v, true));
    number_list_exec(&items)
}

// ---------------------------------------------------------------------------
// Executable arguments

pub open spec fn opt_view(o: Option<Vec<char>>) -> Option<Seq<char>> {
    match o {
        Some(v) => Some(v@),
        None => None,
    }
}

fn field_of_exec(t: &Vec<char>) -> (r: Option<(Vec<char>, Vec<char>)>)
    ensures
        match field_of(t@) {
            Some((k, v)) => r matches Some((a, b)) && a@ == k && b@ == v,
            None => r is None,
        },
{
    let k = find_char_exec(t, '=', 0);
    if k < t.len() {
        let key = trim_chars(&sub_chars(t, 0, k));
        let value = trim_chars(&sub_chars(t, k + 1, t.len()));
        Some((key, value))
    } else {
        None
    }
}

/// The `key=value` arguments of `args`, in order.
fn fields_exec(args: &Vec<char>) -> (r: Vec<(Vec<char>, Vec<char>)>)
    ensures
        pm_view(r@) == fields(args@),
{
    let ts = tokens_exec(args, true);
    let ghost tv = line_views(ts@);
    let mut out: Vec<(Vec<char>, Vec<char>)> = Vec::new();
    let mut k: usize = 0;
    let n = ts.len();
    assert(tv.subrange(0, 0) =~= Seq::<Seq<char>>::empty());
    while k < n
        invariant
            k <= n,
            n == ts@.len(),
            tv == line_views(ts@),
            tv == tokens_from(args@, 0, true),
            pm_view(out@) == fields_from(tv.subrange(0, k as int)),
        decreases n - k,
    {
        assert(tv.subrange(0, k + 1).drop_last() =~= tv.subrange(0, k as int));
        assert(tv.subrange(0, k + 1).last() == tv[k as int]);
        let ghost before = pm_view(out@);
        match field_of_exec(&ts[k]) {
            Some(f) => {
                out.push(f);
                assert(pm_view(out@) =~= before + seq![(f.0@, f.1@)]);
            },
            None => {
                assert(pm_view(out@) =~= before + Seq::<(Seq<char>, Seq<char>)>::empty());
            },
        }
        k += 1;
    }
    assert(tv.subrange(0, n as int) =~= tv);
    out
}

/// The arguments of `args` that are no `key=value` pair.
fn positional_exec(args: &Vec<char>) -> (r: Vec<Vec<char>>)
    ensures
        line_views(r@) == positional(args@),
{
    let ts = tokens_exec(args, true);
    let ghost tv = line_views(ts@);
    let mut out: Vec<Vec<char>> = Vec::new();
    let mut k: usize = 0;
    let n = ts.len();
    assert(tv.subrange(0, 0) =~= Seq::<Seq<char>>::empty());
    while k < n
        invariant
            k <= n,
            n == ts@.len(),
            tv == line_views(ts@),
            tv == tokens_from(args@, 0, true),
            line_views(out@) == positional_from(tv.subrange(0, k as int)),
        decreases n - k,
    {
        assert(tv.subrange(0, k + 1).drop_last() =~= tv.subrange(0, k as int));
        assert(tv.subrange(0, k + 1).last() == tv[k as int]);
        let ghost before = line_views(out@);
        let e = find_char_exec(&ts[k], '=', 0);
        if e >= ts[k].len() {
            out.push(copy_chars(&ts[k]));
            assert(line_views(out@) =~= before + seq![tv[k as int]]);
        } else {
            assert(line_views(out@) =~= before + Seq::<Seq<char>>::empty());
        }
        k += 1;
    }
    assert(tv.subrange(0, n as int) =~= tv);
    out
}

/// The positional arguments of `args` that are numbers.
fn nums_exec(args: &Vec<char>) -> (r: Vec<Px>)
    ensures
        r@ == nums(args@),
{
    let ps = positional_exec(args);
    let ghost pv = line_views(ps@);
    let mut out: Vec<Px> = Vec::new();
    let mut k: usize = 0;
    let n = ps.len();
    assert(pv.subrange(0, 0) =~= Seq::<Seq<char>>::empty());
    while k < n
        invariant
            k <= n,
            n == ps@.len(),
            pv == line_views(ps@),
            pv == positional(args@),
            out@ == numbers_from(pv.subrange(0, k as int)),
        decreases n - k,
    {
        assert(pv.subrange(0, k + 1).drop_last() =~= pv.subrange(0, k as int));
        assert(pv.subrange(0, k + 1).last() == pv[k as int]);
        let ghost before = out@;
        match parse_px_exec(&ps[k]) {
            Some(p) => {
                out.push(p);
                assert(out@ =~= before + seq![p]);
            },
            None => {
                assert(out@ =~= before + Seq::<Px>::empty());
            },
        }
        k += 1;
    }
    assert(pv.subrange(0, n as int) =~= pv);
    out
}

/// The value given for `key`; the last one where it is given twice.
fn field_get(fs: &Vec<(Vec<char>, Vec<char>)>, key: &str) -> (r: Option<Vec<char>>)
    ensures
        opt_view(r) == last_get(pm_view(fs@), key@),
{
    let ghost mv = pm_view(fs@);
    let kc = chars_of(key);
    let mut k: usize = fs.len();
    assert(mv.subrange(0, k as int) =~= mv);
    while k > 0
        invariant
            k <= fs@.len(),
            mv == pm_view(fs@),
            kc@ == key@,
            last_get(mv.subrange(0, k as int), key@) == last_get(mv, key@),
        decreases k,
    {
        assert(mv.subrange(0, k as int).drop_last() =~= mv.subrange(0, k - 1));
        if crate::parser::chars_eq(&fs[k - 1].0, &kc) {
            return Some(copy_chars(&fs[k - 1].1));
        }
        k -= 1;
    }
    None
}

fn field_number_exec(fs: &Vec<(Vec<char>, Vec<char>)>, key: &str) -> (r: Option<Px>)
    ensures
        r == field_number(pm_view(fs@), key@),
{
    match field_get(fs, key) {
        Some(v) => parse_px_exec(&v),
        None => None,
    }
}

fn parse_input_exec(v: &Vec<char>) -> (r: FilterInput)
    ensures
        input_view(r) == parse_input(v@),
{
    let t = trim_chars(v);
    if is_text(&t, "SourceGraphic") {
        FilterInput::SourceGraphic
    } else if is_text(&t, "SourceAlpha") {
        FilterInput::SourceAlpha
    } else {
        FilterInput::Named(string_of(&t))
    }
}

fn parse_blend_exec(v: &Vec<char>) -> (r: Result<BlendMode, String>)
    ensures
        match parse_blend(v@) {
            Ok(m) => r == Ok::<BlendMode, String>(m),
            Err(e) => r is Err && r->Err_0@ == e,
        },
{
    if is_text(v, "normal") {
        Ok(BlendMode::Normal)
    } else if is_text(v, "multiply") {
        Ok(BlendMode::Multiply)
    } else if is_text(v, "screen") {
        Ok(BlendMode::Screen)
    } else if is_text(v, "darken") {
        Ok(BlendMode::Darken)
    } else if is_text(v, "lighten") {
        Ok(BlendMode::Lighten)
    } else {
        Err(framed("unsupported blend mode `", v, "`"))
    }
}

fn parse_composite_exec(v: &Vec<char>) -> (r: Result<CompositeOperator, String>)
    ensures
        match parse_composite(v@) {
            Ok(m) => r == Ok::<CompositeOperator, String>(m),
            Err(e) => r is Err && r->Err_0@ == e,
        },
{
    if is_text(v, "over") {
        Ok(CompositeOperator::Over)
    } else if is_text(v, "in") {
        Ok(CompositeOperator::In)
    } else if is_text(v, "out") {
        Ok(CompositeOperator::Out)
    } else if is_text(v, "atop") {
        Ok(CompositeOperator::Atop)
    } else if is_text(v, "xor") {
        Ok(CompositeOperator::Xor)
    } else {
        Err(framed("unsupported composite operator `", v, "`"))
    }
}

fn finite_nonnegative_exec(p: Px) -> (b: bool)
    ensures
        b == finite_nonnegative(p),
{
    match p {
        Px::Fin { neg, mag } => !neg || mag == 0,
        _ => false,
    }
}

fn transfer_numbers(t: &Vec<char>, from: usize) -> (r: Result<Vec<Px>, String>)
    requires
        from <= t@.len(),
    ensures
        match parse_number_list(t@.subrange(from as int, t@.len() as int)) {
            Ok(ns) => r is Ok && r->Ok_0@ == ns,
            Err(e) => r is Err && r->Err_0@ == e,
        },
{
    parse_number_list_exec(&sub_chars(t, from, t.len()))
}

fn parse_transfer_exec(v: Option<Vec<char>>) -> (r: Result<TransferFunction, String>)
    ensures
        match parse_transfer(opt_view(v)) {
            Ok(f) => r is Ok && transfer_view(r->Ok_0) == f,
            Err(e) => r is Err && r->Err_0@ == e,
        },
{
    let raw = match v {
        None => {
            return Ok(TransferFunction::Identity);
        },
        Some(raw) => raw,
    };
    let t = trim_chars(&raw);
    proof {
        reveal_strlit("table:");
        reveal_strlit("discrete:");
        reveal_strlit("linear:");
        reveal_strlit("gamma:");
    }
    if is_text(&t, "identity") {
        Ok(TransferFunction::Identity)
    } else if starts_with_exec(&t, "table:") {
        match transfer_numbers(&t, 6) {
            Ok(n) => Ok(TransferFunction::Table(n)),
            Err(e) => Err(e),
        }
    } else if starts_with_exec(&t, "discrete:") {
        match transfer_numbers(&t, 9) {
            Ok(n) => Ok(TransferFunction::Discrete(n)),
            Err(e) => Err(e),
        }
    } else if starts_with_exec(&t, "linear:") {
        match transfer_numbers(&t, 7) {
            Ok(n) => if n.len() == 2 {
                Ok(TransferFunction::Linear { slope: n[0], intercept: n[1] })
            } else {
                Err(crate::text::chars_to_string_lit("linear transfer requires slope intercept"))
            },
            Err(e) => Err(e),
        }
    } else if starts_with_exec(&t, "gamma:") {
        match transfer_numbers(&t, 6) {
            Ok(n) => if n.len() == 3 {
                Ok(TransferFunction::Gamma { amplitude: n[0], exponent: n[1], offset: n[2] })
            } else {
                Err(crate::text::chars_to_string_lit("gamma transfer requires amplitude exponent offset"))
            },
            Err(e) => Err(e),
        }
    } else {
        Err(framed("unsupported component transfer function `", &t, "`"))
    }
}

fn byte_exec(x: u8, y: u8) -> (r: Option<u8>)
    ensures
        r == byte_of(x, y),
{
    match channel_exec(x, y) {
        Some(v) => Some(v as u8),
        None => None,
    }
}

fn hex_rgba_exec(r: Option<u8>, g: Option<u8>, b: Option<u8>, a: Option<u8>) -> (c: Result<Rgba, String>)
    ensures
        match hex_rgba(r, g, b, a) {
            Ok(x) => c == Ok::<Rgba, String>(x),
            Err(e) => c is Err && c->Err_0@ == e,
        },
{
    match (r, g, b, a) {
        (Some(r), Some(g), Some(b), Some(a)) => Ok(Rgba { r, g, b, a }),
        _ => Err(crate::text::chars_to_string_lit("invalid flood color")),
    }
}

fn parse_hex_color_exec(v: &Vec<char>) -> (c: Result<Rgba, String>)
    ensures
        match parse_hex_color(v@) {
            Ok(x) => c == Ok::<Rgba, String>(x),
            Err(e) => c is Err && c->Err_0@ == e,
        },
{
    let t = trim_chars(v);
    if t.len() == 0 || t[0] != '#' {
        return Err(framed("unsupported flood color `", &t, "`"));
    }
    let rest = sub_chars(&t, 1, t.len());
    assert(rest@ =~= t@.drop_first());
    let text = string_of(&rest);
    let all = text.as_str().as_bytes();
    let h = crate::text::sub_bytes(all, 0, all.len());
    assert(h@ =~= colour_bytes4(t@));
    let n = h.len();
    if n == 3 {
        hex_rgba_exec(byte_exec(h[0], h[0]), byte_exec(h[1], h[1]), byte_exec(h[2], h[2]), Some(255))
    } else if n == 4 {
        hex_rgba_exec(byte_exec(h[0], h[0]), byte_exec(h[1], h[1]), byte_exec(h[2], h[2]), byte_exec(h[3], h[3]))
    } else if n == 6 {
        hex_rgba_exec(byte_exec(h[0], h[1]), byte_exec(h[2], h[3]), byte_exec(h[4], h[5]), Some(255))
    } else if n == 8 {
        hex_rgba_exec(byte_exec(h[0], h[1]), byte_exec(h[2], h[3]), byte_exec(h[4], h[5]), byte_exec(h[6], h[7]))
    } else {
        Err(crate::text::chars_to_string_lit("flood color must be hexadecimal RGB or RGBA"))
    }
}

// ---------------------------------------------------------------------------
// Executable primitives

/// `r` is the primitive `s` describes, or the same error.
pub open spec fn prim_result(r: Result<FilterPrimitive, String>, s: Result<PrimV, Seq<char>>) -> bool {
    match s {
        Ok(p) => r matches Ok(q) && prim_view(q) == p,
        Err(e) => r matches Err(m) && m@ == e,
    }
}

pub open spec fn opt_rdiag(d: Option<RenderDiagnostic>) -> Option<(Seq<char>, Seq<char>, Seq<char>, Option<Seq<char>>)> {
    match d {
        Some(x) => Some(rdiag_view(x)),
        None => None,
    }
}

fn copy_input(i: &FilterInput) -> (r: FilterInput)
    ensures
        input_view(r) == input_view(*i),
{
    match i {
        FilterInput::SourceGraphic => FilterInput::SourceGraphic,
        FilterInput::SourceAlpha => FilterInput::SourceAlpha,
        FilterInput::Named(n) => FilterInput::Named(copy_str(n)),
    }
}

fn nth_exec(ns: &Vec<Px>, i: usize) -> (r: Option<Px>)
    ensures
        r == nth(ns@, i as int),
{
    if i < ns.len() {
        Some(ns[i])
    } else {
        None
    }
}

fn or_px_exec(a: Option<Px>, b: Option<Px>) -> (r: Option<Px>)
    ensures
        r == or_px(a, b),
{
    match a {
        Some(x) => Some(x),
        None => b,
    }
}

fn px_or_exec(a: Option<Px>, d: Px) -> (r: Px)
    ensures
        r == px_or(a, d),
{
    match a {
        Some(x) => x,
        None => d,
    }
}

fn zero_exec() -> (r: Px)
    ensures
        r == zero(),
{
    Px::Fin { neg: false, mag: 0 }
}

/// The value given for `a`, else for `b`, else `d`.
fn text_or_exec(fs: &Vec<(Vec<char>, Vec<char>)>, a: &str, b: Option<&str>, d: &str) -> (r: Vec<char>)
    ensures
        r@ == text_or(last_get(pm_view(fs@), a@), match b {
            Some(k) => last_get(pm_view(fs@), k@),
            None => None,
        }, d@),
{
    match field_get(fs, a) {
        Some(v) => v,
        None => match b {
            Some(k) => match field_get(fs, k) {
                Some(v) => v,
                None => chars_of(d),
            },
            None => chars_of(d),
        },
    }
}

fn input2_exec(fs: &Vec<(Vec<char>, Vec<char>)>) -> (r: FilterInput)
    ensures
        input_view(r) == input2_of(pm_view(fs@)),
{
    match field_get(fs, "in2") {
        Some(v) => parse_input_exec(&v),
        None => FilterInput::SourceGraphic,
    }
}

fn blur_exec(args: &Vec<char>, fs: &Vec<(Vec<char>, Vec<char>)>, input: FilterInput) -> (r: Result<FilterPrimitive, String>)
    requires
        pm_view(fs@) == fields(args@),
    ensures
        prim_result(r, blur_spec(args@, input_view(input))),
{
    let ns = nums_exec(args);
    let sx = or_px_exec(field_number_exec(fs, "sigma"), or_px_exec(field_number_exec(fs, "sigma_x"), nth_exec(&ns, 0)));
    match sx {
        None => Err(crate::text::chars_to_string_lit("feGaussianBlur requires sigma")),
        Some(sx) => {
            let sy = px_or_exec(or_px_exec(field_number_exec(fs, "sigma_y"), nth_exec(&ns, 1)), sx);
            if !finite_nonnegative_exec(sx) || !finite_nonnegative_exec(sy) {
                Err(crate::text::chars_to_string_lit("blur sigma must be finite and non-negative"))
            } else {
                Ok(FilterPrimitive::GaussianBlur { input, sigma_x: sx, sigma_y: sy })
            }
        },
    }
}

fn offset_exec(args: &Vec<char>, fs: &Vec<(Vec<char>, Vec<char>)>, input: FilterInput) -> (r: FilterPrimitive)
    requires
        pm_view(fs@) == fields(args@),
    ensures
        prim_view(r) == offset_spec(args@, input_view(input)),
{
    let ns = nums_exec(args);
    let dx = px_or_exec(or_px_exec(field_number_exec(fs, "dx"), nth_exec(&ns, 0)), zero_exec());
    let dy = px_or_exec(or_px_exec(field_number_exec(fs, "dy"), nth_exec(&ns, 1)), zero_exec());
    FilterPrimitive::Offset { input, dx, dy }
}

fn blend_exec(fs: &Vec<(Vec<char>, Vec<char>)>, input: FilterInput) -> (r: Result<FilterPrimitive, String>)
    ensures
        prim_result(r, match parse_blend(text_or(last_get(pm_view(fs@), "mode"@), None, "normal"@)) {
            Ok(m) => Ok(PrimV::Blend(input_view(input), input2_of(pm_view(fs@)), m)),
            Err(e) => Err(e),
        }),
{
    let mode = text_or_exec(fs, "mode", None, "normal");
    match parse_blend_exec(&mode) {
        Ok(m) => Ok(FilterPrimitive::Blend { input, input2: input2_exec(fs), mode: m }),
        Err(e) => Err(e),
    }
}

fn composite_exec(args: &Vec<char>, fs: &Vec<(Vec<char>, Vec<char>)>, input: FilterInput) -> (r: Result<FilterPrimitive, String>)
    requires
        pm_view(fs@) == fields(args@),
    ensures
        prim_result(r, composite_spec(args@, input_view(input))),
{
    let op = text_or_exec(fs, "operator", Some("op"), "over");
    if is_text(&op, "arithmetic") {
        let operator = CompositeOperator::Arithmetic {
            k1: px_or_exec(field_number_exec(fs, "k1"), zero_exec()),
            k2: px_or_exec(field_number_exec(fs, "k2"), zero_exec()),
            k3: px_or_exec(field_number_exec(fs, "k3"), zero_exec()),
            k4: px_or_exec(field_number_exec(fs, "k4"), zero_exec()),
        };
        Ok(FilterPrimitive::Composite { input, input2: input2_exec(fs), operator })
    } else {
        match parse_composite_exec(&op) {
            Ok(o) => Ok(FilterPrimitive::Composite { input, input2: input2_exec(fs), operator: o }),
            Err(e) => Err(e),
        }
    }
}

fn matrix_exec(args: &Vec<char>, fs: &Vec<(Vec<char>, Vec<char>)>, input: FilterInput) -> (r: Result<FilterPrimitive, String>)
    requires
        pm_view(fs@) == fields(args@),
    ensures
        prim_result(r, matrix_spec(args@, input_view(input))),
{
    let values = match field_get(fs, "values") {
        Some(v) => parse_number_list_exec(&v),
        None => Ok(nums_exec(args)),
    };
    match values {
        Err(e) => Err(e),
        Ok(vs) => if vs.len() != 20 {
            Err(crate::text::chars_to_string_lit("feColorMatrix matrix requires exactly 20 values"))
        } else {
            Ok(FilterPrimitive::ColorMatrix { input, matrix: vs })
        },
    }
}

/// The inputs that the items name, in order.
fn inputs_exec(items: &Vec<Vec<char>>) -> (r: Vec<FilterInput>)
    ensures
        inputs_view(r@) == line_views(items@).map_values(|s: Seq<char>| parse_input(s)),
{
    let ghost iv = line_views(items@);
    let mut out: Vec<FilterInput> = Vec::new();
    let mut k: usize = 0;
    let n = items.len();
    while k < n
        invariant
            k <= n,
            n == items@.len(),
            iv == line_views(items@),
            out@.len() == k,
            forall|j: int| 0 <= j < k ==> input_view(#[trigger] out@[j]) == parse_input(iv[j]),
        decreases n - k,
    {
        out.push(parse_input_exec(&items[k]));
        k += 1;
    }
    assert(inputs_view(out@) =~= iv.map_values(|s: Seq<char>| parse_input(s)));
    out
}

fn merge_exec(args: &Vec<char>, fs: &Vec<(Vec<char>, Vec<char>)>) -> (r: Result<FilterPrimitive, String>)
    requires
        pm_view(fs@) == fields(args@),
    ensures
        prim_result(r, merge_spec(args@)),
{
    let vs = match field_get(fs, "inputs") {
        Some(v) => inputs_exec(&non_empty_exec(pieces_exec(&v, false))),
        None => inputs_exec(&positional_exec(args)),
    };
    if vs.len() == 0 {
        Err(crate::text::chars_to_string_lit("feMerge requires at least one input"))
    } else {
        Ok(FilterPrimitive::Merge { inputs: vs })
    }
}

fn morphology_exec(args: &Vec<char>, fs: &Vec<(Vec<char>, Vec<char>)>, input: FilterInput) -> (r: Result<FilterPrimitive, String>)
    requires
        pm_view(fs@) == fields(args@),
    ensures
        prim_result(r, morphology_spec(args@, input_view(input))),
{
    let ns = nums_exec(args);
    let rx = px_or_exec(
        or_px_exec(field_number_exec(fs, "radius"), or_px_exec(field_number_exec(fs, "radius_x"), nth_exec(&ns, 0))),
        zero_exec(),
    );
    let ry = px_or_exec(or_px_exec(field_number_exec(fs, "radius_y"), nth_exec(&ns, 1)), rx);
    if !finite_nonnegative_exec(rx) || !finite_nonnegative_exec(ry) {
        return Err(crate::text::chars_to_string_lit("morphology radius must be finite and non-negative"));
    }
    let op = text_or_exec(fs, "operator", None, "erode");
    if is_text(&op, "erode") {
        Ok(FilterPrimitive::Morphology { input, operator: MorphologyOperator::Erode, radius_x: rx, radius_y: ry })
    } else if is_text(&op, "dilate") {
        Ok(FilterPrimitive::Morphology { input, operator: MorphologyOperator::Dilate, radius_x: rx, radius_y: ry })
    } else {
        Err(framed("unsupported morphology operator `", &op, "`"))
    }
}

fn transfer_exec(args: &Vec<char>, fs: &Vec<(Vec<char>, Vec<char>)>, input: FilterInput) -> (r: Result<FilterPrimitive, String>)
    requires
        pm_view(fs@) == fields(args@),
    ensures
        prim_result(r, transfer_spec(args@, input_view(input))),
{
    let red = match parse_transfer_exec(field_get(fs, "r")) {
        Ok(t) => t,
        Err(e) => {
            return Err(e);
        },
    };
    let green = match parse_transfer_exec(field_get(fs, "g")) {
        Ok(t) => t,
        Err(e) => {
            return Err(e);
        },
    };
    let blue = match parse_transfer_exec(field_get(fs, "b")) {
        Ok(t) => t,
        Err(e) => {
            return Err(e);
        },
    };
    let alpha = match parse_transfer_exec(field_get(fs, "a")) {
        Ok(t) => t,
        Err(e) => {
            return Err(e);
        },
    };
    Ok(FilterPrimitive::ComponentTransfer { input, red, green, blue, alpha })
}

fn primitive_exec(name: &Vec<char>, args: &Vec<char>, previous: &FilterInput) -> (r: Result<(FilterPrimitive, Option<RenderDiagnostic>), String>)
    ensures
        match primitive(name@, args@, input_view(*previous)) {
            Ok((p, d)) => r matches Ok((q, e)) && prim_view(q) == p && opt_rdiag(e) == d,
            Err(e) => r matches Err(m) && m@ == e,
        },
{
    let fs = fields_exec(args);
    let input = match field_get(&fs, "in") {
        Some(v) => parse_input_exec(&v),
        None => copy_input(previous),
    };
    assert(input_view(input) == input_of(fields(args@), input_view(*previous)));
    let plain = if is_text(name, "blur") || is_text(name, "feGaussianBlur") {
        blur_exec(args, &fs, input)
    } else if is_text(name, "offset") || is_text(name, "feOffset") {
        Ok(offset_exec(args, &fs, input))
    } else if is_text(name, "blend") || is_text(name, "feBlend") {
        blend_exec(&fs, input)
    } else if is_text(name, "composite") || is_text(name, "feComposite") {
        composite_exec(args, &fs, input)
    } else if is_text(name, "colorMatrix") || is_text(name, "feColorMatrix") {
        matrix_exec(args, &fs, input)
    } else if is_text(name, "flood") || is_text(name, "feFlood") {
        let value = text_or_exec(&fs, "color", Some("flood-color"), "#000000ff");
        match parse_hex_color_exec(&value) {
            Ok(c) => Ok(FilterPrimitive::Flood { color: c }),
            Err(e) => Err(e),
        }
    } else if is_text(name, "merge") || is_text(name, "feMerge") {
        merge_exec(args, &fs)
    } else if is_text(name, "morphology") || is_text(name, "feMorphology") {
        morphology_exec(args, &fs, input)
    } else if is_text(name, "componentTransfer") || is_text(name, "feComponentTransfer") {
        transfer_exec(args, &fs, input)
    } else {
        let d = RenderDiagnostic {
            severity: crate::text::chars_to_string_lit("warning"),
            code: crate::text::chars_to_string_lit("G241"),
            message: framed("unsupported filter primitive `", name, "` is explicitly bypassed; its input is preserved"),
            declaration: None,
        };
        return Ok((FilterPrimitive::Unsupported { name: string_of(name), input }, Some(d)));
    };
    match plain {
        Ok(p) => Ok((p, None)),
        Err(e) => Err(e),
    }
}

// ---------------------------------------------------------------------------
// Executable statements

fn last_char_exec(s: &Vec<char>, c: char) -> (r: Option<usize>)
    ensures
        match r {
            Some(i) => i as int == last_char(s@, c, s@.len() as int) && i < s@.len(),
            None => last_char(s@, c, s@.len() as int) == -1,
        },
{
    let mut k: usize = s.len();
    while k > 0
        invariant
            k <= s@.len(),
            last_char(s@, c, s@.len() as int) == last_char(s@, c, k as int),
        decreases k,
    {
        if s[k - 1] == c {
            return Some(k - 1);
        }
        k -= 1;
    }
    None
}

proof fn lemma_last_char(s: Seq<char>, c: char, k: int)
    requires
        0 <= k <= s.len(),
    ensures
        last_char(s, c, k) == -1 || (0 <= last_char(s, c, k) < k && s[last_char(s, c, k)] == c),
    decreases k,
{
    if k > 0 && s[k - 1] != c {
        lemma_last_char(s, c, k - 1);
    }
}

fn last_arrow_exec(s: &Vec<char>) -> (r: Option<usize>)
    ensures
        match r {
            Some(i) => i as int == last_arrow(s@, s@.len() as int) && i + 2 <= s@.len(),
            None => last_arrow(s@, s@.len() as int) == -1,
        },
{
    let mut k: usize = s.len();
    while k >= 2
        invariant
            k <= s@.len(),
            last_arrow(s@, s@.len() as int) == last_arrow(s@, k as int),
        decreases k,
    {
        if s[k - 2] == '-' && s[k - 1] == '>' {
            return Some(k - 2);
        }
        k -= 1;
    }
    None
}

fn split_call_exec(body: &Vec<char>) -> (r: Result<(Vec<char>, Vec<char>), String>)
    ensures
        match split_call(body@) {
            Ok((n, a)) => r matches Ok((x, y)) && x@ == n && y@ == a,
            Err(e) => r matches Err(m) && m@ == e,
        },
{
    let open = find_char_exec(body, '(', 0);
    let close = last_char_exec(body, ')');
    proof {
        crate::resources::lemma_find_char_some(body@, '(', 0);
        lemma_last_char(body@, ')', body@.len() as int);
    }
    match close {
        Some(c) => if open >= body.len() || c < open {
            Err(framed("invalid filter primitive `", body, "`"))
        } else {
            Ok((trim_chars(&sub_chars(body, 0, open)), trim_chars(&sub_chars(body, open + 1, c))))
        },
        None => Err(framed("invalid filter primitive `", body, "`")),
    }
}

fn head_exec(stmt: &Vec<char>, serial: usize) -> (r: (Vec<char>, Vec<char>, usize))
    requires
        serial < usize::MAX,
    ensures
        head_of(stmt@, serial as nat) == (r.0@, r.1@, r.2 as nat),
        r.2 <= serial + 1,
{
    match last_arrow_exec(stmt) {
        Some(a) => {
            let n = stmt.len();
            assert(a + 2 <= n);
            (
            trim_chars(&sub_chars(stmt, 0, a)),
            trim_chars(&sub_chars(stmt, a + 2, n)),
            serial,
        )
        },
        None => {
            let mut name = chars_of("_filter_");
            push_decimal(&mut name, serial + 1);
            (copy_chars(stmt), name, serial + 1)
        },
    }
}

/// The pieces of `s` between the characters `c`.
fn split_char_exec(s: &Vec<char>, c: char) -> (r: Vec<Vec<char>>)
    ensures
        line_views(r@) == split_from(s@, c, 0),
{
    let n = s.len();
    let ghost all = split_from(s@, c, 0);
    let mut out: Vec<Vec<char>> = Vec::new();
    let mut i: usize = 0;
    loop
        invariant
            i <= n,
            n == s@.len(),
            all == split_from(s@, c, 0),
            line_views(out@) + split_from(s@, c, i as int) == all,
        decreases n - i,
    {
        let k = find_char_exec(s, c, i);
        proof {
            crate::resources::lemma_find_char_some(s@, c, i as int);
        }
        let piece = sub_chars(s, i, k);
        let ghost before = line_views(out@);
        out.push(piece);
        assert(line_views(out@) =~= before.push(piece@));
        if k >= n {
            assert(split_from(s@, c, i as int) == seq![piece@]);
            assert(line_views(out@) =~= before + seq![piece@]);
            return out;
        }
        assert(split_from(s@, c, i as int) == seq![piece@] + split_from(s@, c, k + 1));
        assert(line_views(out@) + split_from(s@, c, k + 1) =~= before + (seq![piece@] + split_from(s@, c, k + 1)));
        i = k + 1;
    }
}

fn statements_exec(t: &Vec<char>) -> (r: Vec<Vec<char>>)
    ensures
        line_views(r@) == statements(t@),
        r@.len() <= t@.len() + 1,
{
    let parts = split_char_exec(t, ';');
    let ghost pv = line_views(parts@);
    let mut trimmed: Vec<Vec<char>> = Vec::new();
    let mut k: usize = 0;
    while k < parts.len()
        invariant
            k <= parts@.len(),
            pv == line_views(parts@),
            trimmed@.len() == k,
            forall|j: int| 0 <= j < k ==> (#[trigger] trimmed@[j])@ == trim(pv[j]),
        decreases parts@.len() - k,
    {
        trimmed.push(trim_chars(&parts[k]));
        k += 1;
    }
    assert(line_views(trimmed@) =~= trimmed_all(pv));
    let r = non_empty_exec(trimmed);
    proof {
        lemma_split_len(t@, ';', 0);
        lemma_non_empty_len(trimmed_all(pv));
    }
    r
}

proof fn lemma_split_len(s: Seq<char>, c: char, i: int)
    requires
        0 <= i <= s.len(),
    ensures
        split_from(s, c, i).len() <= s.len() - i + 1,
    decreases s.len() - i,
{
    crate::resources::lemma_find_char_some(s, c, i);
    let k = find_char(s, c, i);
    if k < s.len() {
        lemma_split_len(s, c, k + 1);
    }
}

proof fn lemma_non_empty_len(v: Seq<Seq<char>>)
    ensures
        non_empty(v).len() <= v.len(),
    decreases v.len(),
{
    if v.len() > 0 {
        lemma_non_empty_len(v.drop_last());
    }
}

// ---------------------------------------------------------------------------
// The parser

proof fn lemma_run_step(sv: Seq<Seq<char>>, k: int, g: GraphV)
    requires
        0 <= k < sv.len(),
    ensures
        run(sv, k, g) == match step(sv[k], g) {
            Err(e) => Err(e),
            Ok(g2) => run(sv, k + 1, g2),
        },
{
}

struct GraphState {
    nodes: Vec<FilterNode>,
    previous: FilterInput,
    serial: usize,
    diags: Vec<RenderDiagnostic>,
}

spec fn state_view(st: GraphState) -> GraphV {
    GraphV { nodes: nodes_view(st.nodes@), previous: input_view(st.previous), serial: st.serial as nat, diags: rdiags_view(st.diags@) }
}

fn step_exec(stmt: &Vec<char>, st: GraphState) -> (r: Result<GraphState, String>)
    requires
        st.serial < usize::MAX,
    ensures
        match step(stmt@, state_view(st)) {
            Ok(g) => r matches Ok(s2) && state_view(s2) == g && s2.serial <= st.serial + 1,
            Err(e) => r matches Err(m) && m@ == e,
        },
{
    proof {
        reveal(step);
    }
    let (body, result, serial) = head_exec(stmt, st.serial);
    if result.len() == 0 {
        return Err(crate::text::chars_to_string_lit("filter result name cannot be empty"));
    }
    let (name, args) = match split_call_exec(&body) {
        Ok(x) => x,
        Err(e) => {
            return Err(e);
        },
    };
    let (p, d) = match primitive_exec(&name, &args, &st.previous) {
        Ok(x) => x,
        Err(e) => {
            return Err(e);
        },
    };
    let GraphState { mut nodes, previous: _, serial: _, mut diags } = st;
    let ghost nodes0 = nodes@;
    let ghost diags0 = diags@;
    nodes.push(FilterNode { result: string_of(&result), op: p });
    assert(nodes_view(nodes@) =~= nodes_view(nodes0).push((result@, prim_view(p))));
    match d {
        Some(x) => {
            diags.push(x);
            assert(rdiags_view(diags@) =~= rdiags_view(diags0).push(rdiag_view(x)));
        },
        None => {},
    }
    Ok(GraphState { nodes, previous: FilterInput::Named(string_of(&result)), serial, diags })
}

/// Parses filter-graph text: `;`-separated statements `name(arguments)`,
/// each optionally followed by `-> result`; a statement without a result
/// gets the next `_filter_N` name, and a primitive without `in` reads the
/// previous result. Unknown primitives are kept with a G241 warning.
pub fn parse_filter_graph(raw: &str, region: FilterRegion) -> (r: Result<(FilterGraph, Vec<RenderDiagnostic>), String>)
    requires
        graph_sliceable(raw@),
    ensures
        match parse_graph_spec(raw@) {
            Ok(g) => r matches Ok((fg, ds)) && nodes_view(fg.nodes@) == g.nodes && input_view(fg.output) == g.previous
                && fg.region == region && rdiags_view(ds@) == g.diags,
            Err(e) => r matches Err(m) && m@ == e,
        },
{
    let t = trim_chars(&chars_of(raw));
    if t.len() == 0 {
        return Err(crate::text::chars_to_string_lit("filter graph is empty"));
    }
    let stmts = statements_exec(&t);
    let ghost sv = line_views(stmts@);
    let mut st = GraphState { nodes: Vec::new(), previous: FilterInput::SourceGraphic, serial: 0, diags: Vec::new() };
    assert(nodes_view(st.nodes@) =~= Seq::<(Seq<char>, PrimV)>::empty());
    assert(rdiags_view(st.diags@) =~= Seq::<(Seq<char>, Seq<char>, Seq<char>, Option<Seq<char>>)>::empty());
    assert(state_view(st) == start_graph());
    let mut k: usize = 0;
    while k < stmts.len()
        invariant
            k <= stmts@.len(),
            stmts@.len() <= t@.len() + 1,
            t@.len() <= usize::MAX,
            sv == line_views(stmts@),
            sv == statements(t@),
            t@ == trim(raw@),
            t@.len() > 0,
            st.serial <= k,
            run(sv, 0, start_graph()) == run(sv, k as int, state_view(st)),
        decreases stmts@.len() - k,
    {
        let ghost g = state_view(st);
        proof {
            lemma_run_step(sv, k as int, g);
        }
        match step_exec(&stmts[k], st) {
            Ok(s2) => {
                st = s2;
            },
            Err(e) => {
                return Err(e);
            },
        }
        k += 1;
    }
    assert(run(sv, k as int, state_view(st)) == Ok::<GraphV, Seq<char>>(state_view(st)));
    if st.nodes.len() == 0 {
        return Err(crate::text::chars_to_string_lit("filter graph contains no primitives"));
    }
    let GraphState { nodes, previous, serial: _, diags } = st;
    Ok((FilterGraph { nodes, output: previous, region }, diags))
}

// ---------------------------------------------------------------------------
// Checking that flood colours slice safely

fn flood_sliceable_exec(v: &Vec<char>) -> (b: bool)
    ensures
        b == flood_sliceable(v@),
{
    let t = trim_chars(v);
    if t.len() == 0 || t[0] != '#' {
        return true;
    }
    let rest = sub_chars(&t, 1, t.len());
    assert(rest@ =~= t@.drop_first());
    let text = string_of(&rest);
    let s = text.as_str();
    let h = s.as_bytes();
    assert(h@ == colour_bytes4(t@));
    let n = h.len();
    if n == 3 || n == 4 {
        s.is_char_boundary(1) && (byte_exec(h[0], h[0]).is_none() || (s.is_char_boundary(2) && (byte_exec(h[1], h[1]).is_none()
            || s.is_char_boundary(3))))
    } else if n == 6 || n == 8 {
        s.is_char_boundary(2) && (byte_exec(h[0], h[1]).is_none() || (s.is_char_boundary(4) && (byte_exec(h[2], h[3]).is_none()
            || s.is_char_boundary(6))))
    } else {
        true
    }
}

fn slices_badly_exec(stmt: &Vec<char>, serial: usize, g: Ghost<GraphV>) -> (b: bool)
    requires
        serial < usize::MAX,
        g@.serial == serial,
    ensures
        b == step_slices_badly(stmt@, g@),
{
    let (body, result, _serial) = head_exec(stmt, serial);
    if result.len() == 0 {
        return false;
    }
    match split_call_exec(&body) {
        Err(_) => false,
        Ok((name, args)) => {
            if is_text(&name, "flood") || is_text(&name, "feFlood") {
                let fs = fields_exec(&args);
                let value = text_or_exec(&fs, "color", Some("flood-color"), "#000000ff");
                !flood_sliceable_exec(&value)
            } else {
                false
            }
        },
    }
}

proof fn lemma_run_slices_step(sv: Seq<Seq<char>>, k: int, g: GraphV)
    requires
        0 <= k < sv.len(),
    ensures
        run_slices_badly(sv, k, g) == if step_slices_badly(sv[k], g) {
            true
        } else {
            match step(sv[k], g) {
                Err(_) => false,
                Ok(g2) => run_slices_badly(sv, k + 1, g2),
            }
        },
{
}

/// Whether the flood colours of graph text can be read without slicing a
/// character, the condition `parse_filter_graph` asks for.
pub fn graph_sliceable_exec(raw: &str) -> (b: bool)
    ensures
        b == graph_sliceable(raw@),
{
    let t = trim_chars(&chars_of(raw));
    if t.len() == 0 {
        return true;
    }
    let stmts = statements_exec(&t);
    let ghost sv = line_views(stmts@);
    let mut st = GraphState { nodes: Vec::new(), previous: FilterInput::SourceGraphic, serial: 0, diags: Vec::new() };
    assert(nodes_view(st.nodes@) =~= Seq::<(Seq<char>, PrimV)>::empty());
    assert(rdiags_view(st.diags@) =~= Seq::<(Seq<char>, Seq<char>, Seq<char>, Option<Seq<char>>)>::empty());
    assert(state_view(st) == start_graph());
    let mut k: usize = 0;
    while k < stmts.len()
        invariant
            k <= stmts@.len(),
            stmts@.len() <= t@.len() + 1,
            t@.len() <= usize::MAX,
            sv == line_views(stmts@),
            sv == statements(t@),
            t@ == trim(raw@),
            t@.len() > 0,
            st.serial <= k,
            run_slices_badly(sv, 0, start_graph()) == run_slices_badly(sv, k as int, state_view(st)),
        decreases stmts@.len() - k,
    {
        let ghost g = state_view(st);
        proof {
            lemma_run_slices_step(sv, k as int, g);
        }
        if slices_badly_exec(&stmts[k], st.serial, Ghost(g)) {
            return false;
        }
        match step_exec(&stmts[k], st) {
            Ok(s2) => {
                st = s2;
            },
            Err(_) => {
                return true;
            },
        }
        k += 1;
    }
    true
}

/// `parse_filter_graph` where the graph's flood colours can be read, and
/// `None` for graph text on which reading one would slice a character.
pub fn parse_filter_graph_checked(raw: &str, region: FilterRegion) -> (r: Option<Result<(FilterGraph, Vec<RenderDiagnostic>), String>>)
    ensures
        r is None <==> !graph_sliceable(raw@),
        r matches Some(res) ==> match parse_graph_spec(raw@) {
            Ok(g) => res matches Ok((fg, ds)) && nodes_view(fg.nodes@) == g.nodes && input_view(fg.output) == g.previous
                && fg.region == region && rdiags_view(ds@) == g.diags,
            Err(e) => res matches Err(m) && m@ == e,
        },
{
    if graph_sliceable_exec(raw) {
        Some(parse_filter_graph(raw, region))
    } else {
        None
    }
}

} // verus!
