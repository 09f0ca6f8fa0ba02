//! Recursive-descent parser with error recovery: every malformed declaration
//! is reported and skipped, and parsing always continues to the end.
use vstd::prelude::*;
use crate::ast::{
    AnimationDecl, DeclView, Declaration, Document, NodeDecl, Property, PropertyView,
    ReferenceDecl, RelationDecl, UnitDecl, declarations_view, properties_view,
};
use crate::diagnostic::{Diagnostic, DiagnosticView, Severity, diag_view, diagnostics_view};
use crate::lexer::{Tk, Token, TokenKind, TokenView, tokens_view};
use crate::number::{float_display, float_display_spec};
use crate::text::{append_chars, append_str, chars_of, chars_to_string_lit, string_of};

verus! {

// ---------------------------------------------------------------------------
// Specification of the parser state machine

/// The parser's position and the diagnostics it has reported so far.
pub struct PState {
    pub index: int,
    pub diags: Seq<DiagnosticView>,
}

/// A token sequence the parser can run on: non-empty and ending with `Eof`.
pub open spec fn well_formed(toks: Seq<TokenView>) -> bool {
    toks.len() > 0 && toks[toks.len() - 1].kind is Eof
}

pub open spec fn valid_state(toks: Seq<TokenView>, st: PState) -> bool {
    0 <= st.index < toks.len()
}

/// The current token; past the end it stays on the last one.
pub open spec fn pk(toks: Seq<TokenView>, st: PState) -> TokenView {
    if st.index < toks.len() - 1 { toks[st.index] } else { toks[toks.len() - 1] }
}

pub open spec fn at(st: PState, index: int) -> PState {
    PState { index, diags: st.diags }
}

pub open spec fn same_variant(a: Tk, b: Tk) -> bool {
    match (a, b) {
        (Tk::Ident(_), Tk::Ident(_)) => true,
        (Tk::Number(_), Tk::Number(_)) => true,
        (Tk::Str(_), Tk::Str(_)) => true,
        (Tk::Color(_), Tk::Color(_)) => true,
        (Tk::LBrace, Tk::LBrace) => true,
        (Tk::RBrace, Tk::RBrace) => true,
        (Tk::Colon, Tk::Colon) => true,
        (Tk::Semi, Tk::Semi) => true,
        (Tk::Equal, Tk::Equal) => true,
        (Tk::Arrow, Tk::Arrow) => true,
        (Tk::Comma, Tk::Comma) => true,
        (Tk::At, Tk::At) => true,
        (Tk::Eof, Tk::Eof) => true,
        _ => false,
    }
}

pub open spec fn error_here(toks: Seq<TokenView>, st: PState, code: Seq<char>, msg: Seq<char>) -> PState {
    let t = pk(toks, st);
    PState { index: st.index, diags: st.diags.push(diag_view(Severity::Error, code, msg, t.line, t.column)) }
}

pub open spec fn at_eof(toks: Seq<TokenView>, st: PState) -> bool {
    pk(toks, st).kind is Eof
}

pub open spec fn match_kind(toks: Seq<TokenView>, st: PState, k: Tk) -> (bool, PState) {
    if same_variant(pk(toks, st).kind, k) { (true, at(st, st.index + 1)) } else { (false, st) }
}

pub open spec fn match_ident(toks: Seq<TokenView>, st: PState, word: Seq<char>) -> (bool, PState) {
    match pk(toks, st).kind {
        Tk::Ident(v) => if v == word { (true, at(st, st.index + 1)) } else { (false, st) },
        _ => (false, st),
    }
}

pub open spec fn take_ident(toks: Seq<TokenView>, st: PState) -> (Option<Seq<char>>, PState) {
    match pk(toks, st).kind {
        Tk::Ident(v) => (Some(v), at(st, st.index + 1)),
        _ => (None, st),
    }
}

pub open spec fn take_ident_or_error(toks: Seq<TokenView>, st: PState, code: Seq<char>, msg: Seq<char>) -> (Option<Seq<char>>, PState) {
    let r = take_ident(toks, st);
    if r.0 is None { (None, error_here(toks, r.1, code, msg)) } else { r }
}

pub open spec fn take_scalar(toks: Seq<TokenView>, st: PState) -> (Option<Seq<char>>, PState) {
    match pk(toks, st).kind {
        Tk::Ident(v) => (Some(v), at(st, st.index + 1)),
        Tk::Number(v) => (Some(v), at(st, st.index + 1)),
        Tk::Str(v) => (Some(v), at(st, st.index + 1)),
        Tk::Color(v) => (Some(v), at(st, st.index + 1)),
        _ => (None, st),
    }
}

/// Tokens at which error recovery and value collection stop.
pub open spec fn is_stop(k: Tk) -> bool {
    k is Eof || k is Semi || k is RBrace
}

/// First index at or after `i` whose current token is a stop token.
pub open spec fn skip_to_stop(toks: Seq<TokenView>, i: int) -> int
    decreases toks.len() - i,
{
    if i < 0 || i >= toks.len() - 1 {
        i
    } else if is_stop(toks[i].kind) {
        i
    } else {
        skip_to_stop(toks, i + 1)
    }
}

/// Skips to the end of the current property, consuming a `;`.
pub open spec fn recover_property(toks: Seq<TokenView>, st: PState) -> PState {
    let j = skip_to_stop(toks, st.index);
    if pk(toks, at(st, j)).kind is Semi { at(st, j + 1) } else { at(st, j) }
}

/// Skips to the end of the current declaration, consuming a `;` or `}`.
pub open spec fn recover_top_level(toks: Seq<TokenView>, st: PState) -> PState {
    let j = skip_to_stop(toks, st.index);
    let k = pk(toks, at(st, j)).kind;
    if k is Semi || k is RBrace { at(st, j + 1) } else { at(st, j) }
}

pub open spec fn expect_semi(toks: Seq<TokenView>, st: PState) -> PState {
    let m = match_kind(toks, st, Tk::Semi);
    if m.0 { m.1 } else { recover_property(toks, error_here(toks, st, "E170"@, "expected `;`"@)) }
}

/// Source text of a token inside a property value.
pub open spec fn token_text(k: Tk) -> Seq<char> {
    match k {
        Tk::Ident(v) => v,
        Tk::Number(v) => v,
        Tk::Color(v) => v,
        Tk::Str(v) => seq!['"'] + escape_quotes(v) + seq!['"'],
        Tk::LBrace => "{"@,
        Tk::RBrace => "}"@,
        Tk::Colon => ":"@,
        Tk::Semi => ";"@,
        Tk::Equal => "="@,
        Tk::Arrow => "->"@,
        Tk::Comma => ","@,
        Tk::At => "@"@,
        Tk::Eof => Seq::empty(),
    }
}

/// Every `"` preceded by a backslash.
pub open spec fn escape_quotes(v: Seq<char>) -> Seq<char>
    decreases v.len(),
{
    if v.len() == 0 {
        Seq::empty()
    } else {
        let rest = escape_quotes(v.drop_last());
        if v.last() == '"' { rest + seq!['\\', '"'] } else { rest.push(v.last()) }
    }
}

pub open spec fn closes_group(part: Seq<char>) -> bool {
    part == ","@ || part == ")"@ || part == "]"@ || part == "}"@
}

pub open spec fn opens_group(out: Seq<char>) -> bool {
    out.len() > 0 && (out.last() == '(' || out.last() == '[' || out.last() == '{' || out.last() == '@')
}

/// Joins value parts with single spaces, except before closing punctuation
/// and after opening punctuation.
pub open spec fn normalize_value(parts: Seq<Seq<char>>) -> Seq<char>
    decreases parts.len(),
{
    if parts.len() == 0 {
        Seq::empty()
    } else {
        let out = normalize_value(parts.drop_last());
        let part = parts.last();
        if out.len() > 0 && !closes_group(part) && !opens_group(out) {
            out + seq![' '] + part
        } else {
            out + part
        }
    }
}

/// Texts of the tokens from `i` up to `j`.
pub open spec fn token_texts(toks: Seq<TokenView>, i: int, j: int) -> Seq<Seq<char>>
    decreases j - i,
{
    if j <= i {
        Seq::empty()
    } else {
        token_texts(toks, i, j - 1).push(token_text(toks[j - 1].kind))
    }
}

/// A property value: everything up to the next `;`, `}` or end of input.
pub open spec fn collect_value(toks: Seq<TokenView>, st: PState) -> (Seq<char>, PState) {
    let j = skip_to_stop(toks, st.index);
    (normalize_value(token_texts(toks, st.index, j)), at(st, j))
}

pub open spec fn prop(name: Seq<char>, value: Seq<char>) -> PropertyView {
    PropertyView { name, value }
}

/// One property (or one recovery step) inside a block.
pub open spec fn property_step(toks: Seq<TokenView>, st: PState, props: Seq<PropertyView>) -> (PState, Seq<PropertyView>) {
    let name = take_ident(toks, st);
    match name.0 {
        None => (recover_property(toks, error_here(toks, name.1, "E161"@, "expected property name"@)), props),
        Some(n) => {
            let colon = match_kind(toks, name.1, Tk::Colon);
            if !colon.0 {
                (recover_property(toks, error_here(toks, colon.1,
                    "E162"@, "expected `:` after property `"@ + n + "`"@)), props)
            } else {
                let v = collect_value(toks, colon.1);
                let s4 = if v.0.len() == 0 {
                    error_here(toks, v.1, "E163"@, "property `"@ + n + "` has no value"@)
                } else { v.1 };
                (expect_semi(toks, s4), props.push(prop(n, v.0)))
            }
        },
    }
}

/// The properties of a block, from the current token to the closing brace.
pub open spec fn property_loop(toks: Seq<TokenView>, st: PState, props: Seq<PropertyView>) -> (Seq<PropertyView>, PState)
    decreases toks.len() - st.index,
{
    if st.index < 0 || st.index >= toks.len() || at_eof(toks, st) || pk(toks, st).kind is RBrace {
        (props, st)
    } else {
        let (next, props2) = property_step(toks, st, props);
        if next.index <= st.index || next.index > toks.len() {
            (props2, next)
        } else {
            property_loop(toks, next, props2)
        }
    }
}

pub open spec fn property_block(toks: Seq<TokenView>, st: PState, owner: Seq<char>) -> (Seq<PropertyView>, PState) {
    let open = match_kind(toks, st, Tk::LBrace);
    if !open.0 {
        (Seq::empty(), recover_top_level(toks, error_here(toks, st,
            "E160"@, "expected `{` after "@ + owner + " declaration"@)))
    } else {
        let body = property_loop(toks, open.1, Seq::empty());
        let close = match_kind(toks, body.1, Tk::RBrace);
        if !close.0 {
            (body.0, error_here(toks, body.1, "E164"@, "unterminated property block"@))
        } else {
            (body.0, close.1)
        }
    }
}

pub open spec fn parse_unit_spec(toks: Seq<TokenView>, st: PState) -> (Option<DeclView>, PState) {
    let name = take_ident_or_error(toks, st, "E110"@, "expected unit name"@);
    match name.0 {
        None => (None, name.1),
        Some(n) => {
            let eq = match_kind(toks, name.1, Tk::Equal);
            let s3 = if eq.0 { eq.1 } else { error_here(toks, eq.1, "E111"@, "expected `=` in unit declaration"@) };
            let sc = take_scalar(toks, s3);
            let (text, s5) = match sc.0 {
                Some(t) => (t, sc.1),
                None => ("1"@, error_here(toks, sc.1, "E112"@, "expected unit scale"@)),
            };
            let (scale, s6) = match float_display_spec(text) {
                Some(d) => (d, s5),
                None => ("1"@, error_here(toks, s5, "E113"@, "unit scale must be numeric"@)),
            };
            let base = take_ident_or_error(toks, s6, "E114"@, "expected base unit"@);
            match base.0 {
                None => (None, base.1),
                Some(b) => (Some(DeclView::Unit { name: n, scale, base: b }), expect_semi(toks, base.1)),
            }
        },
    }
}

pub open spec fn parse_relation_spec(toks: Seq<TokenView>, st: PState) -> (Option<DeclView>, PState) {
    let from = take_ident_or_error(toks, st, "E120"@, "expected source id after `relation`"@);
    match from.0 {
        None => (None, from.1),
        Some(f) => {
            let arrow = match_kind(toks, from.1, Tk::Arrow);
            let s3 = if arrow.0 { arrow.1 } else { error_here(toks, arrow.1, "E121"@, "expected `->` in relation"@) };
            let to = take_ident_or_error(toks, s3, "E122"@, "expected target id after `->`"@);
            match to.0 {
                None => (None, to.1),
                Some(t) => {
                    let b = property_block(toks, to.1, "relation"@);
                    (Some(DeclView::Relation { from: f, to: t, properties: b.0 }), b.1)
                },
            }
        },
    }
}

pub open spec fn parse_reference_spec(toks: Seq<TokenView>, st: PState) -> (Option<DeclView>, PState) {
    let id = take_ident_or_error(toks, st, "E130"@, "expected reference id"@);
    match id.0 {
        None => (None, id.1),
        Some(i) => {
            let eq = match_kind(toks, id.1, Tk::Equal);
            let s3 = if eq.0 { eq.1 } else { error_here(toks, eq.1, "E131"@, "expected `=` in reference declaration"@) };
            let sc = take_scalar(toks, s3);
            let (target, s5) = match sc.0 {
                Some(t) => (t, sc.1),
                None => (Seq::empty(), error_here(toks, sc.1, "E132"@, "expected reference target path"@)),
            };
            if pk(toks, s5).kind is LBrace {
                let b = property_block(toks, s5, "reference"@);
                (Some(DeclView::Reference { id: i, target, properties: b.0 }), b.1)
            } else {
                (Some(DeclView::Reference { id: i, target, properties: Seq::empty() }), expect_semi(toks, s5))
            }
        },
    }
}

pub open spec fn parse_animation_spec(toks: Seq<TokenView>, st: PState) -> (Option<DeclView>, PState) {
    let id = take_ident_or_error(toks, st, "E140"@, "expected animation id"@);
    match id.0 {
        None => (None, id.1),
        Some(i) => {
            let b = property_block(toks, id.1, "animation"@);
            (Some(DeclView::Animation { id: i, properties: b.0 }), b.1)
        },
    }
}

pub open spec fn parse_node_spec(toks: Seq<TokenView>, st: PState, explicit: bool) -> (Option<DeclView>, PState) {
    let kind = if explicit {
        take_ident_or_error(toks, st, "E150"@, "expected node kind"@)
    } else {
        take_ident_or_error(toks, st, "E151"@, "expected declaration kind"@)
    };
    match kind.0 {
        None => (None, kind.1),
        Some(k) => {
            let id = take_ident_or_error(toks, kind.1, "E152"@, "expected node id"@);
            match id.0 {
                None => (None, id.1),
                Some(i) => {
                    let b = property_block(toks, id.1, k);
                    (Some(DeclView::Node { kind: k, id: i, properties: b.0 }), b.1)
                },
            }
        },
    }
}

/// Everything the top-level loop has collected.
pub struct TopState {
    pub st: PState,
    pub file_id: Option<Seq<char>>,
    pub decls: Seq<DeclView>,
}

pub open spec fn push_decl(decls: Seq<DeclView>, d: Option<DeclView>) -> Seq<DeclView> {
    match d {
        Some(x) => decls.push(x),
        None => decls,
    }
}

/// One top-level declaration (or one recovery step).
pub open spec fn top_step(toks: Seq<TokenView>, t: TopState) -> TopState {
    let st = t.st;
    let file = match_ident(toks, st, "file"@);
    if file.0 {
        let sc = take_scalar(toks, file.1);
        let s2 = if sc.0 is None { error_here(toks, sc.1, "E102"@, "expected file identifier or string"@) } else { sc.1 };
        TopState { st: expect_semi(toks, s2), file_id: sc.0, decls: t.decls }
    } else {
        let unit = match_ident(toks, st, "unit"@);
        let relation = match_ident(toks, st, "relation"@);
        let reference = match_ident(toks, st, "reference"@);
        let animation = match_ident(toks, st, "animation"@);
        let node = match_ident(toks, st, "node"@);
        let r = if unit.0 {
            parse_unit_spec(toks, unit.1)
        } else if relation.0 {
            parse_relation_spec(toks, relation.1)
        } else if reference.0 {
            parse_reference_spec(toks, reference.1)
        } else if animation.0 {
            parse_animation_spec(toks, animation.1)
        } else if node.0 {
            parse_node_spec(toks, node.1, true)
        } else if pk(toks, st).kind is Ident {
            parse_node_spec(toks, st, false)
        } else {
            (None, recover_top_level(toks, error_here(toks, st, "E103"@, "unexpected top-level token"@)))
        };
        TopState { st: r.1, file_id: t.file_id, decls: push_decl(t.decls, r.0) }
    }
}

pub open spec fn top_loop(toks: Seq<TokenView>, t: TopState) -> TopState
    decreases toks.len() - t.st.index,
{
    if t.st.index < 0 || t.st.index >= toks.len() || at_eof(toks, t.st) {
        t
    } else {
        let next = top_step(toks, t);
        if next.st.index <= t.st.index || next.st.index > toks.len() { next } else { top_loop(toks, next) }
    }
}

/// The header: `srng <version>;`.
pub open spec fn header(toks: Seq<TokenView>) -> (Seq<char>, PState) {
    let st0 = PState { index: 0, diags: Seq::empty() };
    let m = match_ident(toks, st0, "srng"@);
    if m.0 {
        let sc = take_scalar(toks, m.1);
        match sc.0 {
            Some(v) => (v, expect_semi(toks, sc.1)),
            None => ("0.1"@, expect_semi(toks, error_here(toks, sc.1, "E100"@, "expected SRNG version after `srng`"@))),
        }
    } else {
        ("0.1"@, error_here(toks, st0, "E101"@, "file must begin with `srng <version>;`"@))
    }
}

// ---------------------------------------------------------------------------
// Validation

pub open spec fn builtin_units() -> Seq<Seq<char>> {
    seq!["px"@, "pt"@, "mm"@, "cm"@, "in"@, "%"@, "vw"@, "vh"@]
}

pub open spec fn has_position(props: Seq<PropertyView>) -> bool {
    exists|k: int| 0 <= k < props.len() && #[trigger] props[k].name == "position"@
}

pub open spec fn contains_char(s: Seq<char>, c: char) -> bool {
    exists|k: int| 0 <= k < s.len() && #[trigger] s[k] == c
}

pub open spec fn warn(code: Seq<char>, msg: Seq<char>) -> DiagnosticView {
    diag_view(Severity::Warning, code, msg, 0, 0)
}

pub open spec fn err0(code: Seq<char>, msg: Seq<char>) -> DiagnosticView {
    diag_view(Severity::Error, code, msg, 0, 0)
}

/// Diagnostics of the first validation pass over `decls[k..]`, given the ids
/// and units declared before; also the ids declared in the end.
pub open spec fn validate_decls(decls: Seq<DeclView>, k: int, ids: Seq<Seq<char>>, units: Seq<Seq<char>>) -> (Seq<DiagnosticView>, Seq<Seq<char>>)
    decreases decls.len() - k,
{
    if k < 0 || k >= decls.len() {
        (Seq::empty(), ids)
    } else {
        let d = decls[k];
        match d {
            DeclView::Unit { name, .. } => {
                let rest = validate_decls(decls, k + 1, ids, units.push(name));
                let here: Seq<DiagnosticView> = if units.contains(name) {
                    seq![warn("W200"@, "unit `"@ + name + "` is declared more than once"@)]
                } else { Seq::empty() };
                (here + rest.0, rest.1)
            },
            DeclView::Node { id, properties, .. } => {
                let rest = validate_decls(decls, k + 1, ids.push(id), units);
                let dup: Seq<DiagnosticView> = if ids.contains(id) {
                    seq![err0("E200"@, "duplicate id `"@ + id + "`"@)]
                } else { Seq::empty() };
                let pos: Seq<DiagnosticView> = if !has_position(properties) {
                    seq![warn("W201"@, "node `"@ + id + "` has no explicit position"@)]
                } else { Seq::empty() };
                (dup + pos + rest.0, rest.1)
            },
            DeclView::Reference { id, target, .. } => {
                let rest = validate_decls(decls, k + 1, ids.push(id), units);
                let dup: Seq<DiagnosticView> = if ids.contains(id) {
                    seq![err0("E200"@, "duplicate id `"@ + id + "`"@)]
                } else { Seq::empty() };
                let hash: Seq<DiagnosticView> = if !contains_char(target, '#') {
                    seq![warn("W202"@, "reference `"@ + id + "` does not name a target id with `#`"@)]
                } else { Seq::empty() };
                (dup + hash + rest.0, rest.1)
            },
            _ => validate_decls(decls, k + 1, ids, units),
        }
    }
}

/// Diagnostics of the second pass: relation endpoints must be declared.
pub open spec fn validate_relations(decls: Seq<DeclView>, ids: Seq<Seq<char>>) -> Seq<DiagnosticView>
    decreases decls.len(),
{
    if decls.len() == 0 {
        Seq::empty()
    } else {
        let rest = validate_relations(decls.drop_last(), ids);
        match decls.last() {
            DeclView::Relation { from, to, .. } => {
                let a: Seq<DiagnosticView> = if !ids.contains(from) {
                    seq![err0("E210"@, "relation source `"@ + from + "` is not declared"@)]
                } else { Seq::empty() };
                let b: Seq<DiagnosticView> = if !ids.contains(to) {
                    seq![err0("E211"@, "relation target `"@ + to + "` is not declared"@)]
                } else { Seq::empty() };
                rest + a + b
            },
            _ => rest,
        }
    }
}

pub open spec fn validate_spec(decls: Seq<DeclView>) -> Seq<DiagnosticView> {
    let first = validate_decls(decls, 0, Seq::empty(), builtin_units());
    first.0 + validate_relations(decls, first.1)
}

/// The document a token sequence parses to: version, file id,
/// declarations, and the given diagnostics followed by the parser's and the
/// validator's.
pub open spec fn parse_spec(toks: Seq<TokenView>, given: Seq<DiagnosticView>) -> (Seq<char>, Option<Seq<char>>, Seq<DeclView>, Seq<DiagnosticView>) {
    let h = header(toks);
    let t = top_loop(toks, TopState { st: h.1, file_id: None, decls: Seq::empty() });
    (h.0, t.file_id, t.decls, given + t.st.diags + validate_spec(t.decls))
}


// ---------------------------------------------------------------------------
// Facts about the specification

proof fn lemma_skip(toks: Seq<TokenView>, i: int)
    requires
        well_formed(toks),
        0 <= i <= toks.len() - 1,
    ensures
        i <= skip_to_stop(toks, i) <= toks.len() - 1,
        forall|k: int| i <= k < skip_to_stop(toks, i) ==> !is_stop(#[trigger] toks[k].kind),
        is_stop(pk(toks, PState { index: skip_to_stop(toks, i), diags: Seq::empty() }).kind),
    decreases toks.len() - i,
{
    if i < toks.len() - 1 && !is_stop(toks[i].kind) {
        lemma_skip(toks, i + 1);
    }
}

proof fn lemma_pk_any_diags(toks: Seq<TokenView>, st: PState, d: Seq<DiagnosticView>)
    ensures
        pk(toks, st) == pk(toks, PState { index: st.index, diags: d }),
{
}

/// Indexes only move forward and stay on a token.
pub open spec fn advances(toks: Seq<TokenView>, a: PState, b: PState) -> bool {
    a.index <= b.index && valid_state(toks, b)
}

proof fn lemma_match_kind(toks: Seq<TokenView>, st: PState, k: Tk)
    requires
        well_formed(toks),
        valid_state(toks, st),
        !(k is Eof),
    ensures
        advances(toks, st, match_kind(toks, st, k).1),
        match_kind(toks, st, k).0 ==> match_kind(toks, st, k).1.index == st.index + 1,
        match_kind(toks, st, k).1.diags == st.diags,
{
}

proof fn lemma_take_ident(toks: Seq<TokenView>, st: PState)
    requires
        well_formed(toks),
        valid_state(toks, st),
    ensures
        advances(toks, st, take_ident(toks, st).1),
        take_ident(toks, st).0 is Some ==> take_ident(toks, st).1.index == st.index + 1,
        take_ident(toks, st).0 is None ==> take_ident(toks, st).1 == st,
{
}

proof fn lemma_recover_property(toks: Seq<TokenView>, st: PState)
    requires
        well_formed(toks),
        valid_state(toks, st),
    ensures
        advances(toks, st, recover_property(toks, st)),
        !is_stop(pk(toks, st).kind) ==> recover_property(toks, st).index > st.index,
        pk(toks, st).kind is Semi ==> recover_property(toks, st).index > st.index,
{
    lemma_skip(toks, st.index);
    let j = skip_to_stop(toks, st.index);
    lemma_pk_any_diags(toks, at(st, j), Seq::empty());
}

proof fn lemma_recover_top_level(toks: Seq<TokenView>, st: PState)
    requires
        well_formed(toks),
        valid_state(toks, st),
    ensures
        advances(toks, st, recover_top_level(toks, st)),
        !at_eof(toks, st) ==> recover_top_level(toks, st).index > st.index,
{
    lemma_skip(toks, st.index);
    let j = skip_to_stop(toks, st.index);
    lemma_pk_any_diags(toks, at(st, j), Seq::empty());
}

proof fn lemma_expect_semi(toks: Seq<TokenView>, st: PState)
    requires
        well_formed(toks),
        valid_state(toks, st),
    ensures
        advances(toks, st, expect_semi(toks, st)),
{
    lemma_match_kind(toks, st, Tk::Semi);
    lemma_recover_property(toks, error_here(toks, st, "E170"@, "expected `;`"@));
}

proof fn lemma_collect_value(toks: Seq<TokenView>, st: PState)
    requires
        well_formed(toks),
        valid_state(toks, st),
    ensures
        advances(toks, st, collect_value(toks, st).1),
{
    lemma_skip(toks, st.index);
}

proof fn lemma_property_step(toks: Seq<TokenView>, st: PState, props: Seq<PropertyView>)
    requires
        well_formed(toks),
        valid_state(toks, st),
        !at_eof(toks, st),
        !(pk(toks, st).kind is RBrace),
    ensures
        property_step(toks, st, props).0.index > st.index,
        valid_state(toks, property_step(toks, st, props).0),
        property_loop(toks, st, props) == property_loop(toks, property_step(toks, st, props).0, property_step(toks, st, props).1),
{
    lemma_take_ident(toks, st);
    let name = take_ident(toks, st);
    match name.0 {
        None => {
            let e = error_here(toks, name.1, "E161"@, "expected property name"@);
            lemma_pk_any_diags(toks, st, e.diags);
            lemma_recover_property(toks, e);
        },
        Some(n) => {
            lemma_match_kind(toks, name.1, Tk::Colon);
            let colon = match_kind(toks, name.1, Tk::Colon);
            if !colon.0 {
                let e = error_here(toks, colon.1, "E162"@, "expected `:` after property `"@ + n + "`"@);
                lemma_recover_property(toks, e);
            } else {
                lemma_collect_value(toks, colon.1);
                let v = collect_value(toks, colon.1);
                let s4 = if v.0.len() == 0 {
                    error_here(toks, v.1, "E163"@, "property `"@ + n + "` has no value"@)
                } else { v.1 };
                lemma_expect_semi(toks, s4);
            }
        },
    }
}

proof fn lemma_property_loop(toks: Seq<TokenView>, st: PState, props: Seq<PropertyView>)
    requires
        well_formed(toks),
        valid_state(toks, st),
    ensures
        advances(toks, st, property_loop(toks, st, props).1),
    decreases toks.len() - st.index,
{
    if !at_eof(toks, st) && !(pk(toks, st).kind is RBrace) {
        lemma_property_step(toks, st, props);
        let next = property_step(toks, st, props);
        lemma_property_loop(toks, next.0, next.1);
    }
}

proof fn lemma_property_block(toks: Seq<TokenView>, st: PState, owner: Seq<char>)
    requires
        well_formed(toks),
        valid_state(toks, st),
    ensures
        advances(toks, st, property_block(toks, st, owner).1),
{
    lemma_match_kind(toks, st, Tk::LBrace);
    let open = match_kind(toks, st, Tk::LBrace);
    if !open.0 {
        lemma_recover_top_level(toks, error_here(toks, st, "E160"@, "expected `{` after "@ + owner + " declaration"@));
    } else {
        lemma_property_loop(toks, open.1, Seq::empty());
        let body = property_loop(toks, open.1, Seq::empty());
        lemma_match_kind(toks, body.1, Tk::RBrace);
    }
}

proof fn lemma_take_scalar(toks: Seq<TokenView>, st: PState)
    requires
        well_formed(toks),
        valid_state(toks, st),
    ensures
        advances(toks, st, take_scalar(toks, st).1),
        take_scalar(toks, st).1.diags == st.diags,
{
}

proof fn lemma_parse_unit(toks: Seq<TokenView>, st: PState)
    requires
        well_formed(toks),
        valid_state(toks, st),
    ensures
        advances(toks, st, parse_unit_spec(toks, st).1),
{
    lemma_take_ident(toks, st);
    let name = take_ident_or_error(toks, st, "E110"@, "expected unit name"@);
    if let Some(n) = name.0 {
        lemma_match_kind(toks, name.1, Tk::Equal);
        let eq = match_kind(toks, name.1, Tk::Equal);
        let s3 = if eq.0 { eq.1 } else { error_here(toks, eq.1, "E111"@, "expected `=` in unit declaration"@) };
        lemma_take_scalar(toks, s3);
        let sc = take_scalar(toks, s3);
        let (text, s5) = match sc.0 {
            Some(t) => (t, sc.1),
            None => ("1"@, error_here(toks, sc.1, "E112"@, "expected unit scale"@)),
        };
        let (scale, s6) = match float_display_spec(text) {
            Some(d) => (d, s5),
            None => ("1"@, error_here(toks, s5, "E113"@, "unit scale must be numeric"@)),
        };
        lemma_take_ident(toks, s6);
        let base = take_ident_or_error(toks, s6, "E114"@, "expected base unit"@);
        if base.0 is Some {
            lemma_expect_semi(toks, base.1);
        }
    }
}

proof fn lemma_parse_relation(toks: Seq<TokenView>, st: PState)
    requires
        well_formed(toks),
        valid_state(toks, st),
    ensures
        advances(toks, st, parse_relation_spec(toks, st).1),
{
    lemma_take_ident(toks, st);
    let from = take_ident_or_error(toks, st, "E120"@, "expected source id after `relation`"@);
    if from.0 is Some {
        lemma_match_kind(toks, from.1, Tk::Arrow);
        let arrow = match_kind(toks, from.1, Tk::Arrow);
        let s3 = if arrow.0 { arrow.1 } else { error_here(toks, arrow.1, "E121"@, "expected `->` in relation"@) };
        lemma_take_ident(toks, s3);
        let to = take_ident_or_error(toks, s3, "E122"@, "expected target id after `->`"@);
        if to.0 is Some {
            lemma_property_block(toks, to.1, "relation"@);
        }
    }
}

proof fn lemma_parse_reference(toks: Seq<TokenView>, st: PState)
    requires
        well_formed(toks),
        valid_state(toks, st),
    ensures
        advances(toks, st, parse_reference_spec(toks, st).1),
{
    lemma_take_ident(toks, st);
    let id = take_ident_or_error(toks, st, "E130"@, "expected reference id"@);
    if id.0 is Some {
        lemma_match_kind(toks, id.1, Tk::Equal);
        let eq = match_kind(toks, id.1, Tk::Equal);
        let s3 = if eq.0 { eq.1 } else { error_here(toks, eq.1, "E131"@, "expected `=` in reference declaration"@) };
        lemma_take_scalar(toks, s3);
        let sc = take_scalar(toks, s3);
        let s5 = match sc.0 {
            Some(t) => sc.1,
            None => error_here(toks, sc.1, "E132"@, "expected reference target path"@),
        };
        lemma_property_block(toks, s5, "reference"@);
        lemma_expect_semi(toks, s5);
    }
}

proof fn lemma_parse_animation(toks: Seq<TokenView>, st: PState)
    requires
        well_formed(toks),
        valid_state(toks, st),
    ensures
        advances(toks, st, parse_animation_spec(toks, st).1),
{
    lemma_take_ident(toks, st);
    let id = take_ident_or_error(toks, st, "E140"@, "expected animation id"@);
    if id.0 is Some {
        lemma_property_block(toks, id.1, "animation"@);
    }
}

proof fn lemma_parse_node(toks: Seq<TokenView>, st: PState, explicit: bool)
    requires
        well_formed(toks),
        valid_state(toks, st),
    ensures
        advances(toks, st, parse_node_spec(toks, st, explicit).1),
        !explicit && pk(toks, st).kind is Ident ==> parse_node_spec(toks, st, explicit).1.index > st.index,
{
    lemma_take_ident(toks, st);
    let kind = if explicit {
        take_ident_or_error(toks, st, "E150"@, "expected node kind"@)
    } else {
        take_ident_or_error(toks, st, "E151"@, "expected declaration kind"@)
    };
    if let Some(k) = kind.0 {
        lemma_take_ident(toks, kind.1);
        let id = take_ident_or_error(toks, kind.1, "E152"@, "expected node id"@);
        if id.0 is Some {
            lemma_property_block(toks, id.1, k);
        }
    }
}

proof fn lemma_top_step(toks: Seq<TokenView>, t: TopState)
    requires
        well_formed(toks),
        valid_state(toks, t.st),
        !at_eof(toks, t.st),
    ensures
        top_step(toks, t).st.index > t.st.index,
        valid_state(toks, top_step(toks, t).st),
        top_loop(toks, t) == top_loop(toks, top_step(toks, t)),
{
    let st = t.st;
    let file = match_ident(toks, st, "file"@);
    if file.0 {
        lemma_take_scalar(toks, file.1);
        let sc = take_scalar(toks, file.1);
        let s2 = if sc.0 is None { error_here(toks, sc.1, "E102"@, "expected file identifier or string"@) } else { sc.1 };
        lemma_expect_semi(toks, s2);
    } else {
        let unit = match_ident(toks, st, "unit"@);
        let relation = match_ident(toks, st, "relation"@);
        let reference = match_ident(toks, st, "reference"@);
        let animation = match_ident(toks, st, "animation"@);
        let node = match_ident(toks, st, "node"@);
        if unit.0 {
            lemma_parse_unit(toks, unit.1);
        } else if relation.0 {
            lemma_parse_relation(toks, relation.1);
        } else if reference.0 {
            lemma_parse_reference(toks, reference.1);
        } else if animation.0 {
            lemma_parse_animation(toks, animation.1);
        } else if node.0 {
            lemma_parse_node(toks, node.1, true);
        } else if pk(toks, st).kind is Ident {
            lemma_parse_node(toks, st, false);
        } else {
            lemma_recover_top_level(toks, error_here(toks, st, "E103"@, "unexpected top-level token"@));
        }
    }
}

// ---------------------------------------------------------------------------
// Executable parser

struct Parser {
    tokens: Vec<Token>,
    index: usize,
    diagnostics: Vec<Diagnostic>,
}

spec fn ptoks(p: Parser) -> Seq<TokenView> {
    tokens_view(p.tokens@)
}

spec fn pst(p: Parser) -> PState {
    PState { index: p.index as int, diags: diagnostics_view(p.diagnostics@) }
}

spec fn pinv(p: Parser) -> bool {
    well_formed(ptoks(p)) && valid_state(ptoks(p), pst(p)) && p.tokens@.len() <= usize::MAX
        && ptoks(p).len() == p.tokens@.len()
}

/// Character-wise equality of two string slices.
pub fn str_eq(a: &str, b: &str) -> (r: bool)
    ensures
        r == (a@ == b@),
{
    let x = chars_of(a);
    let y = chars_of(b);
    chars_eq(&x, &y)
}

pub fn chars_eq(x: &Vec<char>, y: &Vec<char>) -> (r: bool)
    ensures
        r == (x@ == y@),
{
    if x.len() != y.len() {
        return false;
    }
    let mut k: usize = 0;
    while k < x.len()
        invariant
            k <= x@.len(),
            x@.len() == y@.len(),
            forall|m: int| 0 <= m < k ==> x@[m] == y@[m],
        decreases x@.len() - k,
    {
        if x[k] != y[k] {
            return false;
        }
        k += 1;
    }
    assert(x@ =~= y@);
    true
}

fn copy_string(s: &String) -> (r: String)
    ensures
        r@ == s@,
{
    s.clone()
}

fn concat3(a: &str, b: &Vec<char>, c: &str) -> (r: String)
    ensures
        r@ == a@ + b@ + c@,
{
    let mut v = chars_of(a);
    append_chars(&mut v, b);
    append_str(&mut v, c);
    string_of(&v)
}

fn same_kind(a: &TokenKind, b: &TokenKind) -> (r: bool)
    ensures
        r == same_variant(a@, b@),
{
    match (a, b) {
        (TokenKind::Ident(_), TokenKind::Ident(_)) => true,
        (TokenKind::Number(_), TokenKind::Number(_)) => true,
        (TokenKind::String(_), TokenKind::String(_)) => true,
        (TokenKind::Color(_), TokenKind::Color(_)) => true,
        (TokenKind::LBrace, TokenKind::LBrace) => true,
        (TokenKind::RBrace, TokenKind::RBrace) => true,
        (TokenKind::Colon, TokenKind::Colon) => true,
        (TokenKind::Semi, TokenKind::Semi) => true,
        (TokenKind::Equal, TokenKind::Equal) => true,
        (TokenKind::Arrow, TokenKind::Arrow) => true,
        (TokenKind::Comma, TokenKind::Comma) => true,
        (TokenKind::At, TokenKind::At) => true,
        (TokenKind::Eof, TokenKind::Eof) => true,
        _ => false,
    }
}

fn escape_quotes_exec(v: &Vec<char>) -> (r: Vec<char>)
    ensures
        r@ == escape_quotes(v@),
{
    let mut out: Vec<char> = Vec::new();
    let mut k: usize = 0;
    while k < v.len()
        invariant
            k <= v@.len(),
            out@ == escape_quotes(v@.subrange(0, k as int)),
        decreases v@.len() - k,
    {
        let ghost prev = v@.subrange(0, k as int);
        assert(v@.subrange(0, k + 1).drop_last() =~= prev);
        if v[k] == '"' {
            out.push('\\');
            out.push('"');
            assert(out@ =~= escape_quotes(prev) + seq!['\\', '"']);
        } else {
            out.push(v[k]);
        }
        k += 1;
    }
    assert(v@.subrange(0, v@.len() as int) =~= v@);
    out
}

fn token_text_exec(kind: &TokenKind) -> (r: Vec<char>)
    ensures
        r@ == token_text(kind@),
{
    match kind {
        TokenKind::Ident(v) => chars_of(v.as_str()),
        TokenKind::Number(v) => chars_of(v.as_str()),
        TokenKind::Color(v) => chars_of(v.as_str()),
        TokenKind::String(v) => {
            let inner = escape_quotes_exec(&chars_of(v.as_str()));
            let mut out: Vec<char> = Vec::new();
            out.push('"');
            append_chars(&mut out, &inner);
            out.push('"');
            assert(out@ =~= seq!['"'] + inner@ + seq!['"']);
            out
        },
        TokenKind::LBrace => chars_of("{"),
        TokenKind::RBrace => chars_of("}"),
        TokenKind::Colon => chars_of(":"),
        TokenKind::Semi => chars_of(";"),
        TokenKind::Equal => chars_of("="),
        TokenKind::Arrow => chars_of("->"),
        TokenKind::Comma => chars_of(","),
        TokenKind::At => chars_of("@"),
        TokenKind::Eof => Vec::new(),
    }
}

fn is_closing_part(part: &Vec<char>) -> (r: bool)
    ensures
        r == closes_group(part@),
{
    proof {
        reveal_strlit(",");
        reveal_strlit(")");
        reveal_strlit("]");
        reveal_strlit("}");
    }
    let r = part.len() == 1 && (part[0] == ',' || part[0] == ')' || part[0] == ']' || part[0] == '}');
    proof {
        if part@.len() == 1 {
            if part@[0] == ',' { assert(part@ =~= ","@); }
            if part@[0] == ')' { assert(part@ =~= ")"@); }
            if part@[0] == ']' { assert(part@ =~= "]"@); }
            if part@[0] == '}' { assert(part@ =~= "}"@); }
        }
    }
    r
}

fn normalize_value_exec(parts: &Vec<Vec<char>>) -> (r: Vec<char>)
    ensures
        r@ == normalize_value(parts@.map_values(|p: Vec<char>| p@)),
{
    let ghost ps = parts@.map_values(|p: Vec<char>| p@);
    let mut out: Vec<char> = Vec::new();
    let mut k: usize = 0;
    while k < parts.len()
        invariant
            k <= parts@.len(),
            ps == parts@.map_values(|p: Vec<char>| p@),
            out@ == normalize_value(ps.subrange(0, k as int)),
        decreases parts@.len() - k,
    {
        let part = &parts[k];
        assert(ps.subrange(0, k + 1).drop_last() =~= ps.subrange(0, k as int));
        assert(ps.subrange(0, k + 1).last() == part@);
        let closing = is_closing_part(part);
        let n = out.len();
        let opening = n > 0 && (out[n - 1] == '(' || out[n - 1] == '[' || out[n - 1] == '{' || out[n - 1] == '@');
        if n > 0 && !closing && !opening {
            out.push(' ');
        }
        append_chars(&mut out, part);
        k += 1;
    }
    assert(ps.subrange(0, parts@.len() as int) =~= ps);
    out
}

impl Parser {
    fn peek(&self) -> (t: &Token)
        requires
            pinv(*self),
        ensures
            t@ == pk(ptoks(*self), pst(*self)),
    {
        let last = self.tokens.len() - 1;
        let i = if self.index < last { self.index } else { last };
        &self.tokens[i]
    }

    fn at_eof(&self) -> (b: bool)
        requires
            pinv(*self),
        ensures
            b == at_eof(ptoks(*self), pst(*self)),
    {
        match self.peek().kind {
            TokenKind::Eof => true,
            _ => false,
        }
    }

    fn peek_is_ident(&self) -> (b: bool)
        requires
            pinv(*self),
        ensures
            b == (pk(ptoks(*self), pst(*self)).kind is Ident),
    {
        match self.peek().kind {
            TokenKind::Ident(_) => true,
            _ => false,
        }
    }

    fn peek_kind(&self, expected: &TokenKind) -> (b: bool)
        requires
            pinv(*self),
        ensures
            b == same_variant(pk(ptoks(*self), pst(*self)).kind, expected@),
    {
        same_kind(&self.peek().kind, expected)
    }

    fn match_kind(&mut self, expected: &TokenKind) -> (b: bool)
        requires
            pinv(*old(self)),
            !(expected@ is Eof),
        ensures
            pinv(*final(self)),
            final(self).tokens@ == old(self).tokens@,
            (b, pst(*final(self))) == match_kind(ptoks(*old(self)), pst(*old(self)), expected@),
    {
        if self.peek_kind(expected) {
            self.index += 1;
            true
        } else {
            false
        }
    }

    fn match_ident(&mut self, expected: &str) -> (b: bool)
        requires
            pinv(*old(self)),
        ensures
            pinv(*final(self)),
            final(self).tokens@ == old(self).tokens@,
            (b, pst(*final(self))) == match_ident(ptoks(*old(self)), pst(*old(self)), expected@),
    {
        let hit = match &self.peek().kind {
            TokenKind::Ident(v) => str_eq(v.as_str(), expected),
            _ => false,
        };
        if hit {
            self.index += 1;
        }
        hit
    }

    fn take_ident(&mut self) -> (r: Option<String>)
        requires
            pinv(*old(self)),
        ensures
            pinv(*final(self)),
            final(self).tokens@ == old(self).tokens@,
            pst(*final(self)) == take_ident(ptoks(*old(self)), pst(*old(self))).1,
            match take_ident(ptoks(*old(self)), pst(*old(self))).0 {
                Some(v) => r is Some && r->0@ == v,
                None => r is None,
            },
    {
        let value = match &self.peek().kind {
            TokenKind::Ident(v) => Some(copy_string(v)),
            _ => None,
        };
        if value.is_some() {
            self.index += 1;
        }
        value
    }

    fn take_scalar(&mut self) -> (r: Option<String>)
        requires
            pinv(*old(self)),
        ensures
            pinv(*final(self)),
            final(self).tokens@ == old(self).tokens@,
            pst(*final(self)) == take_scalar(ptoks(*old(self)), pst(*old(self))).1,
            match take_scalar(ptoks(*old(self)), pst(*old(self))).0 {
                Some(v) => r is Some && r->0@ == v,
                None => r is None,
            },
    {
        let value = match &self.peek().kind {
            TokenKind::Ident(v) => Some(copy_string(v)),
            TokenKind::Number(v) => Some(copy_string(v)),
            TokenKind::String(v) => Some(copy_string(v)),
            TokenKind::Color(v) => Some(copy_string(v)),
            _ => None,
        };
        if value.is_some() {
            self.index += 1;
        }
        value
    }

    fn error_here(&mut self, code: &'static str, message: String)
        requires
            pinv(*old(self)),
        ensures
            pinv(*final(self)),
            final(self).tokens@ == old(self).tokens@,
            pst(*final(self)) == error_here(ptoks(*old(self)), pst(*old(self)), code@, message@),
    {
        let (line, column) = {
            let t = self.peek();
            (t.line, t.column)
        };
        let d = Diagnostic::error(code, message, line, column);
        let ghost before = self.diagnostics@;
        self.diagnostics.push(d);
        assert(diagnostics_view(self.diagnostics@) =~= diagnostics_view(before).push(d@));
    }

    fn take_ident_or_error(&mut self, code: &'static str, message: &str) -> (r: Option<String>)
        requires
            pinv(*old(self)),
        ensures
            pinv(*final(self)),
            final(self).tokens@ == old(self).tokens@,
            pst(*final(self)) == take_ident_or_error(ptoks(*old(self)), pst(*old(self)), code@, message@).1,
            match take_ident_or_error(ptoks(*old(self)), pst(*old(self)), code@, message@).0 {
                Some(v) => r is Some && r->0@ == v,
                None => r is None,
            },
    {
        let value = self.take_ident();
        if value.is_none() {
            self.error_here(code, chars_to_string_lit(message));
        }
        value
    }

    fn recover_property(&mut self)
        requires
            pinv(*old(self)),
        ensures
            pinv(*final(self)),
            final(self).tokens@ == old(self).tokens@,
            pst(*final(self)) == recover_property(ptoks(*old(self)), pst(*old(self))),
    {
        let ghost toks = ptoks(*self);
        let ghost i0 = self.index as int;
        proof { lemma_skip(toks, i0); }
        while !self.at_eof() && !self.peek_kind(&TokenKind::Semi) && !self.peek_kind(&TokenKind::RBrace)
            invariant
                pinv(*self),
                ptoks(*self) == toks,
                self.tokens@ == old(self).tokens@,
                self.diagnostics@ == old(self).diagnostics@,
                i0 <= self.index,
                skip_to_stop(toks, self.index as int) == skip_to_stop(toks, i0),
            decreases toks.len() - self.index,
        {
            self.index += 1;
        }
        proof {
            lemma_skip(toks, self.index as int);
        }
        if self.peek_kind(&TokenKind::Semi) {
            self.index += 1;
        }
    }

    fn recover_top_level(&mut self)
        requires
            pinv(*old(self)),
        ensures
            pinv(*final(self)),
            final(self).tokens@ == old(self).tokens@,
            pst(*final(self)) == recover_top_level(ptoks(*old(self)), pst(*old(self))),
    {
        let ghost toks = ptoks(*self);
        let ghost i0 = self.index as int;
        proof { lemma_skip(toks, i0); }
        while !self.at_eof() && !self.peek_kind(&TokenKind::Semi) && !self.peek_kind(&TokenKind::RBrace)
            invariant
                pinv(*self),
                ptoks(*self) == toks,
                self.tokens@ == old(self).tokens@,
                self.diagnostics@ == old(self).diagnostics@,
                i0 <= self.index,
                skip_to_stop(toks, self.index as int) == skip_to_stop(toks, i0),
            decreases toks.len() - self.index,
        {
            self.index += 1;
        }
        proof {
            lemma_skip(toks, self.index as int);
        }
        if self.peek_kind(&TokenKind::Semi) || self.peek_kind(&TokenKind::RBrace) {
            self.index += 1;
        }
    }

    fn expect_semi(&mut self)
        requires
            pinv(*old(self)),
        ensures
            pinv(*final(self)),
            final(self).tokens@ == old(self).tokens@,
            pst(*final(self)) == expect_semi(ptoks(*old(self)), pst(*old(self))),
    {
        if !self.match_kind(&TokenKind::Semi) {
            self.error_here("E170", chars_to_string_lit("expected `;`"));
            self.recover_property();
        }
    }

    fn collect_value_until_semi(&mut self) -> (v: String)
        requires
            pinv(*old(self)),
        ensures
            pinv(*final(self)),
            final(self).tokens@ == old(self).tokens@,
            (v@, pst(*final(self))) == collect_value(ptoks(*old(self)), pst(*old(self))),
    {
        let ghost toks = ptoks(*self);
        let ghost i0 = self.index as int;
        proof { lemma_skip(toks, i0); }
        let mut parts: Vec<Vec<char>> = Vec::new();
        while !self.at_eof() && !self.peek_kind(&TokenKind::Semi) && !self.peek_kind(&TokenKind::RBrace)
            invariant
                pinv(*self),
                ptoks(*self) == toks,
                self.tokens@ == old(self).tokens@,
                self.diagnostics@ == old(self).diagnostics@,
                i0 <= self.index,
                skip_to_stop(toks, self.index as int) == skip_to_stop(toks, i0),
                parts@.map_values(|p: Vec<char>| p@) == token_texts(toks, i0, self.index as int),
            decreases toks.len() - self.index,
        {
            let text = token_text_exec(&self.peek().kind);
            let ghost before = parts@;
            parts.push(text);
            assert(parts@.map_values(|p: Vec<char>| p@) =~= before.map_values(|p: Vec<char>| p@).push(text@));
            self.index += 1;
        }
        proof {
            lemma_skip(toks, self.index as int);
        }
        let v = normalize_value_exec(&parts);
        string_of(&v)
    }

    fn parse_property_block(&mut self, owner: &str) -> (r: Vec<Property>)
        requires
            pinv(*old(self)),
        ensures
            pinv(*final(self)),
            final(self).tokens@ == old(self).tokens@,
            (properties_view(r@), pst(*final(self))) == property_block(ptoks(*old(self)), pst(*old(self)), owner@),
    {
        let ghost toks = ptoks(*self);
        if !self.match_kind(&TokenKind::LBrace) {
            self.error_here("E160", concat3("expected `{` after ", &chars_of(owner), " declaration"));
            self.recover_top_level();
            let empty: Vec<Property> = Vec::new();
            assert(properties_view(empty@) =~= Seq::<PropertyView>::empty());
            return empty;
        }
        let mut properties: Vec<Property> = Vec::new();
        let ghost s1 = pst(*self);
        assert(properties_view(properties@) =~= Seq::<PropertyView>::empty());
        while !self.at_eof() && !self.peek_kind(&TokenKind::RBrace)
            invariant
                pinv(*self),
                ptoks(*self) == toks,
                self.tokens@ == old(self).tokens@,
                property_loop(toks, s1, Seq::empty()) == property_loop(toks, pst(*self), properties_view(properties@)),
            decreases toks.len() - self.index,
        {
            let ghost st = pst(*self);
            let ghost props = properties_view(properties@);
            proof { lemma_property_step(toks, st, props); }
            let name = match self.take_ident() {
                Some(name) => name,
                None => {
                    self.error_here("E161", chars_to_string_lit("expected property name"));
                    self.recover_property();
                    continue;
                },
            };
            let name_chars = chars_of(name.as_str());
            if !self.match_kind(&TokenKind::Colon) {
                self.error_here("E162", concat3("expected `:` after property `", &name_chars, "`"));
                self.recover_property();
                    continue;
            }
            let value = self.collect_value_until_semi();
            if value.as_str().is_empty() {
                self.error_here("E163", concat3("property `", &name_chars, "` has no value"));
            }
            let ghost pv = PropertyView { name: name@, value: value@ };
            properties.push(Property { name, value });
            assert(properties_view(properties@) =~= props.push(pv));
            self.expect_semi();
        }
        let ghost body = pst(*self);
        if !self.match_kind(&TokenKind::RBrace) {
            self.error_here("E164", chars_to_string_lit("unterminated property block"));
        }
        properties
    }

    fn parse_unit(&mut self) -> (r: Option<UnitDecl>)
        requires
            pinv(*old(self)),
        ensures
            pinv(*final(self)),
            final(self).tokens@ == old(self).tokens@,
            pst(*final(self)) == parse_unit_spec(ptoks(*old(self)), pst(*old(self))).1,
            match parse_unit_spec(ptoks(*old(self)), pst(*old(self))).0 {
                Some(d) => r is Some && Declaration::Unit(r->0)@ == d,
                None => r is None,
            },
    {
        let name = match self.take_ident_or_error("E110", "expected unit name") {
            Some(n) => n,
            None => { return None; },
        };
        if !self.match_kind(&TokenKind::Equal) {
            self.error_here("E111", chars_to_string_lit("expected `=` in unit declaration"));
        }
        let scale_text = match self.take_scalar() {
            Some(t) => chars_of(t.as_str()),
            None => {
                self.error_here("E112", chars_to_string_lit("expected unit scale"));
                chars_of("1")
            },
        };
        let scale = match float_display(&scale_text) {
            Some(d) => string_of(&d),
            None => {
                self.error_here("E113", chars_to_string_lit("unit scale must be numeric"));
                chars_to_string_lit("1")
            },
        };
        let base = match self.take_ident_or_error("E114", "expected base unit") {
            Some(b) => b,
            None => { return None; },
        };
        self.expect_semi();
        Some(UnitDecl { name, scale, base })
    }

    fn parse_relation(&mut self) -> (r: Option<RelationDecl>)
        requires
            pinv(*old(self)),
        ensures
            pinv(*final(self)),
            final(self).tokens@ == old(self).tokens@,
            pst(*final(self)) == parse_relation_spec(ptoks(*old(self)), pst(*old(self))).1,
            match parse_relation_spec(ptoks(*old(self)), pst(*old(self))).0 {
                Some(d) => r is Some && Declaration::Relation(r->0)@ == d,
                None => r is None,
            },
    {
        let from = match self.take_ident_or_error("E120", "expected source id after `relation`") {
            Some(v) => v,
            None => { return None; },
        };
        if !self.match_kind(&TokenKind::Arrow) {
            self.error_here("E121", chars_to_string_lit("expected `->` in relation"));
        }
        let to = match self.take_ident_or_error("E122", "expected target id after `->`") {
            Some(v) => v,
            None => { return None; },
        };
        let properties = self.parse_property_block("relation");
        Some(RelationDecl { from, to, properties })
    }

    fn parse_reference(&mut self) -> (r: Option<ReferenceDecl>)
        requires
            pinv(*old(self)),
        ensures
            pinv(*final(self)),
            final(self).tokens@ == old(self).tokens@,
            pst(*final(self)) == parse_reference_spec(ptoks(*old(self)), pst(*old(self))).1,
            match parse_reference_spec(ptoks(*old(self)), pst(*old(self))).0 {
                Some(d) => r is Some && Declaration::Reference(r->0)@ == d,
                None => r is None,
            },
    {
        let id = match self.take_ident_or_error("E130", "expected reference id") {
            Some(v) => v,
            None => { return None; },
        };
        if !self.match_kind(&TokenKind::Equal) {
            self.error_here("E131", chars_to_string_lit("expected `=` in reference declaration"));
        }
        let target = match self.take_scalar() {
            Some(t) => t,
            None => {
                self.error_here("E132", chars_to_string_lit("expected reference target path"));
                String::new()
            },
        };
        let properties = if self.peek_kind(&TokenKind::LBrace) {
            self.parse_property_block("reference")
        } else {
            self.expect_semi();
            let empty: Vec<Property> = Vec::new();
            assert(properties_view(empty@) =~= Seq::<PropertyView>::empty());
            empty
        };
        Some(ReferenceDecl { id, target, properties })
    }

    fn parse_animation(&mut self) -> (r: Option<AnimationDecl>)
        requires
            pinv(*old(self)),
        ensures
            pinv(*final(self)),
            final(self).tokens@ == old(self).tokens@,
            pst(*final(self)) == parse_animation_spec(ptoks(*old(self)), pst(*old(self))).1,
            match parse_animation_spec(ptoks(*old(self)), pst(*old(self))).0 {
                Some(d) => r is Some && Declaration::Animation(r->0)@ == d,
                None => r is None,
            },
    {
        let id = match self.take_ident_or_error("E140", "expected animation id") {
            Some(v) => v,
            None => { return None; },
        };
        let properties = self.parse_property_block("animation");
        Some(AnimationDecl { id, properties })
    }

    fn parse_node(&mut self, explicit_node_keyword: bool) -> (r: Option<NodeDecl>)
        requires
            pinv(*old(self)),
        ensures
            pinv(*final(self)),
            final(self).tokens@ == old(self).tokens@,
            pst(*final(self)) == parse_node_spec(ptoks(*old(self)), pst(*old(self)), explicit_node_keyword).1,
            match parse_node_spec(ptoks(*old(self)), pst(*old(self)), explicit_node_keyword).0 {
                Some(d) => r is Some && Declaration::Node(r->0)@ == d,
                None => r is None,
            },
    {
        let kind = if explicit_node_keyword {
            self.take_ident_or_error("E150", "expected node kind")
        } else {
            self.take_ident_or_error("E151", "expected declaration kind")
        };
        let kind = match kind {
            Some(k) => k,
            None => { return None; },
        };
        let id = match self.take_ident_or_error("E152", "expected node id") {
            Some(v) => v,
            None => { return None; },
        };
        let properties = self.parse_property_block(kind.as_str());
        Some(NodeDecl { kind, id, properties })
    }
}

pub open spec fn opt_view(o: Option<String>) -> Option<Seq<char>> {
    match o {
        Some(s) => Some(s@),
        None => None,
    }
}

proof fn lemma_push_decl(ds: Seq<Declaration>, d: Declaration)
    ensures
        declarations_view(ds.push(d)) == declarations_view(ds).push(d@),
{
    assert(declarations_view(ds.push(d)) =~= declarations_view(ds).push(d@));
}

/// Parses a token sequence (which must end with `Eof`, as `lex` produces
/// it) into a document. Diagnostics already collected (from the lexer) come
/// first, then the parser's, then the validator's.
pub fn parse(tokens: Vec<Token>, diagnostics: Vec<Diagnostic>) -> (doc: Document)
    requires
        well_formed(tokens_view(tokens@)),
    ensures
        ({
            let p = parse_spec(tokens_view(tokens@), diagnostics_view(diagnostics@));
            &&& doc.version@ == p.0
            &&& opt_view(doc.file_id) == p.1
            &&& declarations_view(doc.declarations@) == p.2
            &&& diagnostics_view(doc.diagnostics@) == p.3
        }),
{
    let ghost toks = tokens_view(tokens@);
    let n = tokens.len();
    let mut parser = Parser { tokens, index: 0, diagnostics: Vec::new() };
    proof {
        assert(diagnostics_view(parser.diagnostics@) =~= Seq::<DiagnosticView>::empty());
        assert(pinv(parser));
    }
    let ghost st0 = pst(parser);
    let mut version = chars_to_string_lit("0.1");
    if parser.match_ident("srng") {
        match parser.take_scalar() {
            Some(v) => { version = v; },
            None => {
                parser.error_here("E100", chars_to_string_lit("expected SRNG version after `srng`"));
            },
        }
        parser.expect_semi();
    } else {
        parser.error_here("E101", chars_to_string_lit("file must begin with `srng <version>;`"));
    }
    assert(version@ == header(toks).0 && pst(parser) == header(toks).1);
    let mut file_id: Option<String> = None;
    let mut declarations: Vec<Declaration> = Vec::new();
    let ghost start = TopState { st: header(toks).1, file_id: None, decls: Seq::empty() };
    assert(declarations_view(declarations@) =~= Seq::<DeclView>::empty());
    while !parser.at_eof()
        invariant
            pinv(parser),
            ptoks(parser) == toks,
            top_loop(toks, start) == top_loop(toks, TopState {
                st: pst(parser),
                file_id: opt_view(file_id),
                decls: declarations_view(declarations@),
            }),
        decreases toks.len() - parser.index,
    {
        let ghost cur = TopState { st: pst(parser), file_id: opt_view(file_id), decls: declarations_view(declarations@) };
        proof { lemma_top_step(toks, cur); }
        if parser.match_ident("file") {
            file_id = parser.take_scalar();
            if file_id.is_none() {
                parser.error_here("E102", chars_to_string_lit("expected file identifier or string"));
            }
            parser.expect_semi();
            continue;
        }
        if parser.match_ident("unit") {
            if let Some(unit) = parser.parse_unit() {
                proof { lemma_push_decl(declarations@, Declaration::Unit(unit)); }
                declarations.push(Declaration::Unit(unit));
            }
            continue;
        }
        if parser.match_ident("relation") {
            if let Some(relation) = parser.parse_relation() {
                proof { lemma_push_decl(declarations@, Declaration::Relation(relation)); }
                declarations.push(Declaration::Relation(relation));
            }
            continue;
        }
        if parser.match_ident("reference") {
            if let Some(reference) = parser.parse_reference() {
                proof { lemma_push_decl(declarations@, Declaration::Reference(reference)); }
                declarations.push(Declaration::Reference(reference));
            }
            continue;
        }
        if parser.match_ident("animation") {
            if let Some(animation) = parser.parse_animation() {
                proof { lemma_push_decl(declarations@, Declaration::Animation(animation)); }
                declarations.push(Declaration::Animation(animation));
            }
            continue;
        }
        if parser.match_ident("node") {
            if let Some(node) = parser.parse_node(true) {
                proof { lemma_push_decl(declarations@, Declaration::Node(node)); }
                declarations.push(Declaration::Node(node));
            }
            continue;
        }
        if parser.peek_is_ident() {
            if let Some(node) = parser.parse_node(false) {
                proof { lemma_push_decl(declarations@, Declaration::Node(node)); }
                declarations.push(Declaration::Node(node));
            }
            continue;
        }
        parser.error_here("E103", chars_to_string_lit("unexpected top-level token"));
        parser.recover_top_level();
    }
    let mut all = diagnostics;
    let ghost given = diagnostics_view(all@);
    let parser_diags = parser.diagnostics;
    let mut k: usize = 0;
    while k < parser_diags.len()
        invariant
            k <= parser_diags@.len(),
            diagnostics_view(all@) == given + diagnostics_view(parser_diags@).subrange(0, k as int),
        decreases parser_diags@.len() - k,
    {
        let d = copy_diagnostic(&parser_diags[k]);
        let ghost before = all@;
        all.push(d);
        assert(diagnostics_view(all@) =~= diagnostics_view(before).push(d@));
        assert(diagnostics_view(parser_diags@).subrange(0, k + 1) =~= diagnostics_view(parser_diags@).subrange(0, k as int).push(d@));
        k += 1;
    }
    assert(diagnostics_view(parser_diags@).subrange(0, parser_diags@.len() as int) =~= diagnostics_view(parser_diags@));
    validate(&declarations, &mut all);
    Document { version, file_id, declarations, diagnostics: all }
}

fn copy_diagnostic(d: &Diagnostic) -> (r: Diagnostic)
    ensures
        r@ == d@,
{
    Diagnostic { severity: d.severity, code: d.code, message: copy_string(&d.message), line: d.line, column: d.column }
}


pub open spec fn views_of(v: Seq<Vec<char>>) -> Seq<Seq<char>> {
    v.map_values(|c: Vec<char>| c@)
}

fn contains_chars(list: &Vec<Vec<char>>, x: &Vec<char>) -> (b: bool)
    ensures
        b == views_of(list@).contains(x@),
{
    let mut k: usize = 0;
    while k < list.len()
        invariant
            k <= list@.len(),
            forall|m: int| 0 <= m < k ==> list@[m]@ != x@,
        decreases list@.len() - k,
    {
        if chars_eq(&list[k], x) {
            assert(views_of(list@)[k as int] == x@);
            return true;
        }
        k += 1;
    }
    assert(!views_of(list@).contains(x@)) by {
        if views_of(list@).contains(x@) {
            let m = choose|m: int| 0 <= m < views_of(list@).len() && views_of(list@)[m] == x@;
            assert(list@[m]@ == x@);
        }
    }
    false
}

fn push_view(list: &mut Vec<Vec<char>>, x: Vec<char>)
    ensures
        views_of(final(list)@) == views_of(old(list)@).push(x@),
{
    list.push(x);
    assert(views_of(final(list)@) =~= views_of(old(list)@).push(x@));
}

fn has_position_exec(props: &Vec<Property>) -> (b: bool)
    ensures
        b == has_position(properties_view(props@)),
{
    let mut k: usize = 0;
    while k < props.len()
        invariant
            k <= props@.len(),
            forall|m: int| 0 <= m < k ==> props@[m].name@ != "position"@,
        decreases props@.len() - k,
    {
        if str_eq(props[k].name.as_str(), "position") {
            assert(properties_view(props@)[k as int].name == "position"@);
            return true;
        }
        k += 1;
    }
    assert(!has_position(properties_view(props@))) by {
        if has_position(properties_view(props@)) {
            let m = choose|m: int| 0 <= m < properties_view(props@).len() && #[trigger] properties_view(props@)[m].name == "position"@;
            assert(props@[m].name@ == "position"@);
        }
    }
    false
}

fn contains_hash(s: &String) -> (b: bool)
    ensures
        b == contains_char(s@, '#'),
{
    let cs = chars_of(s.as_str());
    let mut k: usize = 0;
    while k < cs.len()
        invariant
            k <= cs@.len(),
            cs@ == s@,
            forall|m: int| 0 <= m < k ==> cs@[m] != '#',
        decreases cs@.len() - k,
    {
        if cs[k] == '#' {
            return true;
        }
        k += 1;
    }
    false
}

fn push_diag(diagnostics: &mut Vec<Diagnostic>, d: Diagnostic)
    ensures
        diagnostics_view(final(diagnostics)@) == diagnostics_view(old(diagnostics)@).push(d@),
{
    diagnostics.push(d);
    assert(diagnostics_view(final(diagnostics)@) =~= diagnostics_view(old(diagnostics)@).push(d@));
}

fn builtin_unit_list() -> (r: Vec<Vec<char>>)
    ensures
        views_of(r@) == builtin_units(),
{
    let mut r: Vec<Vec<char>> = Vec::new();
    push_view(&mut r, chars_of("px"));
    push_view(&mut r, chars_of("pt"));
    push_view(&mut r, chars_of("mm"));
    push_view(&mut r, chars_of("cm"));
    push_view(&mut r, chars_of("in"));
    push_view(&mut r, chars_of("%"));
    push_view(&mut r, chars_of("vw"));
    push_view(&mut r, chars_of("vh"));
    assert(views_of(r@) =~= builtin_units());
    r
}

/// Checks declared ids, units and relation endpoints, appending warnings
/// and errors to `diagnostics`.
fn validate(declarations: &Vec<Declaration>, diagnostics: &mut Vec<Diagnostic>)
    ensures
        diagnostics_view(final(diagnostics)@) == diagnostics_view(old(diagnostics)@)
            + validate_spec(declarations_view(declarations@)),
{
    let ghost ds = declarations_view(declarations@);
    let ghost first = validate_decls(ds, 0, Seq::empty(), builtin_units());
    let ghost d0 = diagnostics_view(diagnostics@);
    let mut ids: Vec<Vec<char>> = Vec::new();
    let mut units = builtin_unit_list();
    let mut k: usize = 0;
    assert(views_of(ids@) =~= Seq::<Seq<char>>::empty());
    assert(d0 + first.0 =~= diagnostics_view(diagnostics@) + validate_decls(ds, 0, views_of(ids@), views_of(units@)).0);
    while k < declarations.len()
        invariant
            k <= declarations@.len(),
            ds == declarations_view(declarations@),
            first == validate_decls(ds, 0, Seq::empty(), builtin_units()),
            d0 + first.0 == diagnostics_view(diagnostics@) + validate_decls(ds, k as int, views_of(ids@), views_of(units@)).0,
            first.1 == validate_decls(ds, k as int, views_of(ids@), views_of(units@)).1,
        decreases declarations@.len() - k,
    {
        let ghost idv = views_of(ids@);
        let ghost unv = views_of(units@);
        let ghost dv = diagnostics_view(diagnostics@);
        match &declarations[k] {
            Declaration::Unit(unit) => {
                let name = chars_of(unit.name.as_str());
                let seen = contains_chars(&units, &name);
                if seen {
                    push_diag(diagnostics, Diagnostic::warning("W200", concat3("unit `", &name, "` is declared more than once"), 0, 0));
                }
                push_view(&mut units, name);
                proof {
                    let rest = validate_decls(ds, k + 1, idv, unv.push(unit.name@));
                    if seen {
                        assert(dv + (seq![warn("W200"@, "unit `"@ + unit.name@ + "` is declared more than once"@)] + rest.0)
                            =~= diagnostics_view(diagnostics@) + rest.0);
                    } else {
                        assert(dv + (Seq::<DiagnosticView>::empty() + rest.0) =~= diagnostics_view(diagnostics@) + rest.0);
                    }
                }
            },
            Declaration::Node(node) => {
                let id = chars_of(node.id.as_str());
                let seen = contains_chars(&ids, &id);
                if seen {
                    push_diag(diagnostics, Diagnostic::error("E200", concat3("duplicate id `", &id, "`"), 0, 0));
                }
                let positioned = has_position_exec(&node.properties);
                if !positioned {
                    push_diag(diagnostics, Diagnostic::warning("W201", concat3("node `", &id, "` has no explicit position"), 0, 0));
                }
                push_view(&mut ids, id);
                proof {
                    let rest = validate_decls(ds, k + 1, idv.push(node.id@), unv);
                    let dup: Seq<DiagnosticView> = if seen { seq![err0("E200"@, "duplicate id `"@ + node.id@ + "`"@)] } else { Seq::empty() };
                    let pos: Seq<DiagnosticView> = if !positioned { seq![warn("W201"@, "node `"@ + node.id@ + "` has no explicit position"@)] } else { Seq::empty() };
                    assert(dv + (dup + pos + rest.0) =~= diagnostics_view(diagnostics@) + rest.0);
                }
            },
            Declaration::Reference(reference) => {
                let id = chars_of(reference.id.as_str());
                let seen = contains_chars(&ids, &id);
                if seen {
                    push_diag(diagnostics, Diagnostic::error("E200", concat3("duplicate id `", &id, "`"), 0, 0));
                }
                let hashed = contains_hash(&reference.target);
                if !hashed {
                    push_diag(diagnostics, Diagnostic::warning("W202", concat3("reference `", &id, "` does not name a target id with `#`"), 0, 0));
                }
                push_view(&mut ids, id);
                proof {
                    let rest = validate_decls(ds, k + 1, idv.push(reference.id@), unv);
                    let dup: Seq<DiagnosticView> = if seen { seq![err0("E200"@, "duplicate id `"@ + reference.id@ + "`"@)] } else { Seq::empty() };
                    let hash: Seq<DiagnosticView> = if !hashed { seq![warn("W202"@, "reference `"@ + reference.id@ + "` does not name a target id with `#`"@)] } else { Seq::empty() };
                    assert(dv + (dup + hash + rest.0) =~= diagnostics_view(diagnostics@) + rest.0);
                }
            },
            _ => {},
        }
        k += 1;
    }
    let ghost d1 = diagnostics_view(diagnostics@);
    assert(validate_decls(ds, k as int, views_of(ids@), views_of(units@)).0 =~= Seq::<DiagnosticView>::empty());
    assert(d1 == d0 + first.0);
    let mut j: usize = 0;
    assert(ds.subrange(0, 0) =~= Seq::<DeclView>::empty());
    while j < declarations.len()
        invariant
            j <= declarations@.len(),
            ds == declarations_view(declarations@),
            first.1 == views_of(ids@),
            diagnostics_view(diagnostics@) == d1 + validate_relations(ds.subrange(0, j as int), first.1),
        decreases declarations@.len() - j,
    {
        let ghost dv = diagnostics_view(diagnostics@);
        assert(ds.subrange(0, j + 1).drop_last() =~= ds.subrange(0, j as int));
        if let Declaration::Relation(relation) = &declarations[j] {
            let from = chars_of(relation.from.as_str());
            let to = chars_of(relation.to.as_str());
            let from_known = contains_chars(&ids, &from);
            if !from_known {
                push_diag(diagnostics, Diagnostic::error("E210", concat3("relation source `", &from, "` is not declared"), 0, 0));
            }
            let to_known = contains_chars(&ids, &to);
            if !to_known {
                push_diag(diagnostics, Diagnostic::error("E211", concat3("relation target `", &to, "` is not declared"), 0, 0));
            }
            proof {
                let a: Seq<DiagnosticView> = if !from_known { seq![err0("E210"@, "relation source `"@ + relation.from@ + "` is not declared"@)] } else { Seq::empty() };
                let b: Seq<DiagnosticView> = if !to_known { seq![err0("E211"@, "relation target `"@ + relation.to@ + "` is not declared"@)] } else { Seq::empty() };
                assert(diagnostics_view(diagnostics@) =~= dv + a + b);
            }
        }
        j += 1;
    }
    assert(ds.subrange(0, declarations@.len() as int) =~= ds);
}

// ---------------------------------------------------------------------------
// Laws of validation

/// The id a node or reference declares.
pub open spec fn decl_key(d: DeclView) -> Option<Seq<char>> {
    match d {
        DeclView::Node { id, .. } => Some(id),
        DeclView::Reference { id, .. } => Some(id),
        _ => None,
    }
}

/// Whether the diagnostics hold an E200 error.
pub open spec fn has_e200(ds: Seq<DiagnosticView>) -> bool {
    exists|i: int| 0 <= i < ds.len() && (#[trigger] ds[i]).severity == Severity::Error && ds[i].code == "E200"@
}

proof fn lemma_e200_after(p: Seq<DiagnosticView>, r: Seq<DiagnosticView>)
    requires
        has_e200(r),
    ensures
        has_e200(p + r),
{
    let i = choose|i: int| 0 <= i < r.len() && (#[trigger] r[i]).severity == Severity::Error && r[i].code == "E200"@;
    assert((p + r)[p.len() + i] == r[i]);
}

proof fn lemma_e200_first(x: DiagnosticView, r: Seq<DiagnosticView>)
    requires
        x.severity == Severity::Error,
        x.code == "E200"@,
    ensures
        has_e200(seq![x] + r),
{
    assert((seq![x] + r)[0] == x);
}

proof fn lemma_duplicate_found(decls: Seq<DeclView>, k: int, ids: Seq<Seq<char>>, units: Seq<Seq<char>>, b: int, id: Seq<char>)
    requires
        0 <= k <= b < decls.len(),
        decl_key(decls[b]) == Some(id),
        ids.contains(id) || exists|a: int| k <= a < b && decl_key(#[trigger] decls[a]) == Some(id),
    ensures
        has_e200(validate_decls(decls, k, ids, units).0),
    decreases b - k,
{
    let d = decls[k];
    if k == b {
        let e = err0("E200"@, "duplicate id `"@ + id + "`"@);
        match d {
            DeclView::Node { id: i2, properties, .. } => {
                let rest = validate_decls(decls, k + 1, ids.push(i2), units);
                let pos: Seq<DiagnosticView> = if !has_position(properties) {
                    seq![warn("W201"@, "node `"@ + i2 + "` has no explicit position"@)]
                } else { Seq::empty() };
                lemma_e200_first(e, pos + rest.0);
                assert(seq![e] + pos + rest.0 =~= seq![e] + (pos + rest.0));
            },
            DeclView::Reference { id: i2, target, .. } => {
                let rest = validate_decls(decls, k + 1, ids.push(i2), units);
                let hash: Seq<DiagnosticView> = if !contains_char(target, '#') {
                    seq![warn("W202"@, "reference `"@ + i2 + "` does not name a target id with `#`"@)]
                } else { Seq::empty() };
                lemma_e200_first(e, hash + rest.0);
                assert(seq![e] + hash + rest.0 =~= seq![e] + (hash + rest.0));
            },
            _ => {},
        }
    } else {
        match d {
            DeclView::Unit { name, .. } => {
                if !ids.contains(id) {
                    let a = choose|a: int| k <= a < b && decl_key(#[trigger] decls[a]) == Some(id);
                    assert(a != k);
                    assert(k + 1 <= a < b && decl_key(decls[a]) == Some(id));
                }
                lemma_duplicate_found(decls, k + 1, ids, units.push(name), b, id);
                let rest = validate_decls(decls, k + 1, ids, units.push(name));
                let here: Seq<DiagnosticView> = if units.contains(name) {
                    seq![warn("W200"@, "unit `"@ + name + "` is declared more than once"@)]
                } else { Seq::empty() };
                lemma_e200_after(here, rest.0);
            },
            DeclView::Node { id: i2, properties, .. } => {
                let ids2 = ids.push(i2);
                if ids.contains(id) {
                    let j = choose|j: int| 0 <= j < ids.len() && ids[j] == id;
                    assert(ids2[j] == id);
                } else {
                    let a = choose|a: int| k <= a < b && decl_key(#[trigger] decls[a]) == Some(id);
                    if a == k {
                        assert(ids2[ids.len() as int] == id);
                    } else {
                        assert(k + 1 <= a < b && decl_key(decls[a]) == Some(id));
                    }
                }
                lemma_duplicate_found(decls, k + 1, ids2, units, b, id);
                let rest = validate_decls(decls, k + 1, ids2, units);
                let dup: Seq<DiagnosticView> = if ids.contains(i2) {
                    seq![err0("E200"@, "duplicate id `"@ + i2 + "`"@)]
                } else { Seq::empty() };
                let pos: Seq<DiagnosticView> = if !has_position(properties) {
                    seq![warn("W201"@, "node `"@ + i2 + "` has no explicit position"@)]
                } else { Seq::empty() };
                lemma_e200_after(dup + pos, rest.0);
            },
            DeclView::Reference { id: i2, target, .. } => {
                let ids2 = ids.push(i2);
                if ids.contains(id) {
                    let j = choose|j: int| 0 <= j < ids.len() && ids[j] == id;
                    assert(ids2[j] == id);
                } else {
                    let a = choose|a: int| k <= a < b && decl_key(#[trigger] decls[a]) == Some(id);
                    if a == k {
                        assert(ids2[ids.len() as int] == id);
                    } else {
                        assert(k + 1 <= a < b && decl_key(decls[a]) == Some(id));
                    }
                }
                lemma_duplicate_found(decls, k + 1, ids2, units, b, id);
                let rest = validate_decls(decls, k + 1, ids2, units);
                let dup: Seq<DiagnosticView> = if ids.contains(i2) {
                    seq![err0("E200"@, "duplicate id `"@ + i2 + "`"@)]
                } else { Seq::empty() };
                let hash: Seq<DiagnosticView> = if !contains_char(target, '#') {
                    seq![warn("W202"@, "reference `"@ + i2 + "` does not name a target id with `#`"@)]
                } else { Seq::empty() };
                lemma_e200_after(dup + hash, rest.0);
            },
            _ => {
                if !ids.contains(id) {
                    let a = choose|a: int| k <= a < b && decl_key(#[trigger] decls[a]) == Some(id);
                    assert(a != k);
                    assert(k + 1 <= a < b && decl_key(decls[a]) == Some(id));
                }
                lemma_duplicate_found(decls, k + 1, ids, units, b, id);
            },
        }
    }
}

/// Two node or reference declarations with the same id always give an
/// E200 error.
pub proof fn law_duplicate_id_reported(decls: Seq<DeclView>, a: int, b: int)
    requires
        0 <= a < b < decls.len(),
        decl_key(decls[a]) is Some,
        decl_key(decls[a]) == decl_key(decls[b]),
    ensures
        has_e200(validate_spec(decls)),
{
    let id = decl_key(decls[a])->0;
    lemma_duplicate_found(decls, 0, Seq::empty(), builtin_units(), b, id);
    let first = validate_decls(decls, 0, Seq::empty(), builtin_units());
    let i = choose|i: int| 0 <= i < first.0.len() && (#[trigger] first.0[i]).severity == Severity::Error && first.0[i].code == "E200"@;
    assert((first.0 + validate_relations(decls, first.1))[i] == first.0[i]);
}

/// A parsed document whose declarations repeat a node or reference id
/// reports E200 among its diagnostics.
pub proof fn law_parse_reports_duplicate_ids(toks: Seq<TokenView>, given: Seq<DiagnosticView>, a: int, b: int)
    requires
        0 <= a < b < parse_spec(toks, given).2.len(),
        decl_key(parse_spec(toks, given).2[a]) is Some,
        decl_key(parse_spec(toks, given).2[a]) == decl_key(parse_spec(toks, given).2[b]),
    ensures
        has_e200(parse_spec(toks, given).3),
{
    let p = parse_spec(toks, given);
    law_duplicate_id_reported(p.2, a, b);
    let h = header(toks);
    let t = top_loop(toks, TopState { st: h.1, file_id: None, decls: Seq::empty() });
    lemma_e200_after(given + t.st.diags, validate_spec(t.decls));
}

/// Whether the diagnostics hold one with this severity and code.
pub open spec fn has_diag(ds: Seq<DiagnosticView>, severity: Severity, code: Seq<char>) -> bool {
    exists|i: int| 0 <= i < ds.len() && (#[trigger] ds[i]).severity == severity && ds[i].code == code
}

proof fn lemma_diag_after(p: Seq<DiagnosticView>, r: Seq<DiagnosticView>, severity: Severity, code: Seq<char>)
    requires
        has_diag(r, severity, code),
    ensures
        has_diag(p + r, severity, code),
        has_diag(r + p, severity, code),
{
    let i = choose|i: int| 0 <= i < r.len() && (#[trigger] r[i]).severity == severity && r[i].code == code;
    assert((p + r)[p.len() + i] == r[i]);
    assert((r + p)[i] == r[i]);
}

/// The ids the first validation pass has seen after `decls[k..]`: those
/// given, then every node or reference id.
proof fn lemma_seen_ids(decls: Seq<DeclView>, k: int, ids: Seq<Seq<char>>, units: Seq<Seq<char>>, x: Seq<char>)
    requires
        0 <= k <= decls.len(),
        validate_decls(decls, k, ids, units).1.contains(x),
    ensures
        ids.contains(x) || exists|j: int| k <= j < decls.len() && decl_key(#[trigger] decls[j]) == Some(x),
    decreases decls.len() - k,
{
    if k < decls.len() {
        match decls[k] {
            DeclView::Unit { name, .. } => {
                lemma_seen_ids(decls, k + 1, ids, units.push(name), x);
            },
            DeclView::Node { id, .. } => {
                lemma_seen_ids(decls, k + 1, ids.push(id), units, x);
                if ids.push(id).contains(x) && !ids.contains(x) {
                    let i = choose|i: int| 0 <= i < ids.push(id).len() && ids.push(id)[i] == x;
                    if i < ids.len() {
                        assert(ids[i] == x);
                    } else {
                        assert(decl_key(decls[k]) == Some(x));
                    }
                }
            },
            DeclView::Reference { id, .. } => {
                lemma_seen_ids(decls, k + 1, ids.push(id), units, x);
                if ids.push(id).contains(x) && !ids.contains(x) {
                    let i = choose|i: int| 0 <= i < ids.push(id).len() && ids.push(id)[i] == x;
                    if i < ids.len() {
                        assert(ids[i] == x);
                    } else {
                        assert(decl_key(decls[k]) == Some(x));
                    }
                }
            },
            _ => {
                lemma_seen_ids(decls, k + 1, ids, units, x);
            },
        }
    }
}

proof fn lemma_relation_ends(decls: Seq<DeclView>, ids: Seq<Seq<char>>, r: int)
    requires
        0 <= r < decls.len(),
        decls[r] is Relation,
    ensures
        !ids.contains(decls[r]->Relation_from) ==> has_diag(validate_relations(decls, ids), Severity::Error, "E210"@),
        !ids.contains(decls[r]->Relation_to) ==> has_diag(validate_relations(decls, ids), Severity::Error, "E211"@),
    decreases decls.len(),
{
    let rest = validate_relations(decls.drop_last(), ids);
    if r < decls.len() - 1 {
        assert(decls.drop_last()[r] == decls[r]);
        lemma_relation_ends(decls.drop_last(), ids, r);
        match decls.last() {
            DeclView::Relation { from, to, .. } => {
                let a: Seq<DiagnosticView> = if !ids.contains(from) {
                    seq![err0("E210"@, "relation source `"@ + from + "` is not declared"@)]
                } else { Seq::empty() };
                let b: Seq<DiagnosticView> = if !ids.contains(to) {
                    seq![err0("E211"@, "relation target `"@ + to + "` is not declared"@)]
                } else { Seq::empty() };
                if !ids.contains(decls[r]->Relation_from) {
                    lemma_diag_after(a + b, rest, Severity::Error, "E210"@);
                    assert(rest + a + b =~= rest + (a + b));
                }
                if !ids.contains(decls[r]->Relation_to) {
                    lemma_diag_after(a + b, rest, Severity::Error, "E211"@);
                    assert(rest + a + b =~= rest + (a + b));
                }
            },
            _ => {},
        }
    } else {
        match decls.last() {
            DeclView::Relation { from, to, .. } => {
                let a: Seq<DiagnosticView> = if !ids.contains(from) {
                    seq![err0("E210"@, "relation source `"@ + from + "` is not declared"@)]
                } else { Seq::empty() };
                let b: Seq<DiagnosticView> = if !ids.contains(to) {
                    seq![err0("E211"@, "relation target `"@ + to + "` is not declared"@)]
                } else { Seq::empty() };
                let all = rest + a + b;
                if !ids.contains(from) {
                    assert(all[rest.len() as int] == a[0]);
                }
                if !ids.contains(to) {
                    assert(all[rest.len() + a.len() as int] == b[0]);
                }
            },
            _ => {},
        }
    }
}

/// A relation whose source (target) is declared by no node or reference
/// gives an E210 (E211) error.
pub proof fn law_undeclared_relation_ends(decls: Seq<DeclView>, r: int)
    requires
        0 <= r < decls.len(),
        decls[r] is Relation,
    ensures
        (forall|j: int| 0 <= j < decls.len() ==> decl_key(#[trigger] decls[j]) != Some(decls[r]->Relation_from))
            ==> has_diag(validate_spec(decls), Severity::Error, "E210"@),
        (forall|j: int| 0 <= j < decls.len() ==> decl_key(#[trigger] decls[j]) != Some(decls[r]->Relation_to))
            ==> has_diag(validate_spec(decls), Severity::Error, "E211"@),
{
    let first = validate_decls(decls, 0, Seq::empty(), builtin_units());
    let from = decls[r]->Relation_from;
    let to = decls[r]->Relation_to;
    if first.1.contains(from) {
        lemma_seen_ids(decls, 0, Seq::empty(), builtin_units(), from);
    }
    if first.1.contains(to) {
        lemma_seen_ids(decls, 0, Seq::empty(), builtin_units(), to);
    }
    lemma_relation_ends(decls, first.1, r);
    if !first.1.contains(from) {
        lemma_diag_after(first.0, validate_relations(decls, first.1), Severity::Error, "E210"@);
    }
    if !first.1.contains(to) {
        lemma_diag_after(first.0, validate_relations(decls, first.1), Severity::Error, "E211"@);
    }
}

proof fn lemma_position_found(decls: Seq<DeclView>, k: int, ids: Seq<Seq<char>>, units: Seq<Seq<char>>, b: int)
    requires
        0 <= k <= b < decls.len(),
        decls[b] is Node,
        !has_position(decls[b]->Node_properties),
    ensures
        has_diag(validate_decls(decls, k, ids, units).0, Severity::Warning, "W201"@),
    decreases b - k,
{
    let d = decls[k];
    if k == b {
        match d {
            DeclView::Node { id, properties, .. } => {
                let rest = validate_decls(decls, k + 1, ids.push(id), units);
                let dup: Seq<DiagnosticView> = if ids.contains(id) {
                    seq![err0("E200"@, "duplicate id `"@ + id + "`"@)]
                } else { Seq::empty() };
                let pos = seq![warn("W201"@, "node `"@ + id + "` has no explicit position"@)];
                let all = dup + pos + rest.0;
                assert(all[dup.len() as int] == pos[0]);
            },
            _ => {},
        }
    } else {
        match d {
            DeclView::Unit { name, .. } => {
                lemma_position_found(decls, k + 1, ids, units.push(name), b);
                let rest = validate_decls(decls, k + 1, ids, units.push(name));
                let here: Seq<DiagnosticView> = if units.contains(name) {
                    seq![warn("W200"@, "unit `"@ + name + "` is declared more than once"@)]
                } else { Seq::empty() };
                lemma_diag_after(here, rest.0, Severity::Warning, "W201"@);
            },
            DeclView::Node { id, properties, .. } => {
                lemma_position_found(decls, k + 1, ids.push(id), units, b);
                let rest = validate_decls(decls, k + 1, ids.push(id), units);
                let dup: Seq<DiagnosticView> = if ids.contains(id) {
                    seq![err0("E200"@, "duplicate id `"@ + id + "`"@)]
                } else { Seq::empty() };
                let pos: Seq<DiagnosticView> = if !has_position(properties) {
                    seq![warn("W201"@, "node `"@ + id + "` has no explicit position"@)]
                } else { Seq::empty() };
                lemma_diag_after(dup + pos, rest.0, Severity::Warning, "W201"@);
            },
            DeclView::Reference { id, target, .. } => {
                lemma_position_found(decls, k + 1, ids.push(id), units, b);
                let rest = validate_decls(decls, k + 1, ids.push(id), units);
                let dup: Seq<DiagnosticView> = if ids.contains(id) {
                    seq![err0("E200"@, "duplicate id `"@ + id + "`"@)]
                } else { Seq::empty() };
                let hash: Seq<DiagnosticView> = if !contains_char(target, '#') {
                    seq![warn("W202"@, "reference `"@ + id + "` does not name a target id with `#`"@)]
                } else { Seq::empty() };
                lemma_diag_after(dup + hash, rest.0, Severity::Warning, "W201"@);
            },
            _ => {
                lemma_position_found(decls, k + 1, ids, units, b);
            },
        }
    }
}

/// A node without a `position` property gives a W201 warning.
pub proof fn law_missing_position_warned(decls: Seq<DeclView>, b: int)
    requires
        0 <= b < decls.len(),
        decls[b] is Node,
        !has_position(decls[b]->Node_properties),
    ensures
        has_diag(validate_spec(decls), Severity::Warning, "W201"@),
{
    lemma_position_found(decls, 0, Seq::empty(), builtin_units(), b);
    let first = validate_decls(decls, 0, Seq::empty(), builtin_units());
    lemma_diag_after(validate_relations(decls, first.1), first.0, Severity::Warning, "W201"@);
}

} // verus!
