//! Tokenizer for SRNG source text.
use vstd::prelude::*;
use crate::diagnostic::{Diagnostic, DiagnosticView, Severity, diag_view, diagnostics_view};
use crate::text::{append_chars, ascii_digit, chars_of, chars_to_string_lit, is_ascii_digit, string_of, sub_chars};

verus! {

#[derive(Debug, Clone)]
pub enum TokenKind {
    Ident(String),
    Number(String),
    String(String),
    Color(String),
    LBrace,
    RBrace,
    Colon,
    Semi,
    Equal,
    Arrow,
    Comma,
    At,
    Eof,
}

/// The mathematical content of a token kind: payload strings become
/// character sequences.
pub enum Tk {
    Ident(Seq<char>),
    Number(Seq<char>),
    Str(Seq<char>),
    Color(Seq<char>),
    LBrace,
    RBrace,
    Colon,
    Semi,
    Equal,
    Arrow,
    Comma,
    At,
    Eof,
}

impl View for TokenKind {
    type V = Tk;

    open spec fn view(&self) -> Tk {
        match self {
            TokenKind::Ident(s) => Tk::Ident(s@),
            TokenKind::Number(s) => Tk::Number(s@),
            TokenKind::String(s) => Tk::Str(s@),
            TokenKind::Color(s) => Tk::Color(s@),
            TokenKind::LBrace => Tk::LBrace,
            TokenKind::RBrace => Tk::RBrace,
            TokenKind::Colon => Tk::Colon,
            TokenKind::Semi => Tk::Semi,
            TokenKind::Equal => Tk::Equal,
            TokenKind::Arrow => Tk::Arrow,
            TokenKind::Comma => Tk::Comma,
            TokenKind::At => Tk::At,
            TokenKind::Eof => Tk::Eof,
        }
    }
}

#[derive(Debug, Clone)]
pub struct Token {
    pub kind: TokenKind,
    pub line: usize,
    pub column: usize,
}

pub struct TokenView {
    pub kind: Tk,
    pub line: int,
    pub column: int,
}

impl View for Token {
    type V = TokenView;

    open spec fn view(&self) -> TokenView {
        TokenView { kind: self.kind@, line: self.line as int, column: self.column as int }
    }
}

pub open spec fn tok(kind: Tk, line: int, column: int) -> TokenView {
    TokenView { kind, line, column }
}

pub open spec fn tokens_view(tokens: Seq<Token>) -> Seq<TokenView> {
    tokens.map_values(|t: Token| t@)
}

pub struct LexResult {
    pub tokens: Vec<Token>,
    pub diagnostics: Vec<Diagnostic>,
}

// ---------------------------------------------------------------------------
// Character classes

pub open spec fn is_alpha(c: char) -> bool {
    ('a' <= c && c <= 'z') || ('A' <= c && c <= 'Z')
}

pub open spec fn is_hex_digit(c: char) -> bool {
    is_ascii_digit(c) || ('a' <= c && c <= 'f') || ('A' <= c && c <= 'F')
}

pub open spec fn is_ident_start(c: char) -> bool {
    is_alpha(c) || c == '_' || c == '%'
}

pub open spec fn is_ident_continue(c: char) -> bool {
    is_alpha(c) || is_ascii_digit(c) || c == '_' || c == '-' || c == '.' || c == '/' || c == '%'
}

pub open spec fn is_number_char(c: char) -> bool {
    is_ascii_digit(c) || c == '.'
}

pub(crate) fn ident_start(c: char) -> (b: bool)
    ensures
        b == is_ident_start(c),
{
    ('a' <= c && c <= 'z') || ('A' <= c && c <= 'Z') || c == '_' || c == '%'
}

pub(crate) fn ident_continue(c: char) -> (b: bool)
    ensures
        b == is_ident_continue(c),
{
    ('a' <= c && c <= 'z') || ('A' <= c && c <= 'Z') || ('0' <= c && c <= '9') || c == '_'
        || c == '-' || c == '.' || c == '/' || c == '%'
}

fn hex_digit(c: char) -> (b: bool)
    ensures
        b == is_hex_digit(c),
{
    ('0' <= c && c <= '9') || ('a' <= c && c <= 'f') || ('A' <= c && c <= 'F')
}

// ---------------------------------------------------------------------------
// Runs of characters

/// First index at or after `i` that holds a newline (or the end).
pub open spec fn line_end(cs: Seq<char>, i: int) -> int
    decreases cs.len() - i,
{
    if i >= cs.len() || i < 0 {
        i
    } else if cs[i] == '\n' {
        i
    } else {
        line_end(cs, i + 1)
    }
}

/// First index at or after `i` that is not a hexadecimal digit.
pub open spec fn hex_end(cs: Seq<char>, i: int) -> int
    decreases cs.len() - i,
{
    if i >= cs.len() || i < 0 {
        i
    } else if !is_hex_digit(cs[i]) {
        i
    } else {
        hex_end(cs, i + 1)
    }
}

/// First index at or after `i` that is neither a digit nor a dot.
pub open spec fn number_end(cs: Seq<char>, i: int) -> int
    decreases cs.len() - i,
{
    if i >= cs.len() || i < 0 {
        i
    } else if !is_number_char(cs[i]) {
        i
    } else {
        number_end(cs, i + 1)
    }
}

/// First index at or after `i` that cannot continue an identifier.
pub open spec fn ident_end(cs: Seq<char>, i: int) -> int
    decreases cs.len() - i,
{
    if i >= cs.len() || i < 0 {
        i
    } else if !is_ident_continue(cs[i]) {
        i
    } else {
        ident_end(cs, i + 1)
    }
}

proof fn lemma_line_end_bounds(cs: Seq<char>, i: int)
    requires
        0 <= i <= cs.len(),
    ensures
        i <= line_end(cs, i) <= cs.len(),
    decreases cs.len() - i,
{
    if i < cs.len() && cs[i] != '\n' {
        lemma_line_end_bounds(cs, i + 1);
    }
}

proof fn lemma_hex_end_bounds(cs: Seq<char>, i: int)
    requires
        0 <= i <= cs.len(),
    ensures
        i <= hex_end(cs, i) <= cs.len(),
    decreases cs.len() - i,
{
    if i < cs.len() && is_hex_digit(cs[i]) {
        lemma_hex_end_bounds(cs, i + 1);
    }
}

proof fn lemma_number_end_bounds(cs: Seq<char>, i: int)
    requires
        0 <= i <= cs.len(),
    ensures
        i <= number_end(cs, i) <= cs.len(),
    decreases cs.len() - i,
{
    if i < cs.len() && is_number_char(cs[i]) {
        lemma_number_end_bounds(cs, i + 1);
    }
}

proof fn lemma_ident_end_bounds(cs: Seq<char>, i: int)
    requires
        0 <= i <= cs.len(),
    ensures
        i <= ident_end(cs, i) <= cs.len(),
    decreases cs.len() - i,
{
    if i < cs.len() && is_ident_continue(cs[i]) {
        lemma_ident_end_bounds(cs, i + 1);
    }
}

fn scan_line_end(cs: &Vec<char>, i: usize) -> (j: usize)
    requires
        i <= cs@.len(),
    ensures
        j == line_end(cs@, i as int),
{
    let mut j = i;
    while j < cs.len() && cs[j] != '\n'
        invariant
            i <= j <= cs@.len(),
            line_end(cs@, j as int) == line_end(cs@, i as int),
        decreases cs@.len() - j,
    {
        j += 1;
    }
    j
}

fn scan_hex_end(cs: &Vec<char>, i: usize) -> (j: usize)
    requires
        i <= cs@.len(),
    ensures
        j == hex_end(cs@, i as int),
{
    let mut j = i;
    while j < cs.len() && hex_digit(cs[j])
        invariant
            i <= j <= cs@.len(),
            hex_end(cs@, j as int) == hex_end(cs@, i as int),
        decreases cs@.len() - j,
    {
        j += 1;
    }
    j
}

fn scan_number_end(cs: &Vec<char>, i: usize) -> (j: usize)
    requires
        i <= cs@.len(),
    ensures
        j == number_end(cs@, i as int),
{
    let mut j = i;
    while j < cs.len() && (ascii_digit(cs[j]) || cs[j] == '.')
        invariant
            i <= j <= cs@.len(),
            number_end(cs@, j as int) == number_end(cs@, i as int),
        decreases cs@.len() - j,
    {
        j += 1;
    }
    j
}

fn scan_ident_end(cs: &Vec<char>, i: usize) -> (j: usize)
    requires
        i <= cs@.len(),
    ensures
        j == ident_end(cs@, i as int),
{
    let mut j = i;
    while j < cs.len() && ident_continue(cs[j])
        invariant
            i <= j <= cs@.len(),
            ident_end(cs@, j as int) == ident_end(cs@, i as int),
        decreases cs@.len() - j,
    {
        j += 1;
    }
    j
}

// ---------------------------------------------------------------------------
// String literals

/// The character an escape sequence `\c` stands for.
pub open spec fn unescape(c: char) -> char {
    if c == 'n' {
        '\n'
    } else if c == 't' {
        '\t'
    } else if c == 'r' {
        '\r'
    } else {
        c
    }
}

/// Scans the body of a string literal starting after its opening quote.
/// Returns the decoded value, the index after the literal, the line and
/// column reached, and whether a closing quote was found.
pub open spec fn scan_string(cs: Seq<char>, j: int, line: int, col: int) -> (Seq<char>, int, int, int, bool)
    decreases cs.len() - j,
{
    if j >= cs.len() || j < 0 {
        (Seq::empty(), j, line, col, false)
    } else if cs[j] == '"' {
        (Seq::empty(), j + 1, line, col + 1, true)
    } else if cs[j] == '\\' && j + 1 < cs.len() {
        let r = scan_string(cs, j + 2, line, col + 2);
        (seq![unescape(cs[j + 1])] + r.0, r.1, r.2, r.3, r.4)
    } else if cs[j] == '\n' {
        let r = scan_string(cs, j + 1, line + 1, 1);
        (seq!['\n'] + r.0, r.1, r.2, r.3, r.4)
    } else {
        let r = scan_string(cs, j + 1, line, col + 1);
        (seq![cs[j]] + r.0, r.1, r.2, r.3, r.4)
    }
}

proof fn lemma_scan_string_bounds(cs: Seq<char>, j: int, line: int, col: int)
    requires
        0 <= j <= cs.len(),
        1 <= line,
        1 <= col,
    ensures
        j <= scan_string(cs, j, line, col).1 <= cs.len(),
        line <= scan_string(cs, j, line, col).2 <= line + (scan_string(cs, j, line, col).1 - j),
        1 <= scan_string(cs, j, line, col).3 <= col + (scan_string(cs, j, line, col).1 - j),
    decreases cs.len() - j,
{
    if j < cs.len() && cs[j] != '"' {
        if cs[j] == '\\' && j + 1 < cs.len() {
            lemma_scan_string_bounds(cs, j + 2, line, col + 2);
        } else if cs[j] == '\n' {
            lemma_scan_string_bounds(cs, j + 1, line + 1, 1);
        } else {
            lemma_scan_string_bounds(cs, j + 1, line, col + 1);
        }
    }
}

fn unescape_char(c: char) -> (r: char)
    ensures
        r == unescape(c),
{
    if c == 'n' {
        '\n'
    } else if c == 't' {
        '\t'
    } else if c == 'r' {
        '\r'
    } else {
        c
    }
}

fn lex_string(cs: &Vec<char>, start: usize, line0: usize, col0: usize) -> (r: (
    Vec<char>,
    usize,
    usize,
    usize,
    bool,
))
    requires
        start <= cs@.len(),
        1 <= line0,
        1 <= col0,
        line0 + cs@.len() <= usize::MAX,
        col0 + cs@.len() <= usize::MAX,
    ensures
        ({
            let s = scan_string(cs@, start as int, line0 as int, col0 as int);
            r.0@ == s.0 && r.1 == s.1 && r.2 == s.2 && r.3 == s.3 && r.4 == s.4
        }),
{
    let ghost target = scan_string(cs@, start as int, line0 as int, col0 as int);
    let mut value: Vec<char> = Vec::new();
    let mut j = start;
    let mut line = line0;
    let mut col = col0;
    proof {
        lemma_scan_string_bounds(cs@, start as int, line0 as int, col0 as int);
    }
    while j < cs.len()
        invariant
            start <= j <= cs@.len(),
            line0 <= line <= line0 + (j - start),
            1 <= col <= col0 + (j - start),
            line0 + cs@.len() <= usize::MAX,
            col0 + cs@.len() <= usize::MAX,
            target == scan_string(cs@, start as int, line0 as int, col0 as int),
            ({
                let s = scan_string(cs@, j as int, line as int, col as int);
                target == (value@ + s.0, s.1, s.2, s.3, s.4)
            }),
        decreases cs@.len() - j,
    {
        let c = cs[j];
        if c == '"' {
            assert(scan_string(cs@, j as int, line as int, col as int) == (Seq::<char>::empty(), j + 1, line as int, col + 1, true));
            assert(value@ + Seq::<char>::empty() =~= value@);
            return (value, j + 1, line, col + 1, true);
        } else if c == '\\' && j + 1 < cs.len() {
            let e = unescape_char(cs[j + 1]);
            let ghost before = value@;
            value.push(e);
            proof {
                let s = scan_string(cs@, j + 2, line as int, col + 2);
                assert(before + (seq![e] + s.0) =~= value@ + s.0);
            }
            j = j + 2;
            col = col + 2;
        } else if c == '\n' {
            let ghost before = value@;
            value.push('\n');
            proof {
                let s = scan_string(cs@, j + 1, line + 1, 1);
                assert(before + (seq!['\n'] + s.0) =~= value@ + s.0);
            }
            j = j + 1;
            line = line + 1;
            col = 1;
        } else {
            let ghost before = value@;
            value.push(c);
            proof {
                let s = scan_string(cs@, j + 1, line as int, col + 1);
                assert(before + (seq![c] + s.0) =~= value@ + s.0);
            }
            j = j + 1;
            col = col + 1;
        }
    }
    assert(value@ + Seq::<char>::empty() =~= value@);
    (value, j, line, col, false)
}

// ---------------------------------------------------------------------------
// The lexer

pub open spec fn unexpected_message(c: char) -> Seq<char> {
    "unexpected character `"@ + seq![c] + "`"@
}

/// One simple punctuation token for a character, if it is one.
pub open spec fn punct(c: char) -> Option<Tk> {
    if c == '{' {
        Some(Tk::LBrace)
    } else if c == '}' {
        Some(Tk::RBrace)
    } else if c == ':' {
        Some(Tk::Colon)
    } else if c == ';' {
        Some(Tk::Semi)
    } else if c == '=' {
        Some(Tk::Equal)
    } else if c == ',' {
        Some(Tk::Comma)
    } else if c == '@' {
        Some(Tk::At)
    } else {
        None
    }
}

pub open spec fn starts_number(cs: Seq<char>, i: int) -> bool {
    is_ascii_digit(cs[i]) || ((cs[i] == '.' || cs[i] == '-') && i + 1 < cs.len()
        && is_ascii_digit(cs[i + 1]))
}

/// Tokens and diagnostics produced from position `i` (at `line`, `col`) to
/// the end of the input. The last token is always `Eof`.
pub open spec fn lex_from(cs: Seq<char>, i: int, line: int, col: int) -> (Seq<TokenView>, Seq<DiagnosticView>)
    decreases cs.len() - i, 0int,
{
    if i >= cs.len() || i < 0 {
        (seq![tok(Tk::Eof, line, col)], Seq::empty())
    } else {
        let c = cs[i];
        if c == ' ' || c == '\t' || c == '\r' {
            lex_from(cs, i + 1, line, col + 1)
        } else if c == '\n' {
            lex_from(cs, i + 1, line + 1, 1)
        } else if c == '/' && i + 1 < cs.len() && cs[i + 1] == '/' {
            let j = line_end(cs, i + 2);
            if j <= i || j > cs.len() { (Seq::empty(), Seq::empty()) } else {
                lex_from(cs, j, line, col + (j - i))
            }
        } else if punct(c) is Some {
            let r = lex_from(cs, i + 1, line, col + 1);
            (seq![tok(punct(c)->0, line, col)] + r.0, r.1)
        } else if c == '-' && i + 1 < cs.len() && cs[i + 1] == '>' {
            let r = lex_from(cs, i + 2, line, col + 2);
            (seq![tok(Tk::Arrow, line, col)] + r.0, r.1)
        } else if c == '"' {
            let s = scan_string(cs, i + 1, line, col + 1);
            if s.1 <= i || s.1 > cs.len() { (Seq::empty(), Seq::empty()) } else {
                let r = lex_from(cs, s.1, s.2, s.3);
                let d: Seq<DiagnosticView> = if s.4 { Seq::empty() } else {
                    seq![diag_view(Severity::Error, "E001"@, "unterminated string literal"@, line, col)]
                };
                (seq![tok(Tk::Str(s.0), line, col)] + r.0, d + r.1)
            }
        } else if c == '#' {
            let j = hex_end(cs, i + 1);
            if j <= i || j > cs.len() { (Seq::empty(), Seq::empty()) } else {
                let r = lex_from(cs, j, line, col + (j - i));
                let d: Seq<DiagnosticView> = if j == i + 1 {
                    seq![diag_view(Severity::Error, "E002"@, "expected hexadecimal color"@, line, col)]
                } else { Seq::empty() };
                (seq![tok(Tk::Color(seq!['#'] + cs.subrange(i + 1, j)), line, col)] + r.0, d + r.1)
            }
        } else if starts_number(cs, i) {
            let j = if c == '-' { number_end(cs, i + 1) } else { number_end(cs, i) };
            if j <= i || j > cs.len() { (Seq::empty(), Seq::empty()) } else {
                let r = lex_from(cs, j, line, col + (j - i));
                (seq![tok(Tk::Number(cs.subrange(i, j)), line, col)] + r.0, r.1)
            }
        } else if is_ident_start(c) {
            let j = ident_end(cs, i);
            if j <= i || j > cs.len() { (Seq::empty(), Seq::empty()) } else {
                let r = lex_from(cs, j, line, col + (j - i));
                (seq![tok(Tk::Ident(cs.subrange(i, j)), line, col)] + r.0, r.1)
            }
        } else {
            let r = lex_from(cs, i + 1, line, col + 1);
            (r.0, seq![diag_view(Severity::Error, "E003"@, unexpected_message(c), line, col)] + r.1)
        }
    }
}

/// The specification of `lex`: the tokens and diagnostics of a whole input.
pub open spec fn lex_spec(source: Seq<char>) -> (Seq<TokenView>, Seq<DiagnosticView>) {
    lex_from(source, 0, 1, 1)
}

fn push_simple(tokens: &mut Vec<Token>, kind: TokenKind, line: usize, column: usize)
    ensures
        tokens_view(final(tokens)@) == tokens_view(old(tokens)@).push(tok(kind@, line as int, column as int)),
{
    tokens.push(Token { kind, line, column });
    proof {
        assert(tokens_view(final(tokens)@) =~= tokens_view(old(tokens)@).push(tok(kind@, line as int, column as int)));
    }
}

fn message_with_char(prefix: &str, c: char, suffix: &str) -> (s: String)
    ensures
        s@ == prefix@ + seq![c] + suffix@,
{
    let mut v = chars_of(prefix);
    v.push(c);
    let tail = chars_of(suffix);
    let mut k: usize = 0;
    let ghost base = v@;
    while k < tail.len()
        invariant
            k <= tail@.len(),
            v@ == base + tail@.subrange(0, k as int),
        decreases tail@.len() - k,
    {
        v.push(tail[k]);
        k += 1;
        assert(v@ =~= base + tail@.subrange(0, k as int));
    }
    assert(tail@.subrange(0, tail@.len() as int) =~= tail@);
    string_of(&v)
}

fn sub_string(cs: &Vec<char>, from: usize, to: usize) -> (s: String)
    requires
        from <= to <= cs@.len(),
    ensures
        s@ == cs@.subrange(from as int, to as int),
{
    let v = sub_chars(cs, from, to);
    string_of(&v)
}

proof fn lemma_push_diag(ds: Seq<Diagnostic>, d: Diagnostic)
    ensures
        diagnostics_view(ds.push(d)) == diagnostics_view(ds).push(d@),
{
    assert(diagnostics_view(ds.push(d)) =~= diagnostics_view(ds).push(d@));
}

/// The relation every lexing step keeps: what has been emitted plus what
/// remains to be lexed equals the lexing of the remaining input.
pub open spec fn step_keeps(
    cs: Seq<char>,
    i0: int, l0: int, c0: int, t0: Seq<TokenView>, d0: Seq<DiagnosticView>,
    i1: int, l1: int, c1: int, t1: Seq<TokenView>, d1: Seq<DiagnosticView>,
) -> bool {
    t0 + lex_from(cs, i0, l0, c0).0 == t1 + lex_from(cs, i1, l1, c1).0
    && d0 + lex_from(cs, i0, l0, c0).1 == d1 + lex_from(cs, i1, l1, c1).1
}

fn lex_string_token(
    cs: &Vec<char>,
    i: usize,
    line: usize,
    column: usize,
    tokens: &mut Vec<Token>,
    diagnostics: &mut Vec<Diagnostic>,
) -> (r: (usize, usize, usize))
    requires
        cs@.len() <= isize::MAX,
        i < cs@.len(),
        cs@[i as int] == '"',
        1 <= line <= 1 + i,
        1 <= column <= 1 + i,
    ensures
        i < r.0 <= cs@.len(),
        1 <= r.1 <= 1 + r.0,
        1 <= r.2 <= 1 + r.0,
        step_keeps(cs@, i as int, line as int, column as int, tokens_view(old(tokens)@), diagnostics_view(old(diagnostics)@),
            r.0 as int, r.1 as int, r.2 as int, tokens_view(final(tokens)@), diagnostics_view(final(diagnostics)@)),
{
    let ghost t0 = tokens_view(tokens@);
    let ghost d0 = diagnostics_view(diagnostics@);
    proof { lemma_scan_string_bounds(cs@, i + 1, line as int, column + 1); }
    let (value, j, new_line, new_col, terminated) = lex_string(cs, i + 1, line, column + 1);
    let ghost vs = value@;
    if !terminated {
        let d = Diagnostic::error("E001", chars_to_string_lit("unterminated string literal"), line, column);
        proof { lemma_push_diag(diagnostics@, d); }
        diagnostics.push(d);
    }
    let str_value = string_of(&value);
    push_simple(tokens, TokenKind::String(str_value), line, column);
    proof {
        let rest = lex_from(cs@, j as int, new_line as int, new_col as int);
        assert(t0 + (seq![tok(Tk::Str(vs), line as int, column as int)] + rest.0) =~= tokens_view(tokens@) + rest.0);
        if terminated {
            assert(d0 + (Seq::<DiagnosticView>::empty() + rest.1) =~= diagnostics_view(diagnostics@) + rest.1);
        } else {
            assert(d0 + (seq![diag_view(Severity::Error, "E001"@, "unterminated string literal"@, line as int, column as int)] + rest.1)
                =~= diagnostics_view(diagnostics@) + rest.1);
        }
    }
    (j, new_line, new_col)
}

fn lex_color_token(
    cs: &Vec<char>,
    i: usize,
    line: usize,
    column: usize,
    tokens: &mut Vec<Token>,
    diagnostics: &mut Vec<Diagnostic>,
) -> (r: (usize, usize, usize))
    requires
        cs@.len() <= isize::MAX,
        i < cs@.len(),
        cs@[i as int] == '#',
        1 <= line <= 1 + i,
        1 <= column <= 1 + i,
    ensures
        i < r.0 <= cs@.len(),
        1 <= r.1 <= 1 + r.0,
        1 <= r.2 <= 1 + r.0,
        step_keeps(cs@, i as int, line as int, column as int, tokens_view(old(tokens)@), diagnostics_view(old(diagnostics)@),
            r.0 as int, r.1 as int, r.2 as int, tokens_view(final(tokens)@), diagnostics_view(final(diagnostics)@)),
{
    let ghost t0 = tokens_view(tokens@);
    let ghost d0 = diagnostics_view(diagnostics@);
    let j = scan_hex_end(cs, i + 1);
    proof { lemma_hex_end_bounds(cs@, i + 1); }
    if j == i + 1 {
        let d = Diagnostic::error("E002", chars_to_string_lit("expected hexadecimal color"), line, column);
        proof { lemma_push_diag(diagnostics@, d); }
        diagnostics.push(d);
    }
    let mut value: Vec<char> = Vec::new();
    value.push('#');
    let digits = sub_chars(cs, i + 1, j);
    append_chars(&mut value, &digits);
    let ghost vs = value@;
    let sv = string_of(&value);
    push_simple(tokens, TokenKind::Color(sv), line, column);
    proof {
        let rest = lex_from(cs@, j as int, line as int, column + (j - i));
        assert(vs =~= seq!['#'] + cs@.subrange(i + 1, j as int));
        assert(t0 + (seq![tok(Tk::Color(vs), line as int, column as int)] + rest.0) =~= tokens_view(tokens@) + rest.0);
        if j == i + 1 {
            assert(d0 + (seq![diag_view(Severity::Error, "E002"@, "expected hexadecimal color"@, line as int, column as int)] + rest.1)
                =~= diagnostics_view(diagnostics@) + rest.1);
        } else {
            assert(d0 + (Seq::<DiagnosticView>::empty() + rest.1) =~= diagnostics_view(diagnostics@) + rest.1);
        }
    }
    (j, line, column + (j - i))
}

fn lex_word_token(
    cs: &Vec<char>,
    i: usize,
    line: usize,
    column: usize,
    tokens: &mut Vec<Token>,
) -> (r: (usize, usize, usize))
    requires
        cs@.len() <= isize::MAX,
        i < cs@.len(),
        starts_number(cs@, i as int) || is_ident_start(cs@[i as int]),
        !(cs@[i as int] == '-' && i + 1 < cs@.len() && cs@[i + 1] == '>'),
        1 <= line <= 1 + i,
        1 <= column <= 1 + i,
    ensures
        i < r.0 <= cs@.len(),
        r.1 == line,
        1 <= r.2 <= 1 + r.0,
        ({
            let c = cs@[i as int];
            let rest = lex_from(cs@, r.0 as int, r.1 as int, r.2 as int);
            let kind = if starts_number(cs@, i as int) {
                Tk::Number(cs@.subrange(i as int, r.0 as int))
            } else {
                Tk::Ident(cs@.subrange(i as int, r.0 as int))
            };
            &&& tokens_view(final(tokens)@) == tokens_view(old(tokens)@).push(tok(kind, line as int, column as int))
            &&& r.2 == column + (r.0 - i)
            &&& r.0 == (if starts_number(cs@, i as int) {
                if c == '-' { number_end(cs@, i + 1) } else { number_end(cs@, i as int) }
            } else { ident_end(cs@, i as int) })
        }),
{
    let c = cs[i];
    if ascii_digit(c) || ((c == '.' || c == '-') && i + 1 < cs.len() && ascii_digit(cs[i + 1])) {
        let start = if c == '-' { i + 1 } else { i };
        let j = scan_number_end(cs, start);
        proof {
            lemma_number_end_bounds(cs@, start as int);
            assert(is_number_char(cs@[start as int]));
            lemma_number_end_bounds(cs@, start + 1);
            assert(number_end(cs@, start as int) == number_end(cs@, start + 1));
        }
        let sv = sub_string(cs, i, j);
        push_simple(tokens, TokenKind::Number(sv), line, column);
        (j, line, column + (j - i))
    } else {
        let j = scan_ident_end(cs, i);
        proof {
            lemma_ident_end_bounds(cs@, i + 1);
            assert(ident_end(cs@, i as int) == ident_end(cs@, i + 1));
        }
        let sv = sub_string(cs, i, j);
        push_simple(tokens, TokenKind::Ident(sv), line, column);
        (j, line, column + (j - i))
    }
}

fn punct_kind(c: char) -> (k: Option<TokenKind>)
    ensures
        k is Some <==> punct(c) is Some,
        k is Some ==> k->0@ == punct(c)->0,
{
    if c == '{' { Some(TokenKind::LBrace) } else if c == '}' { Some(TokenKind::RBrace) }
    else if c == ':' { Some(TokenKind::Colon) } else if c == ';' { Some(TokenKind::Semi) }
    else if c == '=' { Some(TokenKind::Equal) } else if c == ',' { Some(TokenKind::Comma) }
    else if c == '@' { Some(TokenKind::At) } else { None }
}

/// One step of the lexer at position `i`.
fn lex_step(
    cs: &Vec<char>,
    i: usize,
    line: usize,
    column: usize,
    tokens: &mut Vec<Token>,
    diagnostics: &mut Vec<Diagnostic>,
) -> (r: (usize, usize, usize))
    requires
        cs@.len() <= isize::MAX,
        i < cs@.len(),
        1 <= line <= 1 + i,
        1 <= column <= 1 + i,
    ensures
        i < r.0 <= cs@.len(),
        1 <= r.1 <= 1 + r.0,
        1 <= r.2 <= 1 + r.0,
        step_keeps(cs@, i as int, line as int, column as int, tokens_view(old(tokens)@), diagnostics_view(old(diagnostics)@),
            r.0 as int, r.1 as int, r.2 as int, tokens_view(final(tokens)@), diagnostics_view(final(diagnostics)@)),
{
    let ghost t0 = tokens_view(tokens@);
    let ghost d0 = diagnostics_view(diagnostics@);
    let n = cs.len();
    let c = cs[i];
    if c == ' ' || c == '\t' || c == '\r' {
        (i + 1, line, column + 1)
    } else if c == '\n' {
        (i + 1, line + 1, 1)
    } else if c == '/' && i + 1 < n && cs[i + 1] == '/' {
        let j = scan_line_end(cs, i + 2);
        proof { lemma_line_end_bounds(cs@, i + 2); }
        (j, line, column + (j - i))
    } else if let Some(kind) = punct_kind(c) {
        push_simple(tokens, kind, line, column);
        proof {
            assert(t0 + (seq![tok(punct(c)->0, line as int, column as int)] + lex_from(cs@, i + 1, line as int, column + 1).0)
                =~= tokens_view(tokens@) + lex_from(cs@, i + 1, line as int, column + 1).0);
        }
        (i + 1, line, column + 1)
    } else if c == '-' && i + 1 < n && cs[i + 1] == '>' {
        push_simple(tokens, TokenKind::Arrow, line, column);
        proof {
            assert(t0 + (seq![tok(Tk::Arrow, line as int, column as int)] + lex_from(cs@, i + 2, line as int, column + 2).0)
                =~= tokens_view(tokens@) + lex_from(cs@, i + 2, line as int, column + 2).0);
        }
        (i + 2, line, column + 2)
    } else if c == '"' {
        lex_string_token(cs, i, line, column, tokens, diagnostics)
    } else if c == '#' {
        lex_color_token(cs, i, line, column, tokens, diagnostics)
    } else if ascii_digit(c) || ((c == '.' || c == '-') && i + 1 < n && ascii_digit(cs[i + 1])) || ident_start(c) {
        let r = lex_word_token(cs, i, line, column, tokens);
        proof {
            let rest = lex_from(cs@, r.0 as int, r.1 as int, r.2 as int);
            let kind = if starts_number(cs@, i as int) {
                Tk::Number(cs@.subrange(i as int, r.0 as int))
            } else {
                Tk::Ident(cs@.subrange(i as int, r.0 as int))
            };
            assert(t0 + (seq![tok(kind, line as int, column as int)] + rest.0) =~= tokens_view(tokens@) + rest.0);
        }
        r
    } else {
        let d = Diagnostic::error("E003", message_with_char("unexpected character `", c, "`"), line, column);
        proof { lemma_push_diag(diagnostics@, d); }
        diagnostics.push(d);
        proof {
            let rest = lex_from(cs@, i + 1, line as int, column + 1);
            assert(d0 + (seq![diag_view(Severity::Error, "E003"@, unexpected_message(c), line as int, column as int)] + rest.1)
                =~= diagnostics_view(diagnostics@) + rest.1);
        }
        (i + 1, line, column + 1)
    }
}

/// Splits SRNG source text into tokens. Every input is tokenized to the end:
/// characters that start no token are reported as `E003` diagnostics and
/// skipped, and the token list always ends with `Eof`.
pub fn lex(source: &str) -> (r: LexResult)
    requires
        source@.len() <= isize::MAX,
    ensures
        tokens_view(r.tokens@) == lex_spec(source@).0,
        diagnostics_view(r.diagnostics@) == lex_spec(source@).1,
{
    let cs = chars_of(source);
    let n = cs.len();
    let mut i: usize = 0;
    let mut line: usize = 1;
    let mut column: usize = 1;
    let mut tokens: Vec<Token> = Vec::new();
    let mut diagnostics: Vec<Diagnostic> = Vec::new();
    let ghost all = lex_spec(cs@);
    proof {
        assert(tokens_view(tokens@) + all.0 =~= all.0);
        assert(diagnostics_view(diagnostics@) + all.1 =~= all.1);
    }
    while i < n
        invariant
            n == cs@.len(),
            cs@ == source@,
            n <= isize::MAX,
            0 <= i <= n,
            1 <= line <= 1 + i,
            1 <= column <= 1 + i,
            all == lex_spec(cs@),
            all.0 == tokens_view(tokens@) + lex_from(cs@, i as int, line as int, column as int).0,
            all.1 == diagnostics_view(diagnostics@) + lex_from(cs@, i as int, line as int, column as int).1,
        decreases n - i,
    {
        let r = lex_step(&cs, i, line, column, &mut tokens, &mut diagnostics);
        i = r.0;
        line = r.1;
        column = r.2;
    }
    let ghost t_before = tokens_view(tokens@);
    push_simple(&mut tokens, TokenKind::Eof, line, column);
    proof {
        assert(all.0 =~= tokens_view(tokens@));
        assert(diagnostics_view(diagnostics@) + Seq::<DiagnosticView>::empty() =~= diagnostics_view(diagnostics@));
    }
    LexResult { tokens, diagnostics }
}


/// The token list always ends with exactly one `Eof`, at its end.
pub proof fn lemma_lex_ends_with_eof(cs: Seq<char>, i: int, line: int, col: int)
    ensures
        lex_from(cs, i, line, col).0.len() > 0,
        lex_from(cs, i, line, col).0.last().kind is Eof,
    decreases cs.len() - i, 0int,
{
    if i >= 0 && i < cs.len() {
        let c = cs[i];
        if c == ' ' || c == '\t' || c == '\r' {
            lemma_lex_ends_with_eof(cs, i + 1, line, col + 1);
        } else if c == '\n' {
            lemma_lex_ends_with_eof(cs, i + 1, line + 1, 1);
        } else if c == '/' && i + 1 < cs.len() && cs[i + 1] == '/' {
            lemma_line_end_bounds(cs, i + 2);
            let j = line_end(cs, i + 2);
            lemma_lex_ends_with_eof(cs, j, line, col + (j - i));
        } else if punct(c) is Some {
            lemma_lex_ends_with_eof(cs, i + 1, line, col + 1);
        } else if c == '-' && i + 1 < cs.len() && cs[i + 1] == '>' {
            lemma_lex_ends_with_eof(cs, i + 2, line, col + 2);
        } else if c == '"' {
            let s = scan_string(cs, i + 1, line, col + 1);
            lemma_scan_string_bounds(cs, i + 1, 1, 1);
            lemma_scan_string_end(cs, i + 1, line, col + 1);
            lemma_lex_ends_with_eof(cs, s.1, s.2, s.3);
        } else if c == '#' {
            lemma_hex_end_bounds(cs, i + 1);
            let j = hex_end(cs, i + 1);
            lemma_lex_ends_with_eof(cs, j, line, col + (j - i));
        } else if starts_number(cs, i) {
            let start = if c == '-' { i + 1 } else { i };
            let j = number_end(cs, start);
            assert(is_number_char(cs[start]));
            lemma_number_end_bounds(cs, start + 1);
            assert(number_end(cs, start) == number_end(cs, start + 1));
            lemma_lex_ends_with_eof(cs, j, line, col + (j - i));
        } else if is_ident_start(c) {
            lemma_ident_end_bounds(cs, i + 1);
            let j = ident_end(cs, i);
            assert(ident_end(cs, i) == ident_end(cs, i + 1));
            lemma_lex_ends_with_eof(cs, j, line, col + (j - i));
        } else {
            lemma_lex_ends_with_eof(cs, i + 1, line, col + 1);
        }
    }
}

/// The end index of a string literal does not depend on the position.
proof fn lemma_scan_string_end(cs: Seq<char>, j: int, line: int, col: int)
    requires
        0 <= j <= cs.len(),
    ensures
        scan_string(cs, j, line, col).1 == scan_string(cs, j, 1, 1).1,
    decreases cs.len() - j,
{
    if j < cs.len() && cs[j] != '"' {
        if cs[j] == '\\' && j + 1 < cs.len() {
            lemma_scan_string_end(cs, j + 2, line, col + 2);
            lemma_scan_string_end(cs, j + 2, 1, 3);
        } else if cs[j] == '\n' {
            lemma_scan_string_end(cs, j + 1, line + 1, 1);
            lemma_scan_string_end(cs, j + 1, 2, 1);
        } else {
            lemma_scan_string_end(cs, j + 1, line, col + 1);
            lemma_scan_string_end(cs, j + 1, 1, 2);
        }
    }
}

// ---------------------------------------------------------------------------
// Laws of the lexer

/// Position `(l1, c1)` comes at or before `(l2, c2)`.
pub open spec fn pos_le(l1: int, c1: int, l2: int, c2: int) -> bool {
    l1 < l2 || (l1 == l2 && c1 <= c2)
}

/// Position `(l1, c1)` comes strictly before `(l2, c2)`.
pub open spec fn pos_lt(l1: int, c1: int, l2: int, c2: int) -> bool {
    l1 < l2 || (l1 == l2 && c1 < c2)
}

/// Tokens in strictly increasing positions, none before `(line, col)`,
/// with `Eof` nowhere but last.
pub open spec fn well_ordered(ts: Seq<TokenView>, line: int, col: int) -> bool {
    &&& forall|k: int| 0 <= k < ts.len() ==> pos_le(line, col, (#[trigger] ts[k]).line, ts[k].column)
    &&& forall|a: int, b: int| 0 <= a < b < ts.len() ==> pos_lt((#[trigger] ts[a]).line, ts[a].column, (#[trigger] ts[b]).line, ts[b].column)
    &&& forall|k: int| 0 <= k < ts.len() - 1 ==> !((#[trigger] ts[k]).kind is Eof)
}

/// Lexer diagnostics: errors with code E001, E002 or E003.
pub open spec fn lexer_diags(ds: Seq<DiagnosticView>) -> bool {
    forall|k: int| 0 <= k < ds.len() ==> (#[trigger] ds[k]).severity == Severity::Error && (ds[k].code == "E001"@
        || ds[k].code == "E002"@ || ds[k].code == "E003"@)
}

proof fn lemma_scan_string_pos(cs: Seq<char>, j: int, line: int, col: int)
    ensures
        pos_le(line, col, scan_string(cs, j, line, col).2, scan_string(cs, j, line, col).3),
    decreases cs.len() - j,
{
    if j < cs.len() && j >= 0 && cs[j] != '"' {
        if cs[j] == '\\' && j + 1 < cs.len() {
            lemma_scan_string_pos(cs, j + 2, line, col + 2);
        } else if cs[j] == '\n' {
            lemma_scan_string_pos(cs, j + 1, line + 1, 1);
        } else {
            lemma_scan_string_pos(cs, j + 1, line, col + 1);
        }
    }
}

proof fn lemma_order_later(ts: Seq<TokenView>, line: int, col: int, l2: int, c2: int)
    requires
        well_ordered(ts, l2, c2),
        pos_le(line, col, l2, c2),
    ensures
        well_ordered(ts, line, col),
{
    assert forall|k: int| 0 <= k < ts.len() implies pos_le(line, col, (#[trigger] ts[k]).line, ts[k].column) by {
        assert(pos_le(l2, c2, ts[k].line, ts[k].column));
    }
}

proof fn lemma_order_cons(h: TokenView, ts: Seq<TokenView>, l2: int, c2: int)
    requires
        well_ordered(ts, l2, c2),
        pos_lt(h.line, h.column, l2, c2),
        !(h.kind is Eof),
    ensures
        well_ordered(seq![h] + ts, h.line, h.column),
{
    let all = seq![h] + ts;
    assert forall|k: int| 0 <= k < all.len() implies pos_le(h.line, h.column, (#[trigger] all[k]).line, all[k].column) by {
        if k > 0 {
            assert(all[k] == ts[k - 1]);
            assert(pos_le(l2, c2, ts[k - 1].line, ts[k - 1].column));
        }
    }
    assert forall|a: int, b: int| 0 <= a < b < all.len() implies pos_lt((#[trigger] all[a]).line, all[a].column, (
    #[trigger] all[b]).line, all[b].column) by {
        assert(all[b] == ts[b - 1]);
        assert(pos_le(l2, c2, ts[b - 1].line, ts[b - 1].column));
        if a > 0 {
            assert(all[a] == ts[a - 1]);
        }
    }
    assert forall|k: int| 0 <= k < all.len() - 1 implies !((#[trigger] all[k]).kind is Eof) by {
        if k > 0 {
            assert(all[k] == ts[k - 1]);
        }
    }
}

proof fn lemma_diags_cons(d: Seq<DiagnosticView>, r: Seq<DiagnosticView>)
    requires
        lexer_diags(d),
        lexer_diags(r),
    ensures
        lexer_diags(d + r),
{
    assert forall|k: int| 0 <= k < (d + r).len() implies (#[trigger] (d + r)[k]).severity == Severity::Error && ((d
        + r)[k].code == "E001"@ || (d + r)[k].code == "E002"@ || (d + r)[k].code == "E003"@) by {
        if k >= d.len() {
            assert((d + r)[k] == r[k - d.len()]);
        }
    }
}

proof fn lemma_lex_from_laws(cs: Seq<char>, i: int, line: int, col: int)
    ensures
        well_ordered(lex_from(cs, i, line, col).0, line, col),
        lexer_diags(lex_from(cs, i, line, col).1),
    decreases cs.len() - i, 0int,
{
    let r0 = lex_from(cs, i, line, col);
    if i >= cs.len() || i < 0 {
        return;
    }
    let c = cs[i];
    if c == ' ' || c == '\t' || c == '\r' {
        lemma_lex_from_laws(cs, i + 1, line, col + 1);
        lemma_order_later(r0.0, line, col, line, col + 1);
    } else if c == '\n' {
        lemma_lex_from_laws(cs, i + 1, line + 1, 1);
        lemma_order_later(r0.0, line, col, line + 1, 1);
    } else if c == '/' && i + 1 < cs.len() && cs[i + 1] == '/' {
        let j = line_end(cs, i + 2);
        if !(j <= i || j > cs.len()) {
            lemma_lex_from_laws(cs, j, line, col + (j - i));
            lemma_order_later(r0.0, line, col, line, col + (j - i));
        }
    } else if punct(c) is Some {
        let r = lex_from(cs, i + 1, line, col + 1);
        lemma_lex_from_laws(cs, i + 1, line, col + 1);
        lemma_order_cons(tok(punct(c)->0, line, col), r.0, line, col + 1);
    } else if c == '-' && i + 1 < cs.len() && cs[i + 1] == '>' {
        let r = lex_from(cs, i + 2, line, col + 2);
        lemma_lex_from_laws(cs, i + 2, line, col + 2);
        lemma_order_cons(tok(Tk::Arrow, line, col), r.0, line, col + 2);
    } else if c == '"' {
        let s = scan_string(cs, i + 1, line, col + 1);
        if !(s.1 <= i || s.1 > cs.len()) {
            let r = lex_from(cs, s.1, s.2, s.3);
            lemma_lex_from_laws(cs, s.1, s.2, s.3);
            lemma_scan_string_pos(cs, i + 1, line, col + 1);
            lemma_order_cons(tok(Tk::Str(s.0), line, col), r.0, s.2, s.3);
            let d: Seq<DiagnosticView> = if s.4 { Seq::empty() } else {
                seq![diag_view(Severity::Error, "E001"@, "unterminated string literal"@, line, col)]
            };
            lemma_diags_cons(d, r.1);
        }
    } else if c == '#' {
        let j = hex_end(cs, i + 1);
        if !(j <= i || j > cs.len()) {
            let r = lex_from(cs, j, line, col + (j - i));
            lemma_lex_from_laws(cs, j, line, col + (j - i));
            lemma_order_cons(tok(Tk::Color(seq!['#'] + cs.subrange(i + 1, j)), line, col), r.0, line, col + (j - i));
            let d: Seq<DiagnosticView> = if j == i + 1 {
                seq![diag_view(Severity::Error, "E002"@, "expected hexadecimal color"@, line, col)]
            } else { Seq::empty() };
            lemma_diags_cons(d, r.1);
        }
    } else if starts_number(cs, i) {
        let j = if c == '-' { number_end(cs, i + 1) } else { number_end(cs, i) };
        if !(j <= i || j > cs.len()) {
            let r = lex_from(cs, j, line, col + (j - i));
            lemma_lex_from_laws(cs, j, line, col + (j - i));
            lemma_order_cons(tok(Tk::Number(cs.subrange(i, j)), line, col), r.0, line, col + (j - i));
        }
    } else if is_ident_start(c) {
        let j = ident_end(cs, i);
        if !(j <= i || j > cs.len()) {
            let r = lex_from(cs, j, line, col + (j - i));
            lemma_lex_from_laws(cs, j, line, col + (j - i));
            lemma_order_cons(tok(Tk::Ident(cs.subrange(i, j)), line, col), r.0, line, col + (j - i));
        }
    } else {
        let r = lex_from(cs, i + 1, line, col + 1);
        lemma_lex_from_laws(cs, i + 1, line, col + 1);
        lemma_order_later(r0.0, line, col, line, col + 1);
        lemma_diags_cons(seq![diag_view(Severity::Error, "E003"@, unexpected_message(c), line, col)], r.1);
    }
}

/// The lexer's tokens come in strictly increasing (line, column) order,
/// none before line 1, column 1; the last is `Eof` and no other is; and
/// every diagnostic it reports is an error with code E001, E002 or E003.
pub proof fn law_lex_order_and_codes(source: Seq<char>)
    ensures
        well_ordered(lex_spec(source).0, 1, 1),
        lex_spec(source).0.len() > 0,
        lex_spec(source).0.last().kind is Eof,
        lexer_diags(lex_spec(source).1),
{
    lemma_lex_from_laws(source, 0, 1, 1);
    lemma_lex_ends_with_eof(source, 0, 1, 1);
}

// ---------------------------------------------------------------------------
// Laws of string literals

/// The value a string literal decodes to does not depend on where it starts.
proof fn lemma_scan_value(cs: Seq<char>, j: int, line: int, col: int)
    ensures
        scan_string(cs, j, line, col).0 == scan_string(cs, j, 1, 1).0,
    decreases cs.len() - j,
{
    if 0 <= j < cs.len() && cs[j] != '"' {
        if cs[j] == '\\' && j + 1 < cs.len() {
            lemma_scan_value(cs, j + 2, line, col + 2);
            lemma_scan_value(cs, j + 2, 1, 3);
        } else if cs[j] == '\n' {
            lemma_scan_value(cs, j + 1, line + 1, 1);
            lemma_scan_value(cs, j + 1, 2, 1);
        } else {
            lemma_scan_value(cs, j + 1, line, col + 1);
            lemma_scan_value(cs, j + 1, 1, 2);
        }
    }
}

/// Characters that stand for themselves inside a string literal.
pub open spec fn plain_text(a: Seq<char>) -> bool {
    forall|k: int| 0 <= k < a.len() ==> a[k] != '"' && a[k] != '\\'
}

/// A run of plain characters decodes to itself.
proof fn lemma_scan_plain(cs: Seq<char>, j: int, n: int)
    requires
        0 <= j,
        0 <= n,
        j + n <= cs.len(),
        plain_text(cs.subrange(j, j + n)),
    ensures
        scan_string(cs, j, 1, 1).0 == cs.subrange(j, j + n) + scan_string(cs, j + n, 1, 1).0,
        scan_string(cs, j, 1, 1).1 == scan_string(cs, j + n, 1, 1).1,
    decreases n,
{
    if n == 0 {
        assert(cs.subrange(j, j) =~= Seq::<char>::empty());
    } else {
        assert(cs.subrange(j, j + n)[0] == cs[j]);
        assert(cs.subrange(j + 1, j + n) =~= cs.subrange(j, j + n).drop_first());
        lemma_scan_plain(cs, j + 1, n - 1);
        if cs[j] == '\n' {
            lemma_scan_value(cs, j + 1, 2, 1);
            lemma_scan_string_end(cs, j + 1, 2, 1);
        } else {
            lemma_scan_value(cs, j + 1, 1, 2);
            lemma_scan_string_end(cs, j + 1, 1, 2);
        }
        assert(cs.subrange(j, j + n) =~= seq![cs[j]] + cs.subrange(j + 1, j + n));
    }
}

/// A string literal `"a\eb"`, with plain text `a` and `b` and an escape
/// `\e`, lexes as one string token at line 1, column 1 whose value is `a`,
/// then the escaped character, then `b`: `\n` is a line feed, `\t` a tab,
/// `\r` a carriage return, `\"` a quote and `\\` a backslash.
pub proof fn law_string_escapes(a: Seq<char>, e: char, b: Seq<char>)
    requires
        plain_text(a),
        plain_text(b),
    ensures
        ({
            let src = seq!['"'] + a + seq!['\\', e] + b + seq!['"'];
            let d = if e == 'n' { '\n' } else if e == 't' { '\t' } else if e == 'r' { '\r' } else { e };
            lex_spec(src).0[0] == tok(Tk::Str(a + seq![d] + b), 1, 1)
        }),
{
    let src = seq!['"'] + a + seq!['\\', e] + b + seq!['"'];
    let n = src.len();
    let ia: int = 1 + a.len() as int;
    let ib: int = ia + 2;
    let bl: int = b.len() as int;
    assert(src.subrange(1, ia) =~= a);
    assert(src.subrange(ib, ib + bl) =~= b);
    assert(src[0] == '"');
    assert(src[ia] == '\\' && src[ia + 1] == e);
    assert(src[ib + bl] == '"');
    lemma_scan_value(src, 1, 1, 2);
    lemma_scan_string_end(src, 1, 1, 2);
    lemma_scan_plain(src, 1, a.len() as int);
    lemma_scan_value(src, ib, 1, 3);
    lemma_scan_string_end(src, ib, 1, 3);
    lemma_scan_plain(src, ib, b.len() as int);
    let s1 = scan_string(src, 1, 1, 1);
    let sb = scan_string(src, ib + bl, 1, 1);
    assert(sb.0 =~= Seq::<char>::empty());
    assert(sb.1 == n);
    let d = if e == 'n' { '\n' } else if e == 't' { '\t' } else if e == 'r' { '\r' } else { e };
    assert(unescape(e) == d);
    assert(s1.0 =~= a + seq![d] + b);
    lemma_scan_string_bounds(src, 1, 1, 2);
    let s = scan_string(src, 1, 1, 2);
    assert(s.0 == s1.0);
    assert(s.1 == s1.1);
    assert(s.1 == n);
}

/// Whether a string literal is closed does not depend on where it starts.
proof fn lemma_scan_flag(cs: Seq<char>, j: int, line: int, col: int)
    ensures
        scan_string(cs, j, line, col).4 == scan_string(cs, j, 1, 1).4,
    decreases cs.len() - j,
{
    if 0 <= j < cs.len() && cs[j] != '"' {
        if cs[j] == '\\' && j + 1 < cs.len() {
            lemma_scan_flag(cs, j + 2, line, col + 2);
            lemma_scan_flag(cs, j + 2, 1, 3);
        } else if cs[j] == '\n' {
            lemma_scan_flag(cs, j + 1, line + 1, 1);
            lemma_scan_flag(cs, j + 1, 2, 1);
        } else {
            lemma_scan_flag(cs, j + 1, line, col + 1);
            lemma_scan_flag(cs, j + 1, 1, 2);
        }
    }
}

proof fn lemma_scan_plain_open(cs: Seq<char>, j: int)
    requires
        0 <= j <= cs.len(),
        plain_text(cs.subrange(j, cs.len() as int)),
    ensures
        !scan_string(cs, j, 1, 1).4,
        scan_string(cs, j, 1, 1).1 == cs.len(),
    decreases cs.len() - j,
{
    if j < cs.len() {
        assert(cs.subrange(j, cs.len() as int)[0] == cs[j]);
        assert(cs.subrange(j + 1, cs.len() as int) =~= cs.subrange(j, cs.len() as int).drop_first());
        lemma_scan_plain_open(cs, j + 1);
        if cs[j] == '\n' {
            lemma_scan_flag(cs, j + 1, 2, 1);
            lemma_scan_string_end(cs, j + 1, 2, 1);
        } else {
            lemma_scan_flag(cs, j + 1, 1, 2);
            lemma_scan_string_end(cs, j + 1, 1, 2);
        }
    }
}

/// A string literal left open to the end of the source is reported as an
/// E001 error at its opening quote.
pub proof fn law_unterminated_string(a: Seq<char>)
    requires
        plain_text(a),
    ensures
        lex_spec(seq!['"'] + a).1.contains(diag_view(Severity::Error, "E001"@, "unterminated string literal"@, 1, 1)),
{
    let src = seq!['"'] + a;
    assert(src.subrange(1, src.len() as int) =~= a);
    lemma_scan_plain_open(src, 1);
    lemma_scan_flag(src, 1, 1, 2);
    lemma_scan_string_end(src, 1, 1, 2);
    lemma_scan_string_bounds(src, 1, 1, 2);
    let s = scan_string(src, 1, 1, 2);
    assert(!s.4);
    let r = lex_from(src, s.1, s.2, s.3);
    let d = seq![diag_view(Severity::Error, "E001"@, "unterminated string literal"@, 1, 1)];
    assert(lex_spec(src).1 == d + r.1);
    assert((d + r.1)[0] == d[0]);
}

/// A character that starts no token is skipped with an E003 error that
/// names it, at its position.
pub proof fn law_unexpected_character(c: char, rest: Seq<char>)
    requires
        c != ' ' && c != '\t' && c != '\r' && c != '\n' && c != '/' && c != '-' && c != '"' && c != '#' && c != '.',
        punct(c) is None,
        !is_ascii_digit(c),
        !is_ident_start(c),
    ensures
        lex_spec(seq![c] + rest).1[0] == diag_view(Severity::Error, "E003"@, unexpected_message(c), 1, 1),
{
    let src = seq![c] + rest;
    assert(src[0] == c);
}

} // verus!
