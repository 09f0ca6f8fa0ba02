//! SRNG: a small declarative scene language. Source text is lexed, parsed
//! with error recovery, validated, and emitted as JSON IR; SVG documents can
//! be imported into SRNG source.
pub mod text;
pub mod diagnostic;
pub mod lexer;
pub mod formatter;
pub mod ast;
pub mod number;
pub mod parser;
pub mod ir;
pub mod image;
pub mod model;
pub mod filter_graph;
pub mod scene;
pub mod resolve;
pub mod studio;
pub mod resources;
pub mod font;
pub mod font_face;
pub mod length;
pub mod xml;
pub mod props;
pub mod svg_import;
pub mod srctext;
pub mod svg_refs;
pub mod svg_native;
pub mod svg_v4;
pub mod svg_use;
pub mod svg_resource;
pub mod svg;
pub mod svg_complete;
pub mod svg_filter_v06;
pub mod svg_integrated;

use vstd::prelude::*;
use crate::ast::{Document, declarations_view};
use crate::diagnostic::diagnostics_view;
use crate::lexer::{lex_spec, lemma_lex_ends_with_eof};
use crate::parser::{opt_view, parse_spec};

verus! {

/// The document a source text compiles to.
pub open spec fn compile_spec(source: Seq<char>) -> (Seq<char>, Option<Seq<char>>, Seq<crate::ast::DeclView>, Seq<crate::diagnostic::DiagnosticView>) {
    parse_spec(lex_spec(source).0, lex_spec(source).1)
}

/// Lexes and parses SRNG source into a document.
pub fn compile(source: &str) -> (doc: Document)
    requires
        source@.len() <= isize::MAX,
    ensures
        ({
            let c = compile_spec(source@);
            &&& doc.version@ == c.0
            &&& opt_view(doc.file_id) == c.1
            &&& declarations_view(doc.declarations@) == c.2
            &&& diagnostics_view(doc.diagnostics@) == c.3
        }),
{
    let lexed = lexer::lex(source);
    proof {
        lemma_lex_ends_with_eof(source@, 0, 1, 1);
    }
    parser::parse(lexed.tokens, lexed.diagnostics)
}

/// Compiles SRNG source and serialises the result as SRNG-IR JSON.
pub fn compile_to_json(source: &str, source_name: &str) -> (json: String)
    requires
        source@.len() <= isize::MAX,
    ensures
        ({
            let c = compile_spec(source@);
            json@ == crate::ir::emit_json_spec(c.0, c.1, c.2, c.3, source_name@)
        }),
{
    let document = compile(source);
    ir::emit_json(&document, source_name)
}

/// Compiling source whose declarations repeat a node or reference id
/// reports an E200 error.
pub proof fn law_compile_reports_duplicate_ids(source: Seq<char>, a: int, b: int)
    requires
        0 <= a < b < compile_spec(source).2.len(),
        crate::parser::decl_key(compile_spec(source).2[a]) is Some,
        crate::parser::decl_key(compile_spec(source).2[a]) == crate::parser::decl_key(compile_spec(source).2[b]),
    ensures
        crate::parser::has_e200(compile_spec(source).3),
{
    crate::parser::law_parse_reports_duplicate_ids(lex_spec(source).0, lex_spec(source).1, a, b);
}

} // verus!
