use srng::diagnostic::Severity;
use srng::lexer::{lex, TokenKind};

#[test]
fn tokens_come_in_position_order_with_one_final_eof() {
    let r = lex("rect a {\n  fill: #zz; // note\n  label: \"open\n}\n ? 1.5 -> b");
    let n = r.tokens.len();
    assert!(matches!(r.tokens[n - 1].kind, TokenKind::Eof));
    for k in 0..n - 1 {
        assert!(!matches!(r.tokens[k].kind, TokenKind::Eof));
        let a = (r.tokens[k].line, r.tokens[k].column);
        let b = (r.tokens[k + 1].line, r.tokens[k + 1].column);
        assert!(a < b, "{a:?} then {b:?}");
    }
    assert!(!r.diagnostics.is_empty());
    for d in &r.diagnostics {
        assert!(d.severity == Severity::Error);
        assert!(["E001", "E002", "E003"].contains(&d.code));
    }
}
