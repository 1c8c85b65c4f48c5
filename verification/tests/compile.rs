use compiler::ast::{Expr, Ident, Item, Stmt};
use compiler::compile;
use compiler::diagnostic::{Diagnostic, Severity};
use compiler::driver::{render_diag, Emit};
use compiler::span::Span;

#[test]
fn compile_clean_text() {
    let out = compile("let x = 1\nprint(x)\n");
    assert!(out.diagnostics.is_empty());
    assert_eq!(
        out.module.items,
        vec![
            Item::Stmt(Stmt::Let { name: Ident { name: "x".to_string() }, expr: Expr::Int(1) }),
            Item::Stmt(Stmt::Expr(Expr::Call {
                callee: Ident { name: "print".to_string() },
                args: vec![Expr::Ident(Ident { name: "x".to_string() })],
            })),
        ]
    );
}

#[test]
fn compile_puts_lexer_diagnostics_first() {
    let out = compile("let = 1 $");
    let messages: Vec<&str> = out.diagnostics.iter().map(|d| d.message.as_str()).collect();
    assert_eq!(messages, vec!["unexpected character: $", "expected identifier after 'let'"]);
    assert_eq!(out.diagnostics[0].span, Some(Span { start: 8, end: 9 }));
    assert_eq!(out.diagnostics[1].span, Some(Span { start: 4, end: 5 }));
    assert_eq!(out.module.items, vec![Item::Stmt(Stmt::Expr(Expr::Int(1)))]);
}

#[test]
fn compile_after_unterminated_string_parses_what_was_read() {
    let out = compile("f() \"open");
    assert_eq!(out.diagnostics.len(), 1);
    assert_eq!(out.diagnostics[0].message, "unterminated string literal");
    assert_eq!(
        out.module.items,
        vec![Item::Stmt(Stmt::Expr(Expr::Call {
            callee: Ident { name: "f".to_string() },
            args: vec![],
        }))]
    );
}

#[test]
fn compile_twice_gives_the_same() {
    let src = "let a = f(1, \"s\" 2)\nlet = 3 @ 99999999999999999999";
    let first = compile(src);
    let second = compile(src);
    assert_eq!(first.module, second.module);
    assert_eq!(first.diagnostics, second.diagnostics);
    assert!(!first.diagnostics.is_empty());
}

#[test]
fn diagnostic_error_has_no_span() {
    let d = Diagnostic::error("boom".to_string());
    assert_eq!(
        d,
        Diagnostic { severity: Severity::Error, message: "boom".to_string(), span: None }
    );
}

#[test]
fn diagnostic_with_span_keeps_the_rest() {
    let d = Diagnostic {
        severity: Severity::Warning,
        message: "careful".to_string(),
        span: Some(Span::new(1, 2)),
    };
    let moved = d.with_span(Span::new(3, 7));
    assert_eq!(
        moved,
        Diagnostic {
            severity: Severity::Warning,
            message: "careful".to_string(),
            span: Some(Span { start: 3, end: 7 }),
        }
    );
}

#[test]
fn span_new_keeps_its_ends() {
    let s = Span::new(2, 5);
    assert_eq!(s.start, 2);
    assert_eq!(s.end, 5);
    assert_eq!(Span::new(0, 0), Span { start: 0, end: 0 });
}

#[test]
fn render_diag_with_span() {
    let d = Diagnostic::error("unexpected character: $".to_string()).with_span(Span::new(2, 3));
    assert_eq!(render_diag(&d), "error: unexpected character: $ at 2..3");
    let d = Diagnostic::error("x".to_string()).with_span(Span::new(0, 1234567890));
    assert_eq!(render_diag(&d), "error: x at 0..1234567890");
}

#[test]
fn render_diag_without_span() {
    let d = Diagnostic { severity: Severity::Warning, message: "w".to_string(), span: None };
    assert_eq!(render_diag(&d), "warning: w");
    let d = Diagnostic { severity: Severity::Note, message: String::new(), span: None };
    assert_eq!(render_diag(&d), "note: ");
}

#[test]
fn render_diag_of_a_compile() {
    let out = compile("f(1 2)");
    let lines: Vec<String> = out.diagnostics.iter().map(render_diag).collect();
    assert_eq!(lines, vec!["error: expected ',' or ')' after argument at 4..5".to_string()]);
}

#[test]
fn emit_choices_differ() {
    assert_ne!(Emit::Nothing, Emit::Ast);
    assert_ne!(Emit::Ast, Emit::Tokens);
    assert_eq!(Emit::Tokens, Emit::Tokens);
}
