use compiler::ast::{Expr, Ident, Item, Module, Stmt};
use compiler::diagnostic::{Diagnostic, Severity};
use compiler::lexer::{tokenize, Token, TokenKind};
use compiler::parser::parse;
use compiler::span::Span;

fn name(s: &str) -> Ident {
    Ident { name: s.to_string() }
}

fn error(message: &str, start: usize, end: usize) -> Diagnostic {
    Diagnostic {
        severity: Severity::Error,
        message: message.to_string(),
        span: Some(Span { start, end }),
    }
}

fn parse_text(src: &str) -> (Module, Vec<Diagnostic>) {
    let (tokens, _lex_diags) = tokenize(src);
    parse(&tokens)
}

#[test]
fn parse_let_binding() {
    let src = "let x = 1\n";
    let (tokens, lex_diags) = tokenize(src);
    assert!(lex_diags.is_empty(), "lexer diagnostics: {lex_diags:?}");

    let (m, diags) = parse(&tokens);
    assert!(diags.is_empty(), "parser diagnostics: {diags:?}");
    assert_eq!(m.items.len(), 1);
}

#[test]
fn parse_call_with_args() {
    let src = "print(\"hi\", 1)\n";
    let (tokens, lex_diags) = tokenize(src);
    assert!(lex_diags.is_empty(), "lexer diagnostics: {lex_diags:?}");

    let (m, diags) = parse(&tokens);
    assert!(diags.is_empty(), "parser diagnostics: {diags:?}");
    assert_eq!(m.items.len(), 1);
}

#[test]
fn parse_error_missing_ident_after_let() {
    let src = "let = 1\n";
    let (tokens, _lex_diags) = tokenize(src);
    let (_m, diags) = parse(&tokens);
    assert!(!diags.is_empty(), "expected parser diagnostics");
}

#[test]
fn parse_error_unterminated_call() {
    let src = "print(\n";
    let (tokens, _lex_diags) = tokenize(src);
    let (_m, diags) = parse(&tokens);
    assert!(!diags.is_empty(), "expected parser diagnostics");
}

#[test]
fn parse_let_binding_exact() {
    let (m, diags) = parse_text("let x = 1\n");
    assert!(diags.is_empty());
    assert_eq!(
        m.items,
        vec![Item::Stmt(Stmt::Let { name: name("x"), expr: Expr::Int(1) })]
    );
}

#[test]
fn parse_call_with_args_exact() {
    let (m, diags) = parse_text("print(\"hi\", 1)\n");
    assert!(diags.is_empty());
    assert_eq!(
        m.items,
        vec![Item::Stmt(Stmt::Expr(Expr::Call {
            callee: name("print"),
            args: vec![Expr::Str("hi".to_string()), Expr::Int(1)],
        }))]
    );
}

#[test]
fn parse_missing_ident_after_let_exact() {
    let (m, diags) = parse_text("let = 1\n");
    assert_eq!(diags, vec![error("expected identifier after 'let'", 4, 5)]);
    assert_eq!(m.items, vec![Item::Stmt(Stmt::Expr(Expr::Int(1)))]);
}

#[test]
fn parse_unterminated_call_exact() {
    let (m, diags) = parse_text("print(\n");
    assert_eq!(diags, vec![error("expected expression in argument list", 0, 0)]);
    assert!(m.items.is_empty());
}

#[test]
fn parse_nothing() {
    let (m, diags) = parse(&[]);
    assert!(m.items.is_empty());
    assert!(diags.is_empty());
    let (m, diags) = parse_text("  # only a comment\n");
    assert!(m.items.is_empty());
    assert!(diags.is_empty());
}

#[test]
fn parse_without_end_marker() {
    let tokens = vec![
        Token { kind: TokenKind::Ident("f".to_string()), span: Span { start: 0, end: 1 } },
        Token { kind: TokenKind::LParen, span: Span { start: 1, end: 2 } },
        Token { kind: TokenKind::RParen, span: Span { start: 2, end: 3 } },
    ];
    let (m, diags) = parse(&tokens);
    assert!(diags.is_empty());
    assert_eq!(
        m.items,
        vec![Item::Stmt(Stmt::Expr(Expr::Call { callee: name("f"), args: vec![] }))]
    );
}

#[test]
fn parse_stops_at_the_end_marker() {
    let tokens = vec![
        Token { kind: TokenKind::Int(1), span: Span { start: 0, end: 1 } },
        Token { kind: TokenKind::Eof, span: Span { start: 1, end: 1 } },
        Token { kind: TokenKind::Int(2), span: Span { start: 2, end: 3 } },
    ];
    let (m, diags) = parse(&tokens);
    assert!(diags.is_empty());
    assert_eq!(m.items, vec![Item::Stmt(Stmt::Expr(Expr::Int(1)))]);
}

#[test]
fn parse_several_statements() {
    let (m, diags) = parse_text("let a = f(x)\nb \"s\" 3 let c = d");
    assert!(diags.is_empty());
    assert_eq!(
        m.items,
        vec![
            Item::Stmt(Stmt::Let {
                name: name("a"),
                expr: Expr::Call { callee: name("f"), args: vec![Expr::Ident(name("x"))] },
            }),
            Item::Stmt(Stmt::Expr(Expr::Ident(name("b")))),
            Item::Stmt(Stmt::Expr(Expr::Str("s".to_string()))),
            Item::Stmt(Stmt::Expr(Expr::Int(3))),
            Item::Stmt(Stmt::Let { name: name("c"), expr: Expr::Ident(name("d")) }),
        ]
    );
}

#[test]
fn parse_nested_calls() {
    let (m, diags) = parse_text("f(g(1, h()), 2)");
    assert!(diags.is_empty());
    assert_eq!(
        m.items,
        vec![Item::Stmt(Stmt::Expr(Expr::Call {
            callee: name("f"),
            args: vec![
                Expr::Call {
                    callee: name("g"),
                    args: vec![Expr::Int(1), Expr::Call { callee: name("h"), args: vec![] }],
                },
                Expr::Int(2),
            ],
        }))]
    );
}

#[test]
fn parse_integer_and_string_are_never_callees() {
    let (m, diags) = parse_text("1(2)");
    assert!(diags.is_empty());
    assert_eq!(
        m.items,
        vec![Item::Stmt(Stmt::Expr(Expr::Int(1))), Item::Stmt(Stmt::Expr(Expr::Int(2)))]
    );
}

#[test]
fn parse_let_is_a_keyword_only_by_its_text() {
    let (m, diags) = parse_text("lets = 1");
    assert!(diags.is_empty());
    assert_eq!(
        m.items,
        vec![
            Item::Stmt(Stmt::Expr(Expr::Ident(name("lets")))),
            Item::Stmt(Stmt::Expr(Expr::Int(1))),
        ]
    );
}

#[test]
fn parse_let_missing_eq() {
    let (m, diags) = parse_text("let x 1");
    assert_eq!(diags, vec![error("expected '=' in let binding", 6, 7)]);
    assert!(m.items.is_empty());
}

#[test]
fn parse_let_missing_expression() {
    let (m, diags) = parse_text("let x = )");
    assert_eq!(diags, vec![error("expected expression after '='", 8, 9)]);
    assert!(m.items.is_empty());
}

#[test]
fn parse_let_missing_expression_at_end() {
    let (m, diags) = parse_text("let x =");
    assert_eq!(diags, vec![error("expected expression after '='", 0, 0)]);
    assert!(m.items.is_empty());
}

#[test]
fn parse_let_alone_at_end() {
    let (m, diags) = parse_text("let");
    assert_eq!(diags, vec![error("expected identifier after 'let'", 0, 0)]);
    assert!(m.items.is_empty());
}

#[test]
fn parse_stray_punctuation_is_skipped_silently() {
    let (m, diags) = parse_text(") ; x");
    assert!(diags.is_empty());
    assert_eq!(m.items, vec![Item::Stmt(Stmt::Expr(Expr::Ident(name("x"))))]);
}

#[test]
fn parse_bad_separator_syncs_to_closing_bracket() {
    let (m, diags) = parse_text("f(1 2 ; 3) y");
    assert_eq!(diags, vec![error("expected ',' or ')' after argument", 4, 5)]);
    assert_eq!(
        m.items,
        vec![
            Item::Stmt(Stmt::Expr(Expr::Call { callee: name("f"), args: vec![Expr::Int(1)] })),
            Item::Stmt(Stmt::Expr(Expr::Ident(name("y")))),
        ]
    );
}

#[test]
fn parse_bad_separator_syncs_to_end_of_input() {
    let (m, diags) = parse_text("f(1 2 3");
    assert_eq!(diags, vec![error("expected ',' or ')' after argument", 4, 5)]);
    assert_eq!(
        m.items,
        vec![Item::Stmt(Stmt::Expr(Expr::Call { callee: name("f"), args: vec![Expr::Int(1)] }))]
    );
}

#[test]
fn parse_argument_missing_after_comma() {
    let (m, diags) = parse_text("f(1, ) 7");
    assert_eq!(diags, vec![error("expected expression in argument list", 5, 6)]);
    assert_eq!(m.items, vec![Item::Stmt(Stmt::Expr(Expr::Int(7)))]);
}

#[test]
fn parse_inner_failure_is_reported_at_each_level() {
    let (m, diags) = parse_text("f(g(");
    assert_eq!(
        diags,
        vec![
            error("expected expression in argument list", 0, 0),
            error("expected expression in argument list", 0, 0),
        ]
    );
    assert!(m.items.is_empty());
}

#[test]
fn parse_is_deterministic() {
    let (tokens, _d) = tokenize("let a = f(1 2) let = b(");
    assert_eq!(parse(&tokens), parse(&tokens));
}

#[test]
fn expr_clone_is_equal() {
    let e = Expr::Call {
        callee: name("f"),
        args: vec![
            Expr::Str("s".to_string()),
            Expr::Call { callee: name("g"), args: vec![Expr::Int(-3), Expr::Ident(name("x"))] },
        ],
    };
    assert_eq!(e.clone(), e);
}

fn spell(e: &Expr, out: &mut Vec<TokenKind>) {
    match e {
        Expr::Ident(id) => out.push(TokenKind::Ident(id.name.clone())),
        Expr::Int(n) => out.push(TokenKind::Int(*n)),
        Expr::Str(s) => out.push(TokenKind::Str(s.clone())),
        Expr::Call { callee, args } => {
            out.push(TokenKind::Ident(callee.name.clone()));
            out.push(TokenKind::LParen);
            for (k, a) in args.iter().enumerate() {
                if k > 0 {
                    out.push(TokenKind::Comma);
                }
                spell(a, out);
            }
            out.push(TokenKind::RParen);
        }
    }
}

fn spell_items(items: &[Item]) -> Vec<Token> {
    let mut kinds = Vec::new();
    for Item::Stmt(s) in items {
        match s {
            Stmt::Let { name, expr } => {
                kinds.push(TokenKind::Ident("let".to_string()));
                kinds.push(TokenKind::Ident(name.name.clone()));
                kinds.push(TokenKind::Eq);
                spell(expr, &mut kinds);
            }
            Stmt::Expr(e) => spell(e, &mut kinds),
        }
    }
    kinds
        .into_iter()
        .enumerate()
        .map(|(k, kind)| Token { kind, span: Span { start: k, end: k + 1 } })
        .collect()
}

#[test]
fn parse_gives_back_a_module_that_was_spelled_out() {
    let items = vec![
        Item::Stmt(Stmt::Let {
            name: name("let"),
            expr: Expr::Call {
                callee: name("f"),
                args: vec![
                    Expr::Ident(name("let")),
                    Expr::Call { callee: name("g"), args: vec![] },
                    Expr::Str(String::new()),
                ],
            },
        }),
        Item::Stmt(Stmt::Expr(Expr::Ident(name("x")))),
        Item::Stmt(Stmt::Expr(Expr::Int(i64::MIN))),
        Item::Stmt(Stmt::Expr(Expr::Call { callee: name("h"), args: vec![Expr::Int(0)] })),
    ];
    let tokens = spell_items(&items);
    let (m, diags) = parse(&tokens);
    assert!(diags.is_empty());
    assert_eq!(m.items, items);
}

#[test]
fn parse_without_diagnostics_builds_only_what_was_spelled() {
    let (tokens, _lex) = tokenize(") let a = f(1, g()) ; ; b \"s\" = }");
    let (m, diags) = parse(&tokens);
    assert!(diags.is_empty());
    let spelled = spell_items(&m.items);
    let kept: Vec<TokenKind> = tokens
        .iter()
        .map(|t| t.kind.clone())
        .filter(|k| {
            !matches!(
                k,
                TokenKind::RParen | TokenKind::Semi | TokenKind::Eq | TokenKind::RBrace | TokenKind::Eof
            )
        })
        .collect();
    let wanted: Vec<TokenKind> = spelled
        .into_iter()
        .map(|t| t.kind)
        .filter(|k| !matches!(k, TokenKind::RParen | TokenKind::Eq))
        .collect();
    assert_eq!(kept, wanted);
    assert_eq!(m.items.len(), 3);
}

#[test]
fn parse_diagnostics_are_errors_anchored_at_tokens() {
    let (tokens, _lex) = tokenize("let = f(1 2) let x y g(, let z =");
    let (_m, diags) = parse(&tokens);
    assert_eq!(diags.len(), 5);
    for d in &diags {
        assert_eq!(d.severity, Severity::Error);
        let span = d.span.expect("a span");
        assert!(
            span == Span { start: 0, end: 0 }
                || tokens.iter().any(|t| t.kind != TokenKind::Eof && t.span == span)
        );
    }
}
