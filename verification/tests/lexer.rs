use compiler::diagnostic::{Diagnostic, Severity};
use compiler::lexer::{tokenize, Token, TokenKind};
use compiler::span::Span;

fn kinds(tokens: &[Token]) -> Vec<TokenKind> {
    tokens.iter().map(|t| t.kind.clone()).collect()
}

fn ident(s: &str) -> TokenKind {
    TokenKind::Ident(s.to_string())
}

#[test]
fn tokenize_appends_eof() {
    let (tokens, diags) = tokenize("let x = 1");
    assert!(diags.is_empty(), "expected no diagnostics: {diags:?}");
    assert!(!tokens.is_empty(), "expected tokens");

    let last = tokens.last().expect("tokens not empty");
    assert!(
        matches!(last.kind, TokenKind::Eof),
        "expected EOF token at end, got: {:?}",
        last.kind
    );
}

#[test]
fn tokenize_let_binding_exact() {
    let (tokens, diags) = tokenize("let x = 1");
    assert!(diags.is_empty());
    assert_eq!(
        tokens,
        vec![
            Token { kind: ident("let"), span: Span { start: 0, end: 3 } },
            Token { kind: ident("x"), span: Span { start: 4, end: 5 } },
            Token { kind: TokenKind::Eq, span: Span { start: 6, end: 7 } },
            Token { kind: TokenKind::Int(1), span: Span { start: 8, end: 9 } },
            Token { kind: TokenKind::Eof, span: Span { start: 9, end: 9 } },
        ]
    );
}

#[test]
fn tokenize_empty_text_is_only_the_end_marker() {
    let (tokens, diags) = tokenize("");
    assert!(diags.is_empty());
    assert_eq!(tokens, vec![Token { kind: TokenKind::Eof, span: Span { start: 0, end: 0 } }]);
}

#[test]
fn tokenize_unterminated_string_halts() {
    let (tokens, diags) = tokenize("\"abc");
    assert!(tokens.is_empty());
    assert_eq!(diags.len(), 1);
    assert_eq!(diags[0].severity, Severity::Error);
    assert!(diags[0].message.contains("unterminated string literal"));
    assert_eq!(diags[0].span, Some(Span { start: 0, end: 4 }));
}

#[test]
fn tokenize_unterminated_string_drops_the_rest() {
    let (tokens, diags) = tokenize("a \"abc\nlet x = 1 $");
    assert_eq!(kinds(&tokens), vec![ident("a")]);
    assert_eq!(
        diags,
        vec![Diagnostic {
            severity: Severity::Error,
            message: "unterminated string literal".to_string(),
            span: Some(Span { start: 2, end: 18 }),
        }]
    );
}

#[test]
fn tokenize_string_cut_at_trailing_backslash() {
    let (tokens, diags) = tokenize("\"ab\\");
    assert!(tokens.is_empty());
    assert_eq!(diags.len(), 1);
    assert_eq!(diags[0].message, "unterminated string literal");
    assert_eq!(diags[0].span, Some(Span { start: 0, end: 3 }));
}

#[test]
fn tokenize_string_escapes() {
    let (tokens, diags) = tokenize("\"a\\\"b\\\\c\\nd\\te\\qf\"");
    assert!(diags.is_empty());
    assert_eq!(
        kinds(&tokens),
        vec![TokenKind::Str("a\"b\\c\nd\teqf".to_string()), TokenKind::Eof]
    );
    assert_eq!(tokens[0].span, Span { start: 0, end: 18 });
}

#[test]
fn tokenize_empty_string() {
    let (tokens, diags) = tokenize("\"\"");
    assert!(diags.is_empty());
    assert_eq!(kinds(&tokens), vec![TokenKind::Str(String::new()), TokenKind::Eof]);
}

#[test]
fn tokenize_string_bytes_become_characters() {
    let (tokens, diags) = tokenize("\"\u{e9}\"");
    assert!(diags.is_empty());
    assert_eq!(
        kinds(&tokens),
        vec![TokenKind::Str("\u{c3}\u{a9}".to_string()), TokenKind::Eof]
    );
}

#[test]
fn tokenize_all_punctuation() {
    let (tokens, diags) = tokenize("(){},;+-*/=");
    assert!(diags.is_empty());
    assert_eq!(
        kinds(&tokens),
        vec![
            TokenKind::LParen,
            TokenKind::RParen,
            TokenKind::LBrace,
            TokenKind::RBrace,
            TokenKind::Comma,
            TokenKind::Semi,
            TokenKind::Plus,
            TokenKind::Minus,
            TokenKind::Star,
            TokenKind::Slash,
            TokenKind::Eq,
            TokenKind::Eof,
        ]
    );
    for (k, t) in tokens.iter().take(11).enumerate() {
        assert_eq!(t.span, Span { start: k, end: k + 1 });
    }
}

#[test]
fn tokenize_skips_whitespace_and_comments() {
    let (tokens, diags) = tokenize("  # first\n\t a # second\r\n\x0Cb#last");
    assert!(diags.is_empty());
    assert_eq!(kinds(&tokens), vec![ident("a"), ident("b"), TokenKind::Eof]);
    assert_eq!(tokens[0].span, Span { start: 12, end: 13 });
    assert_eq!(tokens[1].span, Span { start: 25, end: 26 });
    assert_eq!(tokens[2].span, Span { start: 31, end: 31 });
}

#[test]
fn tokenize_identifiers() {
    let (tokens, diags) = tokenize("_a1 B_2z let9");
    assert!(diags.is_empty());
    assert_eq!(kinds(&tokens), vec![ident("_a1"), ident("B_2z"), ident("let9"), TokenKind::Eof]);
}

#[test]
fn tokenize_digits_then_letters_are_two_tokens() {
    let (tokens, diags) = tokenize("12ab");
    assert!(diags.is_empty());
    assert_eq!(kinds(&tokens), vec![TokenKind::Int(12), ident("ab"), TokenKind::Eof]);
}

#[test]
fn tokenize_integer_limits() {
    let (tokens, diags) = tokenize("9223372036854775807 0 007");
    assert!(diags.is_empty());
    assert_eq!(
        kinds(&tokens),
        vec![
            TokenKind::Int(i64::MAX),
            TokenKind::Int(0),
            TokenKind::Int(7),
            TokenKind::Eof
        ]
    );
}

#[test]
fn tokenize_integer_too_large() {
    let (tokens, diags) = tokenize("a 9223372036854775808 b");
    assert_eq!(kinds(&tokens), vec![ident("a"), ident("b"), TokenKind::Eof]);
    assert_eq!(
        diags,
        vec![Diagnostic {
            severity: Severity::Error,
            message: "invalid integer literal: 9223372036854775808".to_string(),
            span: Some(Span { start: 2, end: 21 }),
        }]
    );
}

#[test]
fn tokenize_integer_far_too_large() {
    let (tokens, diags) = tokenize("99999999999999999999999999999999999999999");
    assert_eq!(kinds(&tokens), vec![TokenKind::Eof]);
    assert_eq!(diags.len(), 1);
    assert_eq!(
        diags[0].message,
        "invalid integer literal: 99999999999999999999999999999999999999999"
    );
}

#[test]
fn tokenize_unexpected_character_recovers() {
    let (tokens, diags) = tokenize("a $ b");
    assert_eq!(kinds(&tokens), vec![ident("a"), ident("b"), TokenKind::Eof]);
    assert_eq!(
        diags,
        vec![Diagnostic {
            severity: Severity::Error,
            message: "unexpected character: $".to_string(),
            span: Some(Span { start: 2, end: 3 }),
        }]
    );
}

#[test]
fn tokenize_unexpected_byte_is_shown_in_hex() {
    let (tokens, diags) = tokenize("\u{1}\u{7f}\u{e9}");
    assert_eq!(kinds(&tokens), vec![TokenKind::Eof]);
    let messages: Vec<&str> = diags.iter().map(|d| d.message.as_str()).collect();
    assert_eq!(
        messages,
        vec![
            "unexpected character: 0x01",
            "unexpected character: 0x7F",
            "unexpected character: 0xC3",
            "unexpected character: 0xA9",
        ]
    );
    assert_eq!(diags[3].span, Some(Span { start: 3, end: 4 }));
}

#[test]
fn tokenize_spans_never_overlap_or_go_back() {
    let src = "let foo = bar(1, \"two\", x3) # c\n @ 99999999999999999999 y;";
    let (tokens, _diags) = tokenize(src);
    assert!(tokens.len() > 5);
    for w in tokens.windows(2) {
        assert!(w[0].span.end <= w[1].span.start);
        assert!(w[0].span.start < w[1].span.start);
    }
    for t in &tokens {
        assert!(t.span.start <= t.span.end && t.span.end <= src.len());
    }
}

#[test]
fn tokenize_is_deterministic() {
    let src = "f(1, \"a\\n\") $ 12345678901234567890 \"open";
    assert_eq!(tokenize(src), tokenize(src));
}

#[test]
fn tokenize_diagnostics_are_errors_inside_the_text() {
    let src = "$ 99999999999999999999 \u{7f} \"open";
    let (_tokens, diags) = tokenize(src);
    assert_eq!(diags.len(), 4);
    for d in &diags {
        assert_eq!(d.severity, Severity::Error);
        let span = d.span.expect("a span");
        assert!(span.start <= span.end && span.end <= src.len());
    }
}
