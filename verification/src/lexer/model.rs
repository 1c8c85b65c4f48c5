//! What the lexer computes, stated over the bytes of the source.

use vstd::prelude::*;
use crate::diagnostic::{error_at, DiagnosticView};
use crate::lexer::ascii::{
    BACKSLASH, BANG, CARRIAGE_RETURN, COMMA, DIGIT_0, DIGIT_9, EQUALS, FORM_FEED, HASH, LBRACE,
    LINE_FEED, LOWER_A, LOWER_N, LOWER_T, LOWER_Z, LPAREN, MINUS, PLUS, QUOTE, RBRACE, RPAREN,
    SEMICOLON, SLASH, SPACE, STAR, TAB, TILDE, UNDERSCORE, UPPER_A, UPPER_Z,
};
use crate::lexer::token::{TokenKindView, TokenView};
use crate::span::Span;

verus! {

/// ASCII whitespace: space, tab, line feed, form feed, carriage return.
pub open spec fn is_space(b: u8) -> bool {
    b == SPACE || b == TAB || b == LINE_FEED || b == FORM_FEED || b == CARRIAGE_RETURN
}

/// An ASCII letter.
pub open spec fn is_letter(b: u8) -> bool {
    (UPPER_A <= b <= UPPER_Z) || (LOWER_A <= b <= LOWER_Z)
}

/// An ASCII digit.
pub open spec fn is_digit(b: u8) -> bool {
    DIGIT_0 <= b <= DIGIT_9
}

/// A byte that can start an identifier.
pub open spec fn ident_start(b: u8) -> bool {
    b == UNDERSCORE || is_letter(b)
}

/// A byte that can continue an identifier.
pub open spec fn ident_continue(b: u8) -> bool {
    ident_start(b) || is_digit(b)
}

/// A visible ASCII character: anything from `!` to `~`.
pub open spec fn is_graphic(b: u8) -> bool {
    BANG <= b <= TILDE
}

/// The token kind of a punctuation byte, if it is one.
pub open spec fn punct_kind(b: u8) -> Option<TokenKindView> {
    if b == LPAREN {
        Some(TokenKindView::LParen)
    } else if b == RPAREN {
        Some(TokenKindView::RParen)
    } else if b == LBRACE {
        Some(TokenKindView::LBrace)
    } else if b == RBRACE {
        Some(TokenKindView::RBrace)
    } else if b == COMMA {
        Some(TokenKindView::Comma)
    } else if b == SEMICOLON {
        Some(TokenKindView::Semi)
    } else if b == PLUS {
        Some(TokenKindView::Plus)
    } else if b == MINUS {
        Some(TokenKindView::Minus)
    } else if b == STAR {
        Some(TokenKindView::Star)
    } else if b == SLASH {
        Some(TokenKindView::Slash)
    } else if b == EQUALS {
        Some(TokenKindView::Eq)
    } else {
        None
    }
}

/// Each byte read as the character with that code.
pub open spec fn bytes_as_chars(bytes: Seq<u8>) -> Seq<char> {
    Seq::new(bytes.len(), |i: int| bytes[i] as char)
}

/// The number of bytes from `i` on that belong to whitespace and line comments.
/// A comment runs from `#` up to, and not including, the next line feed.
pub open spec fn trivia_len(bytes: Seq<u8>, i: int, in_comment: bool) -> nat
    decreases bytes.len() - i, if in_comment { 1nat } else { 0nat },
{
    if i < 0 || i >= bytes.len() {
        0
    } else if in_comment {
        if bytes[i] == LINE_FEED {
            trivia_len(bytes, i, false)
        } else {
            1 + trivia_len(bytes, i + 1, true)
        }
    } else if is_space(bytes[i]) {
        1 + trivia_len(bytes, i + 1, false)
    } else if bytes[i] == HASH {
        1 + trivia_len(bytes, i + 1, true)
    } else {
        0
    }
}

/// The length of the longest run of identifier bytes that starts at `i`.
pub open spec fn ident_run(bytes: Seq<u8>, i: int) -> nat
    decreases bytes.len() - i,
{
    if 0 <= i < bytes.len() && ident_continue(bytes[i]) {
        1 + ident_run(bytes, i + 1)
    } else {
        0
    }
}

/// The length of the longest run of digits that starts at `i`.
pub open spec fn digit_run(bytes: Seq<u8>, i: int) -> nat
    decreases bytes.len() - i,
{
    if 0 <= i < bytes.len() && is_digit(bytes[i]) {
        1 + digit_run(bytes, i + 1)
    } else {
        0
    }
}

/// The number that a sequence of digits writes in base ten.
pub open spec fn decimal_value(digits: Seq<u8>) -> nat
    decreases digits.len(),
{
    if digits.len() == 0 {
        0
    } else {
        decimal_value(digits.drop_last()) * 10 + (digits.last() - DIGIT_0) as nat
    }
}

/// The character that the escape `\b` stands for: a quote, a backslash, a line
/// feed for `n`, a tab for `t`, and the byte itself for any other.
pub open spec fn unescape(b: u8) -> char {
    if b == LOWER_N {
        '\n'
    } else if b == LOWER_T {
        '\t'
    } else {
        b as char
    }
}

/// What scanning the inside of a string literal finds.
pub struct StringScan {
    /// The decoded text up to where the scan stopped.
    pub text: Seq<char>,
    /// The number of bytes consumed, the closing quote included.
    pub used: nat,
    /// Whether a closing quote was found.
    pub closed: bool,
}

/// Scans the inside of a string literal from `i`, the byte after the opening quote.
/// An escape is two bytes. The scan stops behind the closing quote, or, with the
/// literal left open, at the end of the input or at a backslash that is its last byte.
pub open spec fn scan_string(bytes: Seq<u8>, i: int) -> StringScan
    decreases bytes.len() - i,
{
    if i < 0 || i >= bytes.len() {
        StringScan { text: Seq::empty(), used: 0, closed: false }
    } else if bytes[i] == QUOTE {
        StringScan { text: Seq::empty(), used: 1, closed: true }
    } else if bytes[i] == BACKSLASH {
        if i + 1 >= bytes.len() {
            StringScan { text: Seq::empty(), used: 0, closed: false }
        } else {
            let rest = scan_string(bytes, i + 2);
            StringScan {
                text: seq![unescape(bytes[i + 1])] + rest.text,
                used: 2 + rest.used,
                closed: rest.closed,
            }
        }
    } else {
        let rest = scan_string(bytes, i + 1);
        StringScan {
            text: seq![bytes[i] as char] + rest.text,
            used: 1 + rest.used,
            closed: rest.closed,
        }
    }
}

/// The upper-case hexadecimal digit for a value below sixteen.
pub open spec fn hex_digit(n: u8) -> char {
    if n < 10 {
        (DIGIT_0 + n) as char
    } else {
        (UPPER_A + (n - 10)) as char
    }
}

/// How a byte is shown in a message: itself where it is a visible character or a
/// space, else `0x` and its two hexadecimal digits.
pub open spec fn byte_display(b: u8) -> Seq<char> {
    if is_graphic(b) || b == SPACE {
        seq![b as char]
    } else {
        seq!['0', 'x', hex_digit(b / 16), hex_digit(b % 16)]
    }
}

/// The span of `used` bytes from `start`.
pub open spec fn span_from(start: int, used: nat) -> Span {
    Span { start: start as usize, end: (start + used) as usize }
}

/// What the lexer makes of the lexeme that starts at a byte.
pub struct LexStep {
    /// The number of bytes that the lexeme takes.
    pub used: nat,
    /// The token, where the lexeme gives one.
    pub token: Option<TokenView>,
    /// The diagnostic, where the lexeme is at fault.
    pub diagnostic: Option<DiagnosticView>,
    /// Whether scanning stops here for good.
    pub halted: bool,
}

/// The lexeme at `p`, a byte that is neither whitespace nor the start of a comment.
pub open spec fn lex_step(bytes: Seq<u8>, p: int) -> LexStep {
    let b = bytes[p];
    if ident_start(b) {
        let used = 1 + ident_run(bytes, p + 1);
        let text = bytes_as_chars(bytes.subrange(p, p + used));
        LexStep {
            used,
            token: Some(TokenView { kind: TokenKindView::Ident(text), span: span_from(p, used) }),
            diagnostic: None,
            halted: false,
        }
    } else if is_digit(b) {
        let used = 1 + digit_run(bytes, p + 1);
        let digits = bytes.subrange(p, p + used);
        let value = decimal_value(digits);
        if value <= i64::MAX {
            LexStep {
                used,
                token: Some(
                    TokenView { kind: TokenKindView::Int(value as i64), span: span_from(p, used) },
                ),
                diagnostic: None,
                halted: false,
            }
        } else {
            LexStep {
                used,
                token: None,
                diagnostic: Some(
                    error_at(
                        "invalid integer literal: "@ + bytes_as_chars(digits),
                        span_from(p, used),
                    ),
                ),
                halted: false,
            }
        }
    } else if b == QUOTE {
        let scan = scan_string(bytes, p + 1);
        let used = 1 + scan.used;
        if scan.closed {
            LexStep {
                used,
                token: Some(
                    TokenView { kind: TokenKindView::Str(scan.text), span: span_from(p, used) },
                ),
                diagnostic: None,
                halted: false,
            }
        } else {
            LexStep {
                used,
                token: None,
                diagnostic: Some(error_at("unterminated string literal"@, span_from(p, used))),
                halted: true,
            }
        }
    } else if punct_kind(b) is Some {
        LexStep {
            used: 1,
            token: Some(TokenView { kind: punct_kind(b)->0, span: span_from(p, 1) }),
            diagnostic: None,
            halted: false,
        }
    } else {
        LexStep {
            used: 1,
            token: None,
            diagnostic: Some(
                error_at("unexpected character: "@ + byte_display(b), span_from(p, 1)),
            ),
            halted: false,
        }
    }
}

/// Whitespace and comments end inside the text.
pub proof fn lemma_trivia_bound(bytes: Seq<u8>, i: int, in_comment: bool)
    requires
        0 <= i <= bytes.len(),
    ensures
        i + trivia_len(bytes, i, in_comment) <= bytes.len(),
    decreases bytes.len() - i, if in_comment { 1nat } else { 0nat },
{
    if i < bytes.len() {
        if in_comment {
            if bytes[i] == LINE_FEED {
                lemma_trivia_bound(bytes, i, false);
            } else {
                lemma_trivia_bound(bytes, i + 1, true);
            }
        } else if is_space(bytes[i]) {
            lemma_trivia_bound(bytes, i + 1, false);
        } else if bytes[i] == HASH {
            lemma_trivia_bound(bytes, i + 1, true);
        }
    }
}

/// A run of identifier bytes ends inside the text.
pub proof fn lemma_ident_run_bound(bytes: Seq<u8>, i: int)
    requires
        0 <= i <= bytes.len(),
    ensures
        i + ident_run(bytes, i) <= bytes.len(),
    decreases bytes.len() - i,
{
    if i < bytes.len() && ident_continue(bytes[i]) {
        lemma_ident_run_bound(bytes, i + 1);
    }
}

/// A run of digits ends inside the text.
pub proof fn lemma_digit_run_bound(bytes: Seq<u8>, i: int)
    requires
        0 <= i <= bytes.len(),
    ensures
        i + digit_run(bytes, i) <= bytes.len(),
    decreases bytes.len() - i,
{
    if i < bytes.len() && is_digit(bytes[i]) {
        lemma_digit_run_bound(bytes, i + 1);
    }
}

/// The scan of a string literal ends inside the text.
pub proof fn lemma_scan_string_bound(bytes: Seq<u8>, i: int)
    requires
        0 <= i <= bytes.len(),
    ensures
        i + scan_string(bytes, i).used <= bytes.len(),
    decreases bytes.len() - i,
{
    if i < bytes.len() && bytes[i] != QUOTE {
        if bytes[i] == BACKSLASH {
            if i + 1 < bytes.len() {
                lemma_scan_string_bound(bytes, i + 2);
            }
        } else {
            lemma_scan_string_bound(bytes, i + 1);
        }
    }
}

/// Every lexeme takes at least one byte and ends inside the text.
pub proof fn lemma_step_bounds(bytes: Seq<u8>, p: int)
    requires
        0 <= p < bytes.len(),
    ensures
        1 <= lex_step(bytes, p).used,
        p + lex_step(bytes, p).used <= bytes.len(),
{
    lemma_ident_run_bound(bytes, p + 1);
    lemma_digit_run_bound(bytes, p + 1);
    lemma_scan_string_bound(bytes, p + 1);
}

/// The tokens and diagnostics of a text, or of the rest of it.
pub struct Lexed {
    pub tokens: Seq<TokenView>,
    pub diagnostics: Seq<DiagnosticView>,
}

/// The sequence of nothing, or of the one value given.
pub open spec fn optional<T>(x: Option<T>) -> Seq<T> {
    match x {
        Some(v) => seq![v],
        None => Seq::empty(),
    }
}

/// The end marker of a text of `len` bytes.
pub open spec fn eof_token(len: nat) -> TokenView {
    TokenView { kind: TokenKindView::Eof, span: span_from(len as int, 0) }
}

/// What the lexer produces from position `i` on. A text scanned to its end closes
/// with the end marker; an unterminated string literal stops the scan at once, with
/// nothing more produced, the end marker included.
pub open spec fn lex_from(bytes: Seq<u8>, i: int) -> Lexed
    decreases bytes.len() - i,
    via lex_from_terminates
{
    let p = i + trivia_len(bytes, i, false);
    if i < 0 || p >= bytes.len() {
        Lexed { tokens: seq![eof_token(bytes.len())], diagnostics: Seq::empty() }
    } else {
        let step = lex_step(bytes, p);
        if step.halted {
            Lexed { tokens: optional(step.token), diagnostics: optional(step.diagnostic) }
        } else {
            let rest = lex_from(bytes, p + step.used);
            Lexed {
                tokens: optional(step.token) + rest.tokens,
                diagnostics: optional(step.diagnostic) + rest.diagnostics,
            }
        }
    }
}

#[via_fn]
proof fn lex_from_terminates(bytes: Seq<u8>, i: int) {
    let p = i + trivia_len(bytes, i, false);
    if 0 <= i && p < bytes.len() {
        lemma_step_bounds(bytes, p);
    }
}

/// What the lexer produces from a whole text.
pub open spec fn lex(bytes: Seq<u8>) -> Lexed {
    lex_from(bytes, 0)
}

/// Each token ends before the next begins, and begins behind where the one before
/// it began.
pub open spec fn spans_increasing(tokens: Seq<TokenView>) -> bool {
    forall|j: int, k: int|
        0 <= j < k < tokens.len() ==> {
            &&& (#[trigger] tokens[j]).span.end <= (#[trigger] tokens[k]).span.start
            &&& tokens[j].span.start < tokens[k].span.start
        }
}

/// Each token lies between `from` and `len`; the end marker, which is empty, stands
/// only in the last place, and every other token holds at least one byte.
pub open spec fn spans_placed(tokens: Seq<TokenView>, from: int, len: int) -> bool {
    forall|k: int|
        0 <= k < tokens.len() ==> {
            let t = #[trigger] tokens[k];
            &&& from <= t.span.start <= t.span.end <= len
            &&& t.kind is Eof ==> k == tokens.len() - 1 && t.span.start == len
            &&& !(t.kind is Eof) ==> t.span.start < t.span.end
        }
}

/// The tokens of a text never overlap and never go backwards, whether or not the
/// scan was stopped by an unterminated string literal.
pub proof fn lemma_lex_spans(bytes: Seq<u8>, i: int)
    requires
        0 <= i <= bytes.len() <= usize::MAX,
    ensures
        spans_placed(lex_from(bytes, i).tokens, i, bytes.len() as int),
        spans_increasing(lex_from(bytes, i).tokens),
    decreases bytes.len() - i,
{
    let p = i + trivia_len(bytes, i, false);
    lemma_trivia_bound(bytes, i, false);
    if p < bytes.len() {
        lemma_step_bounds(bytes, p);
        let step = lex_step(bytes, p);
        let first = optional(step.token);
        assert(spans_placed(first, i, bytes.len() as int));
        if !step.halted {
            let rest = lex_from(bytes, p + step.used).tokens;
            lemma_lex_spans(bytes, p + step.used);
            let all = first + rest;
            assert forall|k: int| 0 <= k < all.len() implies {
                let t = #[trigger] all[k];
                &&& i <= t.span.start <= t.span.end <= bytes.len()
                &&& t.kind is Eof ==> k == all.len() - 1 && t.span.start == bytes.len()
                &&& !(t.kind is Eof) ==> t.span.start < t.span.end
            } by {
                if k >= first.len() {
                    assert(all[k] == rest[k - first.len()]);
                }
            }
            assert forall|j: int, k: int| 0 <= j < k < all.len() implies {
                &&& (#[trigger] all[j]).span.end <= (#[trigger] all[k]).span.start
                &&& all[j].span.start < all[k].span.start
            } by {
                assert(all[k] == rest[k - first.len()]);
                if j >= first.len() {
                    assert(all[j] == rest[j - first.len()]);
                }
            }
        }
    }
}

/// Every diagnostic is an error with a span that lies between `from` and `len`.
pub open spec fn errors_placed(ds: Seq<DiagnosticView>, from: int, len: int) -> bool {
    forall|k: int|
        0 <= k < ds.len() ==> {
            let d = #[trigger] ds[k];
            &&& d.severity == crate::diagnostic::Severity::Error
            &&& d.span is Some
            &&& from <= d.span->0.start <= d.span->0.end <= len
        }
}

/// Every diagnostic of the lexer is an error whose span lies inside the text.
pub proof fn lemma_lex_diagnostics(bytes: Seq<u8>, i: int)
    requires
        0 <= i <= bytes.len() <= usize::MAX,
    ensures
        errors_placed(lex_from(bytes, i).diagnostics, i, bytes.len() as int),
    decreases bytes.len() - i,
{
    let p = i + trivia_len(bytes, i, false);
    lemma_trivia_bound(bytes, i, false);
    if p < bytes.len() {
        lemma_step_bounds(bytes, p);
        let step = lex_step(bytes, p);
        let first = optional(step.diagnostic);
        assert(errors_placed(first, i, bytes.len() as int));
        if !step.halted {
            let rest = lex_from(bytes, p + step.used).diagnostics;
            lemma_lex_diagnostics(bytes, p + step.used);
            let all = first + rest;
            assert forall|k: int| 0 <= k < all.len() implies {
                let d = #[trigger] all[k];
                &&& d.severity == crate::diagnostic::Severity::Error
                &&& d.span is Some
                &&& i <= d.span->0.start <= d.span->0.end <= bytes.len()
            } by {
                if k >= first.len() {
                    assert(all[k] == rest[k - first.len()]);
                }
            }
        }
    }
}

} // verus!
