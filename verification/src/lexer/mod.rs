//! The lexer: source text to tokens.

pub mod ascii;
pub mod model;
pub mod token;

use vstd::prelude::*;
use vstd::string::{StringExecFns, StringSliceAdditionalSpecFns};
use crate::diagnostic::{diagnostics_view, Diagnostic};
use crate::lexer::ascii::{
    BACKSLASH, BANG, CARRIAGE_RETURN, COMMA, DIGIT_0, DIGIT_9, EQUALS, FORM_FEED, HASH, LBRACE,
    LINE_FEED, LOWER_A, LOWER_N, LOWER_T, LOWER_Z, LPAREN, MINUS, PLUS, QUOTE, RBRACE, RPAREN,
    SEMICOLON, SLASH, SPACE, STAR, TAB, TILDE, UNDERSCORE, UPPER_A, UPPER_Z,
};
use crate::span::Span;
use crate::text::{push_bytes, push_char};
use model::{
    byte_display, decimal_value, digit_run, hex_digit, ident_continue, ident_run, ident_start,
    errors_placed, is_digit, is_space, lemma_lex_diagnostics, lemma_lex_spans, lex, lex_from,
    lex_step, optional, punct_kind, scan_string, spans_increasing, spans_placed, trivia_len,
    unescape,
};
pub use token::{Token, TokenKind};
use token::tokens_view;

verus! {

/// Splits a source text into tokens.
///
/// The text is read byte by byte. Whitespace and `#` comments give nothing. What
/// cannot be read gives a diagnostic and no token, and the scan goes on behind it;
/// only a string literal left open stops the scan, with nothing more produced. A
/// text scanned to its end closes with an `Eof` token.
#[must_use]
pub fn tokenize(source: &str) -> (r: (Vec<Token>, Vec<Diagnostic>))
    ensures
        tokens_view(r.0@) == lex(source.spec_bytes()).tokens,
        diagnostics_view(r.1@) == lex(source.spec_bytes()).diagnostics,
        spans_increasing(tokens_view(r.0@)),
        spans_placed(tokens_view(r.0@), 0, source.spec_bytes().len() as int),
        errors_placed(diagnostics_view(r.1@), 0, source.spec_bytes().len() as int),
{
    let bytes = source.as_bytes();
    let len = bytes.len();
    let mut i: usize = 0;
    let mut tokens: Vec<Token> = Vec::new();
    let mut diags: Vec<Diagnostic> = Vec::new();
    let mut halted = false;
    assert(tokens_view(tokens@) =~= Seq::empty());
    assert(diagnostics_view(diags@) =~= Seq::empty());
    while !halted && i < len
        invariant
            len == bytes@.len(),
            i <= len,
            !halted ==> {
                &&& lex(bytes@).tokens == tokens_view(tokens@) + lex_from(bytes@, i as int).tokens
                &&& lex(bytes@).diagnostics == diagnostics_view(diags@) + lex_from(
                    bytes@,
                    i as int,
                ).diagnostics
            },
            halted ==> {
                &&& lex(bytes@).tokens == tokens_view(tokens@)
                &&& lex(bytes@).diagnostics == diagnostics_view(diags@)
            },
        decreases len - i, if halted { 0nat } else { 1nat },
    {
        let ghost seen_tokens = tokens_view(tokens@);
        let ghost seen_diags = diagnostics_view(diags@);
        skip_ws_and_comments(bytes, &mut i);
        if i < len {
            let ghost step = lex_step(bytes@, i as int);
            let ghost rest = lex_from(bytes@, i + step.used);
            let b = bytes[i];
            if is_ident_start(b) {
                let tok = lex_ident(bytes, &mut i);
                tokens.push(tok);
            } else if DIGIT_0 <= b && b <= DIGIT_9 {
                match lex_int(bytes, &mut i) {
                    Ok(tok) => tokens.push(tok),
                    Err(d) => diags.push(d),
                }
            } else if b == QUOTE {
                match lex_string(bytes, &mut i) {
                    Ok(tok) => tokens.push(tok),
                    Err(d) => {
                        diags.push(d);
                        halted = true;
                    },
                }
            } else {
                let found = lex_punct(bytes, &mut i);
                match found {
                    Some(tok) => tokens.push(tok),
                    None => {
                        let mut message = "unexpected character: ".to_owned();
                        message.append(char_for_error(b).as_str());
                        diags.push(Diagnostic::error(message).with_span(Span::new(i, i + 1)));
                        i += 1;
                    },
                }
            }
            proof {
                assert(tokens_view(tokens@) =~= seen_tokens + optional(step.token));
                assert(diagnostics_view(diags@) =~= seen_diags + optional(
                    step.diagnostic,
                ));
                if !halted {
                    assert(seen_tokens + (optional(step.token) + rest.tokens) =~= (
                    seen_tokens + optional(step.token)) + rest.tokens);
                    assert(seen_diags + (optional(step.diagnostic) + rest.diagnostics)
                        =~= (seen_diags + optional(step.diagnostic)) + rest.diagnostics);
                } else {
                    assert(seen_tokens + optional(step.token) =~= tokens_view(tokens@));
                }
            }
        }
    }
    if !halted {
        tokens.push(Token { kind: TokenKind::Eof, span: Span::new(len, len) });
        proof {
            let scanned = tokens@.drop_last();
            assert(tokens_view(tokens@) =~= tokens_view(scanned) + lex_from(
                bytes@,
                len as int,
            ).tokens);
            assert(diagnostics_view(diags@) =~= diagnostics_view(diags@) + lex_from(
                bytes@,
                len as int,
            ).diagnostics);
        }
    }
    proof {
        lemma_lex_spans(bytes@, 0);
        lemma_lex_diagnostics(bytes@, 0);
    }
    (tokens, diags)
}

fn is_ident_start(b: u8) -> (r: bool)
    ensures
        r == ident_start(b),
{
    b == UNDERSCORE || (UPPER_A <= b && b <= UPPER_Z) || (LOWER_A <= b && b <= LOWER_Z)
}

fn is_ident_continue(b: u8) -> (r: bool)
    ensures
        r == ident_continue(b),
{
    is_ident_start(b) || (DIGIT_0 <= b && b <= DIGIT_9)
}

fn is_whitespace(b: u8) -> (r: bool)
    ensures
        r == is_space(b),
{
    b == SPACE || b == TAB || b == LINE_FEED || b == FORM_FEED || b == CARRIAGE_RETURN
}

/// Moves `i` over whitespace and line comments.
fn skip_ws_and_comments(bytes: &[u8], i: &mut usize)
    requires
        *old(i) <= bytes@.len(),
    ensures
        *final(i) == *old(i) + trivia_len(bytes@, *old(i) as int, false),
        *final(i) <= bytes@.len(),
{
    let ghost total = *i + trivia_len(bytes@, *i as int, false);
    let mut scanning = true;
    while scanning && *i < bytes.len()
        invariant
            *i <= bytes@.len(),
            scanning ==> *i + trivia_len(bytes@, *i as int, false) == total,
            !scanning ==> *i == total,
        decreases bytes@.len() - *i, if scanning { 1nat } else { 0nat },
    {
        let b = bytes[*i];
        if is_whitespace(b) {
            *i += 1;
        } else if b == HASH {
            let ghost hash = *i;
            *i += 1;
            while *i < bytes.len() && bytes[*i] != LINE_FEED
                invariant
                    hash < *i <= bytes@.len(),
                    *i + trivia_len(bytes@, *i as int, true) == total,
                decreases bytes@.len() - *i,
            {
                *i += 1;
            }
        } else {
            scanning = false;
        }
    }
}

/// Reads the identifier that starts at `i` and moves `i` behind it.
fn lex_ident(bytes: &[u8], i: &mut usize) -> (tok: Token)
    requires
        *old(i) < bytes@.len(),
        ident_start(bytes@[*old(i) as int]),
    ensures
        lex_step(bytes@, *old(i) as int).token == Some(tok@),
        *final(i) == *old(i) + lex_step(bytes@, *old(i) as int).used,
        *final(i) <= bytes@.len(),
{
    let start = *i;
    let len = bytes.len();
    *i += 1;
    while *i < len && is_ident_continue(bytes[*i])
        invariant
            len == bytes@.len(),
            start < *i <= len,
            *i + ident_run(bytes@, *i as int) == start + 1 + ident_run(bytes@, start + 1),
        decreases bytes@.len() - *i,
    {
        *i += 1;
    }
    let mut text = String::new();
    push_bytes(&mut text, bytes, start, *i);
    Token { kind: TokenKind::Ident(text), span: Span::new(start, *i) }
}

/// Reads the punctuation mark at `i`, if there is one, and moves `i` behind it.
fn lex_punct(bytes: &[u8], i: &mut usize) -> (r: Option<Token>)
    requires
        *old(i) < bytes@.len(),
    ensures
        match r {
            Some(tok) => {
                &&& punct_kind(bytes@[*old(i) as int]) == Some(tok@.kind)
                &&& tok.span == (Span { start: *old(i), end: (*old(i) + 1) as usize })
                &&& *final(i) == *old(i) + 1
            },
            None => punct_kind(bytes@[*old(i) as int]) is None && *final(i) == *old(i),
        },
{
    let start = *i;
    let len = bytes.len();
    let b = bytes[*i];
    let kind = if b == LPAREN {
        TokenKind::LParen
    } else if b == RPAREN {
        TokenKind::RParen
    } else if b == LBRACE {
        TokenKind::LBrace
    } else if b == RBRACE {
        TokenKind::RBrace
    } else if b == COMMA {
        TokenKind::Comma
    } else if b == SEMICOLON {
        TokenKind::Semi
    } else if b == PLUS {
        TokenKind::Plus
    } else if b == MINUS {
        TokenKind::Minus
    } else if b == STAR {
        TokenKind::Star
    } else if b == SLASH {
        TokenKind::Slash
    } else if b == EQUALS {
        TokenKind::Eq
    } else {
        return None;
    };
    *i += 1;
    Some(Token { kind, span: Span::new(start, *i) })
}

fn hex_digit_char(n: u8) -> (c: char)
    requires
        n < 16,
    ensures
        c == hex_digit(n),
{
    if n < 10 {
        (DIGIT_0 + n) as char
    } else {
        (UPPER_A + (n - 10)) as char
    }
}

/// How a byte is shown in a message.
fn char_for_error(b: u8) -> (r: String)
    ensures
        r@ == byte_display(b),
{
    let mut out = String::new();
    if (BANG <= b && b <= TILDE) || b == SPACE {
        push_char(&mut out, b as char);
        assert(out@ =~= byte_display(b));
    } else {
        push_char(&mut out, '0');
        push_char(&mut out, 'x');
        push_char(&mut out, hex_digit_char(b / 16));
        push_char(&mut out, hex_digit_char(b % 16));
        assert(out@ =~= byte_display(b));
    }
    out
}

/// The number that the digits `bytes[from..to]` write in base ten, if it fits.
fn parse_decimal(bytes: &[u8], from: usize, to: usize) -> (r: Option<i64>)
    requires
        from <= to <= bytes@.len(),
        forall|k: int| from <= k < to ==> is_digit(#[trigger] bytes@[k]),
    ensures
        r == if decimal_value(bytes@.subrange(from as int, to as int)) <= i64::MAX {
            Some(decimal_value(bytes@.subrange(from as int, to as int)) as i64)
        } else {
            None
        },
{
    let mut value: i64 = 0;
    let mut fits = true;
    let mut k: usize = from;
    assert(bytes@.subrange(from as int, from as int) =~= Seq::<u8>::empty());
    while k < to
        invariant
            from <= k <= to <= bytes@.len(),
            forall|j: int| from <= j < to ==> is_digit(#[trigger] bytes@[j]),
            fits ==> 0 <= value && value == decimal_value(bytes@.subrange(from as int, k as int)),
            !fits ==> decimal_value(bytes@.subrange(from as int, k as int)) > i64::MAX,
        decreases to - k,
    {
        let digit: i64 = (bytes[k] - DIGIT_0) as i64;
        proof {
            let longer = bytes@.subrange(from as int, k + 1);
            assert(longer.drop_last() =~= bytes@.subrange(from as int, k as int));
            assert(longer.last() == bytes@[k as int]);
        }
        if fits {
            if value > (i64::MAX - digit) / 10 {
                fits = false;
            } else {
                value = value * 10 + digit;
            }
        }
        k += 1;
    }
    if fits {
        Some(value)
    } else {
        None
    }
}

/// Reads the integer literal that starts at `i` and moves `i` behind it. A literal
/// too large for 64 bits gives a diagnostic in place of a token.
fn lex_int(bytes: &[u8], i: &mut usize) -> (r: Result<Token, Diagnostic>)
    requires
        *old(i) < bytes@.len(),
        is_digit(bytes@[*old(i) as int]),
    ensures
        match r {
            Ok(tok) => {
                &&& lex_step(bytes@, *old(i) as int).token == Some(tok@)
                &&& lex_step(bytes@, *old(i) as int).diagnostic is None
            },
            Err(d) => {
                &&& lex_step(bytes@, *old(i) as int).token is None
                &&& lex_step(bytes@, *old(i) as int).diagnostic == Some(d@)
            },
        },
        *final(i) == *old(i) + lex_step(bytes@, *old(i) as int).used,
        *final(i) <= bytes@.len(),
{
    let start = *i;
    let len = bytes.len();
    *i += 1;
    while *i < len && DIGIT_0 <= bytes[*i] && bytes[*i] <= DIGIT_9
        invariant
            len == bytes@.len(),
            start < *i <= len,
            *i + digit_run(bytes@, *i as int) == start + 1 + digit_run(bytes@, start + 1),
            forall|k: int| start <= k < *i ==> is_digit(#[trigger] bytes@[k]),
        decreases len - *i,
    {
        *i += 1;
    }
    match parse_decimal(bytes, start, *i) {
        Some(v) => Ok(Token { kind: TokenKind::Int(v), span: Span::new(start, *i) }),
        None => {
            let mut message = "invalid integer literal: ".to_owned();
            push_bytes(&mut message, bytes, start, *i);
            Err(Diagnostic::error(message).with_span(Span::new(start, *i)))
        },
    }
}

fn unescaped(b: u8) -> (c: char)
    ensures
        c == unescape(b),
{
    if b == LOWER_N {
        '\n'
    } else if b == LOWER_T {
        '\t'
    } else {
        b as char
    }
}

/// Reads the string literal whose opening quote is at `i` and moves `i` to where
/// the scan stopped. A literal left open gives a diagnostic in place of a token.
fn lex_string(bytes: &[u8], i: &mut usize) -> (r: Result<Token, Diagnostic>)
    requires
        *old(i) < bytes@.len(),
        bytes@[*old(i) as int] == QUOTE,
    ensures
        match r {
            Ok(tok) => {
                &&& lex_step(bytes@, *old(i) as int).token == Some(tok@)
                &&& lex_step(bytes@, *old(i) as int).diagnostic is None
                &&& !lex_step(bytes@, *old(i) as int).halted
            },
            Err(d) => {
                &&& lex_step(bytes@, *old(i) as int).token is None
                &&& lex_step(bytes@, *old(i) as int).diagnostic == Some(d@)
                &&& lex_step(bytes@, *old(i) as int).halted
            },
        },
        *final(i) == *old(i) + lex_step(bytes@, *old(i) as int).used,
        *final(i) <= bytes@.len(),
{
    let start = *i;
    let len = bytes.len();
    *i += 1;
    let ghost whole = scan_string(bytes@, start + 1);
    let mut out = String::new();
    let mut terminated = false;
    let mut cut_short = false;
    while !terminated && !cut_short && *i < len
        invariant
            len == bytes@.len(),
            start < *i <= len,
            whole == scan_string(bytes@, start + 1),
            !(terminated && cut_short),
            terminated ==> whole.closed && whole.text == out@ && start + 1 + whole.used == *i,
            cut_short ==> !whole.closed && start + 1 + whole.used == *i,
            !terminated && !cut_short ==> {
                &&& whole.text == out@ + scan_string(bytes@, *i as int).text
                &&& start + 1 + whole.used == *i + scan_string(bytes@, *i as int).used
                &&& whole.closed == scan_string(bytes@, *i as int).closed
            },
        decreases len - *i, if terminated || cut_short { 0nat } else { 1nat },
    {
        let c = bytes[*i];
        let ghost rest = scan_string(bytes@, *i as int);
        if c == QUOTE {
            *i += 1;
            terminated = true;
            assert(whole.text =~= out@);
        } else if c == BACKSLASH {
            if *i + 1 >= len {
                cut_short = true;
            } else {
                let next = bytes[*i + 1];
                push_char(&mut out, unescaped(next));
                *i += 2;
                assert(whole.text =~= out@ + scan_string(bytes@, *i as int).text);
            }
        } else {
            push_char(&mut out, c as char);
            *i += 1;
            assert(whole.text =~= out@ + scan_string(bytes@, *i as int).text);
        }
    }
    if !terminated {
        return Err(
            Diagnostic::error("unterminated string literal".to_owned()).with_span(
                Span::new(start, *i),
            ),
        );
    }
    Ok(Token { kind: TokenKind::Str(out), span: Span::new(start, *i) })
}

} // verus!
