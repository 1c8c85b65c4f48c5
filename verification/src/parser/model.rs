//! What the parser computes, stated over the values of the tokens.

use vstd::prelude::*;
use crate::ast::{ExprView, ItemView, StmtView};
use crate::diagnostic::{error_at, DiagnosticView};
use crate::lexer::token::{TokenKindView, TokenView};
use crate::span::Span;

verus! {

/// The outcome of one grammar rule tried at some position.
pub struct Parsed<T> {
    /// What the rule built, if it built anything.
    pub value: Option<T>,
    /// The number of tokens that the rule consumed, on success or on failure.
    pub used: nat,
    /// The diagnostics that the rule recorded, in order.
    pub diagnostics: Seq<DiagnosticView>,
}

/// The kind of the token at `i`, if there is one.
pub open spec fn kind_at(tokens: Seq<TokenView>, i: int) -> Option<TokenKindView> {
    if 0 <= i < tokens.len() {
        Some(tokens[i].kind)
    } else {
        None
    }
}

/// The input ends at `i`: no token is left, or the end marker stands there.
pub open spec fn at_end(tokens: Seq<TokenView>, i: int) -> bool {
    i >= tokens.len() || kind_at(tokens, i) == Some(TokenKindView::Eof)
}

/// Where a diagnostic recorded at `i` is anchored: at the span of the token there,
/// or at `[0, 0)` at the end of the input.
pub open spec fn anchor(tokens: Seq<TokenView>, i: int) -> Span {
    if at_end(tokens, i) || i < 0 {
        Span { start: 0, end: 0 }
    } else {
        tokens[i].span
    }
}

/// The error with the given message, recorded at `i`.
pub open spec fn error_here(tokens: Seq<TokenView>, i: int, message: Seq<char>) -> DiagnosticView {
    error_at(message, anchor(tokens, i))
}

/// The primary expression that the single token at `i` is, if it is one.
pub open spec fn primary(tokens: Seq<TokenView>, i: int) -> Option<ExprView> {
    match kind_at(tokens, i) {
        Some(TokenKindView::Ident(name)) => Some(ExprView::Ident(name)),
        Some(TokenKindView::Int(n)) => Some(ExprView::Int(n)),
        Some(TokenKindView::Str(text)) => Some(ExprView::Str(text)),
        _ => None,
    }
}

/// The number of tokens from `i` up to the next `)` or the end of the input.
pub open spec fn sync_len(tokens: Seq<TokenView>, i: int) -> nat
    decreases tokens.len() - i,
{
    if i < 0 || at_end(tokens, i) || kind_at(tokens, i) == Some(TokenKindView::RParen) {
        0
    } else {
        1 + sync_len(tokens, i + 1)
    }
}

/// One if a `)` stands at `i`, else zero: the tokens that closing a call takes.
pub open spec fn closing_len(tokens: Seq<TokenView>, i: int) -> nat {
    if kind_at(tokens, i) == Some(TokenKindView::RParen) {
        1
    } else {
        0
    }
}

/// An expression at `i`: a primary, and where that is a name with `(` behind it,
/// a call of that name.
pub open spec fn expr(tokens: Seq<TokenView>, i: int) -> Parsed<ExprView>
    decreases tokens.len() - i, 0nat,
{
    match primary(tokens, i) {
        None => Parsed { value: None, used: 0, diagnostics: Seq::empty() },
        Some(ExprView::Ident(name)) => {
            if kind_at(tokens, i + 1) == Some(TokenKindView::LParen) {
                let c = call(tokens, i + 1, name);
                Parsed { value: c.value, used: 1 + c.used, diagnostics: c.diagnostics }
            } else {
                Parsed { value: Some(ExprView::Ident(name)), used: 1, diagnostics: Seq::empty() }
            }
        },
        Some(e) => Parsed { value: Some(e), used: 1, diagnostics: Seq::empty() },
    }
}

/// The call of `callee` whose `(` stands at `i`.
pub open spec fn call(tokens: Seq<TokenView>, i: int, callee: Seq<char>) -> Parsed<ExprView>
    decreases tokens.len() - i, 0nat,
{
    if kind_at(tokens, i) != Some(TokenKindView::LParen) {
        Parsed {
            value: None,
            used: 0,
            diagnostics: seq![error_here(tokens, i, "expected '(' after function name"@)],
        }
    } else if kind_at(tokens, i + 1) == Some(TokenKindView::RParen) {
        Parsed {
            value: Some(ExprView::Call { callee, args: Seq::empty() }),
            used: 2,
            diagnostics: Seq::empty(),
        }
    } else {
        let a = arguments(tokens, i + 1, callee, Seq::empty());
        Parsed { value: a.value, used: 1 + a.used, diagnostics: a.diagnostics }
    }
}

/// The rest of the call of `callee` from `i` on, where an argument is due and
/// `before` holds the arguments read so far.
///
/// Behind an argument a `,` asks for another and a `)` closes the call. Anything
/// else is recorded, the tokens up to and including the next `)` are discarded,
/// and the call stands with the arguments read so far. Where no argument can be
/// read at all, that is recorded and nothing is built.
pub open spec fn arguments(
    tokens: Seq<TokenView>,
    i: int,
    callee: Seq<char>,
    before: Seq<ExprView>,
) -> Parsed<ExprView>
    decreases tokens.len() - i, 1nat,
{
    let a = expr(tokens, i);
    let p = i + a.used;
    match a.value {
        None => Parsed {
            value: None,
            used: a.used,
            diagnostics: a.diagnostics.push(
                error_here(tokens, p, "expected expression in argument list"@),
            ),
        },
        Some(e) => {
            let args = before.push(e);
            if kind_at(tokens, p) == Some(TokenKindView::Comma) {
                let rest = arguments(tokens, p + 1, callee, args);
                Parsed {
                    value: rest.value,
                    used: a.used + 1 + rest.used,
                    diagnostics: a.diagnostics + rest.diagnostics,
                }
            } else if kind_at(tokens, p) == Some(TokenKindView::RParen) {
                Parsed {
                    value: Some(ExprView::Call { callee, args }),
                    used: a.used + 1,
                    diagnostics: a.diagnostics,
                }
            } else {
                let skipped = sync_len(tokens, p);
                Parsed {
                    value: Some(ExprView::Call { callee, args }),
                    used: a.used + skipped + closing_len(tokens, p + skipped),
                    diagnostics: a.diagnostics.push(
                        error_here(tokens, p, "expected ',' or ')' after argument"@),
                    ),
                }
            }
        },
    }
}

/// Whether the token at `i` is the identifier `let`.
pub open spec fn at_let(tokens: Seq<TokenView>, i: int) -> bool {
    kind_at(tokens, i) == Some(TokenKindView::Ident("let"@))
}

/// The `let` statement whose `let` stands at `i`: a name, `=` and an expression.
/// The first of them that is missing is recorded where it was due, and nothing
/// is built.
pub open spec fn let_stmt(tokens: Seq<TokenView>, i: int) -> Parsed<StmtView> {
    match kind_at(tokens, i + 1) {
        Some(TokenKindView::Ident(name)) => {
            if kind_at(tokens, i + 2) == Some(TokenKindView::Eq) {
                let e = expr(tokens, i + 3);
                match e.value {
                    Some(value) => Parsed {
                        value: Some(StmtView::Let { name, expr: value }),
                        used: 3 + e.used,
                        diagnostics: e.diagnostics,
                    },
                    None => Parsed {
                        value: None,
                        used: 3 + e.used,
                        diagnostics: e.diagnostics.push(
                            error_here(tokens, i + 3 + e.used, "expected expression after '='"@),
                        ),
                    },
                }
            } else {
                Parsed {
                    value: None,
                    used: 2,
                    diagnostics: seq![error_here(tokens, i + 2, "expected '=' in let binding"@)],
                }
            }
        },
        _ => Parsed {
            value: None,
            used: 1,
            diagnostics: seq![error_here(tokens, i + 1, "expected identifier after 'let'"@)],
        },
    }
}

/// A statement at `i`: a `let` statement where `let` stands there, else an
/// expression.
pub open spec fn stmt(tokens: Seq<TokenView>, i: int) -> Parsed<StmtView> {
    if at_let(tokens, i) {
        let_stmt(tokens, i)
    } else {
        let e = expr(tokens, i);
        Parsed {
            value: match e.value {
                Some(value) => Some(StmtView::Expr(value)),
                None => None,
            },
            used: e.used,
            diagnostics: e.diagnostics,
        }
    }
}

/// One if a token stands at `i` that is not the end marker, else zero: the tokens
/// that recovery discards after a statement that failed.
pub open spec fn recovery_len(tokens: Seq<TokenView>, i: int) -> nat {
    if at_end(tokens, i) {
        0
    } else {
        1
    }
}

/// An expression ends inside the input, and one that was built took a token.
pub proof fn lemma_expr_bounds(tokens: Seq<TokenView>, i: int)
    requires
        0 <= i,
    ensures
        expr(tokens, i).used > 0 ==> i + expr(tokens, i).used <= tokens.len(),
        expr(tokens, i).value is Some ==> expr(tokens, i).used > 0,
    decreases tokens.len() - i, 0nat,
{
    match primary(tokens, i) {
        Some(ExprView::Ident(name)) => {
            if kind_at(tokens, i + 1) == Some(TokenKindView::LParen) {
                lemma_call_bounds(tokens, i + 1, name);
            }
        },
        _ => {},
    }
}

/// A call ends inside the input, and one that was built took a token.
pub proof fn lemma_call_bounds(tokens: Seq<TokenView>, i: int, callee: Seq<char>)
    requires
        0 <= i,
    ensures
        call(tokens, i, callee).used > 0 ==> i + call(tokens, i, callee).used <= tokens.len(),
        call(tokens, i, callee).value is Some ==> call(tokens, i, callee).used > 0,
    decreases tokens.len() - i, 0nat,
{
    if kind_at(tokens, i) == Some(TokenKindView::LParen) && kind_at(tokens, i + 1) != Some(
        TokenKindView::RParen,
    ) {
        lemma_arguments_bounds(tokens, i + 1, callee, Seq::empty());
    }
}

/// Discarding up to the next `)` ends inside the input.
pub proof fn lemma_sync_bounds(tokens: Seq<TokenView>, i: int)
    requires
        0 <= i <= tokens.len(),
    ensures
        i + sync_len(tokens, i) + closing_len(tokens, i + sync_len(tokens, i)) <= tokens.len(),
        at_end(tokens, i + sync_len(tokens, i)) || kind_at(tokens, i + sync_len(tokens, i))
            == Some(TokenKindView::RParen),
    decreases tokens.len() - i,
{
    if !(at_end(tokens, i) || kind_at(tokens, i) == Some(TokenKindView::RParen)) {
        lemma_sync_bounds(tokens, i + 1);
    }
}

/// The arguments of a call end inside the input.
pub proof fn lemma_arguments_bounds(
    tokens: Seq<TokenView>,
    i: int,
    callee: Seq<char>,
    before: Seq<ExprView>,
)
    requires
        0 <= i <= tokens.len(),
    ensures
        i + arguments(tokens, i, callee, before).used <= tokens.len(),
    decreases tokens.len() - i, 1nat,
{
    let a = expr(tokens, i);
    let p = i + a.used;
    lemma_expr_bounds(tokens, i);
    if a.value is Some {
        if kind_at(tokens, p) == Some(TokenKindView::Comma) {
            lemma_arguments_bounds(tokens, p + 1, callee, before.push(a.value->0));
        } else if kind_at(tokens, p) != Some(TokenKindView::RParen) {
            lemma_sync_bounds(tokens, p);
        }
    }
}

/// A statement ends inside the input, and one that was built took a token.
pub proof fn lemma_stmt_bounds(tokens: Seq<TokenView>, i: int)
    requires
        0 <= i < tokens.len(),
    ensures
        i + stmt(tokens, i).used <= tokens.len(),
        stmt(tokens, i).value is Some ==> stmt(tokens, i).used > 0,
{
    lemma_expr_bounds(tokens, i);
    lemma_expr_bounds(tokens, i + 3);
}

/// The items and the diagnostics of a token sequence, or of the rest of it.
pub struct ParsedModule {
    pub items: Seq<ItemView>,
    pub diagnostics: Seq<DiagnosticView>,
}

/// What the parser produces from position `i` on: statement after statement up to
/// the end of the input. A statement that was built becomes an item. After one
/// that failed, one token is discarded, if any is left, and parsing goes on.
pub open spec fn module_from(tokens: Seq<TokenView>, i: int) -> ParsedModule
    decreases tokens.len() - i,
    via module_from_terminates
{
    if i < 0 || at_end(tokens, i) {
        ParsedModule { items: Seq::empty(), diagnostics: Seq::empty() }
    } else {
        let s = stmt(tokens, i);
        let p = i + s.used;
        match s.value {
            Some(value) => {
                let rest = module_from(tokens, p);
                ParsedModule {
                    items: seq![ItemView::Stmt(value)] + rest.items,
                    diagnostics: s.diagnostics + rest.diagnostics,
                }
            },
            None => {
                let rest = module_from(tokens, p + recovery_len(tokens, p));
                ParsedModule { items: rest.items, diagnostics: s.diagnostics + rest.diagnostics }
            },
        }
    }
}

#[via_fn]
proof fn module_from_terminates(tokens: Seq<TokenView>, i: int) {
    if 0 <= i && !at_end(tokens, i) {
        lemma_stmt_bounds(tokens, i);
    }
}

/// What the parser produces from a whole token sequence.
pub open spec fn module(tokens: Seq<TokenView>) -> ParsedModule {
    module_from(tokens, 0)
}

/// A diagnostic is an error anchored at some position of the input: at the span of
/// the token there, or at `[0, 0)` at the end of the input.
pub open spec fn anchored(tokens: Seq<TokenView>, d: DiagnosticView) -> bool {
    exists|j: int| 0 <= j && d == #[trigger] error_here(tokens, j, d.message)
}

/// Every diagnostic of a sequence is anchored.
pub open spec fn all_anchored(tokens: Seq<TokenView>, ds: Seq<DiagnosticView>) -> bool {
    forall|k: int| 0 <= k < ds.len() ==> anchored(tokens, #[trigger] ds[k])
}

/// What an expression records is anchored.
pub proof fn lemma_expr_anchored(tokens: Seq<TokenView>, i: int)
    requires
        0 <= i,
    ensures
        all_anchored(tokens, expr(tokens, i).diagnostics),
    decreases tokens.len() - i, 0nat,
{
    match primary(tokens, i) {
        Some(ExprView::Ident(name)) => {
            if kind_at(tokens, i + 1) == Some(TokenKindView::LParen) {
                lemma_call_anchored(tokens, i + 1, name);
            }
        },
        _ => {},
    }
}

/// What a call records is anchored.
pub proof fn lemma_call_anchored(tokens: Seq<TokenView>, i: int, callee: Seq<char>)
    requires
        0 <= i,
    ensures
        all_anchored(tokens, call(tokens, i, callee).diagnostics),
    decreases tokens.len() - i, 0nat,
{
    if kind_at(tokens, i) != Some(TokenKindView::LParen) {
        let d = error_here(tokens, i, "expected '(' after function name"@);
        assert(d == error_here(tokens, i, d.message));
    } else if kind_at(tokens, i + 1) != Some(TokenKindView::RParen) {
        lemma_arguments_anchored(tokens, i + 1, callee, Seq::empty());
    }
}

/// What the arguments of a call record is anchored.
pub proof fn lemma_arguments_anchored(
    tokens: Seq<TokenView>,
    i: int,
    callee: Seq<char>,
    before: Seq<ExprView>,
)
    requires
        0 <= i,
    ensures
        all_anchored(tokens, arguments(tokens, i, callee, before).diagnostics),
    decreases tokens.len() - i, 1nat,
{
    let a = expr(tokens, i);
    let p = i + a.used;
    let whole = arguments(tokens, i, callee, before).diagnostics;
    lemma_expr_anchored(tokens, i);
    match a.value {
        None => {
            let d = error_here(tokens, p, "expected expression in argument list"@);
            assert(d == error_here(tokens, p, d.message));
        },
        Some(e) => {
            if kind_at(tokens, p) == Some(TokenKindView::Comma) {
                lemma_arguments_anchored(tokens, p + 1, callee, before.push(e));
                let rest = arguments(tokens, p + 1, callee, before.push(e)).diagnostics;
                assert forall|k: int| 0 <= k < whole.len() implies anchored(
                    tokens,
                    #[trigger] whole[k],
                ) by {
                    if k >= a.diagnostics.len() {
                        assert(whole[k] == rest[k - a.diagnostics.len()]);
                    } else {
                        assert(whole[k] == a.diagnostics[k]);
                    }
                }
            } else if kind_at(tokens, p) != Some(TokenKindView::RParen) {
                let d = error_here(tokens, p, "expected ',' or ')' after argument"@);
                assert(d == error_here(tokens, p, d.message));
            }
        },
    }
}

/// What a statement records is anchored.
pub proof fn lemma_stmt_anchored(tokens: Seq<TokenView>, i: int)
    requires
        0 <= i,
    ensures
        all_anchored(tokens, stmt(tokens, i).diagnostics),
{
    lemma_expr_anchored(tokens, i);
    lemma_expr_anchored(tokens, i + 3);
    let e = expr(tokens, i + 3);
    let d1 = error_here(tokens, i + 1, "expected identifier after 'let'"@);
    let d2 = error_here(tokens, i + 2, "expected '=' in let binding"@);
    let d3 = error_here(tokens, i + 3 + e.used, "expected expression after '='"@);
    assert(d1 == error_here(tokens, i + 1, d1.message));
    assert(d2 == error_here(tokens, i + 2, d2.message));
    assert(d3 == error_here(tokens, i + 3 + e.used, d3.message));
}

/// Every diagnostic of the parser is an error anchored at a token's span, or at
/// `[0, 0)` where the input had ended.
pub proof fn lemma_module_anchored(tokens: Seq<TokenView>, i: int)
    requires
        0 <= i,
    ensures
        all_anchored(tokens, module_from(tokens, i).diagnostics),
    decreases tokens.len() - i,
{
    if !at_end(tokens, i) {
        let s = stmt(tokens, i);
        let p = i + s.used;
        let next = if s.value is Some {
            p
        } else {
            p + recovery_len(tokens, p)
        };
        lemma_stmt_bounds(tokens, i);
        lemma_stmt_anchored(tokens, i);
        lemma_module_anchored(tokens, next);
        let whole = module_from(tokens, i).diagnostics;
        let rest = module_from(tokens, next).diagnostics;
        assert(whole =~= s.diagnostics + rest);
        assert forall|k: int| 0 <= k < whole.len() implies anchored(tokens, #[trigger] whole[k]) by {
            if k >= s.diagnostics.len() {
                assert(whole[k] == rest[k - s.diagnostics.len()]);
            } else {
                assert(whole[k] == s.diagnostics[k]);
            }
        }
    }
}

} // verus!
