//! The parser: tokens to a syntax tree.

pub mod grammar;
pub mod model;

use vstd::prelude::*;
use crate::ast::{
    exprs_view, lemma_call_view, Expr, ExprView, Ident, Item, ItemView, Module, Stmt, StmtView,
};
use crate::diagnostic::{diagnostics_view, Diagnostic, DiagnosticView, Severity};
use crate::lexer::token::{tokens_view, Token, TokenKind, TokenKindView, TokenView};
use crate::span::Span;
use crate::text::same_text;
use model::{
    all_anchored, arguments, at_end, at_let, call, error_here, expr, kind_at,
    lemma_module_anchored, let_stmt, module, module_from, primary, recovery_len, stmt, sync_len,
};

verus! {

/// The value of an expression that may be missing.
pub open spec fn expr_value(e: Option<Expr>) -> Option<ExprView> {
    match e {
        Some(e) => Some(e@),
        None => None,
    }
}

/// The value of a statement that may be missing.
pub open spec fn stmt_value(s: Option<Stmt>) -> Option<StmtView> {
    match s {
        Some(s) => Some(s@),
        None => None,
    }
}

/// The values of a sequence of items, in order.
pub open spec fn items_view(items: Seq<Item>) -> Seq<ItemView> {
    Seq::new(items.len(), |i: int| items[i]@)
}

/// Parses a token sequence into a module.
///
/// The input ends where the tokens end or where the end marker stands. Errors are
/// recorded and recovered from: the module holds every statement that could be
/// built, and the diagnostics come in the order in which they were found.
#[must_use]
pub fn parse(tokens: &[Token]) -> (r: (Module, Vec<Diagnostic>))
    ensures
        r.0@ == module(tokens_view(tokens@)).items,
        diagnostics_view(r.1@) == module(tokens_view(tokens@)).diagnostics,
        all_anchored(tokens_view(tokens@), diagnostics_view(r.1@)),
{
    let mut p = Parser::new(tokens);
    let m = p.parse_module();
    proof {
        assert(p.recorded() =~= module(tokens_view(tokens@)).diagnostics);
        lemma_module_anchored(tokens_view(tokens@), 0);
    }
    (m, p.diags)
}

/// A cursor over the tokens, and the diagnostics recorded so far.
struct Parser<'a> {
    tokens: &'a [Token],
    i: usize,
    diags: Vec<Diagnostic>,
}

impl<'a> Parser<'a> {
    /// The values of the tokens.
    spec fn toks(&self) -> Seq<TokenView> {
        tokens_view(self.tokens@)
    }

    /// The values of the diagnostics recorded so far.
    spec fn recorded(&self) -> Seq<DiagnosticView> {
        diagnostics_view(self.diags@)
    }

    /// The cursor lies inside the tokens or just behind them.
    spec fn wf(&self) -> bool {
        self.i <= self.tokens@.len()
    }

    /// Since `before` the cursor has moved over `used` tokens and `diagnostics`
    /// were recorded.
    spec fn stepped(&self, before: Parser<'a>, used: nat, diagnostics: Seq<DiagnosticView>) -> bool {
        &&& self.tokens == before.tokens
        &&& self.i == before.i + used
        &&& self.recorded() == before.recorded() + diagnostics
        &&& self.wf()
    }

    fn new(tokens: &'a [Token]) -> (p: Parser<'a>)
        ensures
            p.tokens == tokens,
            p.i == 0,
            p.recorded() == Seq::<DiagnosticView>::empty(),
            p.wf(),
    {
        let p = Parser { tokens, i: 0, diags: Vec::new() };
        assert(p.recorded() =~= Seq::empty());
        p
    }

    fn is_eof(&self) -> (r: bool)
        requires
            self.wf(),
        ensures
            r == at_end(self.toks(), self.i as int),
    {
        if self.i >= self.tokens.len() {
            true
        } else {
            matches!(self.tokens[self.i].kind, TokenKind::Eof)
        }
    }

    fn peek(&self) -> (r: Option<&'a Token>)
        requires
            self.wf(),
        ensures
            match r {
                Some(t) => self.i < self.tokens@.len() && *t == self.tokens@[self.i as int],
                None => self.i == self.tokens@.len(),
            },
    {
        let tokens: &'a [Token] = self.tokens;
        if self.i < tokens.len() {
            Some(&tokens[self.i])
        } else {
            None
        }
    }

    fn peek_kind(&self) -> (r: Option<&'a TokenKind>)
        requires
            self.wf(),
        ensures
            match r {
                Some(k) => kind_at(self.toks(), self.i as int) == Some(k@),
                None => kind_at(self.toks(), self.i as int) is None,
            },
    {
        match self.peek() {
            Some(t) => Some(&t.kind),
            None => None,
        }
    }

    /// Moves over the token at the cursor, unless the input ends there.
    fn bump(&mut self) -> (r: Option<&'a Token>)
        requires
            old(self).wf(),
        ensures
            final(self).stepped(
                *old(self),
                recovery_len(old(self).toks(), old(self).i as int),
                Seq::empty(),
            ),
            match r {
                Some(t) => !at_end(old(self).toks(), old(self).i as int) && *t == old(
                    self,
                ).tokens@[old(self).i as int],
                None => at_end(old(self).toks(), old(self).i as int),
            },
    {
        if self.is_eof() {
            None
        } else {
            let t = self.peek();
            let len = self.tokens.len();
            self.i += 1;
            t
        }
    }

    fn at_ident_kw(&self, kw: &str) -> (r: bool)
        requires
            self.wf(),
        ensures
            r == (kind_at(self.toks(), self.i as int) == Some(TokenKindView::Ident(kw@))),
    {
        match self.peek_kind() {
            Some(TokenKind::Ident(s)) => same_text(s.as_str(), kw),
            _ => false,
        }
    }

    /// Records an error with the given message at the cursor.
    fn error_here(&mut self, msg: &str)
        requires
            old(self).wf(),
        ensures
            final(self).stepped(
                *old(self),
                0,
                seq![error_here(old(self).toks(), old(self).i as int, msg@)],
            ),
    {
        let span = if self.is_eof() {
            Span::new(0, 0)
        } else {
            self.tokens[self.i].span
        };
        let ghost before = self.recorded();
        self.diags.push(
            Diagnostic { severity: Severity::Error, message: msg.to_owned(), span: Some(span) },
        );
        assert(self.recorded() =~= before + seq![
            error_here(old(self).toks(), old(self).i as int, msg@),
        ]);
    }

    /// Takes the identifier at the cursor, if one stands there.
    fn bump_ident_value(&mut self) -> (r: Option<String>)
        requires
            old(self).wf(),
        ensures
            match r {
                Some(name) => {
                    &&& kind_at(old(self).toks(), old(self).i as int) == Some(
                        TokenKindView::Ident(name@),
                    )
                    &&& final(self).stepped(*old(self), 1, Seq::empty())
                },
                None => {
                    &&& !(kind_at(old(self).toks(), old(self).i as int) matches Some(
                        TokenKindView::Ident(_),
                    ))
                    &&& final(self).stepped(*old(self), 0, Seq::empty())
                },
            },
    {
        match self.peek_kind() {
            Some(TokenKind::Ident(s)) => {
                let name = s.clone();
                self.bump();
                Some(name)
            },
            _ => None,
        }
    }

    /// Takes the integer at the cursor, if one stands there.
    fn bump_int_value(&mut self) -> (r: Option<i64>)
        requires
            old(self).wf(),
        ensures
            match r {
                Some(n) => {
                    &&& kind_at(old(self).toks(), old(self).i as int) == Some(
                        TokenKindView::Int(n),
                    )
                    &&& final(self).stepped(*old(self), 1, Seq::empty())
                },
                None => {
                    &&& !(kind_at(old(self).toks(), old(self).i as int) matches Some(
                        TokenKindView::Int(_),
                    ))
                    &&& final(self).stepped(*old(self), 0, Seq::empty())
                },
            },
    {
        match self.peek_kind() {
            Some(TokenKind::Int(n)) => {
                let value = *n;
                self.bump();
                Some(value)
            },
            _ => None,
        }
    }

    /// Takes the string at the cursor, if one stands there.
    fn bump_str_value(&mut self) -> (r: Option<String>)
        requires
            old(self).wf(),
        ensures
            match r {
                Some(text) => {
                    &&& kind_at(old(self).toks(), old(self).i as int) == Some(
                        TokenKindView::Str(text@),
                    )
                    &&& final(self).stepped(*old(self), 1, Seq::empty())
                },
                None => {
                    &&& !(kind_at(old(self).toks(), old(self).i as int) matches Some(
                        TokenKindView::Str(_),
                    ))
                    &&& final(self).stepped(*old(self), 0, Seq::empty())
                },
            },
    {
        match self.peek_kind() {
            Some(TokenKind::Str(s)) => {
                let text = s.clone();
                self.bump();
                Some(text)
            },
            _ => None,
        }
    }

    fn at_symbol_lparen(&self) -> (r: bool)
        requires
            self.wf(),
        ensures
            r == (kind_at(self.toks(), self.i as int) == Some(TokenKindView::LParen)),
    {
        matches!(self.peek_kind(), Some(TokenKind::LParen))
    }

    fn at_symbol_rparen(&self) -> (r: bool)
        requires
            self.wf(),
        ensures
            r == (kind_at(self.toks(), self.i as int) == Some(TokenKindView::RParen)),
    {
        matches!(self.peek_kind(), Some(TokenKind::RParen))
    }

    /// Moves over a `(` at the cursor, if one stands there.
    fn eat_symbol_lparen(&mut self) -> (r: bool)
        requires
            old(self).wf(),
        ensures
            r == (kind_at(old(self).toks(), old(self).i as int) == Some(TokenKindView::LParen)),
            final(self).stepped(*old(self), if r { 1nat } else { 0nat }, Seq::empty()),
    {
        if self.at_symbol_lparen() {
            self.bump();
            true
        } else {
            false
        }
    }

    /// Moves over a `,` at the cursor, if one stands there.
    fn eat_symbol_comma(&mut self) -> (r: bool)
        requires
            old(self).wf(),
        ensures
            r == (kind_at(old(self).toks(), old(self).i as int) == Some(TokenKindView::Comma)),
            final(self).stepped(*old(self), if r { 1nat } else { 0nat }, Seq::empty()),
    {
        if matches!(self.peek_kind(), Some(TokenKind::Comma)) {
            self.bump();
            true
        } else {
            false
        }
    }

    /// Moves over a `=` at the cursor, if one stands there.
    fn eat_symbol_eq(&mut self) -> (r: bool)
        requires
            old(self).wf(),
        ensures
            r == (kind_at(old(self).toks(), old(self).i as int) == Some(TokenKindView::Eq)),
            final(self).stepped(*old(self), if r { 1nat } else { 0nat }, Seq::empty()),
    {
        if matches!(self.peek_kind(), Some(TokenKind::Eq)) {
            self.bump();
            true
        } else {
            false
        }
    }

    /// Discards tokens up to the next `)` or the end of the input.
    fn sync_to_rparen_or_eof(&mut self)
        requires
            old(self).wf(),
        ensures
            final(self).stepped(
                *old(self),
                sync_len(old(self).toks(), old(self).i as int),
                Seq::empty(),
            ),
    {
        let ghost total = self.i + sync_len(self.toks(), self.i as int);
        while !self.is_eof() && !self.at_symbol_rparen()
            invariant
                self.wf(),
                self.tokens == old(self).tokens,
                self.recorded() == old(self).recorded(),
                self.i + sync_len(self.toks(), self.i as int) == total,
            decreases self.tokens@.len() - self.i,
        {
            let ghost before = self.recorded();
            self.bump();
            assert(self.recorded() =~= before);
        }
        assert(self.recorded() =~= old(self).recorded() + Seq::empty());
    }

    /// A primary expression: the one token at the cursor, where it is a name,
    /// an integer or a string.
    fn parse_primary(&mut self) -> (r: Option<Expr>)
        requires
            old(self).wf(),
        ensures
            expr_value(r) == primary(old(self).toks(), old(self).i as int),
            final(self).stepped(*old(self), if r is Some { 1nat } else { 0nat }, Seq::empty()),
    {
        match self.peek_kind() {
            Some(TokenKind::Ident(_)) => {
                match self.bump_ident_value() {
                    Some(s) => Some(Expr::Ident(Ident { name: s })),
                    None => None,
                }
            },
            Some(TokenKind::Int(_)) => {
                match self.bump_int_value() {
                    Some(n) => Some(Expr::Int(n)),
                    None => None,
                }
            },
            Some(TokenKind::Str(_)) => {
                match self.bump_str_value() {
                    Some(s) => Some(Expr::Str(s)),
                    None => None,
                }
            },
            _ => None,
        }
    }

    fn parse_expr(&mut self) -> (r: Option<Expr>)
        requires
            old(self).wf(),
        ensures
            expr_value(r) == expr(old(self).toks(), old(self).i as int).value,
            final(self).stepped(
                *old(self),
                expr(old(self).toks(), old(self).i as int).used,
                expr(old(self).toks(), old(self).i as int).diagnostics,
            ),
        decreases old(self).tokens@.len() - old(self).i, 1nat,
    {
        self.parse_call_or_primary()
    }

    /// A primary expression, and where that is a name with `(` behind it, the
    /// call of that name.
    fn parse_call_or_primary(&mut self) -> (r: Option<Expr>)
        requires
            old(self).wf(),
        ensures
            expr_value(r) == expr(old(self).toks(), old(self).i as int).value,
            final(self).stepped(
                *old(self),
                expr(old(self).toks(), old(self).i as int).used,
                expr(old(self).toks(), old(self).i as int).diagnostics,
            ),
        decreases old(self).tokens@.len() - old(self).i, 0nat,
    {
        let ghost before = self.recorded();
        match self.parse_primary() {
            None => None,
            Some(Expr::Ident(callee)) => {
                if self.at_symbol_lparen() {
                    let r = self.parse_call(callee);
                    assert(self.recorded() =~= before + call(
                        old(self).toks(),
                        old(self).i + 1,
                        callee@,
                    ).diagnostics);
                    r
                } else {
                    Some(Expr::Ident(callee))
                }
            },
            Some(other) => Some(other),
        }
    }

    /// The call of `callee`, with the cursor at its `(`.
    fn parse_call(&mut self, callee: Ident) -> (r: Option<Expr>)
        requires
            old(self).wf(),
        ensures
            expr_value(r) == call(old(self).toks(), old(self).i as int, callee@).value,
            final(self).stepped(
                *old(self),
                call(old(self).toks(), old(self).i as int, callee@).used,
                call(old(self).toks(), old(self).i as int, callee@).diagnostics,
            ),
        decreases old(self).tokens@.len() - old(self).i, 0nat,
    {
        let ghost toks = self.toks();
        let ghost start = self.i as int;
        let ghost base = self.recorded();
        let ghost name = callee@;
        if !self.eat_symbol_lparen() {
            self.error_here("expected '(' after function name");
            assert(self.recorded() =~= base + call(toks, start, name).diagnostics);
            return None;
        }
        let mut args: Vec<Expr> = Vec::new();
        if self.at_symbol_rparen() {
            self.bump();
            let e = Expr::Call { callee, args };
            proof {
                lemma_call_view(e);
                assert(exprs_view(args@) =~= Seq::empty());
                assert(self.recorded() =~= base + call(toks, start, name).diagnostics);
            }
            return Some(e);
        }
        let ghost total = arguments(toks, start + 1, name, Seq::empty());
        let mut more = true;
        proof {
            assert(exprs_view(args@) =~= Seq::empty());
            assert(self.recorded() =~= base);
            assert(base + total.diagnostics =~= self.recorded() + total.diagnostics);
        }
        while more
            invariant
                self.wf(),
                self.tokens == old(self).tokens,
                toks == old(self).toks(),
                start == old(self).i,
                base == old(self).recorded(),
                name == callee@,
                start + 1 <= self.i,
                total == arguments(toks, start + 1, name, Seq::empty()),
                call(toks, start, name).value == total.value,
                call(toks, start, name).used == 1 + total.used,
                call(toks, start, name).diagnostics == total.diagnostics,
                more ==> {
                    let rest = arguments(toks, self.i as int, name, exprs_view(args@));
                    &&& total.value == rest.value
                    &&& start + 1 + total.used == self.i + rest.used
                    &&& base + total.diagnostics == self.recorded() + rest.diagnostics
                },
                !more ==> {
                    &&& total.value == Some(
                        ExprView::Call { callee: name, args: exprs_view(args@) },
                    )
                    &&& start + 1 + total.used == self.i
                    &&& base + total.diagnostics == self.recorded()
                },
            decreases self.tokens@.len() - self.i, if more { 1nat } else { 0nat },
        {
            let ghost at = self.i as int;
            let ghost seen = self.recorded();
            let ghost so_far = exprs_view(args@);
            let ghost a = expr(toks, at);
            let ghost rest = arguments(toks, at, name, so_far);
            proof {
                model::lemma_expr_bounds(toks, at);
            }
            match self.parse_expr() {
                None => {
                    self.error_here("expected expression in argument list");
                    proof {
                        assert(self.recorded() =~= seen + rest.diagnostics);
                        assert(self.recorded() =~= base + call(toks, start, name).diagnostics);
                    }
                    return None;
                },
                Some(arg) => {
                    args.push(arg);
                    assert(exprs_view(args@) =~= so_far.push(arg@));
                    let ghost p = self.i as int;
                    if self.eat_symbol_comma() {
                        proof {
                            let next = arguments(toks, p + 1, name, exprs_view(args@));
                            assert(rest.diagnostics == a.diagnostics + next.diagnostics);
                            assert(self.recorded() =~= seen + a.diagnostics);
                            assert(self.recorded() + next.diagnostics =~= seen + rest.diagnostics);
                        }
                    } else if self.at_symbol_rparen() {
                        self.bump();
                        more = false;
                        proof {
                            assert(self.recorded() =~= seen + rest.diagnostics);
                        }
                    } else {
                        self.error_here("expected ',' or ')' after argument");
                        self.sync_to_rparen_or_eof();
                        if self.at_symbol_rparen() {
                            self.bump();
                        }
                        more = false;
                        proof {
                            assert(self.recorded() =~= seen + rest.diagnostics);
                        }
                    }
                },
            }
        }
        let e = Expr::Call { callee, args };
        proof {
            lemma_call_view(e);
        }
        Some(e)
    }

    /// A statement: a `let` statement where `let` stands at the cursor, else an
    /// expression.
    fn parse_stmt(&mut self) -> (r: Option<Stmt>)
        requires
            old(self).wf(),
        ensures
            stmt_value(r) == stmt(old(self).toks(), old(self).i as int).value,
            final(self).stepped(
                *old(self),
                stmt(old(self).toks(), old(self).i as int).used,
                stmt(old(self).toks(), old(self).i as int).diagnostics,
            ),
    {
        if self.at_ident_kw("let") {
            self.parse_let_stmt()
        } else {
            self.parse_expr_stmt()
        }
    }

    /// The `let` statement whose `let` stands at the cursor.
    fn parse_let_stmt(&mut self) -> (r: Option<Stmt>)
        requires
            old(self).wf(),
            at_let(old(self).toks(), old(self).i as int),
        ensures
            stmt_value(r) == let_stmt(old(self).toks(), old(self).i as int).value,
            final(self).stepped(
                *old(self),
                let_stmt(old(self).toks(), old(self).i as int).used,
                let_stmt(old(self).toks(), old(self).i as int).diagnostics,
            ),
    {
        let ghost toks = self.toks();
        let ghost start = self.i as int;
        let ghost base = self.recorded();
        let ghost whole = let_stmt(toks, start);
        self.bump();
        let name = match self.bump_ident_value() {
            Some(s) => Ident { name: s },
            None => {
                self.error_here("expected identifier after 'let'");
                assert(self.recorded() =~= base + whole.diagnostics);
                return None;
            },
        };
        if !self.eat_symbol_eq() {
            self.error_here("expected '=' in let binding");
            assert(self.recorded() =~= base + whole.diagnostics);
            return None;
        }
        match self.parse_expr() {
            Some(expr) => {
                assert(self.recorded() =~= base + whole.diagnostics);
                Some(Stmt::Let { name, expr })
            },
            None => {
                self.error_here("expected expression after '='");
                assert(self.recorded() =~= base + whole.diagnostics);
                None
            },
        }
    }

    /// An expression standing as a statement.
    fn parse_expr_stmt(&mut self) -> (r: Option<Stmt>)
        requires
            old(self).wf(),
            !at_let(old(self).toks(), old(self).i as int),
        ensures
            stmt_value(r) == stmt(old(self).toks(), old(self).i as int).value,
            final(self).stepped(
                *old(self),
                stmt(old(self).toks(), old(self).i as int).used,
                stmt(old(self).toks(), old(self).i as int).diagnostics,
            ),
    {
        match self.parse_expr() {
            Some(expr) => Some(Stmt::Expr(expr)),
            None => None,
        }
    }

    /// Statement after statement up to the end of the input.
    fn parse_module(&mut self) -> (m: Module)
        requires
            old(self).wf(),
        ensures
            m@ == module_from(old(self).toks(), old(self).i as int).items,
            final(self).tokens == old(self).tokens,
            final(self).recorded() == old(self).recorded() + module_from(
                old(self).toks(),
                old(self).i as int,
            ).diagnostics,
            final(self).wf(),
            at_end(final(self).toks(), final(self).i as int),
    {
        let ghost toks = self.toks();
        let ghost base = self.recorded();
        let ghost whole = module_from(toks, self.i as int);
        let mut items: Vec<Item> = Vec::new();
        proof {
            assert(items_view(items@) =~= Seq::empty());
            assert(self.recorded() + whole.diagnostics =~= base + whole.diagnostics);
        }
        while !self.is_eof()
            invariant
                self.wf(),
                self.tokens == old(self).tokens,
                toks == old(self).toks(),
                whole.items == items_view(items@) + module_from(toks, self.i as int).items,
                base + whole.diagnostics == self.recorded() + module_from(
                    toks,
                    self.i as int,
                ).diagnostics,
            decreases self.tokens@.len() - self.i,
        {
            let ghost at = self.i as int;
            let ghost seen = self.recorded();
            let ghost built = items_view(items@);
            let ghost s = stmt(toks, at);
            proof {
                model::lemma_stmt_bounds(toks, at);
            }
            match self.parse_stmt() {
                Some(stmt) => {
                    items.push(Item::Stmt(stmt));
                    proof {
                        let rest = module_from(toks, at + s.used);
                        assert(items_view(items@) =~= built + seq![Item::Stmt(stmt)@]);
                        assert(items_view(items@) + rest.items =~= built + (seq![
                            Item::Stmt(stmt)@,
                        ] + rest.items));
                        assert(self.recorded() + rest.diagnostics =~= seen + (s.diagnostics
                            + rest.diagnostics));
                    }
                },
                None => {
                    let ghost p = self.i as int;
                    let ghost after = self.recorded();
                    self.bump();
                    proof {
                        let rest = module_from(toks, p + recovery_len(toks, p));
                        assert(self.recorded() =~= after);
                        assert(self.recorded() + rest.diagnostics =~= seen + (s.diagnostics
                            + rest.diagnostics));
                    }
                },
            }
        }
        let m = Module { items };
        proof {
            assert(m@ =~= items_view(items@));
            assert(m@ =~= whole.items);
            assert(self.recorded() =~= base + whole.diagnostics);
        }
        m
    }
}

} // verus!
