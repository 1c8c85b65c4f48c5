//! The grammar, stated as the tokens that spell a syntax tree, and what the
//! parser's results have to do with it.

use vstd::prelude::*;
use crate::ast::{ExprView, ItemView, StmtView};
use crate::lexer::token::{TokenKindView, TokenView};
use crate::parser::model::{
    arguments, at_end, call, expr, kind_at, lemma_stmt_bounds, module_from, recovery_len, stmt,
    Parsed,
};

verus! {

/// The kinds of a sequence of tokens, in order.
pub open spec fn kinds(tokens: Seq<TokenView>) -> Seq<TokenKindView> {
    Seq::new(tokens.len(), |i: int| tokens[i].kind)
}

/// The tokens that spell an expression: one token for a name, an integer or a
/// string; for a call the callee, `(`, the arguments and `)`.
pub open spec fn spelling(e: ExprView) -> Seq<TokenKindView>
    decreases e,
{
    match e {
        ExprView::Ident(name) => seq![TokenKindView::Ident(name)],
        ExprView::Int(n) => seq![TokenKindView::Int(n)],
        ExprView::Str(text) => seq![TokenKindView::Str(text)],
        ExprView::Call { callee, args } => seq![
            TokenKindView::Ident(callee),
            TokenKindView::LParen,
        ] + spelling_list(args) + seq![TokenKindView::RParen],
    }
}

/// The tokens that spell a list of arguments: the expressions, with `,` between
/// each two of them.
pub open spec fn spelling_list(args: Seq<ExprView>) -> Seq<TokenKindView>
    decreases args,
{
    if args.len() == 0 {
        Seq::empty()
    } else if args.len() == 1 {
        spelling(args[0])
    } else {
        spelling(args[0]) + seq![TokenKindView::Comma] + spelling_list(args.drop_first())
    }
}

/// The tokens that spell a statement: `let`, the name and `=` before the
/// expression of a `let` statement, else the expression alone.
pub open spec fn spelling_stmt(s: StmtView) -> Seq<TokenKindView> {
    match s {
        StmtView::Let { name, expr } => seq![
            TokenKindView::Ident("let"@),
            TokenKindView::Ident(name),
            TokenKindView::Eq,
        ] + spelling(expr),
        StmtView::Expr(e) => spelling(e),
    }
}

/// The `n` tokens from `i` on are exactly the tokens `want`.
pub open spec fn spelled_at(tokens: Seq<TokenView>, i: int, n: nat, want: Seq<TokenKindView>) -> bool {
    &&& 0 <= i
    &&& i + n <= tokens.len()
    &&& kinds(tokens).subrange(i, i + n) == want
}

/// An expression that was built without a diagnostic took exactly the tokens
/// that spell it.
pub proof fn lemma_expr_sound(tokens: Seq<TokenView>, i: int)
    requires
        0 <= i,
        expr(tokens, i).value is Some,
        expr(tokens, i).diagnostics.len() == 0,
    ensures
        spelled_at(tokens, i, expr(tokens, i).used, spelling(expr(tokens, i).value->0)),
    decreases tokens.len() - i, 0nat,
{
    let ks = kinds(tokens);
    match kind_at(tokens, i) {
        Some(TokenKindView::Ident(name)) => {
            if kind_at(tokens, i + 1) == Some(TokenKindView::LParen) {
                lemma_call_sound(tokens, i + 1, name);
                let c = call(tokens, i + 1, name);
                let args = c.value->0->args;
                let inner = seq![TokenKindView::LParen] + spelling_list(args) + seq![
                    TokenKindView::RParen,
                ];
                assert(ks.subrange(i, i + 1 + c.used) =~= seq![TokenKindView::Ident(name)]
                    + ks.subrange(i + 1, i + 1 + c.used));
                assert(spelling(c.value->0) =~= seq![TokenKindView::Ident(name)] + inner);
            } else {
                assert(ks.subrange(i, i + 1) =~= seq![TokenKindView::Ident(name)]);
            }
        },
        Some(TokenKindView::Int(n)) => {
            assert(ks.subrange(i, i + 1) =~= seq![TokenKindView::Int(n)]);
        },
        Some(TokenKindView::Str(text)) => {
            assert(ks.subrange(i, i + 1) =~= seq![TokenKindView::Str(text)]);
        },
        _ => {},
    }
}

/// A call that was built without a diagnostic is a call of the given callee, and
/// took exactly `(`, the tokens that spell its arguments, and `)`.
pub proof fn lemma_call_sound(tokens: Seq<TokenView>, i: int, callee: Seq<char>)
    requires
        0 <= i,
        call(tokens, i, callee).value is Some,
        call(tokens, i, callee).diagnostics.len() == 0,
    ensures
        call(tokens, i, callee).value->0 is Call,
        call(tokens, i, callee).value->0->callee == callee,
        spelled_at(
            tokens,
            i,
            call(tokens, i, callee).used,
            seq![TokenKindView::LParen] + spelling_list(call(tokens, i, callee).value->0->args)
                + seq![TokenKindView::RParen],
        ),
    decreases tokens.len() - i, 0nat,
{
    let ks = kinds(tokens);
    if kind_at(tokens, i + 1) == Some(TokenKindView::RParen) {
        assert(ks.subrange(i, i + 2) =~= seq![TokenKindView::LParen] + spelling_list(
            Seq::<ExprView>::empty(),
        ) + seq![TokenKindView::RParen]);
    } else {
        lemma_arguments_sound(tokens, i + 1, callee, Seq::empty());
        let a = arguments(tokens, i + 1, callee, Seq::empty());
        let args = a.value->0->args;
        assert(args.skip(0) =~= args);
        assert(ks.subrange(i, i + 1 + a.used) =~= seq![TokenKindView::LParen] + ks.subrange(
            i + 1,
            i + 1 + a.used,
        ));
        assert(seq![TokenKindView::LParen] + (spelling_list(args) + seq![TokenKindView::RParen])
            =~= seq![TokenKindView::LParen] + spelling_list(args) + seq![TokenKindView::RParen]);
    }
}

/// The rest of a call that was built without a diagnostic holds the arguments
/// read before and at least one more, and took exactly the tokens that spell
/// those further arguments, and `)`.
pub proof fn lemma_arguments_sound(
    tokens: Seq<TokenView>,
    i: int,
    callee: Seq<char>,
    before: Seq<ExprView>,
)
    requires
        0 <= i,
        arguments(tokens, i, callee, before).value is Some,
        arguments(tokens, i, callee, before).diagnostics.len() == 0,
    ensures
        arguments(tokens, i, callee, before).value->0 is Call,
        arguments(tokens, i, callee, before).value->0->callee == callee,
        arguments(tokens, i, callee, before).value->0->args.len() > before.len(),
        arguments(tokens, i, callee, before).value->0->args.take(before.len() as int) == before,
        spelled_at(
            tokens,
            i,
            arguments(tokens, i, callee, before).used,
            spelling_list(
                arguments(tokens, i, callee, before).value->0->args.skip(before.len() as int),
            ) + seq![TokenKindView::RParen],
        ),
    decreases tokens.len() - i, 1nat,
{
    let ks = kinds(tokens);
    let whole = arguments(tokens, i, callee, before);
    let a = expr(tokens, i);
    let p = i + a.used;
    let e = a.value->0;
    let longer = before.push(e);
    lemma_expr_sound(tokens, i);
    if kind_at(tokens, p) == Some(TokenKindView::Comma) {
        let rest = arguments(tokens, p + 1, callee, longer);
        lemma_arguments_sound(tokens, p + 1, callee, longer);
        let args = rest.value->0->args;
        let more = args.skip(before.len() as int);
        assert(args.take(before.len() as int) =~= longer.take(before.len() as int));
        assert(longer.take(before.len() as int) =~= before);
        assert(args[before.len() as int] == longer[before.len() as int]);
        assert(more[0] == e);
        assert(more.drop_first() =~= args.skip(longer.len() as int));
        assert(ks.subrange(i, p + 1 + rest.used) =~= ks.subrange(i, p) + seq![
            TokenKindView::Comma,
        ] + ks.subrange(p + 1, p + 1 + rest.used));
        assert(spelling_list(more) + seq![TokenKindView::RParen] =~= spelling(e) + seq![
            TokenKindView::Comma,
        ] + (spelling_list(more.drop_first()) + seq![TokenKindView::RParen]));
    } else {
        let args = whole.value->0->args;
        assert(args.take(before.len() as int) =~= before);
        assert(args.skip(before.len() as int) =~= seq![e]);
        assert(ks.subrange(i, p + 1) =~= ks.subrange(i, p) + seq![TokenKindView::RParen]);
    }
}

/// A statement that was built without a diagnostic took exactly the tokens that
/// spell it.
pub proof fn lemma_stmt_sound(tokens: Seq<TokenView>, i: int)
    requires
        0 <= i,
        stmt(tokens, i).value is Some,
        stmt(tokens, i).diagnostics.len() == 0,
    ensures
        spelled_at(tokens, i, stmt(tokens, i).used, spelling_stmt(stmt(tokens, i).value->0)),
{
    let ks = kinds(tokens);
    if kind_at(tokens, i) == Some(TokenKindView::Ident("let"@)) {
        let e = expr(tokens, i + 3);
        lemma_expr_sound(tokens, i + 3);
        let name = kind_at(tokens, i + 1)->0->Ident_0;
        assert(ks.subrange(i, i + 3 + e.used) =~= seq![
            TokenKindView::Ident("let"@),
            TokenKindView::Ident(name),
            TokenKindView::Eq,
        ] + ks.subrange(i + 3, i + 3 + e.used));
    } else {
        lemma_expr_sound(tokens, i);
    }
}

/// The tokens that spell an item.
pub open spec fn spelling_item(item: ItemView) -> Seq<TokenKindView> {
    match item {
        ItemView::Stmt(s) => spelling_stmt(s),
    }
}

/// Each item is spelled by the tokens at its start, no start lies before `from`,
/// and each item ends before the next starts.
pub open spec fn items_placed(
    tokens: Seq<TokenView>,
    items: Seq<ItemView>,
    starts: Seq<int>,
    from: int,
) -> bool {
    &&& starts.len() == items.len()
    &&& forall|k: int|
        0 <= k < items.len() ==> {
            &&& from <= #[trigger] starts[k]
            &&& spelled_at(
                tokens,
                starts[k],
                spelling_item(items[k]).len(),
                spelling_item(items[k]),
            )
        }
    &&& forall|k: int, l: int|
        0 <= k < l < items.len() ==> #[trigger] starts[k] + spelling_item(items[k]).len()
            <= #[trigger] starts[l]
}

/// Where parsing recorded no diagnostic, no garbage is in the module: every item
/// is spelled in full by tokens of the input, and the items stand in the module
/// in the order of those tokens, none overlapping another. The positions returned
/// are where the items start.
pub proof fn lemma_module_sound(tokens: Seq<TokenView>, i: int) -> (starts: Seq<int>)
    requires
        0 <= i,
        module_from(tokens, i).diagnostics.len() == 0,
    ensures
        items_placed(tokens, module_from(tokens, i).items, starts, i),
    decreases tokens.len() - i,
{
    if at_end(tokens, i) {
        Seq::empty()
    } else {
        let s = stmt(tokens, i);
        let p = i + s.used;
        lemma_stmt_bounds(tokens, i);
        match s.value {
            Some(value) => {
                lemma_stmt_sound(tokens, i);
                let rest = lemma_module_sound(tokens, p);
                let items = module_from(tokens, i).items;
                let tail = module_from(tokens, p).items;
                let starts = seq![i] + rest;
                assert(items =~= seq![ItemView::Stmt(value)] + tail);
                assert forall|k: int| 0 <= k < items.len() implies {
                    &&& i <= #[trigger] starts[k]
                    &&& spelled_at(
                        tokens,
                        starts[k],
                        spelling_item(items[k]).len(),
                        spelling_item(items[k]),
                    )
                } by {
                    if k > 0 {
                        assert(starts[k] == rest[k - 1]);
                        assert(items[k] == tail[k - 1]);
                    }
                }
                assert forall|k: int, l: int| 0 <= k < l < items.len() implies #[trigger] starts[k]
                    + spelling_item(items[k]).len() <= #[trigger] starts[l] by {
                    assert(starts[l] == rest[l - 1]);
                    assert(items[l] == tail[l - 1]);
                    if k > 0 {
                        assert(starts[k] == rest[k - 1]);
                        assert(items[k] == tail[k - 1]);
                    }
                }
                starts
            },
            None => {
                let next = p + recovery_len(tokens, p);
                let starts = lemma_module_sound(tokens, next);
                starts
            },
        }
    }
}

/// A spelling is never empty, and starts with a name, an integer or a string.
pub proof fn lemma_spelling_head(e: ExprView)
    ensures
        spelling(e).len() >= 1,
        spelling(e)[0] is Ident || spelling(e)[0] is Int || spelling(e)[0] is Str,
        e is Call ==> spelling(e).len() >= 3 && spelling(e)[1] is LParen,
        !(e is Call) ==> spelling(e).len() == 1,
{
}

/// Tokens that spell an expression are parsed as that expression, with all of
/// them consumed and nothing recorded. A lone name must not have `(` behind it:
/// that would start a call.
pub proof fn lemma_expr_complete(tokens: Seq<TokenView>, i: int, e: ExprView)
    requires
        spelled_at(tokens, i, spelling(e).len(), spelling(e)),
        e is Ident ==> kind_at(tokens, i + 1) != Some(TokenKindView::LParen),
    ensures
        expr(tokens, i) == (Parsed {
            value: Some(e),
            used: spelling(e).len(),
            diagnostics: Seq::empty(),
        }),
    decreases e,
{
    let ks = kinds(tokens);
    let sp = spelling(e);
    lemma_spelling_head(e);
    assert(ks.subrange(i, i + sp.len())[0] == sp[0]);
    match e {
        ExprView::Call { callee, args } => {
            let list = spelling_list(args);
            assert(ks.subrange(i, i + sp.len())[1] == sp[1]);
            assert(sp.len() == 3 + list.len());
            if args.len() == 0 {
                assert(ks.subrange(i, i + sp.len())[2] == sp[2]);
            } else {
                lemma_spelling_head(args[0]);
                assert(list[0] == spelling(args[0])[0]);
                assert(ks.subrange(i, i + sp.len())[2] == sp[2]);
                assert(ks.subrange(i + 2, i + sp.len()) =~= list + seq![TokenKindView::RParen])
                    by {
                    assert forall|k: int| 0 <= k < list.len() + 1 implies ks.subrange(
                        i + 2,
                        i + sp.len(),
                    )[k] == (list + seq![TokenKindView::RParen])[k] by {
                        assert(ks.subrange(i, i + sp.len())[k + 2] == sp[k + 2]);
                    }
                }
                lemma_arguments_complete(tokens, i + 2, callee, Seq::empty(), args);
                assert(Seq::<ExprView>::empty() + args =~= args);
            }
        },
        _ => {},
    }
}

/// Tokens that spell a list of arguments and `)` are parsed as the rest of a
/// call: the call stands with the arguments read before and those of the list.
pub proof fn lemma_arguments_complete(
    tokens: Seq<TokenView>,
    i: int,
    callee: Seq<char>,
    before: Seq<ExprView>,
    more: Seq<ExprView>,
)
    requires
        more.len() >= 1,
        spelled_at(
            tokens,
            i,
            spelling_list(more).len() + 1,
            spelling_list(more) + seq![TokenKindView::RParen],
        ),
    ensures
        arguments(tokens, i, callee, before) == (Parsed {
            value: Some(ExprView::Call { callee, args: before + more }),
            used: spelling_list(more).len() + 1,
            diagnostics: Seq::empty(),
        }),
    decreases more,
{
    let ks = kinds(tokens);
    let list = spelling_list(more);
    let want = list + seq![TokenKindView::RParen];
    let first = more[0];
    let sp = spelling(first);
    let p = i + sp.len();
    lemma_spelling_head(first);
    assert(ks.subrange(i, i + sp.len()) =~= sp) by {
        assert forall|k: int| 0 <= k < sp.len() implies ks.subrange(i, i + sp.len())[k]
            == sp[k] by {
            assert(ks.subrange(i, i + want.len())[k] == want[k]);
        }
    }
    assert(ks.subrange(i, i + want.len())[sp.len() as int] == want[sp.len() as int]);
    if more.len() == 1 {
        assert(kind_at(tokens, p) == Some(TokenKindView::RParen));
        lemma_expr_complete(tokens, i, first);
        assert(before.push(first) =~= before + more);
        assert(expr(tokens, i).diagnostics =~= Seq::empty());
    } else {
        let rest = more.drop_first();
        let rest_list = spelling_list(rest);
        assert(kind_at(tokens, p) == Some(TokenKindView::Comma));
        lemma_expr_complete(tokens, i, first);
        assert(ks.subrange(p + 1, i + want.len()) =~= rest_list + seq![TokenKindView::RParen])
            by {
            assert forall|k: int| 0 <= k < rest_list.len() + 1 implies ks.subrange(
                p + 1,
                i + want.len(),
            )[k] == (rest_list + seq![TokenKindView::RParen])[k] by {
                assert(ks.subrange(i, i + want.len())[k + sp.len() + 1] == want[k + sp.len()
                    + 1]);
            }
        }
        lemma_arguments_complete(tokens, p + 1, callee, before.push(first), rest);
        assert(before.push(first) + rest =~= before + more);
        assert(expr(tokens, i).diagnostics + Seq::<crate::diagnostic::DiagnosticView>::empty()
            =~= Seq::empty());
    }
}

/// The expression of a statement.
pub open spec fn stmt_expr(s: StmtView) -> ExprView {
    match s {
        StmtView::Let { name, expr } => expr,
        StmtView::Expr(e) => e,
    }
}

/// Whether a statement is an expression whose first token is the name `let`,
/// which the parser takes for the start of a `let` statement.
pub open spec fn reads_as_let(s: StmtView) -> bool {
    s is Expr && spelling(stmt_expr(s))[0] == TokenKindView::Ident("let"@)
}

/// Tokens that spell a statement are parsed as that statement, with all of them
/// consumed and nothing recorded. The statement must not be an expression that
/// starts with the name `let`, and an expression that is a lone name must not have
/// `(` behind it.
pub proof fn lemma_stmt_complete(tokens: Seq<TokenView>, i: int, s: StmtView)
    requires
        spelled_at(tokens, i, spelling_stmt(s).len(), spelling_stmt(s)),
        !reads_as_let(s),
        stmt_expr(s) is Ident ==> kind_at(tokens, i + spelling_stmt(s).len()) != Some(
            TokenKindView::LParen,
        ),
    ensures
        stmt(tokens, i) == (Parsed {
            value: Some(s),
            used: spelling_stmt(s).len(),
            diagnostics: Seq::empty(),
        }),
{
    let ks = kinds(tokens);
    let sp = spelling_stmt(s);
    let e = stmt_expr(s);
    lemma_spelling_head(e);
    assert(ks.subrange(i, i + sp.len())[0] == sp[0]);
    match s {
        StmtView::Let { name, expr } => {
            assert(ks.subrange(i, i + sp.len())[1] == sp[1]);
            assert(ks.subrange(i, i + sp.len())[2] == sp[2]);
            assert(ks.subrange(i + 3, i + sp.len()) =~= spelling(e)) by {
                assert forall|k: int| 0 <= k < spelling(e).len() implies ks.subrange(
                    i + 3,
                    i + sp.len(),
                )[k] == spelling(e)[k] by {
                    assert(ks.subrange(i, i + sp.len())[k + 3] == sp[k + 3]);
                }
            }
            lemma_expr_complete(tokens, i + 3, e);
        },
        StmtView::Expr(_) => {
            lemma_expr_complete(tokens, i, e);
        },
    }
}

/// The tokens that spell a sequence of items: their spellings, one after another.
pub open spec fn spelling_items(items: Seq<ItemView>) -> Seq<TokenKindView>
    decreases items.len(),
{
    if items.len() == 0 {
        Seq::empty()
    } else {
        spelling_item(items[0]) + spelling_items(items.drop_first())
    }
}

/// The statement of an item.
pub open spec fn item_stmt(item: ItemView) -> StmtView {
    match item {
        ItemView::Stmt(s) => s,
    }
}

/// Tokens that spell a sequence of items, up to the end of the input, are parsed
/// as exactly those items, with nothing recorded. No item may be an expression
/// that starts with the name `let`.
pub proof fn lemma_module_complete(tokens: Seq<TokenView>, i: int, items: Seq<ItemView>)
    requires
        spelled_at(tokens, i, spelling_items(items).len(), spelling_items(items)),
        at_end(tokens, i + spelling_items(items).len()),
        forall|k: int| 0 <= k < items.len() ==> !reads_as_let(item_stmt(#[trigger] items[k])),
    ensures
        module_from(tokens, i).items == items,
        module_from(tokens, i).diagnostics == Seq::<crate::diagnostic::DiagnosticView>::empty(),
    decreases items.len(),
{
    let ks = kinds(tokens);
    let all = spelling_items(items);
    if items.len() == 0 {
        assert(module_from(tokens, i).items =~= items);
    } else {
        let s = item_stmt(items[0]);
        let sp = spelling_stmt(s);
        let rest = items.drop_first();
        let rest_sp = spelling_items(rest);
        let p = i + sp.len();
        lemma_spelling_head(stmt_expr(s));
        assert(ks.subrange(i, i + all.len())[0] == all[0]);
        assert(!at_end(tokens, i));
        assert(ks.subrange(i, p) =~= sp) by {
            assert forall|k: int| 0 <= k < sp.len() implies ks.subrange(i, p)[k] == sp[k] by {
                assert(ks.subrange(i, i + all.len())[k] == all[k]);
            }
        }
        assert(ks.subrange(p, i + all.len()) =~= rest_sp) by {
            assert forall|k: int| 0 <= k < rest_sp.len() implies ks.subrange(p, i + all.len())[k]
                == rest_sp[k] by {
                assert(ks.subrange(i, i + all.len())[k + sp.len()] == all[k + sp.len()]);
            }
        }
        if rest.len() > 0 {
            lemma_spelling_head(stmt_expr(item_stmt(rest[0])));
            assert(ks.subrange(p, i + all.len())[0] == rest_sp[0]);
        }
        lemma_stmt_complete(tokens, i, s);
        assert forall|k: int| 0 <= k < rest.len() implies !reads_as_let(
            item_stmt(#[trigger] rest[k]),
        ) by {
            assert(rest[k] == items[k + 1]);
        }
        lemma_module_complete(tokens, p, rest);
        assert(module_from(tokens, i).items =~= items);
        assert(module_from(tokens, i).diagnostics =~= Seq::empty());
    }
}

} // verus!
