//! The syntax tree that the parser builds.

use vstd::prelude::*;

verus! {

/// A name as written in the source.
#[derive(Debug, Clone, PartialEq, Eq)]
pub struct Ident {
    pub name: String,
}

/// An expression.
#[derive(Debug, PartialEq, Eq)]
pub enum Expr {
    Ident(Ident),
    Int(i64),
    Str(String),
    Call { callee: Ident, args: Vec<Expr> },
}

/// A statement.
#[derive(Debug, Clone, PartialEq, Eq)]
pub enum Stmt {
    Let { name: Ident, expr: Expr },
    Expr(Expr),
}

/// A top-level item of a module.
#[derive(Debug, Clone, PartialEq, Eq)]
pub enum Item {
    Stmt(Stmt),
}

/// A whole source text, parsed.
#[derive(Debug, Clone, Default, PartialEq, Eq)]
pub struct Module {
    pub items: Vec<Item>,
}

/// The mathematical value of an [`Expr`].
pub enum ExprView {
    Ident(Seq<char>),
    Int(i64),
    Str(Seq<char>),
    Call { callee: Seq<char>, args: Seq<ExprView> },
}

/// The mathematical value of a [`Stmt`].
pub enum StmtView {
    Let { name: Seq<char>, expr: ExprView },
    Expr(ExprView),
}

/// The mathematical value of an [`Item`].
pub enum ItemView {
    Stmt(StmtView),
}

impl View for Ident {
    type V = Seq<char>;

    open spec fn view(&self) -> Seq<char> {
        self.name@
    }
}

/// The values of the first `n` of `args`, in order.
pub open spec fn args_prefix_view(args: Vec<Expr>, n: nat) -> Seq<ExprView>
    decreases args, n,
{
    if 0 < n <= args.len() {
        args_prefix_view(args, (n - 1) as nat).push(args[n - 1].view())
    } else {
        Seq::empty()
    }
}

impl View for Expr {
    type V = ExprView;

    open spec fn view(&self) -> ExprView
        decreases self, 0nat,
    {
        match self {
            Expr::Ident(id) => ExprView::Ident(id@),
            Expr::Int(n) => ExprView::Int(*n),
            Expr::Str(s) => ExprView::Str(s@),
            Expr::Call { callee, args } => ExprView::Call {
                callee: callee@,
                args: args_prefix_view(*args, args.len() as nat),
            },
        }
    }
}

impl View for Stmt {
    type V = StmtView;

    open spec fn view(&self) -> StmtView {
        match self {
            Stmt::Let { name, expr } => StmtView::Let { name: name@, expr: expr@ },
            Stmt::Expr(e) => StmtView::Expr(e@),
        }
    }
}

impl View for Item {
    type V = ItemView;

    open spec fn view(&self) -> ItemView {
        match self {
            Item::Stmt(s) => ItemView::Stmt(s@),
        }
    }
}

impl View for Module {
    type V = Seq<ItemView>;

    open spec fn view(&self) -> Seq<ItemView> {
        Seq::new(self.items@.len(), |i: int| self.items@[i]@)
    }
}

/// The values of a sequence of expressions, in order.
pub open spec fn exprs_view(es: Seq<Expr>) -> Seq<ExprView> {
    Seq::new(es.len(), |i: int| es[i]@)
}

/// The first `n` values of a vector of expressions, one by one.
pub proof fn lemma_args_prefix_view(args: Vec<Expr>, n: nat)
    requires
        n <= args.len(),
    ensures
        args_prefix_view(args, n) =~= exprs_view(args@.take(n as int)),
    decreases n,
{
    if n > 0 {
        lemma_args_prefix_view(args, (n - 1) as nat);
        let shorter = exprs_view(args@.take(n - 1));
        let whole = exprs_view(args@.take(n as int));
        assert(args[n - 1] == args@[n - 1]);
        assert(whole =~= shorter.push(args@[n - 1]@));
    }
}

/// The value of a call expression is its callee's name and its arguments' values.
pub proof fn lemma_call_view(e: Expr)
    requires
        e is Call,
    ensures
        e@ == (ExprView::Call { callee: e->callee@, args: exprs_view(e->args@) }),
{
    lemma_args_prefix_view(e->args, e->args.len() as nat);
    assert(e->args@.take(e->args.len() as int) =~= e->args@);
}

impl Clone for Expr {
    fn clone(&self) -> (r: Expr)
        ensures
            r@ == self@,
        decreases self,
    {
        match self {
            Expr::Ident(id) => Expr::Ident(Ident { name: id.name.clone() }),
            Expr::Int(n) => Expr::Int(*n),
            Expr::Str(s) => Expr::Str(s.clone()),
            Expr::Call { callee, args } => {
                let mut copy: Vec<Expr> = Vec::new();
                let mut k: usize = 0;
                while k < args.len()
                    invariant
                        k <= args.len(),
                        copy.len() == k,
                        forall|j: int| 0 <= j < k ==> copy@[j]@ == args@[j]@,
                        forall|j: int| 0 <= j < args.len() ==> decreases_to!(self => args[j]),
                    decreases args.len() - k,
                {
                    let e = args[k].clone();
                    copy.push(e);
                    k += 1;
                }
                let r = Expr::Call { callee: Ident { name: callee.name.clone() }, args: copy };
                proof {
                    lemma_call_view(r);
                    lemma_call_view(*self);
                    assert(exprs_view(copy@) =~= exprs_view(args@));
                }
                r
            },
        }
    }
}

} // verus!
