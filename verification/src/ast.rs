//! The syntax tree, and what each of its types stands for in contracts.

use crate::decimal::Decimal;
use vstd::prelude::*;

verus! {

/// The type that a parameter is declared with.
#[derive(Clone, Copy, Debug, PartialEq, Eq, Structural)]
pub enum Type {
    Float,
}

/// An expression as it is written.
#[derive(Debug, PartialEq, Eq)]
pub enum Expr {
    /// A name that stands for what it was bound to.
    Var(String),
    /// A symbolic atom: a name that stands for itself.
    FreeVar(String),
    /// A decimal literal.
    Num(Decimal),
    /// The sum of two expressions.
    Plus(Box<Expr>, Box<Expr>),
    /// A function's name applied to arguments.
    Call(String, Vec<Expr>),
}

/// `name = expr`: binds the name to the expression's value. Only a statement
/// whose flag is set may bind a name that is bound already.
#[derive(Clone, Debug, PartialEq, Eq)]
pub enum Statement {
    Assign(bool, String, Expr),
}

/// A named scope: its name, its typed parameters and its statements.
#[derive(Clone, Debug, PartialEq, Eq)]
pub enum Block {
    Fun(String, Vec<(String, Type)>, Vec<Statement>),
}

/// The blocks of a source text, in the order in which they were written.
#[derive(Clone, Debug, PartialEq, Eq)]
pub struct Program(pub Vec<Block>);

/// What an `Expr` stands for.
pub enum ExprView {
    Var(Seq<char>),
    FreeVar(Seq<char>),
    Num(Seq<char>),
    Plus(Box<ExprView>, Box<ExprView>),
    Call(Seq<char>, Seq<ExprView>),
}

/// What a `Statement` stands for.
pub enum StatementView {
    Assign(bool, Seq<char>, ExprView),
}

/// What a `Block` stands for.
pub enum BlockView {
    Fun(Seq<char>, Seq<(Seq<char>, Type)>, Seq<StatementView>),
}

impl Expr {
    /// What the expression stands for.
    pub open spec fn view(&self) -> ExprView
        decreases self, 0int,
    {
        match self {
            Expr::Var(x) => ExprView::Var(x@),
            Expr::FreeVar(x) => ExprView::FreeVar(x@),
            Expr::Num(d) => ExprView::Num(d@),
            Expr::Plus(a, b) => ExprView::Plus(Box::new(a.view()), Box::new(b.view())),
            Expr::Call(f, args) => ExprView::Call(f@, Expr::views(args@)),
        }
    }

    /// What each expression of a list stands for.
    pub open spec fn views(list: Seq<Expr>) -> Seq<ExprView>
        decreases list, 1int,
    {
        Seq::new(
            list.len(),
            |i: int|
                if 0 <= i < list.len() {
                    list[i].view()
                } else {
                    ExprView::Var(Seq::empty())
                },
        )
    }

    /// The views of a list that grows by one grow by that one's view.
    pub proof fn lemma_views_push(list: Seq<Expr>, last: Expr)
        ensures
            Expr::views(list.push(last)) == Expr::views(list).push(last@),
    {
        assert(Expr::views(list.push(last)) =~= Expr::views(list).push(last@));
    }
}

impl Statement {
    /// What the statement stands for.
    pub open spec fn view(&self) -> StatementView {
        match self {
            Statement::Assign(mutable, name, expr) => StatementView::Assign(
                *mutable,
                name@,
                expr@,
            ),
        }
    }

    /// What each statement of a list stands for.
    pub open spec fn views(list: Seq<Statement>) -> Seq<StatementView> {
        Seq::new(list.len(), |i: int| list[i]@)
    }

    /// The views of a list that grows by one grow by that one's view.
    pub proof fn lemma_views_push(list: Seq<Statement>, last: Statement)
        ensures
            Statement::views(list.push(last)) == Statement::views(list).push(last@),
    {
        assert(Statement::views(list.push(last)) =~= Statement::views(list).push(last@));
    }
}

/// What a list of parameters stands for.
pub open spec fn params_view(list: Seq<(String, Type)>) -> Seq<(Seq<char>, Type)> {
    Seq::new(list.len(), |i: int| (list[i].0@, list[i].1))
}

/// The view of a list of parameters that grows by one grows by that one's view.
pub proof fn lemma_params_push(list: Seq<(String, Type)>, last: (String, Type))
    ensures
        params_view(list.push(last)) == params_view(list).push((last.0@, last.1)),
{
    assert(params_view(list.push(last)) =~= params_view(list).push((last.0@, last.1)));
}

impl Block {
    /// What the block stands for.
    pub open spec fn view(&self) -> BlockView {
        match self {
            Block::Fun(name, params, body) => BlockView::Fun(
                name@,
                params_view(params@),
                Statement::views(body@),
            ),
        }
    }

    /// What each block of a list stands for.
    pub open spec fn views(list: Seq<Block>) -> Seq<BlockView> {
        Seq::new(list.len(), |i: int| list[i]@)
    }

    /// The views of a list that grows by one grow by that one's view.
    pub proof fn lemma_views_push(list: Seq<Block>, last: Block)
        ensures
            Block::views(list.push(last)) == Block::views(list).push(last@),
    {
        assert(Block::views(list.push(last)) =~= Block::views(list).push(last@));
    }
}

impl Program {
    /// What the program stands for: what each of its blocks stands for.
    pub open spec fn view(&self) -> Seq<BlockView> {
        Block::views(self.0@)
    }
}

impl Clone for Expr {
    /// A copy stands for the same expression.
    fn clone(&self) -> (copy: Expr)
        ensures
            copy@ == self@,
        decreases self,
    {
        match self {
            Expr::Var(x) => Expr::Var(x.clone()),
            Expr::FreeVar(x) => Expr::FreeVar(x.clone()),
            Expr::Num(d) => Expr::Num(d.clone()),
            Expr::Plus(a, b) => Expr::Plus(Box::new((&**a).clone()), Box::new((&**b).clone())),
            Expr::Call(f, args) => {
                let mut copies: Vec<Expr> = Vec::new();
                let mut i: usize = 0;
                while i < args.len()
                    invariant
                        *self == Expr::Call(*f, *args),
                        i <= args.len(),
                        Expr::views(copies@) == Expr::views(args@.take(i as int)),
                    decreases args.len() - i,
                {
                    proof {
                        assert(decreases_to!(*self => self->Call_1));
                        assert(decreases_to!(self->Call_1 => self->Call_1[i as int]));
                        Expr::lemma_views_push(copies@, args[i as int]);
                        Expr::lemma_views_push(args@.take(i as int), args[i as int]);
                        assert(args@.take(i as int).push(args[i as int]) == args@.take(i + 1));
                    }
                    copies.push(args[i].clone());
                    i += 1;
                }
                assert(args@.take(i as int) == args@);
                Expr::Call(f.clone(), copies)
            },
        }
    }
}

} // verus!
