//! Evaluation by substitution: each statement of the entry block binds its
//! name to a symbolic tree. Nothing is computed: a sum stays a call of `+`.

use crate::ast::{Block, BlockView, Expr, ExprView, Program, Statement, StatementView};
use crate::decimal::Decimal;
use vstd::prelude::*;
use vstd::string::StringExecFns;

verus! {

/// A symbolic value: what an expression is once its variables are replaced by
/// what they are bound to.
#[derive(Debug, PartialEq, Eq)]
pub enum Tree {
    /// A symbolic atom.
    FreeVar(String),
    /// A number.
    Num(Decimal),
    /// A function's name applied to arguments; the name is a label and stands
    /// for nothing else.
    Call(String, Vec<Tree>),
}

/// What a `Tree` stands for.
pub enum TreeView {
    FreeVar(Seq<char>),
    Num(Seq<char>),
    Call(Seq<char>, Seq<TreeView>),
}

/// Why a program has no value.
#[derive(Clone, Debug, PartialEq, Eq)]
pub enum EvalError {
    /// A statement binds the name, which is bound already, without leave to do so.
    Redefinition(String),
    /// An expression refers to the name, which no statement before it has bound.
    UndefinedVariable(String),
    /// No block is named `main` and takes no parameters.
    MissingMain,
    /// More than one block is named `main` and takes no parameters.
    MultipleMain,
}

/// What an `EvalError` stands for.
pub enum EvalFault {
    Redefinition(Seq<char>),
    UndefinedVariable(Seq<char>),
    MissingMain,
    MultipleMain,
}

/// The names that are bound, each with its value, in the order of the
/// statements that bound them.
pub type Bindings = Seq<(Seq<char>, TreeView)>;

impl Tree {
    /// What the tree stands for.
    pub open spec fn view(&self) -> TreeView
        decreases self, 0int,
    {
        match self {
            Tree::FreeVar(x) => TreeView::FreeVar(x@),
            Tree::Num(d) => TreeView::Num(d@),
            Tree::Call(f, args) => TreeView::Call(f@, Tree::views(args@)),
        }
    }

    /// What each tree of a list stands for.
    pub open spec fn views(list: Seq<Tree>) -> Seq<TreeView>
        decreases list, 1int,
    {
        Seq::new(
            list.len(),
            |i: int|
                if 0 <= i < list.len() {
                    list[i].view()
                } else {
                    TreeView::FreeVar(Seq::empty())
                },
        )
    }

    /// The views of a list that grows by one grow by that one's view.
    pub proof fn lemma_views_push(list: Seq<Tree>, last: Tree)
        ensures
            Tree::views(list.push(last)) == Tree::views(list).push(last@),
    {
        assert(Tree::views(list.push(last)) =~= Tree::views(list).push(last@));
    }
}

impl Clone for Tree {
    /// A copy stands for the same tree.
    fn clone(&self) -> (copy: Tree)
        ensures
            copy@ == self@,
        decreases self,
    {
        match self {
            Tree::FreeVar(x) => Tree::FreeVar(x.clone()),
            Tree::Num(d) => Tree::Num(d.clone()),
            Tree::Call(f, args) => {
                let mut copies: Vec<Tree> = Vec::new();
                let mut i: usize = 0;
                while i < args.len()
                    invariant
                        *self == Tree::Call(*f, *args),
                        i <= args.len(),
                        Tree::views(copies@) == Tree::views(args@.take(i as int)),
                    decreases args.len() - i,
                {
                    proof {
                        assert(decreases_to!(*self => self->Call_1));
                        assert(decreases_to!(self->Call_1 => self->Call_1[i as int]));
                        Tree::lemma_views_push(copies@, args[i as int]);
                        Tree::lemma_views_push(args@.take(i as int), args[i as int]);
                        assert(args@.take(i as int).push(args[i as int]) == args@.take(i + 1));
                    }
                    copies.push(args[i].clone());
                    i += 1;
                }
                assert(args@.take(i as int) == args@);
                Tree::Call(f.clone(), copies)
            },
        }
    }
}

impl EvalError {
    /// What the error stands for.
    pub open spec fn view(&self) -> EvalFault {
        match self {
            EvalError::Redefinition(x) => EvalFault::Redefinition(x@),
            EvalError::UndefinedVariable(x) => EvalFault::UndefinedVariable(x@),
            EvalError::MissingMain => EvalFault::MissingMain,
            EvalError::MultipleMain => EvalFault::MultipleMain,
        }
    }
}

/// What a list of bindings stands for.
pub open spec fn bindings_view(list: Seq<(String, Tree)>) -> Bindings {
    Seq::new(list.len(), |i: int| (list[i].0@, list[i].1@))
}

/// The view of a list of bindings that grows by one grows by that one's view.
pub proof fn lemma_bindings_push(list: Seq<(String, Tree)>, last: (String, Tree))
    ensures
        bindings_view(list.push(last)) == bindings_view(list).push((last.0@, last.1@)),
{
    assert(bindings_view(list.push(last)) =~= bindings_view(list).push((last.0@, last.1@)));
}

/// What a tree or an error stands for.
pub open spec fn tree_result(r: Result<Tree, EvalError>) -> Result<TreeView, EvalFault> {
    match r {
        Ok(tree) => Ok(tree@),
        Err(error) => Err(error@),
    }
}

/// What a list of bindings or an error stands for.
pub open spec fn bindings_result(r: Result<Vec<(String, Tree)>, EvalError>) -> Result<
    Bindings,
    EvalFault,
> {
    match r {
        Ok(list) => Ok(bindings_view(list@)),
        Err(error) => Err(error@),
    }
}

/// What `name` is bound to: the value of its last binding, if it has one.
pub open spec fn lookup(env: Bindings, name: Seq<char>) -> Option<TreeView>
    decreases env.len(),
{
    if env.len() == 0 {
        None
    } else if env.last().0 == name {
        Some(env.last().1)
    } else {
        lookup(env.drop_last(), name)
    }
}

/// The name of the call that a sum becomes.
pub open spec fn plus() -> Seq<char> {
    seq!['+']
}

/// The value of an expression where `env` holds the bindings: its variables
/// give way to what they are bound to, a sum becomes a call of `+`, and all
/// else stays. The first variable that is not bound, going from left to
/// right, is the error.
pub open spec fn eval(env: Bindings, e: ExprView) -> Result<TreeView, EvalFault>
    decreases e, 0int,
{
    match e {
        ExprView::Var(x) => match lookup(env, x) {
            Some(tree) => Ok(tree),
            None => Err(EvalFault::UndefinedVariable(x)),
        },
        ExprView::FreeVar(x) => Ok(TreeView::FreeVar(x)),
        ExprView::Num(d) => Ok(TreeView::Num(d)),
        ExprView::Plus(a, b) => match eval(env, *a) {
            Ok(left) => match eval(env, *b) {
                Ok(right) => Ok(TreeView::Call(plus(), seq![left, right])),
                Err(fault) => Err(fault),
            },
            Err(fault) => Err(fault),
        },
        ExprView::Call(f, args) => match eval_from(env, args, 0, Seq::empty()) {
            Ok(trees) => Ok(TreeView::Call(f, trees)),
            Err(fault) => Err(fault),
        },
    }
}

/// The values of the expressions of `list` from `from` on, after those in
/// `done`; the first error ends it.
pub open spec fn eval_from(env: Bindings, list: Seq<ExprView>, from: int, done: Seq<TreeView>)
    -> Result<Seq<TreeView>, EvalFault>
    decreases list, list.len() - from,
{
    if 0 <= from < list.len() {
        match eval(env, list[from]) {
            Ok(tree) => eval_from(env, list, from + 1, done.push(tree)),
            Err(fault) => Err(fault),
        }
    } else {
        Ok(done)
    }
}

/// The bindings after the statements of `list` from `from` on, where `env`
/// holds the bindings before them. A statement that may not rebind fails on a
/// name that is bound, before its expression is looked at; else its
/// expression's value is bound to its name, after the bindings so far.
pub open spec fn perform_from(list: Seq<StatementView>, from: int, env: Bindings) -> Result<
    Bindings,
    EvalFault,
>
    decreases list.len() - from,
{
    if 0 <= from < list.len() {
        match list[from] {
            StatementView::Assign(mutable, name, value) => if !mutable && lookup(env, name)
                is Some {
                Err(EvalFault::Redefinition(name))
            } else {
                match eval(env, value) {
                    Ok(tree) => perform_from(list, from + 1, env.push((name, tree))),
                    Err(fault) => Err(fault),
                }
            },
        }
    } else {
        Ok(env)
    }
}

/// The bindings that the statements of `list` make, one for each statement.
pub open spec fn perform(list: Seq<StatementView>) -> Result<Bindings, EvalFault> {
    perform_from(list, 0, Seq::empty())
}

/// Whether a block is an entry point: it is named `main` and takes no parameters.
pub open spec fn is_main(scope: BlockView) -> bool {
    match scope {
        BlockView::Fun(name, params, _) => name == "main"@ && params.len() == 0,
    }
}

/// The test of `is_main`, as a value that a filter takes.
pub open spec fn main_test() -> spec_fn(BlockView) -> bool {
    |scope: BlockView| is_main(scope)
}

/// The entry points among `blocks`, in their order.
pub open spec fn mains(blocks: Seq<BlockView>) -> Seq<BlockView> {
    blocks.filter(main_test())
}

/// The statements of a block.
pub open spec fn body(scope: BlockView) -> Seq<StatementView> {
    match scope {
        BlockView::Fun(_, _, statements) => statements,
    }
}

/// The value of a program: the bindings that its one entry point makes. That
/// there is exactly one is settled before any statement is looked at.
pub open spec fn run(blocks: Seq<BlockView>) -> Result<Bindings, EvalFault> {
    if mains(blocks).len() == 0 {
        Err(EvalFault::MissingMain)
    } else if mains(blocks).len() > 1 {
        Err(EvalFault::MultipleMain)
    } else {
        perform(body(mains(blocks)[0]))
    }
}

/// Finds what `name` is bound to.
pub fn find<'a>(env: &'a Vec<(String, Tree)>, name: &String) -> (r: Option<&'a Tree>)
    ensures
        match lookup(bindings_view(env@), name@) {
            Some(tree) => r matches Some(found) && found@ == tree,
            None => r is None,
        },
{
    let ghost all = bindings_view(env@);
    let mut i = env.len();
    assert(all.take(i as int) == all);
    while i > 0
        invariant
            i <= env.len(),
            all == bindings_view(env@),
            lookup(all, name@) == lookup(all.take(i as int), name@),
        decreases i,
    {
        i -= 1;
        assert(all.take(i + 1).drop_last() == all.take(i as int));
        if env[i].0 == *name {
            return Some(&env[i].1);
        }
    }
    None
}

impl Program {
    /// Evaluates an expression where `env` holds the bindings.
    pub fn eval(&self, env: &Vec<(String, Tree)>, e: &Expr) -> (r: Result<Tree, EvalError>)
        ensures
            tree_result(r) == eval(bindings_view(env@), e@),
        decreases e,
    {
        match e {
            Expr::Var(x) => match find(env, x) {
                Some(tree) => Ok(tree.clone()),
                None => Err(EvalError::UndefinedVariable(x.clone())),
            },
            Expr::FreeVar(x) => Ok(Tree::FreeVar(x.clone())),
            Expr::Num(d) => Ok(Tree::Num(d.clone())),
            Expr::Plus(a, b) => {
                let left = match self.eval(env, &**a) {
                    Ok(tree) => tree,
                    Err(error) => {
                        return Err(error);
                    },
                };
                let right = match self.eval(env, &**b) {
                    Ok(tree) => tree,
                    Err(error) => {
                        return Err(error);
                    },
                };
                let mut pair: Vec<Tree> = Vec::new();
                pair.push(left);
                pair.push(right);
                let name = String::from_str("+");
                proof {
                    reveal_strlit("+");
                    assert(name@ =~= plus());
                    assert(Tree::views(pair@) =~= seq![left@, right@]);
                }
                Ok(Tree::Call(name, pair))
            },
            Expr::Call(f, args) => {
                let mut trees: Vec<Tree> = Vec::new();
                let mut i: usize = 0;
                assert(Tree::views(trees@) =~= Seq::empty());
                while i < args.len()
                    invariant
                        *e == Expr::Call(*f, *args),
                        i <= args.len(),
                        eval_from(bindings_view(env@), Expr::views(args@), 0, Seq::empty())
                            == eval_from(
                            bindings_view(env@),
                            Expr::views(args@),
                            i as int,
                            Tree::views(trees@),
                        ),
                    decreases args.len() - i,
                {
                    proof {
                        assert(decreases_to!(*e => e->Call_1));
                        assert(decreases_to!(e->Call_1 => e->Call_1[i as int]));
                    }
                    match self.eval(env, &args[i]) {
                        Ok(tree) => {
                            proof {
                                Tree::lemma_views_push(trees@, tree);
                            }
                            trees.push(tree);
                        },
                        Err(error) => {
                            return Err(error);
                        },
                    }
                    i += 1;
                }
                Ok(Tree::Call(f.clone(), trees))
            },
        }
    }

    /// Performs statements in their order, from no bindings, and hands out the
    /// bindings that they make.
    pub fn perform(&self, stmts: &[Statement]) -> (r: Result<Vec<(String, Tree)>, EvalError>)
        ensures
            bindings_result(r) == perform(Statement::views(stmts@)),
    {
        let mut env: Vec<(String, Tree)> = Vec::new();
        let mut i: usize = 0;
        assert(bindings_view(env@) =~= Seq::empty());
        while i < stmts.len()
            invariant
                i <= stmts.len(),
                perform(Statement::views(stmts@)) == perform_from(
                    Statement::views(stmts@),
                    i as int,
                    bindings_view(env@),
                ),
            decreases stmts.len() - i,
        {
            match &stmts[i] {
                Statement::Assign(mutable, name, value) => {
                    if !*mutable && find(&env, name).is_some() {
                        return Err(EvalError::Redefinition(name.clone()));
                    }
                    match self.eval(&env, value) {
                        Ok(tree) => {
                            let bound = (name.clone(), tree);
                            proof {
                                lemma_bindings_push(env@, bound);
                            }
                            env.push(bound);
                        },
                        Err(error) => {
                            return Err(error);
                        },
                    }
                },
            }
            i += 1;
        }
        Ok(env)
    }

    /// Evaluates the program: finds its one entry point and performs its statements.
    pub fn run(&self) -> (r: Result<Vec<(String, Tree)>, EvalError>)
        ensures
            bindings_result(r) == run(self@),
    {
        let main = String::from_str("main");
        let mut entry: Option<usize> = None;
        let mut i: usize = 0;
        proof {
            reveal(Seq::filter);
            assert(self@.take(0).len() == 0);
        }
        while i < self.0.len()
            invariant
                i <= self.0.len(),
                main@ == "main"@,
                match entry {
                    None => mains(self@.take(i as int)).len() == 0,
                    Some(k) => k < i && mains(self@.take(i as int)) == seq![self@[k as int]],
                },
            decreases self.0.len() - i,
        {
            proof {
                assert(self@.take(i + 1) == self@.take(i as int).push(self@[i as int]));
                self@.take(i as int).lemma_filter_push(self@[i as int], main_test());
            }
            match &self.0[i] {
                Block::Fun(name, params, _) => {
                    if *name == main && params.len() == 0 {
                        if entry.is_some() {
                            proof {
                                lemma_mains_grow(self@, i as int + 1);
                            }
                            return Err(EvalError::MultipleMain);
                        }
                        entry = Some(i);
                    }
                },
            }
            i += 1;
        }
        assert(self@.take(i as int) == self@);
        match entry {
            None => Err(EvalError::MissingMain),
            Some(k) => match &self.0[k] {
                Block::Fun(_, _, statements) => self.perform(statements.as_slice()),
            },
        }
    }
}

/// A program has at least as many entry points as any of its beginnings.
pub proof fn lemma_mains_grow(blocks: Seq<BlockView>, upto: int)
    requires
        0 <= upto <= blocks.len(),
    ensures
        mains(blocks.take(upto)).len() <= mains(blocks).len(),
{
    blocks.lemma_filter_take_len(main_test(), upto);
}

} // verus!
