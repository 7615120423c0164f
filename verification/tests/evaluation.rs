use etree::ast::{Block, Expr, Program, Statement, Type};
use etree::decimal::Decimal;
use etree::eval::{find, EvalError, Tree};
use etree::parse::program;

fn text(chars: &str) -> String {
    chars.to_string()
}

fn atom_tree(chars: &str) -> Tree {
    Tree::FreeVar(text(chars))
}

fn number_tree(chars: &str) -> Tree {
    Tree::Num(Decimal::parse(chars).unwrap())
}

fn call_tree(function: &str, args: Vec<Tree>) -> Tree {
    Tree::Call(text(function), args)
}

fn run_text(source: &str) -> Result<Vec<(String, Tree)>, EvalError> {
    program(source).unwrap().run()
}

fn block_named(block: &str, params: Vec<(String, Type)>, body: Vec<Statement>) -> Block {
    Block::Fun(text(block), params, body)
}

#[test]
fn two_atoms_and_their_sum() {
    let bindings = run_text("fn main() { x = 'a; y = 'b; z = x + y; }");
    let expected = vec![
        (text("x"), atom_tree("a")),
        (text("y"), atom_tree("b")),
        (text("z"), call_tree("+", vec![atom_tree("a"), atom_tree("b")])),
    ];
    assert_eq!(bindings, Ok(expected));
}

#[test]
fn a_sum_of_numbers_is_not_added_up() {
    let bindings = run_text("fn main() { z = 1 + 2; }");
    let expected = vec![(text("z"), call_tree("+", vec![number_tree("1"), number_tree("2")]))];
    assert_eq!(bindings, Ok(expected));
}

#[test]
fn a_variable_gives_way_to_its_value_wherever_it_stands() {
    let bindings = run_text("fn main() { a = f('p, 2); b = g(a, a + 'q); }");
    let a = call_tree("f", vec![atom_tree("p"), number_tree("2")]);
    let b = call_tree(
        "g",
        vec![a.clone(), call_tree("+", vec![a.clone(), atom_tree("q")])],
    );
    assert_eq!(bindings, Ok(vec![(text("a"), a), (text("b"), b)]));
}

#[test]
fn the_name_of_a_call_is_never_looked_up() {
    let bindings = run_text("fn main() { f = 'a; y = f(f); }");
    let expected = vec![
        (text("f"), atom_tree("a")),
        (text("y"), call_tree("f", vec![atom_tree("a")])),
    ];
    assert_eq!(bindings, Ok(expected));
}

#[test]
fn a_symbolic_atom_is_never_looked_up() {
    let bindings = run_text("fn main() { a = 1; b = 'a; }");
    let expected = vec![(text("a"), number_tree("1")), (text("b"), atom_tree("a"))];
    assert_eq!(bindings, Ok(expected));
}

#[test]
fn an_empty_main_binds_nothing() {
    assert_eq!(run_text("fn main() { }"), Ok(vec![]));
}

#[test]
fn binding_a_name_twice_is_rejected() {
    assert_eq!(run_text("fn main() { x = 1; x = 2; }"), Err(EvalError::Redefinition(text("x"))));
    assert_eq!(run_text("fn main() { x = 'a; y = x; x = x; }"), Err(EvalError::Redefinition(text("x"))));
}

#[test]
fn binding_a_name_twice_is_rejected_before_the_value_is_looked_at() {
    assert_eq!(
        run_text("fn main() { x = 1; x = nowhere; }"),
        Err(EvalError::Redefinition(text("x")))
    );
}

#[test]
fn a_variable_that_is_not_bound_is_rejected() {
    assert_eq!(run_text("fn main() { y = x; }"), Err(EvalError::UndefinedVariable(text("x"))));
    assert_eq!(run_text("fn main() { x = x; }"), Err(EvalError::UndefinedVariable(text("x"))));
    assert_eq!(
        run_text("fn main() { a = 1; y = f(a, 'b + c, d); }"),
        Err(EvalError::UndefinedVariable(text("c")))
    );
    assert_eq!(
        run_text("fn main() { y = p + q; }"),
        Err(EvalError::UndefinedVariable(text("p")))
    );
}

#[test]
fn a_variable_that_is_bound_later_is_rejected() {
    assert_eq!(
        run_text("fn main() { y = x; x = 1; }"),
        Err(EvalError::UndefinedVariable(text("x")))
    );
}

#[test]
fn parameters_of_other_blocks_and_their_bindings_are_not_seen() {
    assert_eq!(
        run_text("fn f(a: float) { b = a; } fn main() { y = b; }"),
        Err(EvalError::UndefinedVariable(text("b")))
    );
}

#[test]
fn two_mains_are_rejected() {
    assert_eq!(run_text("fn main() { } fn main() { }"), Err(EvalError::MultipleMain));
    assert_eq!(run_text("fn main() { x = 1; } fn f() { } fn main() { y = 2; }"), Err(EvalError::MultipleMain));
}

#[test]
fn two_mains_are_rejected_before_any_statement_is_performed() {
    assert_eq!(
        run_text("fn main() { y = nowhere; } fn main() { }"),
        Err(EvalError::MultipleMain)
    );
    assert_eq!(
        run_text("fn main() { x = 1; x = 2; } fn main() { }"),
        Err(EvalError::MultipleMain)
    );
}

#[test]
fn a_program_without_main_is_rejected() {
    assert_eq!(run_text(""), Err(EvalError::MissingMain));
    assert_eq!(run_text("fn f() { } fn Main() { }"), Err(EvalError::MissingMain));
}

#[test]
fn a_main_with_parameters_is_no_entry_point() {
    assert_eq!(run_text("fn main(a: float) { }"), Err(EvalError::MissingMain));
    let bindings = run_text("fn main(a: float) { x = 1; } fn main() { y = 2; }");
    assert_eq!(bindings, Ok(vec![(text("y"), number_tree("2"))]));
}

#[test]
fn only_main_is_performed() {
    let bindings = run_text("fn f() { x = nowhere; } fn main() { y = 'a; } fn g() { y = 1; y = 2; }");
    assert_eq!(bindings, Ok(vec![(text("y"), atom_tree("a"))]));
}

#[test]
fn a_statement_with_leave_to_rebind_binds_again() {
    let body = vec![
        Statement::Assign(false, text("x"), Expr::FreeVar(text("a"))),
        Statement::Assign(true, text("x"), Expr::Call(text("f"), vec![Expr::Var(text("x"))])),
        Statement::Assign(false, text("y"), Expr::Var(text("x"))),
    ];
    let bindings = Program(vec![block_named("main", vec![], body)]).run();
    let second = call_tree("f", vec![atom_tree("a")]);
    let expected = vec![
        (text("x"), atom_tree("a")),
        (text("x"), second.clone()),
        (text("y"), second),
    ];
    assert_eq!(bindings, Ok(expected));
}

#[test]
fn leave_to_rebind_does_not_reach_the_next_statement() {
    let body = vec![
        Statement::Assign(true, text("x"), Expr::FreeVar(text("a"))),
        Statement::Assign(true, text("x"), Expr::FreeVar(text("b"))),
        Statement::Assign(false, text("x"), Expr::FreeVar(text("c"))),
    ];
    let program = Program(vec![]);
    assert_eq!(program.perform(&body), Err(EvalError::Redefinition(text("x"))));
}

#[test]
fn an_expression_is_evaluated_among_given_bindings() {
    let program = Program(vec![]);
    let env = vec![(text("x"), atom_tree("a")), (text("y"), number_tree("2.50"))];
    let sum = Expr::Plus(Box::new(Expr::Var(text("x"))), Box::new(Expr::Var(text("y"))));
    assert_eq!(
        program.eval(&env, &sum),
        Ok(call_tree("+", vec![atom_tree("a"), number_tree("2.50")]))
    );
    assert_eq!(
        program.eval(&env, &Expr::Var(text("z"))),
        Err(EvalError::UndefinedVariable(text("z")))
    );
    assert_eq!(program.eval(&vec![], &Expr::Call(text("f"), vec![])), Ok(call_tree("f", vec![])));
}

#[test]
fn the_last_binding_of_a_name_is_found() {
    let env = vec![
        (text("x"), atom_tree("a")),
        (text("y"), atom_tree("b")),
        (text("x"), atom_tree("c")),
    ];
    assert_eq!(find(&env, &text("x")), Some(&atom_tree("c")));
    assert_eq!(find(&env, &text("y")), Some(&atom_tree("b")));
    assert_eq!(find(&env, &text("z")), None);
    assert_eq!(find(&vec![], &text("x")), None);
}

#[test]
fn copies_are_equal_to_what_they_copy() {
    let tree = call_tree("f", vec![atom_tree("a"), call_tree("g", vec![number_tree("1.0")])]);
    assert_eq!(tree.clone(), tree);
    let expr = Expr::Call(
        text("f"),
        vec![
            Expr::Plus(Box::new(Expr::Var(text("x"))), Box::new(Expr::FreeVar(text("a")))),
            Expr::Num(Decimal::parse("3.14").unwrap()),
        ],
    );
    assert_eq!(expr.clone(), expr);
    let parsed = program("fn f(a: float) { x = a; }").unwrap();
    assert_eq!(parsed.clone(), parsed);
}
