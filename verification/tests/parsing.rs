use etree::ast::{Block, Expr, Program, Statement, Type};
use etree::decimal::Decimal;
use etree::grammar::Expected;
use etree::parse::{atom, expr, program, statement, Parse, ParseError};

fn name(text: &str) -> String {
    text.to_string()
}

fn var(text: &str) -> Expr {
    Expr::Var(name(text))
}

fn free(text: &str) -> Expr {
    Expr::FreeVar(name(text))
}

fn num(text: &str) -> Expr {
    Expr::Num(Decimal::parse(text).unwrap())
}

fn plus(left: Expr, right: Expr) -> Expr {
    Expr::Plus(Box::new(left), Box::new(right))
}

fn call(function: &str, args: Vec<Expr>) -> Expr {
    Expr::Call(name(function), args)
}

fn bind(target: &str, value: Expr) -> Statement {
    Statement::Assign(false, name(target), value)
}

fn main_with(body: Vec<Statement>) -> Program {
    Program(vec![Block::Fun(name("main"), vec![], body)])
}

fn chars(text: &str) -> Vec<char> {
    text.chars().collect()
}

fn at(line: usize, column: usize, expected: Expected) -> Result<Program, ParseError> {
    Err(ParseError::At { line, column, expected })
}

#[test]
fn empty_text_is_the_empty_program() {
    assert_eq!(program(""), Ok(Program(vec![])));
}

#[test]
fn blank_text_is_the_empty_program() {
    assert_eq!(program(" \t\r\n  "), Ok(Program(vec![])));
}

#[test]
fn empty_main_is_one_block() {
    assert_eq!(program("fn main() { }"), Ok(main_with(vec![])));
    assert_eq!(program("fn main(){}"), Ok(main_with(vec![])));
    assert_eq!(program("\n  fn   main ( ) {\n}\n"), Ok(main_with(vec![])));
}

#[test]
fn blocks_keep_their_order() {
    let parsed = program("fn f(a: float) { } fn main() { } fn g(a: float, b_1: float) { x = a; }");
    let expected = Program(vec![
        Block::Fun(name("f"), vec![(name("a"), Type::Float)], vec![]),
        Block::Fun(name("main"), vec![], vec![]),
        Block::Fun(
            name("g"),
            vec![(name("a"), Type::Float), (name("b_1"), Type::Float)],
            vec![bind("x", var("a"))],
        ),
    ]);
    assert_eq!(parsed, Ok(expected));
}

#[test]
fn statements_of_every_kind_of_atom() {
    let parsed = program("fn main() { a = 'p; b = 12.50; c = a; d = f(); e = g(a, 'q, 3); }");
    let expected = main_with(vec![
        bind("a", free("p")),
        bind("b", num("12.50")),
        bind("c", var("a")),
        bind("d", call("f", vec![])),
        bind("e", call("g", vec![var("a"), free("q"), num("3")])),
    ]);
    assert_eq!(parsed, Ok(expected));
}

#[test]
fn sums_lean_to_the_left() {
    let parsed = program("fn main() { z = a + b + c; }");
    let expected = main_with(vec![bind("z", plus(plus(var("a"), var("b")), var("c")))]);
    assert_eq!(parsed, Ok(expected));
}

#[test]
fn calls_nest_and_hold_sums() {
    let parsed = program("fn main() { z = f(g(x) + 1, h ( 'a ) ); }");
    let expected = main_with(vec![bind(
        "z",
        call(
            "f",
            vec![plus(call("g", vec![var("x")]), num("1")), call("h", vec![free("a")])],
        ),
    )]);
    assert_eq!(parsed, Ok(expected));
}

#[test]
fn a_name_and_a_bracket_apart_are_still_a_call() {
    let parsed = program("fn main() { z = f (x); }");
    assert_eq!(parsed, Ok(main_with(vec![bind("z", call("f", vec![var("x")]))])));
}

#[test]
fn identifiers_take_letters_digits_and_underscores() {
    let parsed = program("fn main() { _a1 = B_2c; }");
    assert_eq!(parsed, Ok(main_with(vec![bind("_a1", var("B_2c"))])));
}

#[test]
fn a_number_loses_the_zeros_that_it_does_without() {
    let parsed = program("fn main() { a = 007; b = 00.50; c = 0; d = 10.0100; }");
    let expected = main_with(vec![
        bind("a", num("7")),
        bind("b", num("0.50")),
        bind("c", num("0")),
        bind("d", num("10.0100")),
    ]);
    assert_eq!(parsed, Ok(expected));
}

#[test]
fn a_keyword_is_a_whole_word() {
    assert_eq!(program("fnmain() { }"), Err(ParseError::AtStart { expected: Expected::EndOfInput }));
    assert_eq!(program("fn f(a: floaty) { }"), at(1, 6, Expected::Symbol(')')));
    assert_eq!(program("fn fn() { }"), Ok(Program(vec![Block::Fun(name("fn"), vec![], vec![])])));
}

#[test]
fn missing_expression_is_reported_at_the_semicolon() {
    assert_eq!(program("fn main() { x = ; }"), at(1, 17, Expected::Expression));
}

#[test]
fn missing_expression_on_a_later_line() {
    assert_eq!(program("fn main() {\n  a = 1;\n  x = ; }"), at(3, 7, Expected::Expression));
}

#[test]
fn an_error_at_the_start_of_a_line_is_in_column_one() {
    assert_eq!(program("fn main() {\n  a = 1\n}"), at(3, 1, Expected::Symbol(';')));
    assert_eq!(program("fn main() { }\nrest"), at(2, 1, Expected::EndOfInput));
    assert_eq!(program("fn main() { }\r\nrest"), at(2, 1, Expected::EndOfInput));
}

#[test]
fn text_after_the_last_block_is_rejected() {
    assert_eq!(program("fn main() { } stray"), at(1, 15, Expected::EndOfInput));
    assert_eq!(program("fn main() { } }"), at(1, 15, Expected::EndOfInput));
    assert_eq!(program("fn main() { } 12"), at(1, 15, Expected::EndOfInput));
}

#[test]
fn text_that_begins_with_no_block_fails_at_start() {
    assert_eq!(program("x = 1;"), Err(ParseError::AtStart { expected: Expected::EndOfInput }));
    assert_eq!(program("}"), Err(ParseError::AtStart { expected: Expected::EndOfInput }));
    assert_eq!(program("fn"), at(1, 3, Expected::Identifier));
    assert_eq!(program("  x"), at(1, 3, Expected::EndOfInput));
}

#[test]
fn what_fn_owes_is_reported_where_it_is_missing() {
    assert_eq!(program("fn ("), at(1, 4, Expected::Identifier));
    assert_eq!(program("fn main {"), at(1, 9, Expected::Symbol('(')));
    assert_eq!(program("fn main( {"), at(1, 10, Expected::Symbol(')')));
    assert_eq!(program("fn main() x"), at(1, 11, Expected::Symbol('{')));
    assert_eq!(program("fn main() {"), at(1, 12, Expected::Symbol('}')));
    assert_eq!(program("fn main() { x = 1; "), at(1, 20, Expected::Symbol('}')));
}

#[test]
fn a_parameter_that_is_not_well_formed_ends_the_list_before_it() {
    assert_eq!(program("fn f(a b) { }"), at(1, 6, Expected::Symbol(')')));
    assert_eq!(program("fn f(a: float, ) { }"), at(1, 14, Expected::Symbol(')')));
    assert_eq!(program("fn f(a: float, b) { }"), at(1, 14, Expected::Symbol(')')));
    assert_eq!(program("fn f(a: float b: float) { }"), at(1, 15, Expected::Symbol(')')));
}

#[test]
fn a_statement_that_does_not_begin_ends_the_body_before_it() {
    assert_eq!(program("fn main() { x y; }"), at(1, 13, Expected::Symbol('}')));
    assert_eq!(program("fn main() { 1 = x; }"), at(1, 13, Expected::Symbol('}')));
    assert_eq!(program("fn main() { ; }"), at(1, 13, Expected::Symbol('}')));
}

#[test]
fn the_semicolon_is_owed() {
    assert_eq!(program("fn main() { x = 1 }"), at(1, 19, Expected::Symbol(';')));
    assert_eq!(program("fn main() { x = a b; }"), at(1, 19, Expected::Symbol(';')));
    assert_eq!(program("fn main() { x = 1.; }"), at(1, 18, Expected::Symbol(';')));
    assert_eq!(program("fn main() { x = 1.5.2; }"), at(1, 20, Expected::Symbol(';')));
    assert_eq!(program("fn main() { x = 1e5; }"), at(1, 18, Expected::Symbol(';')));
    assert_eq!(program("fn main() { x = 12abc; }"), at(1, 19, Expected::Symbol(';')));
}

#[test]
fn a_plus_without_an_atom_is_left_where_it_stands() {
    assert_eq!(program("fn main() { x = a + ; }"), at(1, 19, Expected::Symbol(';')));
    assert_eq!(program("fn main() { x = a + + b; }"), at(1, 19, Expected::Symbol(';')));
}

#[test]
fn the_closing_bracket_of_a_call_is_owed() {
    assert_eq!(program("fn main() { x = f(a; }"), at(1, 20, Expected::Symbol(')')));
    assert_eq!(program("fn main() { x = f(a, ); }"), at(1, 20, Expected::Symbol(')')));
    assert_eq!(program("fn main() { x = f(a b); }"), at(1, 21, Expected::Symbol(')')));
    assert_eq!(program("fn main() { x = f("), at(1, 19, Expected::Symbol(')')));
    assert_eq!(program("fn main() { x = f(g(1, 2); }"), at(1, 26, Expected::Symbol(')')));
}

#[test]
fn an_apostrophe_owes_a_name_at_once() {
    assert_eq!(program("fn main() { x = ' a; }"), at(1, 18, Expected::Identifier));
    assert_eq!(program("fn main() { x = '1; }"), at(1, 18, Expected::Identifier));
    assert_eq!(program("fn main() { x = f('); }"), at(1, 20, Expected::Identifier));
}

#[test]
fn letters_beyond_ascii_are_no_identifiers() {
    assert_eq!(program("fn main() { x = \u{e9}; }"), at(1, 17, Expected::Expression));
    assert_eq!(program("fn m\u{e9}() { }"), at(1, 5, Expected::Symbol('(')));
    assert_eq!(program("\u{a0}fn main() { }"), Err(ParseError::AtStart { expected: Expected::EndOfInput }));
}

#[test]
fn columns_count_characters() {
    assert_eq!(program("fn main() { x = 1; } \u{e9}"), at(1, 22, Expected::EndOfInput));
    assert_eq!(program("fn main() {\n\tx = ;\n}"), at(2, 6, Expected::Expression));
}

#[test]
fn an_expression_is_read_from_any_position() {
    let text = chars("  a + f('b)  ; rest");
    assert_eq!(
        expr(&text, 2),
        Parse::Parsed(plus(var("a"), call("f", vec![free("b")])), 13)
    );
    assert_eq!(expr(&text, 0), Parse::Miss);
    assert_eq!(expr(&text, 13), Parse::Miss);
    assert_eq!(expr(&text, text.len()), Parse::Miss);
}

#[test]
fn an_atom_is_the_first_kind_that_stands_there() {
    let text = chars("f(1) 2.0 'a b ( +");
    assert_eq!(atom(&text, 0), Parse::Parsed(call("f", vec![num("1")]), 5));
    assert_eq!(atom(&text, 5), Parse::Parsed(num("2.0"), 9));
    assert_eq!(atom(&text, 9), Parse::Parsed(free("a"), 12));
    assert_eq!(atom(&text, 12), Parse::Fail(16, Expected::Symbol(')')));
    assert_eq!(atom(&text, 16), Parse::Miss);
}

#[test]
fn a_statement_is_an_assignment_and_its_semicolon() {
    let text = chars("x = 'a ;y");
    assert_eq!(statement(&text, 0), Parse::Parsed(bind("x", free("a")), 8));
    assert_eq!(statement(&text, 8), Parse::Miss);
    let open = chars("x = ");
    assert_eq!(statement(&open, 0), Parse::Fail(4, Expected::Expression));
}
