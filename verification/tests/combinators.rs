// The grammar once more, written with nom's combinators, and texts made of
// the language's tokens in every order: the parser agrees with the
// combinators on each of them, in what it reads and in where it fails.

use bigdecimal::{BigDecimal, Num};
use etree::ast::{Block, Expr, Program, Statement, Type};
use etree::decimal::Decimal;
use etree::grammar::Expected;
use etree::parse::{program, ParseError};
use nom::branch::alt;
use nom::bytes::complete::tag;
use nom::character::complete::{alpha1, alphanumeric1, digit1, multispace0};
use nom::combinator::{all_consuming, cut, map_res, opt, recognize, value, verify};
use nom::error::ErrorKind;
use nom::multi::{many0, separated_list0};
use nom::sequence::{pair, preceded, separated_pair, terminated};
use nom::IResult;

fn mark(s: &'static str) -> impl Fn(&str) -> IResult<&str, ()> {
    move |input| {
        let (input, _) = tag(s)(input)?;
        let (input, _) = multispace0(input)?;
        Ok((input, ()))
    }
}

fn digits(input: &str) -> IResult<&str, &str> {
    terminated(recognize(pair(digit1, opt(pair(tag("."), digit1)))), multispace0)(input)
}

fn word(input: &str) -> IResult<&str, &str> {
    terminated(
        recognize(pair(alt((alpha1, tag("_"))), many0(alt((alphanumeric1, tag("_")))))),
        multispace0,
    )(input)
}

fn word_owned(input: &str) -> IResult<&str, String> {
    nom::combinator::map(word, str::to_owned)(input)
}

fn reserved(k: &'static str) -> impl Fn(&str) -> IResult<&str, ()> {
    move |input| value((), verify(word, |s: &str| s == k))(input)
}

fn number_of(s: &str) -> Result<Expr, String> {
    let number = BigDecimal::from_str_radix(s, 10).map_err(|e| e.to_string())?;
    let written = number.to_string();
    Decimal::parse(&written).map(Expr::Num).ok_or(written)
}

fn application(input: &str) -> IResult<&str, Expr> {
    let (input, f) = word_owned(input)?;
    let (input, _) = mark("(")(input)?;
    let (input, args) = cut(separated_list0(mark(","), sum))(input)?;
    let (input, _) = cut(mark(")"))(input)?;
    Ok((input, Expr::Call(f, args)))
}

fn term(input: &str) -> IResult<&str, Expr> {
    alt((
        application,
        map_res(digits, number_of),
        nom::combinator::map(preceded(tag("'"), cut(word_owned)), Expr::FreeVar),
        nom::combinator::map(word_owned, Expr::Var),
    ))(input)
}

fn sum(input: &str) -> IResult<&str, Expr> {
    let (input, first) = term(input)?;
    let (input, rest) = many0(preceded(mark("+"), term))(input)?;
    let res = rest.into_iter().fold(first, |a, b| Expr::Plus(Box::new(a), Box::new(b)));
    Ok((input, res))
}

fn binding(input: &str) -> IResult<&str, Statement> {
    let (input, x) = word_owned(input)?;
    let (input, ()) = mark("=")(input)?;
    let (input, e) = cut(sum)(input)?;
    Ok((input, Statement::Assign(false, x, e)))
}

fn sentence(input: &str) -> IResult<&str, Statement> {
    terminated(binding, cut(mark(";")))(input)
}

fn kind(input: &str) -> IResult<&str, Type> {
    value(Type::Float, reserved("float"))(input)
}

fn parameter(input: &str) -> IResult<&str, (String, Type)> {
    separated_pair(word_owned, mark(":"), kind)(input)
}

fn scope(input: &str) -> IResult<&str, Block> {
    let (input, name) = word_owned(input)?;
    let (input, ()) = mark("(")(input)?;
    let (input, args) = separated_list0(mark(","), parameter)(input)?;
    let (input, ()) = mark(")")(input)?;
    let (input, ()) = mark("{")(input)?;
    let (input, stmts) = many0(sentence)(input)?;
    let (input, ()) = mark("}")(input)?;
    Ok((input, Block::Fun(name, args, stmts)))
}

fn named_scope(input: &str) -> IResult<&str, Block> {
    preceded(reserved("fn"), cut(scope))(input)
}

// What the combinators make of a text: the program, or the offset of the
// failure and whether it asks for the end of the text.
fn by_combinators(input: &str) -> Result<Program, (usize, bool)> {
    match nom::combinator::map(all_consuming(preceded(multispace0, many0(named_scope))), Program)(input) {
        Ok((_, res)) => Ok(res),
        Err(nom::Err::Incomplete(_)) => panic!("the combinators never ask for more"),
        Err(nom::Err::Error(e)) | Err(nom::Err::Failure(e)) => {
            Err((input.len() - e.input.len(), e.code == ErrorKind::Eof))
        }
    }
}

fn place(input: &str, offset: usize) -> Option<(usize, usize)> {
    if offset == 0 {
        return None;
    }
    let before = &input[..offset];
    let line = before.matches('\n').count() + 1;
    let column = before.chars().rev().take_while(|c| *c != '\n').count() + 1;
    Some((line, column))
}

fn agree(input: &str) {
    let ours = program(input);
    match by_combinators(input) {
        Ok(expected) => assert_eq!(ours, Ok(expected), "on {:?}", input),
        Err((offset, at_end)) => {
            let error = ours.expect_err(input);
            let (found_place, expected) = match error {
                ParseError::AtStart { expected } => (None, expected),
                ParseError::At { line, column, expected } => (Some((line, column)), expected),
            };
            assert_eq!(found_place, place(input, offset), "on {:?}", input);
            assert_eq!(expected == Expected::EndOfInput, at_end, "on {:?}", input);
        }
    }
}

const TOKENS: [&str; 24] = [
    "fn", "main", "float", "x", "y_1", "f", "(", ")", "{", "}", ",", ":", ";", "=", "+", "'", "1",
    "007", "2.50", ".", " ", "\n", "_", "fn main() {",
];

struct Dice(u64);

impl Dice {
    fn roll(&mut self, sides: usize) -> usize {
        self.0 = self.0.wrapping_mul(6364136223846793005).wrapping_add(1442695040888963407);
        ((self.0 >> 33) as usize) % sides
    }
}

#[test]
fn the_parser_agrees_with_the_combinators_on_chosen_texts() {
    let texts = [
        "",
        "  ",
        "fn main() { }",
        "fn main() { x = 'a; y = 'b; z = x + y; }",
        "fn f(a: float, b: float) { x = g(a, b + 1.50, h()); }\nfn main() { }",
        "fn main() { x = ; }",
        "fn main() { x = f(a; }",
        "fn main() { x = f(a, ); }",
        "fn main() { x = a + ; }",
        "fn main() { x = ' a; }",
        "fn main() { x = 1 }",
        "fn main() { x y; }",
        "fn main() { } stray",
        "fn main() {\n  x = 1\n}",
        "fn f(a b) { }",
        "fn f(a: float, ) { }",
        "fn f(a: floats) { }",
        "fnmain() { }",
        "fn",
        "x",
        "fn main() { x = 007.0100 + 00; }",
        "fn main() { x = 1.; }",
        "fn main() { x = 1.5.2; }",
        "fn main() { x = f(g(1, 2); }",
        "fn main() { x = f(((; }",
        "fn main() { x = \u{e9}; }",
    ];
    for text in texts {
        agree(text);
    }
}

#[test]
fn the_parser_agrees_with_the_combinators_on_shuffled_tokens() {
    let mut dice = Dice(2024);
    for _ in 0..15000 {
        let length = dice.roll(14);
        let mut text = String::new();
        for _ in 0..length {
            text.push_str(TOKENS[dice.roll(TOKENS.len())]);
        }
        agree(&text);
    }
}

#[test]
fn the_parser_agrees_with_the_combinators_on_shuffled_bodies() {
    let mut dice = Dice(7);
    for _ in 0..15000 {
        let length = dice.roll(12);
        let mut text = String::from("fn main() { x = ");
        for _ in 0..length {
            text.push_str(TOKENS[3 + dice.roll(TOKENS.len() - 4)]);
        }
        if dice.roll(2) == 0 {
            text.push_str("; }");
        }
        agree(&text);
    }
}

#[test]
fn the_parser_agrees_with_the_combinators_on_every_short_text() {
    let letters = ["f", "n", "1", "(", ")", "{", "}", "=", ";", ",", "+", "'", ".", " ", ":"];
    let mut texts = vec![String::new()];
    for _ in 0..4 {
        let mut longer = Vec::new();
        for text in &texts {
            agree(text);
            agree(&format!("fn f(){{f={}", text));
            for letter in letters {
                longer.push(format!("{}{}", text, letter));
            }
        }
        texts = longer;
    }
}
