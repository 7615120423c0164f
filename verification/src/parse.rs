//! The parser: from a text to its syntax tree, or to the place where it breaks off.

use crate::ast::{
    lemma_params_push, params_view, Block, Expr, ExprView, Program, Statement, Type,
};
use crate::decimal::{canonical, is_literal, lemma_literal_at, literal_span, Decimal};
use crate::grammar;
use crate::grammar::{Expected, Fault, Outcome};
use crate::lex::{begins_word, chars_of, scan, text_of, CharClass};
use vstd::prelude::*;
use vstd::slice::slice_subrange;
use vstd::string::StringExecFns;

verus! {

/// What the parser found at a position: a construct and the position after
/// it, nothing of the kind, or a construct that breaks off at a position.
#[derive(Debug, PartialEq, Eq)]
pub enum Parse<T> {
    Parsed(T, usize),
    Miss,
    Fail(usize, Expected),
}

impl<T> Parse<T> {
    /// The outcome that this result stands for, its value seen through `view`.
    pub open spec fn through<V>(self, view: spec_fn(T) -> V) -> Outcome<V> {
        match self {
            Parse::Parsed(value, next) => Outcome::Parsed(view(value), next as int),
            Parse::Miss => Outcome::Miss,
            Parse::Fail(at, expected) => Outcome::Fail(Fault { at: at as int, expected }),
        }
    }

    /// Whether a construct ends after `pos`, and a failure lies at or after
    /// `pos`, both within the text.
    pub open spec fn within(self, s: Seq<char>, pos: int) -> bool {
        match self {
            Parse::Parsed(_, next) => pos < next <= s.len(),
            Parse::Miss => true,
            Parse::Fail(at, _) => pos <= at <= s.len(),
        }
    }
}

/// Reads the punctuation mark `c` and the blanks after it.
pub fn sym(input: &[char], pos: usize, c: char) -> (r: Parse<()>)
    requires
        pos <= input@.len(),
    ensures
        r.through(|u: ()| u) == grammar::sym(input@, pos as int, c),
        r.within(input@, pos as int),
        !(r is Fail),
{
    if pos < input.len() && input[pos] == c {
        Parse::Parsed((), scan(input, pos + 1, CharClass::Blank))
    } else {
        Parse::Miss
    }
}

/// Finds the end of the identifier that begins at `pos`; it is `pos` where none begins.
pub fn word_span(input: &[char], pos: usize) -> (end: usize)
    requires
        pos <= input@.len(),
    ensures
        end == grammar::word_end(input@, pos as int),
        pos <= end <= input@.len(),
{
    if pos < input.len() && begins_word(input[pos]) {
        scan(input, pos + 1, CharClass::Word)
    } else {
        pos
    }
}

/// Reads an identifier and the blanks after it, and hands out the identifier
/// as it stands in the text.
pub fn var<'a>(input: &'a [char], pos: usize) -> (r: Parse<&'a [char]>)
    requires
        pos <= input@.len(),
    ensures
        r.through(|word: &[char]| word@) == grammar::var(input@, pos as int),
        r.within(input@, pos as int),
        !(r is Fail),
{
    let end = word_span(input, pos);
    if pos < end {
        Parse::Parsed(slice_subrange(input, pos, end), scan(input, end, CharClass::Blank))
    } else {
        Parse::Miss
    }
}

/// Reads an identifier and the blanks after it, and hands out the identifier
/// as a string of its own.
pub fn var_owned(input: &[char], pos: usize) -> (r: Parse<String>)
    requires
        pos <= input@.len(),
    ensures
        r.through(|name: String| name@) == grammar::var(input@, pos as int),
        r.within(input@, pos as int),
        !(r is Fail),
{
    let end = word_span(input, pos);
    if pos < end {
        Parse::Parsed(text_of(input, pos, end), scan(input, end, CharClass::Blank))
    } else {
        Parse::Miss
    }
}

/// Reads the identifier that is `word`, all of it, and the blanks after it.
pub fn keyword(input: &[char], pos: usize, word: &str) -> (r: Parse<()>)
    requires
        pos <= input@.len(),
    ensures
        r.through(|u: ()| u) == grammar::keyword(input@, pos as int, word@),
        r.within(input@, pos as int),
        !(r is Fail),
{
    match var_owned(input, pos) {
        Parse::Parsed(name, next) => {
            if name == String::from_str(word) {
                Parse::Parsed((), next)
            } else {
                Parse::Miss
            }
        },
        _ => Parse::Miss,
    }
}

/// Reads a decimal literal and the blanks after it, and hands out the literal
/// as it is written.
pub fn decimal(input: &[char], pos: usize) -> (r: Parse<String>)
    requires
        pos <= input@.len(),
    ensures
        r.through(|text: String| text@) == grammar::decimal(input@, pos as int),
        r.within(input@, pos as int),
        !(r is Fail),
{
    let end = literal_span(input, pos);
    if pos < end {
        Parse::Parsed(text_of(input, pos, end), scan(input, end, CharClass::Blank))
    } else {
        Parse::Miss
    }
}

/// The number that `text` is a literal of, as an expression; nothing where
/// `text` is no decimal literal.
pub fn str_to_numexpr(text: &str) -> (r: Option<Expr>)
    ensures
        r is Some <==> is_literal(text@),
        r matches Some(e) ==> e@ == ExprView::Num(canonical(text@)),
{
    match Decimal::parse(text) {
        Some(number) => Some(Expr::Num(number)),
        None => None,
    }
}

/// Reads a number.
pub fn number(input: &[char], pos: usize) -> (r: Parse<Expr>)
    requires
        pos <= input@.len(),
    ensures
        r.through(|e: Expr| e@) == grammar::number(input@, pos as int),
        r.within(input@, pos as int),
        !(r is Fail),
{
    match decimal(input, pos) {
        Parse::Parsed(text, next) => {
            proof {
                lemma_literal_at(input@, pos as int);
            }
            match str_to_numexpr(text.as_str()) {
                Some(e) => Parse::Parsed(e, next),
                None => Parse::Miss,
            }
        },
        _ => Parse::Miss,
    }
}

/// Reads a symbolic atom: an apostrophe and the identifier that it owes.
pub fn free_var(input: &[char], pos: usize) -> (r: Parse<Expr>)
    requires
        pos <= input@.len(),
    ensures
        r.through(|e: Expr| e@) == grammar::free_var(input@, pos as int),
        r.within(input@, pos as int),
{
    if pos < input.len() && input[pos] == '\'' {
        match var_owned(input, pos + 1) {
            Parse::Parsed(name, next) => Parse::Parsed(Expr::FreeVar(name), next),
            _ => Parse::Fail(pos + 1, Expected::Identifier),
        }
    } else {
        Parse::Miss
    }
}

/// Reads a reference to a variable.
pub fn variable(input: &[char], pos: usize) -> (r: Parse<Expr>)
    requires
        pos <= input@.len(),
    ensures
        r.through(|e: Expr| e@) == grammar::variable(input@, pos as int),
        r.within(input@, pos as int),
        !(r is Fail),
{
    match var_owned(input, pos) {
        Parse::Parsed(name, next) => Parse::Parsed(Expr::Var(name), next),
        _ => Parse::Miss,
    }
}

/// Reads a call.
pub fn call(input: &[char], pos: usize) -> (r: Parse<Expr>)
    requires
        pos <= input@.len(),
    ensures
        r.through(|e: Expr| e@) == grammar::call(input@, pos as int),
        r.within(input@, pos as int),
    decreases input@.len() - pos, 0int,
{
    match var_owned(input, pos) {
        Parse::Parsed(name, after_name) => match sym(input, after_name, '(') {
            Parse::Parsed(_, after_open) => match args(input, after_open) {
                Parse::Parsed(list, after_list) => match sym(input, after_list, ')') {
                    Parse::Parsed(_, next) => Parse::Parsed(Expr::Call(name, list), next),
                    _ => Parse::Fail(after_list, Expected::Symbol(')')),
                },
                Parse::Miss => Parse::Miss,
                Parse::Fail(at, expected) => Parse::Fail(at, expected),
            },
            _ => Parse::Miss,
        },
        _ => Parse::Miss,
    }
}

/// Reads an atom.
pub fn atom(input: &[char], pos: usize) -> (r: Parse<Expr>)
    requires
        pos <= input@.len(),
    ensures
        r.through(|e: Expr| e@) == grammar::atom(input@, pos as int),
        r.within(input@, pos as int),
    decreases input@.len() - pos, 1int,
{
    match call(input, pos) {
        Parse::Miss => {},
        found => {
            return found;
        },
    }
    match number(input, pos) {
        Parse::Miss => {},
        found => {
            return found;
        },
    }
    match free_var(input, pos) {
        Parse::Miss => {},
        found => {
            return found;
        },
    }
    variable(input, pos)
}

/// Reads an expression.
pub fn expr(input: &[char], pos: usize) -> (r: Parse<Expr>)
    requires
        pos <= input@.len(),
    ensures
        r.through(|e: Expr| e@) == grammar::expr(input@, pos as int),
        r.within(input@, pos as int),
    decreases input@.len() - pos, 2int,
{
    let (mut left, mut at) = match atom(input, pos) {
        Parse::Parsed(first, next) => (first, next),
        Parse::Miss => {
            return Parse::Miss;
        },
        Parse::Fail(at, expected) => {
            return Parse::Fail(at, expected);
        },
    };
    loop
        invariant
            pos < at <= input@.len(),
            grammar::expr(input@, pos as int) == grammar::more_terms(input@, at as int, left@),
        decreases input@.len() - at,
    {
        match sym(input, at, '+') {
            Parse::Parsed(_, after_plus) => match atom(input, after_plus) {
                Parse::Parsed(right, next) => {
                    left = Expr::Plus(Box::new(left), Box::new(right));
                    at = next;
                },
                Parse::Miss => {
                    return Parse::Parsed(left, at);
                },
                Parse::Fail(place, expected) => {
                    return Parse::Fail(place, expected);
                },
            },
            _ => {
                return Parse::Parsed(left, at);
            },
        }
    }
}

/// Reads the arguments of a call.
pub fn args(input: &[char], pos: usize) -> (r: Parse<Vec<Expr>>)
    requires
        pos <= input@.len(),
    ensures
        r.through(|list: Vec<Expr>| Expr::views(list@)) == grammar::args(input@, pos as int),
        r matches Parse::Parsed(_, next) ==> pos <= next <= input@.len(),
        r matches Parse::Fail(at, _) ==> pos <= at <= input@.len(),
        !(r is Miss),
    decreases input@.len() - pos, 3int,
{
    let mut list: Vec<Expr> = Vec::new();
    let mut at = match expr(input, pos) {
        Parse::Parsed(first, next) => {
            list.push(first);
            next
        },
        Parse::Miss => {
            assert(Expr::views(list@) =~= Seq::empty());
            return Parse::Parsed(list, pos);
        },
        Parse::Fail(at, expected) => {
            return Parse::Fail(at, expected);
        },
    };
    assert(Expr::views(list@) =~= seq![list@[0]@]);
    loop
        invariant
            pos < at <= input@.len(),
            grammar::args(input@, pos as int) == grammar::more_args(
                input@,
                at as int,
                Expr::views(list@),
            ),
        decreases input@.len() - at,
    {
        match sym(input, at, ',') {
            Parse::Parsed(_, after_comma) => match expr(input, after_comma) {
                Parse::Parsed(item, next) => {
                    proof {
                        Expr::lemma_views_push(list@, item);
                    }
                    list.push(item);
                    at = next;
                },
                Parse::Miss => {
                    return Parse::Parsed(list, at);
                },
                Parse::Fail(place, expected) => {
                    return Parse::Fail(place, expected);
                },
            },
            _ => {
                return Parse::Parsed(list, at);
            },
        }
    }
}

/// Reads an assignment.
pub fn assign(input: &[char], pos: usize) -> (r: Parse<Statement>)
    requires
        pos <= input@.len(),
    ensures
        r.through(|bound: Statement| bound@) == grammar::assign(input@, pos as int),
        r.within(input@, pos as int),
{
    match var_owned(input, pos) {
        Parse::Parsed(name, after_name) => match sym(input, after_name, '=') {
            Parse::Parsed(_, after_eq) => match expr(input, after_eq) {
                Parse::Parsed(value, next) => Parse::Parsed(
                    Statement::Assign(false, name, value),
                    next,
                ),
                Parse::Miss => Parse::Fail(after_eq, Expected::Expression),
                Parse::Fail(at, expected) => Parse::Fail(at, expected),
            },
            _ => Parse::Miss,
        },
        _ => Parse::Miss,
    }
}

/// Reads a statement.
pub fn statement(input: &[char], pos: usize) -> (r: Parse<Statement>)
    requires
        pos <= input@.len(),
    ensures
        r.through(|bound: Statement| bound@) == grammar::statement(input@, pos as int),
        r.within(input@, pos as int),
{
    match assign(input, pos) {
        Parse::Parsed(bound, after) => match sym(input, after, ';') {
            Parse::Parsed(_, next) => Parse::Parsed(bound, next),
            _ => Parse::Fail(after, Expected::Symbol(';')),
        },
        other => other,
    }
}

/// Reads statements, as many as stand at `pos`.
pub fn statements(input: &[char], pos: usize) -> (r: Parse<Vec<Statement>>)
    requires
        pos <= input@.len(),
    ensures
        r.through(|list: Vec<Statement>| Statement::views(list@)) == grammar::statements(
            input@,
            pos as int,
            Seq::empty(),
        ),
        r matches Parse::Parsed(_, next) ==> pos <= next <= input@.len(),
        r matches Parse::Fail(at, _) ==> pos <= at <= input@.len(),
        !(r is Miss),
{
    let mut list: Vec<Statement> = Vec::new();
    let mut at = pos;
    assert(Statement::views(list@) =~= Seq::empty());
    loop
        invariant
            pos <= at <= input@.len(),
            grammar::statements(input@, pos as int, Seq::empty()) == grammar::statements(
                input@,
                at as int,
                Statement::views(list@),
            ),
        decreases input@.len() - at,
    {
        match statement(input, at) {
            Parse::Parsed(bound, next) => {
                proof {
                    Statement::lemma_views_push(list@, bound);
                }
                list.push(bound);
                at = next;
            },
            Parse::Miss => {
                return Parse::Parsed(list, at);
            },
            Parse::Fail(place, expected) => {
                return Parse::Fail(place, expected);
            },
        }
    }
}

/// Reads a type.
pub fn typ(input: &[char], pos: usize) -> (r: Parse<Type>)
    requires
        pos <= input@.len(),
    ensures
        r.through(|declared: Type| declared) == grammar::typ(input@, pos as int),
        r.within(input@, pos as int),
        !(r is Fail),
{
    match keyword(input, pos, "float") {
        Parse::Parsed(_, next) => Parse::Parsed(Type::Float, next),
        _ => Parse::Miss,
    }
}

/// Reads a parameter.
pub fn arg(input: &[char], pos: usize) -> (r: Parse<(String, Type)>)
    requires
        pos <= input@.len(),
    ensures
        r.through(|param: (String, Type)| (param.0@, param.1)) == grammar::arg(
            input@,
            pos as int,
        ),
        r.within(input@, pos as int),
        !(r is Fail),
{
    match var_owned(input, pos) {
        Parse::Parsed(name, after_name) => match sym(input, after_name, ':') {
            Parse::Parsed(_, after_colon) => match typ(input, after_colon) {
                Parse::Parsed(declared, next) => Parse::Parsed((name, declared), next),
                _ => Parse::Miss,
            },
            _ => Parse::Miss,
        },
        _ => Parse::Miss,
    }
}

/// Reads the parameters of a block.
pub fn params(input: &[char], pos: usize) -> (r: (Vec<(String, Type)>, usize))
    requires
        pos <= input@.len(),
    ensures
        Outcome::Parsed(params_view(r.0@), r.1 as int) == grammar::params(input@, pos as int),
        pos <= r.1 <= input@.len(),
{
    let mut list: Vec<(String, Type)> = Vec::new();
    let mut at = match arg(input, pos) {
        Parse::Parsed(first, next) => {
            list.push(first);
            next
        },
        _ => {
            assert(params_view(list@) =~= Seq::empty());
            return (list, pos);
        },
    };
    assert(params_view(list@) =~= seq![(list@[0].0@, list@[0].1)]);
    loop
        invariant
            pos < at <= input@.len(),
            grammar::params(input@, pos as int) == grammar::more_params(
                input@,
                at as int,
                params_view(list@),
            ),
        decreases input@.len() - at,
    {
        match sym(input, at, ',') {
            Parse::Parsed(_, after_comma) => match arg(input, after_comma) {
                Parse::Parsed(item, next) => {
                    proof {
                        lemma_params_push(list@, item);
                    }
                    list.push(item);
                    at = next;
                },
                _ => {
                    return (list, at);
                },
            },
            _ => {
                return (list, at);
            },
        }
    }
}

/// Reads what the keyword `fn` owes: the rest of a block.
pub fn fun(input: &[char], pos: usize) -> (r: Parse<Block>)
    requires
        pos <= input@.len(),
    ensures
        r.through(|scope: Block| scope@) == grammar::fun(input@, pos as int),
        r.within(input@, pos as int),
        !(r is Miss),
{
    let (name, at_open) = match var_owned(input, pos) {
        Parse::Parsed(name, next) => (name, next),
        _ => {
            return Parse::Fail(pos, Expected::Identifier);
        },
    };
    let at_params = match sym(input, at_open, '(') {
        Parse::Parsed(_, next) => next,
        _ => {
            return Parse::Fail(at_open, Expected::Symbol('('));
        },
    };
    let (list, at_close) = params(input, at_params);
    let at_brace = match sym(input, at_close, ')') {
        Parse::Parsed(_, next) => next,
        _ => {
            return Parse::Fail(at_close, Expected::Symbol(')'));
        },
    };
    let at_body = match sym(input, at_brace, '{') {
        Parse::Parsed(_, next) => next,
        _ => {
            return Parse::Fail(at_brace, Expected::Symbol('{'));
        },
    };
    let (body, at_end) = match statements(input, at_body) {
        Parse::Parsed(body, next) => (body, next),
        Parse::Miss => {
            return Parse::Miss;
        },
        Parse::Fail(at, expected) => {
            return Parse::Fail(at, expected);
        },
    };
    match sym(input, at_end, '}') {
        Parse::Parsed(_, next) => Parse::Parsed(Block::Fun(name, list, body), next),
        _ => Parse::Fail(at_end, Expected::Symbol('}')),
    }
}

/// Reads a block.
pub fn block(input: &[char], pos: usize) -> (r: Parse<Block>)
    requires
        pos <= input@.len(),
    ensures
        r.through(|scope: Block| scope@) == grammar::block(input@, pos as int),
        r.within(input@, pos as int),
{
    match keyword(input, pos, "fn") {
        Parse::Parsed(_, next) => fun(input, next),
        _ => Parse::Miss,
    }
}

/// Reads blocks, as many as stand at `pos`.
pub fn blocks(input: &[char], pos: usize) -> (r: Parse<Vec<Block>>)
    requires
        pos <= input@.len(),
    ensures
        r.through(|list: Vec<Block>| Block::views(list@)) == grammar::blocks(
            input@,
            pos as int,
            Seq::empty(),
        ),
        r matches Parse::Parsed(_, next) ==> pos <= next <= input@.len(),
        r matches Parse::Fail(at, _) ==> pos <= at <= input@.len(),
        !(r is Miss),
{
    let mut list: Vec<Block> = Vec::new();
    let mut at = pos;
    assert(Block::views(list@) =~= Seq::empty());
    loop
        invariant
            pos <= at <= input@.len(),
            grammar::blocks(input@, pos as int, Seq::empty()) == grammar::blocks(
                input@,
                at as int,
                Block::views(list@),
            ),
        decreases input@.len() - at,
    {
        match block(input, at) {
            Parse::Parsed(scope, next) => {
                proof {
                    Block::lemma_views_push(list@, scope);
                }
                list.push(scope);
                at = next;
            },
            Parse::Miss => {
                return Parse::Parsed(list, at);
            },
            Parse::Fail(place, expected) => {
                return Parse::Fail(place, expected);
            },
        }
    }
}

/// How many line feeds stand before `at`.
pub open spec fn line_breaks(s: Seq<char>, at: int) -> nat
    decreases at,
{
    if at <= 0 {
        0
    } else if s[at - 1] == '\n' {
        line_breaks(s, at - 1) + 1
    } else {
        line_breaks(s, at - 1)
    }
}

/// Where the line begins that `at` lies in: after the last line feed before
/// `at`, or at the start of the text.
pub open spec fn line_start(s: Seq<char>, at: int) -> int
    decreases at,
{
    if at <= 0 {
        0
    } else if s[at - 1] == '\n' {
        at
    } else {
        line_start(s, at - 1)
    }
}

/// The number of the line that `at` lies in, counted from 1.
pub open spec fn line_of(s: Seq<char>, at: int) -> nat {
    line_breaks(s, at) + 1
}

/// The place of `at` in its line, counted from 1.
pub open spec fn column_of(s: Seq<char>, at: int) -> int {
    at - line_start(s, at) + 1
}

/// Why a text is no program, and where.
#[derive(Clone, Copy, Debug, PartialEq, Eq, Structural)]
pub enum ParseError {
    /// The text breaks off at its very first character.
    AtStart { expected: Expected },
    /// The text breaks off at the given line and column, both counted from 1.
    At { line: usize, column: usize, expected: Expected },
}

impl ParseError {
    /// Whether this error reports `fault` in the text `s`.
    pub open spec fn reports(self, s: Seq<char>, fault: Fault) -> bool {
        if fault.at == 0 {
            self == (ParseError::AtStart { expected: fault.expected })
        } else {
            self == (ParseError::At {
                line: line_of(s, fault.at) as usize,
                column: column_of(s, fault.at) as usize,
                expected: fault.expected,
            })
        }
    }
}

/// Finds the line and the column of the position `at`, both counted from 1.
pub fn locate(input: &[char], at: usize) -> (place: (usize, usize))
    requires
        at <= input@.len(),
        at < usize::MAX,
    ensures
        place.0 == line_of(input@, at as int),
        place.1 == column_of(input@, at as int),
{
    let mut line: usize = 1;
    let mut start: usize = 0;
    let mut i: usize = 0;
    while i < at
        invariant
            i <= at <= input@.len(),
            at < usize::MAX,
            line == line_breaks(input@, i as int) + 1,
            start == line_start(input@, i as int),
            line <= i + 1,
            start <= i,
        decreases at - i,
    {
        if input[i] == '\n' {
            line += 1;
            start = i + 1;
        }
        i += 1;
    }
    (line, at - start + 1)
}

/// Reads a program. All of `input` must be blanks and blocks: where a block
/// breaks off, or where text is left after the last block, the error tells
/// the line and the column of the first character that could not be read, and
/// what was owed there. An error at the very first character of the text has
/// a form of its own.
pub fn program(input: &str) -> (r: Result<Program, ParseError>)
    ensures
        match grammar::program(input@) {
            Outcome::Parsed(list, _) => r matches Ok(p) && p@ == list,
            Outcome::Fail(fault) => r matches Err(e) && e.reports(input@, fault),
            Outcome::Miss => false,
        },
{
    let chars = chars_of(input);
    let text = chars.as_slice();
    let start = scan(text, 0, CharClass::Blank);
    let (at, expected) = match blocks(text, start) {
        Parse::Parsed(list, end) => {
            if end == text.len() {
                return Ok(Program(list));
            }
            (end, Expected::EndOfInput)
        },
        Parse::Fail(at, expected) => (at, expected),
        // Blocks are never missing: they may be none.
        Parse::Miss => (start, Expected::EndOfInput),
    };
    if at == 0 {
        Err(ParseError::AtStart { expected })
    } else {
        let (line, column) = locate(text, at);
        Err(ParseError::At { line, column, expected })
    }
}

} // verus!
