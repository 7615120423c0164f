//! The grammar: for each construct, what stands in a text at a position.
//!
//! A construct either stands there (`Parsed`), or does not and leaves the
//! choice to another (`Miss`), or began and broke off (`Fail`): once the token
//! is read that opens a construct, the tokens that must follow are owed, and the
//! place where one is missing is the place of the error.

use crate::ast::{BlockView, ExprView, StatementView, Type};
use crate::decimal::{canonical, lemma_literal_at, literal_end};
use crate::lex::{lemma_run, run_end, starts_word, CharClass};
use vstd::prelude::*;

verus! {

/// What was owed where a text broke off.
#[derive(Clone, Copy, Debug, PartialEq, Eq, Structural)]
pub enum Expected {
    /// A name.
    Identifier,
    /// The given punctuation mark.
    Symbol(char),
    /// An expression.
    Expression,
    /// Nothing more: the text goes on after its last block.
    EndOfInput,
}

/// The place of an error and what was owed there.
pub struct Fault {
    pub at: int,
    pub expected: Expected,
}

/// What stands at a position: a construct with its value and the position
/// after it, nothing of the kind, or the beginning of one that breaks off.
pub enum Outcome<T> {
    Parsed(T, int),
    Miss,
    Fail(Fault),
}

impl<T> Outcome<T> {
    /// This outcome, or `other` where this one is a `Miss`.
    pub open spec fn or(self, other: Outcome<T>) -> Outcome<T> {
        if self is Miss {
            other
        } else {
            self
        }
    }

    /// The same failure for a construct of another type; `Miss` where this is no failure.
    pub open spec fn failure<U>(self) -> Outcome<U> {
        match self {
            Outcome::Fail(fault) => Outcome::Fail(fault),
            _ => Outcome::Miss,
        }
    }

    /// This outcome where the construct is owed: its absence is a failure at `at`.
    pub open spec fn owed(self, at: int, expected: Expected) -> Outcome<T> {
        if self is Miss {
            Outcome::Fail(Fault { at, expected })
        } else {
            self
        }
    }

    /// This outcome, counted only if the construct takes at least one character
    /// after `pos` and ends within the text: else it is a `Miss`. Every
    /// construct of this grammar does so (`lemma_expr_advances` and the lemmas
    /// beside it); the test is what makes the repetitions well-founded.
    pub open spec fn advancing(self, s: Seq<char>, pos: int) -> Outcome<T> {
        match self {
            Outcome::Parsed(_, next) => if pos < next <= s.len() {
                self
            } else {
                Outcome::Miss
            },
            _ => self,
        }
    }

    /// Whether this outcome lies within the text from `pos` on: a construct
    /// ends after `pos`, and a failure lies at or after `pos`.
    pub open spec fn advances(self, s: Seq<char>, pos: int) -> bool {
        match self {
            Outcome::Parsed(_, next) => pos < next <= s.len(),
            Outcome::Miss => true,
            Outcome::Fail(fault) => pos <= fault.at <= s.len(),
        }
    }

    /// As `advances`, but for lists, which may be empty and then end at `pos`.
    pub open spec fn stays(self, s: Seq<char>, pos: int) -> bool {
        match self {
            Outcome::Parsed(_, next) => pos <= next <= s.len(),
            Outcome::Miss => true,
            Outcome::Fail(fault) => pos <= fault.at <= s.len(),
        }
    }
}

/// Where the blanks that begin at `pos` end.
pub open spec fn blank_end(s: Seq<char>, pos: int) -> int {
    run_end(s, pos, CharClass::Blank)
}

/// Where the identifier that begins at `pos` ends; `pos` where none begins.
pub open spec fn word_end(s: Seq<char>, pos: int) -> int {
    if 0 <= pos < s.len() && starts_word(s[pos]) {
        run_end(s, pos + 1, CharClass::Word)
    } else {
        pos
    }
}

/// The punctuation mark `c` and the blanks after it.
pub open spec fn sym(s: Seq<char>, pos: int, c: char) -> Outcome<()> {
    if 0 <= pos < s.len() && s[pos] == c {
        Outcome::Parsed((), blank_end(s, pos + 1))
    } else {
        Outcome::Miss
    }
}

/// An identifier and the blanks after it.
pub open spec fn var(s: Seq<char>, pos: int) -> Outcome<Seq<char>> {
    let end = word_end(s, pos);
    if pos < end {
        Outcome::Parsed(s.subrange(pos, end), blank_end(s, end))
    } else {
        Outcome::Miss
    }
}

/// The identifier that is `word`, all of it, and the blanks after it.
pub open spec fn keyword(s: Seq<char>, pos: int, word: Seq<char>) -> Outcome<()> {
    match var(s, pos) {
        Outcome::Parsed(name, next) => if name == word {
            Outcome::Parsed((), next)
        } else {
            Outcome::Miss
        },
        _ => Outcome::Miss,
    }
}

/// A decimal literal, as it is written, and the blanks after it.
pub open spec fn decimal(s: Seq<char>, pos: int) -> Outcome<Seq<char>> {
    let end = literal_end(s, pos);
    if 0 <= pos < end {
        Outcome::Parsed(s.subrange(pos, end), blank_end(s, end))
    } else {
        Outcome::Miss
    }
}

/// A number: a decimal literal, in canonical form.
pub open spec fn number(s: Seq<char>, pos: int) -> Outcome<ExprView> {
    match decimal(s, pos) {
        Outcome::Parsed(text, next) => Outcome::Parsed(ExprView::Num(canonical(text)), next),
        other => other.failure(),
    }
}

/// A symbolic atom: an apostrophe and, at once, the identifier that it owes.
pub open spec fn free_var(s: Seq<char>, pos: int) -> Outcome<ExprView> {
    if 0 <= pos < s.len() && s[pos] == '\'' {
        match var(s, pos + 1).owed(pos + 1, Expected::Identifier) {
            Outcome::Parsed(name, next) => Outcome::Parsed(ExprView::FreeVar(name), next),
            other => other.failure(),
        }
    } else {
        Outcome::Miss
    }
}

/// A reference to a variable: an identifier.
pub open spec fn variable(s: Seq<char>, pos: int) -> Outcome<ExprView> {
    match var(s, pos) {
        Outcome::Parsed(name, next) => Outcome::Parsed(ExprView::Var(name), next),
        other => other.failure(),
    }
}

/// A call: an identifier, `(`, arguments between commas, and the `)` that the
/// `(` owes.
pub open spec fn call(s: Seq<char>, pos: int) -> Outcome<ExprView>
    decreases s.len() - pos, 0int,
    via call_decreases
{
    match var(s, pos) {
        Outcome::Parsed(name, after_name) => match sym(s, after_name, '(') {
            Outcome::Parsed(_, after_open) => match args(s, after_open) {
                Outcome::Parsed(list, after_list) => match sym(s, after_list, ')').owed(
                    after_list,
                    Expected::Symbol(')'),
                ) {
                    Outcome::Parsed(_, next) => Outcome::Parsed(ExprView::Call(name, list), next),
                    other => other.failure(),
                },
                other => other.failure(),
            },
            _ => Outcome::Miss,
        },
        _ => Outcome::Miss,
    }
}

/// The arguments of a call begin after its name and its bracket.
#[via_fn]
proof fn call_decreases(s: Seq<char>, pos: int) {
    lemma_var_advances(s, pos);
    if let Outcome::Parsed(_, after_name) = var(s, pos) {
        lemma_sym_advances(s, after_name, '(');
    }
}

/// An atom: a call, a number, a symbolic atom or a variable, the first of
/// them that stands there.
pub open spec fn atom(s: Seq<char>, pos: int) -> Outcome<ExprView>
    decreases s.len() - pos, 1int,
{
    call(s, pos).or(number(s, pos)).or(free_var(s, pos)).or(variable(s, pos))
}

/// An expression: atoms between `+` signs, added up from the left.
pub open spec fn expr(s: Seq<char>, pos: int) -> Outcome<ExprView>
    decreases s.len() - pos, 2int,
{
    match atom(s, pos).advancing(s, pos) {
        Outcome::Parsed(first, next) => more_terms(s, next, first),
        other => other,
    }
}

/// The rest of a sum whose terms so far add up to `left`: as long as a `+`
/// and an atom follow, the atom is added. A `+` that no atom follows is left
/// where it stands.
pub open spec fn more_terms(s: Seq<char>, pos: int, left: ExprView) -> Outcome<ExprView>
    decreases s.len() - pos, 0int,
    via more_terms_decreases
{
    match sym(s, pos, '+') {
        Outcome::Parsed(_, after_plus) => match atom(s, after_plus).advancing(s, after_plus) {
            Outcome::Parsed(right, next) => more_terms(
                s,
                next,
                ExprView::Plus(Box::new(left), Box::new(right)),
            ),
            Outcome::Miss => Outcome::Parsed(left, pos),
            Outcome::Fail(fault) => Outcome::Fail(fault),
        },
        _ => Outcome::Parsed(left, pos),
    }
}

/// The next term begins after the `+`.
#[via_fn]
proof fn more_terms_decreases(s: Seq<char>, pos: int, left: ExprView) {
    lemma_sym_advances(s, pos, '+');
}

/// The arguments of a call: none, or expressions between commas.
pub open spec fn args(s: Seq<char>, pos: int) -> Outcome<Seq<ExprView>>
    decreases s.len() - pos, 3int,
{
    match expr(s, pos).advancing(s, pos) {
        Outcome::Parsed(first, next) => more_args(s, next, seq![first]),
        Outcome::Miss => Outcome::Parsed(Seq::empty(), pos),
        Outcome::Fail(fault) => Outcome::Fail(fault),
    }
}

/// The rest of a list of arguments after those in `found`: as long as a comma
/// and an expression follow, the expression joins the list. A comma that no
/// expression follows is left where it stands.
pub open spec fn more_args(s: Seq<char>, pos: int, found: Seq<ExprView>) -> Outcome<
    Seq<ExprView>,
>
    decreases s.len() - pos, 0int,
    via more_args_decreases
{
    match sym(s, pos, ',') {
        Outcome::Parsed(_, after_comma) => match expr(s, after_comma).advancing(s, after_comma) {
            Outcome::Parsed(item, next) => more_args(s, next, found.push(item)),
            Outcome::Miss => Outcome::Parsed(found, pos),
            Outcome::Fail(fault) => Outcome::Fail(fault),
        },
        _ => Outcome::Parsed(found, pos),
    }
}

/// The next argument begins after the comma.
#[via_fn]
proof fn more_args_decreases(s: Seq<char>, pos: int, found: Seq<ExprView>) {
    lemma_sym_advances(s, pos, ',');
}

/// `name = expr`, where the `=` owes the expression.
pub open spec fn assign(s: Seq<char>, pos: int) -> Outcome<StatementView> {
    match var(s, pos) {
        Outcome::Parsed(name, after_name) => match sym(s, after_name, '=') {
            Outcome::Parsed(_, after_eq) => match expr(s, after_eq).owed(
                after_eq,
                Expected::Expression,
            ) {
                Outcome::Parsed(value, next) => Outcome::Parsed(
                    StatementView::Assign(false, name, value),
                    next,
                ),
                other => other.failure(),
            },
            _ => Outcome::Miss,
        },
        _ => Outcome::Miss,
    }
}

/// A statement: an assignment and the `;` that it owes.
pub open spec fn statement(s: Seq<char>, pos: int) -> Outcome<StatementView> {
    match assign(s, pos) {
        Outcome::Parsed(bound, after) => match sym(s, after, ';').owed(
            after,
            Expected::Symbol(';'),
        ) {
            Outcome::Parsed(_, next) => Outcome::Parsed(bound, next),
            other => other.failure(),
        },
        other => other,
    }
}

/// The statements that follow those in `found`, as many as stand there.
pub open spec fn statements(s: Seq<char>, pos: int, found: Seq<StatementView>) -> Outcome<
    Seq<StatementView>,
>
    decreases s.len() - pos,
{
    match statement(s, pos).advancing(s, pos) {
        Outcome::Parsed(bound, next) => statements(s, next, found.push(bound)),
        Outcome::Miss => Outcome::Parsed(found, pos),
        Outcome::Fail(fault) => Outcome::Fail(fault),
    }
}

/// A type: the keyword `float`.
pub open spec fn typ(s: Seq<char>, pos: int) -> Outcome<Type> {
    match keyword(s, pos, "float"@) {
        Outcome::Parsed(_, next) => Outcome::Parsed(Type::Float, next),
        other => other.failure(),
    }
}

/// A parameter: `name : type`.
pub open spec fn arg(s: Seq<char>, pos: int) -> Outcome<(Seq<char>, Type)> {
    match var(s, pos) {
        Outcome::Parsed(name, after_name) => match sym(s, after_name, ':') {
            Outcome::Parsed(_, after_colon) => match typ(s, after_colon) {
                Outcome::Parsed(declared, next) => Outcome::Parsed((name, declared), next),
                _ => Outcome::Miss,
            },
            _ => Outcome::Miss,
        },
        _ => Outcome::Miss,
    }
}

/// The parameters of a block: none, or parameters between commas.
pub open spec fn params(s: Seq<char>, pos: int) -> Outcome<Seq<(Seq<char>, Type)>> {
    match arg(s, pos).advancing(s, pos) {
        Outcome::Parsed(first, next) => more_params(s, next, seq![first]),
        _ => Outcome::Parsed(Seq::empty(), pos),
    }
}

/// The rest of a list of parameters after those in `found`. A comma that no
/// parameter follows is left where it stands.
pub open spec fn more_params(s: Seq<char>, pos: int, found: Seq<(Seq<char>, Type)>) -> Outcome<
    Seq<(Seq<char>, Type)>,
>
    decreases s.len() - pos,
    via more_params_decreases
{
    match sym(s, pos, ',') {
        Outcome::Parsed(_, after_comma) => match arg(s, after_comma).advancing(s, after_comma) {
            Outcome::Parsed(item, next) => more_params(s, next, found.push(item)),
            _ => Outcome::Parsed(found, pos),
        },
        _ => Outcome::Parsed(found, pos),
    }
}

/// The next parameter begins after the comma.
#[via_fn]
proof fn more_params_decreases(s: Seq<char>, pos: int, found: Seq<(Seq<char>, Type)>) {
    lemma_sym_advances(s, pos, ',');
}

/// What the keyword `fn` owes: a name, the parameters in brackets, and the
/// statements in braces.
pub open spec fn fun(s: Seq<char>, pos: int) -> Outcome<BlockView> {
    match var(s, pos).owed(pos, Expected::Identifier) {
        Outcome::Parsed(name, at_open) => match sym(s, at_open, '(').owed(
            at_open,
            Expected::Symbol('('),
        ) {
            Outcome::Parsed(_, at_params) => match params(s, at_params) {
                Outcome::Parsed(list, at_close) => match sym(s, at_close, ')').owed(
                    at_close,
                    Expected::Symbol(')'),
                ) {
                    Outcome::Parsed(_, at_brace) => match sym(s, at_brace, '{').owed(
                        at_brace,
                        Expected::Symbol('{'),
                    ) {
                        Outcome::Parsed(_, at_body) => match statements(
                            s,
                            at_body,
                            Seq::empty(),
                        ) {
                            Outcome::Parsed(body, at_end) => match sym(s, at_end, '}').owed(
                                at_end,
                                Expected::Symbol('}'),
                            ) {
                                Outcome::Parsed(_, next) => Outcome::Parsed(
                                    BlockView::Fun(name, list, body),
                                    next,
                                ),
                                other => other.failure(),
                            },
                            other => other.failure(),
                        },
                        other => other.failure(),
                    },
                    other => other.failure(),
                },
                other => other.failure(),
            },
            other => other.failure(),
        },
        other => other.failure(),
    }
}

/// A block: the keyword `fn` and what it owes.
pub open spec fn block(s: Seq<char>, pos: int) -> Outcome<BlockView> {
    match keyword(s, pos, "fn"@) {
        Outcome::Parsed(_, next) => fun(s, next),
        _ => Outcome::Miss,
    }
}

/// The blocks that follow those in `found`, as many as stand there.
pub open spec fn blocks(s: Seq<char>, pos: int, found: Seq<BlockView>) -> Outcome<Seq<BlockView>>
    decreases s.len() - pos,
{
    match block(s, pos).advancing(s, pos) {
        Outcome::Parsed(scope, next) => blocks(s, next, found.push(scope)),
        Outcome::Miss => Outcome::Parsed(found, pos),
        Outcome::Fail(fault) => Outcome::Fail(fault),
    }
}

/// A program: blanks, and blocks up to the end of the text. Text that is left
/// after the last block is a failure where it begins.
pub open spec fn program(s: Seq<char>) -> Outcome<Seq<BlockView>> {
    match blocks(s, blank_end(s, 0), Seq::empty()) {
        Outcome::Parsed(list, end) => if end == s.len() {
            Outcome::Parsed(list, end)
        } else {
            Outcome::Fail(Fault { at: end, expected: Expected::EndOfInput })
        },
        other => other,
    }
}

/// A punctuation mark takes at least its one character.
pub proof fn lemma_sym_advances(s: Seq<char>, pos: int, c: char)
    ensures
        sym(s, pos, c).advances(s, pos),
{
    if 0 <= pos < s.len() {
        lemma_run(s, pos + 1, CharClass::Blank);
    }
}

/// An identifier takes at least its first character, and holds at least that.
pub proof fn lemma_var_advances(s: Seq<char>, pos: int)
    ensures
        var(s, pos).advances(s, pos),
        var(s, pos) is Parsed ==> pos < word_end(s, pos) <= s.len(),
        keyword(s, pos, "fn"@).advances(s, pos),
        keyword(s, pos, "float"@).advances(s, pos),
{
    if 0 <= pos < s.len() && starts_word(s[pos]) {
        lemma_run(s, pos + 1, CharClass::Word);
        lemma_run(s, word_end(s, pos), CharClass::Blank);
    }
}

/// A decimal literal takes at least its first digit.
pub proof fn lemma_decimal_advances(s: Seq<char>, pos: int)
    ensures
        decimal(s, pos).advances(s, pos),
        number(s, pos).advances(s, pos),
{
    if 0 <= pos < literal_end(s, pos) {
        lemma_literal_at(s, pos);
        lemma_run(s, literal_end(s, pos), CharClass::Blank);
    }
}

/// A symbolic atom takes at least its apostrophe.
pub proof fn lemma_free_var_advances(s: Seq<char>, pos: int)
    ensures
        free_var(s, pos).advances(s, pos),
{
    lemma_var_advances(s, pos + 1);
}

/// A call takes at least its name.
pub proof fn lemma_call_advances(s: Seq<char>, pos: int)
    requires
        0 <= pos <= s.len(),
    ensures
        call(s, pos).advances(s, pos),
    decreases s.len() - pos, 0int,
{
    lemma_var_advances(s, pos);
    if let Outcome::Parsed(_, after_name) = var(s, pos) {
        lemma_sym_advances(s, after_name, '(');
        if let Outcome::Parsed(_, after_open) = sym(s, after_name, '(') {
            lemma_args_stay(s, after_open);
            if let Outcome::Parsed(_, after_list) = args(s, after_open) {
                lemma_sym_advances(s, after_list, ')');
            }
        }
    }
}

/// An atom takes at least one character.
pub proof fn lemma_atom_advances(s: Seq<char>, pos: int)
    requires
        0 <= pos <= s.len(),
    ensures
        atom(s, pos).advances(s, pos),
        atom(s, pos).advancing(s, pos) == atom(s, pos),
    decreases s.len() - pos, 1int,
{
    lemma_call_advances(s, pos);
    lemma_decimal_advances(s, pos);
    lemma_free_var_advances(s, pos);
    lemma_var_advances(s, pos);
}

/// An expression takes at least one character.
pub proof fn lemma_expr_advances(s: Seq<char>, pos: int)
    requires
        0 <= pos <= s.len(),
    ensures
        expr(s, pos).advances(s, pos),
        expr(s, pos).advancing(s, pos) == expr(s, pos),
    decreases s.len() - pos, 2int,
{
    lemma_atom_advances(s, pos);
    if let Outcome::Parsed(first, next) = atom(s, pos) {
        lemma_more_terms_stay(s, next, first);
    }
}

/// The rest of a sum ends where it began or later.
pub proof fn lemma_more_terms_stay(s: Seq<char>, pos: int, left: ExprView)
    requires
        0 <= pos <= s.len(),
    ensures
        more_terms(s, pos, left).stays(s, pos),
        !(more_terms(s, pos, left) is Miss),
    decreases s.len() - pos, 0int,
{
    lemma_sym_advances(s, pos, '+');
    if let Outcome::Parsed(_, after_plus) = sym(s, pos, '+') {
        lemma_atom_advances(s, after_plus);
        if let Outcome::Parsed(right, next) = atom(s, after_plus) {
            lemma_more_terms_stay(s, next, ExprView::Plus(Box::new(left), Box::new(right)));
        }
    }
}

/// The arguments of a call end where they began or later, and are never missing.
pub proof fn lemma_args_stay(s: Seq<char>, pos: int)
    requires
        0 <= pos <= s.len(),
    ensures
        args(s, pos).stays(s, pos),
        !(args(s, pos) is Miss),
    decreases s.len() - pos, 3int,
{
    lemma_expr_advances(s, pos);
    if let Outcome::Parsed(first, next) = expr(s, pos) {
        lemma_more_args_stay(s, next, seq![first]);
    }
}

/// The rest of a list of arguments ends where it began or later.
pub proof fn lemma_more_args_stay(s: Seq<char>, pos: int, found: Seq<ExprView>)
    requires
        0 <= pos <= s.len(),
    ensures
        more_args(s, pos, found).stays(s, pos),
        !(more_args(s, pos, found) is Miss),
    decreases s.len() - pos, 0int,
{
    lemma_sym_advances(s, pos, ',');
    if let Outcome::Parsed(_, after_comma) = sym(s, pos, ',') {
        lemma_expr_advances(s, after_comma);
        if let Outcome::Parsed(item, next) = expr(s, after_comma) {
            lemma_more_args_stay(s, next, found.push(item));
        }
    }
}

/// A statement takes at least its name.
pub proof fn lemma_statement_advances(s: Seq<char>, pos: int)
    requires
        0 <= pos <= s.len(),
    ensures
        assign(s, pos).advances(s, pos),
        statement(s, pos).advances(s, pos),
        statement(s, pos).advancing(s, pos) == statement(s, pos),
{
    lemma_var_advances(s, pos);
    if let Outcome::Parsed(_, after_name) = var(s, pos) {
        lemma_sym_advances(s, after_name, '=');
        if let Outcome::Parsed(_, after_eq) = sym(s, after_name, '=') {
            lemma_expr_advances(s, after_eq);
            if let Outcome::Parsed(_, after) = expr(s, after_eq) {
                lemma_sym_advances(s, after, ';');
            }
        }
    }
}

/// Statements end where they began or later, and are never missing.
pub proof fn lemma_statements_stay(s: Seq<char>, pos: int, found: Seq<StatementView>)
    requires
        0 <= pos <= s.len(),
    ensures
        statements(s, pos, found).stays(s, pos),
        !(statements(s, pos, found) is Miss),
    decreases s.len() - pos,
{
    lemma_statement_advances(s, pos);
    if let Outcome::Parsed(bound, next) = statement(s, pos) {
        lemma_statements_stay(s, next, found.push(bound));
    }
}

/// A parameter takes at least its name, and never fails.
pub proof fn lemma_arg_advances(s: Seq<char>, pos: int)
    requires
        0 <= pos <= s.len(),
    ensures
        arg(s, pos).advances(s, pos),
        arg(s, pos).advancing(s, pos) == arg(s, pos),
        !(arg(s, pos) is Fail),
{
    lemma_var_advances(s, pos);
    if let Outcome::Parsed(_, after_name) = var(s, pos) {
        lemma_sym_advances(s, after_name, ':');
        if let Outcome::Parsed(_, after_colon) = sym(s, after_name, ':') {
            lemma_var_advances(s, after_colon);
        }
    }
}

/// The parameters of a block end where they began or later, and are there
/// always: a list that is not well formed is a shorter list.
pub proof fn lemma_params_stay(s: Seq<char>, pos: int)
    requires
        0 <= pos <= s.len(),
    ensures
        params(s, pos).stays(s, pos),
        params(s, pos) is Parsed,
{
    lemma_arg_advances(s, pos);
    if let Outcome::Parsed(first, next) = arg(s, pos) {
        lemma_more_params_stay(s, next, seq![first]);
    }
}

/// The rest of a list of parameters ends where it began or later.
pub proof fn lemma_more_params_stay(s: Seq<char>, pos: int, found: Seq<(Seq<char>, Type)>)
    requires
        0 <= pos <= s.len(),
    ensures
        more_params(s, pos, found).stays(s, pos),
        more_params(s, pos, found) is Parsed,
    decreases s.len() - pos,
{
    lemma_sym_advances(s, pos, ',');
    if let Outcome::Parsed(_, after_comma) = sym(s, pos, ',') {
        lemma_arg_advances(s, after_comma);
        if let Outcome::Parsed(item, next) = arg(s, after_comma) {
            lemma_more_params_stay(s, next, found.push(item));
        }
    }
}

/// What `fn` owes is there or fails, and takes at least the block's name.
pub proof fn lemma_fun_advances(s: Seq<char>, pos: int)
    requires
        0 <= pos <= s.len(),
    ensures
        fun(s, pos).advances(s, pos),
        !(fun(s, pos) is Miss),
{
    lemma_var_advances(s, pos);
    if let Outcome::Parsed(_, at_open) = var(s, pos) {
        lemma_sym_advances(s, at_open, '(');
        if let Outcome::Parsed(_, at_params) = sym(s, at_open, '(') {
            lemma_params_stay(s, at_params);
            if let Outcome::Parsed(_, at_close) = params(s, at_params) {
                lemma_sym_advances(s, at_close, ')');
                if let Outcome::Parsed(_, at_brace) = sym(s, at_close, ')') {
                    lemma_sym_advances(s, at_brace, '{');
                    if let Outcome::Parsed(_, at_body) = sym(s, at_brace, '{') {
                        lemma_statements_stay(s, at_body, Seq::empty());
                        if let Outcome::Parsed(_, at_end) = statements(s, at_body, Seq::empty()) {
                            lemma_sym_advances(s, at_end, '}');
                        }
                    }
                }
            }
        }
    }
}

/// A block takes at least its keyword.
pub proof fn lemma_block_advances(s: Seq<char>, pos: int)
    requires
        0 <= pos <= s.len(),
    ensures
        block(s, pos).advances(s, pos),
        block(s, pos).advancing(s, pos) == block(s, pos),
{
    lemma_var_advances(s, pos);
    if let Outcome::Parsed(_, next) = keyword(s, pos, "fn"@) {
        lemma_fun_advances(s, next);
    }
}

/// Blocks end where they began or later, and are never missing.
pub proof fn lemma_blocks_stay(s: Seq<char>, pos: int, found: Seq<BlockView>)
    requires
        0 <= pos <= s.len(),
    ensures
        blocks(s, pos, found).stays(s, pos),
        !(blocks(s, pos, found) is Miss),
    decreases s.len() - pos,
{
    lemma_block_advances(s, pos);
    if let Outcome::Parsed(scope, next) = block(s, pos) {
        lemma_blocks_stay(s, next, found.push(scope));
    }
}

} // verus!
