//! Errors in words.

use crate::eval::{EvalError, EvalFault};
use crate::grammar::Expected;
use crate::lex::push_char;
use crate::parse::ParseError;
use vstd::prelude::*;
use vstd::string::StringExecFns;

verus! {

/// The character of a digit's value, for values below ten.
pub open spec fn digit(value: nat) -> char {
    if value == 0 {
        '0'
    } else if value == 1 {
        '1'
    } else if value == 2 {
        '2'
    } else if value == 3 {
        '3'
    } else if value == 4 {
        '4'
    } else if value == 5 {
        '5'
    } else if value == 6 {
        '6'
    } else if value == 7 {
        '7'
    } else if value == 8 {
        '8'
    } else {
        '9'
    }
}

/// A number as it is written in decimal digits.
pub open spec fn digits_of(n: nat) -> Seq<char>
    decreases n,
{
    if n < 10 {
        seq![digit(n)]
    } else {
        digits_of(n / 10).push(digit(n % 10))
    }
}

/// The character of a digit's value.
fn digit_char(value: usize) -> (c: char)
    requires
        value < 10,
    ensures
        c == digit(value as nat),
{
    if value == 0 {
        '0'
    } else if value == 1 {
        '1'
    } else if value == 2 {
        '2'
    } else if value == 3 {
        '3'
    } else if value == 4 {
        '4'
    } else if value == 5 {
        '5'
    } else if value == 6 {
        '6'
    } else if value == 7 {
        '7'
    } else if value == 8 {
        '8'
    } else {
        '9'
    }
}

/// Writes a number in decimal digits.
pub fn number_text(n: usize) -> (text: String)
    ensures
        text@ == digits_of(n as nat),
    decreases n,
{
    let mut text = if n < 10 {
        String::new()
    } else {
        number_text(n / 10)
    };
    push_char(&mut text, digit_char(n % 10));
    assert(n < 10 ==> text@ =~= seq![digit(n as nat)]);
    text
}

impl Expected {
    /// What was owed, in words.
    pub open spec fn description(self) -> Seq<char> {
        match self {
            Expected::Identifier => "identifier"@,
            Expected::Symbol(c) => seq!['`', c, '`'],
            Expected::Expression => "expression"@,
            Expected::EndOfInput => "end of input"@,
        }
    }

    /// Says in words what was owed.
    pub fn describe(&self) -> (text: String)
        ensures
            text@ == self.description(),
    {
        match self {
            Expected::Identifier => String::from_str("identifier"),
            Expected::Symbol(c) => {
                let mut text = String::new();
                push_char(&mut text, '`');
                push_char(&mut text, *c);
                push_char(&mut text, '`');
                assert(text@ =~= seq!['`', *c, '`']);
                text
            },
            Expected::Expression => String::from_str("expression"),
            Expected::EndOfInput => String::from_str("end of input"),
        }
    }
}

impl ParseError {
    /// The error in words.
    pub open spec fn text(self) -> Seq<char> {
        match self {
            ParseError::AtStart { expected } => "Parse error at start: expected "@
                + expected.description(),
            ParseError::At { line, column, expected } => "Parse error on line "@ + digits_of(
                line as nat,
            ) + " char "@ + digits_of(column as nat) + ": expected "@ + expected.description(),
        }
    }

    /// Says the error in words.
    pub fn message(&self) -> (text: String)
        ensures
            text@ == self.text(),
    {
        match self {
            ParseError::AtStart { expected } => {
                let mut text = String::from_str("Parse error at start: expected ");
                text.append(expected.describe().as_str());
                text
            },
            ParseError::At { line, column, expected } => {
                let mut text = String::from_str("Parse error on line ");
                text.append(number_text(*line).as_str());
                text.append(" char ");
                text.append(number_text(*column).as_str());
                text.append(": expected ");
                text.append(expected.describe().as_str());
                text
            },
        }
    }
}

impl EvalFault {
    /// The error in words.
    pub open spec fn text(self) -> Seq<char> {
        match self {
            EvalFault::Redefinition(name) => "Already defined variable "@ + name,
            EvalFault::UndefinedVariable(name) => "Undefined variable "@ + name,
            EvalFault::MissingMain => "Could not find main function"@,
            EvalFault::MultipleMain => "Multiple main functions"@,
        }
    }
}

impl EvalError {
    /// Says the error in words.
    pub fn message(&self) -> (text: String)
        ensures
            text@ == self@.text(),
    {
        match self {
            EvalError::Redefinition(name) => {
                let mut text = String::from_str("Already defined variable ");
                text.append(name.as_str());
                text
            },
            EvalError::UndefinedVariable(name) => {
                let mut text = String::from_str("Undefined variable ");
                text.append(name.as_str());
                text
            },
            EvalError::MissingMain => String::from_str("Could not find main function"),
            EvalError::MultipleMain => String::from_str("Multiple main functions"),
        }
    }
}

} // verus!
