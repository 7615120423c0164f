//! Decimal literals of any length, kept digit for digit.

use crate::lex::{chars_of, is_digit, lemma_run, lemma_run_is, run_end, scan, CharClass};
use bigdecimal::{BigDecimal, Num};
use vstd::prelude::*;

verus! {

/// Where the decimal literal that begins at `pos` ends: after its digits, and
/// after a point and more digits where these follow. It is `pos` where no
/// digit stands.
pub open spec fn literal_end(s: Seq<char>, pos: int) -> int {
    let point = run_end(s, pos, CharClass::Digit);
    if pos < point < s.len() && s[point] == '.' && run_end(s, point + 1, CharClass::Digit) > point
        + 1 {
        run_end(s, point + 1, CharClass::Digit)
    } else {
        point
    }
}

/// Whether all of `t` is one decimal literal: digits, or digits, a point and digits.
pub open spec fn is_literal(t: Seq<char>) -> bool {
    0 < literal_end(t, 0) == t.len()
}

/// The literal without the zeros at its front that its value does without:
/// `007` is `7`, `00.50` is `0.50`, and `0` stays.
pub open spec fn canonical(t: Seq<char>) -> Seq<char>
    decreases t.len(),
{
    if t.len() >= 2 && t[0] == '0' && is_digit(t[1]) {
        canonical(t.skip(1))
    } else {
        t
    }
}

/// Whether `t` is a literal that `canonical` leaves as it is.
pub open spec fn is_canonical(t: Seq<char>) -> bool {
    is_literal(t) && canonical(t) == t
}

/// A literal is made of an integer part of at least one digit and, if anything
/// follows, a point and a fraction of at least one digit.
pub proof fn lemma_literal_parts(t: Seq<char>)
    requires
        is_literal(t),
    ensures
        ({
            let point = run_end(t, 0, CharClass::Digit);
            &&& 0 < point <= t.len()
            &&& forall|k: int| 0 <= k < point ==> is_digit(#[trigger] t[k])
            &&& point < t.len() ==> t[point] == '.' && point + 1 < t.len()
            &&& forall|k: int| point < k < t.len() ==> is_digit(#[trigger] t[k])
        }),
{
    let point = run_end(t, 0, CharClass::Digit);
    lemma_run(t, 0, CharClass::Digit);
    if point < t.len() {
        lemma_run(t, point + 1, CharClass::Digit);
    }
}

/// Text of the shape that `lemma_literal_parts` describes is a literal.
pub proof fn lemma_parts_literal(t: Seq<char>, point: int)
    requires
        0 < point <= t.len(),
        forall|k: int| 0 <= k < point ==> is_digit(#[trigger] t[k]),
        point < t.len() ==> t[point] == '.' && point + 1 < t.len(),
        forall|k: int| point < k < t.len() ==> is_digit(#[trigger] t[k]),
    ensures
        is_literal(t),
        run_end(t, 0, CharClass::Digit) == point,
{
    lemma_run_is(t, 0, point, CharClass::Digit);
    if point < t.len() {
        lemma_run_is(t, point + 1, t.len() as int, CharClass::Digit);
    }
}

/// The text between `pos` and the end of the literal that begins there is a
/// literal by itself, where a digit stands at `pos`.
pub proof fn lemma_literal_at(s: Seq<char>, pos: int)
    requires
        0 <= pos < literal_end(s, pos),
    ensures
        literal_end(s, pos) <= s.len(),
        is_literal(s.subrange(pos, literal_end(s, pos))),
{
    let point = run_end(s, pos, CharClass::Digit);
    let end = literal_end(s, pos);
    lemma_run(s, pos, CharClass::Digit);
    if end > point {
        lemma_run(s, point + 1, CharClass::Digit);
    }
    let t = s.subrange(pos, end);
    lemma_parts_literal(t, point - pos);
}

/// The canonical form of a literal is a literal, and canonical.
pub proof fn lemma_canonical(t: Seq<char>)
    requires
        is_literal(t),
    ensures
        is_canonical(canonical(t)),
    decreases t.len(),
{
    lemma_literal_parts(t);
    if t.len() >= 2 && t[0] == '0' && is_digit(t[1]) {
        let point = run_end(t, 0, CharClass::Digit);
        let u = t.skip(1);
        assert(point >= 2) by {
            if point < 2 {
                assert(!is_digit(t[point]));
            }
        }
        lemma_parts_literal(u, point - 1);
        lemma_canonical(u);
    }
}

/// A decimal number of any length. It holds the canonical text of the literal
/// that it came from, and so keeps every digit of its fraction.
#[derive(Debug, PartialEq, Eq)]
pub struct Decimal {
    text: String,
}

/// What `bigdecimal` makes of a literal: `BigDecimal::from_str_radix` with
/// radix 10 reads it, and the number's `Display` writes it again. Read from a
/// string of digits, or digits, a point and digits, the number keeps the digits
/// as an integer together with the length of the fraction, and `Display` writes
/// that integer with the point put back: the text comes out as it went in, but
/// for zeros before the first digit that the integer part needs.
#[verifier::external_body]
fn written_by_bigdecimal(literal: &str) -> (text: Option<String>)
    requires
        is_literal(literal@),
    ensures
        text is Some,
        text matches Some(t) ==> t@ == canonical(literal@),
{
    match BigDecimal::from_str_radix(literal, 10) {
        Ok(number) => Some(number.to_string()),
        Err(_) => None,
    }
}

/// Finds the end of the decimal literal that begins at `pos`.
pub fn literal_span(input: &[char], pos: usize) -> (end: usize)
    requires
        pos <= input@.len(),
    ensures
        end == literal_end(input@, pos as int),
        pos <= end <= input@.len(),
{
    let point = scan(input, pos, CharClass::Digit);
    if pos < point && point < input.len() && input[point] == '.' {
        let end = scan(input, point + 1, CharClass::Digit);
        if end > point + 1 {
            return end;
        }
    }
    point
}

impl Decimal {
    /// A number's text is a literal in canonical form.
    #[verifier::type_invariant]
    spec fn well_formed(self) -> bool {
        is_canonical(self.text@)
    }

    /// The number's text.
    pub closed spec fn view(&self) -> Seq<char> {
        self.text@
    }

    /// The number that a literal stands for.
    pub(crate) fn of_literal(literal: &str) -> (number: Option<Decimal>)
        requires
            is_literal(literal@),
        ensures
            number matches Some(d) && d@ == canonical(literal@),
    {
        match written_by_bigdecimal(literal) {
            Some(text) => {
                proof {
                    lemma_canonical(literal@);
                }
                Some(Decimal { text })
            },
            None => None,
        }
    }

    /// Reads a number from text that is one decimal literal, and nothing from
    /// other text.
    pub fn parse(text: &str) -> (number: Option<Decimal>)
        ensures
            number is Some <==> is_literal(text@),
            number matches Some(d) ==> d@ == canonical(text@),
    {
        let chars = chars_of(text);
        let end = literal_span(chars.as_slice(), 0);
        if 0 < end && end == chars.len() {
            Decimal::of_literal(text)
        } else {
            None
        }
    }

    /// The number's text: its digits, with a point before the fraction where it has one.
    pub fn text(&self) -> (text: &str)
        ensures
            text@ == self@,
            is_canonical(text@),
    {
        proof {
            use_type_invariant(self);
        }
        self.text.as_str()
    }
}

impl Clone for Decimal {
    /// A copy is the same number.
    fn clone(&self) -> (copy: Decimal)
        ensures
            copy@ == self@,
    {
        proof {
            use_type_invariant(self);
        }
        Decimal { text: self.text.clone() }
    }
}

} // verus!
