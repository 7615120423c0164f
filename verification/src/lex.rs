//! Characters and the maximal runs of them that tokens are made of.

use vstd::prelude::*;

verus! {

/// The sets of characters that a token can be a run of.
#[derive(Clone, Copy, Debug, PartialEq, Eq, Structural)]
pub enum CharClass {
    /// Space, tab, carriage return and line feed.
    Blank,
    /// The ten decimal digits.
    Digit,
    /// What an identifier continues with: a letter, a digit or an underscore.
    Word,
}

/// One of the 52 letters of ASCII.
pub open spec fn is_letter(c: char) -> bool {
    ('a' <= c && c <= 'z') || ('A' <= c && c <= 'Z')
}

/// One of the ten decimal digits of ASCII.
pub open spec fn is_digit(c: char) -> bool {
    '0' <= c && c <= '9'
}

/// Space, tab, carriage return or line feed.
pub open spec fn is_blank(c: char) -> bool {
    c == ' ' || c == '\t' || c == '\r' || c == '\n'
}

/// What an identifier begins with: a letter or an underscore.
pub open spec fn starts_word(c: char) -> bool {
    is_letter(c) || c == '_'
}

/// Whether `x` is written as an identifier: a letter or an underscore, and
/// then letters, digits and underscores.
pub open spec fn is_identifier(x: Seq<char>) -> bool {
    &&& x.len() > 0
    &&& starts_word(x[0])
    &&& forall|k: int| 0 <= k < x.len() ==> CharClass::Word.holds(#[trigger] x[k])
}

impl CharClass {
    /// Whether `c` belongs to the class.
    pub open spec fn holds(self, c: char) -> bool {
        match self {
            CharClass::Blank => is_blank(c),
            CharClass::Digit => is_digit(c),
            CharClass::Word => is_letter(c) || is_digit(c) || c == '_',
        }
    }

    /// Tells whether `c` belongs to the class.
    pub fn test(self, c: char) -> (b: bool)
        ensures
            b == self.holds(c),
    {
        match self {
            CharClass::Blank => c == ' ' || c == '\t' || c == '\r' || c == '\n',
            CharClass::Digit => '0' <= c && c <= '9',
            CharClass::Word => ('a' <= c && c <= 'z') || ('A' <= c && c <= 'Z') || ('0' <= c && c
                <= '9') || c == '_',
        }
    }
}

/// Tells whether an identifier can begin with `c`.
pub fn begins_word(c: char) -> (b: bool)
    ensures
        b == starts_word(c),
{
    ('a' <= c && c <= 'z') || ('A' <= c && c <= 'Z') || c == '_'
}

/// How many characters of `class` stand in a row in `s` from `from` on.
pub open spec fn run_len(s: Seq<char>, from: int, class: CharClass) -> nat
    decreases s.len() - from,
{
    if 0 <= from < s.len() && class.holds(s[from]) {
        1 + run_len(s, from + 1, class)
    } else {
        0
    }
}

/// Where the run of `class` that begins at `from` ends: the first position from
/// `from` on that holds no character of `class`.
pub open spec fn run_end(s: Seq<char>, from: int, class: CharClass) -> int {
    from + run_len(s, from, class)
}

/// A run lies within the text, holds only characters of its class, and stops
/// only at the end of the text or before a character of another kind.
pub proof fn lemma_run(s: Seq<char>, from: int, class: CharClass)
    requires
        0 <= from <= s.len(),
    ensures
        from <= run_end(s, from, class) <= s.len(),
        forall|k: int| from <= k < run_end(s, from, class) ==> class.holds(#[trigger] s[k]),
        run_end(s, from, class) < s.len() ==> !class.holds(s[run_end(s, from, class)]),
    decreases s.len() - from,
{
    if from < s.len() && class.holds(s[from]) {
        lemma_run(s, from + 1, class);
    }
}

/// The run that begins at `from` is the only stretch with the properties of `lemma_run`.
pub proof fn lemma_run_is(s: Seq<char>, from: int, end: int, class: CharClass)
    requires
        0 <= from <= end <= s.len(),
        forall|k: int| from <= k < end ==> class.holds(#[trigger] s[k]),
        end < s.len() ==> !class.holds(s[end]),
    ensures
        run_end(s, from, class) == end,
    decreases end - from,
{
    if from < end {
        assert(class.holds(s[from]));
        lemma_run_is(s, from + 1, end, class);
    }
}

/// Finds the end of the run of `class` that begins at `from`.
pub fn scan(input: &[char], from: usize, class: CharClass) -> (end: usize)
    requires
        from <= input@.len(),
    ensures
        end == run_end(input@, from as int, class),
        from <= end <= input@.len(),
{
    let mut end = from;
    while end < input.len() && class.test(input[end])
        invariant
            from <= end <= input@.len(),
            run_end(input@, from as int, class) == run_end(input@, end as int, class),
        decreases input@.len() - end,
    {
        end += 1;
    }
    end
}

/// Copies the characters of `text` into a vector, so that they can be read by
/// index. The vector has taken one character more for a moment: so the
/// position after the last character, counted from 1, is a `usize` too.
pub fn chars_of(text: &str) -> (chars: Vec<char>)
    ensures
        chars@ == text@,
        chars@.len() < usize::MAX,
{
    let mut chars: Vec<char> = Vec::new();
    for c in it: text.chars()
        invariant
            it.seq() == text@,
            chars@ == it.seq().take(it.index() as int),
    {
        chars.push(c);
    }
    let ghost copied = chars@;
    chars.push(' ');
    assert(chars.len() == copied.len() + 1);
    chars.pop();
    assert(chars@ == copied);
    chars
}

/// `String::push`: the string grows by the one character, at its end.
#[verifier::external_body]
pub(crate) fn push_char(text: &mut String, c: char)
    ensures
        final(text)@ == old(text)@.push(c),
{
    text.push(c)
}

/// The characters of `input` from `from` up to `to`, as a string.
pub fn text_of(input: &[char], from: usize, to: usize) -> (text: String)
    requires
        from <= to <= input@.len(),
    ensures
        text@ == input@.subrange(from as int, to as int),
{
    let mut text = String::new();
    let mut i = from;
    while i < to
        invariant
            from <= i <= to <= input@.len(),
            text@ == input@.subrange(from as int, i as int),
        decreases to - i,
    {
        push_char(&mut text, input[i]);
        i += 1;
    }
    text
}

} // verus!
