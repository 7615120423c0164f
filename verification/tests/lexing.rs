use etree::grammar::Expected;
use etree::lex::{begins_word, chars_of, scan, text_of, CharClass};
use etree::parse::{keyword, locate, sym, var, var_owned, word_span, Parse};

fn letters(text: &str) -> Vec<char> {
    text.chars().collect()
}

#[test]
fn the_classes_of_characters() {
    for c in [' ', '\t', '\r', '\n'] {
        assert!(CharClass::Blank.test(c));
    }
    for c in ['a', '_', '0', '\u{a0}', '\u{2003}', '\u{b}', '\u{c}'] {
        assert!(!CharClass::Blank.test(c));
    }
    for c in ['0', '5', '9'] {
        assert!(CharClass::Digit.test(c));
        assert!(CharClass::Word.test(c));
        assert!(!begins_word(c));
    }
    for c in ['/', ':', 'a', '\u{661}'] {
        assert!(!CharClass::Digit.test(c));
    }
    for c in ['a', 'z', 'A', 'Z', 'm', '_'] {
        assert!(CharClass::Word.test(c));
        assert!(begins_word(c));
    }
    for c in ['@', '[', '`', '{', '-', '\'', '\u{e9}', '\u{3b1}'] {
        assert!(!CharClass::Word.test(c));
        assert!(!begins_word(c));
    }
}

#[test]
fn a_run_ends_before_the_first_character_of_another_kind() {
    let text = letters("ab12_  \t\n12.x");
    assert_eq!(scan(&text, 0, CharClass::Word), 5);
    assert_eq!(scan(&text, 2, CharClass::Digit), 4);
    assert_eq!(scan(&text, 0, CharClass::Digit), 0);
    assert_eq!(scan(&text, 5, CharClass::Blank), 9);
    assert_eq!(scan(&text, 9, CharClass::Digit), 11);
    assert_eq!(scan(&text, 12, CharClass::Word), 13);
    assert_eq!(scan(&text, 13, CharClass::Word), 13);
    assert_eq!(scan(&[], 0, CharClass::Blank), 0);
}

#[test]
fn characters_are_copied_one_for_one() {
    assert_eq!(chars_of(""), Vec::<char>::new());
    assert_eq!(chars_of("a\u{e9}\u{4eac}\u{1f49d}b"), vec!['a', '\u{e9}', '\u{4eac}', '\u{1f49d}', 'b']);
}

#[test]
fn a_stretch_of_characters_as_a_string() {
    let text = letters("fn m\u{e9}in()");
    assert_eq!(text_of(&text, 0, 2), "fn");
    assert_eq!(text_of(&text, 3, 7), "m\u{e9}in");
    assert_eq!(text_of(&text, 4, 4), "");
    assert_eq!(text_of(&text, 0, text.len()), "fn m\u{e9}in()");
}

#[test]
fn a_symbol_takes_the_blanks_after_it() {
    let text = letters("( \n\t)x");
    assert_eq!(sym(&text, 0, '('), Parse::Parsed((), 4));
    assert_eq!(sym(&text, 4, ')'), Parse::Parsed((), 5));
    assert_eq!(sym(&text, 0, ')'), Parse::Miss);
    assert_eq!(sym(&text, 1, '('), Parse::Miss);
    assert_eq!(sym(&text, 6, 'x'), Parse::Miss);
}

#[test]
fn an_identifier_takes_the_blanks_after_it() {
    let text = letters("_a1b  = 9z");
    assert_eq!(word_span(&text, 0), 4);
    assert_eq!(word_span(&text, 2), 2);
    assert_eq!(word_span(&text, 3), 4);
    assert_eq!(var_owned(&text, 0), Parse::Parsed("_a1b".to_string(), 6));
    assert_eq!(var(&text, 0), Parse::Parsed(&text[0..4], 6));
    assert_eq!(var_owned(&text, 1), Parse::Parsed("a1b".to_string(), 6));
    assert_eq!(var_owned(&text, 2), Parse::Miss);
    assert_eq!(var_owned(&text, 4), Parse::Miss);
    assert_eq!(var_owned(&text, 8), Parse::Miss);
    assert_eq!(var_owned(&text, 9), Parse::Parsed("z".to_string(), 10));
    assert_eq!(var_owned(&text, 10), Parse::Miss);
}

#[test]
fn a_keyword_is_all_of_an_identifier() {
    let text = letters("fn fnx f float floats");
    assert_eq!(keyword(&text, 0, "fn"), Parse::Parsed((), 3));
    assert_eq!(keyword(&text, 3, "fn"), Parse::Miss);
    assert_eq!(keyword(&text, 7, "fn"), Parse::Miss);
    assert_eq!(keyword(&text, 9, "float"), Parse::Parsed((), 15));
    assert_eq!(keyword(&text, 15, "float"), Parse::Miss);
    assert_eq!(keyword(&text, 1, "n"), Parse::Parsed((), 3));
}

#[test]
fn lines_and_columns_count_from_one() {
    let text = letters("ab\ncd\r\n\nxyz");
    assert_eq!(locate(&text, 0), (1, 1));
    assert_eq!(locate(&text, 2), (1, 3));
    assert_eq!(locate(&text, 3), (2, 1));
    assert_eq!(locate(&text, 5), (2, 3));
    assert_eq!(locate(&text, 6), (2, 4));
    assert_eq!(locate(&text, 7), (3, 1));
    assert_eq!(locate(&text, 8), (4, 1));
    assert_eq!(locate(&text, 11), (4, 4));
}

#[test]
fn what_was_owed_is_plain_data() {
    let owed = Expected::Symbol(')');
    let copy = owed;
    assert_eq!(owed, copy);
    assert_ne!(Expected::Symbol('('), Expected::Symbol(')'));
    assert_ne!(Expected::Identifier, Expected::Expression);
}
