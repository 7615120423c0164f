use etree::ast::Expr;
use etree::decimal::{literal_span, Decimal};
use etree::parse::str_to_numexpr;

fn canonical_text(literal: &str) -> Option<String> {
    Decimal::parse(literal).map(|number| number.text().to_string())
}

#[test]
fn a_literal_without_spare_zeros_stays() {
    assert_eq!(canonical_text("0"), Some("0".to_string()));
    assert_eq!(canonical_text("7"), Some("7".to_string()));
    assert_eq!(canonical_text("10"), Some("10".to_string()));
    assert_eq!(canonical_text("0.5"), Some("0.5".to_string()));
    assert_eq!(canonical_text("0.0"), Some("0.0".to_string()));
    assert_eq!(canonical_text("3.14159"), Some("3.14159".to_string()));
    assert_eq!(canonical_text("100.001"), Some("100.001".to_string()));
}

#[test]
fn zeros_at_the_front_are_left_out() {
    assert_eq!(canonical_text("007"), Some("7".to_string()));
    assert_eq!(canonical_text("000"), Some("0".to_string()));
    assert_eq!(canonical_text("00.50"), Some("0.50".to_string()));
    assert_eq!(canonical_text("0010.0100"), Some("10.0100".to_string()));
    assert_eq!(canonical_text("000.000"), Some("0.000".to_string()));
}

#[test]
fn zeros_at_the_end_of_the_fraction_stay() {
    assert_eq!(canonical_text("1.0"), Some("1.0".to_string()));
    assert_eq!(canonical_text("1.00"), Some("1.00".to_string()));
    assert_eq!(canonical_text("1.500"), Some("1.500".to_string()));
    assert_eq!(canonical_text("0.0000000001000"), Some("0.0000000001000".to_string()));
}

#[test]
fn small_and_large_numbers_keep_every_digit() {
    let small = "0.00000000000000000000000000000000000000000000000001";
    assert_eq!(canonical_text(small), Some(small.to_string()));
    let large = "1234567890123456789012345678901234567890123456789012345678901234567890";
    assert_eq!(canonical_text(large), Some(large.to_string()));
    let both = "98765432109876543210987654321098765432109876543210.01234567890123456789012345678901234567890";
    assert_eq!(canonical_text(both), Some(both.to_string()));
    let zeros = "0000000000000000000000000000000000000000.0000000000000000000000000000000000000000";
    assert_eq!(
        canonical_text(zeros),
        Some("0.0000000000000000000000000000000000000000".to_string())
    );
}

#[test]
fn text_that_is_no_literal_is_no_number() {
    assert_eq!(canonical_text(""), None);
    assert_eq!(canonical_text("."), None);
    assert_eq!(canonical_text("1."), None);
    assert_eq!(canonical_text(".5"), None);
    assert_eq!(canonical_text("1.5.2"), None);
    assert_eq!(canonical_text("-1"), None);
    assert_eq!(canonical_text("+1"), None);
    assert_eq!(canonical_text("1e5"), None);
    assert_eq!(canonical_text("1E-5"), None);
    assert_eq!(canonical_text("1_000"), None);
    assert_eq!(canonical_text(" 1"), None);
    assert_eq!(canonical_text("1 "), None);
    assert_eq!(canonical_text("1,5"), None);
    assert_eq!(canonical_text("12a"), None);
    assert_eq!(canonical_text("\u{661}\u{662}"), None);
    assert_eq!(canonical_text("\u{ff11}"), None);
}

#[test]
fn numbers_are_equal_where_their_texts_are() {
    assert_eq!(Decimal::parse("007"), Decimal::parse("7"));
    assert_eq!(Decimal::parse("01.50"), Decimal::parse("1.50"));
    assert_ne!(Decimal::parse("1.5"), Decimal::parse("1.50"));
    assert_ne!(Decimal::parse("1"), Decimal::parse("2"));
    let number = Decimal::parse("42.0").unwrap();
    assert_eq!(number.clone(), number);
}

#[test]
fn a_literal_is_a_number_expression() {
    assert_eq!(str_to_numexpr("004.20"), Some(Expr::Num(Decimal::parse("4.20").unwrap())));
    assert_eq!(str_to_numexpr("4.2x"), None);
    assert_eq!(str_to_numexpr(""), None);
}

#[test]
fn a_literal_ends_after_its_last_digit() {
    let text: Vec<char> = "12.5.x 3. 42 a".chars().collect();
    assert_eq!(literal_span(&text, 0), 4);
    assert_eq!(literal_span(&text, 1), 4);
    assert_eq!(literal_span(&text, 2), 2);
    assert_eq!(literal_span(&text, 3), 4);
    assert_eq!(literal_span(&text, 7), 8);
    assert_eq!(literal_span(&text, 10), 12);
    assert_eq!(literal_span(&text, 13), 13);
    assert_eq!(literal_span(&text, 14), 14);
}
