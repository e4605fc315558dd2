use peybot::error::ErrorKind;
use peybot::price_text::{clean_price_text, parse_price, read_price};

#[test]
fn cleaning_removes_commas_spaces_and_joiners() {
    assert_eq!(clean_price_text("1,050,000"), "1050000");
    assert_eq!(clean_price_text(" 1 050 000 "), "1050000");
    assert_eq!(clean_price_text("1,050,000\u{200c}"), "1050000");
    assert_eq!(clean_price_text(",, \u{200c}"), "");
    assert_eq!(clean_price_text(""), "");
}

#[test]
fn cleaning_keeps_every_other_character() {
    assert_eq!(clean_price_text("12a,3"), "12a3");
    assert_eq!(clean_price_text("\n1,000\t"), "\n1000\t");
    assert_eq!(clean_price_text("-5"), "-5");
    assert_eq!(clean_price_text("1.5"), "1.5");
    assert_eq!(clean_price_text("1\u{200d}2"), "1\u{200d}2");
    assert_eq!(clean_price_text("۱٬۰۵۰"), "۱٬۰۵۰");
}

#[test]
fn parsing_reads_runs_of_digits() {
    assert_eq!(parse_price("0"), Some(0));
    assert_eq!(parse_price("7"), Some(7));
    assert_eq!(parse_price("1050000"), Some(1_050_000));
    assert_eq!(parse_price("007"), Some(7));
    assert_eq!(parse_price("900000"), Some(900_000));
}

#[test]
fn parsing_accepts_the_largest_signed_value() {
    assert_eq!(parse_price("9223372036854775807"), Some(i64::MAX));
    assert_eq!(parse_price("09223372036854775807"), Some(i64::MAX));
}

#[test]
fn parsing_refuses_what_does_not_fit() {
    assert_eq!(parse_price("9223372036854775808"), None);
    assert_eq!(parse_price("9223372036854775810"), None);
    assert_eq!(parse_price("18446744073709551616"), None);
    assert_eq!(parse_price("99999999999999999999999"), None);
}

#[test]
fn parsing_refuses_the_empty_text() {
    assert_eq!(parse_price(""), None);
}

#[test]
fn parsing_refuses_signs_and_other_characters() {
    assert_eq!(parse_price("+5"), None);
    assert_eq!(parse_price("-5"), None);
    assert_eq!(parse_price("12a"), None);
    assert_eq!(parse_price("a12"), None);
    assert_eq!(parse_price("1.5"), None);
    assert_eq!(parse_price("1 2"), None);
    assert_eq!(parse_price("1,2"), None);
    assert_eq!(parse_price("12\n"), None);
    assert_eq!(parse_price("/"), None);
    assert_eq!(parse_price(":"), None);
}

#[test]
fn parsing_refuses_digits_of_other_scripts() {
    assert_eq!(parse_price("۱۰۵۰۰۰۰"), None);
    assert_eq!(parse_price("١٢٣"), None);
    assert_eq!(parse_price("１２"), None);
}

#[test]
fn reading_cleans_before_it_parses() {
    assert_eq!(read_price("1,050,000"), Ok(1_050_000));
    assert_eq!(read_price(" 900,000 \u{200c}"), Ok(900_000));
    assert_eq!(read_price("1\u{200c}2"), Ok(12));
}

#[test]
fn reading_fails_with_parse_error() {
    assert_eq!(read_price(""), Err(ErrorKind::ParseError));
    assert_eq!(read_price(" , "), Err(ErrorKind::ParseError));
    assert_eq!(read_price("1,050,000 ریال"), Err(ErrorKind::ParseError));
    assert_eq!(read_price("\n1,050,000\n"), Err(ErrorKind::ParseError));
    assert_eq!(read_price("-1,000"), Err(ErrorKind::ParseError));
    assert_eq!(read_price("9,223,372,036,854,775,808"), Err(ErrorKind::ParseError));
}

#[test]
fn local_digits_with_comma_and_joiner_fail() {
    assert_eq!(read_price("۱,۰۵۰\u{200c},۰۰۰"), Err(ErrorKind::ParseError));
    assert_eq!(clean_price_text("۱,۰۵۰\u{200c},۰۰۰"), "۱۰۵۰۰۰۰");
}
