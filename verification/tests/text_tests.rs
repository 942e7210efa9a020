//! Tests of the text helpers: decimal numbers and splitting.

use parsed_to_plot::text::join_char;
use parsed_to_plot::text::parse_dec;
use parsed_to_plot::text::render_dec_exec;
use parsed_to_plot::text::split_char;

#[test]
fn decimal_parsing_exact_values() {
    assert_eq!(parse_dec("0").unwrap(), 0);
    assert_eq!(parse_dec("42").unwrap(), 42);
    assert_eq!(parse_dec("007").unwrap(), 7);
    assert!(parse_dec("").is_err());
    assert!(parse_dec("4a2").is_err());
    assert!(parse_dec("-1").is_err());
}

#[test]
fn decimal_rendering_exact_values() {
    assert_eq!(render_dec_exec(0), "0");
    assert_eq!(render_dec_exec(9), "9");
    assert_eq!(render_dec_exec(10), "10");
    assert_eq!(render_dec_exec(407), "407");
}

#[test]
fn split_and_join_are_inverse() {
    let line = "a\tbb\t\tccc";
    let parts = split_char(line, '\t');
    assert_eq!(parts, vec!["a", "bb", "", "ccc"]);
    let back = join_char(&parts, '\t');
    assert_eq!(back, line);
}

#[test]
fn split_of_empty_is_one_empty_field() {
    let parts = split_char("", '\t');
    assert_eq!(parts, vec![""]);
}
