use bbscript::text::{push_decimal, push_hex, push_number, push_tabs};

fn decimal_of(value: u128) -> String {
    let mut out = String::new();
    push_decimal(&mut out, value);
    out
}

fn number_of(value: i32) -> String {
    let mut out = String::new();
    push_number(&mut out, value);
    out
}

#[test]
fn decimal_of_single_digits() {
    assert_eq!(decimal_of(0), "0");
    assert_eq!(decimal_of(7), "7");
    assert_eq!(decimal_of(9), "9");
}

#[test]
fn decimal_of_longer_numbers() {
    assert_eq!(decimal_of(10), "10");
    assert_eq!(decimal_of(36), "36");
    assert_eq!(decimal_of(1_234_567_890), "1234567890");
    assert_eq!(decimal_of(u128::MAX), "340282366920938463463374607431768211455");
}

#[test]
fn decimal_is_appended() {
    let mut out = String::from("n=");
    push_decimal(&mut out, 405);
    assert_eq!(out, "n=405");
}

#[test]
fn number_with_sign() {
    assert_eq!(number_of(0), "0");
    assert_eq!(number_of(5), "5");
    assert_eq!(number_of(-5), "-5");
    assert_eq!(number_of(-120), "-120");
    assert_eq!(number_of(i32::MAX), "2147483647");
    assert_eq!(number_of(i32::MIN), "-2147483648");
}

#[test]
fn hex_is_upper_case_and_high_digit_first() {
    let mut out = String::new();
    push_hex(&mut out, &[0xAA, 0xBB, 0xCC]);
    assert_eq!(out, "AABBCC");
    let mut out = String::new();
    push_hex(&mut out, &[1, 2, 3, 15, 16]);
    assert_eq!(out, "0102030F10");
    let mut out = String::new();
    push_hex(&mut out, &[0x00, 0x9F, 0xF9, 0xFF]);
    assert_eq!(out, "009FF9FF");
}

#[test]
fn hex_of_nothing_is_empty() {
    let mut out = String::from("0x");
    push_hex(&mut out, &[]);
    assert_eq!(out, "0x");
}

#[test]
fn tabs_are_counted() {
    let mut out = String::from("a");
    push_tabs(&mut out, 0);
    assert_eq!(out, "a");
    push_tabs(&mut out, 3);
    assert_eq!(out, "a\t\t\t");
}
