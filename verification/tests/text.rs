use validator_store::text::{decimal_text, push_decimal, signed_decimal_text};

#[test]
fn numerals_have_no_leading_zeros() {
    assert_eq!(decimal_text(0), "0");
    assert_eq!(decimal_text(7), "7");
    assert_eq!(decimal_text(10), "10");
    assert_eq!(decimal_text(1234567890), "1234567890");
    assert_eq!(decimal_text(u64::MAX), "18446744073709551615");
}

#[test]
fn negative_numerals_carry_a_sign() {
    assert_eq!(signed_decimal_text(0), "0");
    assert_eq!(signed_decimal_text(-1), "-1");
    assert_eq!(signed_decimal_text(24940), "24940");
    assert_eq!(signed_decimal_text(i32::MIN), "-2147483648");
    assert_eq!(signed_decimal_text(i32::MAX), "2147483647");
}

#[test]
fn numerals_are_appended_to_what_is_there() {
    let mut out = String::from("$");
    push_decimal(&mut out, 42);
    push_decimal(&mut out, 0);
    push_decimal(&mut out, u128::MAX);
    assert_eq!(out, "$420340282366920938463463374607431768211455");
}
