use what_the_brainfuck::numbers::parse_decimal;
use what_the_brainfuck::ops::BrainFuckError;

#[test]
fn parses_plain_decimals() {
    assert_eq!(parse_decimal("0"), Some(0));
    assert_eq!(parse_decimal("3"), Some(3));
    assert_eq!(parse_decimal("255"), Some(255));
    assert_eq!(parse_decimal("0042"), Some(42));
}

#[test]
fn rejects_empty_and_non_digit_text() {
    assert_eq!(parse_decimal(""), None);
    assert_eq!(parse_decimal(" 1"), None);
    assert_eq!(parse_decimal("1 "), None);
    assert_eq!(parse_decimal("12a"), None);
    assert_eq!(parse_decimal("-1"), None);
}

#[test]
fn parses_the_largest_u64_and_rejects_the_next_number() {
    assert_eq!(parse_decimal("18446744073709551615"), Some(u64::MAX));
    assert_eq!(parse_decimal("18446744073709551616"), None);
    assert_eq!(parse_decimal("99999999999999999999999"), None);
}

#[test]
fn error_messages_match_the_reported_categories() {
    assert_eq!(BrainFuckError::SyntaxError.message(), "SYNTAX ERROR");
    assert_eq!(BrainFuckError::IncorrectValue.message(), "INCORRECT VALUE");
    assert_eq!(
        BrainFuckError::PointerOutOfBound.message(),
        "POINTER OUT OF BOUNDS"
    );
    assert_eq!(BrainFuckError::InputExhausted.message(), "INPUT EXHAUSTED");
}
