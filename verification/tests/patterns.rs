use amap::pattern::{bound_from_reading, bound_index, literal_index, read_decimal};
use amap::{expand_range, indices, Bound, Index, KeyPattern, Malformed, Reading};

fn lit(text: &str) -> KeyPattern {
    KeyPattern::Literal(text.to_string())
}

fn range(start: &str, end: &str, inclusive: bool) -> KeyPattern {
    KeyPattern::Range {
        start: Bound::Literal(start.to_string()),
        end: Bound::Literal(end.to_string()),
        inclusive,
    }
}

fn known(numbers: &[usize]) -> Vec<Index> {
    numbers.iter().map(|n| Index::Known(*n)).collect()
}

#[test]
fn literal_resolves_to_itself() {
    assert_eq!(indices(&lit("5")), Ok(known(&[5])));
    assert_eq!(indices(&lit("0")), Ok(known(&[0])));
}

#[test]
fn literal_is_read_as_decimal_digits() {
    assert_eq!(indices(&lit("16")), Ok(known(&[16])));
    assert_eq!(indices(&lit("007")), Ok(known(&[7])));
    assert_eq!(indices(&lit("1000")), Ok(known(&[1000])));
    assert_eq!(indices(&lit("0x10")), Err(Malformed::NotNumeric));
    assert_eq!(indices(&lit("1_000")), Err(Malformed::NotNumeric));
    assert_eq!(indices(&lit("7u8")), Err(Malformed::NotNumeric));
    assert_eq!(indices(&lit("+7")), Err(Malformed::NotNumeric));
    assert_eq!(indices(&lit(" 7")), Err(Malformed::NotNumeric));
}

#[test]
fn digits_of_a_parsed_literal_resolve_to_its_value() {
    let digits = |text: &str| syn::parse_str::<syn::LitInt>(text).unwrap().base10_digits().to_string();
    assert_eq!(indices(&lit(&digits("0x10"))), Ok(known(&[16])));
    assert_eq!(indices(&lit(&digits("0b101"))), Ok(known(&[5])));
    assert_eq!(indices(&lit(&digits("0o17"))), Ok(known(&[15])));
    assert_eq!(indices(&lit(&digits("1_000"))), Ok(known(&[1000])));
    assert_eq!(indices(&lit(&digits("42usize"))), Ok(known(&[42])));
    assert_eq!(indices(&range(&digits("0x0a"), &digits("0b1100"), false)), Ok(known(&[10, 11])));
}

#[test]
fn read_decimal_tells_numbers_from_other_texts() {
    assert_eq!(read_decimal("0"), Reading::Number(0));
    assert_eq!(read_decimal("25"), Reading::Number(25));
    assert_eq!(read_decimal("000"), Reading::Number(0));
    assert_eq!(read_decimal("0123456789"), Reading::Number(123456789));
    assert_eq!(read_decimal(&usize::MAX.to_string()), Reading::Number(usize::MAX));
    assert_eq!(read_decimal(""), Reading::NotDecimal);
    assert_eq!(read_decimal("1.5"), Reading::NotDecimal);
    assert_eq!(read_decimal("\"7\""), Reading::NotDecimal);
    assert_eq!(read_decimal("-3"), Reading::NotDecimal);
    assert_eq!(read_decimal("seven"), Reading::NotDecimal);
    assert_eq!(read_decimal("1 2"), Reading::NotDecimal);
    assert_eq!(read_decimal("12a"), Reading::NotDecimal);
    assert_eq!(read_decimal("\u{0663}"), Reading::NotDecimal);
}

#[test]
fn read_decimal_tells_too_large_from_not_decimal() {
    let beyond = format!("{}", usize::MAX as u128 + 1);
    assert_eq!(read_decimal(&beyond), Reading::TooLarge);
    assert_eq!(read_decimal("99999999999999999999999999999999999999999"), Reading::TooLarge);
    assert_eq!(read_decimal("99999999999999999999999999999999999999999x"), Reading::NotDecimal);
    assert_eq!(read_decimal("x99999999999999999999999999999999999999999"), Reading::NotDecimal);
    let padded = format!("0000000000000000000000000000{}", usize::MAX);
    assert_eq!(read_decimal(&padded), Reading::Number(usize::MAX));
}

#[test]
fn literal_that_is_no_integer_is_malformed() {
    assert_eq!(indices(&lit("1.5")), Err(Malformed::NotNumeric));
    assert_eq!(indices(&lit("'a'")), Err(Malformed::NotNumeric));
    assert_eq!(indices(&lit("true")), Err(Malformed::NotNumeric));
    assert_eq!(indices(&lit("-1")), Err(Malformed::NotNumeric));
    assert_eq!(indices(&lit("")), Err(Malformed::NotNumeric));
}

#[test]
fn literal_beyond_the_machine_is_out_of_range() {
    assert_eq!(indices(&lit("99999999999999999999999")), Err(Malformed::OutOfRange));
    assert_eq!(indices(&lit("340282366920938463463374607431768211456")), Err(Malformed::OutOfRange));
    assert_eq!(indices(&range("0", "99999999999999999999999", false)), Err(Malformed::OutOfRange));
    assert_eq!(indices(&range("99999999999999999999999", "0", true)), Err(Malformed::OutOfRange));
}

#[test]
fn literal_index_tells_the_cases_apart() {
    assert_eq!(literal_index(Reading::Number(7)), Ok(known(&[7])));
    assert_eq!(literal_index(Reading::NotDecimal), Err(Malformed::NotNumeric));
    assert_eq!(literal_index(Reading::TooLarge), Err(Malformed::OutOfRange));
    assert_eq!(literal_index(Reading::Number(usize::MAX)), Err(Malformed::OutOfRange));
    assert_eq!(literal_index(Reading::Number(usize::MAX - 1)), Ok(known(&[usize::MAX - 1])));
}

#[test]
fn bound_from_reading_tells_the_cases_apart() {
    let literal = Bound::Literal("12".to_string());
    assert_eq!(bound_from_reading(&literal, Reading::Number(12)), Ok(12));
    assert_eq!(bound_from_reading(&literal, Reading::Number(usize::MAX)), Ok(usize::MAX));
    assert_eq!(bound_from_reading(&literal, Reading::NotDecimal), Err(Malformed::BoundNotLiteral));
    assert_eq!(bound_from_reading(&literal, Reading::TooLarge), Err(Malformed::OutOfRange));
    assert_eq!(bound_from_reading(&Bound::Open, Reading::Number(1)), Err(Malformed::Unbounded));
    assert_eq!(bound_from_reading(&Bound::Computed, Reading::Number(1)), Err(Malformed::BoundNotLiteral));
}

#[test]
fn largest_machine_integer_is_no_index() {
    let text = usize::MAX.to_string();
    assert_eq!(indices(&lit(&text)), Err(Malformed::OutOfRange));
    assert_eq!(indices(&range("0", &text, true)), Err(Malformed::OutOfRange));
    assert_eq!(expand_range(0, usize::MAX, true), Err(Malformed::OutOfRange));
    assert_eq!(expand_range(usize::MAX, usize::MAX, true), Err(Malformed::OutOfRange));
    assert_eq!(expand_range(usize::MAX, usize::MAX, false), Ok(vec![]));
    assert_eq!(
        expand_range(usize::MAX - 2, usize::MAX, false),
        Ok(known(&[usize::MAX - 2, usize::MAX - 1]))
    );
    assert_eq!(expand_range(usize::MAX, 3, true), Ok(vec![]));
}

#[test]
fn half_open_range_has_end_minus_start_indices() {
    assert_eq!(expand_range(4, 6, false), Ok(known(&[4, 5])));
    assert_eq!(indices(&range("4", "6", false)), Ok(known(&[4, 5])));
    assert_eq!(expand_range(16, 25, false).unwrap().len(), 9);
    assert_eq!(expand_range(0, 1, false), Ok(known(&[0])));
}

#[test]
fn inclusive_range_has_one_index_more() {
    assert_eq!(expand_range(4, 6, true), Ok(known(&[4, 5, 6])));
    assert_eq!(indices(&range("4", "6", true)), Ok(known(&[4, 5, 6])));
    assert_eq!(expand_range(2, 25, true).unwrap().len(), 24);
    assert_eq!(expand_range(9, 9, true), Ok(known(&[9])));
}

#[test]
fn range_from_a_to_a_is_empty() {
    assert_eq!(expand_range(3, 3, false), Ok(vec![]));
    assert_eq!(indices(&range("3", "3", false)), Ok(vec![]));
    assert_eq!(expand_range(0, 0, false), Ok(vec![]));
}

#[test]
fn reversed_range_is_empty() {
    assert_eq!(expand_range(6, 4, false), Ok(vec![]));
    assert_eq!(expand_range(6, 4, true), Ok(vec![]));
    assert_eq!(indices(&range("6", "4", true)), Ok(vec![]));
}

#[test]
fn range_bounds_are_read_as_decimal_digits() {
    assert_eq!(indices(&range("010", "12", false)), Ok(known(&[10, 11])));
    assert_eq!(indices(&range("1", "3", true)), Ok(known(&[1, 2, 3])));
    assert_eq!(indices(&range("0x1", "3", true)), Err(Malformed::BoundNotLiteral));
    assert_eq!(indices(&range("1", "3u8", true)), Err(Malformed::BoundNotLiteral));
}

#[test]
fn range_must_be_bounded() {
    let open_start =
        KeyPattern::Range { start: Bound::Open, end: Bound::Literal("5".to_string()), inclusive: false };
    assert_eq!(indices(&open_start), Err(Malformed::Unbounded));
    let open_end =
        KeyPattern::Range { start: Bound::Literal("5".to_string()), end: Bound::Open, inclusive: false };
    assert_eq!(indices(&open_end), Err(Malformed::Unbounded));
    assert_eq!(bound_index(&Bound::Open), Err(Malformed::Unbounded));
}

#[test]
fn range_bound_must_be_a_literal() {
    let computed = KeyPattern::Range {
        start: Bound::Computed,
        end: Bound::Literal("5".to_string()),
        inclusive: false,
    };
    assert_eq!(indices(&computed), Err(Malformed::BoundNotLiteral));
    assert_eq!(indices(&range("1", "2.5", false)), Err(Malformed::BoundNotLiteral));
    assert_eq!(indices(&range("'a'", "'z'", true)), Err(Malformed::BoundNotLiteral));
    assert_eq!(bound_index(&Bound::Computed), Err(Malformed::BoundNotLiteral));
    assert_eq!(bound_index(&Bound::Literal("12".to_string())), Ok(12));
}

#[test]
fn start_bound_is_judged_before_end_bound() {
    let both = KeyPattern::Range { start: Bound::Computed, end: Bound::Open, inclusive: false };
    assert_eq!(indices(&both), Err(Malformed::BoundNotLiteral));
    let both = KeyPattern::Range { start: Bound::Open, end: Bound::Computed, inclusive: true };
    assert_eq!(indices(&both), Err(Malformed::Unbounded));
}

#[test]
fn disjunction_keeps_the_written_order() {
    let pattern = KeyPattern::Disjunction(vec![lit("3"), lit("6")]);
    assert_eq!(indices(&pattern), Ok(known(&[3, 6])));
    let pattern = KeyPattern::Disjunction(vec![lit("9"), range("1", "3", true), lit("0")]);
    assert_eq!(indices(&pattern), Ok(known(&[9, 1, 2, 3, 0])));
}

#[test]
fn disjunction_keeps_repeated_indices() {
    let pattern = KeyPattern::Disjunction(vec![lit("3"), range("2", "5", false), lit("3")]);
    assert_eq!(indices(&pattern), Ok(known(&[3, 2, 3, 4, 3])));
}

#[test]
fn disjunction_may_nest_and_be_empty() {
    let inner = KeyPattern::Disjunction(vec![lit("1"), lit("2")]);
    let pattern = KeyPattern::Disjunction(vec![lit("0"), inner, KeyPattern::Disjunction(vec![])]);
    assert_eq!(indices(&pattern), Ok(known(&[0, 1, 2])));
    assert_eq!(indices(&KeyPattern::Disjunction(vec![])), Ok(vec![]));
}

#[test]
fn disjunction_fails_with_its_first_failure() {
    let pattern = KeyPattern::Disjunction(vec![
        lit("1"),
        KeyPattern::Unsupported,
        lit("x"),
        range("1", "2", false),
    ]);
    assert_eq!(indices(&pattern), Err(Malformed::Unsupported));
    let pattern = KeyPattern::Disjunction(vec![lit("x"), KeyPattern::Unsupported]);
    assert_eq!(indices(&pattern), Err(Malformed::NotNumeric));
}

#[test]
fn constant_resolves_to_its_text() {
    let pattern = KeyPattern::Constant("N + 1".to_string());
    assert_eq!(indices(&pattern), Ok(vec![Index::Symbolic("N + 1".to_string())]));
}

#[test]
fn other_patterns_are_unsupported() {
    assert_eq!(indices(&KeyPattern::Unsupported), Err(Malformed::Unsupported));
}
