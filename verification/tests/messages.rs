use amap::error::{decimal_text, escape};
use amap::{CompileError, Malformed};

#[test]
fn duplicate_message_names_pattern_and_ordinal() {
    let e = CompileError::DuplicateKey { ordinal: 2, pattern: "2".to_string() };
    assert_eq!(e.message(), "duplicate / overlapping key @ pattern `2` (#2)");
    let e = CompileError::DuplicateKey { ordinal: 137, pattern: "4 ..= 6".to_string() };
    assert_eq!(e.message(), "duplicate / overlapping key @ pattern `4 ..= 6` (#137)");
}

#[test]
fn braces_in_the_pattern_are_doubled() {
    let e = CompileError::DuplicateKey { ordinal: 1, pattern: "const { N }".to_string() };
    assert_eq!(e.message(), "duplicate / overlapping key @ pattern `const {{ N }}` (#1)");
    let e = CompileError::MalformedPattern {
        pattern: "S { x }".to_string(),
        reason: Malformed::Unsupported,
    };
    assert_eq!(
        e.message(),
        "malformed pattern `S {{ x }}`: pattern must be literal(5) | or(5 | 4) | range(4..5) | const {{ .. }}"
    );
}

#[test]
fn malformed_message_gives_the_reason() {
    let message = |reason| {
        CompileError::MalformedPattern { pattern: "p".to_string(), reason }.message()
    };
    assert_eq!(message(Malformed::NotNumeric), "malformed pattern `p`: must be numeric literal");
    assert_eq!(message(Malformed::Unbounded), "malformed pattern `p`: range must be bounded");
    assert_eq!(
        message(Malformed::BoundNotLiteral),
        "malformed pattern `p`: range bound must be a literal"
    );
    assert_eq!(
        message(Malformed::OutOfRange),
        "malformed pattern `p`: index must be below the largest machine integer"
    );
}

#[test]
fn messages_without_a_pattern() {
    assert_eq!(CompileError::EmptySpecification.message(), "no keys");
    assert_eq!(
        CompileError::NoDefaultAvailable.message(),
        "no default value for unclaimed positions"
    );
}

#[test]
fn escape_doubles_each_brace() {
    assert_eq!(escape(""), "");
    assert_eq!(escape("4..6"), "4..6");
    assert_eq!(escape("{"), "{{");
    assert_eq!(escape("}{"), "}}{{");
    assert_eq!(escape("{{}}"), "{{{{}}}}");
    assert_eq!(escape("a{b}c"), "a{{b}}c");
    assert_eq!(escape("é{ü}"), "é{{ü}}");
}

#[test]
fn decimal_text_writes_the_number() {
    assert_eq!(decimal_text(0), "0");
    assert_eq!(decimal_text(7), "7");
    assert_eq!(decimal_text(10), "10");
    assert_eq!(decimal_text(46), "46");
    assert_eq!(decimal_text(1009), "1009");
    assert_eq!(decimal_text(usize::MAX), usize::MAX.to_string());
}

#[test]
fn message_read_as_a_format_string_shows_the_pattern_as_written() {
    let e = CompileError::DuplicateKey { ordinal: 3, pattern: "const { N }".to_string() };
    let shown = e.message().replace("{{", "{").replace("}}", "}");
    assert_eq!(shown, "duplicate / overlapping key @ pattern `const { N }` (#3)");
    let e = CompileError::MalformedPattern { pattern: "[a]".to_string(), reason: Malformed::Unsupported };
    let shown = e.message().replace("{{", "{").replace("}}", "}");
    assert_eq!(
        shown,
        "malformed pattern `[a]`: pattern must be literal(5) | or(5 | 4) | range(4..5) | const { .. }"
    );
}
