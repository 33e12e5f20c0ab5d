//! The failures of a compilation and the messages that report them.

use crate::pattern::Malformed;
use vstd::prelude::*;
use vstd::string::StringExecFns;

verus! {

/// Why a table description was rejected.
#[derive(Clone, Debug, PartialEq, Eq)]
pub enum CompileError {
    /// A key pattern is not of a supported form. `pattern` is the source
    /// text of the clause's pattern.
    MalformedPattern { pattern: String, reason: Malformed },
    /// The clause with the 1-based number `ordinal` claims an index that was
    /// claimed before. `pattern` is the source text of that clause's pattern.
    DuplicateKey { ordinal: usize, pattern: String },
    /// Unclaimed positions were to hold the value type's default, and it has
    /// none.
    NoDefaultAvailable,
    /// No clause claims any index.
    EmptySpecification,
}

/// The mathematical content of a [`CompileError`].
pub enum CompileErrorModel {
    MalformedPattern { pattern: Seq<char>, reason: Malformed },
    DuplicateKey { ordinal: int, pattern: Seq<char> },
    NoDefaultAvailable,
    EmptySpecification,
}

impl View for CompileError {
    type V = CompileErrorModel;

    open spec fn view(&self) -> CompileErrorModel {
        match self {
            CompileError::MalformedPattern { pattern, reason } => CompileErrorModel::MalformedPattern {
                pattern: pattern@,
                reason: *reason,
            },
            CompileError::DuplicateKey { ordinal, pattern } => CompileErrorModel::DuplicateKey {
                ordinal: *ordinal as int,
                pattern: pattern@,
            },
            CompileError::NoDefaultAvailable => CompileErrorModel::NoDefaultAvailable,
            CompileError::EmptySpecification => CompileErrorModel::EmptySpecification,
        }
    }
}

/// How one character of a pattern's text stands in a message: a brace is
/// doubled, any other character stands for itself.
pub open spec fn escaped_char(c: char) -> Seq<char> {
    if c == '{' || c == '}' {
        seq![c, c]
    } else {
        seq![c]
    }
}

/// A pattern's text with every brace doubled.
pub open spec fn escaped(text: Seq<char>) -> Seq<char>
    decreases text.len(),
{
    if text.len() == 0 {
        Seq::empty()
    } else {
        escaped(text.drop_last()) + escaped_char(text.last())
    }
}

/// `String::push` appends one character.
pub assume_specification[ String::push ](s: &mut String, c: char)
    ensures
        final(s)@ == old(s)@.push(c),
;

/// Doubles every brace of `text`, so that the text can stand in a message
/// that is read as a format string.
pub fn escape(text: &str) -> (r: String)
    ensures
        r@ == escaped(text@),
{
    let mut out = String::new();
    for c in it: text.chars()
        invariant
            it.seq() == text@,
            out@ == escaped(text@.take(it.index())),
    {
        assert(text@.take(it.index() + 1).drop_last() =~= text@.take(it.index()));
        if c == '{' || c == '}' {
            out.push(c);
        }
        out.push(c);
    }
    assert(text@.take(text@.len() as int) =~= text@);
    out
}

/// The decimal digit that stands for `d`.
pub open spec fn digit(d: int) -> char {
    if d == 0 {
        '0'
    } else if d == 1 {
        '1'
    } else if d == 2 {
        '2'
    } else if d == 3 {
        '3'
    } else if d == 4 {
        '4'
    } else if d == 5 {
        '5'
    } else if d == 6 {
        '6'
    } else if d == 7 {
        '7'
    } else if d == 8 {
        '8'
    } else {
        '9'
    }
}

/// A natural number written in decimal, without leading zeros.
pub open spec fn decimal(n: nat) -> Seq<char>
    decreases n,
{
    if n < 10 {
        seq![digit(n as int)]
    } else {
        decimal(n / 10).push(digit((n % 10) as int))
    }
}

fn digit_char(d: usize) -> (c: char)
    requires
        d < 10,
    ensures
        c == digit(d as int),
{
    if d == 0 {
        '0'
    } else if d == 1 {
        '1'
    } else if d == 2 {
        '2'
    } else if d == 3 {
        '3'
    } else if d == 4 {
        '4'
    } else if d == 5 {
        '5'
    } else if d == 6 {
        '6'
    } else if d == 7 {
        '7'
    } else if d == 8 {
        '8'
    } else {
        '9'
    }
}

fn push_decimal(out: &mut String, n: usize)
    ensures
        final(out)@ == old(out)@ + decimal(n as nat),
    decreases n,
{
    if n < 10 {
        out.push(digit_char(n));
        assert(out@ =~= old(out)@ + decimal(n as nat));
    } else {
        push_decimal(out, n / 10);
        out.push(digit_char(n % 10));
        assert(out@ =~= old(out)@ + decimal(n as nat));
    }
}

/// Writes a number in decimal.
pub fn decimal_text(n: usize) -> (r: String)
    ensures
        r@ == decimal(n as nat),
{
    let mut out = String::new();
    push_decimal(&mut out, n);
    assert(Seq::<char>::empty() + decimal(n as nat) =~= decimal(n as nat));
    out
}

/// What a message says of the reason why a pattern is malformed.
pub open spec fn reason_text(reason: Malformed) -> Seq<char> {
    match reason {
        Malformed::Unsupported => "pattern must be literal(5) | or(5 | 4) | range(4..5) | const {{ .. }}"@,
        Malformed::NotNumeric => "must be numeric literal"@,
        Malformed::Unbounded => "range must be bounded"@,
        Malformed::BoundNotLiteral => "range bound must be a literal"@,
        Malformed::OutOfRange => "index must be below the largest machine integer"@,
    }
}

/// The message that reports a failure: its kind, then the offending
/// pattern's source text with braces doubled, then what is known of where
/// or why. The message is a format string without arguments: every brace in
/// it is doubled, and formatting it gives the text to show.
pub open spec fn message_text(e: CompileErrorModel) -> Seq<char> {
    match e {
        CompileErrorModel::MalformedPattern { pattern, reason } => "malformed pattern `"@ + escaped(pattern)
            + "`: "@ + reason_text(reason),
        CompileErrorModel::DuplicateKey { ordinal, pattern } => "duplicate / overlapping key @ pattern `"@
            + escaped(pattern) + "` (#"@ + decimal(ordinal as nat) + ")"@,
        CompileErrorModel::NoDefaultAvailable => "no default value for unclaimed positions"@,
        CompileErrorModel::EmptySpecification => "no keys"@,
    }
}

fn reason_message(reason: Malformed) -> (r: &'static str)
    ensures
        r@ == reason_text(reason),
{
    match reason {
        Malformed::Unsupported => "pattern must be literal(5) | or(5 | 4) | range(4..5) | const {{ .. }}",
        Malformed::NotNumeric => "must be numeric literal",
        Malformed::Unbounded => "range must be bounded",
        Malformed::BoundNotLiteral => "range bound must be a literal",
        Malformed::OutOfRange => "index must be below the largest machine integer",
    }
}

impl CompileError {
    /// The message that reports this failure, as a format string without
    /// arguments.
    pub fn message(&self) -> (r: String)
        ensures
            r@ == message_text(self@),
    {
        match self {
            CompileError::MalformedPattern { pattern, reason } => {
                let mut out = String::from_str("malformed pattern `");
                out.append(escape(pattern.as_str()).as_str());
                out.append("`: ");
                out.append(reason_message(*reason));
                out
            },
            CompileError::DuplicateKey { ordinal, pattern } => {
                let mut out = String::from_str("duplicate / overlapping key @ pattern `");
                out.append(escape(pattern.as_str()).as_str());
                out.append("` (#");
                push_decimal(&mut out, *ordinal);
                out.append(")");
                out
            },
            CompileError::NoDefaultAvailable => String::from_str("no default value for unclaimed positions"),
            CompileError::EmptySpecification => String::from_str("no keys"),
        }
    }
}

} // verus!
