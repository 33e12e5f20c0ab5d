//! Key patterns and their resolution to concrete table indices.

use itertools::Itertools;
use vstd::prelude::*;

verus! {

/// One bound of a range pattern.
#[derive(Clone, Debug, PartialEq, Eq)]
pub enum Bound {
    /// A literal: the decimal digits of an integer literal, or the text of
    /// any other literal.
    Literal(String),
    /// Any expression that is not a literal.
    Computed,
    /// No bound was written on this side.
    Open,
}

/// The key side of a clause: which indices the clause claims.
#[derive(Debug, PartialEq, Eq)]
pub enum KeyPattern {
    /// A single literal: the decimal digits of an integer literal, or the
    /// text of any other literal.
    Literal(String),
    /// Several alternatives, each a pattern of its own.
    Disjunction(Vec<KeyPattern>),
    /// All integers from `start` up to `end`, which is included when
    /// `inclusive` is set.
    Range { start: Bound, end: Bound, inclusive: bool },
    /// A constant expression, kept as its text. Its value is not known here.
    Constant(String),
    /// Any other form of pattern.
    Unsupported,
}

/// The mathematical content of a [`Bound`].
pub enum BoundModel {
    Literal(Seq<char>),
    Computed,
    Open,
}

impl View for Bound {
    type V = BoundModel;

    open spec fn view(&self) -> BoundModel {
        match self {
            Bound::Literal(text) => BoundModel::Literal(text@),
            Bound::Computed => BoundModel::Computed,
            Bound::Open => BoundModel::Open,
        }
    }
}

/// The mathematical content of a [`KeyPattern`].
pub enum PatternModel {
    Literal(Seq<char>),
    Disjunction(Seq<PatternModel>),
    Range { start: BoundModel, end: BoundModel, inclusive: bool },
    Constant(Seq<char>),
    Unsupported,
}

impl View for KeyPattern {
    type V = PatternModel;

    open spec fn view(&self) -> PatternModel
        decreases self,
    {
        match self {
            KeyPattern::Literal(text) => PatternModel::Literal(text@),
            KeyPattern::Disjunction(cases) => PatternModel::Disjunction(
                Seq::new(
                    cases.len() as nat,
                    |i: int|
                        if 0 <= i < cases.len() {
                            cases[i].view()
                        } else {
                            PatternModel::Unsupported
                        },
                ),
            ),
            KeyPattern::Range { start, end, inclusive } => PatternModel::Range {
                start: start@,
                end: end@,
                inclusive: *inclusive,
            },
            KeyPattern::Constant(text) => PatternModel::Constant(text@),
            KeyPattern::Unsupported => PatternModel::Unsupported,
        }
    }
}

/// One index that a pattern resolves to.
#[derive(Clone, Debug, PartialEq, Eq)]
pub enum Index {
    /// A position whose number is known.
    Known(usize),
    /// A position given by the text of a constant expression.
    Symbolic(String),
}

/// The mathematical content of an [`Index`].
pub enum IndexModel {
    Known(int),
    Symbolic(Seq<char>),
}

impl View for Index {
    type V = IndexModel;

    open spec fn view(&self) -> IndexModel {
        match self {
            Index::Known(n) => IndexModel::Known(*n as int),
            Index::Symbolic(text) => IndexModel::Symbolic(text@),
        }
    }
}

/// Why a pattern could not be resolved.
#[derive(Clone, Copy, Debug, PartialEq, Eq)]
pub enum Malformed {
    /// The pattern is none of literal, disjunction, range or constant.
    Unsupported,
    /// A literal pattern is not an integer literal in decimal digits.
    NotNumeric,
    /// A range lacks one of its bounds.
    Unbounded,
    /// A range bound is not an integer literal in decimal digits.
    BoundNotLiteral,
    /// An integer is too large to be a position of a table in memory.
    OutOfRange,
}

/// The views of a sequence of indices.
pub open spec fn index_views(s: Seq<Index>) -> Seq<IndexModel> {
    s.map_values(|i: Index| i@)
}

/// The mathematical content of the outcome of a resolution.
pub open spec fn resolution_view(r: Result<Vec<Index>, Malformed>) -> Result<
    Seq<IndexModel>,
    Malformed,
> {
    match r {
        Ok(v) => Ok(index_views(v@)),
        Err(e) => Err(e),
    }
}

/// What the text of a literal says.
#[derive(Clone, Copy, Debug, PartialEq, Eq)]
pub enum Reading {
    /// The text is not a run of decimal digits.
    NotDecimal,
    /// The digits stand for a number above `usize::MAX`.
    TooLarge,
    /// The digits stand for this number.
    Number(usize),
}

/// The number that `c` stands for, if it is one of the ten decimal digits.
pub open spec fn digit_number(c: char) -> Option<usize> {
    if c == '0' {
        Some(0)
    } else if c == '1' {
        Some(1)
    } else if c == '2' {
        Some(2)
    } else if c == '3' {
        Some(3)
    } else if c == '4' {
        Some(4)
    } else if c == '5' {
        Some(5)
    } else if c == '6' {
        Some(6)
    } else if c == '7' {
        Some(7)
    } else if c == '8' {
        Some(8)
    } else if c == '9' {
        Some(9)
    } else {
        None
    }
}

/// `c` is one of the ten decimal digits.
pub open spec fn is_digit(c: char) -> bool {
    digit_number(c) is Some
}

/// The number that a decimal digit stands for.
pub open spec fn digit_value(c: char) -> nat {
    match digit_number(c) {
        Some(d) => d as nat,
        None => 0,
    }
}

fn digit_of(c: char) -> (r: Option<usize>)
    ensures
        r == digit_number(c),
{
    if c == '0' {
        Some(0)
    } else if c == '1' {
        Some(1)
    } else if c == '2' {
        Some(2)
    } else if c == '3' {
        Some(3)
    } else if c == '4' {
        Some(4)
    } else if c == '5' {
        Some(5)
    } else if c == '6' {
        Some(6)
    } else if c == '7' {
        Some(7)
    } else if c == '8' {
        Some(8)
    } else if c == '9' {
        Some(9)
    } else {
        None
    }
}

/// `text` is a run of decimal digits, at least one.
pub open spec fn is_decimal(text: Seq<char>) -> bool {
    text.len() > 0 && forall|i: int| 0 <= i < text.len() ==> is_digit(#[trigger] text[i])
}

/// The number that a run of decimal digits stands for.
pub open spec fn decimal_value(text: Seq<char>) -> nat
    decreases text.len(),
{
    if text.len() == 0 {
        0
    } else {
        decimal_value(text.drop_last()) * 10 + digit_value(text.last())
    }
}

/// What `text` says as a literal.
pub open spec fn reading(text: Seq<char>) -> Reading {
    if !is_decimal(text) {
        Reading::NotDecimal
    } else if decimal_value(text) > usize::MAX {
        Reading::TooLarge
    } else {
        Reading::Number(decimal_value(text) as usize)
    }
}

/// Reads the text of a literal as a decimal number.
pub fn read_decimal(text: &str) -> (r: Reading)
    ensures
        r == reading(text@),
{
    let mut value: usize = 0;
    let mut fits = true;
    let mut any = false;
    for c in it: text.chars()
        invariant
            it.seq() == text@,
            forall|j: int| 0 <= j < it.index() ==> is_digit(#[trigger] text@[j]),
            any == (it.index() > 0),
            fits ==> value == decimal_value(text@.take(it.index())),
            !fits ==> decimal_value(text@.take(it.index())) > usize::MAX,
    {
        let digit: usize = match digit_of(c) {
            Some(d) => d,
            None => {
                assert(!is_digit(text@[it.index()]));
                return Reading::NotDecimal;
            },
        };
        proof {
            let longer = text@.take(it.index() + 1);
            assert(longer.drop_last() =~= text@.take(it.index()));
            assert(longer.last() == c);
            assert(is_digit(text@[it.index()]));
        }
        if fits {
            if value > (usize::MAX - digit) / 10 {
                fits = false;
            } else {
                value = value * 10 + digit;
            }
        }
        any = true;
    }
    assert(text@.take(text@.len() as int) =~= text@);
    if !any {
        Reading::NotDecimal
    } else if !fits {
        Reading::TooLarge
    } else {
        Reading::Number(value)
    }
}

/// What a literal pattern resolves to, given what its text says: a single
/// index, which must lie below `usize::MAX` so that a table reaching it has a
/// length.
pub open spec fn literal_indices(read: Reading) -> Result<Seq<IndexModel>, Malformed> {
    match read {
        Reading::NotDecimal => Err(Malformed::NotNumeric),
        Reading::TooLarge => Err(Malformed::OutOfRange),
        Reading::Number(n) => if n < usize::MAX {
            Ok(seq![IndexModel::Known(n as int)])
        } else {
            Err(Malformed::OutOfRange)
        },
    }
}

/// Resolves a literal pattern whose text has been read as `read`.
pub fn literal_index(read: Reading) -> (r: Result<Vec<Index>, Malformed>)
    ensures
        resolution_view(r) == literal_indices(read),
        r matches Ok(v) ==> v.len() == 1 && v[0]@ == IndexModel::Known(read->Number_0 as int),
{
    match read {
        Reading::NotDecimal => Err(Malformed::NotNumeric),
        Reading::TooLarge => Err(Malformed::OutOfRange),
        Reading::Number(n) => {
            if n < usize::MAX {
                let mut v: Vec<Index> = Vec::new();
                v.push(Index::Known(n));
                assert(index_views(v@) =~= seq![IndexModel::Known(n as int)]);
                Ok(v)
            } else {
                Err(Malformed::OutOfRange)
            }
        },
    }
}

/// The number that stands for a range bound whose literal text, if it has
/// one, has been read as `read`.
pub open spec fn bound_number(bound: BoundModel, read: Reading) -> Result<usize, Malformed> {
    match bound {
        BoundModel::Open => Err(Malformed::Unbounded),
        BoundModel::Computed => Err(Malformed::BoundNotLiteral),
        BoundModel::Literal(_) => match read {
            Reading::NotDecimal => Err(Malformed::BoundNotLiteral),
            Reading::TooLarge => Err(Malformed::OutOfRange),
            Reading::Number(n) => Ok(n),
        },
    }
}

/// The number that a range bound stands for.
pub open spec fn bound_value(bound: BoundModel) -> Result<usize, Malformed> {
    match bound {
        BoundModel::Literal(text) => bound_number(bound, reading(text)),
        _ => bound_number(bound, Reading::NotDecimal),
    }
}

/// The number of a range bound whose literal text, if it has one, has been
/// read as `read`.
pub fn bound_from_reading(bound: &Bound, read: Reading) -> (r: Result<usize, Malformed>)
    ensures
        r == bound_number(bound@, read),
{
    match bound {
        Bound::Open => Err(Malformed::Unbounded),
        Bound::Computed => Err(Malformed::BoundNotLiteral),
        Bound::Literal(_) => match read {
            Reading::NotDecimal => Err(Malformed::BoundNotLiteral),
            Reading::TooLarge => Err(Malformed::OutOfRange),
            Reading::Number(n) => Ok(n),
        },
    }
}

/// Reads a range bound.
pub fn bound_index(bound: &Bound) -> (r: Result<usize, Malformed>)
    ensures
        r == bound_value(bound@),
{
    match bound {
        Bound::Literal(text) => bound_from_reading(bound, read_decimal(text.as_str())),
        _ => bound_from_reading(bound, Reading::NotDecimal),
    }
}

/// How many integers lie in the range from `start` to `end`.
pub open spec fn range_len(start: int, end: int, inclusive: bool) -> nat {
    if inclusive {
        if start <= end {
            (end - start + 1) as nat
        } else {
            0
        }
    } else {
        if start <= end {
            (end - start) as nat
        } else {
            0
        }
    }
}

/// What a range with the given bounds resolves to: its integers in ascending
/// order. An inclusive range that reaches `usize::MAX` is refused.
pub open spec fn range_indices(start: int, end: int, inclusive: bool) -> Result<
    Seq<IndexModel>,
    Malformed,
> {
    if inclusive && start <= end && end >= usize::MAX {
        Err(Malformed::OutOfRange)
    } else {
        Ok(Seq::new(range_len(start, end, inclusive), |k: int| IndexModel::Known(start + k)))
    }
}

/// Lists the integers of a range in ascending order.
///
/// A half-open range from `a` to `b` with `a <= b` has exactly `b - a`
/// integers, an inclusive one `b - a + 1`; a range with `a > b` has none.
pub fn expand_range(start: usize, end: usize, inclusive: bool) -> (r: Result<Vec<Index>, Malformed>)
    ensures
        resolution_view(r) == range_indices(start as int, end as int, inclusive),
        r matches Ok(v) ==> {
            &&& v.len() == range_len(start as int, end as int, inclusive)
            &&& !inclusive && start <= end ==> v.len() == end - start
            &&& inclusive && start <= end ==> v.len() == end - start + 1
            &&& forall|k: int| 0 <= k < v.len() ==> (#[trigger] v[k])@ == IndexModel::Known(start + k)
        },
        r is Err <==> inclusive && start <= end && end == usize::MAX,
{
    let mut v: Vec<Index> = Vec::new();
    if start > end {
        assert(index_views(v@) =~= Seq::new(0, |k: int| IndexModel::Known(start + k)));
        return Ok(v);
    }
    let stop: usize = if inclusive {
        if end == usize::MAX {
            return Err(Malformed::OutOfRange);
        }
        end + 1
    } else {
        end
    };
    let mut next: usize = start;
    while next < stop
        invariant
            start <= next <= stop,
            v.len() == next - start,
            forall|k: int| 0 <= k < v.len() ==> (#[trigger] v[k])@ == IndexModel::Known(start + k),
        decreases stop - next,
    {
        v.push(Index::Known(next));
        next += 1;
    }
    assert(index_views(v@) =~= Seq::new(
        range_len(start as int, end as int, inclusive),
        |k: int| IndexModel::Known(start + k),
    ));
    Ok(v)
}

/// The indices of several resolutions one after the other, or the first
/// failure among them.
pub open spec fn concat_resolutions(parts: Seq<Result<Seq<IndexModel>, Malformed>>) -> Result<
    Seq<IndexModel>,
    Malformed,
>
    decreases parts.len(),
{
    if parts.len() == 0 {
        Ok(Seq::empty())
    } else {
        match parts[0] {
            Err(e) => Err(e),
            Ok(head) => match concat_resolutions(parts.drop_first()) {
                Err(e) => Err(e),
                Ok(tail) => Ok(head + tail),
            },
        }
    }
}

/// Calls `itertools::Itertools::flatten_ok` on the parts and collects what it
/// yields. The adaptor hands out the items of each `Ok` part in order and each
/// `Err` as it stands, and collecting into a `Result` stops at the first `Err`:
/// the outcome is the first failure, or else all indices in order.
#[verifier::external_body]
fn flatten_resolutions(parts: Vec<Result<Vec<Index>, Malformed>>) -> (r: Result<
    Vec<Index>,
    Malformed,
>)
    ensures
        resolution_view(r) == concat_resolutions(
            parts@.map_values(|p: Result<Vec<Index>, Malformed>| resolution_view(p)),
        ),
{
    parts.into_iter().flatten_ok().collect()
}

/// What the first `n` alternatives of a disjunction resolve to, one entry
/// for each.
pub open spec fn resolve_cases(cases: Seq<PatternModel>, n: nat) -> Seq<
    Result<Seq<IndexModel>, Malformed>,
>
    decreases cases, n,
{
    if n == 0 || n > cases.len() {
        Seq::empty()
    } else {
        resolve_cases(cases, (n - 1) as nat).push(resolve(cases[n - 1]))
    }
}

/// What a pattern resolves to: its indices in the order written, ranges
/// ascending, or the reason why it is malformed.
pub open spec fn resolve(pattern: PatternModel) -> Result<Seq<IndexModel>, Malformed>
    decreases pattern, 0nat,
{
    match pattern {
        PatternModel::Literal(text) => literal_indices(reading(text)),
        PatternModel::Disjunction(cases) => concat_resolutions(resolve_cases(cases, cases.len())),
        PatternModel::Range { start, end, inclusive } => match bound_value(start) {
            Err(e) => Err(e),
            Ok(a) => match bound_value(end) {
                Err(e) => Err(e),
                Ok(b) => range_indices(a as int, b as int, inclusive),
            },
        },
        PatternModel::Constant(text) => Ok(seq![IndexModel::Symbolic(text)]),
        PatternModel::Unsupported => Err(Malformed::Unsupported),
    }
}

/// Resolves a pattern to the indices it claims.
pub fn indices(pattern: &KeyPattern) -> (r: Result<Vec<Index>, Malformed>)
    ensures
        resolution_view(r) == resolve(pattern@),
    decreases pattern,
{
    match pattern {
        KeyPattern::Literal(text) => literal_index(read_decimal(text.as_str())),
        KeyPattern::Disjunction(cases) => {
            let mut parts: Vec<Result<Vec<Index>, Malformed>> = Vec::new();
            let mut i: usize = 0;
            while i < cases.len()
                invariant
                    i <= cases.len(),
                    *pattern == KeyPattern::Disjunction(*cases),
                    pattern@ is Disjunction,
                    pattern@->Disjunction_0.len() == cases.len(),
                    forall|j: int|
                        0 <= j < cases.len() ==> #[trigger] pattern@->Disjunction_0[j] == cases[j]@,
                    parts@.map_values(|p: Result<Vec<Index>, Malformed>| resolution_view(p))
                        == resolve_cases(pattern@->Disjunction_0, i as nat),
                decreases cases.len() - i,
            {
                assert(decreases_to!(*pattern => pattern->Disjunction_0));
                assert(decreases_to!(*cases => cases[i as int]));
                let part = indices(&cases[i]);
                parts.push(part);
                i += 1;
            }
            flatten_resolutions(parts)
        },
        KeyPattern::Range { start, end, inclusive } => {
            let a = match bound_index(start) {
                Ok(a) => a,
                Err(e) => { return Err(e); },
            };
            let b = match bound_index(end) {
                Ok(b) => b,
                Err(e) => { return Err(e); },
            };
            expand_range(a, b, *inclusive)
        },
        KeyPattern::Constant(text) => {
            let mut v: Vec<Index> = Vec::new();
            v.push(Index::Symbolic(text.clone()));
            assert(index_views(v@) =~= seq![IndexModel::Symbolic(text@)]);
            Ok(v)
        },
        KeyPattern::Unsupported => Err(Malformed::Unsupported),
    }
}

/// `index` can be a position of a table in memory: a known index lies below
/// `usize::MAX`.
pub open spec fn placeable(index: IndexModel) -> bool {
    index matches IndexModel::Known(i) ==> 0 <= i < usize::MAX
}

/// Every index of `set` can be a position of a table in memory.
pub open spec fn all_placeable(set: Seq<IndexModel>) -> bool {
    forall|k: int| 0 <= k < set.len() ==> placeable(#[trigger] set[k])
}

proof fn lemma_concat_placeable(parts: Seq<Result<Seq<IndexModel>, Malformed>>)
    requires
        forall|j: int|
            0 <= j < parts.len() ==> ((#[trigger] parts[j]) matches Ok(set) ==> all_placeable(set)),
    ensures
        concat_resolutions(parts) matches Ok(set) ==> all_placeable(set),
    decreases parts.len(),
{
    if parts.len() > 0 {
        let rest = parts.drop_first();
        assert forall|j: int| 0 <= j < rest.len() implies ((#[trigger] rest[j]) matches Ok(set)
            ==> all_placeable(set)) by {
            assert(rest[j] == parts[j + 1]);
        }
        lemma_concat_placeable(rest);
    }
}

proof fn lemma_cases_placeable(cases: Seq<PatternModel>, n: nat)
    ensures
        forall|j: int|
            0 <= j < resolve_cases(cases, n).len() ==> ((#[trigger] resolve_cases(cases, n)[j]) matches Ok(
                set,
            ) ==> all_placeable(set)),
    decreases cases, n,
{
    if n == 0 || n > cases.len() {
    } else {
        lemma_cases_placeable(cases, (n - 1) as nat);
        lemma_resolve_placeable(cases[n - 1]);
    }
}

/// Every known index that a pattern resolves to lies below `usize::MAX`.
pub proof fn lemma_resolve_placeable(pattern: PatternModel)
    ensures
        resolve(pattern) matches Ok(set) ==> all_placeable(set),
    decreases pattern, 0nat,
{
    match pattern {
        PatternModel::Disjunction(cases) => {
            lemma_cases_placeable(cases, cases.len());
            lemma_concat_placeable(resolve_cases(cases, cases.len()));
        },
        _ => {},
    }
}

} // verus!
