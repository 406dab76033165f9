//! The structured errors that the lexer reports.
use crate::token::Loc;
use vstd::prelude::*;
use vstd::string::*;

verus! {

/// Which malformed input a diagnostic reports. Each has a stable code.
#[derive(Clone, Copy, Debug, PartialEq, Eq, Structural)]
pub enum ErrorCode {
    /// A block comment never ends (`E0001`).
    UnterminatedBlockComment,
    /// An exponent marker right after the `.` of a float (`E0002`).
    ExponentAfterDot,
    /// An exponent on a literal without a `.` (`E0003`).
    ExponentOnInteger,
    /// The input ends where an exponent value is expected (`E0004`).
    MissingExponent,
    /// A character other than a digit where an exponent value is expected
    /// (`E0005`).
    InvalidExponent,
    /// A decimal integer that does not fit in an `i64` (`E0007`).
    IntegerTooLarge,
    /// No digit after `0x` or `0b` (`E0008`).
    MissingRadixDigits,
    /// A hexadecimal or binary integer that does not fit in an `i64`
    /// (`E0009`).
    RadixIntegerTooLarge,
    /// A string literal never closes (`E0010`).
    UnterminatedString,
    /// An invalid escape sequence in a string literal (`E0011`).
    InvalidEscape,
    /// An invalid unicode escape in a string literal (`E0012`).
    InvalidUnicodeEscape,
    /// A character that starts no token (`E0013`).
    InvalidCharacter,
    /// A group never closes (`E0014`).
    UnterminatedGroup,
}

impl ErrorCode {
    /// The stable identifier of this error.
    pub fn code(&self) -> (r: &'static str)
        ensures
            *self == ErrorCode::UnterminatedBlockComment ==> r@ == "E0001"@,
            *self == ErrorCode::ExponentAfterDot ==> r@ == "E0002"@,
            *self == ErrorCode::ExponentOnInteger ==> r@ == "E0003"@,
            *self == ErrorCode::MissingExponent ==> r@ == "E0004"@,
            *self == ErrorCode::InvalidExponent ==> r@ == "E0005"@,
            *self == ErrorCode::IntegerTooLarge ==> r@ == "E0007"@,
            *self == ErrorCode::MissingRadixDigits ==> r@ == "E0008"@,
            *self == ErrorCode::RadixIntegerTooLarge ==> r@ == "E0009"@,
            *self == ErrorCode::UnterminatedString ==> r@ == "E0010"@,
            *self == ErrorCode::InvalidEscape ==> r@ == "E0011"@,
            *self == ErrorCode::InvalidUnicodeEscape ==> r@ == "E0012"@,
            *self == ErrorCode::InvalidCharacter ==> r@ == "E0013"@,
            *self == ErrorCode::UnterminatedGroup ==> r@ == "E0014"@,
    {
        match self {
            ErrorCode::UnterminatedBlockComment => "E0001",
            ErrorCode::ExponentAfterDot => "E0002",
            ErrorCode::ExponentOnInteger => "E0003",
            ErrorCode::MissingExponent => "E0004",
            ErrorCode::InvalidExponent => "E0005",
            ErrorCode::IntegerTooLarge => "E0007",
            ErrorCode::MissingRadixDigits => "E0008",
            ErrorCode::RadixIntegerTooLarge => "E0009",
            ErrorCode::UnterminatedString => "E0010",
            ErrorCode::InvalidEscape => "E0011",
            ErrorCode::InvalidUnicodeEscape => "E0012",
            ErrorCode::InvalidCharacter => "E0013",
            ErrorCode::UnterminatedGroup => "E0014",
        }
    }
}

/// Whether a label marks the place of the error or a place related to it.
#[derive(Clone, Copy, Debug, PartialEq, Eq, Structural)]
pub enum LabelStyle {
    /// The place of the error.
    Primary,
    /// A related place.
    Secondary,
}

/// A note attached to a location in the source.
#[derive(Debug, PartialEq)]
pub struct Label {
    /// Whether this label is primary or secondary.
    pub style: LabelStyle,
    /// The location this label points at.
    pub loc: Loc,
    /// The text of this label.
    pub message: String,
}

/// An error found in the source. Its severity is always that of an error.
#[derive(Debug, PartialEq)]
pub struct Diagnostic {
    /// Which error this is.
    pub code: ErrorCode,
    /// A one-line description of the error.
    pub message: String,
    /// The labels pointing into the source, in order.
    pub labels: Vec<Label>,
}

/// The locations of the labels of `d`, with their styles, in order.
pub open spec fn label_locs(d: Diagnostic) -> Seq<(LabelStyle, int, int)> {
    d.labels@.map_values(|l: Label| (l.style, l.loc.start as int, l.loc.end as int))
}

impl Label {
    /// Builds a label of the given style over `start..end`.
    pub fn new(style: LabelStyle, start: usize, end: usize, message: &str) -> (r: Label)
        ensures
            r.style == style,
            r.loc.start == start,
            r.loc.end == end,
            r.message@ == message@,
    {
        Label { style, loc: start..end, message: String::from_str(message) }
    }
}

impl Diagnostic {
    /// Builds an error with the given code, message and labels.
    pub fn new(code: ErrorCode, message: &str, labels: Vec<Label>) -> (r: Diagnostic)
        ensures
            r.code == code,
            r.message@ == message@,
            r.labels@ == labels@,
    {
        Diagnostic { code, message: String::from_str(message), labels }
    }

    /// An error with one primary label over `start..end`.
    pub fn primary(code: ErrorCode, message: &str, start: usize, end: usize, note: &str) -> (r:
        Diagnostic)
        ensures
            r.code == code,
            label_locs(r) == seq![(LabelStyle::Primary, start as int, end as int)],
    {
        let labels = vec![Label::new(LabelStyle::Primary, start, end, note)];
        let r = Diagnostic::new(code, message, labels);
        assert(label_locs(r) =~= seq![(LabelStyle::Primary, start as int, end as int)]);
        r
    }

    /// An error with a primary label over `start..end` and a secondary label
    /// over `start2..end2`.
    pub fn primary_secondary(
        code: ErrorCode,
        message: &str,
        start: usize,
        end: usize,
        note: &str,
        start2: usize,
        end2: usize,
        note2: &str,
    ) -> (r: Diagnostic)
        ensures
            r.code == code,
            label_locs(r) == seq![
                (LabelStyle::Primary, start as int, end as int),
                (LabelStyle::Secondary, start2 as int, end2 as int),
            ],
    {
        let labels = vec![
            Label::new(LabelStyle::Primary, start, end, note),
            Label::new(LabelStyle::Secondary, start2, end2, note2),
        ];
        let r = Diagnostic::new(code, message, labels);
        assert(label_locs(r) =~= seq![
            (LabelStyle::Primary, start as int, end as int),
            (LabelStyle::Secondary, start2 as int, end2 as int),
        ]);
        r
    }
}

} // verus!
