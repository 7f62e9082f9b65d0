use vstd::prelude::*;
use vstd::string::*;

verus! {

/// A region of the input text, in characters: `start` inclusive, `end` exclusive.
#[derive(Clone, Copy, Debug, PartialEq, Eq, Structural)]
pub struct Span {
    pub start: usize,
    pub end: usize,
}

/// Every failure of parsing a declaration or of deriving a name.
#[derive(Clone, Debug, PartialEq, Eq)]
pub enum DialectError {
    /// A required key was never given; blames the whole input.
    MissingRequiredField { field: String, location: Span },
    /// A key outside the recognized set; blames the key itself.
    UnknownField { key: String, location: Span },
    /// A list key whose value is not a bracketed list of string literals.
    MalformedList { location: Span },
    /// A scalar key whose value is not a string literal.
    MalformedScalar { location: Span },
    /// A token that the grammar does not allow where it stands.
    UnexpectedToken { location: Span },
    /// A required prefix or suffix is absent from an identifier.
    PrefixNotFound { expected: String, actual: String },
}

/// The mathematical model of a [`DialectError`].
pub ghost enum ErrorView {
    MissingRequiredField { field: Seq<char>, location: Span },
    UnknownField { key: Seq<char>, location: Span },
    MalformedList { location: Span },
    MalformedScalar { location: Span },
    UnexpectedToken { location: Span },
    PrefixNotFound { expected: Seq<char>, actual: Seq<char> },
}

impl View for DialectError {
    type V = ErrorView;

    open spec fn view(&self) -> ErrorView {
        match self {
            DialectError::MissingRequiredField { field, location } => ErrorView::MissingRequiredField {
                field: field@,
                location: *location,
            },
            DialectError::UnknownField { key, location } => ErrorView::UnknownField {
                key: key@,
                location: *location,
            },
            DialectError::MalformedList { location } => ErrorView::MalformedList {
                location: *location,
            },
            DialectError::MalformedScalar { location } => ErrorView::MalformedScalar {
                location: *location,
            },
            DialectError::UnexpectedToken { location } => ErrorView::UnexpectedToken {
                location: *location,
            },
            DialectError::PrefixNotFound { expected, actual } => ErrorView::PrefixNotFound {
                expected: expected@,
                actual: actual@,
            },
        }
    }
}

/// The text of the diagnostic for an error.
pub open spec fn message_of(e: ErrorView) -> Seq<char> {
    match e {
        ErrorView::MissingRequiredField { field, .. } => "missing required field "@ + field,
        ErrorView::UnknownField { key, .. } => "invalid field "@ + key,
        ErrorView::MalformedList { .. } => "malformed list"@,
        ErrorView::MalformedScalar { .. } => "expected a string literal"@,
        ErrorView::UnexpectedToken { .. } => "unexpected token"@,
        ErrorView::PrefixNotFound { expected, actual } => "prefix "@ + expected + " not found in "@
            + actual,
    }
}

/// The part of the input that a diagnostic blames, where there is one.
pub open spec fn location_of(e: ErrorView) -> Option<Span> {
    match e {
        ErrorView::MissingRequiredField { location, .. } => Some(location),
        ErrorView::UnknownField { location, .. } => Some(location),
        ErrorView::MalformedList { location } => Some(location),
        ErrorView::MalformedScalar { location } => Some(location),
        ErrorView::UnexpectedToken { location } => Some(location),
        ErrorView::PrefixNotFound { .. } => None,
    }
}

impl DialectError {
    /// The text of the diagnostic.
    pub fn message(&self) -> (r: String)
        ensures
            r@ == message_of(self@),
    {
        match self {
            DialectError::MissingRequiredField { field, .. } => "missing required field "
                .to_owned()
                .concat(field.as_str()),
            DialectError::UnknownField { key, .. } => "invalid field ".to_owned().concat(
                key.as_str(),
            ),
            DialectError::MalformedList { .. } => "malformed list".to_owned(),
            DialectError::MalformedScalar { .. } => "expected a string literal".to_owned(),
            DialectError::UnexpectedToken { .. } => "unexpected token".to_owned(),
            DialectError::PrefixNotFound { expected, actual } => "prefix ".to_owned().concat(
                expected.as_str(),
            ).concat(" not found in ").concat(actual.as_str()),
        }
    }

    /// The part of the input that the diagnostic blames; `None` where the
    /// error concerns a derived name rather than the input text.
    pub fn location(&self) -> (r: Option<Span>)
        ensures
            r == location_of(self@),
    {
        match self {
            DialectError::MissingRequiredField { location, .. } => Some(*location),
            DialectError::UnknownField { location, .. } => Some(*location),
            DialectError::MalformedList { location } => Some(*location),
            DialectError::MalformedScalar { location } => Some(*location),
            DialectError::UnexpectedToken { location } => Some(*location),
            DialectError::PrefixNotFound { .. } => None,
        }
    }
}

} // verus!
