use vstd::prelude::*;

verus! {

/// Why a decimal integer could not be parsed; mirrors the kinds std reports.
#[derive(Clone, Copy, Debug, PartialEq, Eq, Structural)]
pub enum ParseIntErrorKind {
    /// The input was empty.
    Empty,
    /// The input held a character that is not a decimal digit.
    InvalidDigit,
    /// The value does not fit in the target type.
    PosOverflow,
}

/// Application error types.
#[derive(Debug)]
pub enum AppError {
    GDBError(String),
    GDBTimeout,
    GDBBusy,
    GDBQuit,
    ParseError(String),
    IoError(String),
    NotFound(String),
    ProgramExited(String),
    ProgramNotRunning(String),
    InvalidArgument(String),
    ParseIntError(ParseIntErrorKind),
    ParseJsonError(String),
    AnyhowError(String),
    JoinError(String),
}

/// The text std gives for each kind of integer parse failure.
pub open spec fn int_error_text(kind: ParseIntErrorKind) -> Seq<char> {
    match kind {
        ParseIntErrorKind::Empty => "cannot parse integer from empty string"@,
        ParseIntErrorKind::InvalidDigit => "invalid digit found in string"@,
        ParseIntErrorKind::PosOverflow => "number too large to fit in target type"@,
    }
}

impl ParseIntErrorKind {
    /// The message describing this kind of failure.
    pub fn message(&self) -> (text: String)
        ensures
            text@ == int_error_text(*self),
    {
        match self {
            ParseIntErrorKind::Empty => String::from_str("cannot parse integer from empty string"),
            ParseIntErrorKind::InvalidDigit => String::from_str("invalid digit found in string"),
            ParseIntErrorKind::PosOverflow => String::from_str("number too large to fit in target type"),
        }
    }
}

} // verus!
