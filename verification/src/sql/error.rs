//! What can go wrong while reading SQL tokens.
use crate::scan::ScanError;
use vstd::prelude::*;

verus! {

/// A tokenization error. Every kind but `Io` carries the line and column at
/// which the offending token starts, once the scanner has filled them in.
#[derive(Debug)]
pub enum Error {
    /// The byte source failed.
    Io(std::io::Error),
    UnrecognizedToken(Option<(u64, usize)>),
    UnterminatedLiteral(Option<(u64, usize)>),
    UnterminatedBracket(Option<(u64, usize)>),
    UnterminatedBlockComment(Option<(u64, usize)>),
    BadVariableName(Option<(u64, usize)>),
    BadNumber(Option<(u64, usize)>),
    ExpectedEqualsSign(Option<(u64, usize)>),
    MalformedBlobLiteral(Option<(u64, usize)>),
    MalformedHexInteger(Option<(u64, usize)>),
}

impl Error {
    /// Where the error arose, if it is of a kind that says so and the
    /// position has been recorded.
    pub open spec fn spec_location(self) -> Option<(u64, usize)> {
        match self {
            Error::Io(_) => None,
            Error::UnrecognizedToken(pos) => pos,
            Error::UnterminatedLiteral(pos) => pos,
            Error::UnterminatedBracket(pos) => pos,
            Error::UnterminatedBlockComment(pos) => pos,
            Error::BadVariableName(pos) => pos,
            Error::BadNumber(pos) => pos,
            Error::ExpectedEqualsSign(pos) => pos,
            Error::MalformedBlobLiteral(pos) => pos,
            Error::MalformedHexInteger(pos) => pos,
        }
    }

    /// Where the error arose, if it is of a kind that says so and the
    /// position has been recorded.
    pub fn location(&self) -> (pos: Option<(u64, usize)>)
        ensures
            pos == self.spec_location(),
    {
        match self {
            Error::Io(_) => None,
            Error::UnrecognizedToken(pos) => *pos,
            Error::UnterminatedLiteral(pos) => *pos,
            Error::UnterminatedBracket(pos) => *pos,
            Error::UnterminatedBlockComment(pos) => *pos,
            Error::BadVariableName(pos) => *pos,
            Error::BadNumber(pos) => *pos,
            Error::ExpectedEqualsSign(pos) => *pos,
            Error::MalformedBlobLiteral(pos) => *pos,
            Error::MalformedHexInteger(pos) => *pos,
        }
    }
}

impl ScanError for Error {
    open spec fn with_position(self, line: u64, column: usize) -> Self {
        match self {
            Error::Io(inner) => Error::Io(inner),
            Error::UnrecognizedToken(_) => Error::UnrecognizedToken(Some((line, column))),
            Error::UnterminatedLiteral(_) => Error::UnterminatedLiteral(Some((line, column))),
            Error::UnterminatedBracket(_) => Error::UnterminatedBracket(Some((line, column))),
            Error::UnterminatedBlockComment(_) => Error::UnterminatedBlockComment(
                Some((line, column)),
            ),
            Error::BadVariableName(_) => Error::BadVariableName(Some((line, column))),
            Error::BadNumber(_) => Error::BadNumber(Some((line, column))),
            Error::ExpectedEqualsSign(_) => Error::ExpectedEqualsSign(Some((line, column))),
            Error::MalformedBlobLiteral(_) => Error::MalformedBlobLiteral(Some((line, column))),
            Error::MalformedHexInteger(_) => Error::MalformedHexInteger(Some((line, column))),
        }
    }

    fn position(&mut self, line: u64, column: usize) {
        match self {
            Error::Io(_) => {},
            Error::UnrecognizedToken(pos) => {
                *pos = Some((line, column));
            },
            Error::UnterminatedLiteral(pos) => {
                *pos = Some((line, column));
            },
            Error::UnterminatedBracket(pos) => {
                *pos = Some((line, column));
            },
            Error::UnterminatedBlockComment(pos) => {
                *pos = Some((line, column));
            },
            Error::BadVariableName(pos) => {
                *pos = Some((line, column));
            },
            Error::BadNumber(pos) => {
                *pos = Some((line, column));
            },
            Error::ExpectedEqualsSign(pos) => {
                *pos = Some((line, column));
            },
            Error::MalformedBlobLiteral(pos) => {
                *pos = Some((line, column));
            },
            Error::MalformedHexInteger(pos) => {
                *pos = Some((line, column));
            },
        }
    }
}

impl From<std::io::Error> for Error {
    fn from(err: std::io::Error) -> (e: Error) {
        Error::Io(err)
    }
}

impl vstd::std_specs::convert::FromSpecImpl<std::io::Error> for Error {
    open spec fn obeys_from_spec() -> bool {
        true
    }

    open spec fn from_spec(err: std::io::Error) -> Error {
        Error::Io(err)
    }
}

} // verus!
