//! What can go wrong while reading CSV fields.
use crate::scan::ScanError;
use vstd::prelude::*;

verus! {

/// An error of the CSV reader. Every kind but `Io` carries the line and
/// column at which the offending field starts, once the scanner has filled
/// them in.
#[derive(Debug)]
pub enum Error {
    /// The byte source failed.
    Io(std::io::Error),
    /// A quote inside a quoted field is followed by something other than a
    /// second quote, the separator or the end of the line.
    UnescapedQuote { quote: u8, pos: Option<(u64, usize)> },
    /// The stream ended inside a quoted field.
    UnterminatedQuotedField(Option<(u64, usize)>),
}

impl Error {
    /// Where the error arose, if it is of a kind that says so and the
    /// position has been recorded.
    pub open spec fn spec_location(self) -> Option<(u64, usize)> {
        match self {
            Error::Io(_) => None,
            Error::UnescapedQuote { quote, pos } => pos,
            Error::UnterminatedQuotedField(pos) => pos,
        }
    }

    /// Where the error arose, if it is of a kind that says so and the
    /// position has been recorded.
    pub fn location(&self) -> (pos: Option<(u64, usize)>)
        ensures
            pos == self.spec_location(),
    {
        match self {
            Error::Io(_) => None,
            Error::UnescapedQuote { quote: _, pos } => *pos,
            Error::UnterminatedQuotedField(pos) => *pos,
        }
    }
}

impl ScanError for Error {
    open spec fn with_position(self, line: u64, column: usize) -> Self {
        match self {
            Error::Io(inner) => Error::Io(inner),
            Error::UnescapedQuote { quote, pos } => Error::UnescapedQuote {
                quote,
                pos: Some((line, column)),
            },
            Error::UnterminatedQuotedField(_) => Error::UnterminatedQuotedField(
                Some((line, column)),
            ),
        }
    }

    fn position(&mut self, line: u64, column: usize) {
        match self {
            Error::Io(_) => {},
            Error::UnescapedQuote { quote: _, pos } => {
                *pos = Some((line, column));
            },
            Error::UnterminatedQuotedField(pos) => {
                *pos = Some((line, column));
            },
        }
    }
}

impl From<std::io::Error> for Error {
    fn from(err: std::io::Error) -> (e: Error) {
        Error::Io(err)
    }
}

impl vstd::std_specs::convert::FromSpecImpl<std::io::Error> for Error {
    open spec fn obeys_from_spec() -> bool {
        true
    }

    open spec fn from_spec(err: std::io::Error) -> Error {
        Error::Io(err)
    }
}

} // verus!
