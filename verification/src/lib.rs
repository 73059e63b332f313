//! Streaming tokenizers over a growable byte buffer: a generic scanner, a
//! line splitter, a CSV field reader and a SQL lexer.
use crate::bytes::{find, position, CARRIAGE_RETURN, NEWLINE};
use vstd::prelude::*;
use vstd::slice::slice_subrange;

pub mod bytes;
pub mod csv;
pub mod cursor;
pub mod quotes;
mod scan;
pub mod sql;

pub use crate::scan::{
    at_rest,
    claimed,
    fits,
    lemma_cursor_accuracy,
    lemma_cursor_advances,
    lemma_end_is_final,
    lemma_token_is_input,
    well_formed,
    ScanError,
    Scanner,
    Split,
    SplitResult,
    Splitter,
    State,
    Step,
    Token,
};

verus! {

impl ScanError for std::io::Error {
    open spec fn with_position(self, line: u64, column: usize) -> Self {
        self
    }

    fn position(&mut self, line: u64, column: usize) {
    }
}

/// A splitter that cuts its input into lines.
pub struct Liner {}

/// `s` without a carriage return at its end.
pub open spec fn without_cr(s: Seq<u8>) -> Seq<u8> {
    if s.len() > 0 && s.last() == CARRIAGE_RETURN {
        s.drop_last()
    } else {
        s
    }
}

/// What the line splitter answers: the line that ends at the first line
/// feed, or at the end of the stream, without its line feed and without a
/// carriage return before it.
pub open spec fn split_line(data: Seq<u8>, eof: bool) -> SplitResult<(), std::io::Error> {
    let newline = find(data, 0, NEWLINE);
    if newline < data.len() {
        Ok(
            (
                Some(
                    Token { start: 0, end: without_cr(data.take(newline)).len() as usize, kind: () },
                ),
                (newline + 1) as usize,
            ),
        )
    } else if eof && data.len() > 0 {
        Ok(
            (
                Some(Token { start: 0, end: without_cr(data).len() as usize, kind: () }),
                data.len() as usize,
            ),
        )
    } else {
        Ok((None, 0usize))
    }
}

impl Splitter for Liner {
    type Error = std::io::Error;

    type TokenType = ();

    open spec fn step(&self, data: Seq<u8>, eof: bool) -> Split<Self, (), std::io::Error> {
        Split { next: *self, data, result: split_line(data, eof) }
    }

    fn split(&mut self, data: &mut [u8], eof: bool) -> (answer: SplitResult<(), std::io::Error>) {
        let data: &[u8] = &*data;
        if eof && data.len() == 0 {
            return Ok((None, 0));
        }
        let newline = position(NEWLINE, data);
        if newline < data.len() {
            let line = drop_cr(slice_subrange(data, 0, newline));
            return Ok((Some(Token { start: 0, end: line.len(), kind: () }), newline + 1));
        }
        // If we're at EOF, we have a final, non-terminated line. Return it.
        if eof {
            let line = drop_cr(data);
            return Ok((Some(Token { start: 0, end: line.len(), kind: () }), data.len()));
        }
        // Request more data.
        Ok((None, 0))
    }
}

/// Drops a terminal \r from the data.
pub fn drop_cr(data: &[u8]) -> (line: &[u8])
    ensures
        line@ == without_cr(data@),
{
    if data.len() > 0 && data[data.len() - 1] == CARRIAGE_RETURN {
        return slice_subrange(data, 0, data.len() - 1);
    }
    data
}

} // verus!
