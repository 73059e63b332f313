//! What the CSV reader makes of a window, as functions on sequences of
//! bytes.
use crate::bytes::{find, find2, CARRIAGE_RETURN, DOUBLE_QUOTE, NEWLINE, SPACE};
use crate::csv::{Error, FieldType};
use crate::quotes::{has_doubled, undouble, unescaped};
use crate::scan::{SplitResult, Token};
use vstd::prelude::*;

verus! {

/// What the reader answers.
pub type Field = SplitResult<FieldType, Error>;

/// How the reader is set up, and whether its last field ended a record.
pub ghost struct Setup {
    pub sep: u8,
    pub quoted: bool,
    pub eor: bool,
    pub trim: bool,
    pub comment: u8,
    pub lazy: bool,
}

/// What the reader makes of a window: its answer, the window afterwards, and
/// whether the field it found, if any, ended a record.
pub ghost struct Reading {
    pub result: Field,
    pub data: Seq<u8>,
    pub eor: bool,
}

/// The bytes `start..end` are a field of kind `kind`, and `advance` bytes are
/// consumed.
pub open spec fn field(start: int, end: int, kind: FieldType, advance: int) -> Field {
    Ok((Some(Token { start: start as usize, end: end as usize, kind }), advance as usize))
}

/// More data is needed.
pub open spec fn more() -> Field {
    Ok((None, 0usize))
}

/// Where the spaces at the start of `start..end` end.
pub open spec fn trim_start(data: Seq<u8>, start: int, end: int) -> int
    decreases end - start,
{
    if 0 <= start < end <= data.len() && data[start] == SPACE {
        trim_start(data, start + 1, end)
    } else {
        start
    }
}

/// Where the spaces at the end of `start..end` start.
pub open spec fn trim_end(data: Seq<u8>, start: int, end: int) -> int
    decreases end - start,
{
    if 0 <= start < end <= data.len() && data[end - 1] == SPACE {
        trim_end(data, start, end - 1)
    } else {
        end
    }
}

/// The unquoted field `0..end`, without the spaces around it if `trim` is
/// set.
pub open spec fn unquoted(data: Seq<u8>, end: int, trim: bool, advance: int) -> Field {
    if trim {
        let start = trim_start(data, 0, end);
        field(start, trim_end(data, start, end), FieldType::Unquoted, advance)
    } else {
        field(0, end, FieldType::Unquoted, advance)
    }
}

/// Where the field that ends before the line feed at `newline` ends: before
/// a carriage return, if one stands there.
pub open spec fn line_end(data: Seq<u8>, newline: int) -> int {
    if newline > 0 && data[newline - 1] == CARRIAGE_RETURN {
        newline - 1
    } else {
        newline
    }
}

/// An unquoted field: it runs to the first separator or line feed, or to the
/// end of the stream.
pub open spec fn read_unquoted(setup: Setup, data: Seq<u8>, eof: bool) -> Reading {
    let stop = find2(data, 0, setup.sep, NEWLINE);
    if stop < data.len() {
        if data[stop] == setup.sep {
            Reading { result: unquoted(data, stop, setup.trim, stop + 1), data, eor: false }
        } else {
            Reading {
                result: unquoted(data, line_end(data, stop), setup.trim, stop + 1),
                data,
                eor: true,
            }
        }
    } else if eof {
        Reading {
            result: unquoted(data, data.len() as int, setup.trim, data.len() as int),
            data,
            eor: true,
        }
    } else {
        Reading { result: more(), data, eor: setup.eor }
    }
}

/// How a quoted field ends.
pub ghost enum Close {
    /// It does not end in the window.
    Open,
    /// Its closing quote stands at `close`; with what terminates it, it takes
    /// `advance` bytes; `eor` says whether that is the end of a line or of
    /// the stream.
    Closed { close: int, advance: int, eor: bool },
    /// A quote in it is followed by a byte that may not follow one.
    Stray,
}

/// How the quoted field that opens `data` ends, read from `from` on. A
/// doubled quote is content. A quote before the separator, a line feed, a
/// carriage return and line feed, or the end of the stream closes the field.
/// A quote before a carriage return that no line feed follows is content. A
/// quote before any other byte is content if `lazy` is set, and stray if not.
pub open spec fn quoted_close(data: Seq<u8>, from: int, sep: u8, lazy: bool, eof: bool) -> Close
    decreases data.len() - from,
{
    if from < 1 || from >= data.len() {
        Close::Open
    } else if data[from] != DOUBLE_QUOTE {
        quoted_close(data, from + 1, sep, lazy, eof)
    } else if from + 1 >= data.len() {
        if eof {
            Close::Closed { close: from, advance: from + 1, eor: true }
        } else {
            Close::Open
        }
    } else if data[from + 1] == DOUBLE_QUOTE {
        quoted_close(data, from + 2, sep, lazy, eof)
    } else if data[from + 1] == sep {
        Close::Closed { close: from, advance: from + 2, eor: false }
    } else if data[from + 1] == NEWLINE {
        Close::Closed { close: from, advance: from + 2, eor: true }
    } else if data[from + 1] == CARRIAGE_RETURN {
        if from + 2 >= data.len() {
            Close::Open
        } else if data[from + 2] == NEWLINE {
            Close::Closed { close: from, advance: from + 3, eor: true }
        } else {
            quoted_close(data, from + 2, sep, lazy, eof)
        }
    } else if lazy {
        quoted_close(data, from + 1, sep, lazy, eof)
    } else {
        Close::Stray
    }
}

/// What a quoted field is: escaped if it holds a doubled quote.
pub open spec fn quoted_kind(content: Seq<u8>) -> FieldType {
    if has_doubled(content, DOUBLE_QUOTE) {
        FieldType::Escaped
    } else {
        FieldType::Quoted
    }
}

/// A quoted field: what stands between the quotes, with doubled quotes made
/// single in place.
pub open spec fn read_quoted(setup: Setup, data: Seq<u8>, eof: bool) -> Reading {
    match quoted_close(data, 1, setup.sep, setup.lazy, eof) {
        Close::Closed { close, advance, eor } => Reading {
            result: field(
                1,
                1 + undouble(data.subrange(1, close), DOUBLE_QUOTE).len() as int,
                quoted_kind(data.subrange(1, close)),
                advance,
            ),
            data: unescaped(data, 1, close, DOUBLE_QUOTE),
            eor,
        },
        Close::Stray => Reading {
            result: Err(Error::UnescapedQuote { quote: DOUBLE_QUOTE, pos: None }),
            data,
            eor: setup.eor,
        },
        Close::Open => Reading {
            result: if eof {
                Err(Error::UnterminatedQuotedField(None))
            } else {
                more()
            },
            data,
            eor: setup.eor,
        },
    }
}

/// Whether a comment line opens `data`: the comment byte is set, a record
/// starts here, and the first byte is the comment byte.
pub open spec fn opens_comment(setup: Setup, data: Seq<u8>) -> bool {
    setup.comment != 0 && setup.eor && data.len() > 0 && data[0] == setup.comment
}

/// A comment line: it is reported as a record of one empty field.
pub open spec fn read_comment(setup: Setup, data: Seq<u8>, eof: bool) -> Reading {
    let newline = find(data, 0, NEWLINE);
    if newline < data.len() {
        Reading { result: field(0, 0, FieldType::Unquoted, newline + 1), data, eor: true }
    } else if eof {
        Reading { result: field(0, 0, FieldType::Unquoted, data.len() as int), data, eor: true }
    } else {
        Reading { result: more(), data, eor: setup.eor }
    }
}

/// What the reader makes of a window holding `data`. At the end of the
/// stream, a reader whose last field ended a record has nothing more to say;
/// one whose last field ended with a separator has one more, empty field.
pub open spec fn read(setup: Setup, data: Seq<u8>, eof: bool) -> Reading {
    if data.len() == 0 && (setup.eor || !eof) {
        Reading { result: more(), data, eor: setup.eor }
    } else if opens_comment(setup, data) {
        read_comment(setup, data, eof)
    } else if setup.quoted && data.len() > 0 && data[0] == DOUBLE_QUOTE {
        read_quoted(setup, data, eof)
    } else {
        read_unquoted(setup, data, eof)
    }
}

} // verus!
