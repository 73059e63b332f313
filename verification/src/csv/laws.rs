//! What holds of every window that the CSV reader is shown.
use crate::bytes::{CARRIAGE_RETURN, DOUBLE_QUOTE, NEWLINE};
use crate::csv::grammar::{quoted_close, read, read_quoted, Close, Setup};
use crate::csv::FieldType;
use crate::quotes::{
    double,
    has_doubled,
    lemma_undouble_double,
    lemma_undouble_len,
    lemma_undouble_plain,
    unescaped,
};
use vstd::prelude::*;

verus! {

/// A quoted field closes inside the window, behind where it is read from.
pub proof fn lemma_quoted_close_bounds(data: Seq<u8>, from: int, sep: u8, lazy: bool, eof: bool)
    requires
        1 <= from,
    ensures
        quoted_close(data, from, sep, lazy, eof) matches Close::Closed { close, advance, eor }
            ==> from <= close < advance <= data.len(),
    decreases data.len() - from,
{
    if from < data.len() {
        if data[from] != DOUBLE_QUOTE {
            lemma_quoted_close_bounds(data, from + 1, sep, lazy, eof);
        } else if from + 1 < data.len() {
            if data[from + 1] == DOUBLE_QUOTE {
                lemma_quoted_close_bounds(data, from + 2, sep, lazy, eof);
            } else if data[from + 1] == sep {
            } else if data[from + 1] == NEWLINE {
            } else if data[from + 1] == CARRIAGE_RETURN {
                if from + 2 < data.len() && data[from + 2] != NEWLINE {
                    lemma_quoted_close_bounds(data, from + 2, sep, lazy, eof);
                }
            } else if lazy {
                lemma_quoted_close_bounds(data, from + 1, sep, lazy, eof);
            }
        }
    }
}

/// Whatever the reader answers, it has rewritten the window only where it
/// found a field with a doubled quote in it. Every other field is handed
/// out as the bytes of the input itself.
pub proof fn lemma_plain_fields_are_verbatim(setup: Setup, data: Seq<u8>, eof: bool)
    ensures
        match read(setup, data, eof).result {
            Ok((Some(token), _)) => token.kind != FieldType::Escaped ==> read(setup, data, eof).data
                == data,
            _ => read(setup, data, eof).data == data,
        },
{
    if data.len() > 0 {
        lemma_quoted_close_bounds(data, 1, setup.sep, setup.lazy, eof);
        match quoted_close(data, 1, setup.sep, setup.lazy, eof) {
            Close::Closed { close, advance, eor } => {
                let content = data.subrange(1, close);
                if !has_doubled(content, DOUBLE_QUOTE) {
                    lemma_undouble_plain(content, DOUBLE_QUOTE);
                    assert(unescaped(data, 1, close, DOUBLE_QUOTE) =~= data);
                }
            },
            _ => {},
        }
    }
}

/// Whether `rest` starts with what may follow the closing quote of a field:
/// the separator, a line feed, a carriage return and a line feed, or the end
/// of the stream.
pub open spec fn terminates(rest: Seq<u8>, sep: u8, eof: bool) -> bool {
    if rest.len() == 0 {
        eof
    } else if rest[0] == DOUBLE_QUOTE {
        false
    } else {
        rest[0] == sep || rest[0] == NEWLINE || (rest[0] == CARRIAGE_RETURN && rest.len() >= 2
            && rest[1] == NEWLINE)
    }
}

/// Read from the end of `before`, a field whose content is written with its
/// quotes doubled closes at the quote behind the content.
proof fn lemma_doubled_closes(
    before: Seq<u8>,
    content: Seq<u8>,
    rest: Seq<u8>,
    sep: u8,
    lazy: bool,
    eof: bool,
)
    requires
        before.len() >= 1,
        terminates(rest, sep, eof),
    ensures
        quoted_close(
            before + double(content, DOUBLE_QUOTE) + seq![DOUBLE_QUOTE] + rest,
            before.len() as int,
            sep,
            lazy,
            eof,
        ) matches Close::Closed { close, advance, eor } && close == before.len() + double(
            content,
            DOUBLE_QUOTE,
        ).len(),
    decreases content.len(),
{
    let written = double(content, DOUBLE_QUOTE);
    let data = before + written + seq![DOUBLE_QUOTE] + rest;
    let from = before.len() as int;
    if content.len() == 0 {
        assert(data[from] == DOUBLE_QUOTE);
        if rest.len() > 0 {
            assert(data[from + 1] == rest[0]);
            if rest.len() >= 2 {
                assert(data[from + 2] == rest[1]);
            }
        }
    } else {
        let tail = content.skip(1);
        if content[0] == DOUBLE_QUOTE {
            let longer = before + seq![DOUBLE_QUOTE, DOUBLE_QUOTE];
            assert(data =~= longer + double(tail, DOUBLE_QUOTE) + seq![DOUBLE_QUOTE] + rest);
            assert(data[from] == DOUBLE_QUOTE && data[from + 1] == DOUBLE_QUOTE);
            lemma_doubled_closes(longer, tail, rest, sep, lazy, eof);
        } else {
            let longer = before + seq![content[0]];
            assert(data =~= longer + double(tail, DOUBLE_QUOTE) + seq![DOUBLE_QUOTE] + rest);
            assert(data[from] == content[0]);
            lemma_doubled_closes(longer, tail, rest, sep, lazy, eof);
        }
    }
}

/// Quoting and reading back: a window that opens with `content` between
/// quotes, its own quotes doubled, and goes on with what may follow a field,
/// yields a field whose bytes are `content`.
pub proof fn lemma_quoting_round_trip(
    setup: Setup,
    content: Seq<u8>,
    rest: Seq<u8>,
    eof: bool,
)
    requires
        setup.quoted,
        setup.comment != DOUBLE_QUOTE,
        terminates(rest, setup.sep, eof),
        double(content, DOUBLE_QUOTE).len() + rest.len() + 2 <= usize::MAX,
    ensures
        ({
            let data = seq![DOUBLE_QUOTE] + double(content, DOUBLE_QUOTE) + seq![DOUBLE_QUOTE]
                + rest;
            let reading = read(setup, data, eof);
            &&& reading.result matches Ok((Some(token), advance))
            &&& reading.data.subrange(token.start as int, token.end as int) == content
        }),
{
    let written = double(content, DOUBLE_QUOTE);
    let data = seq![DOUBLE_QUOTE] + written + seq![DOUBLE_QUOTE] + rest;
    lemma_doubled_closes(seq![DOUBLE_QUOTE], content, rest, setup.sep, setup.lazy, eof);
    lemma_undouble_double(content, DOUBLE_QUOTE);
    let close = 1 + written.len() as int;
    assert(data.subrange(1, close) =~= written);
    lemma_undouble_len(written, DOUBLE_QUOTE);
    assert(data[0] == DOUBLE_QUOTE);
    assert(read(setup, data, eof) == read_quoted(setup, data, eof));
    let after = unescaped(data, 1, close, DOUBLE_QUOTE);
    assert(after.subrange(1, 1 + content.len() as int) =~= content);
}

} // verus!
