//! A reader of CSV fields.
use crate::bytes::{position, position2, CARRIAGE_RETURN, COMMA, DOUBLE_QUOTE, NEWLINE, SPACE};
use crate::csv::grammar::{
    quoted_close,
    read,
    read_comment,
    read_quoted,
    read_unquoted,
    trim_end,
    trim_start,
    unquoted,
    Close,
    Field,
    Setup,
};
use crate::quotes::{has_doubled, lemma_undouble_len, lemma_undouble_plain, undouble, unescaped};
use crate::scan::{well_formed, Split, Splitter, Token};
use vstd::prelude::*;

pub mod error;
pub mod grammar;
pub mod laws;

pub use crate::csv::error::Error;

verus! {

/// What a field is.
#[derive(Clone, Copy, Debug, PartialEq, Eq, Structural)]
pub enum FieldType {
    /// Quoted value
    Quoted,
    /// Quoted value with escaped quote
    Escaped,
    /// Not quoted value
    Unquoted,
}

/// Reader provides an interface for reading CSV data
/// (compatible with rfc4180 and extended with the option of having a separator other than ",").
/// Successive calls to the `scan` method will step through the 'fields',
/// skipping the separator/newline between the fields.
/// The `end_of_record` method tells when a field is terminated by a line break.
pub struct Reader {
    /// values separator
    sep: u8,
    /// specify if values may be quoted (when they contain separator or newline)
    quoted: bool,
    // true when the most recent field has been terminated by a newline (not a separator).
    eor: bool,
    /// trim spaces (only on unquoted values). Break rfc4180 rule: "Spaces are considered part of
    /// a field and should not be ignored."
    pub trim: bool,
    /// character marking the start of a line comment. When specified (not 0), line comment appears
    /// as empty line.
    pub comment: u8,
    /// specify if quoted values may contains unescaped quote not followed by a separator
    /// or a newline
    pub lazy: bool,
}

impl View for Reader {
    type V = Setup;

    closed spec fn view(&self) -> Setup {
        Setup {
            sep: self.sep,
            quoted: self.quoted,
            eor: self.eor,
            trim: self.trim,
            comment: self.comment,
            lazy: self.lazy,
        }
    }
}

impl Default for Reader {
    /// A reader with nothing set: the separator is the zero byte, quotes are
    /// not honored, and no record has ended yet.
    fn default() -> (reader: Reader)
        ensures
            reader@ == (Setup {
                sep: 0,
                quoted: false,
                eor: false,
                trim: false,
                comment: 0,
                lazy: false,
            }),
    {
        Reader { sep: 0, quoted: false, eor: false, trim: false, comment: 0, lazy: false }
    }
}

impl Reader {
    /// This reader, with its last field having ended a record or not.
    pub closed spec fn ending(self, eor: bool) -> Reader {
        Reader {
            sep: self.sep,
            quoted: self.quoted,
            eor,
            trim: self.trim,
            comment: self.comment,
            lazy: self.lazy,
        }
    }

    /// `ending` changes nothing else, and nothing at all where the reader
    /// stands so already.
    pub proof fn lemma_ending(self, eor: bool)
        ensures
            self.ending(eor)@ == (Setup {
                sep: self@.sep,
                quoted: self@.quoted,
                eor,
                trim: self@.trim,
                comment: self@.comment,
                lazy: self@.lazy,
            }),
            eor == self@.eor ==> self.ending(eor) == self,
    {
    }

    /// Creates a "standard" CSV reader (separator is comma and quoted mode active)
    pub fn new() -> (reader: Reader)
        ensures
            reader@ == (Setup {
                sep: COMMA,
                quoted: true,
                eor: true,
                trim: false,
                comment: 0,
                lazy: false,
            }),
    {
        Reader { sep: COMMA, quoted: true, eor: true, trim: false, comment: 0, lazy: false }
    }

    /// When `quoted` is `false`, values must not contain a separator or newline.
    pub fn custom(sep: u8, quoted: bool) -> (reader: Reader)
        ensures
            reader@ == (Setup { sep, quoted, eor: true, trim: false, comment: 0, lazy: false }),
    {
        let mut r = Reader::new();
        r.sep = sep;
        r.quoted = quoted;
        r
    }

    pub fn end_of_record(&self) -> (eor: bool)
        ensures
            eor == self@.eor,
    {
        self.eor
    }
}

/// The unquoted field that ends at `end`, without the spaces around it if
/// `trim` is set.
fn trimmed(data: &[u8], end: usize, trim: bool, advance: usize) -> (answer: Field)
    requires
        end <= advance <= data@.len(),
        data@.len() > 0 ==> advance >= 1,
    ensures
        answer == unquoted(data@, end as int, trim, advance as int),
        well_formed(data@, data@, answer),
{
    if !trim {
        return Ok((Some(Token { start: 0, end, kind: FieldType::Unquoted }), advance));
    }
    let mut start: usize = 0;
    while start < end && data[start] == SPACE
        invariant
            start <= end <= data@.len(),
            trim_start(data@, 0, end as int) == trim_start(data@, start as int, end as int),
        decreases end - start,
    {
        start += 1;
    }
    let mut stop: usize = end;
    while start < stop && data[stop - 1] == SPACE
        invariant
            start <= stop <= end <= data@.len(),
            trim_end(data@, start as int, end as int) == trim_end(data@, start as int, stop as int),
        decreases stop - start,
    {
        stop -= 1;
    }
    Ok((Some(Token { start, end: stop, kind: FieldType::Unquoted }), advance))
}

impl Splitter for Reader {
    type Error = Error;

    type TokenType = FieldType;

    open spec fn step(&self, data: Seq<u8>, eof: bool) -> Split<Self, FieldType, Error> {
        let reading = read(self@, data, eof);
        Split { next: self.ending(reading.eor), data: reading.data, result: reading.result }
    }

    fn split(&mut self, data: &mut [u8], eof: bool) -> (answer: Field) {
        let len = data.len();
        if len == 0 && self.eor {
            return Ok((None, 0));
        }
        if self.comment != 0 && self.eor && len > 0 && data[0] == self.comment {
            self.comment_line(&*data, eof)
        } else if self.quoted && len > 0 && data[0] == DOUBLE_QUOTE {
            // quoted field (may contains separator, newline and escaped quote)
            self.quoted_field(data, eof)
        } else {
            self.unquoted_field(&*data, eof)
        }
    }
}

impl Reader {
    /// A quoted field, which opens `data`: its content, with doubled quotes
    /// made single in place.
    fn quoted_field(&mut self, data: &mut [u8], eof: bool) -> (answer: Field)
        requires
            old(data)@.len() >= 1,
        ensures
            answer == read_quoted(old(self)@, old(data)@, eof).result,
            *final(self) == old(self).ending(read_quoted(old(self)@, old(data)@, eof).eor),
            final(data)@ == read_quoted(old(self)@, old(data)@, eof).data,
            well_formed(old(data)@, final(data)@, answer),
            eof ==> answer != crate::csv::grammar::more(),
    {
        let ghost orig = data@;
        let ghost close = quoted_close(orig, 1, self@.sep, self@.lazy, eof);
        let len = data.len();
        match self.parse_quoted_field(&*data, eof) {
            Err(e) => Err(e),
            Ok((None, _, n)) => Ok((None, n)),
            Ok((Some((start, end)), true, n)) => {
                assert(close is Closed);
                assert(start == 1 && end == close->close && n == close->advance);
                let (head, _rest) = data.split_at_mut(end);
                let (_open, inner) = head.split_at_mut(start);
                assert(inner@ =~= orig.subrange(1, end as int));
                let m = unescape_quotes(inner);
                proof {
                    lemma_undouble_len(orig.subrange(1, end as int), DOUBLE_QUOTE);
                    assert(data@ =~= unescaped(orig, 1, end as int, DOUBLE_QUOTE));
                    assert(data@.skip(n as int) =~= orig.skip(n as int));
                }
                Ok((Some(Token { start, end: start + m, kind: FieldType::Escaped }), n))
            },
            Ok((Some((start, end)), false, n)) => {
                assert(close is Closed);
                assert(start == 1 && end == close->close && n == close->advance);
                proof {
                    lemma_undouble_plain(orig.subrange(1, end as int), DOUBLE_QUOTE);
                    assert(orig =~= unescaped(orig, 1, end as int, DOUBLE_QUOTE));
                }
                Ok((Some(Token { start, end, kind: FieldType::Quoted }), n))
            },
        }
    }

    /// An unquoted field, which opens `data`.
    fn unquoted_field(&mut self, data: &[u8], eof: bool) -> (answer: Field)
        requires
            data@.len() > 0 || eof,
        ensures
            answer == read_unquoted(old(self)@, data@, eof).result,
            *final(self) == old(self).ending(read_unquoted(old(self)@, data@, eof).eor),
            well_formed(data@, data@, answer),
            eof ==> answer != crate::csv::grammar::more(),
    {
        let len = data.len();
        // Scan until separator or newline, marking end of field.
        let stop = position2(self.sep, NEWLINE, data);
        if stop < len {
            if data[stop] == self.sep {
                self.eor = false;
                return trimmed(data, stop, self.trim, stop + 1);
            }
            self.eor = true;
            if stop > 0 && data[stop - 1] == CARRIAGE_RETURN {
                return trimmed(data, stop - 1, self.trim, stop + 1);
            }
            return trimmed(data, stop, self.trim, stop + 1);
        }
        // If we're at EOF, we have a final field. Return it.
        if eof {
            self.eor = true;
            return trimmed(data, len, self.trim, len);
        }
        // Request more data.
        Ok((None, 0))
    }
}

impl Reader {
    /// A comment line, which opens `data`: one empty field that ends a
    /// record.
    fn comment_line(&mut self, data: &[u8], eof: bool) -> (answer: Field)
        requires
            data@.len() >= 1,
        ensures
            answer == read_comment(old(self)@, data@, eof).result,
            *final(self) == old(self).ending(read_comment(old(self)@, data@, eof).eor),
            well_formed(data@, data@, answer),
            eof ==> answer != crate::csv::grammar::more(),
    {
        let newline = position(NEWLINE, data);
        if newline < data.len() {
            self.eor = true;
            Ok((Some(Token { start: 0, end: 0, kind: FieldType::Unquoted }), newline + 1))
        } else if eof {
            self.eor = true;
            Ok((Some(Token { start: 0, end: 0, kind: FieldType::Unquoted }), data.len()))
        } else {
            Ok((None, 0))
        }
    }

    /// Finds the end of the quoted field that opens `data`: where its
    /// content stands, whether the content holds a doubled quote, and how
    /// many bytes the field takes with what terminates it.
    pub fn parse_quoted_field(&mut self, data: &[u8], eof: bool) -> (found: Result<
        (Option<(usize, usize)>, bool, usize),
        Error,
    >)
        requires
            data@.len() >= 1,
        ensures
            match quoted_close(data@, 1, old(self)@.sep, old(self)@.lazy, eof) {
                Close::Closed { close, advance, eor } => {
                    &&& found == Ok::<(Option<(usize, usize)>, bool, usize), Error>(
                        (
                            Some((1usize, close as usize)),
                            has_doubled(data@.subrange(1, close), DOUBLE_QUOTE),
                            advance as usize,
                        ),
                    )
                    &&& 1 <= close < advance <= data@.len()
                    &&& *final(self) == old(self).ending(eor)
                },
                Close::Stray => {
                    &&& found == Err::<(Option<(usize, usize)>, bool, usize), Error>(
                        Error::UnescapedQuote { quote: DOUBLE_QUOTE, pos: None },
                    )
                    &&& *final(self) == *old(self)
                },
                Close::Open => {
                    &&& found == if eof {
                        Err::<(Option<(usize, usize)>, bool, usize), Error>(
                            Error::UnterminatedQuotedField(None),
                        )
                    } else {
                        Ok((None, false, 0usize))
                    }
                    &&& *final(self) == *old(self)
                },
            },
    {
        let len = data.len();
        let sep = self.sep;
        let lazy = self.lazy;
        let mut escaped_quotes = false;
        let mut i: usize = 1;
        // Scan until the separator or newline following the closing quote
        // (and ignore escaped quote)
        while i < len
            invariant
                1 <= i <= len,
                len == data@.len(),
                *self == *old(self),
                sep == self@.sep,
                lazy == self@.lazy,
                quoted_close(data@, 1, sep, lazy, eof) == quoted_close(data@, i as int, sep, lazy, eof),
                escaped_quotes == has_doubled(data@.subrange(1, i as int), DOUBLE_QUOTE),
                !escaped_quotes && i > 1 && data@[i - 1] == DOUBLE_QUOTE ==> i < len && data@[i as int]
                    != DOUBLE_QUOTE,
            decreases len - i,
        {
            let ghost before = data@.subrange(1, i as int);
            if data[i] != DOUBLE_QUOTE {
                proof {
                    lemma_no_new_pair(data@, i as int, 1);
                }
                i += 1;
            } else if i + 1 >= len {
                if eof {
                    self.eor = true;
                    return Ok((Some((1, i)), escaped_quotes, i + 1));
                }
                return Ok((None, false, 0));
            } else {
                let next = data[i + 1];
                if next == DOUBLE_QUOTE {
                    proof {
                        let after = data@.subrange(1, i as int + 2);
                        assert(after[i - 1] == DOUBLE_QUOTE && after[(i - 1) + 1] == DOUBLE_QUOTE);
                    }
                    escaped_quotes = true;
                    i += 2;
                } else if next == sep {
                    self.eor = false;
                    return Ok((Some((1, i)), escaped_quotes, i + 2));
                } else if next == NEWLINE {
                    self.eor = true;
                    return Ok((Some((1, i)), escaped_quotes, i + 2));
                } else if next == CARRIAGE_RETURN {
                    if i + 2 >= len {
                        if eof {
                            // If we're at EOF, we have a non-terminated field.
                            return Err(Error::UnterminatedQuotedField(None));
                        }
                        return Ok((None, false, 0));
                    } else if data[i + 2] == NEWLINE {
                        self.eor = true;
                        return Ok((Some((1, i)), escaped_quotes, i + 3));
                    }
                    proof {
                        lemma_no_new_pair(data@, i as int, 2);
                    }
                    i += 2;
                } else if lazy {
                    proof {
                        lemma_no_new_pair(data@, i as int, 1);
                    }
                    i += 1;
                } else {
                    return Err(Error::UnescapedQuote { quote: DOUBLE_QUOTE, pos: None });
                }
            }
        }
        if eof {
            // If we're at EOF, we have a non-terminated field.
            return Err(Error::UnterminatedQuotedField(None));
        }
        // Request more data.
        Ok((None, false, 0))
    }
}

/// Reading on over bytes that form no doubled quote, neither among
/// themselves nor with what was read, finds no doubled quote that was not
/// there before.
proof fn lemma_no_new_pair(data: Seq<u8>, i: int, step: int)
    requires
        1 <= i,
        1 <= step <= 2,
        i + step <= data.len(),
        i > 1 && data[i - 1] == DOUBLE_QUOTE && data[i] == DOUBLE_QUOTE ==> has_doubled(
            data.subrange(1, i),
            DOUBLE_QUOTE,
        ),
        data[i] != DOUBLE_QUOTE || data[i + 1] != DOUBLE_QUOTE,
        step == 2 ==> data[i + 1] != DOUBLE_QUOTE,
    ensures
        has_doubled(data.subrange(1, i + step), DOUBLE_QUOTE) == has_doubled(
            data.subrange(1, i),
            DOUBLE_QUOTE,
        ),
{
    let before = data.subrange(1, i);
    let after = data.subrange(1, i + step);
    if has_doubled(before, DOUBLE_QUOTE) {
        let k = choose|k: int|
            0 <= k < before.len() - 1 && before[k] == DOUBLE_QUOTE && #[trigger] before[k + 1]
                == DOUBLE_QUOTE;
        assert(after[k] == DOUBLE_QUOTE && after[k + 1] == DOUBLE_QUOTE);
    }
    if has_doubled(after, DOUBLE_QUOTE) {
        let k = choose|k: int|
            0 <= k < after.len() - 1 && after[k] == DOUBLE_QUOTE && #[trigger] after[k + 1]
                == DOUBLE_QUOTE;
        if k + 1 < before.len() {
            assert(before[k] == DOUBLE_QUOTE && before[k + 1] == DOUBLE_QUOTE);
        }
    }
}

/// Makes the doubled quotes of `data` single, in place, and returns the
/// length of what is left.
pub fn unescape_quotes(data: &mut [u8]) -> (n: usize)
    ensures
        n == undouble(old(data)@, DOUBLE_QUOTE).len(),
        final(data)@ == undouble(old(data)@, DOUBLE_QUOTE) + old(data)@.skip(n as int),
{
    crate::quotes::unescape_quotes(data, DOUBLE_QUOTE)
}

} // verus!
