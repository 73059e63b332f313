//! A lexer for the SQLite dialect of SQL.
use crate::bytes::{
    position,
    AMPERSAND,
    AT,
    BACKTICK,
    BANG,
    COLON,
    COMMA,
    DOLLAR,
    DOT,
    DOUBLE_QUOTE,
    EQUALS,
    GREATER,
    HASH,
    LEFT_BRACKET,
    LEFT_PAREN,
    LESS,
    LOWER_E,
    LOWER_X,
    MINUS,
    NEWLINE,
    PERCENT,
    PIPE,
    PLUS,
    QUESTION,
    RIGHT_BRACKET,
    RIGHT_PAREN,
    SEMICOLON,
    SINGLE_QUOTE,
    SLASH,
    STAR,
    TILDE,
    UPPER_E,
    UPPER_X,
    ZERO,
};
use crate::quotes::{has_doubled, lemma_undouble_len, lemma_undouble_plain, unescaped};
use crate::scan::{well_formed, Split, Splitter, Token};
use crate::sql::class::{run_end_of, Class};
use crate::sql::grammar::{
    all_ascii,
    classify,
    closing_quote,
    comment_end,
    lex,
    lex_bang,
    lex_blob,
    lex_bracket,
    lex_data,
    lex_dot,
    lex_equals,
    lex_exponent,
    lex_fraction,
    lex_greater,
    lex_hex,
    lex_less,
    lex_literal,
    lex_minus,
    lex_number,
    lex_pipe,
    lex_question,
    lex_slash,
    lex_variable,
    lex_word,
    literal_closed,
    to_upper,
    token,
    upper_case,
    Lexed,
};
use crate::sql::keywords::{keyword, MAX_KEYWORD_LEN};
use vstd::prelude::*;
use vstd::slice::slice_subrange;

pub mod class;
pub mod error;
pub mod grammar;
pub mod keywords;
pub mod laws;

pub use crate::quotes::unescape_quotes;
pub use crate::sql::class::{is_digit, is_hex_digit, is_identifier_continue, is_identifier_start, is_space};
pub use crate::sql::error::Error;

verus! {

/// What a token is.
#[derive(Clone, Copy, Debug, PartialEq, Eq, Structural)]
pub enum TokenType {
    // Keywords:
    Abort,
    Action,
    Add,
    After,
    All,
    Alter,
    Analyze,
    And,
    As,
    Asc,
    Attach,
    Autoincr,
    Before,
    Begin,
    Between,
    By,
    Cascade,
    Case,
    Cast,
    Check,
    Collate,
    ColumnKw,
    Commit,
    Conflict,
    Constraint,
    Create,
    Cross,
    CurrentDate,
    CurrentTime,
    CurrentTimestamp,
    Database,
    Default,
    Deferrable,
    Deferred,
    Delete,
    Desc,
    Detach,
    Distinct,
    Drop,
    Each,
    Else,
    End,
    Escape,
    Except,
    Exclusive,
    Exists,
    Explain,
    Fail,
    For,
    Foreign,
    From,
    Full,
    Glob,
    Group,
    Having,
    If,
    Ignore,
    Immediate,
    In,
    Index,
    Indexed,
    Initially,
    Inner,
    Insert,
    Instead,
    Intersect,
    Into,
    Is,
    IsNull,
    Join,
    Key,
    Left,
    Like,
    Limit,
    Match,
    Natural,
    No,
    Not,
    NotNull,
    Null,
    Of,
    Offset,
    On,
    Or,
    Order,
    Outer,
    Plan,
    Pragma,
    Primary,
    Query,
    Raise,
    Recursive,
    References,
    Regexp,
    Reindex,
    Release,
    Rename,
    Replace,
    Restrict,
    Right,
    Rollback,
    Row,
    Savepoint,
    Select,
    SetKw,
    Table,
    Temp,
    Then,
    To,
    Transaction,
    Trigger,
    Union,
    Unique,
    Update,
    Using,
    Vacuum,
    Values,
    View,
    Virtual,
    When,
    Where,
    With,
    Without,
    // Identifiers:
    StringLiteral,
    Id,
    Variable,
    // Values:
    Blob,
    Integer,
    Float,
    // Symbols:
    BitAnd,
    BitNot,
    BitOr,
    Comma,
    Concat,
    Dot,
    Equals,
    GreaterThan,
    GreaterEquals,
    LeftParen,
    LeftShift,
    LessEquals,
    LessThan,
    Minus,
    NotEquals,
    Plus,
    Reminder,
    RightParen,
    RightShift,
    Semi,
    Slash,
    Star,
}


/// The SQL lexer. It keeps nothing between calls.
pub struct Tokenizer {}

impl Tokenizer {
    pub fn new() -> (tokenizer: Tokenizer)
        ensures
            tokenizer == (Tokenizer {  }),
    {
        Tokenizer {  }
    }
}

/// The answer that the bytes `start..end` are a token.
fn found(start: usize, end: usize, kind: TokenType, advance: usize) -> (answer: Lexed)
    ensures
        answer == token(start as int, end as int, kind, advance as int),
        answer == Ok::<(Option<Token<TokenType>>, usize), Error>(
            (Some(Token { start, end, kind }), advance),
        ),
{
    Ok((Some(Token { start, end, kind }), advance))
}

impl Splitter for Tokenizer {
    type Error = Error;

    type TokenType = TokenType;

    open spec fn step(&self, data: Seq<u8>, eof: bool) -> Split<Self, TokenType, Error> {
        Split { next: *self, data: lex_data(data, eof), result: lex(data, eof) }
    }

    fn split(&mut self, data: &mut [u8], eof: bool) -> (answer: Lexed) {
        if data.len() == 0 {
            return Ok((None, 0));
        }
        let first = data[0];
        if first == BACKTICK || first == SINGLE_QUOTE || first == DOUBLE_QUOTE {
            return literal(data, eof, first);
        }
        let data: &[u8] = &*data;
        if is_space(first) {
            // eat as much space as possible
            let end = run_end_of(data, 1, Class::Space);
            Ok((None, end))
        } else if first == MINUS {
            minus(data, eof)
        } else if first == LEFT_PAREN {
            found(0, 1, TokenType::LeftParen, 1)
        } else if first == RIGHT_PAREN {
            found(0, 1, TokenType::RightParen, 1)
        } else if first == SEMICOLON {
            found(0, 1, TokenType::Semi, 1)
        } else if first == PLUS {
            found(0, 1, TokenType::Plus, 1)
        } else if first == STAR {
            found(0, 1, TokenType::Star, 1)
        } else if first == SLASH {
            slash(data, eof)
        } else if first == PERCENT {
            found(0, 1, TokenType::Reminder, 1)
        } else if first == EQUALS {
            equals(data, eof)
        } else if first == LESS {
            less(data, eof)
        } else if first == GREATER {
            greater(data, eof)
        } else if first == BANG {
            bang(data, eof)
        } else if first == PIPE {
            pipe(data, eof)
        } else if first == COMMA {
            found(0, 1, TokenType::Comma, 1)
        } else if first == AMPERSAND {
            found(0, 1, TokenType::BitAnd, 1)
        } else if first == TILDE {
            found(0, 1, TokenType::BitNot, 1)
        } else if first == DOT {
            dot(data, eof)
        } else if is_digit(first) {
            number(data, eof)
        } else if first == LEFT_BRACKET {
            bracket(data, eof)
        } else if first == QUESTION {
            positional(data, eof)
        } else if first == DOLLAR || first == AT || first == HASH || first == COLON {
            named(data, eof)
        } else if (first == LOWER_X || first == UPPER_X) && data.len() >= 2 && data[1]
            == SINGLE_QUOTE {
            blob_literal(data, eof)
        } else if is_identifier_start(first) {
            self.identifierish(data, eof)
        } else {
            Err(Error::UnrecognizedToken(None))
        }
    }
}

/// `-`: a line comment or a minus sign.
fn minus(data: &[u8], eof: bool) -> (answer: Lexed)
    requires
        data@.len() >= 1,
    ensures
        answer == lex_minus(data@, eof),
        well_formed(data@, data@, answer),
{
    let len = data.len();
    if len < 2 {
        return one_at_end(TokenType::Minus, eof);
    }
    if data[1] != MINUS {
        return found(0, 1, TokenType::Minus, 1);
    }
    // eat the comment
    let newline = position(NEWLINE, data);
    if newline < len {
        Ok((None, newline + 1))
    } else if eof {
        Ok((None, len))
    } else {
        // ask for more data until the line ends
        Ok((None, 0))
    }
}

/// `/`: a block comment or a slash.
fn slash(data: &[u8], eof: bool) -> (answer: Lexed)
    requires
        data@.len() >= 1,
    ensures
        answer == lex_slash(data@, eof),
        well_formed(data@, data@, answer),
{
    let len = data.len();
    if len < 2 {
        return one_at_end(TokenType::Slash, eof);
    }
    if data[1] != STAR {
        return found(0, 1, TokenType::Slash, 1);
    }
    // eat the comment
    let close = block_comment_end(data);
    if close < len {
        Ok((None, close + 1))
    } else if eof {
        Err(Error::UnterminatedBlockComment(None))
    } else {
        // ask for more data until the comment closes
        Ok((None, 0))
    }
}

/// `=` and `==`.
fn equals(data: &[u8], eof: bool) -> (answer: Lexed)
    requires
        data@.len() >= 1,
    ensures
        answer == lex_equals(data@, eof),
        well_formed(data@, data@, answer),
{
    if data.len() < 2 {
        // ask for more data to fuse `==` or not
        one_at_end(TokenType::Equals, eof)
    } else if data[1] == EQUALS {
        found(0, 2, TokenType::Equals, 2)
    } else {
        found(0, 1, TokenType::Equals, 1)
    }
}

/// `<`, `<=`, `<>` and `<<`.
fn less(data: &[u8], eof: bool) -> (answer: Lexed)
    requires
        data@.len() >= 1,
    ensures
        answer == lex_less(data@, eof),
        well_formed(data@, data@, answer),
{
    if data.len() < 2 {
        return one_at_end(TokenType::LessThan, eof);
    }
    let second = data[1];
    if second == EQUALS {
        found(0, 2, TokenType::LessEquals, 2)
    } else if second == GREATER {
        found(0, 2, TokenType::NotEquals, 2)
    } else if second == LESS {
        found(0, 2, TokenType::LeftShift, 2)
    } else {
        found(0, 1, TokenType::LessThan, 1)
    }
}

/// `>`, `>=` and `>>`.
fn greater(data: &[u8], eof: bool) -> (answer: Lexed)
    requires
        data@.len() >= 1,
    ensures
        answer == lex_greater(data@, eof),
        well_formed(data@, data@, answer),
{
    if data.len() < 2 {
        return one_at_end(TokenType::GreaterThan, eof);
    }
    let second = data[1];
    if second == EQUALS {
        found(0, 2, TokenType::GreaterEquals, 2)
    } else if second == GREATER {
        found(0, 2, TokenType::RightShift, 2)
    } else {
        found(0, 1, TokenType::GreaterThan, 1)
    }
}

/// `!=`.
fn bang(data: &[u8], eof: bool) -> (answer: Lexed)
    requires
        data@.len() >= 1,
    ensures
        answer == lex_bang(data@, eof),
        well_formed(data@, data@, answer),
{
    if data.len() < 2 {
        if eof {
            return Err(Error::ExpectedEqualsSign(None));
        }
        return Ok((None, 0));
    }
    if data[1] == EQUALS {
        found(0, 2, TokenType::NotEquals, 2)
    } else {
        Err(Error::ExpectedEqualsSign(None))
    }
}

/// `|` and `||`.
fn pipe(data: &[u8], eof: bool) -> (answer: Lexed)
    requires
        data@.len() >= 1,
    ensures
        answer == lex_pipe(data@, eof),
        well_formed(data@, data@, answer),
{
    if data.len() < 2 {
        one_at_end(TokenType::BitOr, eof)
    } else if data[1] == PIPE {
        found(0, 2, TokenType::Concat, 2)
    } else {
        found(0, 1, TokenType::BitOr, 1)
    }
}

/// `.`: the start of a number or a dot.
fn dot(data: &[u8], eof: bool) -> (answer: Lexed)
    requires
        data@.len() >= 1,
    ensures
        answer == lex_dot(data@, eof),
        well_formed(data@, data@, answer),
{
    if data.len() < 2 {
        one_at_end(TokenType::Dot, eof)
    } else if is_digit(data[1]) {
        fractional_part(data, eof, 0)
    } else {
        found(0, 1, TokenType::Dot, 1)
    }
}

/// `[`: a bracketed identifier.
fn bracket(data: &[u8], eof: bool) -> (answer: Lexed)
    requires
        data@.len() >= 1,
        data@[0] == LEFT_BRACKET,
    ensures
        answer == lex_bracket(data@, eof),
        well_formed(data@, data@, answer),
{
    let close = position(RIGHT_BRACKET, data);
    if close < data.len() {
        // do not include the '['/']' in the token
        found(1, close, TokenType::Id, close + 1)
    } else if eof {
        Err(Error::UnterminatedBracket(None))
    } else {
        // ask for more data until ']'
        Ok((None, 0))
    }
}

/// `?`: a positional variable.
fn positional(data: &[u8], eof: bool) -> (answer: Lexed)
    requires
        data@.len() >= 1,
    ensures
        answer == lex_question(data@, eof),
        well_formed(data@, data@, answer),
{
    let end = run_end_of(data, 1, Class::Digit);
    if end < data.len() || eof {
        // do not include the '?' in the token
        found(1, end, TokenType::Variable, end)
    } else {
        Ok((None, 0))
    }
}

/// `$`, `@`, `#` or `:`: a named variable.
fn named(data: &[u8], eof: bool) -> (answer: Lexed)
    requires
        data@.len() >= 1,
    ensures
        answer == lex_variable(data@, eof),
        well_formed(data@, data@, answer),
{
    let end = run_end_of(data, 1, Class::Word);
    if end == data.len() && !eof {
        Ok((None, 0))
    } else if end == 1 {
        Err(Error::BadVariableName(None))
    } else {
        // the sigil is part of the name
        found(0, end, TokenType::Variable, end)
    }
}

/// A one-byte token at the end of the stream; before the end, the second
/// byte decides.
fn one_at_end(kind: TokenType, eof: bool) -> (answer: Lexed)
    ensures
        answer == crate::sql::grammar::one_at_end(kind, eof),
{
    if eof {
        found(0, 1, kind, 1)
    } else {
        Ok((None, 0))
    }
}

/// Where the block comment that opens `data` closes.
fn block_comment_end(data: &[u8]) -> (close: usize)
    ensures
        close == comment_end(data@, 3),
        close <= data@.len(),
{
    let len = data.len();
    let mut i: usize = 3;
    while i < len
        invariant
            3 <= i,
            len == data@.len(),
            comment_end(data@, 3) == comment_end(data@, i as int),
        decreases len - i,
    {
        if data[i - 1] == STAR && data[i] == SLASH {
            return i;
        }
        i += 1;
    }
    len
}

/// Where the literal in `quote` that opens `data` closes, and whether its
/// content holds a doubled quote.
fn closing(data: &[u8], quote: u8) -> (found: (usize, bool))
    requires
        data@.len() >= 1,
    ensures
        found.0 == closing_quote(data@, 1, quote),
        1 <= found.0 <= data@.len(),
        found.1 == has_doubled(data@.subrange(1, found.0 as int), quote),
{
    let len = data.len();
    let mut i: usize = 1;
    let mut escaped = false;
    while i < len
        invariant
            1 <= i <= len,
            len == data@.len(),
            closing_quote(data@, 1, quote) == closing_quote(data@, i as int, quote),
            escaped == has_doubled(data@.subrange(1, i as int), quote),
        decreases len - i,
    {
        let ghost before = data@.subrange(1, i as int);
        if data[i] != quote {
            proof {
                let after = data@.subrange(1, i as int + 1);
                if has_doubled(after, quote) {
                    let k = choose|k: int|
                        0 <= k < after.len() - 1 && after[k] == quote && #[trigger] after[k + 1]
                            == quote;
                    assert(before[k] == quote && before[k + 1] == quote);
                }
                if has_doubled(before, quote) {
                    let k = choose|k: int|
                        0 <= k < before.len() - 1 && before[k] == quote && #[trigger] before[k + 1]
                            == quote;
                    assert(after[k] == quote && after[k + 1] == quote);
                }
            }
            i += 1;
        } else if i + 1 < len && data[i + 1] == quote {
            proof {
                let after = data@.subrange(1, i as int + 2);
                assert(after[i - 1] == quote && after[(i - 1) + 1] == quote);
            }
            escaped = true;
            i += 2;
        } else {
            return (i, escaped);
        }
    }
    (len, escaped)
}

/// A literal in `quote`, which opens `data`. The quotes are not part of the
/// token; doubled quotes in it are made single in place.
pub fn literal(data: &mut [u8], eof: bool, quote: u8) -> (answer: Lexed)
    requires
        old(data)@.len() >= 1,
        old(data)@[0] == quote,
    ensures
        answer == lex_literal(old(data)@, eof, quote),
        final(data)@ == if literal_closed(old(data)@, eof, quote) {
            unescaped(old(data)@, 1, closing_quote(old(data)@, 1, quote), quote)
        } else {
            old(data)@
        },
        well_formed(old(data)@, final(data)@, answer),
{
    let ghost orig = data@;
    let len = data.len();
    let kind = if quote == SINGLE_QUOTE {
        TokenType::StringLiteral
    } else {
        TokenType::Id
    };
    let (close, escaped) = closing(&*data, quote);
    if close < len && (close + 1 < len || eof) {
        let ghost content = orig.subrange(1, close as int);
        proof {
            lemma_undouble_len(content, quote);
        }
        if escaped {
            let (head, _rest) = data.split_at_mut(close);
            let (_open, inner) = head.split_at_mut(1);
            assert(inner@ =~= content);
            let n = unescape_quotes(inner, quote);
            assert(data@ =~= unescaped(orig, 1, close as int, quote));
            assert(data@.skip(close as int + 1) =~= orig.skip(close as int + 1));
            found(1, 1 + n, kind, close + 1)
        } else {
            proof {
                lemma_undouble_plain(content, quote);
                assert(orig =~= unescaped(orig, 1, close as int, quote));
            }
            found(1, close, kind, close + 1)
        }
    } else if eof {
        Err(Error::UnterminatedLiteral(None))
    } else {
        // ask for more data until the closing quote
        Ok((None, 0))
    }
}

/// A blob literal, which opens `data` with `x'` or `X'`.
pub fn blob_literal(data: &[u8], eof: bool) -> (answer: Lexed)
    requires
        data@.len() >= 2,
    ensures
        answer == lex_blob(data@, eof),
        well_formed(data@, data@, answer),
{
    let end = run_end_of(data, 2, Class::HexDigit);
    if end == data.len() {
        if eof {
            return Err(Error::MalformedBlobLiteral(None));
        }
        return Ok((None, 0));
    }
    if data[end] != SINGLE_QUOTE || end % 2 != 0 || end == 2 {
        return Err(Error::MalformedBlobLiteral(None));
    }
    found(2, end, TokenType::Blob, end + 1)
}

/// A number, which opens `data` with a digit.
pub fn number(data: &[u8], eof: bool) -> (answer: Lexed)
    requires
        data@.len() >= 1,
    ensures
        answer == lex_number(data@, eof),
        well_formed(data@, data@, answer),
{
    let len = data.len();
    if data[0] == ZERO && len >= 2 && (data[1] == LOWER_X || data[1] == UPPER_X) {
        return hex_integer(data, eof);
    }
    let end = run_end_of(data, 1, Class::Digit);
    if end == len {
        if eof {
            return found(0, end, TokenType::Integer, end);
        }
        return Ok((None, 0));
    }
    let b = data[end];
    if b == DOT {
        return fractional_part(data, eof, end);
    } else if b == LOWER_E || b == UPPER_E {
        return exponential_part(data, eof, end);
    } else if is_identifier_start(b) {
        return Err(Error::BadNumber(None));
    }
    found(0, end, TokenType::Integer, end)
}

/// A hexadecimal integer, which opens `data` with `0x` or `0X`.
pub fn hex_integer(data: &[u8], eof: bool) -> (answer: Lexed)
    requires
        data@.len() >= 2,
    ensures
        answer == lex_hex(data@, eof),
        well_formed(data@, data@, answer),
{
    let len = data.len();
    let end = run_end_of(data, 2, Class::HexDigit);
    if end == len && !eof {
        return Ok((None, 0));
    }
    // must not be empty (0x is invalid)
    if end == 2 || (end < len && is_identifier_start(data[end])) {
        return Err(Error::MalformedHexInteger(None));
    }
    found(0, end, TokenType::Integer, end)
}

/// The rest of a number from the `.` at `i` on.
pub fn fractional_part(data: &[u8], eof: bool, i: usize) -> (answer: Lexed)
    requires
        i < data@.len(),
    ensures
        answer == lex_fraction(data@, eof, i as int),
        well_formed(data@, data@, answer),
{
    let len = data.len();
    let end = run_end_of(data, i + 1, Class::Digit);
    if end == len {
        if eof {
            return found(0, end, TokenType::Float, end);
        }
        return Ok((None, 0));
    }
    let b = data[end];
    if b == LOWER_E || b == UPPER_E {
        return exponential_part(data, eof, end);
    } else if is_identifier_start(b) {
        return Err(Error::BadNumber(None));
    }
    found(0, end, TokenType::Float, end)
}

/// The rest of a number from the `e` or `E` at `i` on.
pub fn exponential_part(data: &[u8], eof: bool, i: usize) -> (answer: Lexed)
    requires
        i < data@.len(),
    ensures
        answer == lex_exponent(data@, eof, i as int),
        well_formed(data@, data@, answer),
{
    let len = data.len();
    if i + 1 >= len {
        if eof {
            return Err(Error::BadNumber(None));
        }
        return Ok((None, 0));
    }
    let b = data[i + 1];
    let sign = if b == PLUS || b == MINUS {
        i + 1
    } else {
        i
    };
    let end = run_end_of(data, sign + 1, Class::Digit);
    if end == len && !eof {
        return Ok((None, 0));
    }
    if end == sign + 1 || (end < len && is_identifier_start(data[end])) {
        return Err(Error::BadNumber(None));
    }
    found(0, end, TokenType::Float, end)
}

/// The upper-case form of an ASCII letter; any other byte as it is.
fn to_ascii_upper(b: u8) -> (upper: u8)
    ensures
        upper == to_upper(b),
{
    if 0x61 <= b && b <= 0x7a {
        b - 0x20
    } else {
        b
    }
}

/// Copies `word` in upper case to the start of `buffer`, unless it holds a
/// byte outside the ASCII range; says whether it did.
fn upper_into(word: &[u8], buffer: &mut [u8; 17]) -> (ascii: bool)
    requires
        word@.len() <= 17,
    ensures
        ascii == all_ascii(word@),
        ascii ==> final(buffer)@.take(word@.len() as int) == upper_case(word@),
{
    let n = word.len();
    let mut i: usize = 0;
    while i < n
        invariant
            i <= n,
            n == word@.len(),
            n <= 17,
            forall|j: int| 0 <= j < i ==> word@[j] <= 0x7f,
            forall|j: int| 0 <= j < i ==> buffer@[j] == to_upper(word@[j]),
        decreases n - i,
    {
        let b = word[i];
        if b > 0x7f {
            return false;
        }
        buffer[i] = to_ascii_upper(b);
        i += 1;
    }
    assert(buffer@.take(n as int) =~= upper_case(word@));
    true
}

/// What the word `word` is: a keyword, whatever its case, or an identifier.
pub fn word_kind(word: &[u8]) -> (kind: TokenType)
    ensures
        kind == classify(word@),
{
    let n = word.len();
    if n < 2 || n > MAX_KEYWORD_LEN {
        return TokenType::Id;
    }
    let mut buffer = [0u8;17];
    if !upper_into(word, &mut buffer) {
        return TokenType::Id;
    }
    let upper = slice_subrange(buffer.as_slice(), 0, n);
    assert(upper@ =~= upper_case(word@));
    match keyword(upper) {
        Some(kind) => kind,
        None => TokenType::Id,
    }
}

impl Tokenizer {
    /// A keyword or an identifier, which opens `data`.
    pub fn identifierish(&self, data: &[u8], eof: bool) -> (answer: Lexed)
        requires
            data@.len() >= 1,
        ensures
            answer == lex_word(data@, eof),
            well_formed(data@, data@, answer),
    {
        let end = run_end_of(data, 1, Class::Word);
        if end < data.len() || eof {
            let kind = word_kind(slice_subrange(data, 0, end));
            return found(0, end, kind, end);
        }
        // ask for more data
        Ok((None, 0))
    }
}

} // verus!
