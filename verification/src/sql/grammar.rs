//! What the lexer makes of a window, as functions on sequences of bytes.
//!
//! `lex` gives the answer and `lex_data` the window afterwards. The window
//! starts where the previous token ended; `eof` says that nothing follows it.
//! Wherever the bytes at hand do not settle the matter and more may come, the
//! answer is to ask for more.
use crate::bytes::{
    find,
    AMPERSAND,
    AT,
    BACKTICK,
    BANG,
    COLON,
    COMMA,
    DOLLAR,
    DOT,
    DOUBLE_QUOTE,
    EQUALS,
    GREATER,
    HASH,
    LEFT_BRACKET,
    LEFT_PAREN,
    LESS,
    LOWER_E,
    LOWER_X,
    MINUS,
    NEWLINE,
    PERCENT,
    PIPE,
    PLUS,
    QUESTION,
    RIGHT_BRACKET,
    RIGHT_PAREN,
    SEMICOLON,
    SINGLE_QUOTE,
    SLASH,
    STAR,
    TILDE,
    UPPER_E,
    UPPER_X,
    ZERO,
};
use crate::quotes::{undouble, unescaped};
use crate::scan::{SplitResult, Token};
use crate::sql::class::{
    is_digit,
    is_identifier_start,
    is_space,
    run_end,
    Class,
};
use crate::sql::keywords::{reserved, MAX_KEYWORD_LEN};
use crate::sql::{Error, TokenType};
use vstd::prelude::*;

verus! {

/// What the lexer answers.
pub type Lexed = SplitResult<TokenType, Error>;

/// The bytes `start..end` are a token of kind `kind`, and `advance` bytes are
/// consumed.
pub open spec fn token(start: int, end: int, kind: TokenType, advance: int) -> Lexed {
    Ok((Some(Token { start: start as usize, end: end as usize, kind }), advance as usize))
}

/// The first byte is a token of kind `kind`.
pub open spec fn one(kind: TokenType) -> Lexed {
    token(0, 1, kind, 1)
}

/// The first two bytes are a token of kind `kind`.
pub open spec fn two(kind: TokenType) -> Lexed {
    token(0, 2, kind, 2)
}

/// The first `advance` bytes hold no token.
pub open spec fn skip(advance: int) -> Lexed {
    Ok((None, advance as usize))
}

/// More data is needed.
pub open spec fn more() -> Lexed {
    Ok((None, 0usize))
}

/// `kind` if the stream ends after the first byte, else a request for the
/// second byte.
pub open spec fn one_at_end(kind: TokenType, eof: bool) -> Lexed {
    if eof {
        one(kind)
    } else {
        more()
    }
}

/// `-`: a line comment when a second `-` follows, which runs through the next
/// line feed or to the end of the stream; else a minus sign.
pub open spec fn lex_minus(data: Seq<u8>, eof: bool) -> Lexed {
    if data.len() < 2 {
        one_at_end(TokenType::Minus, eof)
    } else if data[1] != MINUS {
        one(TokenType::Minus)
    } else if find(data, 0, NEWLINE) < data.len() {
        skip(find(data, 0, NEWLINE) + 1)
    } else if eof {
        skip(data.len() as int)
    } else {
        more()
    }
}

/// The index of the `/` that closes a block comment: the first index at or
/// after `from` that holds `/` behind a `*`; the length of `s` if there is
/// none.
pub open spec fn comment_end(s: Seq<u8>, from: int) -> int
    decreases s.len() - from,
{
    if from < 1 || from >= s.len() {
        s.len() as int
    } else if s[from - 1] == STAR && s[from] == SLASH {
        from
    } else {
        comment_end(s, from + 1)
    }
}

/// `/`: a block comment when `*` follows, which runs through the next `*/`;
/// else a slash.
pub open spec fn lex_slash(data: Seq<u8>, eof: bool) -> Lexed {
    if data.len() < 2 {
        one_at_end(TokenType::Slash, eof)
    } else if data[1] != STAR {
        one(TokenType::Slash)
    } else if comment_end(data, 3) < data.len() {
        skip(comment_end(data, 3) + 1)
    } else if eof {
        Err(Error::UnterminatedBlockComment(None))
    } else {
        more()
    }
}

/// `=` and `==`.
pub open spec fn lex_equals(data: Seq<u8>, eof: bool) -> Lexed {
    if data.len() < 2 {
        one_at_end(TokenType::Equals, eof)
    } else if data[1] == EQUALS {
        two(TokenType::Equals)
    } else {
        one(TokenType::Equals)
    }
}

/// `<`, `<=`, `<>` and `<<`.
pub open spec fn lex_less(data: Seq<u8>, eof: bool) -> Lexed {
    if data.len() < 2 {
        one_at_end(TokenType::LessThan, eof)
    } else if data[1] == EQUALS {
        two(TokenType::LessEquals)
    } else if data[1] == GREATER {
        two(TokenType::NotEquals)
    } else if data[1] == LESS {
        two(TokenType::LeftShift)
    } else {
        one(TokenType::LessThan)
    }
}

/// `>`, `>=` and `>>`.
pub open spec fn lex_greater(data: Seq<u8>, eof: bool) -> Lexed {
    if data.len() < 2 {
        one_at_end(TokenType::GreaterThan, eof)
    } else if data[1] == EQUALS {
        two(TokenType::GreaterEquals)
    } else if data[1] == GREATER {
        two(TokenType::RightShift)
    } else {
        one(TokenType::GreaterThan)
    }
}

/// `!=`; a `!` before anything else is an error.
pub open spec fn lex_bang(data: Seq<u8>, eof: bool) -> Lexed {
    if data.len() < 2 {
        if eof {
            Err(Error::ExpectedEqualsSign(None))
        } else {
            more()
        }
    } else if data[1] == EQUALS {
        two(TokenType::NotEquals)
    } else {
        Err(Error::ExpectedEqualsSign(None))
    }
}

/// `|` and `||`.
pub open spec fn lex_pipe(data: Seq<u8>, eof: bool) -> Lexed {
    if data.len() < 2 {
        one_at_end(TokenType::BitOr, eof)
    } else if data[1] == PIPE {
        two(TokenType::Concat)
    } else {
        one(TokenType::BitOr)
    }
}

/// Whether `b` opens a literal.
pub open spec fn is_quote(b: u8) -> bool {
    b == BACKTICK || b == SINGLE_QUOTE || b == DOUBLE_QUOTE
}

/// What a literal in `quote` is: a string in single quotes, else an
/// identifier.
pub open spec fn literal_kind(quote: u8) -> TokenType {
    if quote == SINGLE_QUOTE {
        TokenType::StringLiteral
    } else {
        TokenType::Id
    }
}

/// The index of the quote that closes a literal: the first `quote` at or
/// after `from` that is not the first of a doubled pair; the length of `s` if
/// there is none. A quote in the last place counts, though a byte yet to come
/// may still double it.
pub open spec fn closing_quote(s: Seq<u8>, from: int, quote: u8) -> int
    decreases s.len() - from,
{
    if from < 0 || from >= s.len() {
        s.len() as int
    } else if s[from] != quote {
        closing_quote(s, from + 1, quote)
    } else if from + 1 < s.len() && s[from + 1] == quote {
        closing_quote(s, from + 2, quote)
    } else {
        from
    }
}

/// Whether the literal that opens `data` is closed for certain: a byte that
/// is not the quote follows the closing quote, or nothing will.
pub open spec fn literal_closed(data: Seq<u8>, eof: bool, quote: u8) -> bool {
    let close = closing_quote(data, 1, quote);
    close + 1 < data.len() || (close < data.len() && eof)
}

/// A literal: the bytes between the quotes, un-doubled, without the quotes.
pub open spec fn lex_literal(data: Seq<u8>, eof: bool, quote: u8) -> Lexed {
    let close = closing_quote(data, 1, quote);
    if literal_closed(data, eof, quote) {
        token(
            1,
            1 + undouble(data.subrange(1, close), quote).len() as int,
            literal_kind(quote),
            close + 1,
        )
    } else if eof {
        Err(Error::UnterminatedLiteral(None))
    } else {
        more()
    }
}

/// The exponent of a number, whose `e` stands at `e`: an optional sign and at
/// least one digit.
pub open spec fn lex_exponent(data: Seq<u8>, eof: bool, e: int) -> Lexed {
    if e + 1 >= data.len() {
        if eof {
            Err(Error::BadNumber(None))
        } else {
            more()
        }
    } else {
        let sign = if data[e + 1] == PLUS || data[e + 1] == MINUS {
            e + 1
        } else {
            e
        };
        let end = run_end(data, sign + 1, Class::Digit);
        if end == data.len() && !eof {
            more()
        } else if end == sign + 1 || (end < data.len() && is_identifier_start(data[end])) {
            Err(Error::BadNumber(None))
        } else {
            token(0, end, TokenType::Float, end)
        }
    }
}

/// The fractional part of a number, whose `.` stands at `dot`.
pub open spec fn lex_fraction(data: Seq<u8>, eof: bool, dot: int) -> Lexed {
    let end = run_end(data, dot + 1, Class::Digit);
    if end == data.len() {
        if eof {
            token(0, end, TokenType::Float, end)
        } else {
            more()
        }
    } else if data[end] == LOWER_E || data[end] == UPPER_E {
        lex_exponent(data, eof, end)
    } else if is_identifier_start(data[end]) {
        Err(Error::BadNumber(None))
    } else {
        token(0, end, TokenType::Float, end)
    }
}

/// A hexadecimal integer, which opens with `0x` or `0X` and has at least one
/// digit.
pub open spec fn lex_hex(data: Seq<u8>, eof: bool) -> Lexed {
    let end = run_end(data, 2, Class::HexDigit);
    if end == data.len() && !eof {
        more()
    } else if end == 2 || (end < data.len() && is_identifier_start(data[end])) {
        Err(Error::MalformedHexInteger(None))
    } else {
        token(0, end, TokenType::Integer, end)
    }
}

/// Whether `data` opens with `0x` or `0X`.
pub open spec fn opens_hex(data: Seq<u8>) -> bool {
    data.len() >= 2 && data[0] == ZERO && (data[1] == LOWER_X || data[1] == UPPER_X)
}

/// A number that opens with a digit.
pub open spec fn lex_number(data: Seq<u8>, eof: bool) -> Lexed {
    let end = run_end(data, 1, Class::Digit);
    if opens_hex(data) {
        lex_hex(data, eof)
    } else if end == data.len() {
        if eof {
            token(0, end, TokenType::Integer, end)
        } else {
            more()
        }
    } else if data[end] == DOT {
        lex_fraction(data, eof, end)
    } else if data[end] == LOWER_E || data[end] == UPPER_E {
        lex_exponent(data, eof, end)
    } else if is_identifier_start(data[end]) {
        Err(Error::BadNumber(None))
    } else {
        token(0, end, TokenType::Integer, end)
    }
}

/// `.`: a number when a digit follows, else a dot.
pub open spec fn lex_dot(data: Seq<u8>, eof: bool) -> Lexed {
    if data.len() < 2 {
        one_at_end(TokenType::Dot, eof)
    } else if is_digit(data[1]) {
        lex_fraction(data, eof, 0)
    } else {
        one(TokenType::Dot)
    }
}

/// `[`: an identifier that runs to the next `]`, without the brackets.
pub open spec fn lex_bracket(data: Seq<u8>, eof: bool) -> Lexed {
    let close = find(data, 0, RIGHT_BRACKET);
    if close < data.len() {
        token(1, close, TokenType::Id, close + 1)
    } else if eof {
        Err(Error::UnterminatedBracket(None))
    } else {
        more()
    }
}

/// `?`: a positional variable, of which only the digits are the token.
pub open spec fn lex_question(data: Seq<u8>, eof: bool) -> Lexed {
    let end = run_end(data, 1, Class::Digit);
    if end < data.len() || eof {
        token(1, end, TokenType::Variable, end)
    } else {
        more()
    }
}

/// Whether `b` opens a named variable.
pub open spec fn is_sigil(b: u8) -> bool {
    b == DOLLAR || b == AT || b == HASH || b == COLON
}

/// `$`, `@`, `#` or `:`: a named variable, sigil included, with at least one
/// byte of name.
pub open spec fn lex_variable(data: Seq<u8>, eof: bool) -> Lexed {
    let end = run_end(data, 1, Class::Word);
    if end == data.len() && !eof {
        more()
    } else if end == 1 {
        Err(Error::BadVariableName(None))
    } else {
        token(0, end, TokenType::Variable, end)
    }
}

/// Whether `data` opens a blob literal: `x'` or `X'`.
pub open spec fn opens_blob(data: Seq<u8>) -> bool {
    data.len() >= 2 && (data[0] == LOWER_X || data[0] == UPPER_X) && data[1] == SINGLE_QUOTE
}

/// A blob literal: a positive, even number of hexadecimal digits between
/// single quotes. The digits are the token.
pub open spec fn lex_blob(data: Seq<u8>, eof: bool) -> Lexed {
    let end = run_end(data, 2, Class::HexDigit);
    if end == data.len() {
        if eof {
            Err(Error::MalformedBlobLiteral(None))
        } else {
            more()
        }
    } else if data[end] != SINGLE_QUOTE || end % 2 != 0 || end == 2 {
        Err(Error::MalformedBlobLiteral(None))
    } else {
        token(2, end, TokenType::Blob, end + 1)
    }
}

/// The upper-case form of an ASCII letter; any other byte as it is.
pub open spec fn to_upper(b: u8) -> u8 {
    if 0x61 <= b <= 0x7a {
        (b - 0x20) as u8
    } else {
        b
    }
}

/// `word` in upper case.
pub open spec fn upper_case(word: Seq<u8>) -> Seq<u8> {
    Seq::new(word.len(), |i: int| to_upper(word[i]))
}

/// Whether every byte of `word` is in the ASCII range.
pub open spec fn all_ascii(word: Seq<u8>) -> bool {
    forall|i: int| 0 <= i < word.len() ==> word[i] <= 0x7f
}

/// What a word is: the kind it is reserved for, whatever its case, else an
/// identifier.
pub open spec fn classify(word: Seq<u8>) -> TokenType {
    if 2 <= word.len() <= MAX_KEYWORD_LEN && all_ascii(word) {
        match reserved(upper_case(word)) {
            Some(kind) => kind,
            None => TokenType::Id,
        }
    } else {
        TokenType::Id
    }
}

/// A keyword or an identifier.
pub open spec fn lex_word(data: Seq<u8>, eof: bool) -> Lexed {
    let end = run_end(data, 1, Class::Word);
    if end < data.len() || eof {
        token(0, end, classify(data.take(end)), end)
    } else {
        more()
    }
}

/// What the lexer answers on a window holding `data`.
pub open spec fn lex(data: Seq<u8>, eof: bool) -> Lexed {
    if data.len() == 0 {
        more()
    } else if is_space(data[0]) {
        skip(run_end(data, 1, Class::Space))
    } else if data[0] == MINUS {
        lex_minus(data, eof)
    } else if data[0] == LEFT_PAREN {
        one(TokenType::LeftParen)
    } else if data[0] == RIGHT_PAREN {
        one(TokenType::RightParen)
    } else if data[0] == SEMICOLON {
        one(TokenType::Semi)
    } else if data[0] == PLUS {
        one(TokenType::Plus)
    } else if data[0] == STAR {
        one(TokenType::Star)
    } else if data[0] == SLASH {
        lex_slash(data, eof)
    } else if data[0] == PERCENT {
        one(TokenType::Reminder)
    } else if data[0] == EQUALS {
        lex_equals(data, eof)
    } else if data[0] == LESS {
        lex_less(data, eof)
    } else if data[0] == GREATER {
        lex_greater(data, eof)
    } else if data[0] == BANG {
        lex_bang(data, eof)
    } else if data[0] == PIPE {
        lex_pipe(data, eof)
    } else if data[0] == COMMA {
        one(TokenType::Comma)
    } else if data[0] == AMPERSAND {
        one(TokenType::BitAnd)
    } else if data[0] == TILDE {
        one(TokenType::BitNot)
    } else if is_quote(data[0]) {
        lex_literal(data, eof, data[0])
    } else if data[0] == DOT {
        lex_dot(data, eof)
    } else if is_digit(data[0]) {
        lex_number(data, eof)
    } else if data[0] == LEFT_BRACKET {
        lex_bracket(data, eof)
    } else if data[0] == QUESTION {
        lex_question(data, eof)
    } else if is_sigil(data[0]) {
        lex_variable(data, eof)
    } else if opens_blob(data) {
        lex_blob(data, eof)
    } else if is_identifier_start(data[0]) {
        lex_word(data, eof)
    } else {
        Err(Error::UnrecognizedToken(None))
    }
}

/// The window after the lexer has answered: as it was, but for a literal
/// that is closed, whose content is un-doubled in place.
pub open spec fn lex_data(data: Seq<u8>, eof: bool) -> Seq<u8> {
    if data.len() > 0 && is_quote(data[0]) && literal_closed(data, eof, data[0]) {
        unescaped(data, 1, closing_quote(data, 1, data[0]), data[0])
    } else {
        data
    }
}

} // verus!
