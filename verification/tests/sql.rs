use scan_rs::sql::class::{run_end_of, Class};
use scan_rs::sql::keywords::keyword;
use scan_rs::sql::{
    blob_literal, exponential_part, fractional_part, hex_integer, is_digit, is_hex_digit,
    is_identifier_continue, is_identifier_start, is_space, literal, number, unescape_quotes,
    word_kind, Error, TokenType, Tokenizer,
};
use scan_rs::{ScanError, Scanner, Splitter, Step};

/// Runs the lexer over `input`, handing the scanner at most `chunk` bytes at
/// a time, and collects the tokens.
fn lex_in_chunks(input: &[u8], chunk: usize) -> Result<Vec<(Vec<u8>, TokenType)>, Error> {
    let mut scanner = Scanner::with_capacity(Tokenizer::new(), 4);
    let mut rest = input;
    let mut tokens = Vec::new();
    loop {
        match scanner.scan()? {
            Step::Token(kind) => tokens.push((scanner.token().to_vec(), kind)),
            Step::End => return Ok(tokens),
            Step::NeedData => {
                let room = scanner.spare();
                let n = room.len().min(rest.len()).min(chunk);
                room[..n].copy_from_slice(&rest[..n]);
                rest = &rest[n..];
                scanner.filled(n);
            }
        }
    }
}

fn lex(input: &[u8]) -> Result<Vec<(Vec<u8>, TokenType)>, Error> {
    lex_in_chunks(input, usize::MAX)
}

fn kinds(input: &[u8]) -> Vec<TokenType> {
    lex(input).unwrap().into_iter().map(|(_, kind)| kind).collect()
}

fn tok(bytes: &[u8], kind: TokenType) -> (Vec<u8>, TokenType) {
    (bytes.to_vec(), kind)
}

#[test]
fn select_statement() {
    let tokens = lex(b"SELECT * FROM t WHERE a>=1 AND b<>2;").unwrap();
    assert_eq!(
        tokens,
        vec![
            tok(b"SELECT", TokenType::Select),
            tok(b"*", TokenType::Star),
            tok(b"FROM", TokenType::From),
            tok(b"t", TokenType::Id),
            tok(b"WHERE", TokenType::Where),
            tok(b"a", TokenType::Id),
            tok(b">=", TokenType::GreaterEquals),
            tok(b"1", TokenType::Integer),
            tok(b"AND", TokenType::And),
            tok(b"b", TokenType::Id),
            tok(b"<>", TokenType::NotEquals),
            tok(b"2", TokenType::Integer),
            tok(b";", TokenType::Semi),
        ]
    );
}

#[test]
fn literal_and_comments() {
    let tokens = lex(b"-- hi\nSELECT 'it''s' /* blk */ ;").unwrap();
    assert_eq!(
        tokens,
        vec![
            tok(b"SELECT", TokenType::Select),
            tok(b"it's", TokenType::StringLiteral),
            tok(b";", TokenType::Semi),
        ]
    );
}

#[test]
fn chunking_does_not_change_the_tokens() {
    let input = b"-- hi\nSELECT 'it''s' /* blk */ , x'0aFF', 1.5e+3 FROM [my table] WHERE a<=:name;";
    let whole = lex(input).unwrap();
    for chunk in 1..8 {
        assert_eq!(lex_in_chunks(input, chunk).unwrap(), whole);
    }
    assert_eq!(kinds(input).len(), 13);
}

/// One call of `split` on a window, as the scanner would make it.
fn split(input: &[u8], eof: bool) -> Result<(Option<(Vec<u8>, TokenType)>, usize), Error> {
    let mut window = input.to_vec();
    let (token, advance) = Tokenizer::new().split(&mut window, eof)?;
    Ok((token.map(|t| (window[t.start..t.end].to_vec(), t.kind)), advance))
}

fn one(input: &[u8]) -> (Vec<u8>, TokenType) {
    let mut tokens = lex(input).unwrap();
    assert_eq!(tokens.len(), 1);
    tokens.remove(0)
}

#[test]
fn empty_input_has_no_tokens() {
    assert_eq!(lex(b"").unwrap(), vec![]);
    assert!(matches!(split(b"", true), Ok((None, 0))));
}

#[test]
fn whitespace_is_skipped_as_a_run() {
    assert_eq!(lex(b" \t\r\n\x0c ").unwrap(), vec![]);
    assert!(matches!(split(b" \t\n x", false), Ok((None, 4))));
    assert!(matches!(split(b"   ", false), Ok((None, 3))));
    // a vertical tab is not whitespace
    assert!(matches!(lex(b"\x0b"), Err(Error::UnrecognizedToken(Some((1, 1))))));
}

#[test]
fn single_byte_tokens() {
    assert_eq!(
        kinds(b"( ) ; + * % , & ~"),
        vec![
            TokenType::LeftParen,
            TokenType::RightParen,
            TokenType::Semi,
            TokenType::Plus,
            TokenType::Star,
            TokenType::Reminder,
            TokenType::Comma,
            TokenType::BitAnd,
            TokenType::BitNot,
        ]
    );
}

#[test]
fn operators_of_one_or_two_bytes() {
    assert_eq!(one(b"="), tok(b"=", TokenType::Equals));
    assert_eq!(one(b"=="), tok(b"==", TokenType::Equals));
    assert_eq!(one(b"<"), tok(b"<", TokenType::LessThan));
    assert_eq!(one(b"<="), tok(b"<=", TokenType::LessEquals));
    assert_eq!(one(b"<>"), tok(b"<>", TokenType::NotEquals));
    assert_eq!(one(b"<<"), tok(b"<<", TokenType::LeftShift));
    assert_eq!(one(b">"), tok(b">", TokenType::GreaterThan));
    assert_eq!(one(b">="), tok(b">=", TokenType::GreaterEquals));
    assert_eq!(one(b">>"), tok(b">>", TokenType::RightShift));
    assert_eq!(one(b"!="), tok(b"!=", TokenType::NotEquals));
    assert_eq!(one(b"|"), tok(b"|", TokenType::BitOr));
    assert_eq!(one(b"||"), tok(b"||", TokenType::Concat));
    assert_eq!(one(b"-"), tok(b"-", TokenType::Minus));
    assert_eq!(one(b"/"), tok(b"/", TokenType::Slash));
    assert_eq!(one(b"."), tok(b".", TokenType::Dot));
    assert_eq!(kinds(b"<a"), vec![TokenType::LessThan, TokenType::Id]);
    assert_eq!(kinds(b"-1"), vec![TokenType::Minus, TokenType::Integer]);
    assert_eq!(kinds(b"a.b"), vec![TokenType::Id, TokenType::Dot, TokenType::Id]);
}

#[test]
fn a_lone_operator_byte_waits_for_the_next_byte() {
    for input in [&b"="[..], b"<", b">", b"!", b"|", b"-", b"/", b"."] {
        assert!(matches!(split(input, false), Ok((None, 0))));
    }
    assert!(matches!(split(b".x", false), Ok((Some(_), 1))));
}

#[test]
fn bang_needs_an_equals_sign() {
    assert!(matches!(lex(b"!"), Err(Error::ExpectedEqualsSign(Some((1, 1))))));
    assert!(matches!(lex(b"a !b"), Err(Error::ExpectedEqualsSign(Some((1, 3))))));
}

#[test]
fn line_comments_run_to_the_end_of_the_line() {
    assert_eq!(kinds(b"1 -- one\n2"), vec![TokenType::Integer, TokenType::Integer]);
    assert_eq!(lex(b"-- no line feed").unwrap(), vec![]);
    assert!(matches!(split(b"-- open", false), Ok((None, 0))));
    assert!(matches!(split(b"-- x\ny", false), Ok((None, 5))));
    assert!(matches!(split(b"-- open", true), Ok((None, 7))));
}

#[test]
fn block_comments_run_to_their_close() {
    assert_eq!(kinds(b"1/* * / */2"), vec![TokenType::Integer, TokenType::Integer]);
    assert!(matches!(split(b"/**/x", false), Ok((None, 4))));
    assert!(matches!(split(b"/*/", false), Ok((None, 0))));
    assert!(matches!(split(b"/*/ */", false), Ok((None, 6))));
    assert!(matches!(lex(b"/* open"), Err(Error::UnterminatedBlockComment(Some((1, 1))))));
    assert!(matches!(lex(b"/*/"), Err(Error::UnterminatedBlockComment(Some((1, 1))))));
}

#[test]
fn literals_lose_their_quotes() {
    assert_eq!(one(b"'abc'"), tok(b"abc", TokenType::StringLiteral));
    assert_eq!(one(b"\"abc\""), tok(b"abc", TokenType::Id));
    assert_eq!(one(b"`abc`"), tok(b"abc", TokenType::Id));
    assert_eq!(one(b"''"), tok(b"", TokenType::StringLiteral));
    assert_eq!(one(b"'a\"b'"), tok(b"a\"b", TokenType::StringLiteral));
}

#[test]
fn doubled_quotes_are_made_single() {
    assert_eq!(one(b"'it''s'"), tok(b"it's", TokenType::StringLiteral));
    assert_eq!(one(b"''''"), tok(b"'", TokenType::StringLiteral));
    assert_eq!(one(b"'''a'''"), tok(b"'a'", TokenType::StringLiteral));
    assert_eq!(one(b"\"a\"\"\"\"b\""), tok(b"a\"\"b", TokenType::Id));
    assert_eq!(
        lex(b"'a''b'x").unwrap(),
        vec![tok(b"a'b", TokenType::StringLiteral), tok(b"x", TokenType::Id)]
    );
}

#[test]
fn a_literal_is_closed_by_what_follows_its_quote() {
    // the closing quote may yet be doubled
    assert!(matches!(split(b"'a'", false), Ok((None, 0))));
    assert!(matches!(split(b"'a' ", false), Ok((Some(_), 3))));
    assert!(matches!(split(b"'a'", true), Ok((Some(_), 3))));
    assert!(matches!(split(b"'a''", false), Ok((None, 0))));
    assert!(matches!(lex(b"'open"), Err(Error::UnterminatedLiteral(Some((1, 1))))));
    assert!(matches!(lex(b"'a''"), Err(Error::UnterminatedLiteral(Some((1, 1))))));
}

#[test]
fn a_literal_without_doubled_quotes_leaves_the_window_alone() {
    let mut window = b"'abc' x".to_vec();
    let (token, advance) = Tokenizer::new().split(&mut window, false).unwrap();
    let token = token.unwrap();
    assert_eq!((token.start, token.end, advance), (1, 4, 5));
    assert_eq!(window, b"'abc' x".to_vec());
}

#[test]
fn unescaping_rewrites_only_the_content() {
    let mut window = b"'a''b''c' x".to_vec();
    let (token, advance) = Tokenizer::new().split(&mut window, false).unwrap();
    let token = token.unwrap();
    assert_eq!((token.start, token.end, advance), (1, 6, 9));
    assert_eq!(&window[1..6], b"a'b'c");
    // what the shorter content leaves free keeps its bytes
    assert_eq!(window, b"'a'b'c'c' x".to_vec());
}

#[test]
fn integers() {
    assert_eq!(one(b"0"), tok(b"0", TokenType::Integer));
    assert_eq!(one(b"42"), tok(b"42", TokenType::Integer));
    assert_eq!(one(b"007"), tok(b"007", TokenType::Integer));
    assert_eq!(kinds(b"1+2"), vec![TokenType::Integer, TokenType::Plus, TokenType::Integer]);
    assert!(matches!(split(b"12", false), Ok((None, 0))));
    assert!(matches!(split(b"0", false), Ok((None, 0))));
    assert!(matches!(split(b"12 ", false), Ok((Some(_), 2))));
    assert!(matches!(lex(b"12abc"), Err(Error::BadNumber(Some((1, 1))))));
    assert!(matches!(lex(b"1_"), Err(Error::BadNumber(Some((1, 1))))));
}

#[test]
fn hexadecimal_integers() {
    assert_eq!(one(b"0x1F"), tok(b"0x1F", TokenType::Integer));
    assert_eq!(one(b"0Xabcdef09"), tok(b"0Xabcdef09", TokenType::Integer));
    assert_eq!(kinds(b"0x1f+1"), vec![TokenType::Integer, TokenType::Plus, TokenType::Integer]);
    assert!(matches!(split(b"0x1f", false), Ok((None, 0))));
    assert!(matches!(lex(b"0x"), Err(Error::MalformedHexInteger(Some((1, 1))))));
    assert!(matches!(lex(b"0x "), Err(Error::MalformedHexInteger(Some((1, 1))))));
    assert!(matches!(lex(b"0x1g"), Err(Error::MalformedHexInteger(Some((1, 1))))));
}

#[test]
fn floats() {
    assert_eq!(one(b"1.5"), tok(b"1.5", TokenType::Float));
    assert_eq!(one(b"1."), tok(b"1.", TokenType::Float));
    assert_eq!(one(b".5"), tok(b".5", TokenType::Float));
    assert_eq!(one(b"1e10"), tok(b"1e10", TokenType::Float));
    assert_eq!(one(b"1E-10"), tok(b"1E-10", TokenType::Float));
    assert_eq!(one(b"1.5e+3"), tok(b"1.5e+3", TokenType::Float));
    assert_eq!(one(b".5e3"), tok(b".5e3", TokenType::Float));
    assert_eq!(one(b"1.e5"), tok(b"1.e5", TokenType::Float));
    assert_eq!(kinds(b"1.5,2e3;"), vec![
        TokenType::Float,
        TokenType::Comma,
        TokenType::Float,
        TokenType::Semi,
    ]);
    assert!(matches!(split(b"1.5", false), Ok((None, 0))));
    assert!(matches!(split(b"1e", false), Ok((None, 0))));
    assert!(matches!(split(b"1e+", false), Ok((None, 0))));
    assert!(matches!(split(b"1e5", false), Ok((None, 0))));
}

#[test]
fn malformed_floats() {
    assert!(matches!(lex(b"1.5x"), Err(Error::BadNumber(Some((1, 1))))));
    assert!(matches!(lex(b"1e"), Err(Error::BadNumber(Some((1, 1))))));
    assert!(matches!(lex(b"1e+"), Err(Error::BadNumber(Some((1, 1))))));
    assert!(matches!(lex(b"1e+ "), Err(Error::BadNumber(Some((1, 1))))));
    assert!(matches!(lex(b"1e,"), Err(Error::BadNumber(Some((1, 1))))));
    assert!(matches!(lex(b"1e5x"), Err(Error::BadNumber(Some((1, 1))))));
    assert!(matches!(lex(b"1ex"), Err(Error::BadNumber(Some((1, 1))))));
}

#[test]
fn bracketed_identifiers_lose_their_brackets() {
    assert_eq!(one(b"[my table]"), tok(b"my table", TokenType::Id));
    assert_eq!(one(b"[]"), tok(b"", TokenType::Id));
    assert!(matches!(split(b"[a]b", false), Ok((Some(_), 3))));
    assert!(matches!(split(b"[open", false), Ok((None, 0))));
    assert!(matches!(lex(b"[open"), Err(Error::UnterminatedBracket(Some((1, 1))))));
}

#[test]
fn positional_variables_are_their_digits() {
    assert_eq!(lex(b"?12 ").unwrap(), vec![tok(b"12", TokenType::Variable)]);
    assert_eq!(one(b"?"), tok(b"", TokenType::Variable));
    assert_eq!(one(b"?7"), tok(b"7", TokenType::Variable));
    assert_eq!(
        lex(b"?,?1").unwrap(),
        vec![
            tok(b"", TokenType::Variable),
            tok(b",", TokenType::Comma),
            tok(b"1", TokenType::Variable),
        ]
    );
    assert!(matches!(split(b"?12", false), Ok((None, 0))));
    assert!(matches!(split(b"?12,", false), Ok((Some(_), 3))));
}

#[test]
fn named_variables_keep_their_sigil() {
    assert_eq!(one(b":name"), tok(b":name", TokenType::Variable));
    assert_eq!(one(b"@a1"), tok(b"@a1", TokenType::Variable));
    assert_eq!(one(b"$x$y"), tok(b"$x$y", TokenType::Variable));
    assert_eq!(one(b"#1"), tok(b"#1", TokenType::Variable));
    assert!(matches!(split(b":name", false), Ok((None, 0))));
    assert!(matches!(lex(b":"), Err(Error::BadVariableName(Some((1, 1))))));
    assert!(matches!(lex(b"@ a"), Err(Error::BadVariableName(Some((1, 1))))));
    assert!(matches!(lex(b"a $,"), Err(Error::BadVariableName(Some((1, 3))))));
}

#[test]
fn blob_literals_are_their_digits() {
    assert_eq!(one(b"x'0aFF'"), tok(b"0aFF", TokenType::Blob));
    assert_eq!(one(b"X'00'"), tok(b"00", TokenType::Blob));
    assert!(matches!(split(b"x'00'", false), Ok((Some(_), 5))));
    assert!(matches!(split(b"x'00", false), Ok((None, 0))));
    assert!(matches!(split(b"x", false), Ok((None, 0))));
}

#[test]
fn malformed_blob_literals() {
    assert!(matches!(lex(b"x''"), Err(Error::MalformedBlobLiteral(Some((1, 1))))));
    assert!(matches!(lex(b"x'0'"), Err(Error::MalformedBlobLiteral(Some((1, 1))))));
    assert!(matches!(lex(b"x'0g'"), Err(Error::MalformedBlobLiteral(Some((1, 1))))));
    assert!(matches!(lex(b"x'00"), Err(Error::MalformedBlobLiteral(Some((1, 1))))));
    assert!(matches!(lex(b"x'00 '"), Err(Error::MalformedBlobLiteral(Some((1, 1))))));
}

#[test]
fn identifiers() {
    assert_eq!(one(b"x"), tok(b"x", TokenType::Id));
    assert_eq!(one(b"xyz"), tok(b"xyz", TokenType::Id));
    assert_eq!(one(b"_a1$"), tok(b"_a1$", TokenType::Id));
    assert_eq!(one(b"a"), tok(b"a", TokenType::Id));
    assert_eq!(one("caf\u{e9}".as_bytes()), tok("caf\u{e9}".as_bytes(), TokenType::Id));
    // a word with a byte outside ASCII is never a keyword
    assert_eq!(one(b"SELECT\xc3\xa9"), tok(b"SELECT\xc3\xa9", TokenType::Id));
    // nor is one that is too long
    assert_eq!(one(b"CURRENT_TIMESTAMPS"), tok(b"CURRENT_TIMESTAMPS", TokenType::Id));
    assert!(matches!(split(b"abc", false), Ok((None, 0))));
    assert!(matches!(split(b"abc ", false), Ok((Some(_), 3))));
}

#[test]
fn unrecognized_bytes() {
    assert!(matches!(lex(b"^"), Err(Error::UnrecognizedToken(Some((1, 1))))));
    assert!(matches!(lex(b"a \\"), Err(Error::UnrecognizedToken(Some((1, 3))))));
    assert!(matches!(lex(b"{"), Err(Error::UnrecognizedToken(Some((1, 1))))));
    assert!(matches!(lex(b"\x00"), Err(Error::UnrecognizedToken(Some((1, 1))))));
}

#[test]
fn keywords_in_any_case() {
    assert_eq!(one(b"select"), tok(b"select", TokenType::Select));
    assert_eq!(one(b"SeLeCt"), tok(b"SeLeCt", TokenType::Select));
    assert_eq!(one(b"current_timestamp"), tok(b"current_timestamp", TokenType::CurrentTimestamp));
    assert_eq!(one(b"temp"), tok(b"temp", TokenType::Temp));
    assert_eq!(one(b"TEMPORARY"), tok(b"TEMPORARY", TokenType::Temp));
    assert_eq!(one(b"as"), tok(b"as", TokenType::As));
    assert_eq!(one(b"selec"), tok(b"selec", TokenType::Id));
    assert_eq!(one(b"selects"), tok(b"selects", TokenType::Id));
    assert_eq!(one(b"`select`"), tok(b"select", TokenType::Id));
    assert_eq!(one(b"[select]"), tok(b"select", TokenType::Id));
}

#[test]
fn every_keyword() {
    let table: Vec<(&str, TokenType)> = vec![
        ("ABORT", TokenType::Abort), ("ACTION", TokenType::Action), ("ADD", TokenType::Add), ("AFTER", TokenType::After), ("ALL", TokenType::All),
        ("ALTER", TokenType::Alter), ("ANALYZE", TokenType::Analyze), ("AND", TokenType::And), ("AS", TokenType::As), ("ASC", TokenType::Asc),
        ("ATTACH", TokenType::Attach), ("AUTOINCREMENT", TokenType::Autoincr), ("BEFORE", TokenType::Before), ("BEGIN", TokenType::Begin),
        ("BETWEEN", TokenType::Between), ("BY", TokenType::By), ("CASCADE", TokenType::Cascade), ("CASE", TokenType::Case), ("CAST", TokenType::Cast),
        ("CHECK", TokenType::Check), ("COLLATE", TokenType::Collate), ("COLUMN", TokenType::ColumnKw), ("COMMIT", TokenType::Commit),
        ("CONFLICT", TokenType::Conflict), ("CONSTRAINT", TokenType::Constraint), ("CREATE", TokenType::Create), ("CROSS", TokenType::Cross),
        ("CURRENT_DATE", TokenType::CurrentDate), ("CURRENT_TIME", TokenType::CurrentTime),
        ("CURRENT_TIMESTAMP", TokenType::CurrentTimestamp), ("DATABASE", TokenType::Database), ("DEFAULT", TokenType::Default),
        ("DEFERRABLE", TokenType::Deferrable), ("DEFERRED", TokenType::Deferred), ("DELETE", TokenType::Delete), ("DESC", TokenType::Desc),
        ("DETACH", TokenType::Detach), ("DISTINCT", TokenType::Distinct), ("DROP", TokenType::Drop), ("EACH", TokenType::Each),
        ("ELSE", TokenType::Else), ("END", TokenType::End), ("ESCAPE", TokenType::Escape), ("EXCEPT", TokenType::Except),
        ("EXCLUSIVE", TokenType::Exclusive), ("EXISTS", TokenType::Exists), ("EXPLAIN", TokenType::Explain), ("FAIL", TokenType::Fail),
        ("FOR", TokenType::For), ("FOREIGN", TokenType::Foreign), ("FROM", TokenType::From), ("FULL", TokenType::Full), ("GLOB", TokenType::Glob),
        ("GROUP", TokenType::Group), ("HAVING", TokenType::Having), ("IF", TokenType::If), ("IGNORE", TokenType::Ignore),
        ("IMMEDIATE", TokenType::Immediate), ("IN", TokenType::In), ("INDEX", TokenType::Index), ("INDEXED", TokenType::Indexed),
        ("INITIALLY", TokenType::Initially), ("INNER", TokenType::Inner), ("INSERT", TokenType::Insert), ("INSTEAD", TokenType::Instead),
        ("INTERSECT", TokenType::Intersect), ("INTO", TokenType::Into), ("IS", TokenType::Is), ("ISNULL", TokenType::IsNull), ("JOIN", TokenType::Join),
        ("KEY", TokenType::Key), ("LEFT", TokenType::Left), ("LIKE", TokenType::Like), ("LIMIT", TokenType::Limit), ("MATCH", TokenType::Match),
        ("NATURAL", TokenType::Natural), ("NO", TokenType::No), ("NOT", TokenType::Not), ("NOTNULL", TokenType::NotNull), ("NULL", TokenType::Null),
        ("OF", TokenType::Of), ("OFFSET", TokenType::Offset), ("ON", TokenType::On), ("OR", TokenType::Or), ("ORDER", TokenType::Order),
        ("OUTER", TokenType::Outer), ("PLAN", TokenType::Plan), ("PRAGMA", TokenType::Pragma), ("PRIMARY", TokenType::Primary),
        ("QUERY", TokenType::Query), ("RAISE", TokenType::Raise), ("RECURSIVE", TokenType::Recursive), ("REFERENCES", TokenType::References),
        ("REGEXP", TokenType::Regexp), ("REINDEX", TokenType::Reindex), ("RELEASE", TokenType::Release), ("RENAME", TokenType::Rename),
        ("REPLACE", TokenType::Replace), ("RESTRICT", TokenType::Restrict), ("RIGHT", TokenType::Right), ("ROLLBACK", TokenType::Rollback),
        ("ROW", TokenType::Row), ("SAVEPOINT", TokenType::Savepoint), ("SELECT", TokenType::Select), ("SET", TokenType::SetKw),
        ("TABLE", TokenType::Table), ("TEMP", TokenType::Temp), ("TEMPORARY", TokenType::Temp), ("THEN", TokenType::Then), ("TO", TokenType::To),
        ("TRANSACTION", TokenType::Transaction), ("TRIGGER", TokenType::Trigger), ("UNION", TokenType::Union), ("UNIQUE", TokenType::Unique),
        ("UPDATE", TokenType::Update), ("USING", TokenType::Using), ("VACUUM", TokenType::Vacuum), ("VALUES", TokenType::Values),
        ("VIEW", TokenType::View), ("VIRTUAL", TokenType::Virtual), ("WHEN", TokenType::When), ("WHERE", TokenType::Where), ("WITH", TokenType::With),
        ("WITHOUT", TokenType::Without),
    ];
    assert_eq!(table.len(), 124);
    for (word, kind) in table {
        assert_eq!(one(word.as_bytes()), tok(word.as_bytes(), kind), "{}", word);
        let lower = word.to_ascii_lowercase();
        assert_eq!(one(lower.as_bytes()), tok(lower.as_bytes(), kind), "{}", lower);
        assert_eq!(keyword(word.as_bytes()), Some(kind));
        assert_eq!(keyword(lower.as_bytes()), None);
        assert_eq!(word_kind(lower.as_bytes()), kind);
    }
}

#[test]
fn errors_are_placed_where_their_token_starts() {
    assert!(matches!(
        lex(b"SELECT 1,\n  2,\n  'open"),
        Err(Error::UnterminatedLiteral(Some((3, 3))))
    ));
    assert!(matches!(lex(b"a\n\nb ^"), Err(Error::UnrecognizedToken(Some((3, 3))))));
    assert!(matches!(lex(b"/* a\nb */ 0x"), Err(Error::MalformedHexInteger(Some((2, 6))))));
}

#[test]
fn an_error_knows_its_place_only_when_told() {
    let mut e = split(b"^", true).unwrap_err();
    assert!(matches!(e, Error::UnrecognizedToken(None)));
    assert_eq!(e.location(), None);
    e.position(3, 7);
    assert!(matches!(e, Error::UnrecognizedToken(Some((3, 7)))));
    assert_eq!(e.location(), Some((3, 7)));
    let mut io = Error::from(std::io::Error::new(std::io::ErrorKind::Other, "broken"));
    io.position(3, 7);
    assert!(matches!(io, Error::Io(_)));
    assert_eq!(io.location(), None);
}

#[test]
fn byte_classes() {
    assert!(is_identifier_start(b'a') && is_identifier_start(b'Z') && is_identifier_start(b'_'));
    assert!(is_identifier_start(0x80) && is_identifier_start(0xff));
    assert!(!is_identifier_start(b'0') && !is_identifier_start(b'$') && !is_identifier_start(0x7f));
    assert!(is_identifier_continue(b'0') && is_identifier_continue(b'$'));
    assert!(!is_identifier_continue(b'-') && !is_identifier_continue(b'@'));
    assert!(is_digit(b'0') && is_digit(b'9') && !is_digit(b'/') && !is_digit(b':'));
    assert!(is_hex_digit(b'a') && is_hex_digit(b'F') && !is_hex_digit(b'g') && !is_hex_digit(b'G'));
    assert!(is_space(b' ') && is_space(b'\n') && !is_space(0x0b) && !is_space(b'a'));
    assert_eq!(run_end_of(b"12ab", 0, Class::Digit), 2);
    assert_eq!(run_end_of(b"12ab", 0, Class::HexDigit), 4);
    assert_eq!(run_end_of(b"12ab", 2, Class::Digit), 2);
    assert_eq!(run_end_of(b"ab$1 c", 1, Class::Word), 4);
    assert_eq!(run_end_of(b"  x", 3, Class::Space), 3);
}

#[test]
fn tokens_lie_in_what_is_consumed() {
    let inputs: [&[u8]; 12] = [
        b"select ", b"'a''b' ", b"[x] ", b"?12 ", b":v ", b"x'ab' ", b"1.5e3 ", b"0x1f ", b"<= ",
        b"-- c\n", b"/* c */ ", b"  \t",
    ];
    for input in inputs {
        for eof in [false, true] {
            let mut window = input.to_vec();
            let (token, advance) = Tokenizer::new().split(&mut window, eof).unwrap();
            assert!(1 <= advance && advance <= input.len());
            assert_eq!(window.len(), input.len());
            assert_eq!(&window[advance..], &input[advance..]);
            if let Some(token) = token {
                assert!(token.start <= token.end && token.end <= advance);
            }
        }
    }
}

#[test]
fn the_parts_of_a_number() {
    assert!(matches!(number(b"12 ", false), Ok((Some(t), 2)) if t.kind == TokenType::Integer));
    assert!(matches!(number(b"12.5 ", false), Ok((Some(t), 4)) if t.kind == TokenType::Float));
    assert!(matches!(number(b"0x1F,", false), Ok((Some(t), 4)) if t.kind == TokenType::Integer));
    assert!(matches!(hex_integer(b"0xab", true), Ok((Some(t), 4)) if t.end == 4));
    assert!(matches!(hex_integer(b"0x", true), Err(Error::MalformedHexInteger(None))));
    assert!(matches!(fractional_part(b"1.25+", false, 1), Ok((Some(t), 4)) if t.kind == TokenType::Float));
    assert!(matches!(fractional_part(b".5e2", true, 0), Ok((Some(t), 4)) if t.start == 0));
    assert!(matches!(exponential_part(b"1e-7;", false, 1), Ok((Some(t), 4)) if t.kind == TokenType::Float));
    assert!(matches!(exponential_part(b"1e-", true, 1), Err(Error::BadNumber(None))));
    assert!(matches!(exponential_part(b"1e", false, 1), Ok((None, 0))));
}

#[test]
fn the_parts_of_the_lexer() {
    assert!(matches!(blob_literal(b"x'abcd',", false), Ok((Some(t), 7)) if (t.start, t.end) == (2, 6)));
    assert!(matches!(blob_literal(b"x'abc'", false), Err(Error::MalformedBlobLiteral(None))));
    let mut window = b"\"a\"\"b\" ".to_vec();
    assert!(matches!(
        literal(&mut window, false, b'"'),
        Ok((Some(t), 6)) if (t.start, t.end, t.kind) == (1, 4, TokenType::Id)
    ));
    assert_eq!(&window[1..4], b"a\"b");
    let tokenizer = Tokenizer::new();
    assert!(matches!(
        tokenizer.identifierish(b"from x", false),
        Ok((Some(t), 4)) if t.kind == TokenType::From
    ));
    assert!(matches!(tokenizer.identifierish(b"from", false), Ok((None, 0))));
    assert!(matches!(
        tokenizer.identifierish(b"fro", true),
        Ok((Some(t), 3)) if t.kind == TokenType::Id
    ));
    assert_eq!(word_kind(b"Rollback"), TokenType::Rollback);
    assert_eq!(word_kind(b"R"), TokenType::Id);
    let mut data = b"it''s ''".to_vec();
    assert_eq!(unescape_quotes(&mut data, b'\''), 6);
    assert_eq!(&data[..6], b"it's '");
    let mut data = b"a\"\"b".to_vec();
    assert_eq!(unescape_quotes(&mut data, b'\''), 4);
    assert_eq!(data, b"a\"\"b".to_vec());
}
