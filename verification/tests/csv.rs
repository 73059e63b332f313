use scan_rs::csv::{unescape_quotes, Error, FieldType, Reader};
use scan_rs::{ScanError, Scanner, Splitter, Step};

type Fields = Vec<(Vec<u8>, FieldType, bool)>;

/// Runs `reader` over `input`, handing the scanner at most `chunk` bytes at a
/// time, and collects each field with its kind and whether it ended a
/// record.
fn read_in_chunks(reader: Reader, input: &[u8], chunk: usize) -> Result<Fields, Error> {
    let mut scanner = Scanner::with_capacity(reader, 2);
    let mut rest = input;
    let mut fields = Vec::new();
    loop {
        match scanner.scan()? {
            Step::Token(kind) => {
                let eor = scanner.splitter().end_of_record();
                fields.push((scanner.token().to_vec(), kind, eor));
            }
            Step::End => return Ok(fields),
            Step::NeedData => {
                let room = scanner.spare();
                let n = room.len().min(rest.len()).min(chunk);
                room[..n].copy_from_slice(&rest[..n]);
                rest = &rest[n..];
                scanner.filled(n);
            }
        }
    }
}

fn read_with(reader: Reader, input: &[u8]) -> Result<Fields, Error> {
    read_in_chunks(reader, input, usize::MAX)
}

fn read(input: &[u8]) -> Result<Fields, Error> {
    read_with(Reader::new(), input)
}

fn unquoted(bytes: &[u8], eor: bool) -> (Vec<u8>, FieldType, bool) {
    (bytes.to_vec(), FieldType::Unquoted, eor)
}

fn quoted(bytes: &[u8], eor: bool) -> (Vec<u8>, FieldType, bool) {
    (bytes.to_vec(), FieldType::Quoted, eor)
}

fn escaped(bytes: &[u8], eor: bool) -> (Vec<u8>, FieldType, bool) {
    (bytes.to_vec(), FieldType::Escaped, eor)
}

/// One call of `split` on a window, as the scanner would make it.
fn split(
    reader: &mut Reader,
    input: &[u8],
    eof: bool,
) -> Result<(Option<(Vec<u8>, FieldType)>, usize), Error> {
    let mut window = input.to_vec();
    let (token, advance) = reader.split(&mut window, eof)?;
    Ok((token.map(|t| (window[t.start..t.end].to_vec(), t.kind)), advance))
}

#[test]
fn simple_record() {
    let fields = read(b"a,b,c\n").unwrap();
    assert_eq!(fields, vec![unquoted(b"a", false), unquoted(b"b", false), unquoted(b"c", true)]);
    assert_eq!(fields.len(), 3);
    assert_eq!(fields.iter().filter(|f| f.2).count(), 1);
}

#[test]
fn quoted_fields_with_separator_and_doubled_quote() {
    let fields = read(b"\"x,y\",\"she said \"\"hi\"\"\"\n").unwrap();
    assert_eq!(fields, vec![quoted(b"x,y", false), escaped(b"she said \"hi\"", true)]);
}

#[test]
fn crlf_ends_a_record() {
    let fields = read(b"a,b\r\nc,d\r\n").unwrap();
    assert_eq!(
        fields,
        vec![unquoted(b"a", false), unquoted(b"b", true), unquoted(b"c", false), unquoted(b"d", true)]
    );
}

#[test]
fn unterminated_quoted_field() {
    assert!(matches!(read(b"\"abc"), Err(Error::UnterminatedQuotedField(Some((1, 1))))));
    assert!(matches!(read(b"a\n\"abc\"\r"), Err(Error::UnterminatedQuotedField(Some((2, 1))))));
    assert!(matches!(read(b"a,\"b\"\"\n"), Err(Error::UnterminatedQuotedField(Some((1, 3))))));
}

#[test]
fn empty_input_has_no_fields() {
    assert_eq!(read(b"").unwrap(), vec![]);
    let mut reader = Reader::new();
    assert!(reader.end_of_record());
    assert!(matches!(split(&mut reader, b"", true), Ok((None, 0))));
    assert!(reader.end_of_record());
}

#[test]
fn the_last_field_needs_no_line_feed() {
    assert_eq!(read(b"a,b").unwrap(), vec![unquoted(b"a", false), unquoted(b"b", true)]);
    assert_eq!(read(b"a,\"b\"").unwrap(), vec![unquoted(b"a", false), quoted(b"b", true)]);
    // a carriage return at the end of the stream is part of the field
    assert_eq!(read(b"a\r").unwrap(), vec![unquoted(b"a\r", true)]);
}

#[test]
fn a_separator_at_the_end_opens_one_more_field() {
    assert_eq!(read(b"a,").unwrap(), vec![unquoted(b"a", false), unquoted(b"", true)]);
    assert_eq!(
        read(b"a,\nb").unwrap(),
        vec![unquoted(b"a", false), unquoted(b"", true), unquoted(b"b", true)]
    );
    let mut reader = Reader::new();
    assert!(matches!(split(&mut reader, b"a,", true), Ok((Some(_), 2))));
    assert!(!reader.end_of_record());
    assert_eq!(split(&mut reader, b"", true).unwrap(), (Some((vec![], FieldType::Unquoted)), 0));
    assert!(reader.end_of_record());
    assert!(matches!(split(&mut reader, b"", true), Ok((None, 0))));
}

#[test]
fn empty_lines_and_empty_fields() {
    assert_eq!(read(b"\n").unwrap(), vec![unquoted(b"", true)]);
    assert_eq!(
        read(b",,\n").unwrap(),
        vec![unquoted(b"", false), unquoted(b"", false), unquoted(b"", true)]
    );
    assert_eq!(read(b"\"\",\"\"\n").unwrap(), vec![quoted(b"", false), quoted(b"", true)]);
    assert_eq!(read(b"\"\"\r\n").unwrap(), vec![quoted(b"", true)]);
    assert_eq!(read(b"\"a\"\r\n").unwrap(), vec![quoted(b"a", true)]);
}

#[test]
fn quoted_fields_may_hold_line_feeds() {
    assert_eq!(
        read(b"\"a\nb\",\"c\r\nd\"\n").unwrap(),
        vec![quoted(b"a\nb", false), quoted(b"c\r\nd", true)]
    );
}

#[test]
fn doubled_quotes_in_a_field_are_made_single() {
    assert_eq!(read(b"\"\"\"\"\n").unwrap(), vec![escaped(b"\"", true)]);
    assert_eq!(read(b"\"\"\"a\"\"\",x").unwrap(), vec![escaped(b"\"a\"", false), unquoted(b"x", true)]);
    assert_eq!(read(b"\"a\"\"\"\"b\"").unwrap(), vec![escaped(b"a\"\"b", true)]);
}

#[test]
fn quoting_and_reading_back() {
    for content in [&b""[..], b"plain", b"\"", b"\"\"", b"say \"hi\"", b"a,b\nc", b"\"\r\n\""] {
        let mut input = vec![b'"'];
        for &b in content {
            if b == b'"' {
                input.push(b'"');
            }
            input.push(b);
        }
        input.push(b'"');
        for tail in [&b""[..], b",", b"\n", b"\r\n", b",next"] {
            let mut line = input.clone();
            line.extend_from_slice(tail);
            let fields = read(&line).unwrap();
            assert_eq!(fields[0].0, content.to_vec());
            if content.contains(&b'"') {
                assert_eq!(fields[0].1, FieldType::Escaped);
            } else {
                assert_eq!(fields[0].1, FieldType::Quoted);
            }
        }
    }
}

#[test]
fn a_quote_must_be_followed_by_what_ends_a_field() {
    assert!(matches!(
        read(b"\"a\"b\n"),
        Err(Error::UnescapedQuote { quote: b'"', pos: Some((1, 1)) })
    ));
    assert!(matches!(
        read(b"x\ny,\"a\" ,z\n"),
        Err(Error::UnescapedQuote { quote: b'"', pos: Some((2, 3)) })
    ));
}

#[test]
fn a_lazy_reader_takes_a_stray_quote_for_content() {
    let mut reader = Reader::new();
    reader.lazy = true;
    assert_eq!(
        read_with(reader, b"\"a\"b\",c\n").unwrap(),
        vec![quoted(b"a\"b", false), unquoted(b"c", true)]
    );
    let mut reader = Reader::new();
    reader.lazy = true;
    assert_eq!(read_with(reader, b"\"a\"b\"\"c\"\n").unwrap(), vec![escaped(b"a\"b\"c", true)]);
}

#[test]
fn a_quote_before_a_lone_carriage_return_is_content() {
    assert_eq!(
        read(b"\"a\"\rb\",c\n").unwrap(),
        vec![quoted(b"a\"\rb", false), unquoted(b"c", true)]
    );
}

#[test]
fn quotes_inside_an_unquoted_field_are_content() {
    assert_eq!(read(b"a\"b,c\n").unwrap(), vec![unquoted(b"a\"b", false), unquoted(b"c", true)]);
}

#[test]
fn a_reader_that_ignores_quotes() {
    assert_eq!(
        read_with(Reader::custom(b',', false), b"\"a,b\"\n").unwrap(),
        vec![unquoted(b"\"a", false), unquoted(b"b\"", true)]
    );
}

#[test]
fn another_separator() {
    assert_eq!(
        read_with(Reader::custom(b';', true), b"a,b;\"c;d\";e\n").unwrap(),
        vec![unquoted(b"a,b", false), quoted(b"c;d", false), unquoted(b"e", true)]
    );
    assert_eq!(
        read_with(Reader::custom(b'\t', true), b"a\tb\n").unwrap(),
        vec![unquoted(b"a", false), unquoted(b"b", true)]
    );
}

#[test]
fn trimming_takes_the_spaces_off_unquoted_fields() {
    let mut reader = Reader::new();
    reader.trim = true;
    assert_eq!(
        read_with(reader, b"  a b , c\t ,   ,\" d \" \r\n").err().map(|_| ()),
        Some(())
    );
    let mut reader = Reader::new();
    reader.trim = true;
    assert_eq!(
        read_with(reader, b"  a b , c\t ,   ,\" d \"\r\n  e  ").unwrap(),
        vec![
            unquoted(b"a b", false),
            unquoted(b"c\t", false),
            unquoted(b"", false),
            quoted(b" d ", true),
            unquoted(b"e", true),
        ]
    );
    assert_eq!(read(b" a ,b \n").unwrap(), vec![unquoted(b" a ", false), unquoted(b"b ", true)]);
}

#[test]
fn trimming_reports_where_the_field_stands() {
    let mut reader = Reader::new();
    reader.trim = true;
    let mut window = b"  ab  ,c".to_vec();
    let (token, advance) = reader.split(&mut window, false).unwrap();
    let token = token.unwrap();
    assert_eq!((token.start, token.end, advance), (2, 4, 7));
}

#[test]
fn comment_lines_are_empty_records() {
    let mut reader = Reader::new();
    reader.comment = b'#';
    assert_eq!(
        read_with(reader, b"# a,b\nc,#d\n#last").unwrap(),
        vec![unquoted(b"", true), unquoted(b"c", false), unquoted(b"#d", true), unquoted(b"", true)]
    );
    assert_eq!(read(b"#a,b\n").unwrap(), vec![unquoted(b"#a", false), unquoted(b"b", true)]);
    let mut reader = Reader::new();
    reader.comment = b'#';
    assert!(matches!(split(&mut reader, b"# open", false), Ok((None, 0))));
    assert!(matches!(split(&mut reader, b"# a\nb", false), Ok((Some(_), 4))));
}

#[test]
fn the_default_reader_has_nothing_set() {
    let reader = Reader::default();
    assert!(!reader.end_of_record());
    assert!(!reader.trim && !reader.lazy && reader.comment == 0);
    assert_eq!(
        read_with(reader, b"\"a\"\x00b\n").unwrap(),
        vec![unquoted(b"\"a\"", false), unquoted(b"b", true)]
    );
}

#[test]
fn chunking_does_not_change_the_fields() {
    let input = b"a,\"b \"\"x\"\"\",c\r\n\"multi\nline\",,\"\"\r\nlast,\"q\"";
    let whole = read(input).unwrap();
    assert_eq!(whole.len(), 8);
    for chunk in 1..9 {
        assert_eq!(read_in_chunks(Reader::new(), input, chunk).unwrap(), whole);
    }
}

#[test]
fn a_field_waits_for_what_follows_it() {
    let mut reader = Reader::new();
    assert!(matches!(split(&mut reader, b"abc", false), Ok((None, 0))));
    assert!(matches!(split(&mut reader, b"\"abc", false), Ok((None, 0))));
    assert!(matches!(split(&mut reader, b"\"abc\"", false), Ok((None, 0))));
    assert!(matches!(split(&mut reader, b"\"abc\"\r", false), Ok((None, 0))));
    assert!(reader.end_of_record());
    assert!(matches!(split(&mut reader, b"\"abc\"\r\n", false), Ok((Some(_), 7))));
    assert!(matches!(split(&mut reader, b"\"abc\",", false), Ok((Some(_), 6))));
    assert!(!reader.end_of_record());
}

#[test]
fn unquoted_fields_leave_the_window_alone() {
    let mut reader = Reader::new();
    let mut window = b"abc,def\n".to_vec();
    let (token, advance) = reader.split(&mut window, false).unwrap();
    let token = token.unwrap();
    assert_eq!((token.start, token.end, advance), (0, 3, 4));
    assert_eq!(window, b"abc,def\n".to_vec());
    let mut window = b"\"abc\",def\n".to_vec();
    let (token, advance) = reader.split(&mut window, false).unwrap();
    let token = token.unwrap();
    assert_eq!((token.start, token.end, token.kind, advance), (1, 4, FieldType::Quoted, 6));
    assert_eq!(window, b"\"abc\",def\n".to_vec());
}

#[test]
fn unescaping_in_place() {
    let mut data = b"a\"\"b\"\"\"\"c".to_vec();
    let n = unescape_quotes(&mut data);
    assert_eq!(n, 6);
    assert_eq!(&data[..n], b"a\"b\"\"c");
    assert_eq!(data, b"a\"b\"\"c\"\"c".to_vec());
    let mut data = b"plain".to_vec();
    assert_eq!(unescape_quotes(&mut data), 5);
    assert_eq!(data, b"plain".to_vec());
    let mut data = b"a\"b".to_vec();
    assert_eq!(unescape_quotes(&mut data), 3);
    assert_eq!(data, b"a\"b".to_vec());
    let mut data = Vec::new();
    assert_eq!(unescape_quotes(&mut data), 0);
}

#[test]
fn the_end_of_a_quoted_field() {
    let mut reader = Reader::new();
    assert!(matches!(
        reader.parse_quoted_field(b"\"a\"\"b\",c", false),
        Ok((Some((1, 5)), true, 7))
    ));
    assert!(!reader.end_of_record());
    assert!(matches!(reader.parse_quoted_field(b"\"ab\"\r\nc", false), Ok((Some((1, 3)), false, 6))));
    assert!(reader.end_of_record());
    assert!(matches!(reader.parse_quoted_field(b"\"ab\"", true), Ok((Some((1, 3)), false, 4))));
    assert!(matches!(reader.parse_quoted_field(b"\"ab\"", false), Ok((None, false, 0))));
    assert!(matches!(reader.parse_quoted_field(b"\"", true), Err(Error::UnterminatedQuotedField(None))));
    assert!(matches!(
        reader.parse_quoted_field(b"\"a\"b", false),
        Err(Error::UnescapedQuote { quote: b'"', pos: None })
    ));
}

#[test]
fn a_field_error_knows_its_place_only_when_told() {
    let mut reader = Reader::new();
    let mut e = split(&mut reader, b"\"a\"b", false).unwrap_err();
    assert_eq!(e.location(), None);
    e.position(4, 2);
    assert!(matches!(e, Error::UnescapedQuote { quote: b'"', pos: Some((4, 2)) }));
    assert_eq!(e.location(), Some((4, 2)));
    let mut e = split(&mut reader, b"\"a", true).unwrap_err();
    e.position(1, 9);
    assert!(matches!(e, Error::UnterminatedQuotedField(Some((1, 9)))));
    let mut io = Error::from(std::io::Error::new(std::io::ErrorKind::Other, "broken"));
    io.position(4, 2);
    assert!(matches!(io, Error::Io(_)));
    assert_eq!(io.location(), None);
}
