use lssg::char_reader::{peek_then_read, CharReader, MemorySource};
use lssg::ParseError;

fn reader_over(text: &str) -> CharReader<MemorySource> {
    CharReader::new(MemorySource::new(text.as_bytes().to_vec()))
}

#[test]
fn test_peek() -> Result<(), ParseError> {
    let mut reader = reader_over("This is a piece of text");
    assert_eq!(reader.peek_string(4)?, "This".to_owned());
    assert_eq!(reader.read_string(4)?, "This".to_owned());
    assert_eq!(reader.read_char()?, ' ');

    assert_eq!(reader.peek_string(3)?, "is ".to_owned());
    assert_eq!(reader.peek_string(2)?, "is".to_owned());

    assert_eq!(reader.peek_char()?, 'i');
    assert_eq!(reader.peek_string(2)?, "is".to_owned());
    assert_eq!(reader.read_string(10)?, "is a piece".to_owned());

    assert_eq!(reader.peek_char()?, ' ');
    assert_eq!(reader.read_char()?, ' ');
    assert_eq!(reader.read_string(7)?, "of text".to_owned());
    assert!(reader.read_char().is_err());
    Ok(())
}

#[test]
fn peek_does_not_consume_and_read_agrees() {
    let mut reader = reader_over("lookahead");
    let (peeked, consumed) = peek_then_read(&mut reader, 4).unwrap();
    assert_eq!(peeked, b"look".to_vec());
    assert_eq!(consumed, b"look".to_vec());
    assert_eq!(reader.read_string(5).unwrap(), "ahead".to_owned());
}

#[test]
fn repeated_peeks_leave_position_alone() {
    let mut reader = reader_over("abcdef");
    assert_eq!(reader.peek_string(2).unwrap(), "ab".to_owned());
    assert_eq!(reader.peek_string(5).unwrap(), "abcde".to_owned());
    assert_eq!(reader.peek_string(1).unwrap(), "a".to_owned());
    assert_eq!(reader.read_string(6).unwrap(), "abcdef".to_owned());
}

#[test]
fn peek_fails_past_end_of_input() {
    let mut reader = reader_over("ab");
    assert_eq!(reader.peek_string(3), Err(ParseError::Eof));
    // the two available bytes are still there, unconsumed
    assert_eq!(reader.read_string(2).unwrap(), "ab".to_owned());
}

#[test]
fn read_fails_past_end_of_input() {
    let mut reader = reader_over("ab");
    assert_eq!(reader.read_string(3), Err(ParseError::Eof));
    assert!(reader.read_char().is_err());
}

#[test]
fn read_until_consumes_and_discards_terminator() {
    let mut reader = reader_over("abc;rest");
    let taken = reader.read_until(|c| c != ';').unwrap();
    assert_eq!(taken, "abc".to_owned());
    // the terminating `;` is gone: the next read starts at "rest"
    assert_eq!(reader.read_string(4).unwrap(), "rest".to_owned());
}

#[test]
fn read_until_fails_when_no_terminator_comes() {
    let mut reader = reader_over("aaaa");
    assert_eq!(reader.read_until(|c| c != ';'), Err(ParseError::Eof));
}

#[test]
fn read_until_terminator_first_gives_empty_result() {
    let mut reader = reader_over(";rest");
    assert_eq!(reader.read_until(|c| c != ';').unwrap(), String::new());
    assert_eq!(reader.read_string(4).unwrap(), "rest".to_owned());
}

#[test]
fn invalid_text_is_an_encoding_error() {
    let mut reader = CharReader::new(MemorySource::new(vec![0xff, 0xfe]));
    assert_eq!(reader.read_string(2), Err(ParseError::InvalidText));
    let mut peeker = CharReader::new(MemorySource::new(vec![0xff, 0xfe]));
    assert_eq!(peeker.peek_string(2), Err(ParseError::InvalidText));
}

#[test]
fn multibyte_text_reads_whole_characters() {
    let mut reader = reader_over("héllo");
    // 'é' takes two bytes; six bytes make five characters
    assert_eq!(reader.read_string(6).unwrap(), "héllo".to_owned());
}

#[test]
fn byte_reads_cross_the_peek_buffer_boundary() {
    let mut reader = reader_over("abcdef");
    assert_eq!(reader.peek_string(2).unwrap(), "ab".to_owned());
    // read more than the buffer holds: drains the buffer, then the source
    assert_eq!(reader.read_string(4).unwrap(), "abcd".to_owned());
    assert_eq!(reader.read_string(2).unwrap(), "ef".to_owned());
}

#[test]
fn parse_error_invalid_carries_the_message() {
    let e = ParseError::invalid("bad token");
    assert_eq!(e, ParseError::Syntax("bad token".to_owned()));
}
