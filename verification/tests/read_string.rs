use a2s_query::reader::{ReadString, Reader};

#[test]
fn test_read_string_simple() {
    let data = b"hello\x00world\x00";
    let mut cursor = Reader::new(data.to_vec());
    assert_eq!(cursor.read_string().unwrap(), "hello");
    assert_eq!(cursor.read_string().unwrap(), "world");
}

#[test]
fn test_read_string_empty() {
    let data = b"\x00";
    let mut cursor = Reader::new(data.to_vec());
    assert_eq!(cursor.read_string().unwrap(), "");
}

#[test]
fn test_read_string_no_null_at_end() {
    let data = b"hello";
    let mut cursor = Reader::new(data.to_vec());
    assert_eq!(cursor.read_string().unwrap(), "hello");
}

#[test]
fn test_read_string_with_invalid_utf8() {
    let data = b"\xff\xfe\x00";
    let mut cursor = Reader::new(data.to_vec());
    assert_eq!(cursor.read_string().unwrap(), "\u{FFFD}\u{FFFD}");
}

#[test]
fn test_read_string_sequential() {
    let data = b"first\x00second\x00third";
    let mut cursor = Reader::new(data.to_vec());
    assert_eq!(cursor.read_string().unwrap(), "first");
    assert_eq!(cursor.read_string().unwrap(), "second");
    assert_eq!(cursor.read_string().unwrap(), "third");
}

#[test]
fn test_read_string_at_eof() {
    // the first read consumes the whole unterminated buffer, leaving the
    // cursor at the end; a read there yields an empty string, not an error
    let data = b"end";
    let mut cursor = Reader::new(data.to_vec());
    assert_eq!(cursor.read_string().unwrap(), "end");
    assert_eq!(cursor.read_string().unwrap(), "");
}

#[test]
fn test_read_string_strict_unterminated() {
    let data = b"abc";
    let mut cursor = Reader::new(data.to_vec());
    assert_eq!(
        cursor.read_string_strict().unwrap_err(),
        a2s_query::errors::Error::Truncated
    );
}

#[test]
fn test_read_string_strict_terminated() {
    let data = b"abc\x00rest";
    let mut cursor = Reader::new(data.to_vec());
    assert_eq!(cursor.read_string_strict().unwrap(), "abc");
}
