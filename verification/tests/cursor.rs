use rtftp::cursor::{BufferError, ParseError, ReadCursor, WriteCursor};

#[test]
fn cursor_extract_ushort() {
    let buffer: Vec<u8> = vec![0x00, 0x0A, 0x00, 0x00, 0x00, 0xab, 0xcd, 0xef];
    let mut cursor = ReadCursor::new(&buffer);
    let result = cursor.extract_ushort();
    assert_eq!(result.unwrap(), 0x0A);
}

#[test]
fn cursor_extract_ushort_not_enough_data() {
    let buffer: Vec<u8> = vec![0x00, 0x0A, 0xFF];
    let mut cursor = ReadCursor::new(&buffer);
    cursor.extract_ushort().unwrap();
    let result = cursor.extract_ushort();
    assert!(matches!(result.unwrap_err(), ParseError::NotEnoughData));
}

#[test]
fn cursor_extract_string() {
    let buffer: Vec<u8> = b"Arbitrary_string\x00\x0A".to_vec();
    let mut cursor = ReadCursor::new(&buffer);
    let result = cursor.extract_string();
    assert_eq!(result.unwrap(), "Arbitrary_string");
}

#[test]
fn cursor_extract_string_not_enough_data() {
    let buffer: Vec<u8> = b"Arbitrary_string\x00".to_vec();
    let mut cursor = ReadCursor::new(&buffer);
    let result = cursor.extract_string();
    assert_eq!(result.unwrap(), "Arbitrary_string");
    let error = cursor.extract_string();
    assert!(matches!(error.unwrap_err(), ParseError::NotEnoughData));
}

#[test]
fn cursor_extract_string_non_utf() {
    let buffer: Vec<u8> = b"Arbitrary_\xFFstring\x00\x0A".to_vec();
    let mut cursor = ReadCursor::new(&buffer);
    let result = cursor.extract_string();
    assert!(matches!(result.unwrap_err(), ParseError::Generic(_)));
}

#[test]
fn cursor_extract_non_terminated_string() {
    let buffer: Vec<u8> = b"Arbitrary_string".to_vec();
    let mut cursor = ReadCursor::new(&buffer);
    let result = cursor.extract_string();
    assert!(matches!(result.unwrap_err(), ParseError::Generic(_)));
}

#[test]
fn tests_extract_ushort() {
    let buffer: Vec<u8> = vec![0x00, 0x0A, 0x00, 0x00, 0x00, 0xab, 0xcd, 0xef];
    let mut cursor = ReadCursor::new(&buffer);
    let result = cursor.extract_ushort();
    assert_eq!(result.unwrap(), 0x0A);
}

#[test]
fn tests_extract_ushort_not_enough_data() {
    let buffer: Vec<u8> = vec![0x00, 0x0A, 0xFF];
    let mut cursor = ReadCursor::new(&buffer);
    cursor.extract_ushort().unwrap();
    let result = cursor.extract_ushort();
    assert!(matches!(result.unwrap_err(), ParseError::NotEnoughData));
}

#[test]
fn tests_extract_string() {
    let buffer: Vec<u8> = b"Arbitrary_string\x00\x0A".to_vec();
    let mut cursor = ReadCursor::new(&buffer);
    let result = cursor.extract_string();
    assert_eq!(result.unwrap(), "Arbitrary_string");
}

#[test]
fn tests_extract_string_not_enough_data() {
    let buffer: Vec<u8> = b"Arbitrary_string\x00".to_vec();
    let mut cursor = ReadCursor::new(&buffer);
    let result = cursor.extract_string();
    assert_eq!(result.unwrap(), "Arbitrary_string");
    let error = cursor.extract_string();
    assert!(matches!(error.unwrap_err(), ParseError::NotEnoughData));
}

#[test]
fn tests_extract_string_non_utf() {
    let buffer: Vec<u8> = b"Arbitrary_\xFFstring\x00\x0A".to_vec();
    let mut cursor = ReadCursor::new(&buffer);
    let result = cursor.extract_string();
    assert!(matches!(result.unwrap_err(), ParseError::Generic(_)));
}

#[test]
fn tests_extract_non_terminated_string() {
    let buffer: Vec<u8> = b"Arbitrary_string".to_vec();
    let mut cursor = ReadCursor::new(&buffer);
    let result = cursor.extract_string();
    assert!(matches!(result.unwrap_err(), ParseError::Generic(_)));
}

#[test]
fn extract_string_messages() {
    let buffer: Vec<u8> = b"open".to_vec();
    let mut cursor = ReadCursor::new(&buffer);
    match cursor.extract_string().unwrap_err() {
        ParseError::Generic(message) => assert_eq!(message, "Null-terminated string is not found"),
        ParseError::NotEnoughData => panic!("a message was expected"),
    }
    let buffer: Vec<u8> = b"\xC3\x28\x00".to_vec();
    let mut cursor = ReadCursor::new(&buffer);
    match cursor.extract_string().unwrap_err() {
        ParseError::Generic(message) => assert_eq!(message, "Can't parse UTF-8"),
        ParseError::NotEnoughData => panic!("a message was expected"),
    }
}

#[test]
fn extract_in_sequence() {
    let buffer: Vec<u8> = b"\x12\x34caf\xC3\xA9\x00\x00\xFF\xFE\x01".to_vec();
    let mut cursor = ReadCursor::new(&buffer);
    assert_eq!(cursor.extract_ushort().unwrap(), 0x1234);
    assert_eq!(cursor.extract_string().unwrap(), "caf\u{e9}");
    assert_eq!(cursor.extract_string().unwrap(), "");
    assert_eq!(cursor.extract_ushort().unwrap(), 0xFFFE);
    assert!(matches!(cursor.extract_ushort().unwrap_err(), ParseError::NotEnoughData));
    assert!(matches!(cursor.extract_string().unwrap_err(), ParseError::Generic(_)));
}

#[test]
fn generic_error_keeps_its_message() {
    match ParseError::generic("some text") {
        ParseError::Generic(message) => assert_eq!(message, "some text"),
        ParseError::NotEnoughData => panic!("a message was expected"),
    }
}

#[test]
fn put_ushort_writes_network_order() {
    let mut buffer = [0xEEu8; 5];
    let mut cursor = WriteCursor::new(&mut buffer);
    assert_eq!(cursor.put_ushort(0x0A0B).unwrap(), 2);
    assert_eq!(cursor.put_ushort(0xFF01).unwrap(), 4);
    let error = cursor.put_ushort(1).unwrap_err();
    assert_eq!(error.message, "Too little data left to write u16");
    assert_eq!(buffer, [0x0A, 0x0B, 0xFF, 0x01, 0xEE]);
}

#[test]
fn put_string_terminates_with_zero() {
    let mut buffer = [0xEEu8; 8];
    let mut cursor = WriteCursor::new(&mut buffer);
    assert_eq!(cursor.put_string("abc").unwrap(), 4);
    assert_eq!(cursor.put_string("").unwrap(), 5);
    assert_eq!(cursor.put_string("xy").unwrap(), 8);
    assert_eq!(buffer, [b'a', b'b', b'c', 0, 0, b'x', b'y', 0]);
}

#[test]
fn put_string_needs_room_for_the_terminator() {
    let mut buffer = [0xEEu8; 3];
    let mut cursor = WriteCursor::new(&mut buffer);
    let error = cursor.put_string("abc").unwrap_err();
    assert_eq!(
        error.message,
        "Too little data left to write a string 3 bytes size"
    );
    assert_eq!(cursor.put_string("ab").unwrap(), 3);
    assert_eq!(buffer, [b'a', b'b', 0]);
}

#[test]
fn buffer_error_text() {
    let error = BufferError::new("full");
    assert_eq!(error.message, "full");
    assert_eq!(error.to_string(), "<full>");
}
