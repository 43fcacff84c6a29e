use rtftp::server::{handle_request, Routing};

#[test]
fn send_wrong_request_type() {
    let wrong_code_packet = b"\xAAoctet\x00irrelevant\x00";
    let mut buffer = [0u8; 1536];
    let bytes_read = match handle_request(wrong_code_packet, &mut buffer) {
        Routing::Reply(length) => length,
        other => panic!("unexpected {:?}", other),
    };
    assert_eq!(&buffer[..2], b"\x00\x05");
    assert_eq!(buffer[bytes_read - 1], 0);
    let error_message = std::str::from_utf8(&buffer[4..bytes_read - 1]);
    assert!(
        error_message
            .unwrap()
            .contains("Only RRQ is supported")
    );
}

#[test]
fn send_wrong_content_type() {
    let wrong_code_packet = b"\x00\x01email\x00irrelevant\x00";
    let mut buffer = [0u8; 1536];
    let bytes_read = match handle_request(wrong_code_packet, &mut buffer) {
        Routing::Reply(length) => length,
        other => panic!("unexpected {:?}", other),
    };
    assert_eq!(&buffer[..2], b"\x00\x05");
    assert_eq!(buffer[bytes_read - 1], 0);
    let error_message = std::str::from_utf8(&buffer[4..bytes_read - 1]);
    assert!(
        error_message
            .unwrap()
            .contains("Only octet mode is supported")
    );
}

#[test]
fn a_read_request_is_forwarded() {
    let mut buffer = [0xEEu8; 64];
    match handle_request(b"\x00\x01file.txt\x00octet\x00tsize\x000\x00", &mut buffer) {
        Routing::Forward(request) => {
            assert_eq!(request.filename, "file.txt");
            assert!(request.options.contains_key("tsize"));
        }
        other => panic!("unexpected {:?}", other),
    }
    assert_eq!(buffer, [0xEEu8; 64]);
}

#[test]
fn an_answer_that_does_not_fit_is_dropped() {
    let mut buffer = [0u8; 8];
    assert!(matches!(handle_request(b"\x00\x02x\x00octet\x00", &mut buffer), Routing::Drop));
    let mut buffer = [0xEEu8; 26];
    match handle_request(b"\x00\x02x\x00octet\x00", &mut buffer) {
        Routing::Reply(26) => assert_eq!(&buffer[..], b"\x00\x05\x00\x04Only RRQ is supported\x00"),
        other => panic!("unexpected {:?}", other),
    }
}
