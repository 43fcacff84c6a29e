use rtftp::fs_watch::{parse_events, InotifyEvent, Watch};

fn record(mask: u32, name: &[u8], padded: usize, little: bool) -> Vec<u8> {
    let word = |value: u32| if little { value.to_le_bytes() } else { value.to_be_bytes() };
    let mut bytes = Vec::new();
    bytes.extend_from_slice(&word(1));
    bytes.extend_from_slice(&word(mask));
    bytes.extend_from_slice(&word(0));
    bytes.extend_from_slice(&word(padded as u32));
    bytes.extend_from_slice(name);
    bytes.resize(16 + padded, 0);
    bytes
}

#[test]
fn watch_masks() {
    assert_eq!(Watch::new().mask(), 0);
    assert_eq!(Watch::new().change().mask(), libc::IN_CLOSE_WRITE | libc::IN_MOVED_TO);
    assert_eq!(Watch::new().removal().mask(), libc::IN_DELETE);
    assert_eq!(Watch::new().change().removal().mask(), 0x288);
    let written = InotifyEvent { mask: libc::IN_CLOSE_WRITE, file_name: None };
    assert_eq!((written.is_modify(), written.is_removal()), (true, false));
    let moved = InotifyEvent { mask: libc::IN_MOVED_TO | 0x4000_0000, file_name: None };
    assert_eq!((moved.is_modify(), moved.is_removal()), (true, false));
    let deleted = InotifyEvent { mask: libc::IN_DELETE, file_name: Some("x".to_string()) };
    assert_eq!((deleted.is_modify(), deleted.is_removal()), (false, true));
    let other = InotifyEvent { mask: libc::IN_CREATE, file_name: None };
    assert_eq!((other.is_modify(), other.is_removal()), (false, false));
    assert_eq!(other.file_name(), "");
    assert_eq!(deleted.file_name(), "x");
}

#[test]
fn kernel_records_are_read_in_order() {
    for little in [true, false] {
        let mut buffer = Vec::new();
        buffer.extend_from_slice(&record(0x8, b"first_file", 16, little));
        buffer.extend_from_slice(&record(0x200, b"", 0, little));
        buffer.extend_from_slice(&record(0x80, b"second_file\0junk", 16, little));
        buffer.extend_from_slice(&record(0x200, b"caf\xC3\xA9", 8, little));
        let complete = buffer.len();
        buffer.extend_from_slice(&record(0x8, b"cut", 16, little)[..20]);
        let events = parse_events(&buffer, buffer.len(), little);
        assert_eq!(events.len(), 4);
        assert_eq!(events[0].mask, 0x8);
        assert_eq!(events[0].file_name(), "first_file");
        assert!(events[1].file_name.is_none());
        assert_eq!(events[1].mask, 0x200);
        assert_eq!(events[2].file_name(), "second_file");
        assert_eq!(events[3].file_name(), "caf\u{e9}");
        assert_eq!(parse_events(&buffer, complete, little).len(), 4);
        assert_eq!(parse_events(&buffer, 31, little).len(), 0);
        assert_eq!(parse_events(&buffer, 32, little).len(), 1);
        assert_eq!(parse_events(&buffer, usize::MAX, little).len(), 4);
        assert_eq!(parse_events(&[], 0, little).len(), 0);
        let (event, size) = InotifyEvent::from(&buffer, little).ok().unwrap();
        assert_eq!((event.file_name(), size), ("first_file".to_string(), 32));
        assert!(InotifyEvent::from(&buffer[..15], little).is_err());
    }
}
