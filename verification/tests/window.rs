use rtftp::fs::{FileError, OpenedFile};
use rtftp::window::Window;

#[test]
fn window_stores_and_releases_blocks() {
    let mut window = Window::new(4, 3);
    assert_eq!((window.size(), window.block_size(), window.outstanding(), window.first_block()), (3, 4, 0, 1));
    assert!(!window.store_block(b"abcd"));
    assert!(!window.store_block(b"efgh"));
    assert!(window.store_block(b"ij"));
    assert_eq!(window.outstanding(), 3);
    assert_eq!(window.datagram(0).unwrap(), b"\x00\x03\x00\x01abcd");
    assert_eq!(window.datagram(2).unwrap(), b"\x00\x03\x00\x03ij");
    assert!(window.datagram(3).is_none());
    assert!(!window.acknowledge(0));
    assert!(!window.acknowledge(4));
    assert_eq!(window.outstanding(), 3);
    assert!(window.acknowledge(2));
    assert_eq!((window.outstanding(), window.first_block()), (1, 3));
    assert_eq!(window.datagram(0).unwrap(), b"\x00\x03\x00\x03ij");
    assert!(!window.acknowledge(2));
    assert!(window.acknowledge(3));
    assert_eq!((window.outstanding(), window.first_block()), (0, 4));
    assert!(!window.acknowledge(4));
    assert!(window.store_block(b""));
    assert_eq!(window.datagram(0).unwrap(), b"\x00\x03\x00\x04");
}

#[test]
fn window_wraps_through_zero() {
    let mut window = Window::new(1, 3);
    for _ in 0..65533u32 {
        window.store_block(b"x");
        let first = window.first_block();
        assert!(window.acknowledge(first));
    }
    assert_eq!(window.first_block(), 65534);
    window.store_block(b"a");
    window.store_block(b"b");
    window.store_block(b"c");
    assert_eq!(window.datagram(0).unwrap(), b"\x00\x03\xFF\xFEa");
    assert_eq!(window.datagram(1).unwrap(), b"\x00\x03\xFF\xFFb");
    assert_eq!(window.datagram(2).unwrap(), b"\x00\x03\x00\x00c");
    assert!(!window.acknowledge(1));
    assert!(!window.acknowledge(65533));
    assert!(window.acknowledge(65535));
    assert_eq!((window.outstanding(), window.first_block()), (1, 0));
    assert_eq!(window.datagram(0).unwrap(), b"\x00\x03\x00\x00c");
    window.store_block(b"d");
    assert_eq!(window.datagram(1).unwrap(), b"\x00\x03\x00\x01d");
    assert!(window.acknowledge(1));
    assert_eq!((window.outstanding(), window.first_block()), (0, 2));
}

struct ScriptedFile {
    answers: Vec<Result<(usize, u8), FileError>>,
    asked: Vec<Vec<u8>>,
}

impl OpenedFile for ScriptedFile {
    fn read_to(&mut self, buffer: &mut [u8]) -> Result<usize, FileError> {
        self.asked.push(buffer.to_vec());
        match self.answers.remove(0) {
            Ok((count, fill)) => {
                for byte in buffer.iter_mut() {
                    *byte = fill;
                }
                Ok(count)
            }
            Err(error) => Err(error),
        }
    }

    fn get_size(&mut self) -> Result<usize, FileError> {
        Err(FileError::ReadError)
    }
}

#[test]
fn a_block_is_what_the_file_put_into_a_buffer_of_one_block() {
    let mut file = ScriptedFile {
        answers: vec![
            Ok((4, b'a')),
            Err(FileError::AccessViolation),
            Ok((5, b'b')),
            Ok((usize::MAX, b'c')),
            Ok((3, b'd')),
            Ok((0, b'e')),
        ],
        asked: vec![],
    };
    let mut window = Window::new(4, 8);
    assert_eq!(window.push_block(&mut file).ok(), Some((4, false)));
    assert_eq!(window.datagram(0).unwrap(), b"\x00\x03\x00\x01aaaa");
    assert!(matches!(window.push_block(&mut file), Err(FileError::AccessViolation)));
    assert!(matches!(window.push_block(&mut file), Err(FileError::ReadError)));
    assert!(matches!(window.push_block(&mut file), Err(FileError::ReadError)));
    assert_eq!(window.outstanding(), 1);
    assert_eq!(window.push_block(&mut file).ok(), Some((3, true)));
    assert_eq!(window.datagram(1).unwrap(), b"\x00\x03\x00\x02ddd");
    assert_eq!(window.push_block(&mut file).ok(), Some((0, true)));
    assert_eq!(window.datagram(2).unwrap(), b"\x00\x03\x00\x03");
    assert_eq!(window.outstanding(), 3);
    assert_eq!(file.asked.len(), 6);
    for buffer in &file.asked {
        assert_eq!(buffer, &[0u8; 4]);
    }
}
