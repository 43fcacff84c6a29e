use rtftp::fs::{FileError, OpenedFile};
use rtftp::messages::RequestOptions;
use rtftp::options::{
    negotiate_options, AckTimeout, Blksize, TSize, WindowSize, ACK_TIMEOUT_LIMIT, BLKSIZE, BLOCK_SIZE_LIMIT,
    TIMEOUT, TSIZE, WINDOW_SIZE, WINDOW_SIZE_LIMIT,
};

#[test]
fn options_find_block_size() {
    let mut options = RequestOptions::new();
    options.insert("blksize".to_string(), "1468".to_string());
    let blk_size = Blksize::find_in(&options).unwrap();
    assert_eq!(blk_size.get_size(), 1468);
    assert_eq!(
        blk_size.as_key_pair(),
        (BLKSIZE.to_string(), "1468".to_string())
    );
}

#[test]
fn options_find_tsize() {
    let mut options = RequestOptions::new();
    options.insert("tsize".to_string(), "0".to_string());
    assert!(TSize::is_requested(&options));
}

#[test]
fn options_find_timeout() {
    let mut options = RequestOptions::new();
    let timeout_value: usize = 10;
    options.insert("timeout".to_string(), timeout_value.to_string());
    let timeout = AckTimeout::find_in(&options).unwrap();
    assert_eq!(timeout.get_seconds(), timeout_value);
}

#[test]
fn options_test_timeout_cap() {
    let mut options = RequestOptions::new();
    options.insert("timeout".to_string(), (ACK_TIMEOUT_LIMIT + 1).to_string());
    let find_result = AckTimeout::find_in(&options);
    assert!(find_result.is_none());
}

#[test]
fn options_test_block_size_cap() {
    let mut options = RequestOptions::new();
    options.insert("blksize".to_string(), (BLOCK_SIZE_LIMIT + 1).to_string());
    let find_result = Blksize::find_in(&options);
    assert!(find_result.is_none());
}

#[test]
fn tests_find_block_size() {
    let mut options = RequestOptions::new();
    options.insert(BLKSIZE.to_string(), "1468".to_string());
    let blk_size = Blksize::find_in(&options).unwrap();
    assert_eq!(blk_size.get_size(), 1468);
    assert_eq!(
        blk_size.as_key_pair(),
        (BLKSIZE.to_string(), "1468".to_string())
    );
}

#[test]
fn tests_find_tsize() {
    let mut options = RequestOptions::new();
    options.insert(TSIZE.to_string(), "0".to_string());
    assert!(TSize::is_requested(&options));
}

#[test]
fn tests_find_timeout() {
    let mut options = RequestOptions::new();
    let timeout_value: usize = 10;
    options.insert(TIMEOUT.to_string(), timeout_value.to_string());
    let timeout = AckTimeout::find_in(&options).unwrap();
    assert_eq!(timeout.get_seconds(), timeout_value);
}

#[test]
fn tests_test_timeout_cap() {
    let mut options = RequestOptions::new();
    options.insert(TIMEOUT.to_string(), (ACK_TIMEOUT_LIMIT + 1).to_string());
    let find_result = AckTimeout::find_in(&options);
    assert!(find_result.is_none());
}

#[test]
fn tests_test_block_size_cap() {
    let mut options = RequestOptions::new();
    options.insert(BLKSIZE.to_string(), (BLOCK_SIZE_LIMIT + 1).to_string());
    let find_result = Blksize::find_in(&options);
    assert!(find_result.is_none());
}

fn offer(name: &str, value: &str) -> RequestOptions {
    let mut options = RequestOptions::new();
    options.insert(name.to_string(), value.to_string());
    options
}

#[test]
fn block_size_range() {
    assert!(Blksize::find_in(&offer("blksize", "7")).is_none());
    assert_eq!(Blksize::find_in(&offer("blksize", "8")).unwrap().get_size(), 8);
    assert_eq!(Blksize::find_in(&offer("blksize", "65535")).unwrap().get_size(), 65535);
    assert!(Blksize::find_in(&offer("blksize", "65536")).is_none());
    assert!(Blksize::find_in(&offer("blksize", "0")).is_none());
    assert!(Blksize::find_in(&offer("BLKSIZE", "512")).is_none());
    assert!(Blksize::find_in(&RequestOptions::new()).is_none());
    assert_eq!(Blksize::default().get_size(), 512);
}

#[test]
fn timeout_range() {
    assert!(AckTimeout::find_in(&offer("timeout", "0")).is_none());
    assert_eq!(AckTimeout::find_in(&offer("timeout", "1")).unwrap().get_seconds(), 1);
    assert_eq!(AckTimeout::find_in(&offer("timeout", "255")).unwrap().get_seconds(), 255);
    assert!(AckTimeout::find_in(&offer("timeout", "256")).is_none());
    assert!(AckTimeout::find_in(&offer("timeout", "300")).is_none());
    assert_eq!(AckTimeout::default().get_seconds(), 5);
    assert_eq!(
        AckTimeout::find_in(&offer("timeout", "61")).unwrap().as_key_pair(),
        ("timeout".to_string(), "61".to_string())
    );
}

#[test]
fn window_size_range() {
    assert!(WindowSize::find_in(&offer("windowsize", "0")).is_none());
    assert_eq!(WindowSize::find_in(&offer("windowsize", "1")).unwrap().get_size(), 1);
    assert_eq!(
        WindowSize::find_in(&offer(WINDOW_SIZE, "65535")).unwrap().get_size(),
        WINDOW_SIZE_LIMIT
    );
    assert!(WindowSize::find_in(&offer("windowsize", "65536")).is_none());
    assert_eq!(WindowSize::default().get_size(), 1);
    assert_eq!(
        WindowSize::find_in(&offer("windowsize", "3")).unwrap().as_key_pair(),
        ("windowsize".to_string(), "3".to_string())
    );
}

#[test]
fn numbers_are_read_as_the_standard_library_reads_them() {
    for text in ["", "+", "-8", " 8", "8 ", "0x10", "1e3", "12a", "١٢", "++8", "8+"] {
        assert!(Blksize::find_in(&offer("blksize", text)).is_none(), "{:?}", text);
        assert!(text.parse::<usize>().is_err(), "{:?}", text);
    }
    for text in ["+512", "0512", "000000000000000000000000000512", "512"] {
        assert_eq!(Blksize::find_in(&offer("blksize", text)).unwrap().get_size(), 512);
        assert_eq!(text.parse::<usize>().unwrap(), 512);
    }
    assert!(Blksize::find_in(&offer("blksize", "99999999999999999999999999")).is_none());
}

#[test]
fn accepted_values_are_echoed_in_shortest_form() {
    let block_size = Blksize::find_in(&offer("blksize", "+0100")).unwrap();
    assert_eq!(block_size.as_key_pair(), ("blksize".to_string(), "100".to_string()));
    assert!(!block_size.is_last(100));
    assert!(block_size.is_last(99));
    assert!(!block_size.is_last(101));
}

#[test]
fn transfer_size_pair() {
    assert_eq!(TSize::new(0).as_key_pair(), ("tsize".to_string(), "0".to_string()));
    assert_eq!(
        TSize::new(4194319).as_key_pair(),
        ("tsize".to_string(), "4194319".to_string())
    );
    assert_eq!(
        TSize::new(usize::MAX).as_key_pair(),
        ("tsize".to_string(), usize::MAX.to_string())
    );
    assert!(!TSize::is_requested(&RequestOptions::new()));
}

struct CountedFile {
    size: Result<usize, ()>,
    asked: usize,
}

impl OpenedFile for CountedFile {
    fn read_to(&mut self, _buffer: &mut [u8]) -> Result<usize, FileError> {
        Ok(0)
    }

    fn get_size(&mut self) -> Result<usize, FileError> {
        self.asked += 1;
        self.size.map_err(|_| FileError::AccessViolation)
    }
}

#[test]
fn the_size_is_what_the_file_tells() {
    let mut file = CountedFile { size: Ok(4194319), asked: 0 };
    let tsize = TSize::obtain(&mut file).unwrap();
    assert_eq!(tsize.as_key_pair(), ("tsize".to_string(), "4194319".to_string()));
    assert_eq!(file.asked, 1);
    let mut file = CountedFile { size: Ok(0), asked: 0 };
    assert_eq!(TSize::obtain(&mut file).unwrap().as_key_pair().1, "0");
    let mut file = CountedFile { size: Err(()), asked: 0 };
    assert!(matches!(TSize::obtain(&mut file), Err(FileError::AccessViolation)));
    assert_eq!(file.asked, 1);
}

#[test]
fn the_file_is_asked_for_its_size_only_on_request() {
    let mut file = CountedFile { size: Ok(77), asked: 0 };
    let negotiated = negotiate_options(&mut file, &offer("blksize", "100"));
    assert_eq!(file.asked, 0);
    assert_eq!(negotiated.block_size.get_size(), 100);
    let negotiated = negotiate_options(&mut file, &offer("tsize", "0"));
    assert_eq!(file.asked, 1);
    let mut buffer = [0u8; 32];
    let (length, _) = negotiated.oack.serialize(&mut buffer).unwrap();
    assert_eq!(&buffer[..length], b"\x00\x06tsize\x0077\x00");
    let mut file = CountedFile { size: Err(()), asked: 0 };
    let negotiated = negotiate_options(&mut file, &offer("tsize", "0"));
    assert_eq!(file.asked, 1);
    assert!(!negotiated.oack.has_options());
}
