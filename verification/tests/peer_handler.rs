use rtftp::fs::{open_file, resolve, trim_leading_slashes, FileError, OpenedFile, Resolution, Root};
use rtftp::messages::{ReadRequest, RequestOptions};
use rtftp::peer_handler::{
    comes_before, match_ip, plan_chain, sort_names, sorted_chain, Handled, PeerHandler,
    RootEntry,
    MAX_SESSIONS_PER_IP,
};

struct MemoryFile {
    content: Vec<u8>,
    offset: usize,
}

impl OpenedFile for MemoryFile {
    fn read_to(&mut self, buffer: &mut [u8]) -> Result<usize, FileError> {
        let count = buffer.len().min(self.content.len() - self.offset);
        buffer[..count].copy_from_slice(&self.content[self.offset..self.offset + count]);
        self.offset += count;
        Ok(count)
    }

    fn get_size(&mut self) -> Result<usize, FileError> {
        Ok(self.content.len())
    }
}

enum Answer {
    Holds(&'static str, &'static [u8]),
    Denies,
    Breaks,
    Puzzles,
}

struct MemoryRoot {
    answer: Answer,
}

impl Root for MemoryRoot {
    fn open(&self, path: &str) -> Result<Box<dyn OpenedFile>, FileError> {
        match &self.answer {
            Answer::Holds(name, content) if *name == path => {
                Ok(Box::new(MemoryFile { content: content.to_vec(), offset: 0 }))
            }
            Answer::Holds(_, _) => Err(FileError::FileNotFound),
            Answer::Denies => Err(FileError::AccessViolation),
            Answer::Breaks => Err(FileError::ReadError),
            Answer::Puzzles => Err(FileError::UnknownError("what".to_string())),
        }
    }
}

fn chain(answers: Vec<Answer>) -> Vec<Box<dyn Root>> {
    answers
        .into_iter()
        .map(|answer| Box::new(MemoryRoot { answer }) as Box<dyn Root>)
        .collect()
}

fn request(filename: &str) -> ReadRequest {
    ReadRequest { filename: filename.to_string(), options: RequestOptions::new() }
}

fn read_all(mut file: Box<dyn OpenedFile>) -> Vec<u8> {
    let mut buffer = [0u8; 64];
    let count = file.read_to(&mut buffer).unwrap();
    buffer[..count].to_vec()
}

#[test]
fn fallback_to_default_root() {
    let roots = chain(vec![Answer::Holds("other", b"peer"), Answer::Holds("x", b"default")]);
    let file = open_file(&request("x"), &roots).ok().unwrap();
    assert_eq!(read_all(file), b"default");
}

#[test]
fn peer_root_takes_precedence() {
    let roots = chain(vec![Answer::Holds("x", b"peer"), Answer::Holds("x", b"default")]);
    let file = open_file(&request("x"), &roots).ok().unwrap();
    assert_eq!(read_all(file), b"peer");
}

#[test]
fn leading_slashes_are_stripped_before_lookup() {
    let roots = chain(vec![Answer::Holds("file.txt", b"data")]);
    assert!(open_file(&request("/file.txt"), &roots).is_ok());
    assert!(open_file(&request("///file.txt"), &roots).is_ok());
    assert!(open_file(&request("file.txt/"), &roots).is_err());
    assert_eq!(trim_leading_slashes("//a/b/"), "a/b/");
    assert_eq!(trim_leading_slashes("///"), "");
    assert_eq!(trim_leading_slashes(""), "");
    assert_eq!(trim_leading_slashes("\u{e9}/"), "\u{e9}/");
}

#[test]
fn a_file_in_no_backend_is_not_found() {
    let roots = chain(vec![Answer::Holds("a", b""), Answer::Holds("b", b"")]);
    let error = open_file(&request("nonexisting.file"), &roots).err().unwrap();
    assert_eq!((error.error_code, error.message.as_str()), (1, "File not found"));
    let error = open_file(&request("x"), &chain(vec![])).err().unwrap();
    assert_eq!((error.error_code, error.message.as_str()), (1, "File not found"));
    let error = open_file(&request(""), &roots).err().unwrap();
    assert_eq!((error.error_code, error.message.as_str()), (1, "File not found"));
}

#[test]
fn a_failure_other_than_a_missing_file_ends_the_search() {
    let roots = chain(vec![Answer::Holds("a", b""), Answer::Denies, Answer::Holds("x", b"late")]);
    let error = open_file(&request("x"), &roots).err().unwrap();
    assert_eq!((error.error_code, error.message.as_str()), (2, "Access violation"));
    let roots = chain(vec![Answer::Breaks, Answer::Holds("x", b"late")]);
    let error = open_file(&request("x"), &roots).err().unwrap();
    assert_eq!((error.error_code, error.message.as_str()), (0, "Read error"));
    let roots = chain(vec![Answer::Puzzles, Answer::Holds("x", b"late")]);
    let error = open_file(&request("x"), &roots).err().unwrap();
    assert_eq!((error.error_code, error.message.as_str()), (0, "Server Error"));
}

#[test]
fn one_answer_at_a_time() {
    assert!(matches!(resolve(Err(FileError::FileNotFound)), Resolution::TryNext));
    assert!(matches!(resolve(Err(FileError::AccessViolation)), Resolution::Refused(_)));
    let file: Box<dyn OpenedFile> = Box::new(MemoryFile { content: vec![1], offset: 0 });
    match resolve(Ok(file)) {
        Resolution::Opened(file) => assert_eq!(read_all(file), [1]),
        _ => panic!("the file was expected"),
    }
}

#[test]
fn config_names_match_by_prefix() {
    assert!(match_ip("127.0.0.11.nbd", "127.0.0.11"));
    assert!(match_ip("127.0.0.11", "127.0.0.11"));
    assert!(match_ip("127.0.0.111.json", "127.0.0.11"));
    assert!(!match_ip("127.0.0.1.nbd", "127.0.0.11"));
    assert!(!match_ip("x127.0.0.11", "127.0.0.11"));
    assert!(!match_ip("", "127.0.0.11"));
    assert!(match_ip("anything", ""));
}

#[test]
fn chain_is_own_directory_then_described_then_default() {
    let names: Vec<String> = ["10.0.0.1.a", "10.0.0.2.nbd", "10.0.0.2.z.json", "README", "10.0.0.20"]
        .iter()
        .map(|name| name.to_string())
        .collect();
    let chain = plan_chain("10.0.0.2", &names);
    let plain: Vec<(bool, String)> = chain
        .into_iter()
        .map(|entry| match entry {
            RootEntry::Directory(name) => (false, name),
            RootEntry::Described(name) => (true, name),
        })
        .collect();
    assert_eq!(
        plain,
        vec![
            (false, "10.0.0.2".to_string()),
            (true, "10.0.0.2.nbd".to_string()),
            (true, "10.0.0.2.z.json".to_string()),
            (true, "10.0.0.20".to_string()),
            (false, "default".to_string()),
        ]
    );
    assert_eq!(plan_chain("10.0.0.9", &names).len(), 2);
    assert_eq!(plan_chain("10.0.0.9", &[]).len(), 2);
}

#[test]
fn a_repeated_request_is_ignored() {
    let roots = chain(vec![Answer::Holds("x", b"data")]);
    let mut handler = PeerHandler::new(0, 30);
    assert!(matches!(handler.handle_request(&request("x"), 4000, &[], &roots), Handled::Opened(_)));
    assert!(handler.has_session(4000));
    assert!(matches!(handler.handle_request(&request("x"), 4000, &[], &roots), Handled::Ignored));
    assert!(matches!(
        handler.handle_request(&request("x"), 4000, &[4000], &roots),
        Handled::Ignored
    ));
    assert_eq!(handler.session_count(), 1);
    assert!(matches!(handler.handle_request(&request("x"), 4001, &[4000], &roots), Handled::Opened(_)));
    assert!(!handler.has_session(4000));
    assert_eq!(handler.session_count(), 1);
}

#[test]
fn a_denied_request_leaves_no_session() {
    let roots = chain(vec![Answer::Holds("x", b"data")]);
    let mut handler = PeerHandler::new(0, 30);
    match handler.handle_request(&request("y"), 4000, &[], &roots) {
        Handled::Denied(error) => assert_eq!(error.message, "File not found"),
        _ => panic!("a denial was expected"),
    }
    assert!(!handler.has_session(4000));
    assert_eq!(handler.session_count(), 0);
}

#[test]
fn sessions_per_address_are_capped() {
    let roots = chain(vec![Answer::Holds("x", b"data")]);
    let mut handler = PeerHandler::new(0, 30);
    for port in 0..MAX_SESSIONS_PER_IP as u16 {
        assert!(matches!(
            handler.handle_request(&request("x"), 1000 + port, &[], &roots),
            Handled::Opened(_)
        ));
    }
    assert_eq!(handler.session_count(), 128);
    assert!(matches!(handler.handle_request(&request("x"), 1005, &[], &roots), Handled::Ignored));
    match handler.handle_request(&request("x"), 9000, &[], &roots) {
        Handled::Overflow(error) => {
            assert_eq!(error.error_code, 0);
            assert_eq!(error.message, "Maximum sessions per IP exceeded");
        }
        _ => panic!("an overflow was expected"),
    }
    assert_eq!(handler.session_count(), 128);
    assert!(matches!(
        handler.handle_request(&request("x"), 9000, &[1000, 1001, 7], &roots),
        Handled::Opened(_)
    ));
    assert_eq!(handler.session_count(), 127);
}

#[test]
fn an_idle_dispatcher_shuts_down_after_the_timeout() {
    let roots = chain(vec![Answer::Holds("x", b"data")]);
    let mut handler = PeerHandler::new(100, 30);
    assert!(!handler.idle_turn(101, &[]));
    assert!(!handler.idle_turn(130, &[]));
    assert!(handler.idle_turn(131, &[]));
    assert!(!handler.idle_turn(50, &[]));
    let mut handler = PeerHandler::new(100, 30);
    assert!(matches!(handler.handle_request(&request("x"), 4000, &[], &roots), Handled::Opened(_)));
    assert!(!handler.idle_turn(500, &[]));
    assert!(!handler.idle_turn(520, &[4000]));
    assert!(!handler.idle_turn(530, &[]));
    assert!(handler.idle_turn(531, &[]));
}

#[test]
fn names_are_sorted_by_their_bytes() {
    let names: Vec<String> = ["b", "a", "", "ab", "B", "a", "10.0.0.2.z", "10.0.0.2.nbd", "\u{e9}", "z"]
        .iter()
        .map(|name| name.to_string())
        .collect();
    let mut expected = names.clone();
    expected.sort();
    assert_eq!(sort_names(&names), expected);
    assert_eq!(sort_names(&[]), Vec::<String>::new());
    assert!(comes_before("", ""));
    assert!(comes_before("", "a"));
    assert!(!comes_before("a", ""));
    assert!(comes_before("a", "a"));
    assert!(comes_before("a", "ab"));
    assert!(!comes_before("ab", "a"));
    assert!(comes_before("Z", "a"));
    assert!(!comes_before("b", "a"));
}

#[test]
fn described_backends_are_asked_in_sorted_order() {
    let names: Vec<String> = ["10.0.0.2.z", "other", "10.0.0.2.a", "10.0.0.2"]
        .iter()
        .map(|name| name.to_string())
        .collect();
    let chain = plan_chain("10.0.0.2", &sort_names(&names));
    let described: Vec<String> = chain
        .into_iter()
        .filter_map(|entry| match entry {
            RootEntry::Described(name) => Some(name),
            RootEntry::Directory(_) => None,
        })
        .collect();
    assert_eq!(described, ["10.0.0.2", "10.0.0.2.a", "10.0.0.2.z"]);
}

#[test]
fn the_chain_is_laid_out_from_names_in_any_order() {
    let names: Vec<String> = ["10.0.0.2.z", "other", "10.0.0.2.a", "10.0.0.2", "10.0.0.1"]
        .iter()
        .map(|name| name.to_string())
        .collect();
    let plain: Vec<(bool, String)> = sorted_chain("10.0.0.2", &names)
        .into_iter()
        .map(|entry| match entry {
            RootEntry::Directory(name) => (false, name),
            RootEntry::Described(name) => (true, name),
        })
        .collect();
    assert_eq!(
        plain,
        vec![
            (false, "10.0.0.2".to_string()),
            (true, "10.0.0.2".to_string()),
            (true, "10.0.0.2.a".to_string()),
            (true, "10.0.0.2.z".to_string()),
            (false, "default".to_string()),
        ]
    );
    assert_eq!(sorted_chain("10.0.0.2", &[]).len(), 2);
}
