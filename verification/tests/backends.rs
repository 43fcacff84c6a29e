use rtftp::fs::{FileError, OpenedFile, Root};
use rtftp::messages::{ReadRequest, RequestOptions};
use rtftp::remote_fs::{ConnectedDisk, RemoteChroot};
use std::cell::RefCell;
use rtftp::local_fs::{local_error_map, Failure, FailureKind, LocalRoot};
use rtftp::remote_fs::{
    appliance_lines, disk_failure, join_path, judge_line, launch_failure, open_failure,
    FileChunk, FileReader, GuestFSError, LineKind, Mount, NBDConfig, Partition, ReadStep,
    VirtualRootError,
};
use rtftp::text::split_lines;

/// Attaching a disk as the program does it, with the appliance's part
/// played by what it would have done: whether it launched, and what it
/// wrote.
fn attach_nbd_disk(url: &str, launched: bool, written: &[Vec<u8>]) -> Result<(), GuestFSError> {
    let appliance_output = appliance_lines(written);
    if launched {
        Ok(())
    } else {
        Err(launch_failure(url, &appliance_output))
    }
}

#[test]
fn test_add_invalid_url() {
    let non_existent_nbd_url = "nbd://127.1.1.1:1/invalid";
    let written = vec![
        b"qemu-system-x86_64: -drive id=nbd0,file=nbd://127.1.1.1:1/invalid,format=raw,if=none,readonly=on: Failed to connect to '127.1.1.1:1': Connection refused\n".to_vec(),
    ];
    let result = attach_nbd_disk(non_existent_nbd_url, false, &written);
    assert!(result.is_err());
    assert!(matches!(
        result.err().unwrap(),
        GuestFSError::ConnectionRefused(_)
    ))
}

#[test]
fn launch_failures_by_the_first_telling_line() {
    let lines: Vec<String> = [
        "booting",
        "warning: Connection refused somewhere",
        "qemu: Failed to open: server reported: export 'nope' not present",
        "qemu: Failed to connect to host: Connection refused",
    ]
    .iter()
    .map(|line| line.to_string())
    .collect();
    match launch_failure("nbd://h/nope", &lines) {
        GuestFSError::ShareNotFound(text) => {
            assert_eq!(text, "Share is not found on server: nbd://h/nope")
        }
        other => panic!("unexpected {:?}", other),
    }
    match launch_failure("nbd://h/x", &lines[3..]) {
        GuestFSError::ConnectionRefused(text) => assert_eq!(text, "nbd://h/x"),
        other => panic!("unexpected {:?}", other),
    }
    match launch_failure("nbd://h/x", &lines[..2]) {
        GuestFSError::Generic(text) => {
            assert_eq!(text, "booting\nwarning: Connection refused somewhere")
        }
        other => panic!("unexpected {:?}", other),
    }
    match launch_failure("nbd://h/x", &lines[..1]) {
        GuestFSError::Generic(text) => assert_eq!(text, "booting"),
        other => panic!("unexpected {:?}", other),
    }
    match launch_failure("nbd://h/x", &[]) {
        GuestFSError::Generic(text) => assert_eq!(text, ""),
        other => panic!("unexpected {:?}", other),
    }
    assert_eq!(judge_line("Failed to connect to"), LineKind::Other);
    assert_eq!(judge_line("not present: server reported: export "), LineKind::ExportMissing);
}

#[test]
fn appliance_failures_on_open() {
    let missing = GuestFSError::Generic("stat: /boot/x: No such file or directory".to_string());
    assert!(matches!(open_failure(&missing), FileError::FileNotFound));
    let other = GuestFSError::Generic("stat: input/output error".to_string());
    match open_failure(&other) {
        FileError::UnknownError(text) => assert_eq!(text, "stat: input/output error"),
        unexpected => panic!("unexpected {:?}", unexpected),
    }
    match open_failure(&GuestFSError::Unknown) {
        FileError::UnknownError(text) => assert_eq!(text, "Unknown"),
        unexpected => panic!("unexpected {:?}", unexpected),
    }
    assert!(matches!(
        disk_failure("/nonexisting.qcow2: No such file or directory".to_string()),
        GuestFSError::DiskNotFound(_)
    ));
    assert!(matches!(disk_failure("busy".to_string()), GuestFSError::Generic(_)));
}

#[test]
fn mounts_name_partitions_from_one() {
    let available = vec![
        Partition::new("/dev/sda1".to_string()),
        Partition::new("/dev/sda2".to_string()),
    ];
    let mount = Mount { partition: 2, mountpoint: "/".to_string() };
    assert_eq!(mount.mount_suitable(&available).unwrap().device, "/dev/sda2");
    let mount = Mount { partition: 1, mountpoint: "/boot".to_string() };
    assert_eq!(mount.mount_suitable(&available).unwrap().device, "/dev/sda1");
    for number in [0usize, 3, usize::MAX] {
        let mount = Mount { partition: number, mountpoint: "/".to_string() };
        match mount.mount_suitable(&available).unwrap_err() {
            VirtualRootError::ConfigError(text) => {
                assert_eq!(text, format!("Can't find a config for partition {}", number))
            }
            other => panic!("unexpected {:?}", other),
        }
    }
}

#[test]
fn a_described_backend_must_be_a_network_block_device() {
    let config = |url: &str| NBDConfig {
        url: url.to_string(),
        mounts: vec![],
        tftp_root: "/boot".to_string(),
    };
    assert!(config("nbd://127.0.0.1:1000/arbitrary").check_url().is_ok());
    assert!(config("nbd://").check_url().is_ok());
    for url in ["http://127.0.0.1/", "nbd:/x", "NBD://x", "", " nbd://x"] {
        match config(url).check_url().unwrap_err() {
            VirtualRootError::ConfigError(text) => {
                assert_eq!(text, format!("Invalid NBD URL: {}", url))
            }
            other => panic!("unexpected {:?}", other),
        }
    }
}

#[test]
fn paths_are_joined_as_the_standard_library_joins_them() {
    for (base, path) in [
        ("/boot", "aligned.file"),
        ("/boot/", "aligned.file"),
        ("/boot", ""),
        ("", "a"),
        ("", ""),
        ("/", "a/b"),
        ("/boot", "/etc/passwd"),
        ("rel", "x"),
        ("/b\u{f6}\u{f6}t", "\u{e9}"),
    ] {
        let expected = std::path::Path::new(base).join(path);
        assert_eq!(join_path(base, path), expected.to_str().unwrap(), "{:?} {:?}", base, path);
    }
}

#[test]
fn a_chunk_is_handed_out_piece_by_piece() {
    let mut chunk = FileChunk::new(vec![1, 2, 3, 4, 5]);
    let mut buffer = [0xEEu8; 3];
    assert_eq!(chunk.fill(&mut buffer), 3);
    assert_eq!(buffer, [1, 2, 3]);
    let mut buffer = [0xEEu8; 3];
    assert_eq!(chunk.fill(&mut buffer), 2);
    assert_eq!(buffer, [4, 5, 0xEE]);
    assert_eq!(chunk.fill(&mut buffer), 0);
    assert_eq!(buffer, [4, 5, 0xEE]);
    let mut empty: [u8; 0] = [];
    assert_eq!(FileChunk::new(vec![9]).fill(&mut empty), 0);
}

fn read_through(reader: &mut FileReader, chunks: &mut Vec<Vec<u8>>, buffer: &mut [u8]) -> usize {
    let mut read = 0;
    loop {
        match reader.read_buffered(buffer, read) {
            ReadStep::Done(count) => return count,
            ReadStep::Fetch { offset: _, read: so_far } => {
                read = so_far;
                let next = if chunks.is_empty() { vec![] } else { chunks.remove(0) };
                if !reader.buffer_new_chunk(next) {
                    return read;
                }
            }
        }
    }
}

#[test]
fn a_remote_file_is_read_through_chunks() {
    let content: Vec<u8> = (0..23u8).collect();
    let mut chunks: Vec<Vec<u8>> = content.chunks(5).map(|chunk| chunk.to_vec()).collect();
    let first = chunks.remove(0);
    let mut reader = FileReader::open("/boot/f".to_string(), content.len(), first);
    assert_eq!(reader.get_size(), 23);
    assert_eq!(reader.get_path(), "/boot/f");
    let mut received = Vec::new();
    loop {
        let mut buffer = [0u8; 8];
        let count = read_through(&mut reader, &mut chunks, &mut buffer);
        received.extend_from_slice(&buffer[..count]);
        if count < buffer.len() {
            break;
        }
    }
    assert_eq!(received, content);
    let mut buffer = [0u8; 8];
    assert_eq!(read_through(&mut reader, &mut chunks, &mut buffer), 0);
}

#[test]
fn a_read_asks_for_the_chunk_at_its_offset() {
    let mut reader = FileReader::open("f".to_string(), 10, vec![1, 2, 3]);
    let mut buffer = [0u8; 8];
    assert_eq!(
        reader.read_buffered(&mut buffer, 0),
        ReadStep::Fetch { offset: 3, read: 3 }
    );
    assert!(reader.buffer_new_chunk(vec![4, 5, 6, 7, 8, 9]));
    assert_eq!(reader.read_buffered(&mut buffer, 3), ReadStep::Done(8));
    assert_eq!(buffer, [1, 2, 3, 4, 5, 6, 7, 8]);
    assert_eq!(reader.read_buffered(&mut buffer, 0), ReadStep::Fetch { offset: 9, read: 1 });
    assert!(!reader.buffer_new_chunk(vec![]));
    assert_eq!(reader.read_buffered(&mut buffer, 9), ReadStep::Done(9));
}

#[test]
fn failures_of_the_operating_system() {
    let failure = |kind: FailureKind| Failure { kind, text: "odd".to_string() };
    assert!(matches!(local_error_map(failure(FailureKind::NotFound)), FileError::FileNotFound));
    assert!(matches!(
        local_error_map(failure(FailureKind::PermissionDenied)),
        FileError::AccessViolation
    ));
    assert!(matches!(local_error_map(failure(FailureKind::UnexpectedEof)), FileError::ReadError));
    assert!(matches!(local_error_map(failure(FailureKind::Unsupported)), FileError::ReadError));
    match local_error_map(Failure { kind: FailureKind::Other, text: "too slow".to_string() }) {
        FileError::UnknownError(text) => assert_eq!(text, "too slow"),
        other => panic!("unexpected {:?}", other),
    }
}

#[test]
fn a_file_is_served_only_from_within_the_root() {
    let root = LocalRoot::new("/srv/tftp/127.0.0.11".to_string());
    assert!(root.confine("/srv/tftp/127.0.0.11/file.txt").is_ok());
    assert!(root.confine("/srv/tftp/127.0.0.11/a/b").is_ok());
    assert!(root.confine("/srv/tftp/127.0.0.11").is_ok());
    for outside in [
        "/srv/tftp/127.0.0.111/file.txt",
        "/srv/tftp/127.0.0.1",
        "/srv/tftp",
        "/etc/passwd",
        "",
        "srv/tftp/127.0.0.11/file.txt",
    ] {
        assert!(matches!(root.confine(outside), Err(FileError::AccessViolation)), "{:?}", outside);
    }
    let top = LocalRoot::new("/".to_string());
    assert!(top.confine("/etc/passwd").is_ok());
    assert!(top.confine("/").is_ok());
    assert_eq!(root.relative("//file.txt"), "file.txt");
    assert_eq!(root.path, "/srv/tftp/127.0.0.11");
}

#[test]
fn test_add_non_existing_share_disk() {
    let non_existing_share = "non_existing_share";
    let url_prefix = "nbd://127.0.0.2:10809";
    let non_exising_share = vec![url_prefix, non_existing_share].join("/");
    let written = vec![
        b"qemu-system-x86_64: -drive id=nbd0,file=nbd://127.0.0.2:10809/non_existing_share,format=raw,if=none,readonly=on: Requested export not available\nserver reported: export 'non_existing_share' not present\n".to_vec(),
    ];
    let result = attach_nbd_disk(&non_exising_share, false, &written);
    assert!(result.is_err(), "Unexpected success received");
    assert!(matches!(
        result.err().unwrap(),
        GuestFSError::ShareNotFound(_)
    ))
}

#[test]
fn test_add_non_existing_disk() {
    let message = "/nonexisting.qcow2: No such file or directory".to_string();
    let result: Result<(), GuestFSError> = Err(disk_failure(message));
    assert!(result.is_err(), "Unexpected success received");
    assert!(matches!(result.err().unwrap(), GuestFSError::DiskNotFound(_)))
}

#[test]
fn lines_are_cut_as_the_standard_library_cuts_them() {
    for text in [
        "",
        "a",
        "a\n",
        "a\nb",
        "a\r\nb\r\n",
        "a\rb",
        "a\r",
        "\r\n",
        "\n",
        "\n\n",
        "a\n\nb",
        "\r",
        "\r\r\n",
        "a\r\n\r\nb",
        "caf\u{e9}\n\u{fffd}x\r\n\u{1f600}",
        "one\ntwo\nthree\n",
    ] {
        let expected: Vec<String> = text.lines().map(|line| line.to_string()).collect();
        assert_eq!(split_lines(text), expected, "{:?}", text);
    }
}

#[test]
fn appliance_output_is_read_line_by_line() {
    let events = vec![
        b"first\n\nsecond\r\n".to_vec(),
        b"".to_vec(),
        b"\n".to_vec(),
        b"bro\xFFken\nlast".to_vec(),
    ];
    let expected: Vec<String> = events
        .iter()
        .map(|event| String::from_utf8_lossy(event).to_string())
        .flat_map(|s| s.lines().map(|line| line.to_string()).collect::<Vec<_>>())
        .filter(|s| !s.is_empty())
        .collect();
    assert_eq!(appliance_lines(&events), expected);
    assert_eq!(expected, ["first", "second", "bro\u{fffd}ken", "last"]);
    assert!(appliance_lines(&[]).is_empty());
}

struct NamedFile {
    name: String,
}

impl OpenedFile for NamedFile {
    fn read_to(&mut self, buffer: &mut [u8]) -> Result<usize, FileError> {
        let count = buffer.len().min(self.name.len());
        buffer[..count].copy_from_slice(&self.name.as_bytes()[..count]);
        Ok(count)
    }

    fn get_size(&mut self) -> Result<usize, FileError> {
        Ok(self.name.len())
    }
}

struct RecordingDisk {
    asked: RefCell<Vec<String>>,
}

impl ConnectedDisk for RecordingDisk {
    fn list_partitions(&mut self) -> Result<Vec<Partition>, GuestFSError> {
        Ok(vec![])
    }

    fn open(&self, absolute_path: &str) -> Result<Box<dyn OpenedFile>, FileError> {
        self.asked.borrow_mut().push(absolute_path.to_string());
        if absolute_path.ends_with("missing") {
            Err(FileError::FileNotFound)
        } else {
            Ok(Box::new(NamedFile { name: absolute_path.to_string() }))
        }
    }
}

impl Root for RecordingDisk {
    fn open(&self, path: &str) -> Result<Box<dyn OpenedFile>, FileError> {
        ConnectedDisk::open(self, path)
    }
}

#[test]
fn a_remote_directory_asks_its_disk_for_the_joined_path() {
    let root = RemoteChroot::new(RecordingDisk { asked: RefCell::new(vec![]) }, "/boot");
    let mut file = root.open("aligned.file").ok().unwrap();
    assert_eq!(file.get_size().unwrap(), "/boot/aligned.file".len());
    let mut name = [0u8; 32];
    let count = file.read_to(&mut name).unwrap();
    assert_eq!(&name[..count], b"/boot/aligned.file");
    assert!(matches!(root.open("dir/missing"), Err(FileError::FileNotFound)));
    assert!(root.open("").is_ok());
    assert_eq!(
        *root.disk.asked.borrow(),
        ["/boot/aligned.file", "/boot/dir/missing", "/boot/"]
    );
}

#[test]
fn a_request_asks_a_backend_for_the_name_without_leading_slashes() {
    let disk = RecordingDisk { asked: RefCell::new(vec![]) };
    let request = |filename: &str| ReadRequest {
        filename: filename.to_string(),
        options: RequestOptions::new(),
    };
    assert!(request("//boot/kernel").open_in(&disk).is_ok());
    assert!(matches!(request("/missing").open_in(&disk), Err(FileError::FileNotFound)));
    assert!(request("").open_in(&disk).is_ok());
    let boxed: Box<dyn Root> = Box::new(RecordingDisk { asked: RefCell::new(vec![]) });
    let mut file = request("/x/y").open_in(&*boxed).ok().unwrap();
    assert_eq!(file.get_size().unwrap(), 3);
    assert_eq!(*disk.asked.borrow(), ["boot/kernel", "missing", ""]);
}
