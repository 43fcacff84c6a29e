//! The remote backend: a disk behind an appliance, with partitions that are
//! mounted read-only and files that are read chunk by chunk. What the
//! appliance does is not decided here; what is made of its answers is.

use vstd::prelude::*;
use vstd::string::*;
use crate::cursor::overwrite;
use crate::fs::{FileError, OpenedFile, Root};
use crate::text::{
    contains, decimal_chars, decimal_text, encodings, lemma_utf8_concat, lines_from, lossy,
    lossy_text, occurs, occurs_at, split_lines, starts_with, utf8,
};

verus! {

pub const NO_SUCH_FILE: &'static str = "No such file or directory";

pub const FAILED_TO_CONNECT: &'static str = "Failed to connect to";

pub const CONNECTION_REFUSED: &'static str = "Connection refused";

pub const EXPORT_REPORTED: &'static str = "server reported: export ";

pub const NOT_PRESENT: &'static str = "not present";

pub const SHARE_NOT_FOUND: &'static str = "Share is not found on server: ";

pub const NO_PARTITION: &'static str = "Can't find a config for partition ";

pub const INVALID_URL: &'static str = "Invalid NBD URL: ";

pub const NBD_SCHEME: &'static str = "nbd://";

pub const UNKNOWN_FAILURE: &'static str = "Unknown";

pub const SEPARATOR: &'static str = "/";

pub const LINE_BREAK: &'static str = "\n";

/// What the appliance reports of a failure.
#[derive(Debug)]
pub enum GuestFSError {
    Generic(String),
    DiskNotFound(String),
    ConnectionRefused(String),
    ShareNotFound(String),
    Unknown,
}

/// Why a described backend could not be set up.
#[derive(Debug)]
pub enum VirtualRootError {
    ConfigError(String),
    SetupError(GuestFSError),
}

/// The text of a failure report.
pub open spec fn report_text(error: GuestFSError) -> Seq<char> {
    match error {
        GuestFSError::Generic(text) => text@,
        GuestFSError::DiskNotFound(text) => text@,
        GuestFSError::ConnectionRefused(text) => text@,
        GuestFSError::ShareNotFound(text) => text@,
        GuestFSError::Unknown => UNKNOWN_FAILURE@,
    }
}

impl GuestFSError {
    /// The text of the report.
    pub fn text(&self) -> (text: &str)
        ensures
            text@ == report_text(*self),
    {
        match self {
            GuestFSError::Generic(text) => text.as_str(),
            GuestFSError::DiskNotFound(text) => text.as_str(),
            GuestFSError::ConnectionRefused(text) => text.as_str(),
            GuestFSError::ShareNotFound(text) => text.as_str(),
            GuestFSError::Unknown => UNKNOWN_FAILURE,
        }
    }
}

/// What the appliance's failure to look at a file means to a transfer: the
/// file is missing where the report says so, anything else is unknown.
pub fn open_failure(error: &GuestFSError) -> (failure: FileError)
    ensures
        if occurs(utf8(report_text(*error)), utf8(NO_SUCH_FILE@)) {
            failure is FileNotFound
        } else {
            failure matches FileError::UnknownError(text) && text@ == report_text(*error)
        },
{
    let text = error.text();
    if contains(text, NO_SUCH_FILE) {
        FileError::FileNotFound
    } else {
        FileError::UnknownError(text.to_owned())
    }
}

/// What the appliance's failure to add a disk means: the disk is missing
/// where the message says so, anything else stays as it is.
pub fn disk_failure(message: String) -> (failure: GuestFSError)
    ensures
        if occurs(utf8(message@), utf8(NO_SUCH_FILE@)) {
            failure == GuestFSError::DiskNotFound(message)
        } else {
            failure == GuestFSError::Generic(message)
        },
{
    if contains(message.as_str(), NO_SUCH_FILE) {
        GuestFSError::DiskNotFound(message)
    } else {
        GuestFSError::Generic(message)
    }
}

/// Those of the lines that are not empty, in order.
pub open spec fn filled_lines(lines: Seq<Seq<u8>>) -> Seq<Seq<u8>>
    decreases lines.len(),
{
    if lines.len() == 0 {
        seq![]
    } else if lines.last().len() > 0 {
        filled_lines(lines.drop_last()).push(lines.last())
    } else {
        filled_lines(lines.drop_last())
    }
}

/// What the appliance wrote, line by line: each piece of its output is
/// read as text and cut into lines, and the empty lines are left out.
pub open spec fn appliance_output(events: Seq<Vec<u8>>) -> Seq<Seq<u8>>
    decreases events.len(),
{
    if events.len() == 0 {
        seq![]
    } else {
        appliance_output(events.drop_last()) + filled_lines(
            lines_from(utf8(lossy(events.last()@)), 0),
        )
    }
}

/// The lines of what the appliance wrote, in order, without the empty ones.
#[verifier::rlimit(30)]
pub fn appliance_lines(events: &[Vec<u8>]) -> (lines: Vec<String>)
    ensures
        encodings(lines@) == appliance_output(events@),
{
    let mut lines: Vec<String> = Vec::new();
    let mut i: usize = 0;
    assert(events@.subrange(0, 0) =~= Seq::<Vec<u8>>::empty());
    assert(encodings(lines@) =~= Seq::<Seq<u8>>::empty());
    while i < events.len()
        invariant
            i <= events@.len(),
            encodings(lines@) == appliance_output(events@.subrange(0, i as int)),
        decreases events@.len() - i,
    {
        let text = lossy_text(events[i].as_slice());
        let pieces = split_lines(text.as_str());
        let ghost done = encodings(lines@);
        let mut j: usize = 0;
        assert(encodings(pieces@).subrange(0, 0) =~= Seq::<Seq<u8>>::empty());
        assert(done + Seq::<Seq<u8>>::empty() =~= done);
        while j < pieces.len()
            invariant
                j <= pieces@.len(),
                encodings(lines@) == done + filled_lines(encodings(pieces@).subrange(0, j as int)),
            decreases pieces@.len() - j,
        {
            let ghost seen = encodings(pieces@).subrange(0, j as int);
            let ghost more = encodings(pieces@).subrange(0, j + 1);
            let ghost before = lines@;
            assert(more.drop_last() =~= seen);
            assert(more.last() == utf8(pieces@[j as int]@));
            let size = pieces[j].as_str().as_bytes().len();
            assert(size == more.last().len());
            if size > 0 {
                lines.push(pieces[j].clone());
                assert(encodings(lines@) =~= encodings(before).push(utf8(pieces@[j as int]@)));
                assert(done + filled_lines(seen).push(more.last()) =~= (done + filled_lines(
                    seen,
                )).push(more.last()));
            }
            assert(filled_lines(more) == if size > 0 {
                filled_lines(seen).push(more.last())
            } else {
                filled_lines(seen)
            });
            j = j + 1;
        }
        proof {
            assert(encodings(pieces@).subrange(0, j as int) =~= encodings(pieces@));
            let covered = events@.subrange(0, i + 1);
            assert(covered.drop_last() =~= events@.subrange(0, i as int));
            assert(covered.last() == events@[i as int]);
        }
        i = i + 1;
    }
    assert(events@.subrange(0, i as int) =~= events@);
    lines
}

/// What one line of the appliance's output tells of a failed launch.
#[derive(Clone, Copy, Debug, PartialEq, Eq, Structural)]
pub enum LineKind {
    /// The server refused the connection.
    Refused,
    /// The server has no such export.
    ExportMissing,
    /// Nothing that is known.
    Other,
}

/// What a line tells.
pub open spec fn line_kind(line: Seq<char>) -> LineKind {
    if occurs(utf8(line), utf8(FAILED_TO_CONNECT@)) && occurs(
        utf8(line),
        utf8(CONNECTION_REFUSED@),
    ) {
        LineKind::Refused
    } else if occurs(utf8(line), utf8(EXPORT_REPORTED@)) && occurs(
        utf8(line),
        utf8(NOT_PRESENT@),
    ) {
        LineKind::ExportMissing
    } else {
        LineKind::Other
    }
}

/// Judges one line of the appliance's output.
pub fn judge_line(line: &str) -> (kind: LineKind)
    ensures
        kind == line_kind(line@),
{
    if contains(line, FAILED_TO_CONNECT) && contains(line, CONNECTION_REFUSED) {
        LineKind::Refused
    } else if contains(line, EXPORT_REPORTED) && contains(line, NOT_PRESENT) {
        LineKind::ExportMissing
    } else {
        LineKind::Other
    }
}

/// The index of the first line that tells something, or the number of
/// lines where none does.
pub open spec fn first_telling(lines: Seq<String>, from: int) -> int
    decreases lines.len() - from,
{
    if from < 0 || from >= lines.len() {
        lines.len() as int
    } else if line_kind(lines[from]@) != LineKind::Other {
        from
    } else {
        first_telling(lines, from + 1)
    }
}

/// The lines joined, each after the first led by a line break.
pub open spec fn joined_lines(lines: Seq<String>) -> Seq<char>
    decreases lines.len(),
{
    if lines.len() == 0 {
        seq![]
    } else if lines.len() == 1 {
        lines[0]@
    } else {
        joined_lines(lines.drop_last()) + LINE_BREAK@ + lines.last()@
    }
}

/// What a failed launch of the appliance means, from what the appliance
/// wrote: the first line that tells of a refused connection or a missing
/// export decides; where none does, the failure carries all the lines.
#[verifier::rlimit(30)]
pub fn launch_failure(url: &str, appliance_errors: &[String]) -> (failure: GuestFSError)
    ensures
        ({
            let at = first_telling(appliance_errors@, 0);
            if at < appliance_errors@.len() {
                match line_kind(appliance_errors@[at]@) {
                    LineKind::Refused => failure matches GuestFSError::ConnectionRefused(text)
                        && text@ == url@,
                    LineKind::ExportMissing => failure matches GuestFSError::ShareNotFound(text)
                        && text@ == SHARE_NOT_FOUND@ + url@,
                    LineKind::Other => false,
                }
            } else {
                failure matches GuestFSError::Generic(text) && text@ == joined_lines(
                    appliance_errors@,
                )
            }
        }),
{
    let mut collected = String::new();
    let mut i: usize = 0;
    assert(appliance_errors@.subrange(0, 0) =~= Seq::<String>::empty());
    while i < appliance_errors.len()
        invariant
            i <= appliance_errors@.len(),
            first_telling(appliance_errors@, 0) == first_telling(appliance_errors@, i as int),
            collected@ == joined_lines(appliance_errors@.subrange(0, i as int)),
        decreases appliance_errors@.len() - i,
    {
        let line = appliance_errors[i].as_str();
        match judge_line(line) {
            LineKind::Refused => {
                return GuestFSError::ConnectionRefused(url.to_owned());
            },
            LineKind::ExportMissing => {
                return GuestFSError::ShareNotFound(String::from_str(SHARE_NOT_FOUND).concat(url));
            },
            LineKind::Other => {},
        }
        proof {
            let seen = appliance_errors@.subrange(0, i as int);
            let more = appliance_errors@.subrange(0, i + 1);
            assert(more.drop_last() =~= seen);
            assert(more.last() == appliance_errors@[i as int]);
            if i == 0 {
                assert(more[0] == appliance_errors@[0]);
            }
        }
        if i > 0 {
            collected.append(LINE_BREAK);
        }
        collected.append(line);
        i = i + 1;
    }
    assert(appliance_errors@.subrange(0, i as int) =~= appliance_errors@);
    GuestFSError::Generic(collected)
}

/// A partition of a remote disk, by the name of its device.
#[derive(Debug)]
pub struct Partition {
    pub device: String,
}

impl Partition {
    pub fn new(device: String) -> (partition: Self)
        ensures
            partition.device == device,
    {
        Self { device }
    }
}

/// Where a partition of a remote disk is to be mounted. Partitions are
/// counted from 1.
#[derive(Debug)]
pub struct Mount {
    pub partition: usize,
    pub mountpoint: String,
}

impl Mount {
    /// The partition that is to be mounted, of those that the disk has;
    /// an error where the disk has none of that number.
    pub fn mount_suitable<'a>(&self, available: &'a [Partition]) -> (outcome: Result<
        &'a Partition,
        VirtualRootError,
    >)
        ensures
            match outcome {
                Ok(partition) => 1 <= self.partition <= available@.len() && *partition
                    == available@[self.partition - 1],
                Err(error) => {
                    &&& !(1 <= self.partition <= available@.len())
                    &&& error matches VirtualRootError::ConfigError(text)
                    &&& text@ == NO_PARTITION@ + decimal_chars(self.partition as nat)
                },
            },
    {
        if 1 <= self.partition && self.partition <= available.len() {
            Ok(&available[self.partition - 1])
        } else {
            let number = decimal_text(self.partition);
            Err(
                VirtualRootError::ConfigError(
                    String::from_str(NO_PARTITION).concat(number.as_str()),
                ),
            )
        }
    }
}

/// The description of a backend on a network block device.
#[derive(Debug)]
pub struct NBDConfig {
    pub url: String,
    pub mounts: Vec<Mount>,
    pub tftp_root: String,
}

impl NBDConfig {
    /// Whether the description names a network block device: its address
    /// must begin with `nbd://`.
    pub fn check_url(&self) -> (outcome: Result<(), VirtualRootError>)
        ensures
            match outcome {
                Ok(_) => occurs_at(utf8(self.url@), utf8(NBD_SCHEME@), 0),
                Err(error) => {
                    &&& !occurs_at(utf8(self.url@), utf8(NBD_SCHEME@), 0)
                    &&& error matches VirtualRootError::ConfigError(text)
                    &&& text@ == INVALID_URL@ + self.url@
                },
            },
    {
        if starts_with(self.url.as_str(), NBD_SCHEME) {
            Ok(())
        } else {
            Err(
                VirtualRootError::ConfigError(
                    String::from_str(INVALID_URL).concat(self.url.as_str()),
                ),
            )
        }
    }
}

/// The path that `path` names under the directory `base`: `path` itself
/// where it starts at the root or `base` is empty, else `base`, a separator
/// unless `base` ends with one, and `path`.
pub open spec fn joined_path(base: Seq<u8>, path: Seq<u8>) -> Seq<u8> {
    if path.len() > 0 && path[0] == 0x2f {
        path
    } else if base.len() == 0 {
        path
    } else if base.last() == 0x2f {
        base + path
    } else {
        base + seq![0x2fu8] + path
    }
}

/// Joins a path to a directory as `Path::join` does for plain paths.
pub fn join_path(base: &str, path: &str) -> (joined: String)
    ensures
        utf8(joined@) == joined_path(utf8(base@), utf8(path@)),
{
    let base_bytes = base.as_bytes();
    let path_bytes = path.as_bytes();
    if path_bytes.len() > 0 && path_bytes[0] == 0x2f {
        path.to_owned()
    } else if base_bytes.len() == 0 {
        path.to_owned()
    } else if base_bytes[base_bytes.len() - 1] == 0x2f {
        proof {
            lemma_utf8_concat(base@, path@);
        }
        String::from_str(base).concat(path)
    } else {
        proof {
            reveal_strlit("/");
            assert(SEPARATOR@ =~= seq!['/']);
            assert(utf8(SEPARATOR@) =~= seq![0x2fu8]) by {
                vstd::utf8::is_ascii_chars_encode_utf8(SEPARATOR@);
            }
            lemma_utf8_concat(base@, SEPARATOR@);
            lemma_utf8_concat(base@ + SEPARATOR@, path@);
        }
        String::from_str(base).concat(SEPARATOR).concat(path)
    }
}

/// A disk that is connected and can open files by their absolute path.
pub trait ConnectedDisk {
    fn list_partitions(&mut self) -> (outcome: Result<Vec<Partition>, GuestFSError>)
    ;

    fn open(&self, absolute_path: &str) -> (outcome: Result<Box<dyn OpenedFile>, FileError>)
    ;
}

/// A directory of a connected disk that serves as a backend.
pub struct RemoteChroot<T: ConnectedDisk> {
    pub disk: T,
    pub path: String,
}

impl<T: ConnectedDisk> RemoteChroot<T> {
    pub fn new(disk: T, path: &str) -> (root: Self)
        ensures
            root.disk == disk,
            root.path@ == path@,
    {
        Self { disk, path: path.to_owned() }
    }
}

/// Whether `outcome` is an answer that the disk may give when it is asked
/// for the absolute path with these bytes.
pub open spec fn disk_may_answer<T: ConnectedDisk + ?Sized>(
    disk: &T,
    path: Seq<u8>,
    outcome: Result<Box<dyn OpenedFile>, FileError>,
) -> bool {
    exists|asked: &str| utf8(asked@) == path && #[trigger] call_ensures(T::open, (disk, asked), outcome)
}

impl<T: ConnectedDisk> Root for RemoteChroot<T> {
    /// Opens a file under the directory: the disk is asked for the path
    /// joined to the directory's, and what it answers is the outcome.
    fn open(&self, path: &str) -> (outcome: Result<Box<dyn OpenedFile>, FileError>)
        ensures
            disk_may_answer(&self.disk, joined_path(utf8(self.path@), utf8(path@)), outcome),
    {
        let absolute = join_path(self.path.as_str(), path);
        self.disk.open(absolute.as_str())
    }
}

/// A chunk of a remote file that was fetched and is handed out piece by
/// piece.
#[derive(Debug)]
pub struct FileChunk {
    buffer: Vec<u8>,
    offset: usize,
}

impl View for FileChunk {
    type V = Seq<u8>;

    /// The bytes that are still to be handed out.
    closed spec fn view(&self) -> Seq<u8> {
        self.buffer@.subrange(self.offset as int, self.buffer@.len() as int)
    }
}

/// The lesser of two numbers.
pub open spec fn lesser(a: int, b: int) -> int {
    if a <= b {
        a
    } else {
        b
    }
}

impl FileChunk {
    #[verifier::type_invariant]
    spec fn within(&self) -> bool {
        self.offset <= self.buffer@.len()
    }

    pub fn new(buffer: Vec<u8>) -> (chunk: Self)
        ensures
            chunk@ == buffer@,
    {
        let chunk = Self { buffer, offset: 0 };
        assert(chunk@ =~= buffer@);
        chunk
    }

    /// Copies to the start of `buffer` as many of the remaining bytes as it
    /// takes, and gives their number.
    pub fn fill(&mut self, buffer: &mut [u8]) -> (copied: usize)
        ensures
            copied == lesser(old(self)@.len() as int, old(buffer)@.len() as int),
            final(buffer)@ == overwrite(old(buffer)@, 0, old(self)@.take(copied as int)),
            final(self)@ == old(self)@.skip(copied as int),
    {
        proof {
            use_type_invariant(&*self);
        }
        let available = self.buffer.len() - self.offset;
        let count = if available <= buffer.len() {
            available
        } else {
            buffer.len()
        };
        let start = self.offset;
        let mut i: usize = 0;
        while i < count
            invariant
                i <= count,
                start + count <= self.buffer@.len() <= usize::MAX,
                count <= buffer@.len(),
                buffer@.len() == old(buffer)@.len(),
                self.offset == start,
                self.buffer@ == old(self).buffer@,
                buffer@ == overwrite(old(buffer)@, 0, old(self)@.take(i as int)),
            decreases count - i,
        {
            buffer[i] = self.buffer[start + i];
            assert(buffer@ =~= overwrite(old(buffer)@, 0, old(self)@.take(i + 1)));
            i = i + 1;
        }
        self.offset = start + count;
        assert(self@ =~= old(self)@.skip(count as int));
        count
    }
}

/// What a reader of a remote file knows.
pub struct ReaderModel {
    /// The size of the file as the appliance reported it.
    pub file_size: nat,
    /// How many bytes of the file were handed out, as far as that can be
    /// counted.
    pub offset: usize,
    /// The bytes that were fetched and not yet handed out.
    pub fetched: Seq<u8>,
}

/// How far a read got.
#[derive(Clone, Copy, Debug, PartialEq, Eq, Structural)]
pub enum ReadStep {
    /// The read is over, with so many bytes in the buffer.
    Done(usize),
    /// The fetched bytes are used up, with so many bytes in the buffer: the
    /// chunk at `offset` is to be fetched, and the read goes on.
    Fetch { offset: usize, read: usize },
}

impl ReaderModel {
    /// How many bytes a read hands out: none where the file is at its end
    /// or the buffer is full, else what is fetched, as far as the buffer
    /// has room.
    pub open spec fn hands_out(self, room: nat) -> nat {
        if self.offset >= self.file_size || room == 0 {
            0
        } else {
            lesser(self.fetched.len() as int, room as int) as nat
        }
    }
}

/// A remote file that is read through chunks.
#[derive(Debug)]
pub struct FileReader {
    path: String,
    file_size: usize,
    current_offset: usize,
    chunk: FileChunk,
}

impl View for FileReader {
    type V = ReaderModel;

    closed spec fn view(&self) -> ReaderModel {
        ReaderModel {
            file_size: self.file_size as nat,
            offset: self.current_offset,
            fetched: self.chunk@,
        }
    }
}

impl FileReader {
    /// A reader at the start of the file, with the file's first chunk.
    pub fn open(path: String, file_size: usize, first_chunk: Vec<u8>) -> (reader: Self)
        ensures
            reader@ == (ReaderModel { file_size: file_size as nat, offset: 0, fetched: first_chunk@ }),
            reader.path() == path@,
    {
        Self { path, file_size, current_offset: 0, chunk: FileChunk::new(first_chunk) }
    }

    /// The path of the file on the disk.
    pub closed spec fn path(&self) -> Seq<char> {
        self.path@
    }

    pub fn get_path(&self) -> (path: &str)
        ensures
            path@ == self.path(),
    {
        self.path.as_str()
    }

    pub fn get_size(&self) -> (size: usize)
        ensures
            size == self@.file_size,
    {
        self.file_size
    }

    /// Goes on with a read into `buffer`, of which the first `read` bytes
    /// are filled: hands out fetched bytes as far as the buffer has room and
    /// says whether the read is over or a chunk is to be fetched.
    #[verifier::rlimit(30)]
    pub fn read_buffered(&mut self, buffer: &mut [u8], read: usize) -> (step: ReadStep)
        ensures
            final(self).path() == old(self).path(),
            final(buffer)@.len() == old(buffer)@.len(),
            ({
                let before = old(self)@;
                let room = if read <= old(buffer)@.len() {
                    (old(buffer)@.len() - read) as nat
                } else {
                    0nat
                };
                let count = before.hands_out(room);
                let filled = read + count;
                let offset = before.offset.saturating_add(count as usize);
                &&& final(self)@ == (ReaderModel {
                    offset,
                    fetched: before.fetched.skip(count as int),
                    ..before
                })
                &&& count > 0 ==> final(buffer)@ == overwrite(
                    old(buffer)@,
                    read as int,
                    before.fetched.take(count as int),
                )
                &&& count == 0 ==> final(buffer)@ == old(buffer)@
                &&& step == if offset < before.file_size && filled < old(buffer)@.len() {
                    ReadStep::Fetch { offset, read: filled as usize }
                } else {
                    ReadStep::Done(filled as usize)
                }
            }),
    {
        let mut filled = read;
        if self.current_offset < self.file_size && read < buffer.len() {
            let ghost before = buffer@;
            let (head, tail) = buffer.split_at_mut(read);
            let copied = self.chunk.fill(tail);
            filled = read + copied;
            self.current_offset = self.current_offset.saturating_add(copied);
            assert(buffer@ =~= overwrite(before, read as int, old(self)@.fetched.take(copied as int)));
            assert(copied == 0 ==> buffer@ =~= before);
        } else {
            assert(old(self)@.fetched.skip(0) =~= old(self)@.fetched);
        }
        if self.current_offset < self.file_size && filled < buffer.len() {
            ReadStep::Fetch { offset: self.current_offset, read: filled }
        } else {
            ReadStep::Done(filled)
        }
    }

    /// Takes the chunk that was fetched. An empty chunk is the end of the
    /// data: it changes nothing, and the answer is `false`.
    pub fn buffer_new_chunk(&mut self, next_chunk: Vec<u8>) -> (has_data: bool)
        ensures
            has_data == (next_chunk@.len() > 0),
            final(self).path() == old(self).path(),
            final(self)@ == if has_data {
                (ReaderModel { fetched: next_chunk@, ..old(self)@ })
            } else {
                old(self)@
            },
    {
        if next_chunk.is_empty() {
            false
        } else {
            self.chunk = FileChunk::new(next_chunk);
            true
        }
    }
}

} // verus!
