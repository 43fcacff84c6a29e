//! What a backend is to the server: something that opens a file by its
//! relative path, and an opened file that is read in chunks.

use vstd::prelude::*;
use vstd::utf8::*;
use vstd::string::*;
use crate::messages::{
    ReadRequest, TFTPError, ACCESS_VIOLATION, FILE_NOT_FOUND, UNDEFINED_ERROR,
};
use crate::text::utf8;

verus! {

pub const ACCESS_VIOLATION_TEXT: &'static str = "Access violation";

pub const READ_ERROR_TEXT: &'static str = "Read error";

pub const SERVER_ERROR_TEXT: &'static str = "Server Error";

pub const FILE_NOT_FOUND_TEXT: &'static str = "File not found";

/// Why a backend could not open or read a file.
#[derive(Debug)]
pub enum FileError {
    FileNotFound,
    AccessViolation,
    ReadError,
    UnknownError(String),
}

/// A file that a backend has opened for one transfer.
pub trait OpenedFile {
    /// Copies the next bytes of the file to the start of `buffer` and gives
    /// their number; zero at the end of the file.
    fn read_to(&mut self, buffer: &mut [u8]) -> (outcome: Result<usize, FileError>)
    ;

    fn get_size(&mut self) -> (outcome: Result<usize, FileError>)
    ;
}

/// A backend: a root under which files are looked up.
pub trait Root {
    fn open(&self, path: &str) -> (outcome: Result<Box<dyn OpenedFile>, FileError>)
    ;
}

/// The number of `/` bytes that `bytes` begins with.
pub open spec fn leading_slashes(bytes: Seq<u8>) -> int
    decreases bytes.len(),
{
    if bytes.len() > 0 && bytes[0] == 0x2f {
        1 + leading_slashes(bytes.drop_first())
    } else {
        0
    }
}

/// A request path as the backends see it: without its leading slashes.
pub open spec fn normalized(path: Seq<u8>) -> Seq<u8> {
    path.subrange(leading_slashes(path), path.len() as int)
}

/// A run of one-byte characters at the start of a text ends on a character
/// boundary.
proof fn lemma_boundary_after_ascii(bytes: Seq<u8>, upto: int)
    requires
        valid_utf8(bytes),
        0 <= upto <= bytes.len(),
        forall|i: int| 0 <= i < upto ==> bytes[i] <= 0x7f,
    ensures
        is_char_boundary(bytes, upto),
    decreases upto,
{
    if upto > 0 {
        let rest = pop_first_scalar(bytes);
        assert(bytes[0] <= 0x7f);
        assert(length_of_first_scalar(bytes) == 1);
        assert(rest == bytes.subrange(1, bytes.len() as int));
        assert forall|i: int| 0 <= i < upto - 1 implies rest[i] <= 0x7f by {
            assert(rest[i] == bytes[i + 1]);
        }
        lemma_boundary_after_ascii(rest, upto - 1);
    }
}

/// The path without its leading slashes.
pub fn trim_leading_slashes(path: &str) -> (trimmed: &str)
    ensures
        utf8(trimmed@) == normalized(utf8(path@)),
{
    let bytes = path.as_bytes();
    let mut count: usize = 0;
    assert(bytes@.subrange(0, bytes@.len() as int) =~= bytes@);
    while count < bytes.len() && bytes[count] == 0x2f
        invariant
            count <= bytes@.len(),
            leading_slashes(bytes@) == count + leading_slashes(
                bytes@.subrange(count as int, bytes@.len() as int),
            ),
            forall|i: int| 0 <= i < count ==> bytes@[i] == 0x2f,
        decreases bytes@.len() - count,
    {
        proof {
            let here = bytes@.subrange(count as int, bytes@.len() as int);
            assert(here.drop_first() =~= bytes@.subrange(count + 1, bytes@.len() as int));
        }
        count = count + 1;
    }
    proof {
        encode_utf8_valid_utf8(path@);
        lemma_boundary_after_ascii(bytes@, count as int);
    }
    let (_, trimmed) = path.split_at(count);
    trimmed
}

/// Whether `outcome` is an answer that the backend may give when it is
/// asked for the path with these bytes.
pub open spec fn may_answer<R: Root + ?Sized>(
    root: &R,
    path: Seq<u8>,
    outcome: Result<Box<dyn OpenedFile>, FileError>,
) -> bool {
    exists|asked: &str| utf8(asked@) == path && #[trigger] call_ensures(R::open, (root, asked), outcome)
}

impl ReadRequest {
    /// Opens the file of the request in one backend: the backend is asked
    /// for the file name without its leading slashes, and what it answers is
    /// the outcome.
    pub fn open_in<R: Root + ?Sized>(&self, filesystem: &R) -> (outcome: Result<
        Box<dyn OpenedFile>,
        FileError,
    >)
        ensures
            may_answer(filesystem, normalized(utf8(self.filename@)), outcome),
    {
        let normalized_path = trim_leading_slashes(self.filename.as_str());
        filesystem.open(normalized_path)
    }
}

/// What one backend's answer means for the search through the chain.
pub enum Resolution<F = Box<dyn OpenedFile>> {
    /// The backend holds the file.
    Opened(F),
    /// The backend does not hold the file: the next one is asked.
    TryNext,
    /// The search ends with this answer to the client.
    Refused(TFTPError),
}

/// Judges one backend's answer: a missing file passes the request on, any
/// other failure ends the search.
pub fn resolve(answer: Result<Box<dyn OpenedFile>, FileError>) -> (resolution: Resolution)
    ensures
        match answer {
            Ok(file) => resolution == Resolution::Opened(file),
            Err(FileError::FileNotFound) => resolution is TryNext,
            Err(FileError::AccessViolation) => resolution matches Resolution::Refused(error)
                && error.error_code == ACCESS_VIOLATION && error.message@
                == ACCESS_VIOLATION_TEXT@,
            Err(FileError::ReadError) => resolution matches Resolution::Refused(error)
                && error.error_code == UNDEFINED_ERROR && error.message@ == READ_ERROR_TEXT@,
            Err(FileError::UnknownError(_)) => resolution matches Resolution::Refused(error)
                && error.error_code == UNDEFINED_ERROR && error.message@ == SERVER_ERROR_TEXT@,
        },
        resolution matches Resolution::Opened(file) ==> answer == gives(file),
        resolution is TryNext ==> answer == Err::<Box<dyn OpenedFile>, FileError>(
            FileError::FileNotFound,
        ),
        resolution matches Resolution::Refused(error) ==> answer matches Err(failure)
            && refusal_of(failure, error),
{
    match answer {
        Ok(file) => {
            let resolution = Resolution::Opened(file);
            resolution
        },
        Err(FileError::FileNotFound) => Resolution::TryNext,
        Err(FileError::AccessViolation) => Resolution::Refused(
            TFTPError::new(ACCESS_VIOLATION_TEXT, ACCESS_VIOLATION),
        ),
        Err(FileError::ReadError) => Resolution::Refused(
            TFTPError::new(READ_ERROR_TEXT, UNDEFINED_ERROR),
        ),
        Err(FileError::UnknownError(_)) => Resolution::Refused(
            TFTPError::new(SERVER_ERROR_TEXT, UNDEFINED_ERROR),
        ),
    }
}

/// The answers that end a search without a file.
pub open spec fn is_refusal(error: TFTPError) -> bool {
    ||| error.error_code == ACCESS_VIOLATION && error.message@ == ACCESS_VIOLATION_TEXT@
    ||| error.error_code == UNDEFINED_ERROR && error.message@ == READ_ERROR_TEXT@
    ||| error.error_code == UNDEFINED_ERROR && error.message@ == SERVER_ERROR_TEXT@
}

/// Whether the backends before `upto` may all have answered that they lack
/// the file.
pub open spec fn passed_on(roots: Seq<Box<dyn Root>>, path: Seq<u8>, upto: int) -> bool {
    forall|i: int|
        0 <= i < upto ==> may_answer(
            &*#[trigger] roots[i],
            path,
            Err::<Box<dyn OpenedFile>, FileError>(FileError::FileNotFound),
        )
}

/// The answer that a backend's failure is to the client, where the failure
/// is not that of a missing file.
pub open spec fn refusal_of(failure: FileError, error: TFTPError) -> bool {
    match failure {
        FileError::FileNotFound => false,
        FileError::AccessViolation => error.error_code == ACCESS_VIOLATION && error.message@
            == ACCESS_VIOLATION_TEXT@,
        FileError::ReadError => error.error_code == UNDEFINED_ERROR && error.message@
            == READ_ERROR_TEXT@,
        FileError::UnknownError(_) => error.error_code == UNDEFINED_ERROR && error.message@
            == SERVER_ERROR_TEXT@,
    }
}

/// The answer of a backend that gives this file.
pub open spec fn gives<T>(file: T) -> Result<T, FileError> {
    Ok(file)
}

/// Whether a search through the chain may end with this answer of a
/// backend: a backend may give the answer, and all before that one may lack
/// the file.
pub open spec fn found_in(
    roots: Seq<Box<dyn Root>>,
    path: Seq<u8>,
    answer: Result<Box<dyn OpenedFile>, FileError>,
) -> bool {
    exists|at: int|
        {
            &&& 0 <= at < roots.len()
            &&& passed_on(roots, path, at)
            &&& #[trigger] may_answer(&*roots[at], path, answer)
        }
}

/// Whether a search through the chain may end with this answer to the
/// client: all backends may lack the file and the answer is "File not
/// found", or a backend may fail otherwise, all before it may lack the file,
/// and the answer is the one to that failure.
pub open spec fn refused_by(roots: Seq<Box<dyn Root>>, path: Seq<u8>, error: TFTPError) -> bool {
    ||| {
        &&& passed_on(roots, path, roots.len() as int)
        &&& error.error_code == FILE_NOT_FOUND
        &&& error.message@ == FILE_NOT_FOUND_TEXT@
    }
    ||| exists|at: int, failure: FileError|
        {
            &&& 0 <= at < roots.len()
            &&& passed_on(roots, path, at)
            &&& #[trigger] may_answer(
                &*roots[at],
                path,
                Err::<Box<dyn OpenedFile>, FileError>(failure),
            )
            &&& refusal_of(failure, error)
        }
}

/// Opens the file of the request in the first backend of the chain that
/// holds it. Backends are asked in order, each for the file name without its
/// leading slashes; one that lacks the file passes the request on. The
/// outcome is the file that the first backend gives that does not lack it,
/// or the answer to that backend's failure; where every backend lacks the
/// file, the answer is "File not found".
pub fn open_file(read_request: &ReadRequest, roots: &[Box<dyn Root>]) -> (outcome: Result<
    Box<dyn OpenedFile>,
    TFTPError,
>)
    ensures
        roots@.len() == 0 ==> outcome is Err,
        outcome matches Err(error) ==> is_refusal(error) || (error.error_code == FILE_NOT_FOUND
            && error.message@ == FILE_NOT_FOUND_TEXT@),
        match outcome {
            Ok(file) => ({
                let answer = gives(file);
                found_in(roots@, normalized(utf8(read_request.filename@)), answer)
            }),
            Err(error) => refused_by(roots@, normalized(utf8(read_request.filename@)), error),
        },
{
    let ghost path = normalized(utf8(read_request.filename@));
    let mut i: usize = 0;
    while i < roots.len()
        invariant
            i <= roots@.len(),
            path == normalized(utf8(read_request.filename@)),
            passed_on(roots@, path, i as int),
        decreases roots@.len() - i,
    {
        let answer = read_request.open_in(&*roots[i]);
        let ghost given = answer;
        assert(may_answer(&*roots@[i as int], path, given));
        match resolve(answer) {
            Resolution::Opened(file) => {
                assert(given == gives(file));
                assert(found_in(roots@, path, given));
                let outcome = Ok(file);
                return outcome;
            },
            Resolution::TryNext => {
                assert(given == Err::<Box<dyn OpenedFile>, FileError>(FileError::FileNotFound));
            },
            Resolution::Refused(error) => {
                assert(given is Err && refusal_of(given->Err_0, error));
                return Err(error);
            },
        }
        i = i + 1;
    }
    Err(TFTPError::new(FILE_NOT_FOUND_TEXT, FILE_NOT_FOUND))
}

} // verus!
