//! The local backend: a directory on disk. What the operating system says
//! of a failure is turned into the backend's own errors, and a file is
//! served only where it lies within the directory.

use vstd::prelude::*;
use vstd::string::*;
use crate::fs::{normalized, trim_leading_slashes, FileError};
use crate::text::{matches_at, occurs_at, utf8};

verus! {

/// The kinds of failure that the local backend tells apart.
#[derive(Clone, Copy, Debug, PartialEq, Eq, Structural)]
pub enum FailureKind {
    UnexpectedEof,
    Unsupported,
    NotFound,
    PermissionDenied,
    Other,
}

/// A failure of the operating system, as plain values.
#[derive(Debug)]
pub struct Failure {
    pub kind: FailureKind,
    pub text: String,
}

/// What a failure of the operating system means to a transfer: a missing
/// file, a denied access, a failed read, or something else, by its kind.
pub fn local_error_map(failure: Failure) -> (error: FileError)
    ensures
        error == match failure.kind {
            FailureKind::UnexpectedEof => FileError::ReadError,
            FailureKind::Unsupported => FileError::ReadError,
            FailureKind::NotFound => FileError::FileNotFound,
            FailureKind::PermissionDenied => FileError::AccessViolation,
            FailureKind::Other => FileError::UnknownError(failure.text),
        },
{
    match failure.kind {
        FailureKind::UnexpectedEof => FileError::ReadError,
        FailureKind::Unsupported => FileError::ReadError,
        FailureKind::NotFound => FileError::FileNotFound,
        FailureKind::PermissionDenied => FileError::AccessViolation,
        FailureKind::Other => FileError::UnknownError(failure.text),
    }
}

/// Whether the path `candidate` lies within the directory `root`, both
/// being canonical: it does when it is the directory itself, or goes on
/// from it with a separator.
pub open spec fn within(root: Seq<u8>, candidate: Seq<u8>) -> bool {
    &&& occurs_at(candidate, root, 0)
    &&& {
        ||| candidate.len() == root.len()
        ||| (root.len() > 0 && root.last() == 0x2f)
        ||| candidate[root.len() as int] == 0x2f
    }
}

/// A directory on disk that serves as a backend.
#[derive(Debug)]
pub struct LocalRoot {
    pub path: String,
}

impl LocalRoot {
    pub fn new(path: String) -> (root: Self)
        ensures
            root.path == path,
    {
        Self { path }
    }

    /// The path to look up under the directory for a request path: the
    /// request path without its leading slashes.
    pub fn relative<'a>(&self, path: &'a str) -> (relative: &'a str)
        ensures
            utf8(relative@) == normalized(utf8(path@)),
    {
        trim_leading_slashes(path)
    }

    /// Whether a file may be served: its canonical path must lie within
    /// the directory, whose own path is given canonical.
    pub fn confine(&self, canonical: &str) -> (outcome: Result<(), FileError>)
        ensures
            match outcome {
                Ok(_) => within(utf8(self.path@), utf8(canonical@)),
                Err(error) => error is AccessViolation && !within(
                    utf8(self.path@),
                    utf8(canonical@),
                ),
            },
    {
        let root = self.path.as_str().as_bytes();
        let candidate = canonical.as_bytes();
        if !matches_at(candidate, root, 0) {
            return Err(FileError::AccessViolation);
        }
        if candidate.len() == root.len() {
            return Ok(());
        }
        if root.len() > 0 && root[root.len() - 1] == 0x2f {
            return Ok(());
        }
        if candidate[root.len()] == 0x2f {
            Ok(())
        } else {
            Err(FileError::AccessViolation)
        }
    }
}

} // verus!
