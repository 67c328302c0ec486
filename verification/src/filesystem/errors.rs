//! What can go wrong with a file.

use vstd::prelude::*;

verus! {

/// An error of a file operation.
#[derive(Clone, Copy, PartialEq, Eq, Structural, Debug)]
pub enum FileError {
    NotFound,
    PermissionDenied,
    StorageFull,
    FileTooLarge,
    NotADirectory,
    NotAFile,
    /// The file name is invalid or too long.
    InvalidFilename,
    /// An error of no category named here.
    UnassignedError,
}

/// The kinds of errors of the host's input and output that have a file
/// error of their own, and one for all the others.
#[derive(Clone, Copy, PartialEq, Eq, Structural, Debug)]
pub enum IoErrorKind {
    NotFound,
    PermissionDenied,
    StorageFull,
    FileTooLarge,
    NotADirectory,
    InvalidFilename,
    Other,
}

/// The file error that stands for an error of the host of kind `kind`.
pub open spec fn file_error_of(kind: IoErrorKind) -> FileError {
    match kind {
        IoErrorKind::NotFound => FileError::NotFound,
        IoErrorKind::PermissionDenied => FileError::PermissionDenied,
        IoErrorKind::StorageFull => FileError::StorageFull,
        IoErrorKind::FileTooLarge => FileError::FileTooLarge,
        IoErrorKind::NotADirectory => FileError::NotADirectory,
        IoErrorKind::InvalidFilename => FileError::InvalidFilename,
        IoErrorKind::Other => FileError::UnassignedError,
    }
}

/// Turns an error of the host, given by its kind, into a file error.
pub fn std_io_error_to_file_error(kind: IoErrorKind) -> (r: FileError)
    ensures
        r == file_error_of(kind),
{
    match kind {
        IoErrorKind::NotFound => FileError::NotFound,
        IoErrorKind::PermissionDenied => FileError::PermissionDenied,
        IoErrorKind::StorageFull => FileError::StorageFull,
        IoErrorKind::FileTooLarge => FileError::FileTooLarge,
        IoErrorKind::NotADirectory => FileError::NotADirectory,
        IoErrorKind::InvalidFilename => FileError::InvalidFilename,
        IoErrorKind::Other => FileError::UnassignedError,
    }
}

} // verus!
