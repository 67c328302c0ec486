//! Paths to files and directories, by URL scheme.

pub mod errors;
pub mod file;
pub mod laws;

pub use errors::{std_io_error_to_file_error, FileError, IoErrorKind};
pub use file::{listing_of, File, FileScheme};
