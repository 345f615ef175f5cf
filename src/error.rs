//! The library's error type.
use vstd::prelude::*;

verus! {

#[verifier::external_type_specification]
#[verifier::external_body]
pub struct ExIoError(std::io::Error);

/// Why an operation failed.
#[derive(Debug)]
pub enum MdrefError {
    /// Reading, writing, copying, removing or creating a file or directory
    /// failed.
    Io(std::io::Error),
    /// A parent directory or a file name could not be derived from a path.
    Path(String),
    /// A recorded line number is past the end of the file it refers to.
    InvalidLine(String),
}

} // verus!
