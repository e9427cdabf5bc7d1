//! The ways in which a capture or a restore can fail.
use vstd::prelude::*;

verus! {

/// Why an operation stopped. Every failure ends the operation that met it:
/// nothing is retried and nothing is passed over.
#[derive(Clone, Copy, Debug, PartialEq, Eq, Structural)]
pub enum EngineError {
    /// The directory to work on does not exist.
    DirectoryNotFound,
    /// The directory's path has no text form that the store can keep.
    PathEncoding,
    /// The name of a regular file has no text form that the store can keep.
    NameEncoding,
    /// The store refused a row, or has no identifier left to give.
    Store,
    /// A file's modification time could not be written.
    FileTimestampWrite,
}

impl EngineError {
    /// A short text that names the failure.
    pub fn message(&self) -> (text: &'static str)
        ensures
            text@ == self.message_text(),
    {
        match self {
            EngineError::DirectoryNotFound => "directory does not exist",
            EngineError::PathEncoding => "directory path is not valid text",
            EngineError::NameEncoding => "file name is not valid text",
            EngineError::Store => "metadata store refused the operation",
            EngineError::FileTimestampWrite => "file modification time could not be set",
        }
    }

    pub open spec fn message_text(self) -> Seq<char> {
        match self {
            EngineError::DirectoryNotFound => "directory does not exist"@,
            EngineError::PathEncoding => "directory path is not valid text"@,
            EngineError::NameEncoding => "file name is not valid text"@,
            EngineError::Store => "metadata store refused the operation"@,
            EngineError::FileTimestampWrite => "file modification time could not be set"@,
        }
    }
}

} // verus!
