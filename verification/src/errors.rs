//! The error taxonomy shared by the splitter and the joiner.

use vstd::prelude::*;

verus! {

/// A failure of a split or join operation.
#[derive(Debug, PartialEq, Eq)]
pub enum EngineError {
    /// The input file, or the first part file, does not exist.
    NotFound,
    /// The requested part size is zero.
    InvalidArgument,
    /// A file name that should name a part lacks the `.part` marker.
    InvalidFormat,
    /// The name carries the marker, but the first part is not present.
    NoPartsFound,
    /// An underlying read, write, create or flush failure, with its
    /// description.
    IOFailure(String),
}

/// The description that [`EngineError::message`] returns for each failure.
pub open spec fn message_spec(e: EngineError) -> Seq<char> {
    match e {
        EngineError::NotFound => "file does not exist"@,
        EngineError::InvalidArgument => "part size must be greater than 0"@,
        EngineError::InvalidFormat => "first part file must have a .part extension"@,
        EngineError::NoPartsFound => "no sequential part files found"@,
        EngineError::IOFailure(m) => m@,
    }
}

impl EngineError {
    /// A human-readable description of the failure.
    pub fn message(&self) -> (r: String)
        ensures
            r@ == message_spec(*self),
    {
        match self {
            EngineError::NotFound => "file does not exist".to_owned(),
            EngineError::InvalidArgument => "part size must be greater than 0".to_owned(),
            EngineError::InvalidFormat => {
                "first part file must have a .part extension".to_owned()
            },
            EngineError::NoPartsFound => "no sequential part files found".to_owned(),
            EngineError::IOFailure(m) => m.clone(),
        }
    }
}

} // verus!
