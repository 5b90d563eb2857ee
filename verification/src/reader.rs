//! Results of reading files from a disc.
use vstd::prelude::*;
use vstd::string::*;

verus! {

/// Why a file of a disc could not be read.
#[derive(Debug, Clone, PartialEq, Eq)]
pub enum ReaderError {
    /// There is no such file.
    NotFound {
        /// The path that was asked for.
        path: String,
    },
    /// The file could not be read.
    Failed {
        /// What went wrong.
        message: String,
    },
}

impl ReaderError {
    /// The message of the error.
    pub open spec fn text(self) -> Seq<char> {
        match self {
            ReaderError::NotFound { path } => "not found: "@ + path@,
            ReaderError::Failed { message } => message@,
        }
    }

    /// Describes the error.
    pub fn message(&self) -> (text: String)
        ensures
            text@ == self.text(),
    {
        match self {
            ReaderError::NotFound { path } => {
                let mut text: String = String::from_str("not found: ");
                text.append(path.as_str());
                text
            },
            ReaderError::Failed { message } => message.clone(),
        }
    }
}

} // verus!
