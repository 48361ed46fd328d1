//! The conversion error taxonomy. Input errors (a bad path, a malformed
//! descriptor) are detected before the backend runs; backend errors
//! (decode, resize) keep the collaborator's diagnostic text.

use vstd::prelude::*;

verus! {

/// Everything a conversion or a descriptor parse can fail with.
#[derive(Debug)]
pub enum ConversionError {
    /// The input path does not name an existing regular file.
    InvalidPath,
    /// The input path cannot be represented as a portable string for
    /// the decode backend.
    PathEncodingFailed,
    /// The image codec rejected the file; carries its diagnostic.
    DecodeFailed { message: String },
    /// The resize backend failed, or its output did not cover the
    /// requested tensor; carries the diagnostic.
    ResizeFailed { message: String },
    /// The textual dimension descriptor is malformed.
    ParseFailed { message: String },
}

impl ConversionError {
    /// The diagnostic text of this error.
    pub open spec fn spec_message(&self) -> Seq<char> {
        match self {
            ConversionError::InvalidPath => "The path is not a valid file."@,
            ConversionError::PathEncodingFailed => "Unable to stringify the path."@,
            ConversionError::DecodeFailed { message } => message@,
            ConversionError::ResizeFailed { message } => message@,
            ConversionError::ParseFailed { message } => message@,
        }
    }

    /// Returns the diagnostic text, for display by the caller.
    pub fn message(&self) -> (m: String)
        ensures
            m@ == self.spec_message(),
    {
        match self {
            ConversionError::InvalidPath => "The path is not a valid file.".to_owned(),
            ConversionError::PathEncodingFailed => "Unable to stringify the path.".to_owned(),
            ConversionError::DecodeFailed { message } => message.clone(),
            ConversionError::ResizeFailed { message } => message.clone(),
            ConversionError::ParseFailed { message } => message.clone(),
        }
    }
}

} // verus!
