//! The errors of encoding.

use vstd::prelude::*;
use vstd::string::StringExecFns;

verus! {

/// Why an encode failed.
#[derive(Debug)]
pub enum SerError {
    /// The value breaks the encoder's contract with the value model.
    Custom(String),
    /// The value has a shape that can not be encoded where it stands.
    Unsupported(&'static str),
}

/// The mathematical value of a [`SerError`].
pub enum SerFailure {
    Custom(Seq<char>),
    Unsupported(Seq<char>),
}

impl View for SerError {
    type V = SerFailure;

    open spec fn view(&self) -> SerFailure {
        match *self {
            SerError::Custom(s) => SerFailure::Custom(s@),
            SerError::Unsupported(s) => SerFailure::Unsupported(s@),
        }
    }
}

impl SerFailure {
    /// What is said of the failure.
    pub open spec fn message(self) -> Seq<char> {
        match self {
            SerFailure::Custom(s) => s,
            SerFailure::Unsupported(s) => "Unsupported operation "@ + s,
        }
    }
}

impl SerError {
    /// What the error says, for a reader.
    pub fn message(&self) -> (text: String)
        ensures
            text@ == self@.message(),
    {
        match self {
            SerError::Custom(s) => s.clone(),
            SerError::Unsupported(s) => "Unsupported operation ".to_owned().concat(s),
        }
    }
}

} // verus!
