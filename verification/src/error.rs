use vstd::prelude::*;
use vstd::string::StringExecFns;

verus! {

/// Class of an operating-system level failure, as far as the relay logic
/// tells them apart.
#[derive(Clone, Copy, PartialEq, Eq, Structural, Debug)]
pub enum IoKind {
    NotFound,
    ConnectionAborted,
    InvalidData,
    Other,
}

/// An I/O failure reported by a transport: its class and a short text.
#[derive(Debug)]
pub struct IoFailure {
    pub kind: IoKind,
    pub message: String,
}

/// Everything that can go wrong while relaying.
///
/// `EmptyData` is the benign "nothing available right now" signal; every
/// other variant ends the connection it occurs on.
#[derive(Debug)]
pub enum IOError {
    InvalidConnection,
    InvalidBindAddress,
    UnknownError(String),
    IoError(IoFailure),
    ParseError,
    InvalidStep(String),
    InvalidData(String),
    EmptyData,
    Error(String),
}

impl IOError {
    /// True exactly for the variants that must tear the connection down.
    pub open spec fn fatal(self) -> bool {
        !(self is EmptyData)
    }

    /// Whether this error ends the connection (`true`) or only means
    /// "retry on the next cycle" (`false`).
    pub fn is_fatal(&self) -> (r: bool)
        ensures
            r == self.fatal(),
    {
        match self {
            IOError::EmptyData => false,
            _ => true,
        }
    }

    /// The variant's name as a spec-level text.
    pub open spec fn name_spec(self) -> Seq<char> {
        match self {
            IOError::InvalidConnection => "InvalidConnection"@,
            IOError::InvalidBindAddress => "InvalidBindAddress"@,
            IOError::UnknownError(_) => "UnknownError"@,
            IOError::IoError(_) => "IoError"@,
            IOError::ParseError => "ParseError"@,
            IOError::InvalidStep(_) => "InvalidStep"@,
            IOError::InvalidData(_) => "InvalidData"@,
            IOError::EmptyData => "EmptyData"@,
            IOError::Error(_) => "Error"@,
        }
    }

    /// The variant's name, for log lines.
    pub fn name(&self) -> (r: String)
        ensures
            r@ == self.name_spec(),
    {
        match self {
            IOError::InvalidConnection => String::from_str("InvalidConnection"),
            IOError::InvalidBindAddress => String::from_str("InvalidBindAddress"),
            IOError::UnknownError(_) => String::from_str("UnknownError"),
            IOError::IoError(_) => String::from_str("IoError"),
            IOError::ParseError => String::from_str("ParseError"),
            IOError::InvalidStep(_) => String::from_str("InvalidStep"),
            IOError::InvalidData(_) => String::from_str("InvalidData"),
            IOError::EmptyData => String::from_str("EmptyData"),
            IOError::Error(_) => String::from_str("Error"),
        }
    }
}

} // verus!
