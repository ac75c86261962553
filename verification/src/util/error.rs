use vstd::prelude::*;

verus! {

/// All possible errors in justav.
#[derive(Debug, Clone, PartialEq, Eq)]
pub enum Error {
    /// End of file / stream.
    Eof,
    /// Invalid data encountered (corrupted input, bad header, etc.).
    InvalidData(String),
    /// Requested feature or codec is not supported.
    Unsupported(String),
    /// I/O error, carried as a description.
    Io(String),
    /// Resource not found (file, stream, codec, etc.).
    NotFound(String),
    /// Operation would require more data (try again).
    Again,
    /// Numeric overflow during computation.
    Overflow,
    /// Invalid argument passed to a function.
    InvalidArgument(String),
    /// Operation not permitted in current state.
    InvalidState(String),
    /// Out of memory or buffer too small.
    NoMemory,
}

/// Convenience result type for justav operations.
pub type Result<T> = core::result::Result<T, Error>;

/// The kinds of I/O failure that [`Error::from_io_kind`] distinguishes.
#[derive(Debug, Clone, Copy, PartialEq, Eq)]
pub enum IoErrorKind {
    UnexpectedEof,
    NotFound,
    OutOfMemory,
    InvalidData,
    InvalidInput,
    Other,
}

/// The text that [`Error::to_string`] produces for an error.
pub open spec fn error_text(e: Error) -> Seq<char> {
    match e {
        Error::Eof => "end of file"@,
        Error::InvalidData(m) => "invalid data: "@ + m@,
        Error::Unsupported(m) => "unsupported: "@ + m@,
        Error::Io(m) => "I/O error: "@ + m@,
        Error::NotFound(m) => "not found: "@ + m@,
        Error::Again => "resource temporarily unavailable"@,
        Error::Overflow => "numeric overflow"@,
        Error::InvalidArgument(m) => "invalid argument: "@ + m@,
        Error::InvalidState(m) => "invalid state: "@ + m@,
        Error::NoMemory => "out of memory"@,
    }
}

/// Builds a message string from a literal.
pub fn msg(s: &str) -> (r: String)
    ensures r@ == s@,
{
    String::from_str(s)
}

fn prefixed(prefix: &str, m: &String) -> (r: String)
    ensures r@ == prefix@ + m@,
{
    let mut s = String::from_str(prefix);
    s.append(m.as_str());
    s
}

impl Error {
    /// Human-readable description of the error.
    pub fn to_string(&self) -> (r: String)
        ensures r@ == error_text(*self),
    {
        match self {
            Error::Eof => String::from_str("end of file"),
            Error::InvalidData(m) => prefixed("invalid data: ", m),
            Error::Unsupported(m) => prefixed("unsupported: ", m),
            Error::Io(m) => prefixed("I/O error: ", m),
            Error::NotFound(m) => prefixed("not found: ", m),
            Error::Again => String::from_str("resource temporarily unavailable"),
            Error::Overflow => String::from_str("numeric overflow"),
            Error::InvalidArgument(m) => prefixed("invalid argument: ", m),
            Error::InvalidState(m) => prefixed("invalid state: ", m),
            Error::NoMemory => String::from_str("out of memory"),
        }
    }

    /// Maps the kind of an I/O failure, with its description, to an error.
    pub fn from_io_kind(kind: IoErrorKind, description: String) -> (r: Error)
        ensures
            kind == IoErrorKind::UnexpectedEof ==> r == Error::Eof,
            kind == IoErrorKind::NotFound ==> r == Error::NotFound(description),
            kind == IoErrorKind::OutOfMemory ==> r == Error::NoMemory,
            kind == IoErrorKind::InvalidData ==> r == Error::InvalidData(description),
            kind == IoErrorKind::InvalidInput ==> r == Error::InvalidArgument(description),
            kind == IoErrorKind::Other ==> r == Error::Io(description),
    {
        match kind {
            IoErrorKind::UnexpectedEof => Error::Eof,
            IoErrorKind::NotFound => Error::NotFound(description),
            IoErrorKind::OutOfMemory => Error::NoMemory,
            IoErrorKind::InvalidData => Error::InvalidData(description),
            IoErrorKind::InvalidInput => Error::InvalidArgument(description),
            IoErrorKind::Other => Error::Io(description),
        }
    }
}

} // verus!
