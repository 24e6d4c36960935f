use vstd::prelude::*;

verus! {

/// The kind of a reported failure.
#[derive(Clone, Copy, PartialEq, Eq, Structural, Debug)]
pub enum ErrorKind {
    /// A device, storage or file was absent where one was required.
    NotFound,
    /// A pattern matched more than one device or storage.
    Ambiguous,
    /// A malformed address or path pattern.
    InvalidPath,
    /// The target is hidden or a system entry and the operation refuses it.
    Forbidden,
    /// An underlying read, write or enumerate call failed.
    IoFailure,
}

/// An error reported to the caller: a kind and a human-readable message.
#[derive(Debug)]
pub struct AppError {
    pub kind: ErrorKind,
    pub message: String,
}

impl AppError {
    /// Creates an error of the given kind with the given message.
    pub fn new(kind: ErrorKind, message: &str) -> (r: AppError)
        ensures
            r.kind == kind,
            r.message@ == message@,
    {
        AppError { kind, message: message.to_owned() }
    }
}

} // verus!
