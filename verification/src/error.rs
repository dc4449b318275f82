//! Unified failure taxonomy for every transport: structured I/O failures and
//! free-form failures reported by a host or an event library.

use vstd::prelude::*;

verus! {

/// Why an I/O operation on a transport failed.
#[derive(Clone, Copy, Debug, PartialEq, Eq, Structural)]
pub enum IoErrorKind {
    /// The peer refused the connection attempt.
    ConnectionRefused,
    /// The peer reset an established connection.
    ConnectionReset,
    /// The connection was aborted; also reported once a transport's
    /// background delivery has terminated.
    ConnectionAborted,
    /// An I/O failure with no more specific classification.
    Other,
}

/// One transport-level I/O failure: a kind plus a description, which may be
/// empty where the kind alone says everything.
#[derive(Clone, Debug)]
pub struct IoError {
    pub kind: IoErrorKind,
    pub message: String,
}

impl IoError {
    /// An error of the given kind with no description.
    pub fn of_kind(kind: IoErrorKind) -> (e: IoError)
        ensures
            e.kind == kind,
            e.message@ == Seq::<char>::empty(),
    {
        IoError { kind, message: String::new() }
    }

    /// An error of the given kind carrying a description.
    pub fn with_message(kind: IoErrorKind, message: String) -> (e: IoError)
        ensures
            e.kind == kind,
            e.message == message,
    {
        IoError { kind, message }
    }
}

/// The failure type every transport operation reports: an I/O failure, or a
/// miscellaneous failure described only by a string.
#[derive(Clone, Debug)]
pub enum Error {
    IOError(IoError),
    Misc(String),
}

impl From<IoError> for Error {
    fn from(error: IoError) -> (r: Error)
        ensures
            r == Error::IOError(error),
    {
        Error::IOError(error)
    }
}

impl vstd::std_specs::convert::FromSpecImpl<IoError> for Error {
    open spec fn obeys_from_spec() -> bool {
        true
    }

    open spec fn from_spec(t: IoError) -> Error {
        Error::IOError(t)
    }
}

} // verus!
