//! The library's error: what went wrong, kept as plain values so that the
//! callers' decisions on it (retry, answer with which status) are verified.
use vstd::prelude::*;

verus! {

/// Kind of an I/O failure, as far as the decisions need it.
#[derive(Debug, PartialEq, Eq)]
pub enum IoKind {
    NotFound,
    Other,
}

/// An error of the daemon's services.
#[derive(Debug, PartialEq, Eq)]
pub enum Error {
    /// A configuration or settings value was refused.
    Config(String),
    /// A file or socket operation failed.
    Io { kind: IoKind, message: String },
    /// The database refused a statement.
    Db(String),
    /// A JSON or YAML text did not parse.
    Parse(String),
    /// An HTTP request failed.
    Http(String),
    /// The control socket protocol failed.
    Control(String),
    /// Any other failure, with its message.
    Other(String),
}

/// Whether the error is a file that does not exist.
pub fn is_not_found(e: &Error) -> (r: bool)
    ensures
        r == (e matches Error::Io { kind: IoKind::NotFound, .. }),
{
    match e {
        Error::Io { kind: IoKind::NotFound, .. } => true,
        _ => false,
    }
}

/// Whether a failed fetch is worth another attempt: HTTP failures and other
/// failures are, refusals of the configuration or protocol are not.
pub fn is_retryable(e: &Error) -> (r: bool)
    ensures
        r == (e is Http || e is Other),
{
    match e {
        Error::Http(_) | Error::Other(_) => true,
        _ => false,
    }
}

/// The HTTP status a web console answer carries for an error: 400 for what
/// the client can correct (configuration, control, other), 404 for a missing
/// file, 500 otherwise.
pub open spec fn status_for(e: Error) -> u16 {
    match e {
        Error::Config(_) | Error::Other(_) | Error::Control(_) => 400,
        Error::Io { kind: IoKind::NotFound, .. } => 404,
        _ => 500,
    }
}

/// The HTTP status of an error ([`status_for`]).
pub fn api_status(e: &Error) -> (r: u16)
    ensures
        r == status_for(*e),
{
    match e {
        Error::Config(_) | Error::Other(_) | Error::Control(_) => 400,
        _ => if is_not_found(e) {
            404
        } else {
            500
        },
    }
}

impl Error {
    /// The message of an error, as the console shows it.
    pub fn to_string(&self) -> (r: String)
        ensures
            r@ == (match *self {
                Error::Config(m) => m@,
                Error::Io { message, .. } => message@,
                Error::Db(m) => m@,
                Error::Parse(m) => m@,
                Error::Http(m) => m@,
                Error::Control(m) => m@,
                Error::Other(m) => m@,
            }),
    {
        match self {
            Error::Config(m) => m.clone(),
            Error::Io { message, .. } => message.clone(),
            Error::Db(m) => m.clone(),
            Error::Parse(m) => m.clone(),
            Error::Http(m) => m.clone(),
            Error::Control(m) => m.clone(),
            Error::Other(m) => m.clone(),
        }
    }
}

} // verus!
