//! Error values shared by every part of the library.
use vstd::prelude::*;

verus! {

/// Error kinds for audio/video operations.
#[derive(Debug)]
pub enum Error {
    /// An I/O failure, carried as its message.
    Io(String),
    /// Invalid data (malformed bitstream, violated constraint).
    Invalid { what: &'static str, msg: String },
    /// A feature, codec or profile that is not supported.
    Unsupported { what: &'static str, value: String },
    /// The data ended before the value was complete.
    UnexpectedEof,
    /// A resource ran out.
    ResourceExhausted(String),
    /// Something that was looked for does not exist.
    NotFound(String),
}

/// Result with the library's error type.
pub type Result<T> = core::result::Result<T, Error>;

impl Error {
    /// An `Invalid` error for `what` with the given message.
    pub fn invalid(what: &'static str, msg: &str) -> (e: Error)
        ensures
            e matches Error::Invalid { what: w, msg: m } && w == what && m@ == msg@,
    {
        Error::Invalid { what, msg: msg.to_owned() }
    }

    /// An `Unsupported` error for `what` with the offending value.
    pub fn unsupported(what: &'static str, value: &str) -> (e: Error)
        ensures
            e matches Error::Unsupported { what: w, value: v } && w == what && v@ == value@,
    {
        Error::Unsupported { what, value: value.to_owned() }
    }

    /// A `ResourceExhausted` error with the given message.
    pub fn resource_exhausted(msg: &str) -> (e: Error)
        ensures
            e matches Error::ResourceExhausted(m) && m@ == msg@,
    {
        Error::ResourceExhausted(msg.to_owned())
    }

    /// A `NotFound` error with the given message.
    pub fn not_found(msg: &str) -> (e: Error)
        ensures
            e matches Error::NotFound(m) && m@ == msg@,
    {
        Error::NotFound(msg.to_owned())
    }

    /// Whether this is an `Invalid` error.
    pub open spec fn is_invalid(&self) -> bool {
        self is Invalid
    }
}

} // verus!
