//! The encoder's error taxonomy: a failure of the output sink, a payload
//! that violates an encoding policy, or an opaque message supplied by the
//! traversal framework that drives the encoder.

use vstd::prelude::*;

verus! {

/// Why an encoding call failed.
#[derive(Debug)]
pub enum Error {
    /// The output sink rejected a write; carries the sink's own description.
    /// The in-memory writer of this crate never fails this way.
    Io(String),
    /// An opaque, caller-supplied failure message. The encoder never
    /// interprets its contents.
    Custom(String),
    /// A byte payload was supplied where text was expected, but the bytes
    /// are not valid UTF-8.
    Utf8,
    /// A payload meant for simple-string framing holds a line-terminator
    /// byte, which would end the token early.
    Terminator,
}

impl Error {
    /// Builds the opaque error the traversal framework reports its own
    /// failures through.
    pub fn custom(msg: String) -> (e: Error)
        ensures
            e == Error::Custom(msg),
    {
        Error::Custom(msg)
    }

    /// A short description of the error, in place of a `Display` impl.
    pub fn message(&self) -> (m: String)
        ensures
            match self {
                Error::Io(s) => m@ == s@,
                Error::Custom(s) => m@ == s@,
                Error::Utf8 => m@ == "payload is not valid UTF-8"@,
                Error::Terminator => m@ == "payload holds a line terminator"@,
            },
    {
        match self {
            Error::Io(s) => s.clone(),
            Error::Custom(s) => s.clone(),
            Error::Utf8 => "payload is not valid UTF-8".to_string(),
            Error::Terminator => "payload holds a line terminator".to_string(),
        }
    }
}

} // verus!
