//! The library's one error type: a message for the user.
use vstd::prelude::*;

verus! {

/// An error, carrying the message shown to the user.
#[derive(Debug)]
pub struct Error(pub String);

/// Results of the library's fallible operations.
pub type Result<T> = core::result::Result<T, Error>;

impl Error {
    /// The message of this error.
    pub fn message(&self) -> (m: &str)
        ensures
            m@ == self.0@,
    {
        self.0.as_str()
    }
}

} // verus!
