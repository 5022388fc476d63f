//! The library's error value: a diagnostic message.

use vstd::prelude::*;
use vstd::string::*;

verus! {

/// A failure with its diagnostic text.
#[derive(Debug, Clone)]
pub struct Error {
    pub message: String,
}

impl Error {
    /// An error from a plain message.
    pub fn custom(msg: &str) -> (r: Error)
        ensures
            r.message@ == msg@,
    {
        Error { message: msg.to_owned() }
    }

    /// The diagnostic text.
    pub fn text(&self) -> (r: &str)
        ensures
            r@ == self.message@,
    {
        self.message.as_str()
    }
}

} // verus!
