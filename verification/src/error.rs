//! Errors that a caller of this library hands on.

use vstd::prelude::*;

verus! {

/// An error met while soundings were being read.
#[derive(Debug)]
pub enum Error {
    /// An error that arose outside this library, such as one of reading a
    /// file, kept as the text that describes it.
    InternalError(String),
}

impl Error {
    /// The text that describes the error to a user.
    pub fn description(&self) -> (r: String)
        ensures
            r@ == "Error parsing bufkit file.\n"@,
    {
        "Error parsing bufkit file.\n".to_owned()
    }
}

} // verus!
