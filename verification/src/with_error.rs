//! The error type of a kind of value.
use vstd::prelude::*;

verus! {

/// What has an error type of its own. An error can be made of a message, and gives a
/// text for its message.
pub trait WithError {
    type Error;

    /// The error with the given message.
    fn error_from(message: String) -> Self::Error;

    /// The text of an error.
    fn error_text(error: &Self::Error) -> String;
}

} // verus!
