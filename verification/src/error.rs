//! The ways in which a step of the notifier can fail.

use vstd::prelude::*;

verus! {

/// What went wrong, without the underlying detail.
#[derive(Clone, Copy, Debug, PartialEq, Eq, Structural)]
pub enum ErrorKind {
    /// A required credential is absent at startup.
    MissingCredential,
    /// The request did not reach the server or no response came back.
    NetworkError,
    /// The response body could not be read as text.
    DecodeError,
    /// The text at hand is not of the expected form.
    ParseError,
    /// The page holds no element under the price selector.
    SelectorNotFound,
    /// The ticker declined the request or returned no entry.
    UpstreamRejected,
    /// The message could not be delivered.
    NotifyFailed,
    /// A value handed to the converter is outside its domain.
    InvalidInput,
}

} // verus!
