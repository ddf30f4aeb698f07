//! Core types for batch processing.
use vstd::prelude::*;

verus! {

/// A batch of text inputs.
pub type BatchOfStrings = Vec<String>;

/// Request body of the embedding endpoint: the texts to embed.
pub struct EmbedRequest {
    /// List of input strings to generate embeddings for.
    pub inputs: BatchOfStrings,
}

/// A single text waiting to be batched.
///
/// `S` is the handle through which the result of the whole request is
/// returned; only the first item of a request carries it.
pub struct BatchItem<S> {
    /// The text to embed.
    pub text: String,
    /// Handle that answers the original request (first item of a request only).
    pub sender: Option<S>,
}

/// Errors that can occur during batch processing.
#[derive(Debug, Clone)]
pub enum BatchError {
    /// Error from the upstream inference service: HTTP status code and message.
    UpstreamError(u16, String),
}

impl BatchError {
    /// The HTTP status code carried by the error.
    pub open spec fn status(self) -> u16 {
        match self {
            BatchError::UpstreamError(status, _) => status,
        }
    }

    /// The message carried by the error.
    pub open spec fn message(self) -> Seq<char> {
        match self {
            BatchError::UpstreamError(_, msg) => msg@,
        }
    }

    /// Convert the error to the HTTP status code of the API response.
    pub fn to_status_code(&self) -> (r: u16)
        ensures
            r == self.status(),
    {
        match self {
            BatchError::UpstreamError(status, _) => *status,
        }
    }

    /// The error message for the API response.
    pub fn to_message(&self) -> (r: String)
        ensures
            r@ == self.message(),
    {
        match self {
            BatchError::UpstreamError(_, msg) => msg.clone(),
        }
    }

    /// An identical copy of the error.
    pub fn duplicate(&self) -> (r: BatchError)
        ensures
            r == *self,
    {
        match self {
            BatchError::UpstreamError(status, msg) => BatchError::UpstreamError(*status, msg.clone()),
        }
    }
}

} // verus!
