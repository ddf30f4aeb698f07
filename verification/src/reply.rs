//! What the embedding endpoint answers once a request's batch is processed.
use vstd::prelude::*;
use crate::types::BatchError;

verus! {

/// Whether `text` is accepted by the JSON parser as one JSON value.
pub uninterp spec fn json_accepts(text: Seq<char>) -> bool;

/// Whether `text` parses as a JSON value.
///
/// Trusted: it calls `serde_json::from_str::<serde_json::Value>` and reports
/// whether parsing succeeded. What the parser accepts is not restated here;
/// it is named `json_accepts`.
#[verifier::external_body]
fn is_json(text: &str) -> (r: bool)
    ensures
        r == json_accepts(text@),
{
    serde_json::from_str::<serde_json::Value>(text).is_ok()
}

/// The body of an error response.
pub enum ErrorBody {
    /// The message is itself a JSON value: it is the body, as it is.
    Json(String),
    /// The message is plain text: the body is `{"error": message}`.
    Wrapped(String),
}

/// The response to an embedding request.
pub enum Reply<E> {
    /// Success: the embeddings of the request's inputs, in order.
    Embeddings(Vec<E>),
    /// Failure: HTTP status code and body.
    Error(u16, ErrorBody),
}

/// `body` is the error body for the message `message`: the message itself
/// when it is JSON, else the message wrapped.
pub open spec fn error_body_for(message: Seq<char>, body: ErrorBody) -> bool {
    if json_accepts(message) {
        body matches ErrorBody::Json(m) && m@ == message
    } else {
        body matches ErrorBody::Wrapped(m) && m@ == message
    }
}

/// An error message that is JSON is sent as it is; any other message is
/// wrapped; either way the message is kept whole.
pub proof fn law_error_body_keeps_the_message(message: Seq<char>, body: ErrorBody)
    requires
        error_body_for(message, body),
    ensures
        json_accepts(message) ==> (body matches ErrorBody::Json(m) && m@ == message),
        !json_accepts(message) ==> (body matches ErrorBody::Wrapped(m) && m@ == message),
{
}

/// The response to an embedding request, given what came back from the
/// batcher: `None` if the result channel closed before an answer, else the
/// result of the request.
///
/// Embeddings are answered as they are; an error is answered with its
/// status code and its message (as it is when it is JSON, else wrapped);
/// a closed channel is answered with a 500 error.
pub fn embed_reply<E>(outcome: Option<Result<Vec<E>, BatchError>>) -> (r: Reply<E>)
    ensures
        match outcome {
            None => r matches Reply::Error(status, ErrorBody::Wrapped(m)) && status == 500 && m@
                == "Internal server error"@,
            Some(Ok(v)) => r matches Reply::Embeddings(w) && w == v,
            Some(Err(e)) => r matches Reply::Error(status, body) && status == e.status()
                && error_body_for(e.message(), body),
        },
{
    match outcome {
        None => Reply::Error(500, ErrorBody::Wrapped("Internal server error".to_string())),
        Some(Ok(embeddings)) => Reply::Embeddings(embeddings),
        Some(Err(error)) => {
            let status = error.to_status_code();
            let message = error.to_message();
            let body = if is_json(message.as_str()) {
                ErrorBody::Json(message)
            } else {
                ErrorBody::Wrapped(message)
            };
            Reply::Error(status, body)
        },
    }
}

} // verus!
