//! The errors the service answers with, and how each is shown to a client.
use vstd::prelude::*;

verus! {

/// A request failure, with what the client may be told about it.
#[derive(Debug)]
pub enum AppError {
    BadRequest(String),
    PayloadTooLarge { max: usize, actual: usize },
    Validation(String),
    NotFound(String),
    Internal(String),
}

/// What went wrong while reading a JSON request body.
#[derive(Clone, Copy, Debug, PartialEq, Eq, Structural)]
pub enum JsonRejectionKind {
    /// The JSON was well formed but did not fit the expected shape.
    Data,
    /// The body was not valid JSON.
    Syntax,
    /// The body could not be read.
    Bytes,
    /// Any other rejection (such as a missing content type).
    Other,
}

impl AppError {
    /// The error for an HTML payload of `actual` bytes over the limit `max`.
    pub fn html_too_large(max: usize, actual: usize) -> (e: Self)
        ensures
            e == (AppError::PayloadTooLarge { max, actual }),
    {
        AppError::PayloadTooLarge { max, actual }
    }

    /// The HTTP status of each kind of error.
    pub open spec fn status_spec(&self) -> u16 {
        match self {
            AppError::BadRequest(_) => 400,
            AppError::PayloadTooLarge { .. } => 413,
            AppError::Validation(_) => 422,
            AppError::NotFound(_) => 404,
            AppError::Internal(_) => 500,
        }
    }

    pub fn status_code(&self) -> (s: u16)
        ensures
            s == self.status_spec(),
    {
        match self {
            AppError::BadRequest(_) => 400,
            AppError::PayloadTooLarge { .. } => 413,
            AppError::Validation(_) => 422,
            AppError::NotFound(_) => 404,
            AppError::Internal(_) => 500,
        }
    }

    /// The `error` text a client sees. An internal error shows a fixed text,
    /// never its detail.
    pub open spec fn public_message_spec(&self) -> Seq<char> {
        match self {
            AppError::BadRequest(m) => m@,
            AppError::PayloadTooLarge { .. } => "HTML payload too large"@,
            AppError::Validation(m) => m@,
            AppError::NotFound(m) => m@,
            AppError::Internal(_) => "internal server error"@,
        }
    }

    pub fn public_message(&self) -> (m: String)
        ensures
            m@ == self.public_message_spec(),
    {
        match self {
            AppError::BadRequest(m) => m.clone(),
            AppError::PayloadTooLarge { .. } => String::from_str("HTML payload too large"),
            AppError::Validation(m) => m.clone(),
            AppError::NotFound(m) => m.clone(),
            AppError::Internal(_) => String::from_str("internal server error"),
        }
    }

    /// The error for a rejected JSON body: a body of the wrong shape is a validation
    /// error, anything else a bad request; `text` is the rejection's own description.
    pub fn from_json_rejection(kind: JsonRejectionKind, text: String) -> (e: Self)
        ensures
            kind == JsonRejectionKind::Data ==> e == AppError::Validation(text),
            kind != JsonRejectionKind::Data ==> e == AppError::BadRequest(text),
    {
        match kind {
            JsonRejectionKind::Data => AppError::Validation(text),
            _ => AppError::BadRequest(text),
        }
    }
}

/// What a client is shown of an internal error does not depend on its detail.
pub proof fn lemma_internal_detail_hidden(detail: String, other: String)
    ensures
        AppError::Internal(detail).public_message_spec() == AppError::Internal(
            other,
        ).public_message_spec(),
        AppError::Internal(detail).status_spec() == 500,
{
}

} // verus!
