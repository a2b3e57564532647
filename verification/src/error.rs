//! The ways in which an extraction ends without rows.

use actix_web::error::PayloadError;
use vstd::prelude::*;

verus! {

#[verifier::external_type_specification]
#[verifier::external_body]
pub struct ExPayloadError(PayloadError);

/// Why an extraction was refused or broken off. Every one of them is final:
/// no rows are handed out beside it.
#[derive(Debug)]
pub enum CsvExtractError {
    /// The declared length is above the limit. Found before any byte is read.
    TooLong { length: usize, limit: usize },
    /// More bytes arrived than the declared length announced.
    OverflowKnownLength { length: usize },
    /// More bytes arrived than the limit allows.
    Overflow { limit: usize },
    /// The content type is missing or is not the accepted one.
    ContentType,
    /// A line did not decode. Holds the reader's diagnostic.
    Deserialize(csv::Error),
    /// The transport failed while the body was read. Holds its error.
    Payload(PayloadError),
}

/// `CsvExtractError` without the diagnostics of the reader and the transport.
pub enum Failure {
    TooLong { length: usize, limit: usize },
    OverflowKnownLength { length: usize },
    Overflow { limit: usize },
    ContentType,
    Deserialize,
    Payload,
}

impl View for CsvExtractError {
    type V = Failure;

    open spec fn view(&self) -> Failure {
        match self {
            CsvExtractError::TooLong { length, limit } => Failure::TooLong {
                length: *length,
                limit: *limit,
            },
            CsvExtractError::OverflowKnownLength { length } => Failure::OverflowKnownLength {
                length: *length,
            },
            CsvExtractError::Overflow { limit } => Failure::Overflow { limit: *limit },
            CsvExtractError::ContentType => Failure::ContentType,
            CsvExtractError::Deserialize(_) => Failure::Deserialize,
            CsvExtractError::Payload(_) => Failure::Payload,
        }
    }
}

/// HTTP status 400, Bad Request.
pub const BAD_REQUEST: u16 = 400;

/// HTTP status 413, Payload Too Large.
pub const PAYLOAD_TOO_LARGE: u16 = 413;

/// The status that `actix_web::ResponseError::status_code` gives for a
/// transport error, as a number.
///
/// Not proved: that it is 413 or 400. The impl of `ResponseError` for
/// `PayloadError` answers 413 for its size-limit variant and 400 for the rest.
#[verifier::external_body]
fn transport_status(err: &PayloadError) -> (code: u16)
    ensures
        code == PAYLOAD_TOO_LARGE || code == BAD_REQUEST,
{
    actix_web::ResponseError::status_code(err).as_u16()
}

impl CsvExtractError {
    /// The class of HTTP status under which the error is reported: 413 where
    /// the body is too large, 400 where the client sent something that cannot
    /// be read, and for a transport error the status of that error itself.
    pub fn status_code(&self) -> (code: u16)
        ensures
            self@ is TooLong || self@ is OverflowKnownLength || self@ is Overflow ==> code
                == PAYLOAD_TOO_LARGE,
            self@ is ContentType || self@ is Deserialize ==> code == BAD_REQUEST,
            self@ is Payload ==> code == PAYLOAD_TOO_LARGE || code == BAD_REQUEST,
    {
        match self {
            CsvExtractError::TooLong { .. }
            | CsvExtractError::OverflowKnownLength { .. }
            | CsvExtractError::Overflow { .. } => PAYLOAD_TOO_LARGE,
            CsvExtractError::Payload(err) => transport_status(err),
            _ => BAD_REQUEST,
        }
    }
}

} // verus!
