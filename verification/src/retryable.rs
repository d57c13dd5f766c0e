//! Classification of transport, I/O and decode errors into retryable and
//! fatal.

use crate::errors::{IoErrorKind, SseDecodeError};
use vstd::prelude::*;

verus! {

/// An error whose resolution strategy may be to back off and try again.
pub trait Retryable {
    /// Whether retrying can resolve this error.
    spec fn spec_is_retryable(&self) -> bool;

    /// Whether retrying can resolve this error.
    fn is_retryable(&self) -> (r: bool)
        ensures
            r == self.spec_is_retryable(),
    ;
}

/// An HTTP transport failure, mirrored as plain values: the response status
/// where one was received, and otherwise what stage of the exchange failed.
#[derive(Debug, Clone, Copy, PartialEq, Eq)]
pub struct TransportError {
    /// The response status, when the failure came with a response.
    pub status: Option<u16>,
    /// The connection could not be established.
    pub is_connect: bool,
    /// The exchange timed out.
    pub is_timeout: bool,
    /// The response body could not be decoded.
    pub is_decode: bool,
    /// The failure arose while building or sending the request.
    pub is_request: bool,
    /// The failure arose in a request or response body.
    pub is_body: bool,
}

impl Retryable for TransportError {
    /// Retryable when the status is server-side (5xx), request timeout
    /// (408) or too-many-requests (429); without a status, when the error
    /// is a connect, timeout, decode, or non-request body error.
    open spec fn spec_is_retryable(&self) -> bool {
        match self.status {
            Some(s) => (500 <= s <= 599) || s == 408 || s == 429,
            None => self.is_connect || self.is_timeout || self.is_decode || (!self.is_request
                && self.is_body),
        }
    }

    fn is_retryable(&self) -> (r: bool) {
        match self.status {
            Some(s) => (500 <= s && s <= 599) || s == 408 || s == 429,
            None => self.is_connect || self.is_timeout || self.is_decode || (!self.is_request
                && self.is_body),
        }
    }
}

impl Retryable for IoErrorKind {
    /// Retryable for connection failures, busy addresses, timeouts,
    /// interruptions and truncated streams.
    open spec fn spec_is_retryable(&self) -> bool {
        match self {
            IoErrorKind::ConnectionRefused => true,
            IoErrorKind::ConnectionReset => true,
            IoErrorKind::ConnectionAborted => true,
            IoErrorKind::AddrInUse => true,
            IoErrorKind::WouldBlock => true,
            IoErrorKind::TimedOut => true,
            IoErrorKind::Interrupted => true,
            IoErrorKind::UnexpectedEof => true,
            IoErrorKind::Other => false,
        }
    }

    fn is_retryable(&self) -> (r: bool) {
        match self {
            IoErrorKind::ConnectionRefused => true,
            IoErrorKind::ConnectionReset => true,
            IoErrorKind::ConnectionAborted => true,
            IoErrorKind::AddrInUse => true,
            IoErrorKind::WouldBlock => true,
            IoErrorKind::TimedOut => true,
            IoErrorKind::Interrupted => true,
            IoErrorKind::UnexpectedEof => true,
            IoErrorKind::Other => false,
        }
    }
}

impl Retryable for SseDecodeError {
    /// Decode errors are always retryable: the stream reconnects and the
    /// server replays from the last event id.
    open spec fn spec_is_retryable(&self) -> bool {
        true
    }

    fn is_retryable(&self) -> (r: bool) {
        true
    }
}

} // verus!
