//! Error values reported by the SSE decoder and encoder.

use vstd::prelude::*;

verus! {

/// The incoming data would push the decoder's internal buffers past the
/// configured ceiling.
#[derive(Debug, Clone, PartialEq, Eq)]
pub struct ExceededSizeLimitError {
    pub limit: usize,
    pub incoming_len: usize,
    pub consumed_len: usize,
}

impl ExceededSizeLimitError {
    pub open spec fn spec_limit(&self) -> usize {
        self.limit
    }

    pub open spec fn spec_incoming_len(&self) -> usize {
        self.incoming_len
    }

    pub open spec fn spec_consumed_len(&self) -> usize {
        self.consumed_len
    }

    pub fn new(limit: usize, incoming_len: usize, consumed_len: usize) -> (r: Self)
        ensures
            r.spec_limit() == limit,
            r.spec_incoming_len() == incoming_len,
            r.spec_consumed_len() == consumed_len,
    {
        Self { limit, incoming_len, consumed_len }
    }

    /// The ceiling that was configured when the decoder was built.
    pub fn limit(&self) -> (r: usize)
        ensures
            r == self.spec_limit(),
    {
        self.limit
    }

    /// How many bytes the rejected append would have added.
    pub fn incoming_len(&self) -> (r: usize)
        ensures
            r == self.spec_incoming_len(),
    {
        self.incoming_len
    }

    /// How many bytes the decoder's buffers already held.
    pub fn consumed_len(&self) -> (r: usize)
        ensures
            r == self.spec_consumed_len(),
    {
        self.consumed_len
    }
}

/// Position and shape of the first ill-formed byte sequence found while
/// checking a buffer for UTF-8 validity.
#[derive(Debug, Clone, Copy, PartialEq, Eq)]
pub struct Utf8ErrorInfo {
    /// Length of the longest well-formed prefix.
    pub valid_up_to: usize,
    /// Length of the offending sequence, or `None` when the buffer ends in
    /// the middle of what could still become a well-formed sequence.
    pub error_len: Option<usize>,
}

/// A field value that must be UTF-8 (an event name or an event id) was not.
#[derive(Debug, Clone, PartialEq, Eq)]
pub struct DecodeUtf8Error {
    pub info: Utf8ErrorInfo,
    pub bytes: Vec<u8>,
}

impl DecodeUtf8Error {
    pub open spec fn spec_info(&self) -> Utf8ErrorInfo {
        self.info
    }

    pub open spec fn spec_bytes(&self) -> Seq<u8> {
        self.bytes@
    }

    pub fn new(info: Utf8ErrorInfo, bytes: Vec<u8>) -> (r: Self)
        ensures
            r.spec_info() == info,
            r.spec_bytes() == bytes@,
    {
        Self { info, bytes }
    }

    /// Where and how the byte check failed.
    pub fn utf8_error(&self) -> (r: Utf8ErrorInfo)
        ensures
            r == self.spec_info(),
    {
        self.info
    }

    /// The bytes that failed to decode.
    pub fn as_bytes(&self) -> (r: &[u8])
        ensures
            r@ == self.spec_bytes(),
    {
        self.bytes.as_slice()
    }

    /// Consumes the error, returning the bytes that failed to decode.
    pub fn into_bytes(self) -> (r: Vec<u8>)
        ensures
            r@ == self.spec_bytes(),
    {
        self.bytes
    }

    /// Consumes the error, returning the failure description and the bytes.
    pub fn into_parts(self) -> (r: (Utf8ErrorInfo, Vec<u8>))
        ensures
            r.0 == self.spec_info(),
            r.1@ == self.spec_bytes(),
    {
        (self.info, self.bytes)
    }
}

/// The kind of an I/O failure observed by the transport, mirrored as a plain
/// value so that it can be classified here.
#[derive(Debug, Clone, Copy, PartialEq, Eq)]
pub enum IoErrorKind {
    ConnectionRefused,
    ConnectionReset,
    ConnectionAborted,
    AddrInUse,
    WouldBlock,
    TimedOut,
    Interrupted,
    UnexpectedEof,
    Other,
}

/// Unrecoverable decoder errors. Once one is reported the decoder is closed
/// and discards input until it is reset.
#[derive(Debug, Clone, PartialEq, Eq)]
pub enum SseDecodeError {
    /// An I/O failure in the stream that feeds the decoder.
    Io(IoErrorKind),
    /// The input ended while a partial event was still buffered.
    UnexpectedEof,
    /// An event name or id was not valid UTF-8.
    Utf8Error(DecodeUtf8Error),
    /// The configured buffer ceiling was breached.
    ExceededSizeLimit(ExceededSizeLimitError),
}

/// Errors reported by the encoder.
#[derive(Debug, Clone, PartialEq, Eq)]
pub enum SseEncodeError {
    /// An I/O failure in the sink that the encoded bytes are written to.
    Io(IoErrorKind),
    /// An event held data that was required to be UTF-8 but was not.
    Utf8(DecodeUtf8Error),
}

} // verus!
