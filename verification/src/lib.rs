//! A reconnecting Server-Sent Events (SSE) client pipeline: a byte-level SSE
//! codec, a retry-aware event-source state machine, and a cache-merging
//! autoconfiguration consumer that turns an SSE feed of environment records
//! into an ordered stream of insert/update/delete change events.
//!
//! The codec and the merge engine work on plain byte buffers and in-memory
//! maps; all transport I/O is left to the caller, which drives the
//! [`eventsource::EventSource`] state machine with the connection outcomes,
//! decoded frames, and timer expirations it observes.

pub mod autoconfig;
pub mod backoff;
pub mod bufext;
pub mod credential;
pub mod decoder;
pub mod encoder;
pub mod errors;
pub mod eventsource;
pub mod field_decoder;
pub mod frame;
pub mod messages;
pub mod retryable;
pub mod roundtrip;
pub mod unicode;
