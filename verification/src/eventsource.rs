//! The reconnecting event-source state machine: connect, stream, classify
//! errors, back off and retry. The machine here decides; the caller does
//! the outside work it asks for — issuing the HTTP request, reading the
//! response, sleeping — and reports each outcome back.

use crate::backoff::{Backoff, MinimumBackoffDuration};
use crate::errors::{IoErrorKind, SseDecodeError};
use crate::frame::{Event, Frame};
use crate::retryable::{Retryable, TransportError};
use vstd::prelude::*;

verus! {

/// Why the event stream stopped or an attempt failed.
#[derive(Debug)]
pub enum EventSourceError {
    /// The request template cannot be re-issued.
    RequestCloneError,
    /// The HTTP exchange failed.
    RequestError(TransportError),
    /// The backoff gave up after this many attempts; the last error that
    /// drove the retries is carried along.
    MaxRetriesExceeded(usize, Option<Box<EventSourceError>>),
    /// The SSE bytes could not be decoded.
    DecodeError(SseDecodeError),
    /// No bytes arrived within the read-idle window of this many
    /// milliseconds.
    ReadTimeoutElapsed(u64),
    /// An I/O failure under the response stream.
    Io(IoErrorKind),
    /// A redirect chain ran past the permitted depth.
    TooManyRedirects(usize),
}

impl Retryable for EventSourceError {
    /// Decode, read-idle and I/O failures retry per their own
    /// classification; an unre-issuable request, an exhausted backoff and a
    /// runaway redirect chain are fatal.
    open spec fn spec_is_retryable(&self) -> bool {
        match self {
            EventSourceError::RequestCloneError => false,
            EventSourceError::RequestError(e) => e.spec_is_retryable(),
            EventSourceError::MaxRetriesExceeded(..) => false,
            EventSourceError::DecodeError(_) => true,
            EventSourceError::ReadTimeoutElapsed(_) => true,
            EventSourceError::Io(k) => k.spec_is_retryable(),
            EventSourceError::TooManyRedirects(_) => false,
        }
    }

    fn is_retryable(&self) -> (r: bool) {
        match self {
            EventSourceError::RequestCloneError => false,
            EventSourceError::RequestError(e) => e.is_retryable(),
            EventSourceError::MaxRetriesExceeded(..) => false,
            EventSourceError::DecodeError(_) => true,
            EventSourceError::ReadTimeoutElapsed(_) => true,
            EventSourceError::Io(k) => k.is_retryable(),
            EventSourceError::TooManyRedirects(_) => false,
        }
    }
}

/// Where the reconnecting stream stands.
#[derive(Debug, Clone, Copy, PartialEq, Eq, Structural)]
pub enum EventSourceState {
    /// Fresh; nothing attempted yet.
    Initial,
    /// A consumer asked for a reconnect.
    ForceReconnect,
    /// About to issue a request.
    New,
    /// A request is in flight.
    Connecting,
    /// A response body is being decoded into frames.
    Streaming,
    /// Sleeping this many milliseconds before the next attempt.
    WaitingForRetry(u64),
    /// Terminal; polls report end of stream.
    Closed,
}

/// What the caller must put in the next request.
#[derive(Debug, Clone, PartialEq, Eq)]
pub struct RequestPlan {
    /// The URL learned from a permanent redirect, to be used in place of
    /// the configured one; `None` when none was learned.
    pub url: Option<String>,
    /// The value for the `Last-Event-ID` header, when one is known.
    pub last_event_id: Option<Vec<u8>>,
}

/// The byte sequences inside an optional id.
pub open spec fn opt_bytes_view(x: Option<Vec<u8>>) -> Option<Seq<u8>> {
    match x {
        Some(v) => Some(v@),
        None => None,
    }
}

/// What the caller should do next.
#[derive(Debug, Clone, PartialEq, Eq)]
pub enum PollAction {
    /// Issue an HTTP request per the plan, then report the outcome with
    /// [`EventSource::on_connect_success`] or [`EventSource::on_error`].
    Connect(RequestPlan),
    /// Wait for the in-flight request to finish.
    AwaitResponse,
    /// Read the next frame from the response and report it with
    /// [`EventSource::on_frame`], [`EventSource::on_stream_end`] or
    /// [`EventSource::on_error`].
    ReadFrame,
    /// Sleep this many milliseconds, then report
    /// [`EventSource::on_timer_fired`].
    Sleep(u64),
    /// The stream has ended.
    Finished,
}

/// What becomes of a reported error.
#[derive(Debug)]
pub enum ErrorDisposition {
    /// Retryable: sleep this many milliseconds, then report
    /// [`EventSource::on_timer_fired`].
    RetryAfter(u64),
    /// Fatal: surface this error and stop.
    Fatal(EventSourceError),
}

/// What to do with a redirect response.
#[derive(Debug)]
pub enum RedirectDecision {
    /// Too many hops: fail with the carried error.
    Fail(EventSourceError),
    /// A permanent redirect: store the new URL for future attempts, then
    /// follow it.
    StoreAndFollow,
    /// Follow per the base policy, without storing anything.
    Follow,
}

/// A long-lived reconnecting SSE stream, as a state machine over plain
/// values. The caller drives it: `next_action` says what outside work to
/// do, and the `on_*` methods report what happened.
#[derive(Debug)]
pub struct EventSource<B> {
    pub state: EventSourceState,
    pub backoff: MinimumBackoffDuration<B>,
    pub retry_attempts: usize,
    pub last_event_id: Option<Vec<u8>>,
    pub read_timeout_ms: u64,
    pub effective_url: Option<String>,
    pub is_retrying: bool,
}

/// The default per-chunk read-idle timeout: five minutes.
pub const DEFAULT_READ_TIMEOUT_MS: u64 = 300000;

impl<B: Backoff> EventSource<B> {
    /// A fresh stream over the given backoff policy, resuming from
    /// `last_event_id` when one is carried over.
    pub fn try_with_backoff(last_event_id: Option<Vec<u8>>, backoff: B) -> (r: Self)
        ensures
            r.state == EventSourceState::Initial,
            r.retry_attempts == 0,
            r.last_event_id == last_event_id,
            r.read_timeout_ms == DEFAULT_READ_TIMEOUT_MS,
            r.effective_url is None,
            !r.is_retrying,
            r.backoff.minimum_duration == 0,
    {
        Self {
            state: EventSourceState::Initial,
            backoff: MinimumBackoffDuration::new(backoff, 0),
            retry_attempts: 0,
            last_event_id,
            read_timeout_ms: DEFAULT_READ_TIMEOUT_MS,
            effective_url: None,
            is_retrying: false,
        }
    }

    /// The id to resume from, as it stands.
    pub fn last_event_id(&self) -> (r: Option<Vec<u8>>)
        ensures
            match (r, self.last_event_id) {
                (Some(a), Some(b)) => a@ == b@,
                (None, None) => true,
                _ => false,
            },
    {
        match &self.last_event_id {
            Some(v) => {
                let c = v.clone();
                proof {
                    assert(c@ =~= v@);
                }
                Some(c)
            },
            None => None,
        }
    }

    /// The per-chunk read-idle timeout in milliseconds.
    pub fn read_timeout(&self) -> (r: u64)
        ensures
            r == self.read_timeout_ms,
    {
        self.read_timeout_ms
    }

    /// Sets the per-chunk read-idle timeout in milliseconds.
    pub fn set_read_timeout(&mut self, ms: u64)
        ensures
            *final(self) == (EventSource { read_timeout_ms: ms, ..*old(self) }),
    {
        self.read_timeout_ms = ms;
    }

    /// Asks the machine what to do next, advancing through the states that
    /// need no outside work: a fresh or reconnecting stream moves to
    /// `Connecting` and hands back the request to issue.
    pub fn next_action(&mut self) -> (r: PollAction)
        ensures
            final(self).backoff.minimum_duration == old(self).backoff.minimum_duration,
            final(self).retry_attempts == old(self).retry_attempts,
            final(self).last_event_id == old(self).last_event_id,
            final(self).read_timeout_ms == old(self).read_timeout_ms,
            final(self).effective_url == old(self).effective_url,
            final(self).is_retrying == old(self).is_retrying,
            match old(self).state {
                EventSourceState::Initial | EventSourceState::ForceReconnect
                | EventSourceState::New => final(self).state == EventSourceState::Connecting && (
                r matches PollAction::Connect(plan) && plan.url == old(self).effective_url
                    && opt_bytes_view(plan.last_event_id) == opt_bytes_view(
                    old(self).last_event_id,
                )),
                EventSourceState::Connecting => final(self).state == old(self).state && r
                    == PollAction::AwaitResponse,
                EventSourceState::Streaming => final(self).state == old(self).state && r
                    == PollAction::ReadFrame,
                EventSourceState::WaitingForRetry(d) => final(self).state == old(self).state && r
                    == PollAction::Sleep(d),
                EventSourceState::Closed => final(self).state == old(self).state && r
                    == PollAction::Finished,
            },
    {
        match self.state {
            EventSourceState::Initial => {
                // Reset so that an earlier life's exhaustion is forgotten.
                self.backoff.reset();
                self.state = EventSourceState::New;
                self.plan_request()
            },
            EventSourceState::ForceReconnect => {
                self.state = EventSourceState::New;
                self.plan_request()
            },
            EventSourceState::New => self.plan_request(),
            EventSourceState::Connecting => PollAction::AwaitResponse,
            EventSourceState::Streaming => PollAction::ReadFrame,
            EventSourceState::WaitingForRetry(d) => PollAction::Sleep(d),
            EventSourceState::Closed => PollAction::Finished,
        }
    }

    /// Builds the request plan and moves to `Connecting`.
    fn plan_request(&mut self) -> (r: PollAction)
        requires
            old(self).state == EventSourceState::New,
        ensures
            *final(self) == (EventSource { state: EventSourceState::Connecting, ..*old(self) }),
            r matches PollAction::Connect(plan) && plan.url == old(self).effective_url
                && opt_bytes_view(plan.last_event_id) == opt_bytes_view(old(self).last_event_id),
    {
        let url = match &self.effective_url {
            Some(u) => {
                let c = u.clone();
                proof {
                    assert(c == *u);
                }
                Some(c)
            },
            None => None,
        };
        let last_event_id = match &self.last_event_id {
            Some(v) => {
                let c = v.clone();
                proof {
                    assert(c@ =~= v@);
                }
                Some(c)
            },
            None => None,
        };
        self.state = EventSourceState::Connecting;
        PollAction::Connect(RequestPlan { url, last_event_id })
    }

    /// Reports that the request template could not be re-issued: the
    /// stream closes with [`EventSourceError::RequestCloneError`].
    pub fn fail_request_clone(&mut self) -> (r: EventSourceError)
        ensures
            *final(self) == (EventSource { state: EventSourceState::Closed, ..*old(self) }),
            r == EventSourceError::RequestCloneError,
    {
        self.state = EventSourceState::Closed;
        EventSourceError::RequestCloneError
    }

    /// Reports a response with a non-error status: the retry counter and
    /// the backoff start over, and frames are read.
    pub fn on_connect_success(&mut self)
        requires
            old(self).state == EventSourceState::Connecting,
        ensures
            final(self).state == EventSourceState::Streaming,
            final(self).retry_attempts == 0,
            final(self).backoff.minimum_duration == old(self).backoff.minimum_duration,
            final(self).last_event_id == old(self).last_event_id,
            final(self).effective_url == old(self).effective_url,
            final(self).read_timeout_ms == old(self).read_timeout_ms,
            final(self).is_retrying == old(self).is_retrying,
    {
        self.retry_attempts = 0;
        self.backoff.reset();
        self.state = EventSourceState::Streaming;
    }

    /// Reports one decoded frame. An event is handed back to be yielded,
    /// recording its id when it differs from the one held; a comment is
    /// absorbed; a retry frame raises the backoff floor.
    pub fn on_frame(&mut self, frame: Frame) -> (r: Option<Event>)
        requires
            old(self).state == EventSourceState::Streaming,
        ensures
            final(self).state == EventSourceState::Streaming,
            final(self).retry_attempts == old(self).retry_attempts,
            final(self).effective_url == old(self).effective_url,
            final(self).read_timeout_ms == old(self).read_timeout_ms,
            final(self).is_retrying == old(self).is_retrying,
            match frame {
                Frame::Event(ev) => {
                    &&& r == Some(ev)
                    &&& opt_bytes_view(final(self).last_event_id) == (if ev.id is Some {
                        opt_bytes_view(ev.id)
                    } else {
                        opt_bytes_view(old(self).last_event_id)
                    })
                    &&& final(self).backoff.minimum_duration == old(self).backoff.minimum_duration
                },
                Frame::Comment(_) => r is None && final(self).last_event_id == old(self).last_event_id
                    && final(self).backoff.minimum_duration == old(self).backoff.minimum_duration,
                Frame::Retry(ms) => {
                    &&& r is None
                    &&& final(self).last_event_id == old(self).last_event_id
                    &&& final(self).backoff.minimum_duration == (if ms <= u64::MAX {
                        ms as int
                    } else {
                        u64::MAX as int
                    })
                },
            },
    {
        match frame {
            Frame::Event(ev) => {
                if ev.id.is_some() {
                    let id_copy = match &ev.id {
                        Some(v) => {
                            let c = v.clone();
                            proof {
                                assert(c@ =~= v@);
                            }
                            Some(c)
                        },
                        None => None,
                    };
                    self.last_event_id = id_copy;
                }
                Some(ev)
            },
            Frame::Comment(_) => None,
            Frame::Retry(ms) => {
                let floor: u64 = if ms <= u64::MAX as u128 {
                    ms as u64
                } else {
                    u64::MAX
                };
                self.backoff.set_minimum_duration(floor);
                None
            },
        }
    }

    /// Reports the orderly end of the response stream: a normal
    /// termination, with no automatic reconnect.
    pub fn on_stream_end(&mut self)
        requires
            old(self).state == EventSourceState::Streaming,
        ensures
            *final(self) == (EventSource { state: EventSourceState::Closed, ..*old(self) }),
    {
        self.state = EventSourceState::Closed;
    }

    /// Reports a failure of the current attempt. A retryable error backs
    /// off and schedules another attempt — resetting the backoff on the
    /// first error of a chain — until the policy is exhausted; a fatal
    /// error, or exhaustion, closes the stream.
    pub fn on_error(&mut self, err: EventSourceError) -> (r: ErrorDisposition)
        ensures
            final(self).retry_attempts == (if old(self).retry_attempts < usize::MAX {
                old(self).retry_attempts + 1
            } else {
                usize::MAX as int
            }),
            final(self).last_event_id == old(self).last_event_id,
            final(self).effective_url == old(self).effective_url,
            final(self).read_timeout_ms == old(self).read_timeout_ms,
            final(self).backoff.minimum_duration == old(self).backoff.minimum_duration,
            !err.spec_is_retryable() ==> final(self).state == EventSourceState::Closed && r
                == ErrorDisposition::Fatal(err) && final(self).is_retrying == old(self).is_retrying,
            err.spec_is_retryable() ==> final(self).is_retrying && (match r {
                ErrorDisposition::RetryAfter(d) => final(self).state
                    == EventSourceState::WaitingForRetry(d) && d >= final(self).backoff.minimum_duration,
                ErrorDisposition::Fatal(e) => final(self).state == EventSourceState::Closed && e
                    == EventSourceError::MaxRetriesExceeded(
                    final(self).retry_attempts,
                    Some(Box::new(err)),
                ),
            }),
    {
        self.retry_attempts = self.retry_attempts.saturating_add(1);
        if err.is_retryable() {
            if !self.is_retrying {
                self.backoff.reset();
                self.is_retrying = true;
            }
            match self.backoff.next_backoff() {
                Some(d) => {
                    self.state = EventSourceState::WaitingForRetry(d);
                    ErrorDisposition::RetryAfter(d)
                },
                None => {
                    self.state = EventSourceState::Closed;
                    ErrorDisposition::Fatal(
                        EventSourceError::MaxRetriesExceeded(
                            self.retry_attempts,
                            Some(Box::new(err)),
                        ),
                    )
                },
            }
        } else {
            self.state = EventSourceState::Closed;
            ErrorDisposition::Fatal(err)
        }
    }

    /// Reports that the retry timer fired: the next poll issues a fresh
    /// request.
    pub fn on_timer_fired(&mut self)
        requires
            old(self).state matches EventSourceState::WaitingForRetry(_),
        ensures
            *final(self) == (EventSource { state: EventSourceState::New, ..*old(self) }),
    {
        self.state = EventSourceState::New;
    }

    /// Asks for a reconnect: the next poll abandons the current connection
    /// and issues a fresh request.
    pub fn reconnect(&mut self)
        ensures
            *final(self) == (EventSource { state: EventSourceState::ForceReconnect, ..*old(self) }),
    {
        self.state = EventSourceState::ForceReconnect;
    }

    /// Reports the URL learned from a permanent redirect; future attempts
    /// are issued against it.
    pub fn on_permanent_redirect(&mut self, url: String)
        ensures
            *final(self) == (EventSource { effective_url: Some(url), ..*old(self) }),
    {
        self.effective_url = Some(url);
    }
}

/// What to do with a redirect hop: fail the attempt past ten hops, store
/// and follow a permanent redirect, and otherwise follow per the caller's
/// base policy.
pub fn redirect_decision(status: u16, hops: usize) -> (r: RedirectDecision)
    ensures
        hops > 10 ==> r == RedirectDecision::Fail(EventSourceError::TooManyRedirects(hops)),
        hops <= 10 && status == 301 ==> r == RedirectDecision::StoreAndFollow,
        hops <= 10 && status != 301 ==> r == RedirectDecision::Follow,
{
    if hops > 10 {
        RedirectDecision::Fail(EventSourceError::TooManyRedirects(hops))
    } else if status == 301 {
        RedirectDecision::StoreAndFollow
    } else {
        RedirectDecision::Follow
    }
}

} // verus!
