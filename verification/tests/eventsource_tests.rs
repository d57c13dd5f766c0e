use ldactl::backoff::{Backoff, ExponentialBackoff, MinimumBackoffDuration};
use ldactl::decoder::SseDecoder;
use ldactl::errors::IoErrorKind;
use ldactl::eventsource::{
    redirect_decision, ErrorDisposition, EventSource, EventSourceError, EventSourceState,
    PollAction, RedirectDecision,
};
use ldactl::frame::{Event, Frame};
use ldactl::retryable::{Retryable, TransportError};

/// A backoff that hands out a fixed script of delays.
struct ScriptedBackoff {
    delays: Vec<Option<u64>>,
    next: usize,
}

impl Backoff for ScriptedBackoff {
    fn next_backoff(&mut self) -> Option<u64> {
        let d = self.delays.get(self.next).cloned().unwrap_or(None);
        self.next += 1;
        d
    }

    fn reset(&mut self) {}
}

fn transport_status(status: u16) -> EventSourceError {
    EventSourceError::RequestError(TransportError {
        status: Some(status),
        is_connect: false,
        is_timeout: false,
        is_decode: false,
        is_request: false,
        is_body: false,
    })
}

#[test]
fn two_retryable_errors_then_exhaustion() {
    let backoff = ScriptedBackoff { delays: vec![Some(50), None], next: 0 };
    let mut source = EventSource::try_with_backoff(None, backoff);
    assert!(matches!(source.next_action(), PollAction::Connect(_)));

    // first retryable error: one attempt, a 50 ms wait
    let first = source.on_error(transport_status(503));
    assert!(matches!(first, ErrorDisposition::RetryAfter(50)));
    assert_eq!(source.state, EventSourceState::WaitingForRetry(50));
    assert!(matches!(source.next_action(), PollAction::Sleep(50)));
    source.on_timer_fired();
    assert!(matches!(source.next_action(), PollAction::Connect(_)));

    // second retryable error: the backoff is exhausted after two attempts
    let second = source.on_error(transport_status(503));
    match second {
        ErrorDisposition::Fatal(EventSourceError::MaxRetriesExceeded(attempts, src)) => {
            assert_eq!(attempts, 2);
            assert!(matches!(
                src.as_deref(),
                Some(EventSourceError::RequestError(_))
            ));
        }
        other => panic!("unexpected disposition: {:?}", other),
    }
    assert_eq!(source.state, EventSourceState::Closed);
    assert!(matches!(source.next_action(), PollAction::Finished));
}

#[test]
fn fatal_error_closes_immediately() {
    let backoff = ScriptedBackoff { delays: vec![Some(50)], next: 0 };
    let mut source = EventSource::try_with_backoff(None, backoff);
    assert!(matches!(source.next_action(), PollAction::Connect(_)));
    let disposition = source.on_error(transport_status(401));
    assert!(matches!(
        disposition,
        ErrorDisposition::Fatal(EventSourceError::RequestError(_))
    ));
    assert_eq!(source.state, EventSourceState::Closed);
}

#[test]
fn permanent_redirect_rewrites_future_requests() {
    let mut source =
        EventSource::try_with_backoff(None, ExponentialBackoff::new());
    match source.next_action() {
        PollAction::Connect(plan) => assert_eq!(plan.url, None),
        other => panic!("unexpected action: {:?}", other),
    }
    // a 301 within the redirect budget stores the new URL
    assert!(matches!(redirect_decision(301, 1), RedirectDecision::StoreAndFollow));
    source.on_permanent_redirect(String::from("https://example.invalid/relay"));
    // the connection fails and is retried: the second attempt goes to the new URL
    assert!(matches!(source.on_error(transport_status(503)), ErrorDisposition::RetryAfter(_)));
    source.on_timer_fired();
    match source.next_action() {
        PollAction::Connect(plan) => {
            assert_eq!(plan.url.as_deref(), Some("https://example.invalid/relay"));
        }
        other => panic!("unexpected action: {:?}", other),
    }
}

#[test]
fn redirect_depth_is_bounded() {
    assert!(matches!(redirect_decision(302, 3), RedirectDecision::Follow));
    assert!(matches!(
        redirect_decision(301, 11),
        RedirectDecision::Fail(EventSourceError::TooManyRedirects(11))
    ));
}

#[test]
fn retry_frame_raises_backoff_floor() {
    // S2: `retry: 100\n` decodes to a 100 ms retry directive, and the
    // transport raises the backoff floor accordingly.
    let mut bytes: Vec<u8> = b"retry: 100\n".to_vec();
    let mut decoder = SseDecoder::new();
    let frame = decoder.decode(&mut bytes).unwrap().unwrap();
    assert_eq!(frame, Frame::Retry(100));

    let backoff = ScriptedBackoff { delays: vec![Some(10)], next: 0 };
    let mut source = EventSource::try_with_backoff(None, backoff);
    assert!(matches!(source.next_action(), PollAction::Connect(_)));
    source.on_connect_success();
    assert_eq!(source.state, EventSourceState::Streaming);
    assert!(source.on_frame(frame).is_none());
    assert_eq!(source.backoff.minimum_duration, 100);

    // the next delay honors the floor even though the policy offered less
    let disposition = source.on_error(transport_status(503));
    assert!(matches!(disposition, ErrorDisposition::RetryAfter(100)));
}

#[test]
fn events_update_last_event_id_before_yielding() {
    let mut source =
        EventSource::try_with_backoff(Some(b"0".to_vec()), ExponentialBackoff::new());
    assert!(matches!(source.next_action(), PollAction::Connect(_)));
    source.on_connect_success();
    let ev = Event { id: Some(b"7".to_vec()), name: b"put".to_vec(), data: b"{}".to_vec() };
    let yielded = source.on_frame(Frame::Event(ev.clone())).unwrap();
    assert_eq!(yielded, ev);
    assert_eq!(source.last_event_id(), Some(b"7".to_vec()));
    // a comment is absorbed and changes nothing
    assert!(source.on_frame(Frame::Comment(b"hi".to_vec())).is_none());
    assert_eq!(source.last_event_id(), Some(b"7".to_vec()));
    // an event without an id keeps the recorded one
    let anon = Event { id: None, name: b"put".to_vec(), data: b"{}".to_vec() };
    assert!(source.on_frame(Frame::Event(anon)).is_some());
    assert_eq!(source.last_event_id(), Some(b"7".to_vec()));
}

#[test]
fn classifier_matches_status_and_kind() {
    assert!(transport_status(500).is_retryable());
    assert!(transport_status(503).is_retryable());
    assert!(transport_status(408).is_retryable());
    assert!(transport_status(429).is_retryable());
    assert!(!transport_status(400).is_retryable());
    assert!(!transport_status(401).is_retryable());
    assert!(!transport_status(301).is_retryable());
    assert!(IoErrorKind::ConnectionReset.is_retryable());
    assert!(IoErrorKind::UnexpectedEof.is_retryable());
    assert!(!IoErrorKind::Other.is_retryable());
    assert!(EventSourceError::ReadTimeoutElapsed(300000).is_retryable());
    assert!(EventSourceError::DecodeError(ldactl::errors::SseDecodeError::UnexpectedEof)
        .is_retryable());
    assert!(!EventSourceError::RequestCloneError.is_retryable());
    assert!(!EventSourceError::TooManyRedirects(11).is_retryable());
    assert!(!EventSourceError::MaxRetriesExceeded(2, None).is_retryable());
}

#[test]
fn minimum_backoff_clamps_from_below() {
    let mut wrapped = MinimumBackoffDuration::new(
        ScriptedBackoff { delays: vec![Some(10), Some(500), None], next: 0 },
        200,
    );
    assert_eq!(wrapped.next_backoff(), Some(200));
    assert_eq!(wrapped.next_backoff(), Some(500));
    assert_eq!(wrapped.next_backoff(), None);
    wrapped.set_minimum_duration(900);
    assert_eq!(wrapped.minimum_duration, 900);
}

#[test]
fn exponential_backoff_doubles_to_cap_and_exhausts() {
    let mut policy = ExponentialBackoff::with_intervals(100, 350, Some(1000));
    assert_eq!(policy.step(), Some(100));
    assert_eq!(policy.step(), Some(200));
    assert_eq!(policy.step(), Some(350));
    assert_eq!(policy.step(), Some(350));
    assert_eq!(policy.step(), Some(350));
    // 1350 ms handed out: past the 1000 ms budget
    assert_eq!(policy.step(), None);
    policy.restart();
    assert_eq!(policy.step(), Some(100));
}

#[test]
fn stream_end_is_terminal() {
    let mut source =
        EventSource::try_with_backoff(None, ExponentialBackoff::new());
    assert!(matches!(source.next_action(), PollAction::Connect(_)));
    source.on_connect_success();
    source.on_stream_end();
    assert!(matches!(source.next_action(), PollAction::Finished));
}

#[test]
fn unclonable_request_is_fatal() {
    let mut source = EventSource::try_with_backoff(None, ExponentialBackoff::new());
    assert!(matches!(source.next_action(), PollAction::Connect(_)));
    let err = source.fail_request_clone();
    assert!(matches!(err, EventSourceError::RequestCloneError));
    assert!(!err.is_retryable());
    assert!(matches!(source.next_action(), PollAction::Finished));
}
