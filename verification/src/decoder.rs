//! The SSE decoder: consumes field frames from the scanner, accumulates the
//! event-type / last-id / data buffers, and dispatches [`Frame`] values
//! according to the event-stream processing rules.
//!
//! A configurable ceiling bounds the bytes held across the three buffers;
//! breaching it closes the decoder permanently until [`SseDecoder::reset`].

use crate::bufext::{extend_bytes, rbump, rbump_if};
use crate::errors::{
    DecodeUtf8Error, ExceededSizeLimitError, IoErrorKind, SseDecodeError, Utf8ErrorInfo,
};
use crate::field_decoder::{
    scan_spec, Field, FieldFrame, FieldFrameView, FieldKind, FieldKindView, ScanState,
    SseFieldDecoder, CR, LF,
};
use crate::frame::{Event, EventView, Frame, FrameView};
use crate::unicode::{check_utf8, utf8_scan};
use crate::field_decoder::lemma_scan_progress;
use vstd::prelude::*;
use vstd::utf8::valid_utf8;

verus! {

/// The bytes of the default event type, `message`.
pub open spec fn message_name() -> Seq<u8> {
    seq![109u8, 101, 115, 115, 97, 103, 101]
}

/// Mathematical image of an [`SseDecodeError`].
pub ghost enum DecodeErrorView {
    Io(IoErrorKind),
    UnexpectedEof,
    Utf8 { valid_up_to: int, error_len: Option<int>, bytes: Seq<u8> },
    ExceededSizeLimit { limit: int, incoming: int, consumed: int },
}

impl View for SseDecodeError {
    type V = DecodeErrorView;

    open spec fn view(&self) -> DecodeErrorView {
        match self {
            SseDecodeError::Io(k) => DecodeErrorView::Io(*k),
            SseDecodeError::UnexpectedEof => DecodeErrorView::UnexpectedEof,
            SseDecodeError::Utf8Error(e) => DecodeErrorView::Utf8 {
                valid_up_to: e.info.valid_up_to as int,
                error_len: match e.info.error_len {
                    Some(n) => Some(n as int),
                    None => None,
                },
                bytes: e.bytes@,
            },
            SseDecodeError::ExceededSizeLimit(e) => DecodeErrorView::ExceededSizeLimit {
                limit: e.limit as int,
                incoming: e.incoming_len as int,
                consumed: e.consumed_len as int,
            },
        }
    }
}

/// Mathematical image of an [`SseDecoder`].
pub ghost struct DecoderView {
    pub scanner: ScanState,
    pub data_buf: Seq<u8>,
    pub event_type: Seq<u8>,
    pub event_id: Seq<u8>,
    pub max_buf_len: int,
    pub is_closed: bool,
}

/// Removes the line ending from a scanned field value: the final byte, then
/// one carriage return left before it.
pub open spec fn chomp(v: Seq<u8>) -> Seq<u8> {
    let v1 = if v.len() > 0 {
        v.drop_last()
    } else {
        v
    };
    if v1.len() > 0 && v1.last() == CR {
        v1.drop_last()
    } else {
        v1
    }
}

/// What a `data:` field value adds to the data buffer: the value with its
/// line ending rewritten to a single `\n`.
pub open spec fn data_appended(v: Seq<u8>) -> Seq<u8> {
    if v.len() >= 2 && v[v.len() - 2] == CR && v[v.len() - 1] == LF {
        v.subrange(0, v.len() - 2) + seq![LF]
    } else {
        v
    }
}

/// True when every byte is an ASCII decimal digit.
pub open spec fn is_digits(s: Seq<u8>) -> bool {
    forall|i: int| 0 <= i < s.len() ==> 48 <= #[trigger] s[i] <= 57
}

/// The base-ten value of a sequence of ASCII digits.
pub open spec fn digits_val(s: Seq<u8>) -> int
    decreases s.len(),
{
    if s.len() == 0 {
        0
    } else {
        digits_val(s.drop_last()) * 10 + (s.last() - 48)
    }
}

/// How many bytes the decoder's buffers hold. The default event type does
/// not count: the decoder holds it as a borrowed constant.
pub open spec fn view_buf_len(d: DecoderView) -> int {
    d.data_buf.len() + d.event_id.len() + if d.event_type == message_name() {
        0
    } else {
        d.event_type.len() as int
    }
}

/// The state that a decoder is left in when it closes: buffers reset, the
/// closed flag set.
pub open spec fn close_view(d: DecoderView) -> DecoderView {
    DecoderView {
        scanner: ScanState::Bom,
        data_buf: Seq::empty(),
        event_type: message_name(),
        event_id: Seq::empty(),
        max_buf_len: d.max_buf_len,
        is_closed: true,
    }
}

/// The UTF-8 diagnostic for an ill-formed value.
pub open spec fn utf8_err_of(x: Seq<u8>) -> DecodeErrorView
    recommends
        utf8_scan(x, 0) is Some,
{
    let f = utf8_scan(x, 0)->Some_0;
    DecodeErrorView::Utf8 { valid_up_to: f.at, error_len: f.error_len, bytes: x }
}

/// What dispatching one field frame does to the decoder.
pub ghost enum DispatchResult {
    /// Keep scanning for more frames.
    Continue(DecoderView),
    /// Report this frame.
    Emit(DecoderView, FrameView),
    /// Report no frame for now (an unparsable `retry:` value).
    Stop(DecoderView),
    /// Close and report an error.
    Fail(DecoderView, DecodeErrorView),
}

/// Dispatches one scanned field frame per the event-stream rules: `event`
/// replaces the event type, `data` appends to the data buffer, `id` replaces
/// the event id unless the value holds a NUL byte, `retry` reports a delay
/// when the value is all digits, and an empty line dispatches the buffered
/// event, if any. Values that would push the buffers past the ceiling close
/// the decoder, as do event types and ids that are not UTF-8.
pub open spec fn dispatch_spec(d: DecoderView, f: FieldFrameView) -> DispatchResult {
    match f {
        FieldFrameView::EmptyLine => {
            if d.data_buf.len() == 0 {
                DispatchResult::Continue(DecoderView { event_type: message_name(), ..d })
            } else {
                let data = if d.data_buf.last() == LF {
                    d.data_buf.drop_last()
                } else {
                    d.data_buf
                };
                let ev = EventView {
                    id: if d.event_id.len() == 0 {
                        None
                    } else {
                        Some(d.event_id)
                    },
                    name: d.event_type,
                    data: data,
                };
                DispatchResult::Emit(
                    DecoderView { data_buf: Seq::empty(), event_type: message_name(), ..d },
                    FrameView::Event(ev),
                )
            }
        },
        FieldFrameView::Field(kind, v) => match kind {
            FieldKindView::Data => {
                if v.len() > d.max_buf_len - view_buf_len(d) {
                    DispatchResult::Fail(
                        close_view(d),
                        DecodeErrorView::ExceededSizeLimit {
                            limit: d.max_buf_len,
                            incoming: v.len() as int,
                            consumed: view_buf_len(d),
                        },
                    )
                } else {
                    DispatchResult::Continue(
                        DecoderView { data_buf: d.data_buf + data_appended(v), ..d },
                    )
                }
            },
            FieldKindView::Event => {
                let x = chomp(v);
                if utf8_scan(x, 0) is Some {
                    DispatchResult::Fail(close_view(d), utf8_err_of(x))
                } else {
                    let counted = if x == message_name() {
                        0
                    } else {
                        x.len() as int
                    };
                    if d.data_buf.len() + d.event_id.len() + counted > d.max_buf_len {
                        DispatchResult::Fail(
                            close_view(d),
                            DecodeErrorView::ExceededSizeLimit {
                                limit: d.max_buf_len,
                                incoming: x.len() as int,
                                consumed: view_buf_len(d),
                            },
                        )
                    } else {
                        DispatchResult::Continue(DecoderView { event_type: x, ..d })
                    }
                }
            },
            FieldKindView::Id => {
                let x = chomp(v);
                if exists|i: int| 0 <= i < x.len() && x[i] == 0 {
                    DispatchResult::Continue(d)
                } else if utf8_scan(x, 0) is Some {
                    DispatchResult::Fail(close_view(d), utf8_err_of(x))
                } else {
                    let counted = if d.event_type == message_name() {
                        0
                    } else {
                        d.event_type.len() as int
                    };
                    if d.data_buf.len() + counted + x.len() > d.max_buf_len {
                        DispatchResult::Fail(
                            close_view(d),
                            DecodeErrorView::ExceededSizeLimit {
                                limit: d.max_buf_len,
                                incoming: x.len() as int,
                                consumed: view_buf_len(d),
                            },
                        )
                    } else {
                        DispatchResult::Continue(DecoderView { event_id: x, ..d })
                    }
                }
            },
            FieldKindView::Retry => {
                let x = chomp(v);
                if x.len() > 0 && is_digits(x) && digits_val(x) <= u64::MAX {
                    DispatchResult::Emit(d, FrameView::Retry(digits_val(x)))
                } else {
                    DispatchResult::Stop(d)
                }
            },
            FieldKindView::Comment => DispatchResult::Emit(d, FrameView::Comment(chomp(v))),
            FieldKindView::Unknown(_) => DispatchResult::Continue(d),
        },
    }
}

/// What one decoder call does: the state it leaves behind, the bytes it
/// leaves unconsumed, and what it reports.
pub ghost struct DecodeResult {
    pub state: DecoderView,
    pub rest: Seq<u8>,
    pub outcome: Result<Option<FrameView>, DecodeErrorView>,
}

/// One call of the decoder on state `d` and buffer `src`: a closed decoder
/// swallows the input; otherwise field frames are scanned and dispatched
/// until one produces a report or the input runs short.
pub open spec fn decode_spec(d: DecoderView, src: Seq<u8>) -> DecodeResult
    decreases src.len()
    via check_decode_spec_decreases
{
    if d.is_closed {
        DecodeResult { state: d, rest: Seq::empty(), outcome: Ok(None) }
    } else {
        let sres = scan_spec(d.scanner, src);
        let d1 = DecoderView { scanner: sres.state, ..d };
        match sres.frame {
            None => DecodeResult { state: d1, rest: sres.rest, outcome: Ok(None) },
            Some(f) => match dispatch_spec(d1, f) {
                DispatchResult::Continue(d2) => decode_spec(d2, sres.rest),
                DispatchResult::Emit(d2, fr) => DecodeResult {
                    state: d2,
                    rest: sres.rest,
                    outcome: Ok(Some(fr)),
                },
                DispatchResult::Stop(d2) => DecodeResult {
                    state: d2,
                    rest: sres.rest,
                    outcome: Ok(None),
                },
                DispatchResult::Fail(d2, e) => DecodeResult {
                    state: d2,
                    rest: sres.rest,
                    outcome: Err(e),
                },
            },
        }
    }
}

#[via_fn]
proof fn check_decode_spec_decreases(d: DecoderView, src: Seq<u8>) {
    if !d.is_closed {
        lemma_scan_progress(d.scanner, src);
    }
}

/// What one end-of-stream decoder call does: a trailing report if one can
/// be produced, and otherwise an error when bytes or a partial event are
/// left over.
pub open spec fn decode_eof_spec(d: DecoderView, src: Seq<u8>) -> DecodeResult {
    let r = decode_spec(d, src);
    match r.outcome {
        Ok(None) => {
            if r.rest.len() == 0 && r.state.data_buf.len() == 0 {
                r
            } else {
                DecodeResult {
                    state: close_view(r.state),
                    rest: r.rest,
                    outcome: Err(DecodeErrorView::UnexpectedEof),
                }
            }
        },
        _ => r,
    }
}

/// The report of an exec decoder call, as the model sees it.
pub open spec fn result_view(r: Result<Option<Frame>, SseDecodeError>) -> Result<
    Option<FrameView>,
    DecodeErrorView,
> {
    match r {
        Ok(Some(f)) => Ok(Some(f@)),
        Ok(None) => Ok(None),
        Err(e) => Err(e@),
    }
}

/// The internal buffers of a decoder: the data buffer and the ceiling.
pub type DecoderParts = (Vec<u8>, usize);

/// Streaming SSE decoder.
#[derive(Debug, Clone, PartialEq, Eq)]
pub struct SseDecoder {
    pub field_decoder: SseFieldDecoder,
    pub data_buf: Vec<u8>,
    pub event_type: Vec<u8>,
    pub event_id: Vec<u8>,
    pub max_buf_len: usize,
    pub is_closed: bool,
}

impl View for SseDecoder {
    type V = DecoderView;

    open spec fn view(&self) -> DecoderView {
        DecoderView {
            scanner: self.field_decoder@,
            data_buf: self.data_buf@,
            event_type: self.event_type@,
            event_id: self.event_id@,
            max_buf_len: self.max_buf_len as int,
            is_closed: self.is_closed,
        }
    }
}

/// The initial decoder state for a given ceiling.
pub open spec fn initial_view(max_buf_len: int) -> DecoderView {
    DecoderView {
        scanner: ScanState::Bom,
        data_buf: Seq::empty(),
        event_type: message_name(),
        event_id: Seq::empty(),
        max_buf_len: max_buf_len,
        is_closed: false,
    }
}

impl SseDecoder {
    /// Well-formedness: the event type and id are UTF-8, and an open
    /// decoder's buffers stay within the ceiling.
    pub open spec fn wf(&self) -> bool {
        &&& valid_utf8(self@.event_type)
        &&& valid_utf8(self@.event_id)
        &&& !self@.is_closed ==> view_buf_len(self@) <= self@.max_buf_len
        &&& self@.is_closed ==> self@.data_buf.len() == 0 && self@.event_type == message_name()
            && self@.event_id.len() == 0
    }

    /// A decoder with no effective ceiling on its buffers.
    pub fn new() -> (r: Self)
        ensures
            r@ == initial_view(usize::MAX as int),
            r.wf(),
    {
        Self::with_max_size(usize::MAX)
    }

    /// A decoder whose buffers together may hold at most `max_buf_size`
    /// bytes; input that would exceed that closes the decoder with
    /// [`SseDecodeError::ExceededSizeLimit`].
    pub fn with_max_size(max_buf_size: usize) -> (r: Self)
        ensures
            r@ == initial_view(max_buf_size as int),
            r.wf(),
    {
        let r = Self {
            field_decoder: SseFieldDecoder::new(),
            data_buf: Vec::new(),
            event_type: Self::default_event_type(),
            event_id: Vec::new(),
            max_buf_len: max_buf_size,
            is_closed: false,
        };
        proof {
            lemma_message_name_valid();
        }
        r
    }

    /// The bytes of the default event type, `message`.
    fn default_event_type() -> (r: Vec<u8>)
        ensures
            r@ == message_name(),
    {
        let mut v: Vec<u8> = Vec::new();
        v.push(109);  // 'm'
        v.push(101);  // 'e'
        v.push(115);  // 's'
        v.push(115);  // 's'
        v.push(97);  // 'a'
        v.push(103);  // 'g'
        v.push(101);  // 'e'
        proof {
            assert(v@ =~= message_name());
        }
        v
    }

    /// The data buffer and ceiling, for re-use of the allocation.
    pub fn into_parts(self) -> (r: DecoderParts)
        ensures
            r.0@ == self@.data_buf,
            r.1 == self@.max_buf_len,
    {
        (self.data_buf, self.max_buf_len)
    }

    /// A fresh decoder that re-uses the given buffer's allocation. Any
    /// bytes left in the buffer are discarded.
    pub fn from_parts(parts: DecoderParts) -> (r: Self)
        ensures
            r@ == initial_view(parts.1 as int),
            r.wf(),
    {
        let (mut data_buf, max_buf_len) = parts;
        data_buf.clear();
        let r = Self {
            field_decoder: SseFieldDecoder::new(),
            data_buf,
            event_type: Self::default_event_type(),
            event_id: Vec::new(),
            max_buf_len,
            is_closed: false,
        };
        proof {
            lemma_message_name_valid();
        }
        r
    }

    /// The current event type; `message` when none has been set since the
    /// last dispatch.
    pub fn current_event_type(&self) -> (r: &Vec<u8>)
        ensures
            r@ == self@.event_type,
    {
        &self.event_type
    }

    /// The configured ceiling on the buffers.
    pub fn max_buf_size(&self) -> (r: usize)
        ensures
            r as int == self@.max_buf_len,
    {
        self.max_buf_len
    }

    /// The configured ceiling on the buffers.
    pub fn max_buf_len(&self) -> (r: usize)
        ensures
            r as int == self@.max_buf_len,
    {
        self.max_buf_len
    }

    /// How many bytes the buffers hold now.
    pub fn buf_len(&self) -> (r: usize)
        requires
            self.wf(),
        ensures
            r as int == view_buf_len(self@),
    {
        let counted = if crate::bufext::bytes_eq(
            self.event_type.as_slice(),
            Self::default_event_type().as_slice(),
        ) {
            0
        } else {
            self.event_type.len()
        };
        self.data_buf.len() + self.event_id.len() + counted
    }

    /// How many more bytes the buffers may take.
    pub fn buf_remaining(&self) -> (r: usize)
        requires
            self.wf(),
        ensures
            r as int == if view_buf_len(self@) <= self@.max_buf_len {
                self@.max_buf_len - view_buf_len(self@)
            } else {
                0
            },
    {
        let used = self.buf_len();
        if used <= self.max_buf_len {
            self.max_buf_len - used
        } else {
            0
        }
    }

    /// True once the decoder has reported an error; input is then discarded
    /// until [`Self::reset`].
    pub fn is_closed(&self) -> (r: bool)
        ensures
            r == self@.is_closed,
    {
        self.is_closed
    }

    /// Restores the decoder to its initial state, keeping the ceiling and
    /// the buffer allocations.
    pub fn reset(&mut self)
        ensures
            final(self)@ == initial_view(old(self)@.max_buf_len),
            final(self).wf(),
    {
        self.data_buf.clear();
        self.event_type = Self::default_event_type();
        self.event_id = Vec::new();
        self.field_decoder = SseFieldDecoder::new();
        self.is_closed = false;
        proof {
            lemma_message_name_valid();
        }
    }

    /// Closes the decoder: buffers are cleared so their allocations can be
    /// reclaimed through [`Self::into_parts`].
    fn close(&mut self)
        ensures
            final(self)@ == close_view(old(self)@),
            final(self).wf(),
    {
        self.reset();
        self.is_closed = true;
    }

    /// How many of the buffers' bytes count against the ceiling, leaving
    /// out the borrowed default event type.
    fn counted_len(&self) -> (r: usize)
        requires
            self.wf(),
            !self@.is_closed,
        ensures
            r as int == view_buf_len(self@),
    {
        let counted = if crate::bufext::bytes_eq(
            self.event_type.as_slice(),
            Self::default_event_type().as_slice(),
        ) {
            0
        } else {
            self.event_type.len()
        };
        self.data_buf.len() + self.event_id.len() + counted
    }

    /// Decodes the next frame from `src`, consuming the bytes it reads.
    /// Returns `Ok(None)` when `src` does not yet hold enough input to
    /// produce a frame; the scanned prefix is then buffered internally.
    pub fn decode(&mut self, src: &mut Vec<u8>) -> (r: Result<Option<Frame>, SseDecodeError>)
        requires
            old(self).wf(),
        ensures
            final(self).wf(),
            ({
                let res = decode_spec(old(self)@, old(src)@);
                &&& final(self)@ == res.state
                &&& final(src)@ == res.rest
                &&& result_view(r) == res.outcome
            }),
    {
        if self.is_closed {
            src.clear();
            proof {
                assert(final(src)@ =~= Seq::<u8>::empty());
            }
            return Ok(None);
        }
        loop
            invariant
                !self@.is_closed,
                self.wf(),
                decode_spec(self@, src@) == decode_spec(old(self)@, old(src)@),
            decreases src@.len(),
        {
            let ghost pre = self@;
            let ghost src_pre = src@;
            proof {
                lemma_scan_progress(pre.scanner, src_pre);
            }
            let frame_opt = self.field_decoder.decode(src);
            let ghost d1 = DecoderView { scanner: self.field_decoder@, ..pre };
            proof {
                assert(self@ == d1);
            }
            match frame_opt {
                None => {
                    return Ok(None);
                },
                Some(FieldFrame::EmptyLine) => {
                    proof {
                        lemma_message_name_valid();
                    }
                    if self.data_buf.len() == 0 {
                        self.event_type = Self::default_event_type();
                    } else {
                        let mut data: Vec<u8> = Vec::new();
                        core::mem::swap(&mut self.data_buf, &mut data);
                        if data[data.len() - 1] == LF {
                            data.pop();
                            proof {
                                assert(data@ =~= d1.data_buf.drop_last());
                            }
                        }
                        let id: Option<Vec<u8>> = if self.event_id.len() == 0 {
                            None
                        } else {
                            let id_copy = self.event_id.clone();
                            proof {
                                assert(id_copy@ =~= self.event_id@);
                            }
                            Some(id_copy)
                        };
                        let mut name = Self::default_event_type();
                        core::mem::swap(&mut self.event_type, &mut name);
                        proof {
                            assert(self@.data_buf =~= Seq::<u8>::empty());
                        }
                        return Ok(Some(Frame::Event(Event { id, name, data })));
                    }
                },
                Some(FieldFrame::Field(field)) => {
                    let Field(kind, mut value) = field;
                    let ghost v0 = value@;
                    match kind {
                        FieldKind::Data => {
                            let used = self.counted_len();
                            if value.len() > self.max_buf_len - used {
                                let err = ExceededSizeLimitError::new(
                                    self.max_buf_len,
                                    value.len(),
                                    used,
                                );
                                self.close();
                                return Err(SseDecodeError::ExceededSizeLimit(err));
                            }
                            let n = value.len();
                            if n >= 2 && value[n - 2] == CR && value[n - 1] == LF {
                                value.truncate(n - 2);
                                value.push(LF);
                                proof {
                                    assert(value@ =~= data_appended(v0));
                                }
                            } else {
                                proof {
                                    assert(data_appended(v0) == v0);
                                }
                            }
                            extend_bytes(&mut self.data_buf, value.as_slice());
                        },
                        FieldKind::Event => {
                            rbump(&mut value);
                            rbump_if(&mut value, CR);
                            proof {
                                assert(value@ =~= chomp(v0));
                            }
                            match check_utf8(value.as_slice()) {
                                Err(info) => {
                                    let e = DecodeUtf8Error::new(info, value);
                                    self.close();
                                    return Err(SseDecodeError::Utf8Error(e));
                                },
                                Ok(()) => {},
                            }
                            let base = self.data_buf.len() + self.event_id.len();
                            let counted = if crate::bufext::bytes_eq(
                                value.as_slice(),
                                Self::default_event_type().as_slice(),
                            ) {
                                0
                            } else {
                                value.len()
                            };
                            if counted > self.max_buf_len - base {
                                let err = ExceededSizeLimitError::new(
                                    self.max_buf_len,
                                    value.len(),
                                    self.counted_len(),
                                );
                                self.close();
                                return Err(SseDecodeError::ExceededSizeLimit(err));
                            }
                            self.event_type = value;
                        },
                        FieldKind::Id => {
                            rbump(&mut value);
                            rbump_if(&mut value, CR);
                            proof {
                                assert(value@ =~= chomp(v0));
                            }
                            let nul = crate::bufext::find_either(&value, 0, 0, 0);
                            proof {
                                crate::bufext::lemma_seq_find2(value@, 0, 0, 0);
                            }
                            match nul {
                                Some(_) => {},
                                None => {
                                    match check_utf8(value.as_slice()) {
                                        Err(info) => {
                                            let e = DecodeUtf8Error::new(info, value);
                                            self.close();
                                            return Err(SseDecodeError::Utf8Error(e));
                                        },
                                        Ok(()) => {},
                                    }
                                    let etype_counted = if crate::bufext::bytes_eq(
                                        self.event_type.as_slice(),
                                        Self::default_event_type().as_slice(),
                                    ) {
                                        0
                                    } else {
                                        self.event_type.len()
                                    };
                                    let base = self.data_buf.len() + etype_counted;
                                    if value.len() > self.max_buf_len - base {
                                        let err = ExceededSizeLimitError::new(
                                            self.max_buf_len,
                                            value.len(),
                                            self.counted_len(),
                                        );
                                        self.close();
                                        return Err(SseDecodeError::ExceededSizeLimit(err));
                                    }
                                    self.event_id = value;
                                },
                            }
                        },
                        FieldKind::Retry => {
                            rbump(&mut value);
                            rbump_if(&mut value, CR);
                            proof {
                                assert(value@ =~= chomp(v0));
                            }
                            match parse_u64_digits(&value) {
                                Some(ms) => {
                                    return Ok(Some(Frame::Retry(ms as u128)));
                                },
                                None => {
                                    return Ok(None);
                                },
                            }
                        },
                        FieldKind::Comment => {
                            rbump(&mut value);
                            rbump_if(&mut value, CR);
                            proof {
                                assert(value@ =~= chomp(v0));
                            }
                            return Ok(Some(Frame::Comment(value)));
                        },
                        FieldKind::UnknownField(_) => {},
                    }
                },
            }
        }
    }

    /// Decodes a trailing frame at the end of the stream. Bytes or a
    /// partially buffered event left over are reported as
    /// [`SseDecodeError::UnexpectedEof`], which closes the decoder.
    pub fn decode_eof(&mut self, src: &mut Vec<u8>) -> (r: Result<Option<Frame>, SseDecodeError>)
        requires
            old(self).wf(),
        ensures
            final(self).wf(),
            ({
                let res = decode_eof_spec(old(self)@, old(src)@);
                &&& final(self)@ == res.state
                &&& final(src)@ == res.rest
                &&& result_view(r) == res.outcome
            }),
    {
        match self.decode(src) {
            Ok(Some(f)) => Ok(Some(f)),
            Ok(None) => {
                if src.len() == 0 && self.data_buf.len() == 0 {
                    Ok(None)
                } else {
                    self.close();
                    Err(SseDecodeError::UnexpectedEof)
                }
            },
            Err(e) => Err(e),
        }
    }
}

impl Default for SseDecoder {
    fn default() -> (r: Self)
        ensures
            r@ == initial_view(usize::MAX as int),
            r.wf(),
    {
        Self::new()
    }
}

/// Parses a base-ten `u64` from ASCII digits; `None` when the bytes are
/// empty, hold a non-digit, or name a value past `u64::MAX`.
pub fn parse_u64_digits(x: &Vec<u8>) -> (r: Option<u64>)
    ensures
        match r {
            Some(v) => x@.len() > 0 && is_digits(x@) && digits_val(x@) == v as int,
            None => !(x@.len() > 0 && is_digits(x@) && digits_val(x@) <= u64::MAX),
        },
{
    if x.len() == 0 {
        return None;
    }
    let mut acc: u64 = 0;
    let mut i: usize = 0;
    while i < x.len()
        invariant
            0 <= i <= x@.len(),
            is_digits(x@.subrange(0, i as int)),
            acc as int == digits_val(x@.subrange(0, i as int)),
        decreases x@.len() - i,
    {
        let b = x[i];
        if !(48 <= b && b <= 57) {
            proof {
                assert(!is_digits(x@));
            }
            return None;
        }
        let d = (b - 48) as u64;
        let next = match acc.checked_mul(10) {
            Some(m) => m.checked_add(d),
            None => None,
        };
        match next {
            Some(v) => {
                proof {
                    assert(x@.subrange(0, i + 1).drop_last() =~= x@.subrange(0, i as int));
                    assert(x@.subrange(0, i + 1).last() == x@[i as int]);
                }
                acc = v;
                i = i + 1;
            },
            None => {
                proof {
                    assert(x@.subrange(0, i + 1).drop_last() =~= x@.subrange(0, i as int));
                    assert(x@.subrange(0, i + 1).last() == x@[i as int]);
                    assert(digits_val(x@.subrange(0, i + 1)) > u64::MAX);
                    if is_digits(x@) && digits_val(x@) <= u64::MAX {
                        lemma_digits_val_monotone(x@, i + 1, x@.len() as int);
                        assert(x@.subrange(0, x@.len() as int) =~= x@);
                        assert(false);
                    }
                }
                return None;
            },
        }
    }
    proof {
        assert(x@.subrange(0, x@.len() as int) =~= x@);
    }
    Some(acc)
}

/// The value named by a digit string grows, weakly, with every digit
/// appended.
pub proof fn lemma_digits_val_monotone(s: Seq<u8>, i: int, j: int)
    requires
        is_digits(s),
        0 <= i <= j <= s.len(),
    ensures
        digits_val(s.subrange(0, i)) <= digits_val(s.subrange(0, j)),
    decreases j - i,
{
    if i < j {
        lemma_digits_val_monotone(s, i, j - 1);
        lemma_digits_val_nonneg(s.subrange(0, j - 1));
        assert(s.subrange(0, j).drop_last() =~= s.subrange(0, j - 1));
        assert(s.subrange(0, j).last() == s[j - 1]);
    }
}

/// A digit string names a non-negative value.
pub proof fn lemma_digits_val_nonneg(s: Seq<u8>)
    requires
        is_digits(s),
    ensures
        digits_val(s) >= 0,
    decreases s.len(),
{
    if s.len() > 0 {
        lemma_digits_val_nonneg(s.drop_last());
    }
}

/// `message` is ASCII, hence valid UTF-8, and its length is seven.
pub proof fn lemma_message_name_valid()
    ensures
        valid_utf8(message_name()),
        valid_utf8(Seq::<u8>::empty()),
        message_name().len() == 7,
{
    lemma_ascii_valid_utf8(message_name());
    assert(valid_utf8(Seq::<u8>::empty()));
}

/// Any sequence of bytes below 0x80 is valid UTF-8.
pub proof fn lemma_ascii_valid_utf8(s: Seq<u8>)
    requires
        forall|i: int| 0 <= i < s.len() ==> #[trigger] s[i] < 0x80,
    ensures
        valid_utf8(s),
    decreases s.len(),
{
    if s.len() > 0 {
        assert(vstd::utf8::is_leading_byte_width_1(s[0]));
        assert(vstd::utf8::valid_first_scalar(s));
        assert(vstd::utf8::length_of_first_scalar(s) == 1);
        let rest = vstd::utf8::pop_first_scalar(s);
        assert(rest =~= s.subrange(1, s.len() as int));
        lemma_ascii_valid_utf8(rest);
    }
}

/// The decoder's event id is not cleared by dispatching an event: it is
/// replaced only by a later `id:` field whose value holds no NUL byte and
/// is well-formed UTF-8.
pub proof fn lemma_decoder_id_persistence(d: DecoderView, f: FieldFrameView)
    ensures
        match dispatch_spec(d, f) {
            DispatchResult::Continue(d2) => d2.event_id == d.event_id || (f matches
            FieldFrameView::Field(FieldKindView::Id, v) && !(exists|i: int|
                0 <= i < chomp(v).len() && chomp(v)[i] == 0) && valid_utf8(chomp(v))
                && d2.event_id == chomp(v)),
            DispatchResult::Emit(d2, _) => d2.event_id == d.event_id,
            DispatchResult::Stop(d2) => d2.event_id == d.event_id,
            DispatchResult::Fail(_, _) => true,
        },
{
    match f {
        FieldFrameView::Field(kind, v) => match kind {
            FieldKindView::Id => {
                let x = chomp(v);
                if !(exists|i: int| 0 <= i < x.len() && x[i] == 0) && !(utf8_scan(x, 0) is Some) {
                    crate::unicode::lemma_utf8_scan_correct(x, 0);
                    assert(x.subrange(0, x.len() as int) =~= x);
                }
            },
            _ => {},
        },
        FieldFrameView::EmptyLine => {},
    }
}

/// For any input, the bytes held across the decoder's data, event-type and
/// event-id buffers stay within the configured ceiling, or the decoder is
/// closed. `decode` and `decode_eof` keep this shape: they ensure that a
/// well-formed decoder stays well-formed.
pub proof fn lemma_buffer_cap(d: &SseDecoder)
    requires
        d.wf(),
    ensures
        d@.is_closed || view_buf_len(d@) <= d@.max_buf_len,
{
}

} // verus!
