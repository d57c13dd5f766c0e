//! The SSE field scanner: splits the incoming byte stream into field frames
//! (`(field-kind, value)` pairs) and empty-line markers, skipping an optional
//! UTF-8 byte-order mark at the start of the stream.
//!
//! The scanner is streaming: when the buffer does not yet hold a complete
//! line it remembers how far it has searched, so that each byte is inspected
//! at most once across calls.

use crate::bufext::{advance, bytes_eq, lemma_seq_find2, seq_find2, split_to, bump_if, find_either};
use crate::errors::SseDecodeError;
use vstd::prelude::*;

verus! {

/// The byte `:`.
pub const COLON: u8 = 58;

/// The byte `\n` (line feed).
pub const LF: u8 = 10;

/// The byte `\r` (carriage return).
pub const CR: u8 = 13;

/// The byte for a space.
pub const SP: u8 = 32;


/// The kind of an SSE field, recognized from the field name.
#[derive(Debug, Clone, PartialEq, Eq)]
pub enum FieldKind {
    Data,
    Event,
    Retry,
    Comment,
    Id,
    /// Any other field name; the whole name is carried for diagnostics.
    UnknownField(Vec<u8>),
}

/// A scanned field: its kind and its raw value bytes. The value keeps its
/// trailing line feed, so that consumers can tell where the line ended.
#[derive(Debug, Clone, PartialEq, Eq)]
pub struct Field(pub FieldKind, pub Vec<u8>);

/// One unit produced by the scanner: a field, or the empty line that
/// terminates an event.
#[derive(Debug, Clone, PartialEq, Eq)]
pub enum FieldFrame {
    Field(Field),
    EmptyLine,
}

/// Mathematical image of a [`FieldKind`].
pub ghost enum FieldKindView {
    Data,
    Event,
    Retry,
    Comment,
    Id,
    Unknown(Seq<u8>),
}

/// Mathematical image of a [`FieldFrame`].
pub ghost enum FieldFrameView {
    Field(FieldKindView, Seq<u8>),
    EmptyLine,
}

impl View for FieldKind {
    type V = FieldKindView;

    open spec fn view(&self) -> FieldKindView {
        match self {
            FieldKind::Data => FieldKindView::Data,
            FieldKind::Event => FieldKindView::Event,
            FieldKind::Retry => FieldKindView::Retry,
            FieldKind::Comment => FieldKindView::Comment,
            FieldKind::Id => FieldKindView::Id,
            FieldKind::UnknownField(name) => FieldKindView::Unknown(name@),
        }
    }
}

impl View for FieldFrame {
    type V = FieldFrameView;

    open spec fn view(&self) -> FieldFrameView {
        match self {
            FieldFrame::Field(Field(kind, value)) => FieldFrameView::Field(kind@, value@),
            FieldFrame::EmptyLine => FieldFrameView::EmptyLine,
        }
    }
}

impl From<Field> for FieldFrame {
    fn from(field: Field) -> (r: Self) {
        Self::Field(field)
    }
}

impl vstd::std_specs::convert::FromSpecImpl<Field> for FieldFrame {
    open spec fn obeys_from_spec() -> bool {
        true
    }

    open spec fn from_spec(field: Field) -> Self {
        FieldFrame::Field(field)
    }
}

/// Where the scanner stands between calls.
#[derive(Debug, Clone, PartialEq, Eq)]
pub enum State {
    /// At the very start of the stream, where a byte-order mark may appear.
    Bom,
    /// At the start of a line.
    NextFrame,
    /// Inside a field name, with no colon or line feed found so far before
    /// `next_colon_index`.
    Field { next_colon_index: usize },
    /// Inside a field value, with no line feed found so far before
    /// `next_line_index`.
    Value { field_kind: FieldKind, next_line_index: usize },
}

/// Mathematical image of a scanner [`State`].
pub ghost enum ScanState {
    Bom,
    NextFrame,
    Field { next_colon: int },
    Value { kind: FieldKindView, next_nl: int },
}

impl View for State {
    type V = ScanState;

    open spec fn view(&self) -> ScanState {
        match self {
            State::Bom => ScanState::Bom,
            State::NextFrame => ScanState::NextFrame,
            State::Field { next_colon_index } => ScanState::Field {
                next_colon: *next_colon_index as int,
            },
            State::Value { field_kind, next_line_index } => ScanState::Value {
                kind: field_kind@,
                next_nl: *next_line_index as int,
            },
        }
    }
}

/// The field kind named by `name`, with every unrecognized name kept whole.
pub open spec fn field_kind_of_name(name: Seq<u8>) -> FieldKindView {
    // "data", "event", "retry", "id" as bytes
    if name == seq![100u8, 97, 116, 97] {
        FieldKindView::Data
    } else if name == seq![101u8, 118, 101, 110, 116] {
        FieldKindView::Event
    } else if name == seq![114u8, 101, 116, 114, 121] {
        FieldKindView::Retry
    } else if name == seq![105u8, 100] {
        FieldKindView::Id
    } else {
        FieldKindView::Unknown(name)
    }
}

/// What one scanner call does: the state it leaves behind, the bytes it
/// leaves unconsumed, and the frame it produces, if any.
pub ghost struct ScanResult {
    pub state: ScanState,
    pub rest: Seq<u8>,
    pub frame: Option<FieldFrameView>,
}

/// Ranks the states that a call can move through without consuming bytes.
pub open spec fn scan_rank(st: ScanState) -> int {
    match st {
        ScanState::Bom => 2,
        ScanState::NextFrame => 1,
        _ => 0,
    }
}

/// Clamps a remembered search position into the buffer.
pub open spec fn clamp_pos(i: int, len: int) -> int {
    if i < 0 {
        0
    } else if i > len {
        len
    } else {
        i
    }
}

/// One call of the scanner on state `st` and buffer `src`: runs the state
/// machine until it produces a frame or runs out of input.
pub open spec fn scan_spec(st: ScanState, src: Seq<u8>) -> ScanResult
    decreases src.len(), scan_rank(st)
    via check_scan_spec_decreases
{
    if src.len() == 0 {
        ScanResult { state: st, rest: src, frame: None }
    } else {
        match st {
            ScanState::Bom => {
                if src.len() >= 3 && src[0] == 0xef && src[1] == 0xbb && src[2] == 0xbf {
                    scan_spec(ScanState::NextFrame, src.skip(3))
                } else if (src.len() == 1 && src[0] == 0xef) || (src.len() == 2 && src[0] == 0xef
                    && src[1] == 0xbb) {
                    ScanResult { state: st, rest: src, frame: None }
                } else {
                    scan_spec(ScanState::NextFrame, src)
                }
            },
            ScanState::NextFrame => {
                if src[0] == COLON {
                    scan_spec(
                        ScanState::Value { kind: FieldKindView::Comment, next_nl: 0 },
                        src.skip(1),
                    )
                } else if src[0] == CR && src.len() >= 2 && src[1] == LF {
                    ScanResult {
                        state: ScanState::NextFrame,
                        rest: src.skip(2),
                        frame: Some(FieldFrameView::EmptyLine),
                    }
                } else if src[0] == LF {
                    ScanResult {
                        state: ScanState::NextFrame,
                        rest: src.skip(1),
                        frame: Some(FieldFrameView::EmptyLine),
                    }
                } else {
                    scan_spec(ScanState::Field { next_colon: 0 }, src)
                }
            },
            ScanState::Field { next_colon } => {
                let from = clamp_pos(next_colon, src.len() as int);
                match seq_find2(src, from, COLON, LF) {
                    Some(i) => {
                        if src[i] == COLON {
                            scan_spec(
                                ScanState::Value {
                                    kind: field_kind_of_name(src.subrange(0, i)),
                                    next_nl: 0,
                                },
                                src.skip(i + 1),
                            )
                        } else {
                            ScanResult {
                                state: ScanState::NextFrame,
                                rest: src.skip(i + 1),
                                frame: Some(
                                    FieldFrameView::Field(
                                        FieldKindView::Unknown(src.subrange(0, i + 1)),
                                        Seq::empty(),
                                    ),
                                ),
                            }
                        }
                    },
                    None => ScanResult {
                        state: ScanState::Field { next_colon: src.len() as int },
                        rest: src,
                        frame: None,
                    },
                }
            },
            ScanState::Value { kind, next_nl } => {
                let from = clamp_pos(next_nl, src.len() as int);
                match seq_find2(src, from, LF, LF) {
                    Some(i) => {
                        let raw = src.subrange(0, i + 1);
                        let value = if raw[0] == SP {
                            raw.skip(1)
                        } else {
                            raw
                        };
                        ScanResult {
                            state: ScanState::NextFrame,
                            rest: src.skip(i + 1),
                            frame: Some(FieldFrameView::Field(kind, value)),
                        }
                    },
                    None => ScanResult {
                        state: ScanState::Value { kind, next_nl: src.len() as int },
                        rest: src,
                        frame: None,
                    },
                }
            },
        }
    }
}

#[via_fn]
proof fn check_scan_spec_decreases(st: ScanState, src: Seq<u8>) {
    if src.len() != 0 {
        match st {
            ScanState::Field { next_colon } => {
                lemma_seq_find2(src, clamp_pos(next_colon, src.len() as int), COLON, LF);
            },
            ScanState::Value { kind, next_nl } => {
                lemma_seq_find2(src, clamp_pos(next_nl, src.len() as int), LF, LF);
            },
            _ => {},
        }
    }
}

/// A scanner call never lengthens the buffer, and consumes at least one byte
/// whenever it produces a frame.
pub proof fn lemma_scan_progress(st: ScanState, src: Seq<u8>)
    ensures
        scan_spec(st, src).rest.len() <= src.len(),
        scan_spec(st, src).frame is Some ==> scan_spec(st, src).rest.len() < src.len(),
    decreases src.len(), scan_rank(st),
{
    if src.len() != 0 {
        match st {
            ScanState::Bom => {
                if src.len() >= 3 && src[0] == 0xef && src[1] == 0xbb && src[2] == 0xbf {
                    lemma_scan_progress(ScanState::NextFrame, src.skip(3));
                } else if (src.len() == 1 && src[0] == 0xef) || (src.len() == 2 && src[0] == 0xef
                    && src[1] == 0xbb) {
                } else {
                    lemma_scan_progress(ScanState::NextFrame, src);
                }
            },
            ScanState::NextFrame => {
                if src[0] == COLON {
                    lemma_scan_progress(
                        ScanState::Value { kind: FieldKindView::Comment, next_nl: 0 },
                        src.skip(1),
                    );
                } else if src[0] == CR && src.len() >= 2 && src[1] == LF {
                } else if src[0] == LF {
                } else {
                    lemma_scan_progress(ScanState::Field { next_colon: 0 }, src);
                }
            },
            ScanState::Field { next_colon } => {
                let from = clamp_pos(next_colon, src.len() as int);
                lemma_seq_find2(src, from, COLON, LF);
                match seq_find2(src, from, COLON, LF) {
                    Some(i) => {
                        if src[i] == COLON {
                            lemma_scan_progress(
                                ScanState::Value {
                                    kind: field_kind_of_name(src.subrange(0, i)),
                                    next_nl: 0,
                                },
                                src.skip(i + 1),
                            );
                        }
                    },
                    None => {},
                }
            },
            ScanState::Value { kind, next_nl } => {
                let from = clamp_pos(next_nl, src.len() as int);
                lemma_seq_find2(src, from, LF, LF);
            },
        }
    }
}

/// A borrow-free snapshot of what [`State`] the scanner is in, with the
/// remembered search position where there is one.
enum StepInfo {
    Bom,
    NextFrame,
    Field(usize),
    Value(usize),
}

/// Streaming scanner for SSE field frames.
#[derive(Debug, Clone, PartialEq, Eq)]
pub struct SseFieldDecoder {
    pub state: State,
}

impl View for SseFieldDecoder {
    type V = ScanState;

    open spec fn view(&self) -> ScanState {
        self.state@
    }
}

/// The frame that an exec scanner call reports, as the model sees it.
pub open spec fn frame_opt_view(r: Option<FieldFrame>) -> Option<FieldFrameView> {
    match r {
        Some(f) => Some(f@),
        None => None,
    }
}

impl SseFieldDecoder {
    pub fn new() -> (r: Self)
        ensures
            r@ == ScanState::Bom,
    {
        Self { state: State::Bom }
    }

    /// Recognizes the fixed field names; any other name is carried whole.
    fn classify_field_name(name: Vec<u8>) -> (r: FieldKind)
        ensures
            r@ == field_kind_of_name(name@),
    {
        let data_name: [u8; 4] = [100, 97, 116, 97];  // "data"
        let event_name: [u8; 5] = [101, 118, 101, 110, 116];  // "event"
        let retry_name: [u8; 5] = [114, 101, 116, 114, 121];  // "retry"
        let id_name: [u8; 2] = [105, 100];  // "id"
        proof {
            assert(data_name@ =~= seq![100, 97, 116, 97]);
            assert(event_name@ =~= seq![101u8, 118, 101, 110, 116]);
            assert(retry_name@ =~= seq![114u8, 101, 116, 114, 121]);
            assert(id_name@ =~= seq![105, 100]);
        }
        if bytes_eq(name.as_slice(), data_name.as_slice()) {
            FieldKind::Data
        } else if bytes_eq(name.as_slice(), event_name.as_slice()) {
            FieldKind::Event
        } else if bytes_eq(name.as_slice(), retry_name.as_slice()) {
            FieldKind::Retry
        } else if bytes_eq(name.as_slice(), id_name.as_slice()) {
            FieldKind::Id
        } else {
            FieldKind::UnknownField(name)
        }
    }

    /// Scans for the next field frame, consuming the bytes it reads from the
    /// front of `src`. Returns `None` when `src` does not yet hold a
    /// complete line.
    pub fn decode(&mut self, src: &mut Vec<u8>) -> (r: Option<FieldFrame>)
        ensures
            ({
                let res = scan_spec(old(self)@, old(src)@);
                &&& final(self)@ == res.state
                &&& final(src)@ == res.rest
                &&& frame_opt_view(r) == res.frame
            }),
    {
        loop
            invariant
                scan_spec(self@, src@) == scan_spec(old(self)@, old(src)@),
            decreases src@.len(), scan_rank(self@),
        {
            let ghost src_pre = src@;
            if src.len() == 0 {
                return None;
            }
            let step = match &self.state {
                State::Bom => StepInfo::Bom,
                State::NextFrame => StepInfo::NextFrame,
                State::Field { next_colon_index } => StepInfo::Field(*next_colon_index),
                State::Value { next_line_index, .. } => StepInfo::Value(*next_line_index),
            };
            match step {
                StepInfo::Bom => {
                    if src.len() >= 3 && src[0] == 0xef && src[1] == 0xbb && src[2] == 0xbf {
                        advance(src, 3);
                        self.state = State::NextFrame;
                    } else if (src.len() == 1 && src[0] == 0xef) || (src.len() == 2 && src[0]
                        == 0xef && src[1] == 0xbb) {
                        return None;
                    } else {
                        self.state = State::NextFrame;
                    }
                },
                StepInfo::NextFrame => {
                    let b0 = src[0];
                    if b0 == COLON {
                        advance(src, 1);
                        self.state = State::Value {
                            field_kind: FieldKind::Comment,
                            next_line_index: 0,
                        };
                    } else if b0 == CR && src.len() >= 2 && src[1] == LF {
                        advance(src, 2);
                        self.state = State::NextFrame;
                        return Some(FieldFrame::EmptyLine);
                    } else if b0 == LF {
                        advance(src, 1);
                        return Some(FieldFrame::EmptyLine);
                    } else {
                        self.state = State::Field { next_colon_index: 0 };
                    }
                },
                StepInfo::Field(next_colon_index) => {
                    let from = if next_colon_index <= src.len() {
                        next_colon_index
                    } else {
                        src.len()
                    };
                    match find_either(src, from, COLON, LF) {
                        Some(i) => {
                            proof {
                                lemma_seq_find2(src@, from as int, COLON, LF);
                            }
                            if src[i] == COLON {
                                let name = split_to(src, i);
                                advance(src, 1);
                                let kind = Self::classify_field_name(name);
                                self.state = State::Value { field_kind: kind, next_line_index: 0 };
                                proof {
                                    assert(src@ =~= src_pre.skip(i + 1));
                                }
                            } else {
                                let line = split_to(src, i + 1);
                                self.state = State::NextFrame;
                                return Some(
                                    FieldFrame::Field(
                                        Field(FieldKind::UnknownField(line), Vec::new()),
                                    ),
                                );
                            }
                        },
                        None => {
                            self.state = State::Field { next_colon_index: src.len() };
                            return None;
                        },
                    }
                },
                StepInfo::Value(next_line_index) => {
                    let from = if next_line_index <= src.len() {
                        next_line_index
                    } else {
                        src.len()
                    };
                    match find_either(src, from, LF, LF) {
                        Some(i) => {
                            proof {
                                lemma_seq_find2(src@, from as int, LF, LF);
                            }
                            let mut value = split_to(src, i + 1);
                            bump_if(&mut value, SP);
                            let mut prev = State::NextFrame;
                            core::mem::swap(&mut self.state, &mut prev);
                            match prev {
                                State::Value { field_kind, .. } => {
                                    return Some(FieldFrame::Field(Field(field_kind, value)));
                                },
                                _ => {
                                    proof {
                                        assert(false);
                                    }
                                },
                            }
                        },
                        None => {
                            let mut prev = State::NextFrame;
                            core::mem::swap(&mut self.state, &mut prev);
                            match prev {
                                State::Value { field_kind, .. } => {
                                    self.state = State::Value {
                                        field_kind,
                                        next_line_index: src.len(),
                                    };
                                },
                                _ => {
                                    proof {
                                        assert(false);
                                    }
                                },
                            }
                            return None;
                        },
                    }
                },
            }
        }
    }

    /// Like [`Self::decode`], but for the end of the stream: leftover bytes
    /// that do not form a complete frame are an error.
    pub fn decode_eof(&mut self, src: &mut Vec<u8>) -> (r: Result<
        Option<FieldFrame>,
        SseDecodeError,
    >)
        ensures
            old(src)@.len() == 0 ==> final(self)@ == old(self)@ && final(src)@ == old(src)@ && r
                == Ok::<_, SseDecodeError>(None::<FieldFrame>),
            old(src)@.len() != 0 ==> ({
                let res = scan_spec(old(self)@, old(src)@);
                &&& final(self)@ == res.state
                &&& final(src)@ == res.rest
                &&& (match res.frame {
                    Some(f) => r matches Ok(Some(rf)) && rf@ == f,
                    None => r == Err::<Option<FieldFrame>, _>(SseDecodeError::UnexpectedEof),
                })
            }),
    {
        if src.len() == 0 {
            Ok(None)
        } else {
            match self.decode(src) {
                Some(frame) => Ok(Some(frame)),
                None => Err(SseDecodeError::UnexpectedEof),
            }
        }
    }
}

impl Default for SseFieldDecoder {
    fn default() -> (r: Self)
        ensures
            r@ == ScanState::Bom,
    {
        Self::new()
    }
}

} // verus!
