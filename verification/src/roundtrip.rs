//! The codec round trip: byte streams written by the encoder decode back
//! to the frames that produced them. The main result is
//! [`lemma_round_trip`]; the helpers walk the scanner and the decoder over
//! the concrete line shapes the encoder writes.

use crate::bufext::{lemma_seq_find2, lemma_seq_find2_shift, seq_find2};
use crate::decoder::{
    chomp, decode_spec, dispatch_spec, message_name, view_buf_len, DecodeResult, DecoderView,
    DispatchResult,
};
use crate::encoder::{
    comment_prefix, data_prefix, dec_digits, encode_spec, event_prefix, id_prefix,
    lines_bytes, lines_bytes_from, retry_prefix, EncodeResult,
};
use crate::field_decoder::{
    field_kind_of_name, scan_spec, FieldFrameView, FieldKindView, ScanResult, ScanState, COLON,
    CR, LF, SP,
};
use crate::frame::{EventView, FrameView};
use vstd::prelude::*;

verus! {

/// No line feed or carriage return anywhere in `s`.
pub open spec fn single_line(s: Seq<u8>) -> bool {
    forall|i: int| 0 <= i < s.len() ==> #[trigger] s[i] != LF && s[i] != CR
}

/// No carriage return anywhere in `s`.
pub open spec fn no_cr(s: Seq<u8>) -> bool {
    forall|i: int| 0 <= i < s.len() ==> #[trigger] s[i] != CR
}

/// Scanning a `name: value` line hands back the named field with its
/// trailing line feed, leaving the rest untouched.
proof fn lemma_scan_field_line(src: Seq<u8>, name: Seq<u8>, value: Seq<u8>, rest: Seq<u8>)
    requires
        src == name + seq![COLON, SP] + value + seq![LF] + rest,
        name.len() > 0,
        name[0] != COLON && name[0] != CR && name[0] != LF && name[0] != 0xef,
        forall|i: int| 0 <= i < name.len() ==> #[trigger] name[i] != COLON && name[i] != LF,
        single_line(value),
    ensures
        scan_spec(ScanState::NextFrame, src) == (ScanResult {
            state: ScanState::NextFrame,
            rest: rest,
            frame: Some(FieldFrameView::Field(field_kind_of_name(name), value + seq![LF])),
        }),
        scan_spec(ScanState::Bom, src) == (ScanResult {
            state: ScanState::NextFrame,
            rest: rest,
            frame: Some(FieldFrameView::Field(field_kind_of_name(name), value + seq![LF])),
        }),
{
    let n = name.len() as int;
    assert(src.len() == name.len() + 2 + value.len() + 1 + rest.len());
    assert(src[0] == name[0]);
    // From the start of a line, the scanner enters the field name.
    assert(scan_spec(ScanState::NextFrame, src) == scan_spec(
        ScanState::Field { next_colon: 0 },
        src,
    ));
    // The first colon or line feed is the colon right after the name.
    assert forall|j: int| 0 <= j < n implies src[j] != COLON && src[j] != LF by {
        assert(src[j] == name[j]);
    }
    assert(src[n] == COLON);
    lemma_seq_find2_shift(src, 0, n, COLON, LF);
    assert(seq_find2(src, n, COLON, LF) == Some(n));
    assert(src.subrange(0, n) =~= name);
    let after = src.skip(n + 1);
    assert(after =~= seq![SP] + value + seq![LF] + rest);
    assert(scan_spec(ScanState::Field { next_colon: 0 }, src) == scan_spec(
        ScanState::Value { kind: field_kind_of_name(name), next_nl: 0 },
        after,
    ));
    // The value runs to the first line feed.
    let m = 1 + value.len() as int;
    assert forall|j: int| 0 <= j < m implies after[j] != LF by {
        if j > 0 {
            assert(after[j] == value[j - 1]);
        } else {
            assert(after[0] == SP);
        }
    }
    assert(after[m] == LF);
    lemma_seq_find2_shift(after, 0, m, LF, LF);
    assert(seq_find2(after, 0, LF, LF) == Some(m));
    let raw = after.subrange(0, m + 1);
    assert(raw =~= seq![SP] + value + seq![LF]);
    assert(raw[0] == SP);
    assert(raw.skip(1) =~= value + seq![LF]);
    assert(after.skip(m + 1) =~= rest);
    // A line never starts with the byte-order mark, so a fresh scanner
    // takes the same path.
    assert(scan_spec(ScanState::Bom, src) == scan_spec(ScanState::NextFrame, src));
}

/// Scanning a `: comment` line hands back the comment field with its
/// trailing line feed.
proof fn lemma_scan_comment_line(src: Seq<u8>, value: Seq<u8>, rest: Seq<u8>)
    requires
        src == seq![COLON, SP] + value + seq![LF] + rest,
        single_line(value),
    ensures
        scan_spec(ScanState::NextFrame, src) == (ScanResult {
            state: ScanState::NextFrame,
            rest: rest,
            frame: Some(FieldFrameView::Field(FieldKindView::Comment, value + seq![LF])),
        }),
        scan_spec(ScanState::Bom, src) == (ScanResult {
            state: ScanState::NextFrame,
            rest: rest,
            frame: Some(FieldFrameView::Field(FieldKindView::Comment, value + seq![LF])),
        }),
{
    assert(src[0] == COLON);
    let after = src.skip(1);
    assert(after =~= seq![SP] + value + seq![LF] + rest);
    assert(scan_spec(ScanState::NextFrame, src) == scan_spec(
        ScanState::Value { kind: FieldKindView::Comment, next_nl: 0 },
        after,
    ));
    let m = 1 + value.len() as int;
    assert forall|j: int| 0 <= j < m implies after[j] != LF by {
        if j > 0 {
            assert(after[j] == value[j - 1]);
        } else {
            assert(after[0] == SP);
        }
    }
    assert(after[m] == LF);
    lemma_seq_find2_shift(after, 0, m, LF, LF);
    let raw = after.subrange(0, m + 1);
    assert(raw =~= seq![SP] + value + seq![LF]);
    assert(raw.skip(1) =~= value + seq![LF]);
    assert(after.skip(m + 1) =~= rest);
    assert(scan_spec(ScanState::Bom, src) == scan_spec(ScanState::NextFrame, src));
}

/// Scanning a blank line hands back the empty-line marker.
proof fn lemma_scan_empty_line(src: Seq<u8>, rest: Seq<u8>)
    requires
        src == seq![LF] + rest,
    ensures
        scan_spec(ScanState::NextFrame, src) == (ScanResult {
            state: ScanState::NextFrame,
            rest: rest,
            frame: Some(FieldFrameView::EmptyLine),
        }),
{
    assert(src[0] == LF);
    assert(src.skip(1) =~= rest);
}

/// What the encoder can faithfully write: single-line names, ids and
/// comments, data without carriage returns, and retry delays within the
/// range the decoder parses.
pub open spec fn frame_encodable(f: FrameView) -> bool {
    match f {
        FrameView::Comment(c) => single_line(c),
        FrameView::Retry(ms) => 0 <= ms <= u64::MAX,
        FrameView::Event(ev) => {
            &&& single_line(ev.name)
            &&& vstd::utf8::valid_utf8(ev.name)
            &&& no_cr(ev.data)
            &&& match ev.id {
                Some(v) => v.len() > 0 && single_line(v) && vstd::utf8::valid_utf8(v) && forall|
                    i: int,
                |
                    0 <= i < v.len() ==> #[trigger] v[i] != 0,
                None => true,
            }
        },
    }
}

/// An id the encoder may be holding as its sticky id: single-line,
/// NUL-free, well-formed text.
pub open spec fn sticky_id_ok(id: Seq<u8>) -> bool {
    &&& single_line(id)
    &&& vstd::utf8::valid_utf8(id)
    &&& forall|i: int| 0 <= i < id.len() ==> #[trigger] id[i] != 0
}

/// The id a decoded event reports when `f` is decoded after the sticky id
/// `enc_id` was seen.
pub open spec fn sticky_frame(f: FrameView, enc_id: Seq<u8>) -> FrameView {
    match f {
        FrameView::Event(ev) => {
            let eff = match ev.id {
                Some(v) => v,
                None => enc_id,
            };
            FrameView::Event(
                EventView {
                    id: if eff.len() == 0 {
                        None
                    } else {
                        Some(eff)
                    },
                    name: ev.name,
                    data: ev.data,
                },
            )
        },
        _ => f,
    }
}

/// A decoder between events: at the start of a line with empty buffers.
pub open spec fn decoder_ready(d: DecoderView) -> bool {
    &&& (d.scanner == ScanState::NextFrame || d.scanner == ScanState::Bom)
    &&& d.data_buf.len() == 0
    &&& d.event_type == message_name()
    &&& !d.is_closed
}

/// A decoder with this ceiling can hold the frame: its data, its
/// effective id and its name together stay within it.
pub open spec fn frame_fits_len(f: FrameView, enc_id: Seq<u8>, max: int) -> bool {
    match f {
        FrameView::Event(ev) => {
            let eff = match ev.id {
                Some(v) => v,
                None => enc_id,
            };
            let name_count = if ev.name == message_name() {
                0int
            } else {
                ev.name.len() as int
            };
            ev.data.len() + 1 + eff.len() + name_count <= max
        },
        _ => true,
    }
}

/// The decoder's buffers can hold this frame.
pub open spec fn frame_fits(f: FrameView, enc_id: Seq<u8>, d: DecoderView) -> bool {
    frame_fits_len(f, enc_id, d.max_buf_len)
}

/// Well-formed text is accepted by the scan.
proof fn lemma_valid_utf8_scans(x: Seq<u8>)
    requires
        vstd::utf8::valid_utf8(x),
    ensures
        crate::unicode::utf8_scan(x, 0) is None,
{
    crate::unicode::lemma_utf8_scan_correct(x, 0);
    if crate::unicode::utf8_scan(x, 0) is Some {
        assert(x.subrange(0, x.len() as int) =~= x);
    }
}

/// The decimal digits of a number are digit bytes, and they name it.
pub proof fn lemma_dec_digits_value(n: int)
    requires
        n >= 0,
    ensures
        crate::decoder::is_digits(dec_digits(n)),
        dec_digits(n).len() > 0,
        crate::decoder::digits_val(dec_digits(n)) == n,
        single_line(dec_digits(n)),
    decreases n,
{
    if n < 10 {
        let ds = dec_digits(n);
        assert(ds =~= seq![(48 + n) as u8]);
        assert(ds.drop_last() =~= Seq::<u8>::empty());
        assert(crate::decoder::digits_val(Seq::<u8>::empty()) == 0);
        assert(crate::decoder::digits_val(ds) == crate::decoder::digits_val(ds.drop_last()) * 10
            + (ds.last() - 48));
        assert(ds.last() == (48 + n) as u8);
        assert(ds.last() - 48 == n);
    } else {
        lemma_dec_digits_value(n / 10);
        let ds = dec_digits(n);
        assert(ds.drop_last() =~= dec_digits(n / 10));
        assert(ds.last() == (48 + n % 10) as u8);
        assert(crate::decoder::digits_val(ds) == crate::decoder::digits_val(dec_digits(n / 10))
            * 10 + (n % 10));
    }
}

/// Decoding the `data:` lines for `s[from..]` appends those bytes and a
/// final line feed to the data buffer, then goes on with the rest.
proof fn lemma_decode_data_lines(d: DecoderView, s: Seq<u8>, from: int, tail: Seq<u8>)
    requires
        d.scanner == ScanState::NextFrame,
        !d.is_closed,
        0 <= from <= s.len(),
        no_cr(s),
        view_buf_len(d) + (s.len() - from) + 1 <= d.max_buf_len,
    ensures
        decode_spec(d, lines_bytes_from(data_prefix(), s, from) + tail) == decode_spec(
            DecoderView {
                data_buf: d.data_buf + s.subrange(from, s.len() as int) + seq![LF],
                ..d
            },
            tail,
        ),
    decreases s.len() - from,
{
    lemma_seq_find2(s, from, LF, LF);
    let dname = seq![100u8, 97, 116, 97];  // "data"
    assert(data_prefix() =~= dname + seq![COLON, SP]);
    match seq_find2(s, from, LF, LF) {
        None => {
            let line = s.subrange(from, s.len() as int);
            let src = lines_bytes_from(data_prefix(), s, from) + tail;
            assert(src =~= dname + seq![COLON, SP] + line + seq![LF] + tail);
            assert forall|i: int| 0 <= i < line.len() implies #[trigger] line[i] != LF && line[i]
                != CR by {
                assert(line[i] == s[from + i]);
            }
            lemma_scan_field_line(src, dname, line, tail);
            assert(field_kind_of_name(dname) == FieldKindView::Data);
            let v = line + seq![LF];
            assert(crate::decoder::data_appended(v) == v) by {
                if v.len() >= 2 {
                    assert(v[v.len() - 2] == line[line.len() - 1]);
                    assert(line[line.len() - 1] != CR);
                }
            }
            let d2 = DecoderView { data_buf: d.data_buf + v, ..d };
            assert(dispatch_spec(d, FieldFrameView::Field(FieldKindView::Data, v))
                == DispatchResult::Continue(d2));
            assert(d2.data_buf =~= d.data_buf + line + seq![LF]);
        },
        Some(i) => {
            let line = s.subrange(from, i);
            let remainder = lines_bytes_from(data_prefix(), s, i + 1) + tail;
            let src = lines_bytes_from(data_prefix(), s, from) + tail;
            assert(src =~= dname + seq![COLON, SP] + line + seq![LF] + remainder);
            assert forall|j: int| 0 <= j < line.len() implies #[trigger] line[j] != LF && line[j]
                != CR by {
                assert(line[j] == s[from + j]);
            }
            lemma_scan_field_line(src, dname, line, remainder);
            assert(field_kind_of_name(dname) == FieldKindView::Data);
            let v = line + seq![LF];
            assert(crate::decoder::data_appended(v) == v) by {
                if v.len() >= 2 {
                    assert(v[v.len() - 2] == line[line.len() - 1]);
                    assert(line[line.len() - 1] != CR);
                }
            }
            let d2 = DecoderView { data_buf: d.data_buf + v, ..d };
            assert(dispatch_spec(d, FieldFrameView::Field(FieldKindView::Data, v))
                == DispatchResult::Continue(d2));
            lemma_decode_data_lines(d2, s, i + 1, tail);
            assert(d2.data_buf + s.subrange(i + 1, s.len() as int) + seq![LF] =~= d.data_buf
                + s.subrange(from, s.len() as int) + seq![LF]);
        },
    }
}

/// The decoder state that a round-tripped frame leaves behind: ready at
/// the start of a line, holding the encoder's sticky id.
pub open spec fn ready_after(d: DecoderView, last_id: Seq<u8>) -> DecoderView {
    DecoderView { scanner: ScanState::NextFrame, event_id: last_id, ..d }
}

/// A comment frame round-trips.
proof fn lemma_round_trip_comment(enc_id: Seq<u8>, c: Seq<u8>, d: DecoderView, tail: Seq<u8>)
    requires
        single_line(c),
        decoder_ready(d),
        d.event_id == enc_id,
    ensures
        ({
            let res = decode_spec(d, encode_spec(enc_id, FrameView::Comment(c)).bytes + tail);
            &&& res.outcome == Ok::<_, crate::decoder::DecodeErrorView>(Some(FrameView::Comment(c)))
            &&& res.rest == tail
            &&& res.state == ready_after(d, enc_id)
        }),
{
    let enc = encode_spec(enc_id, FrameView::Comment(c));
    let src = enc.bytes + tail;
    lemma_seq_find2(c, 0, LF, LF);
    assert(enc.bytes == comment_prefix() + c + seq![LF]);
    assert(src =~= seq![COLON, SP] + c + seq![LF] + tail);
    lemma_scan_comment_line(src, c, tail);
    let v = c + seq![LF];
    assert(chomp(v) =~= c) by {
        assert(v.drop_last() =~= c);
        if c.len() > 0 {
            assert(c.last() != CR);
        }
    }
    let d1 = DecoderView { scanner: ScanState::NextFrame, ..d };
    assert(dispatch_spec(d1, FieldFrameView::Field(FieldKindView::Comment, v))
        == DispatchResult::Emit(d1, FrameView::Comment(c)));
}

/// A retry frame round-trips.
proof fn lemma_round_trip_retry(enc_id: Seq<u8>, ms: int, d: DecoderView, tail: Seq<u8>)
    requires
        0 <= ms <= u64::MAX,
        decoder_ready(d),
        d.event_id == enc_id,
    ensures
        ({
            let res = decode_spec(d, encode_spec(enc_id, FrameView::Retry(ms)).bytes + tail);
            &&& res.outcome == Ok::<_, crate::decoder::DecodeErrorView>(Some(FrameView::Retry(ms)))
            &&& res.rest == tail
            &&& res.state == ready_after(d, enc_id)
        }),
{
    let enc = encode_spec(enc_id, FrameView::Retry(ms));
    let src = enc.bytes + tail;
    let ds = dec_digits(ms);
    lemma_dec_digits_value(ms);
    let rname = seq![114u8, 101, 116, 114, 121];  // "retry"
    assert(retry_prefix() =~= rname + seq![COLON, SP]);
    assert(src =~= rname + seq![COLON, SP] + ds + seq![LF] + tail);
    lemma_scan_field_line(src, rname, ds, tail);
    assert(field_kind_of_name(rname) == FieldKindView::Retry);
    let v = ds + seq![LF];
    assert(chomp(v) =~= ds) by {
        assert(v.drop_last() =~= ds);
        assert(crate::decoder::is_digits(ds));
        assert(48 <= ds.last() <= 57);
    }
    let d1 = DecoderView { scanner: ScanState::NextFrame, ..d };
    assert(dispatch_spec(d1, FieldFrameView::Field(FieldKindView::Retry, v))
        == DispatchResult::Emit(d1, FrameView::Retry(crate::decoder::digits_val(ds))));
}

/// An event frame round-trips, with the sticky id applied.
#[verifier::rlimit(100)]
proof fn lemma_round_trip_event(enc_id: Seq<u8>, ev: EventView, d: DecoderView, tail: Seq<u8>)
    requires
        frame_encodable(FrameView::Event(ev)),
        sticky_id_ok(enc_id),
        decoder_ready(d),
        d.event_id == enc_id,
        frame_fits(FrameView::Event(ev), enc_id, d),
    ensures
        ({
            let enc = encode_spec(enc_id, FrameView::Event(ev));
            let res = decode_spec(d, enc.bytes + tail);
            &&& res.outcome == Ok::<_, crate::decoder::DecodeErrorView>(
                Some(sticky_frame(FrameView::Event(ev), enc_id)),
            )
            &&& res.rest == tail
            &&& res.state == ready_after(d, enc.last_id)
        }),
{
    let enc = encode_spec(enc_id, FrameView::Event(ev));
    let src = enc.bytes + tail;
    let eff = match ev.id {
        Some(v) => v,
        None => enc_id,
    };
    assert(sticky_id_ok(eff));
    let name_count = if ev.name == message_name() {
        0int
    } else {
        ev.name.len() as int
    };
    let event_line = event_prefix() + ev.name + seq![LF];
    let data_lines = lines_bytes(data_prefix(), ev.data);
    let blank = seq![LF];

    // The state after the id has been taken up.
    let d_id = DecoderView { scanner: ScanState::NextFrame, event_id: eff, ..d };
    // The state after the event type has been taken up.
    let d_ev = DecoderView { event_type: ev.name, ..d_id };
    // The state with the data buffered.
    let d_data = DecoderView { data_buf: ev.data + seq![LF], ..d_ev };

    // Step one: the id line, where one is written.
    let after_id = event_line + data_lines + blank + tail;
    if eff.len() == 0 {
        assert(enc.bytes =~= event_line + data_lines + blank);
        assert(src =~= after_id);
    } else {
        let iname = seq![105u8, 100];  // "id"
        assert(id_prefix() =~= iname + seq![COLON, SP]);
        assert(src =~= iname + seq![COLON, SP] + eff + seq![LF] + after_id);
        lemma_scan_field_line(src, iname, eff, after_id);
        assert(field_kind_of_name(iname) == FieldKindView::Id);
        let v = eff + seq![LF];
        assert(chomp(v) =~= eff) by {
            assert(v.drop_last() =~= eff);
            assert(eff.last() != CR);
        }
        lemma_valid_utf8_scans(eff);
        assert(!(exists|i: int| 0 <= i < chomp(v).len() && chomp(v)[i] == 0));
        let d1 = DecoderView { scanner: ScanState::NextFrame, ..d };
        assert(dispatch_spec(d1, FieldFrameView::Field(FieldKindView::Id, v))
            == DispatchResult::Continue(d_id));
        assert(decode_spec(d, src) == decode_spec(d_id, after_id));
    }

    // Step two: the event line.
    let after_ev = data_lines + blank + tail;
    let ename = seq![101u8, 118, 101, 110, 116];  // "event"
    assert(event_prefix() =~= ename + seq![COLON, SP]);
    assert(after_id =~= ename + seq![COLON, SP] + ev.name + seq![LF] + after_ev);
    lemma_scan_field_line(after_id, ename, ev.name, after_ev);
    assert(field_kind_of_name(ename) == FieldKindView::Event);
    let vn = ev.name + seq![LF];
    assert(chomp(vn) =~= ev.name) by {
        assert(vn.drop_last() =~= ev.name);
        if ev.name.len() > 0 {
            assert(ev.name.last() != CR);
        }
    }
    lemma_valid_utf8_scans(ev.name);
    assert(dispatch_spec(d_id, FieldFrameView::Field(FieldKindView::Event, vn))
        == DispatchResult::Continue(d_ev));
    assert(decode_spec(d_id, after_id) == decode_spec(d_ev, after_ev));

    // Step three: the data lines.
    assert(view_buf_len(d_ev) == eff.len() + name_count);
    lemma_decode_data_lines(d_ev, ev.data, 0, blank + tail);
    assert(after_ev =~= lines_bytes_from(data_prefix(), ev.data, 0) + (blank + tail));
    assert(ev.data.subrange(0, ev.data.len() as int) =~= ev.data);
    assert(decode_spec(d_ev, after_ev) == decode_spec(d_data, blank + tail));

    // Step four: the blank line dispatches the event.
    lemma_scan_empty_line(blank + tail, tail);
    let buffered = ev.data + seq![LF];
    assert(buffered.last() == LF);
    assert(buffered.drop_last() =~= ev.data);
    let emitted = EventView {
        id: if eff.len() == 0 {
            None
        } else {
            Some(eff)
        },
        name: ev.name,
        data: ev.data,
    };
    let d_done = DecoderView { data_buf: Seq::empty(), event_type: message_name(), ..d_data };
    assert(dispatch_spec(d_data, FieldFrameView::EmptyLine) == DispatchResult::Emit(
        d_done,
        FrameView::Event(emitted),
    ));
    assert(decode_spec(d_data, blank + tail) == (DecodeResult {
        state: d_done,
        rest: tail,
        outcome: Ok(Some(FrameView::Event(emitted))),
    }));
    assert(enc.last_id == eff);
    assert(d.data_buf =~= Seq::<u8>::empty());
    assert(d_done == ready_after(d, enc.last_id));
}

/// One frame round-trips: the bytes the encoder writes for `f`, followed
/// by anything else, decode to exactly the frame with the sticky id
/// applied, consuming those bytes and leaving the decoder ready for the
/// next frame with its event id matching the encoder's new sticky id.
pub proof fn lemma_round_trip_frame(enc_id: Seq<u8>, f: FrameView, d: DecoderView, tail: Seq<u8>)
    requires
        frame_encodable(f),
        sticky_id_ok(enc_id),
        decoder_ready(d),
        d.event_id == enc_id,
        frame_fits(f, enc_id, d),
    ensures
        ({
            let enc = encode_spec(enc_id, f);
            let res = decode_spec(d, enc.bytes + tail);
            &&& res.outcome == Ok::<_, crate::decoder::DecodeErrorView>(
                Some(sticky_frame(f, enc_id)),
            )
            &&& res.rest == tail
            &&& res.state == ready_after(d, enc.last_id)
            &&& sticky_id_ok(enc.last_id)
        }),
{
    match f {
        FrameView::Comment(c) => {
            lemma_round_trip_comment(enc_id, c, d, tail);
        },
        FrameView::Retry(ms) => {
            lemma_round_trip_retry(enc_id, ms, d, tail);
        },
        FrameView::Event(ev) => {
            lemma_round_trip_event(enc_id, ev, d, tail);
        },
    }
}

/// Serializing a frame sequence: each frame is encoded with the sticky id
/// the one before it left.
pub open spec fn encode_all(enc_id: Seq<u8>, frames: Seq<FrameView>) -> EncodeResult
    decreases frames.len(),
{
    if frames.len() == 0 {
        EncodeResult { last_id: enc_id, bytes: Seq::empty() }
    } else {
        let first = encode_spec(enc_id, frames[0]);
        let rest = encode_all(first.last_id, frames.skip(1));
        EncodeResult { last_id: rest.last_id, bytes: first.bytes + rest.bytes }
    }
}

/// The frame sequence with sticky ids applied: each event without an id
/// takes the last id written before it.
pub open spec fn sticky_frames(enc_id: Seq<u8>, frames: Seq<FrameView>) -> Seq<FrameView>
    decreases frames.len(),
{
    if frames.len() == 0 {
        Seq::empty()
    } else {
        seq![sticky_frame(frames[0], enc_id)] + sticky_frames(
            encode_spec(enc_id, frames[0]).last_id,
            frames.skip(1),
        )
    }
}

/// A decoder with this ceiling can hold every frame of the sequence, as
/// the sticky id evolves.
pub open spec fn frames_fit(frames: Seq<FrameView>, enc_id: Seq<u8>, max: int) -> bool
    decreases frames.len(),
{
    frames.len() > 0 ==> frame_fits_len(frames[0], enc_id, max) && frames_fit(
        frames.skip(1),
        encode_spec(enc_id, frames[0]).last_id,
        max,
    )
}

/// Every frame of the sequence is encodable.
pub open spec fn frames_encodable(frames: Seq<FrameView>) -> bool {
    forall|i: int| 0 <= i < frames.len() ==> frame_encodable(#[trigger] frames[i])
}

/// What `k` decoder calls do: the state and input they leave, the frames
/// they report, and whether every call reported one.
pub ghost struct DecodeRun {
    pub state: DecoderView,
    pub rest: Seq<u8>,
    pub frames: Seq<FrameView>,
    pub ok: bool,
}

/// Runs the decoder `k` times, collecting the reported frames.
pub open spec fn decode_run(d: DecoderView, src: Seq<u8>, k: nat) -> DecodeRun
    decreases k,
{
    if k == 0 {
        DecodeRun { state: d, rest: src, frames: Seq::empty(), ok: true }
    } else {
        let r = decode_spec(d, src);
        match r.outcome {
            Ok(Some(f)) => {
                let rec = decode_run(r.state, r.rest, (k - 1) as nat);
                DecodeRun {
                    state: rec.state,
                    rest: rec.rest,
                    frames: seq![f] + rec.frames,
                    ok: rec.ok,
                }
            },
            _ => DecodeRun { state: r.state, rest: r.rest, frames: Seq::empty(), ok: false },
        }
    }
}

/// The round trip: for every encodable frame sequence, decoding the bytes
/// the encoder writes re-parses it to the same sequence with sticky ids
/// applied, consuming all the bytes, one decoder call per frame.
pub proof fn lemma_round_trip(enc_id: Seq<u8>, frames: Seq<FrameView>, d: DecoderView)
    requires
        frames_encodable(frames),
        sticky_id_ok(enc_id),
        decoder_ready(d),
        d.event_id == enc_id,
        frames_fit(frames, enc_id, d.max_buf_len as int),
    ensures
        ({
            let enc = encode_all(enc_id, frames);
            let run = decode_run(d, enc.bytes, frames.len() as nat);
            &&& run.ok
            &&& run.frames == sticky_frames(enc_id, frames)
            &&& run.rest.len() == 0
            &&& (frames.len() > 0 ==> run.state == ready_after(d, enc.last_id))
            &&& (frames.len() == 0 ==> run.state == d)
        }),
    decreases frames.len(),
{
    let enc = encode_all(enc_id, frames);
    if frames.len() == 0 {
        assert(enc.bytes =~= Seq::<u8>::empty());
    } else {
        let f0 = frames[0];
        assert(frame_encodable(f0));
        let first = encode_spec(enc_id, f0);
        let rest = encode_all(first.last_id, frames.skip(1));
        lemma_round_trip_frame(enc_id, f0, d, rest.bytes);
        assert(enc.bytes =~= first.bytes + rest.bytes);
        let d1 = ready_after(d, first.last_id);
        assert(decoder_ready(d1));
        assert forall|i: int| 0 <= i < frames.skip(1).len() implies frame_encodable(
            #[trigger] frames.skip(1)[i],
        ) by {
            assert(frames.skip(1)[i] == frames[i + 1]);
        }
        lemma_round_trip(first.last_id, frames.skip(1), d1);
        let rec = decode_run(d1, rest.bytes, frames.skip(1).len() as nat);
        assert(decode_run(d, enc.bytes, frames.len() as nat).frames == seq![
            sticky_frame(f0, enc_id),
        ] + rec.frames);
        assert(sticky_frames(enc_id, frames) == seq![sticky_frame(f0, enc_id)] + sticky_frames(
            first.last_id,
            frames.skip(1),
        ));
        if frames.skip(1).len() == 0 {
            assert(rec.state == d1);
            assert(enc.last_id == first.last_id);
        }
    }
}

} // verus!
