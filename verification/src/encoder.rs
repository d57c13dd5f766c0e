//! The SSE encoder: serializes [`Frame`] values to wire bytes. Multi-line
//! data is split into repeated `data:` lines, comments into repeated `:`
//! lines, and the event id is sticky: once an event has set an id, later
//! events without one are written with the last id seen.

use crate::bufext::{extend_bytes, lemma_seq_find2, seq_find2};
use crate::errors::SseEncodeError;
use crate::field_decoder::{COLON, LF, SP};
use crate::frame::{Event, Frame, FrameView};
use vstd::prelude::*;

verus! {

/// The bytes `id: `.
pub open spec fn id_prefix() -> Seq<u8> {
    seq![105u8, 100, COLON, SP]
}

/// The bytes `event: `.
pub open spec fn event_prefix() -> Seq<u8> {
    seq![101u8, 118, 101, 110, 116, COLON, SP]
}

/// The bytes `data: `.
pub open spec fn data_prefix() -> Seq<u8> {
    seq![100u8, 97, 116, 97, COLON, SP]
}

/// The bytes `retry: `.
pub open spec fn retry_prefix() -> Seq<u8> {
    seq![114u8, 101, 116, 114, 121, COLON, SP]
}

/// The bytes `: `.
pub open spec fn comment_prefix() -> Seq<u8> {
    seq![COLON, SP]
}

/// `s[from..]` split on line feeds, each piece written as `prefix piece \n`.
pub open spec fn lines_bytes_from(prefix: Seq<u8>, s: Seq<u8>, from: int) -> Seq<u8>
    decreases s.len() - from when 0 <= from <= s.len()
    via check_lines_bytes_from_decreases
{
    match seq_find2(s, from, LF, LF) {
        Some(i) => prefix + s.subrange(from, i) + seq![LF] + lines_bytes_from(prefix, s, i + 1),
        None => prefix + s.subrange(from, s.len() as int) + seq![LF],
    }
}

#[via_fn]
proof fn check_lines_bytes_from_decreases(prefix: Seq<u8>, s: Seq<u8>, from: int) {
    lemma_seq_find2(s, from, LF, LF);
}

/// `s` split on line feeds, each line written as `prefix line \n`.
pub open spec fn lines_bytes(prefix: Seq<u8>, s: Seq<u8>) -> Seq<u8> {
    lines_bytes_from(prefix, s, 0)
}

/// The decimal digits of `n`, most significant first.
pub open spec fn dec_digits(n: int) -> Seq<u8>
    decreases n when n >= 0
{
    if n < 10 {
        seq![(48 + n) as u8]
    } else {
        dec_digits(n / 10) + seq![(48 + n % 10) as u8]
    }
}

/// What encoding one frame does: the sticky id it leaves behind and the
/// bytes it writes.
pub ghost struct EncodeResult {
    pub last_id: Seq<u8>,
    pub bytes: Seq<u8>,
}

/// Serializes one frame given the sticky id seen so far. A comment is
/// written line by line; an event is written as its id (the sticky one when
/// the event has none, and only when non-empty), its name, and its data
/// lines, terminated by a blank line; a retry is written in whole
/// milliseconds.
pub open spec fn encode_spec(last_id: Seq<u8>, f: FrameView) -> EncodeResult {
    match f {
        FrameView::Comment(c) => EncodeResult { last_id, bytes: lines_bytes(comment_prefix(), c) },
        FrameView::Retry(ms) => EncodeResult {
            last_id,
            bytes: retry_prefix() + dec_digits(ms) + seq![LF],
        },
        FrameView::Event(ev) => {
            let id = match ev.id {
                Some(v) => v,
                None => last_id,
            };
            let id_bytes = if id.len() == 0 {
                Seq::<u8>::empty()
            } else {
                id_prefix() + id + seq![LF]
            };
            EncodeResult {
                last_id: id,
                bytes: id_bytes + event_prefix() + ev.name + seq![LF] + lines_bytes(
                    data_prefix(),
                    ev.data,
                ) + seq![LF],
            }
        },
    }
}

/// Writes `prefix piece \n` for every line-feed-separated piece of `s`.
fn write_lines(dst: &mut Vec<u8>, prefix: &[u8], s: &Vec<u8>)
    ensures
        final(dst)@ == old(dst)@ + lines_bytes(prefix@, s@),
{
    let n = s.len();
    let mut start: usize = 0;
    loop
        invariant
            0 <= start <= n,
            n == s@.len(),
            dst@ + lines_bytes_from(prefix@, s@, start as int) == old(dst)@ + lines_bytes(
                prefix@,
                s@,
            ),
        decreases s@.len() - start,
    {
        match crate::bufext::find_either(s, start, LF, LF) {
            Some(i) => {
                proof {
                    lemma_seq_find2(s@, start as int, LF, LF);
                    assert(start <= i < n);
                }
                extend_bytes(dst, prefix);
                extend_bytes(dst, &s.as_slice()[start..i]);
                dst.push(LF);
                proof {
                    assert(dst@ + lines_bytes_from(prefix@, s@, i + 1) =~= old(dst)@ + lines_bytes(
                        prefix@,
                        s@,
                    ));
                }
                start = i + 1;
            },
            None => {
                extend_bytes(dst, prefix);
                extend_bytes(dst, &s.as_slice()[start..s.len()]);
                dst.push(LF);
                proof {
                    assert(dst@ =~= old(dst)@ + lines_bytes(prefix@, s@));
                }
                return ;
            },
        }
    }
}

/// Writes the decimal digits of `n`, most significant first.
pub(crate) fn push_decimal(dst: &mut Vec<u8>, n: u128)
    ensures
        final(dst)@ == old(dst)@ + dec_digits(n as int),
{
    let mut tmp: Vec<u8> = Vec::new();
    let mut m: u128 = n;
    tmp.push(48 + ((m % 10) as u8));
    proof {
        assert(tmp@.reverse() =~= seq![(48 + (n as int) % 10) as u8]);
    }
    m = m / 10;
    while m > 0
        invariant
            if m == 0 {
                dec_digits(n as int) == tmp@.reverse()
            } else {
                dec_digits(n as int) == dec_digits(m as int) + tmp@.reverse()
            },
        decreases m,
    {
        let d = 48 + ((m % 10) as u8);
        let ghost old_tmp = tmp@;
        let ghost old_m = m as int;
        tmp.push(d);
        m = m / 10;
        proof {
            assert(tmp@.reverse() =~= seq![d] + old_tmp.reverse());
            if old_m < 10 {
                assert(dec_digits(old_m) == seq![d]);
            } else {
                assert(dec_digits(old_m) == dec_digits(old_m / 10) + seq![d]);
            }
        }
    }
    let count = tmp.len();
    let mut k: usize = 0;
    while k < count
        invariant
            0 <= k <= count,
            count == tmp@.len(),
            dst@ == old(dst)@ + tmp@.reverse().subrange(0, k as int),
            dec_digits(n as int) == tmp@.reverse(),
        decreases count - k,
    {
        dst.push(tmp[count - 1 - k]);
        proof {
            assert(dst@ =~= old(dst)@ + tmp@.reverse().subrange(0, k + 1));
        }
        k = k + 1;
    }
    proof {
        assert(tmp@.reverse().subrange(0, tmp@.len() as int) =~= tmp@.reverse());
    }
}

/// Encodes SSE frames into bytes, remembering the last event id written.
#[derive(Debug, Clone, PartialEq, Eq)]
pub struct SseEncoder {
    pub last_id: Vec<u8>,
}

impl View for SseEncoder {
    type V = Seq<u8>;

    open spec fn view(&self) -> Seq<u8> {
        self.last_id@
    }
}

impl SseEncoder {
    /// An encoder that has not yet seen an event id.
    pub fn new() -> (r: Self)
        ensures
            r@ == Seq::<u8>::empty(),
    {
        Self { last_id: Vec::new() }
    }

    /// Serializes `item` onto the end of `dst`.
    pub fn encode(&mut self, item: Frame, dst: &mut Vec<u8>) -> (r: Result<(), SseEncodeError>)
        ensures
            r is Ok,
            ({
                let res = encode_spec(old(self)@, item@);
                &&& final(self)@ == res.last_id
                &&& final(dst)@ == old(dst)@ + res.bytes
            }),
    {
        let comment_pfx: [u8; 2] = [COLON, SP];
        let id_pfx: [u8; 4] = [105, 100, COLON, SP];  // "id: "
        let event_pfx: [u8; 7] = [101, 118, 101, 110, 116, COLON, SP];  // "event: "
        let data_pfx: [u8; 6] = [100, 97, 116, 97, COLON, SP];  // "data: "
        let retry_pfx: [u8; 7] = [114, 101, 116, 114, 121, COLON, SP];  // "retry: "
        proof {
            assert(comment_pfx@ =~= comment_prefix());
            assert(id_pfx@ =~= id_prefix());
            assert(event_pfx@ =~= event_prefix());
            assert(data_pfx@ =~= data_prefix());
            assert(retry_pfx@ =~= retry_prefix());
        }
        match item {
            Frame::Comment(c) => {
                write_lines(dst, comment_pfx.as_slice(), &c);
            },
            Frame::Event(ev) => {
                let Event { id, name, data } = ev;
                match id {
                    Some(v) => {
                        self.last_id = v;
                    },
                    None => {},
                }
                let ghost bytes0 = dst@;
                if self.last_id.len() > 0 {
                    extend_bytes(dst, id_pfx.as_slice());
                    extend_bytes(dst, self.last_id.as_slice());
                    dst.push(LF);
                }
                extend_bytes(dst, event_pfx.as_slice());
                extend_bytes(dst, name.as_slice());
                dst.push(LF);
                write_lines(dst, data_pfx.as_slice(), &data);
                dst.push(LF);
                proof {
                    assert(dst@ =~= old(dst)@ + encode_spec(old(self)@, item@).bytes);
                }
            },
            Frame::Retry(ms) => {
                extend_bytes(dst, retry_pfx.as_slice());
                push_decimal(dst, ms);
                dst.push(LF);
                proof {
                    assert(dst@ =~= old(dst)@ + encode_spec(old(self)@, item@).bytes);
                }
            },
        }
        Ok(())
    }
}

impl Default for SseEncoder {
    fn default() -> (r: Self)
        ensures
            r@ == Seq::<u8>::empty(),
    {
        Self::new()
    }
}

/// The encoder's id is sticky: an event that carries no id of its own is
/// written with the last non-empty id an earlier event set, so its wire
/// form still begins with that `id:` line, and the sticky id survives.
pub proof fn lemma_encoder_id_sticky(last_id: Seq<u8>, ev: crate::frame::EventView)
    requires
        ev.id is None,
        last_id.len() > 0,
    ensures
        encode_spec(last_id, FrameView::Event(ev)).last_id == last_id,
        encode_spec(last_id, FrameView::Event(ev)).bytes.subrange(
            0,
            id_prefix().len() + last_id.len() + 1 as int,
        ) == id_prefix() + last_id + seq![LF],
{
    let bytes = encode_spec(last_id, FrameView::Event(ev)).bytes;
    assert(bytes.subrange(0, id_prefix().len() + last_id.len() + 1 as int) =~= id_prefix() + last_id
        + seq![LF]);
}

} // verus!
