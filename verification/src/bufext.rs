//! Helpers for working with a growable byte buffer, in the style of a
//! consumable byte stream: bytes are appended at the back by the caller and
//! consumed from the front by the decoders.

use vstd::prelude::*;

verus! {

/// Position of the first byte in `s[from..]` equal to `a` or `b`, if any.
pub open spec fn seq_find2(s: Seq<u8>, from: int, a: u8, b: u8) -> Option<int>
    decreases s.len() - from when 0 <= from <= s.len()
{
    if from < 0 || from >= s.len() {
        None
    } else if s[from] == a || s[from] == b {
        Some(from)
    } else {
        seq_find2(s, from + 1, a, b)
    }
}

pub proof fn lemma_seq_find2(s: Seq<u8>, from: int, a: u8, b: u8)
    requires
        0 <= from <= s.len(),
    ensures
        match seq_find2(s, from, a, b) {
            Some(i) => from <= i < s.len() && (s[i] == a || s[i] == b) && (forall|j: int|
                from <= j < i ==> s[j] != a && s[j] != b),
            None => forall|j: int| from <= j < s.len() ==> s[j] != a && s[j] != b,
        },
    decreases s.len() - from,
{
    if from < s.len() && s[from] != a && s[from] != b {
        lemma_seq_find2(s, from + 1, a, b);
    }
}

/// Searching further along the buffer finds the same byte, as long as the
/// skipped-over span holds no match.
pub proof fn lemma_seq_find2_shift(s: Seq<u8>, from: int, mid: int, a: u8, b: u8)
    requires
        0 <= from <= mid <= s.len(),
        forall|j: int| from <= j < mid ==> s[j] != a && s[j] != b,
    ensures
        seq_find2(s, from, a, b) == seq_find2(s, mid, a, b),
    decreases mid - from,
{
    if from < mid {
        lemma_seq_find2_shift(s, from + 1, mid, a, b);
    }
}

/// Removes the first `n` bytes of `buf`.
pub fn advance(buf: &mut Vec<u8>, n: usize)
    requires
        n <= old(buf)@.len(),
    ensures
        final(buf)@ == old(buf)@.subrange(n as int, old(buf)@.len() as int),
{
    let mut tail = buf.split_off(n);
    core::mem::swap(buf, &mut tail);
}

/// Splits off and returns the first `n` bytes of `buf`, leaving the rest.
pub fn split_to(buf: &mut Vec<u8>, n: usize) -> (r: Vec<u8>)
    requires
        n <= old(buf)@.len(),
    ensures
        r@ == old(buf)@.subrange(0, n as int),
        final(buf)@ == old(buf)@.subrange(n as int, old(buf)@.len() as int),
{
    let mut tail = buf.split_off(n);
    core::mem::swap(buf, &mut tail);
    tail
}

/// Finds the first position at or after `from` whose byte is `a` or `b`.
pub fn find_either(buf: &Vec<u8>, from: usize, a: u8, b: u8) -> (r: Option<usize>)
    requires
        from <= buf@.len(),
    ensures
        match r {
            Some(i) => seq_find2(buf@, from as int, a, b) == Some(i as int),
            None => seq_find2(buf@, from as int, a, b) is None,
        },
{
    let mut i: usize = from;
    while i < buf.len()
        invariant
            from <= i <= buf@.len(),
            seq_find2(buf@, from as int, a, b) == seq_find2(buf@, i as int, a, b),
        decreases buf@.len() - i,
    {
        if buf[i] == a || buf[i] == b {
            return Some(i);
        }
        i = i + 1;
    }
    None
}

/// Removes the last byte of `buf` if the buffer is non-empty.
pub fn rbump(buf: &mut Vec<u8>)
    ensures
        final(buf)@ == if old(buf)@.len() == 0 {
            old(buf)@
        } else {
            old(buf)@.subrange(0, old(buf)@.len() - 1)
        },
{
    if buf.len() > 0 {
        let n = buf.len() - 1;
        buf.truncate(n);
        assert(final(buf)@ =~= old(buf)@.subrange(0, old(buf)@.len() - 1));
    }
}

/// Removes the last byte of `buf` if it equals `byte`.
pub fn rbump_if(buf: &mut Vec<u8>, byte: u8)
    ensures
        final(buf)@ == if old(buf)@.len() > 0 && old(buf)@.last() == byte {
            old(buf)@.subrange(0, old(buf)@.len() - 1)
        } else {
            old(buf)@
        },
{
    if buf.len() > 0 && buf[buf.len() - 1] == byte {
        let n = buf.len() - 1;
        buf.truncate(n);
        assert(final(buf)@ =~= old(buf)@.subrange(0, old(buf)@.len() - 1));
    }
}

/// Removes the first byte of `buf` if it equals `byte`.
pub fn bump_if(buf: &mut Vec<u8>, byte: u8)
    ensures
        final(buf)@ == if old(buf)@.len() > 0 && old(buf)@.first() == byte {
            old(buf)@.subrange(1, old(buf)@.len() as int)
        } else {
            old(buf)@
        },
{
    if buf.len() > 0 && buf[0] == byte {
        advance(buf, 1);
    }
}

/// True when the two byte slices hold the same bytes.
pub fn bytes_eq(a: &[u8], b: &[u8]) -> (r: bool)
    ensures
        r == (a@ == b@),
{
    if a.len() != b.len() {
        assert(a@.len() != b@.len());
        return false;
    }
    let mut i: usize = 0;
    while i < a.len()
        invariant
            i <= a@.len(),
            a@.len() == b@.len(),
            forall|j: int| 0 <= j < i ==> a@[j] == b@[j],
        decreases a@.len() - i,
    {
        if a[i] != b[i] {
            return false;
        }
        i = i + 1;
    }
    assert(a@ =~= b@);
    true
}

/// Appends every byte of `src` to `dst`.
pub fn extend_bytes(dst: &mut Vec<u8>, src: &[u8])
    ensures
        final(dst)@ == old(dst)@ + src@,
{
    dst.extend_from_slice(src);
}

} // verus!
