//! An executable UTF-8 well-formedness check, proved against the
//! mathematical UTF-8 model, together with the diagnostic it reports:
//! the length of the longest well-formed prefix and the shape of the first
//! offending sequence.

use crate::errors::Utf8ErrorInfo;
use vstd::prelude::*;
use vstd::utf8::*;

verus! {

/// Where and how a UTF-8 check fails.
pub ghost struct Utf8Failure {
    /// Length of the longest well-formed prefix.
    pub at: int,
    /// Length of the offending sequence, or `None` when the input ends in
    /// the middle of what could still become a well-formed sequence.
    pub error_len: Option<int>,
}

/// Scans `s` from position `i`, scalar by scalar, and reports the first
/// position at which the bytes stop being well-formed UTF-8, if any.
///
/// A failure's `error_len` follows the convention of the standard library's
/// UTF-8 error: `None` when the input ends inside a possibly well-formed
/// sequence, and otherwise the number of bytes that conform to the expected
/// pattern before the contradicting byte.
pub open spec fn utf8_scan(s: Seq<u8>, i: int) -> Option<Utf8Failure>
    decreases s.len() - i when 0 <= i <= s.len()
{
    if i >= s.len() {
        None
    } else {
        let b = s[i];
        if b <= 0x7f {
            utf8_scan(s, i + 1)
        } else if 0xc2 <= b <= 0xdf {
            if i + 1 >= s.len() {
                Some(Utf8Failure { at: i, error_len: None })
            } else if is_continuation_byte(s[i + 1]) {
                utf8_scan(s, i + 2)
            } else {
                Some(Utf8Failure { at: i, error_len: Some(1) })
            }
        } else if 0xe0 <= b <= 0xef {
            if i + 1 >= s.len() {
                Some(Utf8Failure { at: i, error_len: None })
            } else if !(is_continuation_byte(s[i + 1]) && (b != 0xe0 || s[i + 1] >= 0xa0) && (b
                != 0xed || s[i + 1] <= 0x9f)) {
                Some(Utf8Failure { at: i, error_len: Some(1) })
            } else if i + 2 >= s.len() {
                Some(Utf8Failure { at: i, error_len: None })
            } else if !is_continuation_byte(s[i + 2]) {
                Some(Utf8Failure { at: i, error_len: Some(2) })
            } else {
                utf8_scan(s, i + 3)
            }
        } else if 0xf0 <= b <= 0xf4 {
            if i + 1 >= s.len() {
                Some(Utf8Failure { at: i, error_len: None })
            } else if !(is_continuation_byte(s[i + 1]) && (b != 0xf0 || s[i + 1] >= 0x90) && (b
                != 0xf4 || s[i + 1] <= 0x8f)) {
                Some(Utf8Failure { at: i, error_len: Some(1) })
            } else if i + 2 >= s.len() {
                Some(Utf8Failure { at: i, error_len: None })
            } else if !is_continuation_byte(s[i + 2]) {
                Some(Utf8Failure { at: i, error_len: Some(2) })
            } else if i + 3 >= s.len() {
                Some(Utf8Failure { at: i, error_len: None })
            } else if !is_continuation_byte(s[i + 3]) {
                Some(Utf8Failure { at: i, error_len: Some(3) })
            } else {
                utf8_scan(s, i + 4)
            }
        } else {
            Some(Utf8Failure { at: i, error_len: Some(1) })
        }
    }
}

/// The acceptance test that the scan applies to the scalar starting at `i`.
pub open spec fn scan_accepts_scalar(s: Seq<u8>, i: int) -> bool
    recommends
        0 <= i < s.len(),
{
    let b = s[i];
    ||| b <= 0x7f
    ||| (0xc2 <= b <= 0xdf && i + 1 < s.len() && is_continuation_byte(s[i + 1]))
    ||| (0xe0 <= b <= 0xef && i + 2 < s.len() && is_continuation_byte(s[i + 1]) && (s[i] != 0xe0
        || s[i + 1] >= 0xa0) && (s[i] != 0xed || s[i + 1] <= 0x9f) && is_continuation_byte(
        s[i + 2],
    ))
    ||| (0xf0 <= s[i] <= 0xf4 && i + 3 < s.len() && is_continuation_byte(s[i + 1]) && (s[i] != 0xf0
        || s[i + 1] >= 0x90) && (s[i] != 0xf4 || s[i + 1] <= 0x8f) && is_continuation_byte(
        s[i + 2],
    ) && is_continuation_byte(s[i + 3]))
}

/// The suffix of `s` starting at `i` begins with a well-formed scalar of the
/// stated width exactly when the scan accepts it.
proof fn lemma_accepted_scalar(s: Seq<u8>, i: int) -> (w: int)
    requires
        0 <= i < s.len(),
        scan_accepts_scalar(s, i),
    ensures
        valid_first_scalar(s.subrange(i, s.len() as int)),
        w == length_of_first_scalar(s.subrange(i, s.len() as int)),
        i + w <= s.len(),
        pop_first_scalar(s.subrange(i, s.len() as int)) =~= s.subrange(i + w, s.len() as int),
        w == if s[i] <= 0x7f {
            1int
        } else if s[i] <= 0xdf {
            2int
        } else if s[i] <= 0xef {
            3int
        } else {
            4int
        },
{
    let t = s.subrange(i, s.len() as int);
    let b = s[i];
    if b <= 0x7f {
        assert(is_leading_byte_width_1(t[0]));
        1
    } else if b <= 0xdf {
        assert(is_leading_byte_width_2(t[0]) && is_continuation_byte(t[1]));
        assert(!is_leading_byte_width_1(t[0]));
        let b2 = s[i + 1];
        assert(codepoint_width_2(b, b2) >= 0x80 && codepoint_width_2(b, b2) <= 0x7ff) by {
            assert(0xc2 <= b <= 0xdf && 0x80 <= b2 <= 0xbf ==> 0x80 <= (((b & 0x1f) as u32) << 6)
                | ((b2 & 0x3f) as u32) <= 0x7ff) by (bit_vector);
        }
        2
    } else if b <= 0xef {
        assert(is_leading_byte_width_3(t[0]) && is_continuation_byte(t[1])
            && is_continuation_byte(t[2]));
        assert(!is_leading_byte_width_1(t[0]) && !is_leading_byte_width_2(t[0]));
        let b2 = s[i + 1];
        let b3 = s[i + 2];
        let cp = codepoint_width_3(b, b2, b3);
        assert(cp >= 0x800 && !(0xd800 <= cp <= 0xdfff)) by {
            assert({
                let c = ((((b & 0x0f) as u32) << 12) | (((b2 & 0x3f) as u32) << 6) | ((b3
                    & 0x3f) as u32));
                (0xe0 <= b <= 0xef && 0x80 <= b2 <= 0xbf && 0x80 <= b3 <= 0xbf && (b != 0xe0 || b2
                    >= 0xa0) && (b != 0xed || b2 <= 0x9f)) ==> (c >= 0x800 && !(0xd800 <= c
                    <= 0xdfff))
            }) by (bit_vector);
        }
        3
    } else {
        assert(is_leading_byte_width_4(t[0]) && is_continuation_byte(t[1])
            && is_continuation_byte(t[2]) && is_continuation_byte(t[3]));
        assert(!is_leading_byte_width_1(t[0]) && !is_leading_byte_width_2(t[0])
            && !is_leading_byte_width_3(t[0]));
        let b2 = s[i + 1];
        let b3 = s[i + 2];
        let b4 = s[i + 3];
        let cp = codepoint_width_4(b, b2, b3, b4);
        assert(0x10000 <= cp <= 0x10ffff) by {
            assert({
                let c = ((((b & 0x07) as u32) << 18) | (((b2 & 0x3f) as u32) << 12) | (((b3
                    & 0x3f) as u32) << 6) | ((b4 & 0x3f) as u32));
                (0xf0 <= b <= 0xf4 && 0x80 <= b2 <= 0xbf && 0x80 <= b3 <= 0xbf && 0x80 <= b4 <= 0xbf
                    && (b != 0xf0 || b2 >= 0x90) && (b != 0xf4 || b2 <= 0x8f)) ==> (0x10000 <= c
                    <= 0x10ffff)
            }) by (bit_vector);
        }
        4
    }
}

/// The suffix of `s` starting at `i` does not begin with a well-formed
/// scalar when the scan rejects it there.
proof fn lemma_rejected_scalar(s: Seq<u8>, i: int)
    requires
        0 <= i < s.len(),
        !scan_accepts_scalar(s, i),
    ensures
        !valid_first_scalar(s.subrange(i, s.len() as int)),
{
    let t = s.subrange(i, s.len() as int);
    let b = s[i];
    if b <= 0x7f {
        assert(false);
    } else if b <= 0xbf {
        assert(!is_leading_byte_width_1(t[0]) && !is_leading_byte_width_2(t[0])
            && !is_leading_byte_width_3(t[0]) && !is_leading_byte_width_4(t[0]));
    } else if b <= 0xc1 {
        // A well-formed leading-byte pattern, but any completion is overlong.
        if t.len() >= 2 && is_continuation_byte(t[1]) {
            let b2 = s[i + 1];
            assert(codepoint_width_2(b, b2) < 0x80) by {
                assert(0xc0 <= b <= 0xc1 && 0x80 <= b2 <= 0xbf ==> ((((b & 0x1f) as u32) << 6) | ((
                b2 & 0x3f) as u32)) < 0x80) by (bit_vector);
            }
        }
    } else if b <= 0xdf {
        assert(!(i + 1 < s.len() && is_continuation_byte(s[i + 1])));
    } else if b <= 0xef {
        if i + 1 < s.len() && is_continuation_byte(s[i + 1]) && i + 2 < s.len()
            && is_continuation_byte(s[i + 2]) {
            // The second byte must have broken an overlong or surrogate bound.
            let b2 = s[i + 1];
            let b3 = s[i + 2];
            assert((b == 0xe0 && b2 < 0xa0) || (b == 0xed && b2 > 0x9f));
            let cp = codepoint_width_3(b, b2, b3);
            if b == 0xe0 {
                assert(cp < 0x800) by {
                    assert((b == 0xe0 && 0x80 <= b2 <= 0xbf && b2 < 0xa0 && 0x80 <= b3 <= 0xbf)
                        ==> ((((b & 0x0f) as u32) << 12) | (((b2 & 0x3f) as u32) << 6) | ((b3
                        & 0x3f) as u32)) < 0x800) by (bit_vector);
                }
            } else {
                assert(0xd800 <= cp <= 0xdfff) by {
                    assert((b == 0xed && 0xa0 <= b2 <= 0xbf && 0x80 <= b3 <= 0xbf) ==> (0xd800 <= ((
                    ((b & 0x0f) as u32) << 12) | (((b2 & 0x3f) as u32) << 6) | ((b3
                        & 0x3f) as u32)) <= 0xdfff)) by (bit_vector);
                }
            }
        }
    } else if b <= 0xf4 {
        if i + 1 < s.len() && is_continuation_byte(s[i + 1]) && i + 2 < s.len()
            && is_continuation_byte(s[i + 2]) && i + 3 < s.len() && is_continuation_byte(
            s[i + 3],
        ) {
            let b2 = s[i + 1];
            let b3 = s[i + 2];
            let b4 = s[i + 3];
            assert((b == 0xf0 && b2 < 0x90) || (b == 0xf4 && b2 > 0x8f));
            let cp = codepoint_width_4(b, b2, b3, b4);
            if b == 0xf0 {
                assert(cp < 0x10000) by {
                    assert((b == 0xf0 && 0x80 <= b2 <= 0xbf && b2 < 0x90 && 0x80 <= b3 <= 0xbf
                        && 0x80 <= b4 <= 0xbf) ==> ((((b & 0x07) as u32) << 18) | (((b2
                        & 0x3f) as u32) << 12) | (((b3 & 0x3f) as u32) << 6) | ((b4
                        & 0x3f) as u32)) < 0x10000) by (bit_vector);
                }
            } else {
                assert(cp > 0x10ffff) by {
                    assert((b == 0xf4 && 0x90 <= b2 <= 0xbf && 0x80 <= b3 <= 0xbf && 0x80 <= b4
                        <= 0xbf) ==> ((((b & 0x07) as u32) << 18) | (((b2 & 0x3f) as u32) << 12) | (
                    ((b3 & 0x3f) as u32) << 6) | ((b4 & 0x3f) as u32)) > 0x10ffff) by (bit_vector);
                }
            }
        }
    } else if b <= 0xf7 {
        // A well-formed leading-byte pattern, but any completion lies past
        // the last Unicode scalar.
        if i + 1 < s.len() && is_continuation_byte(s[i + 1]) && i + 2 < s.len()
            && is_continuation_byte(s[i + 2]) && i + 3 < s.len() && is_continuation_byte(
            s[i + 3],
        ) {
            let b2 = s[i + 1];
            let b3 = s[i + 2];
            let b4 = s[i + 3];
            let cp = codepoint_width_4(b, b2, b3, b4);
            assert(cp > 0x10ffff) by {
                assert((0xf5 <= b <= 0xf7 && 0x80 <= b2 <= 0xbf && 0x80 <= b3 <= 0xbf && 0x80 <= b4
                    <= 0xbf) ==> ((((b & 0x07) as u32) << 18) | (((b2 & 0x3f) as u32) << 12) | (((b3
                    & 0x3f) as u32) << 6) | ((b4 & 0x3f) as u32)) > 0x10ffff) by (bit_vector);
            }
        }
    } else {
        assert(!is_leading_byte_width_1(t[0]) && !is_leading_byte_width_2(t[0])
            && !is_leading_byte_width_3(t[0]) && !is_leading_byte_width_4(t[0]));
    }
}

/// The scan decides UTF-8 validity: scanning from `i` succeeds exactly when
/// the suffix starting at `i` is valid, and a failure at `j` means the bytes
/// between `i` and `j` are valid.
pub proof fn lemma_utf8_scan_correct(s: Seq<u8>, i: int)
    requires
        0 <= i <= s.len(),
    ensures
        match utf8_scan(s, i) {
            None => valid_utf8(s.subrange(i, s.len() as int)),
            Some(f) => i <= f.at <= s.len() && !valid_utf8(s.subrange(i, s.len() as int))
                && valid_utf8(s.subrange(i, f.at)),
        },
    decreases s.len() - i,
{
    let t = s.subrange(i, s.len() as int);
    if i >= s.len() {
        assert(t.len() == 0);
    } else {
        let b = s[i];
        if scan_accepts_scalar(s, i) {
            let w = lemma_accepted_scalar(s, i);
            assert(utf8_scan(s, i) == utf8_scan(s, i + w));
            lemma_utf8_scan_correct(s, i + w);
            let rest = s.subrange(i + w, s.len() as int);
            match utf8_scan(s, i) {
                None => {
                    assert(valid_utf8(rest));
                    assert(valid_utf8(t));
                },
                Some(f) => {
                    assert(!valid_utf8(rest));
                    assert(!valid_utf8(t));
                    // The valid prefix extends across this scalar.
                    assert(valid_utf8(s.subrange(i + w, f.at)));
                    let scalar = s.subrange(i, i + w);
                    assert(scalar =~= take_first_scalar(t));
                    assert(valid_utf8(pop_first_scalar(scalar))) by {
                        assert(pop_first_scalar(scalar) =~= Seq::<u8>::empty());
                    }
                    assert(valid_first_scalar(scalar)) by {
                        lemma_accepted_scalar(s, i);
                        assert(scalar[0] == t[0]);
                        if w >= 2 {
                            assert(scalar[1] == t[1]);
                        }
                        if w >= 3 {
                            assert(scalar[2] == t[2]);
                        }
                        if w >= 4 {
                            assert(scalar[3] == t[3]);
                        }
                    }
                    assert(valid_utf8(scalar));
                    valid_utf8_concat(scalar, s.subrange(i + w, f.at));
                    assert(scalar + s.subrange(i + w, f.at) =~= s.subrange(i, f.at));
                },
            }
        } else {
            assert(utf8_scan(s, i) matches Some(f) && f.at == i);
            lemma_rejected_scalar(s, i);
            assert(t.len() > 0);
            assert(!valid_utf8(t));
            assert(valid_utf8(s.subrange(i, i))) by {
                assert(s.subrange(i, i) =~= Seq::<u8>::empty());
            }
        }
    }
}

/// Checks whether `s` is well-formed UTF-8, reporting where the first
/// offending sequence starts when it is not.
pub fn check_utf8(s: &[u8]) -> (r: Result<(), Utf8ErrorInfo>)
    ensures
        match r {
            Ok(()) => valid_utf8(s@) && utf8_scan(s@, 0) is None,
            Err(info) => {
                &&& !valid_utf8(s@)
                &&& utf8_scan(s@, 0) matches Some(f) && f.at == info.valid_up_to && f.error_len
                    == (match info.error_len {
                    Some(n) => Some(n as int),
                    None => None::<int>,
                })
                &&& valid_utf8(s@.subrange(0, info.valid_up_to as int))
            },
        },
{
    let ghost gs = s@;
    let n = s.len();
    let mut i: usize = 0;
    while i < n
        invariant
            0 <= i <= n,
            n == gs.len(),
            s@ == gs,
            utf8_scan(gs, 0) == utf8_scan(gs, i as int),
        decreases n - i,
    {
        let b = s[i];
        let mut failure: Option<Utf8ErrorInfo> = None;
        if b <= 0x7f {
            i = i + 1;
        } else if 0xc2 <= b && b <= 0xdf {
            if i + 1 >= n {
                failure = Some(Utf8ErrorInfo { valid_up_to: i, error_len: None });
            } else if 0x80 <= s[i + 1] && s[i + 1] <= 0xbf {
                i = i + 2;
            } else {
                failure = Some(Utf8ErrorInfo { valid_up_to: i, error_len: Some(1) });
            }
        } else if 0xe0 <= b && b <= 0xef {
            if i + 1 >= n {
                failure = Some(Utf8ErrorInfo { valid_up_to: i, error_len: None });
            } else {
                let b2 = s[i + 1];
                if !(0x80 <= b2 && b2 <= 0xbf && (b != 0xe0 || b2 >= 0xa0) && (b != 0xed || b2
                    <= 0x9f)) {
                    failure = Some(Utf8ErrorInfo { valid_up_to: i, error_len: Some(1) });
                } else if i + 2 >= n {
                    failure = Some(Utf8ErrorInfo { valid_up_to: i, error_len: None });
                } else if !(0x80 <= s[i + 2] && s[i + 2] <= 0xbf) {
                    failure = Some(Utf8ErrorInfo { valid_up_to: i, error_len: Some(2) });
                } else {
                    i = i + 3;
                }
            }
        } else if 0xf0 <= b && b <= 0xf4 {
            if i + 1 >= n {
                failure = Some(Utf8ErrorInfo { valid_up_to: i, error_len: None });
            } else {
                let b2 = s[i + 1];
                if !(0x80 <= b2 && b2 <= 0xbf && (b != 0xf0 || b2 >= 0x90) && (b != 0xf4 || b2
                    <= 0x8f)) {
                    failure = Some(Utf8ErrorInfo { valid_up_to: i, error_len: Some(1) });
                } else if i + 2 >= n {
                    failure = Some(Utf8ErrorInfo { valid_up_to: i, error_len: None });
                } else if !(0x80 <= s[i + 2] && s[i + 2] <= 0xbf) {
                    failure = Some(Utf8ErrorInfo { valid_up_to: i, error_len: Some(2) });
                } else if i + 3 >= n {
                    failure = Some(Utf8ErrorInfo { valid_up_to: i, error_len: None });
                } else if !(0x80 <= s[i + 3] && s[i + 3] <= 0xbf) {
                    failure = Some(Utf8ErrorInfo { valid_up_to: i, error_len: Some(3) });
                } else {
                    i = i + 4;
                }
            }
        } else {
            failure = Some(Utf8ErrorInfo { valid_up_to: i, error_len: Some(1) });
        }
        if let Some(info) = failure {
            proof {
                assert(utf8_scan(gs, i as int) matches Some(f) && f.at == i as int);
                lemma_utf8_scan_correct(gs, 0);
                assert(gs.subrange(0, gs.len() as int) =~= gs);
            }
            return Err(info);
        }
    }
    proof {
        lemma_utf8_scan_correct(gs, 0);
        assert(gs.subrange(0, gs.len() as int) =~= gs);
    }
    Ok(())
}

/// Builds a `String` from bytes that are all ASCII.
///
/// Relies on `String::from_utf8`: bytes below 0x80 are each a complete
/// UTF-8 sequence and decode to the characters with the same code points.
#[verifier::external_body]
pub(crate) fn ascii_to_string(b: &[u8]) -> (r: String)
    requires
        forall|i: int| 0 <= i < b@.len() ==> b@[i] < 128,
    ensures
        r@.len() == b@.len(),
        forall|i: int| 0 <= i < b@.len() ==> r@[i] == b@[i] as char,
{
    String::from_utf8(b.to_vec()).unwrap_or_default()
}

/// Borrows bytes that are all ASCII as `&str`.
///
/// Relies on `str::from_utf8`: bytes below 0x80 are each a complete UTF-8
/// sequence and decode to the characters with the same code points.
#[verifier::external_body]
pub(crate) fn ascii_str<'a>(b: &'a [u8]) -> (r: &'a str)
    requires
        forall|i: int| 0 <= i < b@.len() ==> b@[i] < 128,
    ensures
        r@.len() == b@.len(),
        forall|i: int| 0 <= i < b@.len() ==> r@[i] == b@[i] as char,
{
    core::str::from_utf8(b).unwrap_or("")
}

} // verus!
