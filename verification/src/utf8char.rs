//! The bounded UTF-8 continuation decoder.
//!
//! Given a leading byte, an ASCII byte decodes to its character directly.
//! Any other byte starts an accumulation: continuation bytes are taken
//! one at a time until the collected bytes form a valid encoding of one
//! character, or four bytes were collected without success, or the input
//! ends — the failure cases hand back exactly the bytes collected.  The
//! model of validity and decoding is `vstd::utf8`.

use vstd::prelude::*;
use vstd::utf8::{
    codepoint_width_2, codepoint_width_3, codepoint_width_4, decode_first_codepoint,
    decode_first_scalar, is_scalar, length_of_first_scalar, pop_first_scalar, valid_first_scalar,
    valid_leading_and_continuation_bytes_first_codepoint, valid_utf8,
};

verus! {

/// Result of decoding one (possibly multi-byte) character.
#[derive(Debug, Clone, PartialEq, Eq)]
pub enum Utf8Parsed {
    /// The bytes so far could still grow into a valid character, but the
    /// buffer is exhausted and the source has not ended.
    Incomplete,
    /// A character, and the index just past its last byte.
    Char(char, usize),
    /// No valid character: the bytes collected, and the index just past
    /// the last byte examined.
    Invalid(Vec<u8>, usize),
}

/// The mathematical model of a [`Utf8Parsed`] value.
pub enum SpecUtf8 {
    Incomplete,
    Char(char, int),
    Invalid(Seq<u8>, int),
}

impl View for Utf8Parsed {
    type V = SpecUtf8;

    open spec fn view(&self) -> SpecUtf8 {
        match self {
            Utf8Parsed::Incomplete => SpecUtf8::Incomplete,
            Utf8Parsed::Char(c, n) => SpecUtf8::Char(*c, *n as int),
            Utf8Parsed::Invalid(v, n) => SpecUtf8::Invalid(v@, *n as int),
        }
    }
}

/// One accumulation step: the bytes `s[start..i]` have been collected and
/// do not yet form a valid character; the byte at `i` is examined next.
pub open spec fn spec_utf8_collect(s: Seq<u8>, start: int, i: int, eof: bool) -> SpecUtf8
    recommends
        0 <= start < i <= s.len(),
    decreases 4 - (i - start),
{
    if i >= s.len() {
        if eof {
            SpecUtf8::Invalid(s.subrange(start, i), i)
        } else {
            SpecUtf8::Incomplete
        }
    } else {
        let j = i + 1;
        let sub = s.subrange(start, j);
        if valid_utf8(sub) {
            SpecUtf8::Char(decode_first_scalar(sub) as char, j)
        } else if j - start >= 4 {
            SpecUtf8::Invalid(sub, j)
        } else {
            spec_utf8_collect(s, start, j, eof)
        }
    }
}

/// Decoding one character whose leading byte stands at `start`.
pub open spec fn spec_parse_utf8(s: Seq<u8>, start: int, eof: bool) -> SpecUtf8
    recommends
        0 <= start < s.len(),
{
    if s[start] < 0x80 {
        SpecUtf8::Char(s[start] as char, start + 1)
    } else {
        spec_utf8_collect(s, start, start + 1, eof)
    }
}

/// Relies on char::from_u32: returns the character for a Unicode scalar
/// value, and `None` exactly for surrogates and values above 0x10FFFF.
pub assume_specification[ char::from_u32 ](v: u32) -> (r: Option<char>)
    ensures
        is_scalar(v) ==> r == Some(v as char),
        !is_scalar(v) ==> r is None,
;

/// Copy `bytes[from..to]` into a fresh vector.
pub fn bytes_between(bytes: &[u8], from: usize, to: usize) -> (v: Vec<u8>)
    requires
        from <= to <= bytes@.len(),
    ensures
        v@ == bytes@.subrange(from as int, to as int),
{
    let mut v: Vec<u8> = Vec::new();
    proof {
        assert(v@ =~= bytes@.subrange(from as int, from as int));
    }
    let mut k = from;
    while k < to
        invariant
            from <= k <= to <= bytes@.len(),
            v@ == bytes@.subrange(from as int, k as int),
        decreases to - k,
    {
        v.push(bytes[k]);
        proof {
            assert(v@ =~= bytes@.subrange(from as int, (k + 1) as int));
        }
        k = k + 1;
    }
    v
}

/// Decide whether `bytes[start..end]` is by itself the valid encoding of
/// one character, given that no shorter prefix of it was.
fn utf8_exact(bytes: &[u8], start: usize, end: usize) -> (r: Option<char>)
    requires
        start < end <= bytes@.len(),
        2 <= end - start <= 4,
        bytes@[start as int] >= 0x80,
        forall|j: int|
            start + 2 <= j < end ==> !valid_utf8(#[trigger] bytes@.subrange(start as int, j)),
    ensures
        ({
            let sub = bytes@.subrange(start as int, end as int);
            &&& (r matches Some(c) ==> valid_utf8(sub) && c == (decode_first_scalar(sub) as char))
            &&& (r is None ==> !valid_utf8(sub))
        }),
{
    let ghost sub = bytes@.subrange(start as int, end as int);
    let n = end - start;
    let lead = bytes[start];
    proof {
        assert(sub.len() == n);
        assert(sub[0] == lead);
    }
    let w: usize = if 0xc0 <= lead && lead <= 0xdf {
        2
    } else if 0xe0 <= lead && lead <= 0xef {
        3
    } else if 0xf0 <= lead && lead <= 0xf7 {
        4
    } else {
        0
    };
    if w == 0 {
        // the leading byte fits no multi-byte pattern, and it is not ASCII
        proof {
            assert(!valid_leading_and_continuation_bytes_first_codepoint(sub));
            assert(!valid_utf8(sub));
        }
        return None;
    }
    if n < w {
        // too few bytes for the width the leading byte announces
        proof {
            assert(!valid_leading_and_continuation_bytes_first_codepoint(sub));
            assert(!valid_utf8(sub));
        }
        return None;
    }
    if n > w {
        // a valid first character would have ended at `start + w`, but
        // that prefix was already found invalid
        proof {
            let pre = bytes@.subrange(start as int, start + w);
            assert(!valid_utf8(pre));
            if valid_first_scalar(sub) {
                assert(length_of_first_scalar(sub) == w);
                assert(pre =~= sub.subrange(0, w as int));
                assert(decode_first_codepoint(pre) == decode_first_codepoint(sub));
                assert(valid_first_scalar(pre));
                assert(pre.subrange(w as int, w as int) =~= Seq::<u8>::empty());
                assert(valid_utf8(pre.subrange(w as int, w as int)));
                assert(valid_utf8(pre));
            }
            assert(!valid_first_scalar(sub));
            assert(!valid_utf8(sub));
        }
        return None;
    }
    if w == 2 {
        let b1 = bytes[start + 1];
        if !(0x80 <= b1 && b1 <= 0xbf) {
            proof {
                assert(!valid_leading_and_continuation_bytes_first_codepoint(sub));
                assert(!valid_utf8(sub));
            }
            return None;
        }
        let cp: u32 = (((lead & 0x1f) as u32) << 6) | ((b1 & 0x3f) as u32);
        proof {
            assert(cp == codepoint_width_2(lead, b1));
            assert(decode_first_codepoint(sub) == cp);
        }
        if cp < 0x80 {
            // overlong two-byte encoding
            proof {
                assert(!valid_first_scalar(sub));
                assert(!valid_utf8(sub));
            }
            return None;
        }
        proof {
            assert(cp <= 0x7ff) by (bit_vector)
                requires
                    cp == (((lead & 0x1f) as u32) << 6) | ((b1 & 0x3f) as u32),
            ;
            assert(valid_first_scalar(sub));
            assert(length_of_first_scalar(sub) == 2);
            assert(pop_first_scalar(sub) =~= Seq::<u8>::empty());
            assert(valid_utf8(Seq::<u8>::empty()));
            assert(valid_utf8(sub));
            assert(is_scalar(cp));
        }
        return char::from_u32(cp);
    }
    if w == 3 {
        let b1 = bytes[start + 1];
        let b2 = bytes[start + 2];
        if !(0x80 <= b1 && b1 <= 0xbf) || !(0x80 <= b2 && b2 <= 0xbf) {
            proof {
                assert(!valid_leading_and_continuation_bytes_first_codepoint(sub));
                assert(!valid_utf8(sub));
            }
            return None;
        }
        let cp: u32 = (((lead & 0x0f) as u32) << 12) | (((b1 & 0x3f) as u32) << 6) | ((b2
            & 0x3f) as u32);
        proof {
            assert(cp == codepoint_width_3(lead, b1, b2));
            assert(decode_first_codepoint(sub) == cp);
        }
        if cp < 0x800 || (0xd800 <= cp && cp <= 0xdfff) {
            // overlong encoding, or a surrogate codepoint
            proof {
                assert(!valid_first_scalar(sub));
                assert(!valid_utf8(sub));
            }
            return None;
        }
        proof {
            assert(cp <= 0xffff) by (bit_vector)
                requires
                    cp == (((lead & 0x0f) as u32) << 12) | (((b1 & 0x3f) as u32) << 6) | ((b2
                        & 0x3f) as u32),
            ;
            assert(valid_first_scalar(sub));
            assert(length_of_first_scalar(sub) == 3);
            assert(pop_first_scalar(sub) =~= Seq::<u8>::empty());
            assert(valid_utf8(Seq::<u8>::empty()));
            assert(valid_utf8(sub));
            assert(is_scalar(cp));
        }
        return char::from_u32(cp);
    }
    let b1 = bytes[start + 1];
    let b2 = bytes[start + 2];
    let b3 = bytes[start + 3];
    if !(0x80 <= b1 && b1 <= 0xbf) || !(0x80 <= b2 && b2 <= 0xbf) || !(0x80 <= b3 && b3 <= 0xbf) {
        proof {
            assert(!valid_leading_and_continuation_bytes_first_codepoint(sub));
            assert(!valid_utf8(sub));
        }
        return None;
    }
    let cp: u32 = (((lead & 0x07) as u32) << 18) | (((b1 & 0x3f) as u32) << 12) | (((b2
        & 0x3f) as u32) << 6) | ((b3 & 0x3f) as u32);
    proof {
        assert(cp == codepoint_width_4(lead, b1, b2, b3));
        assert(decode_first_codepoint(sub) == cp);
    }
    if cp < 0x10000 || cp > 0x10ffff {
        // overlong encoding, or beyond the last Unicode scalar
        proof {
            assert(!valid_first_scalar(sub));
            assert(!valid_utf8(sub));
        }
        return None;
    }
    proof {
        assert(valid_first_scalar(sub));
        assert(length_of_first_scalar(sub) == 4);
        assert(pop_first_scalar(sub) =~= Seq::<u8>::empty());
        assert(valid_utf8(Seq::<u8>::empty()));
        assert(valid_utf8(sub));
        assert(is_scalar(cp));
    }
    char::from_u32(cp)
}

/// Decode one character starting at `start`: an ASCII byte directly,
/// anything else by accumulating continuation bytes, at most four in all.
pub fn parse_utf8_char(bytes: &[u8], start: usize, eof: bool) -> (r: Utf8Parsed)
    requires
        start < bytes@.len(),
    ensures
        r@ == spec_parse_utf8(bytes@, start as int, eof),
{
    let lead = bytes[start];
    if lead < 0x80 {
        return Utf8Parsed::Char(lead as char, start + 1);
    }
    let mut i: usize = start + 1;
    loop
        invariant
            start < i <= bytes@.len(),
            i - start <= 3,
            start < bytes@.len(),
            bytes@[start as int] >= 0x80,
            spec_utf8_collect(bytes@, start as int, i as int, eof) == spec_parse_utf8(
                bytes@,
                start as int,
                eof,
            ),
            forall|j: int|
                start + 2 <= j <= i ==> !valid_utf8(#[trigger] bytes@.subrange(start as int, j)),
        decreases 4 - (i - start),
    {
        if i >= bytes.len() {
            if eof {
                return Utf8Parsed::Invalid(bytes_between(bytes, start, i), i);
            } else {
                return Utf8Parsed::Incomplete;
            }
        }
        let j = i + 1;
        match utf8_exact(bytes, start, j) {
            Some(c) => {
                return Utf8Parsed::Char(c, j);
            },
            None => {
                if j - start >= 4 {
                    return Utf8Parsed::Invalid(bytes_between(bytes, start, j), j);
                }
                i = j;
            },
        }
    }
}

} // verus!
