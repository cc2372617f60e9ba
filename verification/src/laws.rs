//! Decoder-wide properties, stated over the mathematical model.
//!
//! The central one: the decoder is self-delimiting.  A produced key is a
//! function of exactly the bytes it consumed — re-decoding the consumed
//! prefix alone yields the same key — and fallback keys carry those bytes
//! verbatim, so concatenating the consumed bytes of successive keys
//! reconstructs the input stream.

use vstd::prelude::*;
use vstd::utf8::valid_utf8;

use crate::decode::{spec_csi_num, spec_parse_csi, spec_parse_key, SpecDecoded};
use crate::key::KeyModel;
use crate::session::spec_leftover;
use crate::utf8char::{spec_utf8_collect, SpecUtf8};

verus! {

/// The UTF-8 accumulator examines nothing past the bytes it reports
/// consumed: its outcome on `s` equals its outcome on the consumed
/// prefix alone, and an invalid outcome carries exactly the bytes
/// collected.
pub proof fn lemma_utf8_collect_self(s: Seq<u8>, start: int, i: int, eof: bool)
    requires
        0 <= start < i <= s.len(),
    ensures
        ({
            let r = spec_utf8_collect(s, start, i, eof);
            &&& (r matches SpecUtf8::Char(c, n) ==> i <= n <= s.len() && spec_utf8_collect(
                s.subrange(0, n),
                start,
                i,
                true,
            ) == r)
            &&& (r matches SpecUtf8::Invalid(p, n) ==> i <= n <= s.len() && p == s.subrange(
                start,
                n,
            ) && spec_utf8_collect(s.subrange(0, n), start, i, true) == r)
        }),
    decreases 4 - (i - start),
{
    let r = spec_utf8_collect(s, start, i, eof);
    if i >= s.len() {
        if eof {
            let sub = s.subrange(0, i);
            assert(sub.subrange(start, i) =~= s.subrange(start, i));
        }
    } else {
        let j = i + 1;
        let w = s.subrange(start, j);
        if valid_utf8(w) {
            let sub = s.subrange(0, j);
            assert(sub.subrange(start, j) =~= w);
        } else if j - start >= 4 {
            let sub = s.subrange(0, j);
            assert(sub.subrange(start, j) =~= w);
        } else {
            lemma_utf8_collect_self(s, start, j, eof);
            match r {
                SpecUtf8::Char(c, n) => {
                    let sub = s.subrange(0, n);
                    assert(sub.subrange(start, j) =~= w);
                },
                SpecUtf8::Invalid(p, n) => {
                    let sub = s.subrange(0, n);
                    assert(sub.subrange(start, j) =~= w);
                },
                SpecUtf8::Incomplete => {},
            }
        }
    }
}

/// The digit-led CSI accumulator examines nothing past the bytes it
/// reports consumed, and its fallback keys carry those bytes verbatim.
pub proof fn lemma_csi_num_self(s: Seq<u8>, i: int, eof: bool, k: KeyModel, n: int)
    requires
        3 <= i <= s.len(),
        spec_csi_num(s, i, eof) == SpecDecoded::Key(k, n),
    ensures
        i <= n <= s.len(),
        spec_csi_num(s.subrange(0, n), i, true) == SpecDecoded::Key(k, n),
        k matches KeyModel::Other(p) ==> p == s.subrange(0, n),
    decreases s.len() - i,
{
    if i >= s.len() {
        let sub = s.subrange(0, i);
        assert(sub.subrange(0, i) =~= sub);
    } else if 64 <= s[i] && s[i] <= 126 {
        let sub = s.subrange(0, i + 1);
        assert(sub.subrange(0, i + 1) =~= sub);
        assert(sub.subrange(2, i) =~= s.subrange(2, i));
    } else {
        lemma_csi_num_self(s, i + 1, eof, k, n);
        let sub = s.subrange(0, n);
        assert(sub[i] == s[i]);
    }
}

/// The CSI sub-parser examines nothing past the bytes it reports
/// consumed, and its fallback keys carry those bytes verbatim.
pub proof fn lemma_parse_csi_self(s: Seq<u8>, eof: bool, k: KeyModel, n: int)
    requires
        s.len() >= 2,
        s[0] == 0x1b,
        s[1] == 0x5b,
        spec_parse_csi(s, eof) == SpecDecoded::Key(k, n),
    ensures
        2 <= n <= s.len(),
        spec_parse_csi(s.subrange(0, n), true) == SpecDecoded::Key(k, n),
        k matches KeyModel::Other(p) ==> p == s.subrange(0, n),
{
    if s.len() < 3 {
        let sub = s.subrange(0, 2);
        assert(sub.subrange(0, 2) =~= sub);
    } else {
        let b = s[2];
        if b == 0x5b {
            if s.len() < 4 {
                let sub = s.subrange(0, 3);
                assert(sub.subrange(0, 3) =~= sub);
            } else {
                let sub = s.subrange(0, 4);
                assert(sub.subrange(0, 4) =~= sub);
            }
        } else if b == 0x41 || b == 0x42 || b == 0x43 || b == 0x44 || b == 0x46 || b == 0x48 || b
            == 0x5a {
            let sub = s.subrange(0, 3);
            assert(sub[2] == s[2]);
        } else if 0x30 <= b && b <= 0x39 {
            lemma_csi_num_self(s, 3, eof, k, n);
            let sub = s.subrange(0, n);
            assert(sub[2] == s[2]);
        } else {
            let sub = s.subrange(0, 3);
            assert(sub.subrange(0, 3) =~= sub);
        }
    }
}

/// No byte is gained or dropped: a produced key is a function of exactly
/// the bytes it consumed — decoding the consumed prefix alone, as a
/// complete input, yields the same key — and an `Other` key carries the
/// consumed bytes verbatim (without the leading escape byte when a
/// UTF-8 decode under `Esc` failed).
pub proof fn lemma_key_consumes_prefix(s: Seq<u8>, eof: bool, k: KeyModel, n: int)
    requires
        s.len() >= 1,
        spec_parse_key(s, eof) == SpecDecoded::Key(k, n),
    ensures
        1 <= n <= s.len(),
        spec_parse_key(s.subrange(0, n), true) == SpecDecoded::Key(k, n),
        k matches KeyModel::Other(p) ==> p == s.subrange(0, n) || (s[0] == 0x1b && p == s.subrange(
            1,
            n,
        )),
{
    let b = s[0];
    if b == 0x1b {
        if s.len() < 2 {
            let sub = s.subrange(0, 1);
            assert(sub =~= s);
        } else if s[1] == 0x5b {
            lemma_parse_csi_self(s, eof, k, n);
            let sub = s.subrange(0, n);
            assert(sub[0] == s[0] && sub[1] == s[1]);
        } else if s[1] == 0x4f {
            if s.len() < 3 {
                let sub = s.subrange(0, 2);
                assert(sub.subrange(0, 2) =~= sub);
            } else {
                let sub = s.subrange(0, 3);
                assert(sub.subrange(0, 3) =~= sub);
            }
        } else {
            if s[1] < 0x80 {
                let sub = s.subrange(0, 2);
                assert(sub[0] == s[0] && sub[1] == s[1]);
            } else {
                lemma_utf8_collect_self(s, 1, 2, eof);
                let r = spec_utf8_collect(s, 1, 2, eof);
                match r {
                    SpecUtf8::Char(c, m) => {
                        let sub = s.subrange(0, m);
                        assert(sub[0] == s[0] && sub[1] == s[1]);
                    },
                    SpecUtf8::Invalid(p, m) => {
                        let sub = s.subrange(0, m);
                        assert(sub[0] == s[0] && sub[1] == s[1]);
                    },
                    SpecUtf8::Incomplete => {},
                }
            }
        }
    } else if b == 0x0a || b == 0x0d || b == 0x09 || b == 0x08 || b == 0x7f || (0x01 <= b && b
        <= 0x1a) || (0x1c <= b && b <= 0x1f) || b == 0x00 {
        let sub = s.subrange(0, 1);
        assert(sub[0] == s[0]);
    } else {
        if b < 0x80 {
            let sub = s.subrange(0, 1);
            assert(sub[0] == s[0]);
        } else {
            lemma_utf8_collect_self(s, 0, 1, eof);
            let r = spec_utf8_collect(s, 0, 1, eof);
            match r {
                SpecUtf8::Char(c, m) => {
                    let sub = s.subrange(0, m);
                    assert(sub[0] == s[0]);
                },
                SpecUtf8::Invalid(p, m) => {
                    let sub = s.subrange(0, m);
                    assert(sub[0] == s[0]);
                },
                SpecUtf8::Incomplete => {},
            }
        }
    }
}

/// Once the input source has ended, the UTF-8 accumulator always
/// resolves — to a character or to the bytes collected, never to a wait
/// for more input.
pub proof fn lemma_utf8_collect_resolves(s: Seq<u8>, start: int, i: int)
    requires
        0 <= start < i <= s.len(),
    ensures
        !(spec_utf8_collect(s, start, i, true) is Incomplete),
    decreases 4 - (i - start),
{
    if i >= s.len() {
    } else {
        let j = i + 1;
        if valid_utf8(s.subrange(start, j)) {
        } else if j - start >= 4 {
        } else {
            lemma_utf8_collect_resolves(s, start, j);
        }
    }
}

/// Once the input source has ended, a digit-led CSI sequence always
/// resolves.
pub proof fn lemma_csi_num_resolves(s: Seq<u8>, i: int)
    requires
        3 <= i <= s.len(),
    ensures
        spec_csi_num(s, i, true) is Key,
    decreases s.len() - i,
{
    if i >= s.len() {
    } else if 64 <= s[i] && s[i] <= 126 {
    } else {
        lemma_csi_num_resolves(s, i + 1);
    }
}

/// Once the input source has ended, every non-empty byte sequence
/// resolves to a key — an incomplete escape or UTF-8 sequence falls back
/// to the bytes seen so far; the decoder never waits forever and never
/// fails.
pub proof fn lemma_end_of_input_resolves(s: Seq<u8>)
    requires
        s.len() >= 1,
    ensures
        spec_parse_key(s, true) is Key,
{
    let b = s[0];
    if b == 0x1b && s.len() >= 2 {
        if s[1] == 0x5b {
            if s.len() >= 3 && 0x30 <= s[2] && s[2] <= 0x39 {
                lemma_csi_num_resolves(s, 3);
            }
        } else if s[1] == 0x4f {
        } else if s[1] >= 0x80 {
            lemma_utf8_collect_resolves(s, 1, 2);
        }
    } else if b != 0x1b && !(b == 0x0a || b == 0x0d || b == 0x09 || b == 0x08 || b == 0x7f || (0x01
        <= b && b <= 0x1a) || (0x1c <= b && b <= 0x1f) || b == 0x00) && b >= 0x80 {
        lemma_utf8_collect_resolves(s, 0, 1);
    }
}

/// When a two-byte burst read yields a key from its first byte alone,
/// the second byte becomes the leftover — handed, in order, to the next
/// call as the first byte it decodes — and the key is exactly what the
/// first byte alone decodes to.
pub proof fn lemma_burst_second_byte_carries(b0: u8, b1: u8, eof: bool, k: KeyModel)
    requires
        spec_parse_key(seq![b0, b1], eof) == SpecDecoded::Key(k, 1),
    ensures
        spec_leftover(seq![b0, b1], 1) == Some(b1),
        spec_parse_key(seq![b0], true) == SpecDecoded::Key(k, 1),
{
    lemma_key_consumes_prefix(seq![b0, b1], eof, k, 1);
    assert(seq![b0, b1].subrange(0, 1) =~= seq![b0]);
}

} // verus!
