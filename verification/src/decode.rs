//! The byte-stream-to-key decoder.
//!
//! [`parse_key`] classifies the leading byte of the buffer and consumes
//! as many further bytes as the key it announces needs: escape sequences
//! through the CSI and SS3 sub-parsers, anything else through the UTF-8
//! decoder.  The functions work on the bytes available so far plus an
//! end-of-input flag; when the buffer runs out mid-sequence and the
//! source has not ended, they report [`Decoded::Incomplete`] and are
//! called again once one more byte is available.
//!
//! Every fallback path hands back the exact bytes consumed so far as an
//! `Other` payload, so no input is ever lost.

use vstd::prelude::*;

use crate::key::{Key, KeyModel};
use crate::utf8char::{bytes_between, parse_utf8_char, spec_parse_utf8, SpecUtf8, Utf8Parsed};

verus! {

/// Result of one decode attempt over the bytes available so far.
#[derive(Debug, Clone, PartialEq, Eq)]
pub enum Decoded {
    /// The bytes seen so far do not yet resolve to a key; more input is
    /// needed.  Only possible while the source has not reached its end.
    Incomplete,
    /// A key, together with the number of bytes consumed from the front
    /// of the buffer to produce it.
    Key(Key, usize),
}

/// The mathematical model of a [`Decoded`] value.
pub enum SpecDecoded {
    Incomplete,
    Key(KeyModel, int),
}

impl View for Decoded {
    type V = SpecDecoded;

    open spec fn view(&self) -> SpecDecoded {
        match self {
            Decoded::Incomplete => SpecDecoded::Incomplete,
            Decoded::Key(k, n) => SpecDecoded::Key(k@, *n as int),
        }
    }
}

/// True when every byte is an ASCII decimal digit.
pub open spec fn all_digits(s: Seq<u8>) -> bool {
    forall|t: int| 0 <= t < s.len() ==> 0x30 <= #[trigger] s[t] <= 0x39
}

/// The number the ASCII digits spell out.
pub open spec fn digits_val(s: Seq<u8>) -> int
    recommends
        all_digits(s),
    decreases s.len(),
{
    if s.len() == 0 {
        0
    } else {
        digits_val(s.drop_last()) * 10 + (s.last() - 0x30)
    }
}

/// The key a `~`-terminated CSI sequence with the single numeric
/// parameter `v` selects; an unrecognized parameter folds the bytes
/// consumed, `s[0..n]`, into an `Other` payload.
pub open spec fn spec_tilde_key(v: int, s: Seq<u8>, n: int) -> SpecDecoded {
    if v == 1 || v == 7 {
        SpecDecoded::Key(KeyModel::Home, n)
    } else if v == 2 {
        SpecDecoded::Key(KeyModel::Insert, n)
    } else if v == 3 {
        SpecDecoded::Key(KeyModel::Delete, n)
    } else if v == 4 || v == 8 {
        SpecDecoded::Key(KeyModel::End, n)
    } else if v == 5 {
        SpecDecoded::Key(KeyModel::PageUp, n)
    } else if v == 6 {
        SpecDecoded::Key(KeyModel::PageDown, n)
    } else if 11 <= v && v <= 15 {
        SpecDecoded::Key(KeyModel::F((v - 10) as u8), n)
    } else if 17 <= v && v <= 21 {
        SpecDecoded::Key(KeyModel::F((v - 11) as u8), n)
    } else if 23 <= v && v <= 24 {
        SpecDecoded::Key(KeyModel::F((v - 12) as u8), n)
    } else {
        SpecDecoded::Key(KeyModel::Other(s.subrange(0, n)), n)
    }
}

/// A digit-led CSI sequence: bytes `s[2..i]` have been accumulated and
/// none was a final byte (64–126); the byte at `i` is examined next.  A
/// `~` final byte with the accumulated bytes spelling one number selects
/// a key; any other outcome folds the bytes consumed into `Other`.
pub open spec fn spec_csi_num(s: Seq<u8>, i: int, eof: bool) -> SpecDecoded
    recommends
        3 <= i <= s.len(),
    decreases s.len() - i,
{
    if i >= s.len() {
        if eof {
            SpecDecoded::Key(KeyModel::Other(s.subrange(0, i)), i)
        } else {
            SpecDecoded::Incomplete
        }
    } else if 64 <= s[i] && s[i] <= 126 {
        if s[i] == 0x7e {
            if all_digits(s.subrange(2, i)) {
                spec_tilde_key(digits_val(s.subrange(2, i)), s, i + 1)
            } else {
                SpecDecoded::Key(KeyModel::Other(s.subrange(0, i + 1)), i + 1)
            }
        } else {
            SpecDecoded::Key(KeyModel::Other(s.subrange(0, i + 1)), i + 1)
        }
    } else {
        spec_csi_num(s, i + 1, eof)
    }
}

/// A CSI sequence, after `Esc [` (bytes `s[0]`, `s[1]`).
pub open spec fn spec_parse_csi(s: Seq<u8>, eof: bool) -> SpecDecoded
    recommends
        s.len() >= 2,
        s[0] == 0x1b,
        s[1] == 0x5b,
{
    if s.len() < 3 {
        if eof {
            SpecDecoded::Key(KeyModel::Other(s.subrange(0, 2)), 2)
        } else {
            SpecDecoded::Incomplete
        }
    } else {
        let b = s[2];
        if b == 0x5b {
            if s.len() < 4 {
                if eof {
                    SpecDecoded::Key(KeyModel::Other(s.subrange(0, 3)), 3)
                } else {
                    SpecDecoded::Incomplete
                }
            } else if 0x41 <= s[3] && s[3] <= 0x45 {
                SpecDecoded::Key(KeyModel::F((s[3] - 0x40) as u8), 4)
            } else {
                SpecDecoded::Key(KeyModel::Other(s.subrange(0, 4)), 4)
            }
        } else if b == 0x41 {
            SpecDecoded::Key(KeyModel::Up, 3)
        } else if b == 0x42 {
            SpecDecoded::Key(KeyModel::Down, 3)
        } else if b == 0x43 {
            SpecDecoded::Key(KeyModel::Right, 3)
        } else if b == 0x44 {
            SpecDecoded::Key(KeyModel::Left, 3)
        } else if b == 0x46 {
            SpecDecoded::Key(KeyModel::End, 3)
        } else if b == 0x48 {
            SpecDecoded::Key(KeyModel::Home, 3)
        } else if b == 0x5a {
            SpecDecoded::Key(KeyModel::BackTab, 3)
        } else if 0x30 <= b && b <= 0x39 {
            spec_csi_num(s, 3, eof)
        } else {
            SpecDecoded::Key(KeyModel::Other(s.subrange(0, 3)), 3)
        }
    }
}

/// One key decoded from the front of `s`.
pub open spec fn spec_parse_key(s: Seq<u8>, eof: bool) -> SpecDecoded
    recommends
        s.len() >= 1,
{
    let b = s[0];
    if b == 0x1b {
        if s.len() < 2 {
            if eof {
                SpecDecoded::Key(KeyModel::Esc, 1)
            } else {
                SpecDecoded::Incomplete
            }
        } else if s[1] == 0x5b {
            spec_parse_csi(s, eof)
        } else if s[1] == 0x4f {
            if s.len() < 3 {
                if eof {
                    SpecDecoded::Key(KeyModel::Other(s.subrange(0, 2)), 2)
                } else {
                    SpecDecoded::Incomplete
                }
            } else if 0x50 <= s[2] && s[2] <= 0x53 {
                SpecDecoded::Key(KeyModel::F((s[2] - 0x4f) as u8), 3)
            } else {
                SpecDecoded::Key(KeyModel::Other(s.subrange(0, 3)), 3)
            }
        } else {
            match spec_parse_utf8(s, 1, eof) {
                SpecUtf8::Incomplete => SpecDecoded::Incomplete,
                SpecUtf8::Char(c, end) => SpecDecoded::Key(KeyModel::Alt(c), end),
                SpecUtf8::Invalid(p, end) => SpecDecoded::Key(KeyModel::Other(p), end),
            }
        }
    } else if b == 0x0a || b == 0x0d {
        SpecDecoded::Key(KeyModel::Char('\r'), 1)
    } else if b == 0x09 {
        SpecDecoded::Key(KeyModel::Char('\t'), 1)
    } else if b == 0x08 {
        SpecDecoded::Key(KeyModel::Backspace, 1)
    } else if b == 0x7f {
        SpecDecoded::Key(KeyModel::Delete, 1)
    } else if 0x01 <= b && b <= 0x1a {
        SpecDecoded::Key(KeyModel::Ctrl((((b - 1) + 0x61) as u8) as char), 1)
    } else if 0x1c <= b && b <= 0x1f {
        SpecDecoded::Key(KeyModel::Ctrl((((b - 0x1c) + 0x34) as u8) as char), 1)
    } else if b == 0x00 {
        SpecDecoded::Key(KeyModel::EOF, 1)
    } else {
        match spec_parse_utf8(s, 0, eof) {
            SpecUtf8::Incomplete => SpecDecoded::Incomplete,
            SpecUtf8::Char(c, end) => SpecDecoded::Key(KeyModel::Char(c), end),
            SpecUtf8::Invalid(p, end) => SpecDecoded::Key(KeyModel::Other(p), end),
        }
    }
}

/// Resolve a `~`-terminated digit-led CSI sequence whose final byte
/// stands at `i`: decide whether the accumulated bytes spell one number,
/// and map that number to its key.
fn parse_csi_tilde(bytes: &[u8], i: usize, eof: bool) -> (r: Decoded)
    requires
        3 <= i < bytes@.len(),
        bytes@[i as int] == 0x7e,
    ensures
        r@ == spec_csi_num(bytes@, i as int, eof),
{
    let ghost param = bytes@.subrange(2, i as int);
    let blen = bytes.len();
    proof {
        assert(i < blen);
    }
    let mut all_dig = true;
    let mut val: u32 = 0;
    let mut k: usize = 2;
    proof {
        assert(bytes@.subrange(2, 2) =~= Seq::<u8>::empty());
    }
    while k < i
        invariant
            2 <= k <= i < bytes@.len(),
            all_dig == all_digits(bytes@.subrange(2, k as int)),
            all_dig ==> {
                let dv = digits_val(bytes@.subrange(2, k as int));
                (dv <= 0xffff && val == dv) || (dv > 0xffff && val > 0xffff)
            },
        decreases i - k,
    {
        let ghost pre = bytes@.subrange(2, k as int);
        let ghost post = bytes@.subrange(2, k + 1 as int);
        proof {
            assert(post.drop_last() =~= pre);
            assert(post.last() == bytes@[k as int]);
        }
        let c = bytes[k];
        if 0x30 <= c && c <= 0x39 {
            if all_dig {
                if val <= 0xffff {
                    val = val * 10 + ((c - 0x30) as u32);
                } else {
                    // the number is already too large to name a key
                }
            }
            proof {
                if all_dig {
                    assert(all_digits(post)) by {
                        assert(forall|t: int|
                            0 <= t < pre.len() ==> 0x30 <= #[trigger] pre[t] <= 0x39);
                        assert forall|t: int| 0 <= t < post.len() implies 0x30 <= #[trigger] post[t]
                            <= 0x39 by {
                            if t < post.len() - 1 {
                                assert(post[t] == pre[t]);
                            } else {
                                assert(post[t] == post.last());
                            }
                        }
                    }
                    assert(digits_val(post) == digits_val(pre) * 10 + (bytes@[k as int] - 0x30));
                }
            }
        } else {
            all_dig = false;
            proof {
                assert(post[post.len() - 1] == bytes@[k as int]);
                assert(!all_digits(post));
            }
        }
        proof {
            if !all_digits(pre) {
                let t = choose|t: int| 0 <= t < pre.len() && !(0x30 <= #[trigger] pre[t] <= 0x39);
                assert(post[t] == pre[t]);
                assert(!all_digits(post));
            }
        }
        k = k + 1;
    }
    if !all_dig {
        return Decoded::Key(Key::Other(bytes_between(bytes, 0, i + 1)), i + 1);
    }
    proof {
        let dv = digits_val(param);
        assert(val <= 24 ==> val == dv);
        assert(val > 24 ==> dv > 24);
    }
    if val == 1 || val == 7 {
        Decoded::Key(Key::Home, i + 1)
    } else if val == 2 {
        Decoded::Key(Key::Insert, i + 1)
    } else if val == 3 {
        Decoded::Key(Key::Delete, i + 1)
    } else if val == 4 || val == 8 {
        Decoded::Key(Key::End, i + 1)
    } else if val == 5 {
        Decoded::Key(Key::PageUp, i + 1)
    } else if val == 6 {
        Decoded::Key(Key::PageDown, i + 1)
    } else if 11 <= val && val <= 15 {
        Decoded::Key(Key::F((val - 10) as u8), i + 1)
    } else if 17 <= val && val <= 21 {
        Decoded::Key(Key::F((val - 11) as u8), i + 1)
    } else if 23 <= val && val <= 24 {
        Decoded::Key(Key::F((val - 12) as u8), i + 1)
    } else {
        Decoded::Key(Key::Other(bytes_between(bytes, 0, i + 1)), i + 1)
    }
}

/// Scan a digit-led CSI sequence for its final byte (64–126), then
/// resolve it.
fn parse_csi_num(bytes: &[u8], eof: bool) -> (r: Decoded)
    requires
        bytes@.len() >= 3,
        0x30 <= bytes@[2] <= 0x39,
    ensures
        r@ == spec_csi_num(bytes@, 3, eof),
{
    let mut i: usize = 3;
    loop
        invariant
            3 <= i <= bytes@.len(),
            spec_csi_num(bytes@, 3, eof) == spec_csi_num(bytes@, i as int, eof),
        decreases bytes@.len() - i,
    {
        if i >= bytes.len() {
            if eof {
                return Decoded::Key(Key::Other(bytes_between(bytes, 0, i)), i);
            } else {
                return Decoded::Incomplete;
            }
        }
        let c = bytes[i];
        if 64 <= c && c <= 126 {
            if c == 0x7e {
                return parse_csi_tilde(bytes, i, eof);
            } else {
                return Decoded::Key(Key::Other(bytes_between(bytes, 0, i + 1)), i + 1);
            }
        }
        i = i + 1;
    }
}

/// Parse a CSI sequence, just after `Esc [`.
pub fn parse_csi(bytes: &[u8], eof: bool) -> (r: Decoded)
    requires
        bytes@.len() >= 2,
        bytes@[0] == 0x1b,
        bytes@[1] == 0x5b,
    ensures
        r@ == spec_parse_csi(bytes@, eof),
{
    if bytes.len() < 3 {
        if eof {
            return Decoded::Key(Key::Other(bytes_between(bytes, 0, 2)), 2);
        } else {
            return Decoded::Incomplete;
        }
    }
    let b = bytes[2];
    if b == 0x5b {
        if bytes.len() < 4 {
            if eof {
                return Decoded::Key(Key::Other(bytes_between(bytes, 0, 3)), 3);
            } else {
                return Decoded::Incomplete;
            }
        }
        let v = bytes[3];
        if 0x41 <= v && v <= 0x45 {
            Decoded::Key(Key::F(v - 0x40), 4)
        } else {
            Decoded::Key(Key::Other(bytes_between(bytes, 0, 4)), 4)
        }
    } else if b == 0x41 {
        Decoded::Key(Key::Up, 3)
    } else if b == 0x42 {
        Decoded::Key(Key::Down, 3)
    } else if b == 0x43 {
        Decoded::Key(Key::Right, 3)
    } else if b == 0x44 {
        Decoded::Key(Key::Left, 3)
    } else if b == 0x46 {
        Decoded::Key(Key::End, 3)
    } else if b == 0x48 {
        Decoded::Key(Key::Home, 3)
    } else if b == 0x5a {
        Decoded::Key(Key::BackTab, 3)
    } else if 0x30 <= b && b <= 0x39 {
        parse_csi_num(bytes, eof)
    } else {
        Decoded::Key(Key::Other(bytes_between(bytes, 0, 3)), 3)
    }
}

/// Parse one key from the front of the buffer.
///
/// `bytes` holds the input seen so far, beginning with the key's leading
/// byte; `eof` says the source has ended, so nothing beyond the buffer
/// will ever arrive.  With `eof` set the decoder always yields a key; it
/// reports [`Decoded::Incomplete`] only while more input could come.
pub fn parse_key(bytes: &[u8], eof: bool) -> (r: Decoded)
    requires
        bytes@.len() >= 1,
    ensures
        r@ == spec_parse_key(bytes@, eof),
{
    let b = bytes[0];
    if b == 0x1b {
        if bytes.len() < 2 {
            if eof {
                return Decoded::Key(Key::Esc, 1);
            } else {
                return Decoded::Incomplete;
            }
        }
        let b1 = bytes[1];
        if b1 == 0x5b {
            return parse_csi(bytes, eof);
        }
        if b1 == 0x4f {
            if bytes.len() < 3 {
                if eof {
                    return Decoded::Key(Key::Other(bytes_between(bytes, 0, 2)), 2);
                } else {
                    return Decoded::Incomplete;
                }
            }
            let b2 = bytes[2];
            if 0x50 <= b2 && b2 <= 0x53 {
                return Decoded::Key(Key::F(b2 - 0x4f), 3);
            }
            return Decoded::Key(Key::Other(bytes_between(bytes, 0, 3)), 3);
        }
        return match parse_utf8_char(bytes, 1, eof) {
            Utf8Parsed::Incomplete => Decoded::Incomplete,
            Utf8Parsed::Char(c, end) => Decoded::Key(Key::Alt(c), end),
            Utf8Parsed::Invalid(p, end) => Decoded::Key(Key::Other(p), end),
        };
    }
    if b == 0x0a || b == 0x0d {
        return Decoded::Key(Key::Char('\r'), 1);
    }
    if b == 0x09 {
        return Decoded::Key(Key::Char('\t'), 1);
    }
    if b == 0x08 {
        return Decoded::Key(Key::Backspace, 1);
    }
    if b == 0x7f {
        return Decoded::Key(Key::Delete, 1);
    }
    if 0x01 <= b && b <= 0x1a {
        return Decoded::Key(Key::Ctrl(((b - 1) + 0x61) as char), 1);
    }
    if 0x1c <= b && b <= 0x1f {
        return Decoded::Key(Key::Ctrl(((b - 0x1c) + 0x34) as char), 1);
    }
    if b == 0x00 {
        return Decoded::Key(Key::EOF, 1);
    }
    match parse_utf8_char(bytes, 0, eof) {
        Utf8Parsed::Incomplete => Decoded::Incomplete,
        Utf8Parsed::Char(c, end) => Decoded::Key(Key::Char(c), end),
        Utf8Parsed::Invalid(p, end) => Decoded::Key(Key::Other(p), end),
    }
}

} // verus!
