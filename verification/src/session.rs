//! The lookahead state of a raw-mode read session.
//!
//! A burst read may deliver one byte beyond the key boundary of the
//! current call; that byte belongs to the next call.  `Session` owns that
//! single leftover slot and the decisions around it; the blocking reads
//! and the terminal-mode plumbing stay outside the library.

use vstd::prelude::*;

use crate::key::Key;

verus! {

/// What one short read (a request for up to two bytes) delivered.
#[derive(Debug, Clone, PartialEq, Eq)]
pub enum ShortRead {
    /// The read returned no bytes.
    Empty,
    /// The read returned one byte.
    One(u8),
    /// The read returned two bytes.
    Two(u8, u8),
}

/// How a `read one key` call proceeds after its short read.
#[derive(Debug, Clone, PartialEq, Eq)]
pub enum Start {
    /// The key is already determined; no decoding is needed.
    Done(Key),
    /// Decode, starting from these bytes and pulling further bytes from
    /// the live source as the decoder asks for them.
    Parse(Vec<u8>),
}

/// The byte carried over once a decode consumed all but the last byte of
/// a buffer; `None` when the buffer was consumed whole.
pub open spec fn spec_leftover(buf: Seq<u8>, consumed: int) -> Option<u8> {
    if consumed < buf.len() {
        Some(buf[consumed])
    } else {
        None
    }
}

/// The per-session decode state: at most one byte read ahead of the
/// current key, owned by whichever call runs next.
pub struct Session {
    leftover: Option<u8>,
}

impl View for Session {
    type V = Option<u8>;

    closed spec fn view(&self) -> Option<u8> {
        self.leftover
    }
}

impl Session {
    /// A fresh session carries no byte.
    pub fn new() -> (s: Session)
        ensures
            s@ is None,
    {
        Session { leftover: None }
    }

    /// Whether a byte from the previous call is waiting.  When it is, the
    /// next key must be decoded from it, without a fresh short read.
    pub fn pending(&self) -> (r: bool)
        ensures
            r == self@ is Some,
    {
        self.leftover.is_some()
    }

    /// Drain the carried byte into the initial decode buffer: it is the
    /// first byte of the next key.
    pub fn begin_pending(&mut self) -> (buf: Vec<u8>)
        requires
            old(self)@ is Some,
        ensures
            final(self)@ is None,
            buf@ == seq![old(self)@->0],
    {
        let b = self.leftover.unwrap();
        self.leftover = None;
        let mut buf: Vec<u8> = Vec::new();
        buf.push(b);
        buf
    }

    /// Classify a fresh short read, made because no byte was pending.
    ///
    /// A zero-byte read emits the end-of-input marker — a distinct
    /// stream-closed signal, not a control keystroke.  A lone escape
    /// byte maps to `Esc`: no continuation bytes are available yet, so
    /// the escape is not treated as the start of a sequence.  Anything
    /// else begins a decode from the bytes delivered.
    pub fn begin_read(&mut self, r: &ShortRead) -> (out: Start)
        requires
            old(self)@ is None,
        ensures
            final(self)@ is None,
            r is Empty ==> out == Start::Done(Key::EOF),
            r matches ShortRead::One(b) ==> (if *b == 0x1b {
                out == Start::Done(Key::Esc)
            } else {
                out matches Start::Parse(buf) && buf@ == seq![*b]
            }),
            r matches ShortRead::Two(b0, b1) ==> (out matches Start::Parse(buf) && buf@ == seq![
                *b0,
                *b1,
            ]),
    {
        match r {
            ShortRead::Empty => Start::Done(Key::EOF),
            ShortRead::One(b) => {
                if *b == 0x1b {
                    Start::Done(Key::Esc)
                } else {
                    let mut buf: Vec<u8> = Vec::new();
                    buf.push(*b);
                    Start::Parse(buf)
                }
            },
            ShortRead::Two(b0, b1) => {
                let mut buf: Vec<u8> = Vec::new();
                buf.push(*b0);
                buf.push(*b1);
                Start::Parse(buf)
            },
        }
    }

    /// Store whatever the decoder did not consume from the buffer — at
    /// most the one byte a burst read delivered beyond the key boundary —
    /// as the leftover for the next call.
    pub fn finish(&mut self, buf: &Vec<u8>, consumed: usize)
        requires
            old(self)@ is None,
            consumed <= buf@.len(),
            buf@.len() - consumed <= 1,
        ensures
            final(self)@ == spec_leftover(buf@, consumed as int),
    {
        if consumed < buf.len() {
            self.leftover = Some(buf[consumed]);
        } else {
            self.leftover = None;
        }
    }
}

} // verus!
