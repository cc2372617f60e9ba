//! Read one keystroke at a time from a raw-mode terminal.
//!
//! The heart of the crate is a verified decoder that turns raw input
//! bytes — control characters, multi-byte UTF-8 sequences and ANSI/VT100
//! escape sequences — into [`key::Key`] events.  The decoder works on the
//! bytes available so far plus an end-of-input flag, and either yields a
//! key together with the number of bytes it consumed, or reports that it
//! needs more input.  [`session::Session`] carries the one byte a burst
//! read may deliver beyond a key boundary over to the next call.
//!
//! Platform terminal-mode plumbing (termios) and the blocking reads
//! themselves live outside the verified library.

pub mod decode;
pub mod key;
pub mod laws;
pub mod session;
pub mod utf8char;
