//! The key event type and its mathematical model.

use vstd::prelude::*;

verus! {

/// One decoded input event.
///
/// Every byte the decoder consumes is represented in exactly one emitted
/// `Key`: either classified, or preserved verbatim in an [`Key::Other`]
/// payload, so no input is ever silently dropped.
#[derive(Debug, Clone, PartialEq, Eq, Hash)]
pub enum Key {
    /// Null byte, and the value emitted for a zero-byte read.
    EOF,
    /// Backspace.
    Backspace,
    /// Delete key.
    Delete,
    /// Esc key.
    Esc,
    /// Up arrow.
    Up,
    /// Down arrow.
    Down,
    /// Right arrow.
    Right,
    /// Left arrow.
    Left,
    /// End key.
    End,
    /// Home key.
    Home,
    /// Backward Tab key.
    BackTab,
    /// Insert key.
    Insert,
    /// Page Up key.
    PageUp,
    /// Page Down key.
    PageDown,
    /// Function keys.
    F(u8),
    /// Normal character.
    Char(char),
    /// Alt modified character.
    Alt(char),
    /// Ctrl modified character.
    Ctrl(char),
    /// Unrecognized input, preserving the raw bytes seen.
    Other(Vec<u8>),
}

/// The mathematical model of a [`Key`]: the same variants, with the raw
/// bytes of an unrecognized sequence held as a `Seq<u8>`.
pub enum KeyModel {
    EOF,
    Backspace,
    Delete,
    Esc,
    Up,
    Down,
    Right,
    Left,
    End,
    Home,
    BackTab,
    Insert,
    PageUp,
    PageDown,
    F(u8),
    Char(char),
    Alt(char),
    Ctrl(char),
    Other(Seq<u8>),
}

impl View for Key {
    type V = KeyModel;

    open spec fn view(&self) -> KeyModel {
        match self {
            Key::EOF => KeyModel::EOF,
            Key::Backspace => KeyModel::Backspace,
            Key::Delete => KeyModel::Delete,
            Key::Esc => KeyModel::Esc,
            Key::Up => KeyModel::Up,
            Key::Down => KeyModel::Down,
            Key::Right => KeyModel::Right,
            Key::Left => KeyModel::Left,
            Key::End => KeyModel::End,
            Key::Home => KeyModel::Home,
            Key::BackTab => KeyModel::BackTab,
            Key::Insert => KeyModel::Insert,
            Key::PageUp => KeyModel::PageUp,
            Key::PageDown => KeyModel::PageDown,
            Key::F(n) => KeyModel::F(*n),
            Key::Char(c) => KeyModel::Char(*c),
            Key::Alt(c) => KeyModel::Alt(*c),
            Key::Ctrl(c) => KeyModel::Ctrl(*c),
            Key::Other(bytes) => KeyModel::Other(bytes@),
        }
    }
}

} // verus!
