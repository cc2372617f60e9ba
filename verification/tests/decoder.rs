//! Tests for the byte-stream-to-key decoder.

use getch_rs::decode::{parse_key, Decoded};
use getch_rs::key::Key;

#[test]
fn arrow_keys() {
    assert_eq!(
        parse_key(&[0x1b, 0x5b, 0x41], false),
        Decoded::Key(Key::Up, 3)
    );
    assert_eq!(
        parse_key(&[0x1b, 0x5b, 0x42], false),
        Decoded::Key(Key::Down, 3)
    );
    assert_eq!(
        parse_key(&[0x1b, 0x5b, 0x43], false),
        Decoded::Key(Key::Right, 3)
    );
    assert_eq!(
        parse_key(&[0x1b, 0x5b, 0x44], false),
        Decoded::Key(Key::Left, 3)
    );
}

#[test]
fn csi_single_finals() {
    assert_eq!(
        parse_key(&[0x1b, 0x5b, 0x46], false),
        Decoded::Key(Key::End, 3)
    );
    assert_eq!(
        parse_key(&[0x1b, 0x5b, 0x48], false),
        Decoded::Key(Key::Home, 3)
    );
    assert_eq!(
        parse_key(&[0x1b, 0x5b, 0x5a], false),
        Decoded::Key(Key::BackTab, 3)
    );
}

#[test]
fn csi_tilde_navigation() {
    // Esc [ 1 ~  -> Home ; Esc [ 3 ~ -> Delete
    assert_eq!(
        parse_key(&[0x1b, 0x5b, 0x31, 0x7e], false),
        Decoded::Key(Key::Home, 4)
    );
    assert_eq!(
        parse_key(&[0x1b, 0x5b, 0x33, 0x7e], false),
        Decoded::Key(Key::Delete, 4)
    );
    assert_eq!(
        parse_key(&[0x1b, 0x5b, 0x32, 0x7e], false),
        Decoded::Key(Key::Insert, 4)
    );
    assert_eq!(
        parse_key(&[0x1b, 0x5b, 0x34, 0x7e], false),
        Decoded::Key(Key::End, 4)
    );
    assert_eq!(
        parse_key(&[0x1b, 0x5b, 0x35, 0x7e], false),
        Decoded::Key(Key::PageUp, 4)
    );
    assert_eq!(
        parse_key(&[0x1b, 0x5b, 0x36, 0x7e], false),
        Decoded::Key(Key::PageDown, 4)
    );
    assert_eq!(
        parse_key(&[0x1b, 0x5b, 0x37, 0x7e], false),
        Decoded::Key(Key::Home, 4)
    );
    assert_eq!(
        parse_key(&[0x1b, 0x5b, 0x38, 0x7e], false),
        Decoded::Key(Key::End, 4)
    );
}

#[test]
fn csi_tilde_function_keys() {
    // Esc [ 1 5 ~ -> F5
    assert_eq!(
        parse_key(&[0x1b, 0x5b, 0x31, 0x35, 0x7e], false),
        Decoded::Key(Key::F(5), 5)
    );
    // 11~ -> F1, 17~ -> F6, 21~ -> F10, 23~ -> F11, 24~ -> F12
    assert_eq!(
        parse_key(&[0x1b, 0x5b, 0x31, 0x31, 0x7e], false),
        Decoded::Key(Key::F(1), 5)
    );
    assert_eq!(
        parse_key(&[0x1b, 0x5b, 0x31, 0x37, 0x7e], false),
        Decoded::Key(Key::F(6), 5)
    );
    assert_eq!(
        parse_key(&[0x1b, 0x5b, 0x32, 0x31, 0x7e], false),
        Decoded::Key(Key::F(10), 5)
    );
    assert_eq!(
        parse_key(&[0x1b, 0x5b, 0x32, 0x33, 0x7e], false),
        Decoded::Key(Key::F(11), 5)
    );
    assert_eq!(
        parse_key(&[0x1b, 0x5b, 0x32, 0x34, 0x7e], false),
        Decoded::Key(Key::F(12), 5)
    );
}

#[test]
fn ss3_function_keys() {
    assert_eq!(
        parse_key(&[0x1b, 0x4f, 0x50], false),
        Decoded::Key(Key::F(1), 3)
    );
    assert_eq!(
        parse_key(&[0x1b, 0x4f, 0x51], false),
        Decoded::Key(Key::F(2), 3)
    );
    assert_eq!(
        parse_key(&[0x1b, 0x4f, 0x52], false),
        Decoded::Key(Key::F(3), 3)
    );
    assert_eq!(
        parse_key(&[0x1b, 0x4f, 0x53], false),
        Decoded::Key(Key::F(4), 3)
    );
    // Esc O with nothing after it yet must wait for the live stream
    assert_eq!(parse_key(&[0x1b, 0x4f], false), Decoded::Incomplete);
    // an SS3 byte outside P..S preserves all three bytes
    assert_eq!(
        parse_key(&[0x1b, 0x4f, 0x41], false),
        Decoded::Key(Key::Other(vec![0x1b, 0x4f, 0x41]), 3)
    );
}

#[test]
fn legacy_linux_console_function_keys() {
    // Esc [ [ A..E -> F1..F5
    assert_eq!(
        parse_key(&[0x1b, 0x5b, 0x5b, 0x41], false),
        Decoded::Key(Key::F(1), 4)
    );
    assert_eq!(
        parse_key(&[0x1b, 0x5b, 0x5b, 0x45], false),
        Decoded::Key(Key::F(5), 4)
    );
    assert_eq!(
        parse_key(&[0x1b, 0x5b, 0x5b, 0x46], false),
        Decoded::Key(Key::Other(vec![0x1b, 0x5b, 0x5b, 0x46]), 4)
    );
}

#[test]
fn ctrl_letters_and_digits() {
    // 0x03 -> Ctrl('c'); 0x1c -> Ctrl('4')
    assert_eq!(parse_key(&[0x03], false), Decoded::Key(Key::Ctrl('c'), 1));
    assert_eq!(parse_key(&[0x1c], false), Decoded::Key(Key::Ctrl('4'), 1));
    assert_eq!(parse_key(&[0x01], false), Decoded::Key(Key::Ctrl('a'), 1));
    assert_eq!(parse_key(&[0x1a], false), Decoded::Key(Key::Ctrl('z'), 1));
    assert_eq!(parse_key(&[0x1f], false), Decoded::Key(Key::Ctrl('7'), 1));
}

#[test]
fn control_bytes() {
    assert_eq!(parse_key(&[0x0a], false), Decoded::Key(Key::Char('\r'), 1));
    assert_eq!(parse_key(&[0x0d], false), Decoded::Key(Key::Char('\r'), 1));
    assert_eq!(parse_key(&[0x09], false), Decoded::Key(Key::Char('\t'), 1));
    assert_eq!(parse_key(&[0x08], false), Decoded::Key(Key::Backspace, 1));
    assert_eq!(parse_key(&[0x7f], false), Decoded::Key(Key::Delete, 1));
    assert_eq!(parse_key(&[0x00], false), Decoded::Key(Key::EOF, 1));
}

#[test]
fn plain_characters() {
    assert_eq!(parse_key(&[0x61], false), Decoded::Key(Key::Char('a'), 1));
    assert_eq!(parse_key(&[0x7e], false), Decoded::Key(Key::Char('~'), 1));
}

#[test]
fn utf8_two_bytes_whole() {
    // 0xC3 0xA9 encodes 'é'
    assert_eq!(
        parse_key(&[0xc3, 0xa9], false),
        Decoded::Key(Key::Char('é'), 2)
    );
}

#[test]
fn utf8_two_bytes_split() {
    // only the lead byte has arrived: the decoder must wait, not fail
    assert_eq!(parse_key(&[0xc3], false), Decoded::Incomplete);
    // once the continuation arrives, the same character comes out
    assert_eq!(
        parse_key(&[0xc3, 0xa9], false),
        Decoded::Key(Key::Char('é'), 2)
    );
}

#[test]
fn utf8_three_and_four_bytes() {
    // '€' U+20AC
    assert_eq!(
        parse_key(&[0xe2, 0x82, 0xac], false),
        Decoded::Key(Key::Char('€'), 3)
    );
    // U+1F496
    assert_eq!(
        parse_key(&[0xf0, 0x9f, 0x92, 0x96], false),
        Decoded::Key(Key::Char('\u{1F496}'), 4)
    );
    // the largest scalar value
    assert_eq!(
        parse_key(&[0xf4, 0x8f, 0xbf, 0xbf], false),
        Decoded::Key(Key::Char('\u{10FFFF}'), 4)
    );
}

#[test]
fn utf8_incomplete_lead_at_end_of_input() {
    // a four-byte lead followed by end of input yields exactly the bytes seen
    assert_eq!(
        parse_key(&[0xf0], true),
        Decoded::Key(Key::Other(vec![0xf0]), 1)
    );
    assert_eq!(parse_key(&[0xf0], false), Decoded::Incomplete);
}

#[test]
fn utf8_invalid_sequences() {
    // overlong two-byte encoding
    assert_eq!(
        parse_key(&[0xc0, 0x80], true),
        Decoded::Key(Key::Other(vec![0xc0, 0x80]), 2)
    );
    // a surrogate codepoint is not a character
    assert_eq!(
        parse_key(&[0xed, 0xa0, 0x80], true),
        Decoded::Key(Key::Other(vec![0xed, 0xa0, 0x80]), 3)
    );
    // a lone continuation byte swallows up to four bytes without success
    assert_eq!(
        parse_key(&[0x80, 0x41, 0x42, 0x43], false),
        Decoded::Key(Key::Other(vec![0x80, 0x41, 0x42, 0x43]), 4)
    );
}

#[test]
fn alt_characters() {
    assert_eq!(
        parse_key(&[0x1b, 0x61], false),
        Decoded::Key(Key::Alt('a'), 2)
    );
    assert_eq!(
        parse_key(&[0x1b, 0xc3, 0xa9], false),
        Decoded::Key(Key::Alt('é'), 3)
    );
    assert_eq!(
        parse_key(&[0x1b, 0xe2, 0x82, 0xac], false),
        Decoded::Key(Key::Alt('€'), 4)
    );
}

#[test]
fn escape_then_csi_waits_for_final_byte() {
    assert_eq!(parse_key(&[0x1b, 0x5b], false), Decoded::Incomplete);
}

#[test]
fn lone_escape() {
    assert_eq!(parse_key(&[0x1b], false), Decoded::Incomplete);
    assert_eq!(parse_key(&[0x1b], true), Decoded::Key(Key::Esc, 1));
}

#[test]
fn truncated_escape_sequences_preserve_bytes() {
    assert_eq!(
        parse_key(&[0x1b, 0x5b], true),
        Decoded::Key(Key::Other(vec![0x1b, 0x5b]), 2)
    );
    assert_eq!(
        parse_key(&[0x1b, 0x4f], true),
        Decoded::Key(Key::Other(vec![0x1b, 0x4f]), 2)
    );
    assert_eq!(
        parse_key(&[0x1b, 0x5b, 0x5b], true),
        Decoded::Key(Key::Other(vec![0x1b, 0x5b, 0x5b]), 3)
    );
    // digits with no final byte yet
    assert_eq!(parse_key(&[0x1b, 0x5b, 0x31], false), Decoded::Incomplete);
    assert_eq!(
        parse_key(&[0x1b, 0x5b, 0x31, 0x35], true),
        Decoded::Key(Key::Other(vec![0x1b, 0x5b, 0x31, 0x35]), 4)
    );
}

#[test]
fn csi_fallbacks_preserve_bytes() {
    // an unknown third byte
    assert_eq!(
        parse_key(&[0x1b, 0x5b, 0x21], false),
        Decoded::Key(Key::Other(vec![0x1b, 0x5b, 0x21]), 3)
    );
    // a semicolon-separated parameter list is not decoded further
    assert_eq!(
        parse_key(&[0x1b, 0x5b, 0x31, 0x3b, 0x35, 0x7e], false),
        Decoded::Key(Key::Other(vec![0x1b, 0x5b, 0x31, 0x3b, 0x35, 0x7e]), 6)
    );
    // an unrecognized single parameter
    assert_eq!(
        parse_key(&[0x1b, 0x5b, 0x32, 0x35, 0x7e], false),
        Decoded::Key(Key::Other(vec![0x1b, 0x5b, 0x32, 0x35, 0x7e]), 5)
    );
    // a final byte other than '~' after digits
    assert_eq!(
        parse_key(&[0x1b, 0x5b, 0x31, 0x52], false),
        Decoded::Key(Key::Other(vec![0x1b, 0x5b, 0x31, 0x52]), 4)
    );
    // a very large parameter cannot name a key, and must not wrap around
    assert_eq!(
        parse_key(&[0x1b, 0x5b, 0x39, 0x39, 0x39, 0x39, 0x39, 0x39, 0x7e], false),
        Decoded::Key(
            Key::Other(vec![0x1b, 0x5b, 0x39, 0x39, 0x39, 0x39, 0x39, 0x39, 0x7e]),
            9
        )
    );
}

#[test]
fn alt_invalid_utf8_preserves_collected_bytes() {
    // after Esc, a failed UTF-8 decode keeps the bytes the decoder
    // collected (the escape byte itself is not part of the payload)
    assert_eq!(
        parse_key(&[0x1b, 0x80], true),
        Decoded::Key(Key::Other(vec![0x80]), 2)
    );
}

#[test]
fn burst_consumes_only_one_key() {
    // two keys delivered in one burst: the first decode consumes one byte
    assert_eq!(parse_key(&[0x61, 0x62], false), Decoded::Key(Key::Char('a'), 1));
}
