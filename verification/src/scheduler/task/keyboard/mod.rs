//! Reading the keyboard: scancodes are decoded by `pc_keyboard` for the US 104-key layout,
//! and a line is read key by key, each key echoed, until a newline.
use pc_keyboard::layouts::Us104Key;
use pc_keyboard::{
    DecodedKey, HandleControl, KeyCode, KeyEvent, Keyboard, ScancodeSet1,
};
use vstd::prelude::*;

pub mod scancode_stream;

verus! {

/// The keyboard decoder: `pc_keyboard`'s `Keyboard` for scancode set 1 and the US 104-key
/// layout. Its state (shift, caps lock, a half-read scancode) lives inside the decoder and
/// is not modelled: nothing is stated of what it holds.
#[verifier::external_body]
pub struct KeyboardDecoder {
    keyboard: Keyboard<Us104Key, ScancodeSet1>,
}

#[verifier::external_type_specification]
#[verifier::external_body]
pub struct ExKeyEvent(KeyEvent);

#[verifier::external_type_specification]
#[verifier::external_body]
pub struct ExKeyboardError(pc_keyboard::Error);

#[verifier::external_type_specification]
#[verifier::external_body]
pub struct ExKeyCode(KeyCode);

/// A decoded key press: a character, or a key that has none.
pub enum Key {
    Unicode(char),
    Raw(KeyCode),
}

/// `Keyboard::new`: a decoder for scancode set 1 and the US 104-key layout, with the
/// control key left as it is. Nothing is stated of its internal state.
#[verifier::external_body]
fn new_us104_keyboard() -> KeyboardDecoder {
    KeyboardDecoder { keyboard: Keyboard::new(ScancodeSet1::new(), Us104Key, HandleControl::Ignore) }
}

/// `Keyboard::add_byte`: feeds one scancode byte to the decoder. What comes back depends
/// on the decoder's state, of which nothing is stated.
#[verifier::external_body]
fn keyboard_add_byte(decoder: &mut KeyboardDecoder, byte: u8) -> Result<
    Option<KeyEvent>,
    pc_keyboard::Error,
> {
    decoder.keyboard.add_byte(byte)
}

/// `Keyboard::process_keyevent`: turns a key event into a key press, under the modifier
/// state that the decoder keeps; nothing is stated of the result.
#[verifier::external_body]
fn keyboard_process_keyevent(decoder: &mut KeyboardDecoder, event: KeyEvent) -> Option<Key> {
    match decoder.keyboard.process_keyevent(event) {
        Some(DecodedKey::Unicode(c)) => Some(Key::Unicode(c)),
        Some(DecodedKey::RawKey(code)) => Some(Key::Raw(code)),
        None => None,
    }
}

impl KeyboardDecoder {
    pub fn new() -> (r: Self) {
        new_us104_keyboard()
    }

    /// Feeds `scancode` to the decoder: a key press where the scancode completes one,
    /// none where it is a release, part of a longer code, or not understood.
    pub fn decode(&mut self, scancode: u8) -> (r: Option<Key>) {
        match keyboard_add_byte(self, scancode) {
            Ok(Some(event)) => keyboard_process_keyevent(self, event),
            _ => None,
        }
    }
}

/// The heart shown for a key that has no character.
pub const NO_CHAR: char = '\u{2764}';

/// The character that a key press stands for in a line: its own, or the heart.
pub open spec fn spec_key_char(key: Key) -> char {
    match key {
        Key::Unicode(c) => c,
        Key::Raw(_) => NO_CHAR,
    }
}

pub fn key_char(key: &Key) -> (c: char)
    ensures
        c == spec_key_char(*key),
{
    match key {
        Key::Unicode(c) => *c,
        Key::Raw(_) => NO_CHAR,
    }
}

/// One key of a line being read: returns the character to echo; a newline completes the
/// line, any other character is added to it.
pub fn read_key(line: &mut Vec<char>, key: &Key) -> (c: char)
    ensures
        c == spec_key_char(*key),
        c == '\n' ==> final(line)@ == old(line)@,
        c != '\n' ==> final(line)@ == old(line)@.push(c),
{
    let c = key_char(key);
    if c != '\n' {
        line.push(c);
    }
    c
}

} // verus!
