//! The decoding of scancodes into keys, which `pc_keyboard` does.

use pc_keyboard::layouts::Us104Key;
use pc_keyboard::{DecodedKey, HandleControl, KeyEvent, Keyboard, ScancodeSet1};
use vstd::prelude::*;

verus! {

#[verifier::external_type_specification]
#[verifier::external_body]
pub struct ExKeyEvent(KeyEvent);

#[verifier::external_type_specification]
#[verifier::external_body]
pub struct ExDecodedKey(DecodedKey);

#[verifier::external_type_specification]
#[verifier::external_body]
pub struct ExKeyboardError(pc_keyboard::Error);

/// The state of the keyboard: `pc_keyboard::Keyboard` for the US layout
/// and scancode set 1. It remembers the prefix of a scancode of two bytes
/// and which of the shift, control and lock keys are in effect.
#[verifier::external_body]
pub struct Decoder {
    keyboard: Keyboard<Us104Key, ScancodeSet1>,
}

impl Decoder {
    /// `Keyboard::new`: a keyboard on which no key is held, and which
    /// leaves letters alone while a control key is.
    #[verifier::external_body]
    pub(crate) fn new() -> (decoder: Decoder) {
        Decoder { keyboard: Keyboard::new(Us104Key, ScancodeSet1, HandleControl::Ignore) }
    }

    /// `Keyboard::add_byte`: the key that went down or up with this byte,
    /// nothing after the prefix of a longer scancode, or an error for a
    /// byte that stands for no key.
    #[verifier::external_body]
    pub(crate) fn add_byte(&mut self, byte: u8) -> (event: Result<
        Option<KeyEvent>,
        pc_keyboard::Error,
    >) {
        self.keyboard.add_byte(byte)
    }

    /// `Keyboard::process_keyevent`: what the key means with the shift,
    /// control and lock keys as they are; nothing for those keys
    /// themselves and for a key that went up.
    #[verifier::external_body]
    pub(crate) fn process_keyevent(&mut self, event: KeyEvent) -> (key: Option<DecodedKey>) {
        self.keyboard.process_keyevent(event)
    }
}

/// The text of a key as `format!` gives it: the character of a key that
/// has one, the name of any other key.
#[verifier::external_body]
pub(crate) fn key_text(key: DecodedKey) -> (text: String) {
    match key {
        DecodedKey::Unicode(character) => format!("{}", character),
        DecodedKey::RawKey(key) => format!("{:?}", key),
    }
}

} // verus!
