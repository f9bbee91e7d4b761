//! Which key events stand for a typed character.

use vstd::prelude::*;

verus! {

/// The keys that the terminal reports and the machine tells apart.
#[derive(Debug, Clone, Copy, PartialEq, Eq, Structural)]
pub enum Key {
    Char(char),
    Enter,
    Backspace,
    Esc,
    Other,
}

/// The byte that a key event stands for, if any.
pub open spec fn key_byte_spec(pressed: bool, key: Key) -> Option<u8> {
    if !pressed {
        None
    } else {
        match key {
            Key::Char(c) => Some(c as u8),
            Key::Enter => Some(0x0Au8),
            Key::Backspace => Some(0x7Fu8),
            Key::Esc => Some(0x1Bu8),
            Key::Other => None,
        }
    }
}

/// The byte that a key event stands for: a press of a character key gives its
/// code truncated to a byte, Enter gives a newline, Backspace 0x7F and Esc
/// 0x1B; releases, repeats and other keys give nothing.
pub fn key_byte(pressed: bool, key: Key) -> (b: Option<u8>)
    ensures
        b == key_byte_spec(pressed, key),
{
    if !pressed {
        return None;
    }
    match key {
        Key::Char(c) => Some(c as u8),
        Key::Enter => Some(0x0A),
        Key::Backspace => Some(0x7F),
        Key::Esc => Some(0x1B),
        Key::Other => None,
    }
}

} // verus!
