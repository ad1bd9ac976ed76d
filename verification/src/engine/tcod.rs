//! Key presses as the libtcod backend reports them, and their reading.
use vstd::prelude::*;
use crate::keys::{Key, KeyCode, keycode_from_char, char_has_key_code, spec_code_of_char};

verus! {

/// The key codes of the libtcod backend that the game reads; every other
/// code is `Other`.
#[derive(Debug, Copy, Clone, PartialEq, Eq, Structural)]
pub enum TcodCode {
    Left,
    Right,
    Down,
    Up,
    Enter,
    Spacebar,
    Escape,
    Tab,
    Backspace,
    Delete,
    Insert,
    Home,
    End,
    PageUp,
    PageDown,
    Number0,
    Number1,
    Number2,
    Number3,
    Number4,
    Number5,
    Number6,
    Number7,
    Number8,
    Number9,
    NumPad0,
    NumPad1,
    NumPad2,
    NumPad3,
    NumPad4,
    NumPad5,
    NumPad6,
    NumPad7,
    NumPad8,
    NumPad9,
    F1,
    F2,
    F3,
    F4,
    F5,
    F6,
    F7,
    F8,
    F9,
    F10,
    F11,
    F12,
    Char,
    Other,
}

/// A key press of the libtcod backend.
#[derive(Debug, Copy, Clone, PartialEq, Eq, Structural)]
pub struct TcodKey {
    pub code: TcodCode,
    pub printable: char,
    pub alt: bool,
    pub ctrl: bool,
    pub shift: bool,
}

/// The game's key code for a libtcod key code.
pub open spec fn spec_tcod_code(code: TcodCode, printable: char) -> Option<KeyCode> {
    match code {
        TcodCode::Left => Some(KeyCode::Left),
        TcodCode::Right => Some(KeyCode::Right),
        TcodCode::Down => Some(KeyCode::Down),
        TcodCode::Up => Some(KeyCode::Up),
        TcodCode::Enter => Some(KeyCode::Enter),
        TcodCode::Spacebar => Some(KeyCode::Space),
        TcodCode::Escape => Some(KeyCode::Esc),
        TcodCode::Tab => Some(KeyCode::Tab),
        TcodCode::Backspace => Some(KeyCode::Backspace),
        TcodCode::Delete => Some(KeyCode::Delete),
        TcodCode::Insert => Some(KeyCode::Insert),
        TcodCode::Home => Some(KeyCode::Home),
        TcodCode::End => Some(KeyCode::End),
        TcodCode::PageUp => Some(KeyCode::PageUp),
        TcodCode::PageDown => Some(KeyCode::PageDown),
        TcodCode::Number0 => Some(KeyCode::D0),
        TcodCode::Number1 => Some(KeyCode::D1),
        TcodCode::Number2 => Some(KeyCode::D2),
        TcodCode::Number3 => Some(KeyCode::D3),
        TcodCode::Number4 => Some(KeyCode::D4),
        TcodCode::Number5 => Some(KeyCode::D5),
        TcodCode::Number6 => Some(KeyCode::D6),
        TcodCode::Number7 => Some(KeyCode::D7),
        TcodCode::Number8 => Some(KeyCode::D8),
        TcodCode::Number9 => Some(KeyCode::D9),
        TcodCode::NumPad0 => Some(KeyCode::NumPad0),
        TcodCode::NumPad1 => Some(KeyCode::NumPad1),
        TcodCode::NumPad2 => Some(KeyCode::NumPad2),
        TcodCode::NumPad3 => Some(KeyCode::NumPad3),
        TcodCode::NumPad4 => Some(KeyCode::NumPad4),
        TcodCode::NumPad5 => Some(KeyCode::NumPad5),
        TcodCode::NumPad6 => Some(KeyCode::NumPad6),
        TcodCode::NumPad7 => Some(KeyCode::NumPad7),
        TcodCode::NumPad8 => Some(KeyCode::NumPad8),
        TcodCode::NumPad9 => Some(KeyCode::NumPad9),
        TcodCode::F1 => Some(KeyCode::F1),
        TcodCode::F2 => Some(KeyCode::F2),
        TcodCode::F3 => Some(KeyCode::F3),
        TcodCode::F4 => Some(KeyCode::F4),
        TcodCode::F5 => Some(KeyCode::F5),
        TcodCode::F6 => Some(KeyCode::F6),
        TcodCode::F7 => Some(KeyCode::F7),
        TcodCode::F8 => Some(KeyCode::F8),
        TcodCode::F9 => Some(KeyCode::F9),
        TcodCode::F10 => Some(KeyCode::F10),
        TcodCode::F11 => Some(KeyCode::F11),
        TcodCode::F12 => Some(KeyCode::F12),
        TcodCode::Char => if char_has_key_code(printable) {
            Some(spec_code_of_char(printable))
        } else {
            None
        },
        TcodCode::Other => None,
    }
}

/// A named libtcod key: any but a typed character or an unread key.
pub open spec fn is_named(code: TcodCode) -> bool {
    code != TcodCode::Char && code != TcodCode::Other
}

/// A named libtcod key reads as the game key of the same name: the arrows
/// as the arrows, escape as escape, and so on; every named key is read, and
/// no two of them read as the same key code.
pub proof fn law_tcod_names_kept(key: TcodKey, other: TcodKey)
    ensures
        key.code == TcodCode::Up ==> spec_tcod_code(key.code, key.printable) == Some(KeyCode::Up),
        key.code == TcodCode::Down ==> spec_tcod_code(key.code, key.printable) == Some(
            KeyCode::Down,
        ),
        key.code == TcodCode::Left ==> spec_tcod_code(key.code, key.printable) == Some(
            KeyCode::Left,
        ),
        key.code == TcodCode::Right ==> spec_tcod_code(key.code, key.printable) == Some(
            KeyCode::Right,
        ),
        key.code == TcodCode::Escape ==> spec_tcod_code(key.code, key.printable) == Some(
            KeyCode::Esc,
        ),
        key.code == TcodCode::Enter ==> spec_tcod_code(key.code, key.printable) == Some(
            KeyCode::Enter,
        ),
        key.code == TcodCode::Spacebar ==> spec_tcod_code(key.code, key.printable) == Some(
            KeyCode::Space,
        ),
        key.code == TcodCode::Other ==> spec_tcod_code(key.code, key.printable) is None,
        is_named(key.code) ==> spec_tcod_code(key.code, key.printable) is Some,
        is_named(key.code) && is_named(other.code) && key.code != other.code ==> spec_tcod_code(
            key.code,
            key.printable,
        ) != spec_tcod_code(other.code, other.printable),
{
}

/// The game's key press for a libtcod key press, keeping its modifiers;
/// `None` for keys the game does not read.
pub fn key_from_tcod(tcod_key: TcodKey) -> (key: Option<Key>)
    ensures
        key == (match spec_tcod_code(tcod_key.code, tcod_key.printable) {
            Some(code) => Some(
                Key { code: code, alt: tcod_key.alt, ctrl: tcod_key.ctrl, shift: tcod_key.shift },
            ),
            None => None,
        }),
{
    let key_code = match tcod_key.code {
        TcodCode::Left => Some(KeyCode::Left),
        TcodCode::Right => Some(KeyCode::Right),
        TcodCode::Down => Some(KeyCode::Down),
        TcodCode::Up => Some(KeyCode::Up),

        TcodCode::Enter => Some(KeyCode::Enter),
        TcodCode::Spacebar => Some(KeyCode::Space),
        TcodCode::Escape => Some(KeyCode::Esc),

        TcodCode::Tab => Some(KeyCode::Tab),
        TcodCode::Backspace => Some(KeyCode::Backspace),
        TcodCode::Delete => Some(KeyCode::Delete),
        TcodCode::Insert => Some(KeyCode::Insert),

        TcodCode::Home => Some(KeyCode::Home),
        TcodCode::End => Some(KeyCode::End),
        TcodCode::PageUp => Some(KeyCode::PageUp),
        TcodCode::PageDown => Some(KeyCode::PageDown),

        TcodCode::Number0 => Some(KeyCode::D0),
        TcodCode::Number1 => Some(KeyCode::D1),
        TcodCode::Number2 => Some(KeyCode::D2),
        TcodCode::Number3 => Some(KeyCode::D3),
        TcodCode::Number4 => Some(KeyCode::D4),
        TcodCode::Number5 => Some(KeyCode::D5),
        TcodCode::Number6 => Some(KeyCode::D6),
        TcodCode::Number7 => Some(KeyCode::D7),
        TcodCode::Number8 => Some(KeyCode::D8),
        TcodCode::Number9 => Some(KeyCode::D9),

        TcodCode::NumPad0 => Some(KeyCode::NumPad0),
        TcodCode::NumPad1 => Some(KeyCode::NumPad1),
        TcodCode::NumPad2 => Some(KeyCode::NumPad2),
        TcodCode::NumPad3 => Some(KeyCode::NumPad3),
        TcodCode::NumPad4 => Some(KeyCode::NumPad4),
        TcodCode::NumPad5 => Some(KeyCode::NumPad5),
        TcodCode::NumPad6 => Some(KeyCode::NumPad6),
        TcodCode::NumPad7 => Some(KeyCode::NumPad7),
        TcodCode::NumPad8 => Some(KeyCode::NumPad8),
        TcodCode::NumPad9 => Some(KeyCode::NumPad9),

        TcodCode::F1 => Some(KeyCode::F1),
        TcodCode::F2 => Some(KeyCode::F2),
        TcodCode::F3 => Some(KeyCode::F3),
        TcodCode::F4 => Some(KeyCode::F4),
        TcodCode::F5 => Some(KeyCode::F5),
        TcodCode::F6 => Some(KeyCode::F6),
        TcodCode::F7 => Some(KeyCode::F7),
        TcodCode::F8 => Some(KeyCode::F8),
        TcodCode::F9 => Some(KeyCode::F9),
        TcodCode::F10 => Some(KeyCode::F10),
        TcodCode::F11 => Some(KeyCode::F11),
        TcodCode::F12 => Some(KeyCode::F12),

        TcodCode::Char => keycode_from_char(tcod_key.printable),

        _ => None,
    };

    match key_code {
        Some(code) => Some(
            Key { code: code, alt: tcod_key.alt, ctrl: tcod_key.ctrl, shift: tcod_key.shift },
        ),
        None => None,
    }
}

} // verus!
