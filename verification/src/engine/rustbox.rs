//! Key presses as the termbox backend reports them, and their reading.
use vstd::prelude::*;
use crate::keys::{
    Key,
    KeyCode,
    NumkeyType,
    char_has_key_code,
    spec_code_of_char,
    spec_numkey_code,
    unicode_is_uppercase,
};

verus! {

/// A key press of the termbox backend.
#[derive(Debug, Copy, Clone, PartialEq, Eq, Structural)]
pub enum RustboxKey {
    Tab,
    Enter,
    Esc,
    Backspace,
    Right,
    Left,
    Up,
    Down,
    Delete,
    Insert,
    Home,
    End,
    PageUp,
    PageDown,
    Char(char),
    Ctrl(char),
    F(u32),
    Unknown(u16),
}

/// The characters of a termbox key press are ones with a key code.
pub open spec fn rustbox_key_readable(rb_key: RustboxKey) -> bool {
    match rb_key {
        RustboxKey::Char(c) => char_has_key_code(c),
        RustboxKey::Ctrl(c) => char_has_key_code(c),
        _ => true,
    }
}

/// The game's key press for a termbox key press: a typed character keeps
/// shift for uppercase, a control character gets ctrl, function keys are
/// numbered, and unread keys are `Unknown(' ')`.
pub open spec fn spec_key_from_rustbox(rb_key: RustboxKey) -> Key {
    let plain = |code: KeyCode| Key { code: code, alt: false, ctrl: false, shift: false };
    match rb_key {
        RustboxKey::Char(c) => Key {
            code: spec_code_of_char(c),
            alt: false,
            ctrl: false,
            shift: unicode_is_uppercase(c),
        },
        RustboxKey::Ctrl(c) => Key {
            code: spec_code_of_char(c),
            alt: false,
            ctrl: true,
            shift: unicode_is_uppercase(c),
        },
        RustboxKey::F(n) => plain(spec_numkey_code(n, NumkeyType::Function)),
        RustboxKey::Tab => plain(KeyCode::Tab),
        RustboxKey::Enter => plain(KeyCode::Enter),
        RustboxKey::Esc => plain(KeyCode::Esc),
        RustboxKey::Backspace => plain(KeyCode::Backspace),
        RustboxKey::Right => plain(KeyCode::Right),
        RustboxKey::Left => plain(KeyCode::Left),
        RustboxKey::Up => plain(KeyCode::Up),
        RustboxKey::Down => plain(KeyCode::Down),
        RustboxKey::Delete => plain(KeyCode::Delete),
        RustboxKey::Insert => plain(KeyCode::Insert),
        RustboxKey::Home => plain(KeyCode::Home),
        RustboxKey::End => plain(KeyCode::End),
        RustboxKey::PageUp => plain(KeyCode::PageUp),
        RustboxKey::PageDown => plain(KeyCode::PageDown),
        RustboxKey::Unknown(_) => plain(KeyCode::Unknown(' ')),
    }
}

impl Key {
    /// The game's key press for a termbox key press.
    pub fn from_rustbox(rb_key: RustboxKey) -> (key: Key)
        requires
            rustbox_key_readable(rb_key),
        ensures
            key == spec_key_from_rustbox(rb_key),
    {
        match rb_key {
            RustboxKey::Char(c) => { Key::from_char(c) },
            RustboxKey::Ctrl(c) => {
                let mut key = Key::from_char(c);
                key.ctrl = true;
                key
            },
            RustboxKey::F(n) => {
                let keycode = Key::numkey_code_from_digit(n, NumkeyType::Function);
                Key::from_code(keycode)
            },
            RustboxKey::Tab => Key::from_code(KeyCode::Tab),
            RustboxKey::Enter => Key::from_code(KeyCode::Enter),
            RustboxKey::Esc => Key::from_code(KeyCode::Esc),
            RustboxKey::Backspace => Key::from_code(KeyCode::Backspace),
            RustboxKey::Right => Key::from_code(KeyCode::Right),
            RustboxKey::Left => Key::from_code(KeyCode::Left),
            RustboxKey::Up => Key::from_code(KeyCode::Up),
            RustboxKey::Down => Key::from_code(KeyCode::Down),
            RustboxKey::Delete => Key::from_code(KeyCode::Delete),
            RustboxKey::Insert => Key::from_code(KeyCode::Insert),
            RustboxKey::Home => Key::from_code(KeyCode::Home),
            RustboxKey::End => Key::from_code(KeyCode::End),
            RustboxKey::PageUp => Key::from_code(KeyCode::PageUp),
            RustboxKey::PageDown => Key::from_code(KeyCode::PageDown),
            _ => Key::from_code(KeyCode::Unknown(' ')),
        }
    }

    /// The game's key press for a termbox key press, where its character
    /// has a key code; `None` otherwise.
    pub fn from_rustbox_checked(rb_key: RustboxKey) -> (key: Option<Key>)
        ensures
            key == (if rustbox_key_readable(rb_key) {
                Some(spec_key_from_rustbox(rb_key))
            } else {
                None
            }),
    {
        let readable = match rb_key {
            RustboxKey::Char(c) => Key::from_char_checked(c).is_some(),
            RustboxKey::Ctrl(c) => Key::from_char_checked(c).is_some(),
            _ => true,
        };
        if readable {
            Some(Key::from_rustbox(rb_key))
        } else {
            None
        }
    }
}

} // verus!
