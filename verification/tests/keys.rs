use sabi::engine::rustbox::RustboxKey;
use sabi::engine::tcod::{key_from_tcod, TcodCode, TcodKey};
use sabi::keys::{keycode_from_char, Key, KeyCode, NumkeyType};

#[test]
fn digits_become_number_keys() {
    assert_eq!(Key::numkey_code_from_digit(1, NumkeyType::Digit), KeyCode::D1);
    assert_eq!(Key::numkey_code_from_digit(0, NumkeyType::Digit), KeyCode::D0);
    assert_eq!(Key::numkey_code_from_digit(7, NumkeyType::NumPad), KeyCode::NumPad7);
    assert_eq!(Key::numkey_code_from_digit(12, NumkeyType::Function), KeyCode::F12);
    assert_eq!(Key::numkey_code_from_digit(10, NumkeyType::Function), KeyCode::F10);
    // Out of range digits are unknown keys.
    assert_eq!(Key::numkey_code_from_digit(10, NumkeyType::Digit), KeyCode::Unknown('\n'));
    assert_eq!(Key::numkey_code_from_digit(13, NumkeyType::Function), KeyCode::Unknown('\r'));
}

#[test]
fn characters_become_keys() {
    assert_eq!(KeyCode::from_char('a'), KeyCode::A);
    assert_eq!(KeyCode::from_char('Z'), KeyCode::Z);
    assert_eq!(KeyCode::from_char('5'), KeyCode::D5);
    assert_eq!(KeyCode::from_char('?'), KeyCode::Unknown('?'));
    let k = Key::from_char('Q');
    assert_eq!(k.code, KeyCode::Q);
    assert!(k.shift);
    assert!(!k.ctrl && !k.alt);
    let k = Key::from_char('q');
    assert!(!k.shift);
    assert_eq!(keycode_from_char('b'), Some(KeyCode::B));
    // A numeric character that is not a decimal digit has no key.
    assert_eq!(keycode_from_char('½'), None);
}

#[test]
fn key_defaults_and_codes() {
    let k = Key::default();
    assert_eq!(k.code, KeyCode::Unknown(' '));
    let k: Key = KeyCode::Esc.into();
    assert_eq!(k, Key { code: KeyCode::Esc, alt: false, ctrl: false, shift: false });
    assert_eq!(Key::from_code(KeyCode::Tab).code, KeyCode::Tab);
}

#[test]
fn tcod_keys_are_read() {
    let key = TcodKey { code: TcodCode::Escape, printable: '\0', alt: false, ctrl: true, shift: false };
    assert_eq!(key_from_tcod(key), Some(Key { code: KeyCode::Esc, alt: false, ctrl: true, shift: false }));
    let key = TcodKey { code: TcodCode::Char, printable: 'j', alt: false, ctrl: false, shift: false };
    assert_eq!(key_from_tcod(key).map(|k| k.code), Some(KeyCode::J));
    let key = TcodKey { code: TcodCode::Number3, printable: '3', alt: true, ctrl: false, shift: false };
    assert_eq!(key_from_tcod(key), Some(Key { code: KeyCode::D3, alt: true, ctrl: false, shift: false }));
    let key = TcodKey { code: TcodCode::Other, printable: 'x', alt: false, ctrl: false, shift: false };
    assert_eq!(key_from_tcod(key), None);
}

#[test]
fn rustbox_keys_are_read() {
    assert_eq!(Key::from_rustbox(RustboxKey::Enter), Key::from_code(KeyCode::Enter));
    assert_eq!(Key::from_rustbox(RustboxKey::F(3)), Key::from_code(KeyCode::F3));
    let k = Key::from_rustbox(RustboxKey::Ctrl('c'));
    assert_eq!(k.code, KeyCode::C);
    assert!(k.ctrl);
    let k = Key::from_rustbox(RustboxKey::Char('H'));
    assert_eq!(k.code, KeyCode::H);
    assert!(k.shift);
    assert_eq!(Key::from_rustbox(RustboxKey::Unknown(7)), Key::from_code(KeyCode::Unknown(' ')));
}

#[test]
fn checked_reading_refuses_non_ascii_numerals() {
    assert_eq!(Key::from_char_checked('Ⅻ'), None);
    assert_eq!(Key::from_char_checked('٣'), None);
    let k = Key::from_char_checked('Q').unwrap();
    assert_eq!(k.code, KeyCode::Q);
    assert!(k.shift);
    assert_eq!(Key::from_char_checked('5').unwrap().code, KeyCode::D5);
    assert_eq!(Key::from_rustbox_checked(RustboxKey::Char('٣')), None);
    let c = Key::from_rustbox_checked(RustboxKey::Ctrl('c')).unwrap();
    assert_eq!(c.code, KeyCode::C);
    assert!(c.ctrl);
    assert_eq!(Key::from_rustbox_checked(RustboxKey::Esc), Some(Key::from_code(KeyCode::Esc)));
}
