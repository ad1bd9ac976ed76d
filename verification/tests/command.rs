use sabi::command::{Command, Direction};
use sabi::keys::{Key, KeyCode};

#[test]
fn keys_map_to_commands() {
    assert_eq!(Command::from_key(Key::from_code(KeyCode::Esc)), Command::Quit);
    assert_eq!(Command::from_key(Key::from_code(KeyCode::H)), Command::Move(Direction::W));
    assert_eq!(Command::from_key(Key::from_code(KeyCode::Right)), Command::Move(Direction::E));
    assert_eq!(Command::from_key(Key::from_code(KeyCode::NumPad8)), Command::Move(Direction::N));
    assert_eq!(Command::from_key(Key::from_code(KeyCode::J)), Command::Move(Direction::S));
    assert_eq!(Command::from_key(Key::from_code(KeyCode::NumPad1)), Command::Move(Direction::SW));
    assert_eq!(Command::from_key(Key::from_code(KeyCode::NumPad3)), Command::Move(Direction::SE));
    assert_eq!(Command::from_key(Key::from_code(KeyCode::NumPad7)), Command::Move(Direction::NW));
    assert_eq!(Command::from_key(Key::from_code(KeyCode::NumPad9)), Command::Move(Direction::NE));
    assert_eq!(Command::from_key(Key::from_code(KeyCode::Q)), Command::Wait);
    let shifted = Key { code: KeyCode::K, alt: false, ctrl: false, shift: true };
    assert_eq!(Command::from_key(shifted), Command::Move(Direction::N));
}
