//! What a key press asks the player's character to do.
use vstd::prelude::*;
use crate::keys::{Key, KeyCode};

verus! {

/// The eight directions of the compass.
#[derive(Debug, Copy, Clone, PartialEq, Eq, Structural)]
pub enum Direction {
    N,
    NE,
    E,
    SE,
    S,
    SW,
    W,
    NW,
}

#[derive(Debug, Copy, Clone, PartialEq, Eq, Structural)]
pub enum Command {
    Move(Direction),
    Wait,
    Quit,
}

/// The command a key code stands for: arrows, `hjkl` and the number pad
/// move, escape quits, any other key waits.
pub open spec fn spec_command_for(code: KeyCode) -> Command {
    match code {
        KeyCode::Esc => Command::Quit,
        KeyCode::Left | KeyCode::H | KeyCode::NumPad4 => Command::Move(Direction::W),
        KeyCode::Right | KeyCode::L | KeyCode::NumPad6 => Command::Move(Direction::E),
        KeyCode::Up | KeyCode::K | KeyCode::NumPad8 => Command::Move(Direction::N),
        KeyCode::Down | KeyCode::J | KeyCode::NumPad2 => Command::Move(Direction::S),
        KeyCode::NumPad1 => Command::Move(Direction::SW),
        KeyCode::NumPad3 => Command::Move(Direction::SE),
        KeyCode::NumPad7 => Command::Move(Direction::NW),
        KeyCode::NumPad9 => Command::Move(Direction::NE),
        _ => Command::Wait,
    }
}

/// Each arrow key moves in its own direction, agreeing with the `hjkl` key
/// and the number-pad key for that direction; the number pad's corners move
/// diagonally as they lie; escape quits. Modifiers make no difference.
pub proof fn law_arrow_keys_move(key: Key)
    ensures
        key.code == KeyCode::Left ==> spec_command_for(key.code) == Command::Move(Direction::W),
        key.code == KeyCode::Right ==> spec_command_for(key.code) == Command::Move(Direction::E),
        key.code == KeyCode::Up ==> spec_command_for(key.code) == Command::Move(Direction::N),
        key.code == KeyCode::Down ==> spec_command_for(key.code) == Command::Move(Direction::S),
        spec_command_for(KeyCode::H) == spec_command_for(KeyCode::Left),
        spec_command_for(KeyCode::NumPad4) == spec_command_for(KeyCode::Left),
        spec_command_for(KeyCode::L) == spec_command_for(KeyCode::Right),
        spec_command_for(KeyCode::NumPad6) == spec_command_for(KeyCode::Right),
        spec_command_for(KeyCode::K) == spec_command_for(KeyCode::Up),
        spec_command_for(KeyCode::NumPad8) == spec_command_for(KeyCode::Up),
        spec_command_for(KeyCode::J) == spec_command_for(KeyCode::Down),
        spec_command_for(KeyCode::NumPad2) == spec_command_for(KeyCode::Down),
        spec_command_for(KeyCode::NumPad7) == Command::Move(Direction::NW),
        spec_command_for(KeyCode::NumPad9) == Command::Move(Direction::NE),
        spec_command_for(KeyCode::NumPad1) == Command::Move(Direction::SW),
        spec_command_for(KeyCode::NumPad3) == Command::Move(Direction::SE),
        key.code == KeyCode::Esc ==> spec_command_for(key.code) == Command::Quit,
{
}

impl Command {
    /// The command for a key press; modifier keys make no difference.
    pub fn from_key(key: Key) -> (c: Command)
        ensures
            c == spec_command_for(key.code),
    {
        match key {
            Key { code: KeyCode::Esc, .. } => Command::Quit,
            Key { code: KeyCode::Left, .. }
            | Key { code: KeyCode::H, .. }
            | Key { code: KeyCode::NumPad4, .. } => Command::Move(Direction::W),
            Key { code: KeyCode::Right, .. }
            | Key { code: KeyCode::L, .. }
            | Key { code: KeyCode::NumPad6, .. } => Command::Move(Direction::E),
            Key { code: KeyCode::Up, .. }
            | Key { code: KeyCode::K, .. }
            | Key { code: KeyCode::NumPad8, .. } => Command::Move(Direction::N),
            Key { code: KeyCode::Down, .. }
            | Key { code: KeyCode::J, .. }
            | Key { code: KeyCode::NumPad2, .. } => Command::Move(Direction::S),
            Key { code: KeyCode::NumPad1, .. } => Command::Move(Direction::SW),
            Key { code: KeyCode::NumPad3, .. } => Command::Move(Direction::SE),
            Key { code: KeyCode::NumPad7, .. } => Command::Move(Direction::NW),
            Key { code: KeyCode::NumPad9, .. } => Command::Move(Direction::NE),
            _ => Command::Wait,
        }
    }
}

} // verus!
