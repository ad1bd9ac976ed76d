//! Keys as the game reads them, independent of the display backend.
use vstd::prelude::*;

verus! {

/// A key press: a key code and the modifiers held with it.
#[derive(Debug, Copy, Clone, PartialEq, Eq, Structural)]
pub struct Key {
    pub code: KeyCode,
    pub alt: bool,
    pub ctrl: bool,
    pub shift: bool,
}

#[derive(Debug, Copy, Clone, PartialEq, Eq, Structural)]
pub enum KeyCode {
    D1,
    D2,
    D3,
    D4,
    D5,
    D6,
    D7,
    D8,
    D9,
    D0,
    A,
    B,
    C,
    D,
    E,
    F,
    G,
    H,
    I,
    J,
    K,
    L,
    M,
    N,
    O,
    P,
    Q,
    R,
    S,
    T,
    U,
    V,
    W,
    X,
    Y,
    Z,
    NumPad0,
    NumPad1,
    NumPad2,
    NumPad3,
    NumPad4,
    NumPad5,
    NumPad6,
    NumPad7,
    NumPad8,
    NumPad9,
    F1,
    F2,
    F3,
    F4,
    F5,
    F6,
    F7,
    F8,
    F9,
    F10,
    F11,
    F12,
    Left,
    Right,
    Up,
    Down,
    Enter,
    Space,
    Esc,
    Tab,
    Backspace,
    Delete,
    Insert,
    Home,
    End,
    PageUp,
    PageDown,
    Unknown(char),
}

/// Which row of numbered keys a digit names.
#[derive(Debug, Copy, Clone, PartialEq, Eq, Structural)]
pub enum NumkeyType {
    Digit,
    NumPad,
    Function,
}

/// Whether `c` is numeric in the Unicode sense (general categories Nd, Nl, No).
pub uninterp spec fn unicode_is_numeric(c: char) -> bool;

/// Whether `c` is uppercase in the Unicode sense.
pub uninterp spec fn unicode_is_uppercase(c: char) -> bool;

/// The first character of the Unicode lowercase mapping of `c`.
pub uninterp spec fn unicode_lowercase_first(c: char) -> char;

/// Calls `char::is_numeric`. Claims that the result is the Unicode
/// numeric property of `c`, and that among ASCII characters exactly the
/// decimal digits are numeric.
#[verifier::external_body]
fn char_is_numeric(c: char) -> (b: bool)
    ensures
        b == unicode_is_numeric(c),
        (c as u32) < 128 ==> (b <==> ('0' <= c && c <= '9')),
{
    c.is_numeric()
}

/// Calls `char::is_uppercase`. Claims that the result is the Unicode
/// uppercase property of `c`, and that among ASCII characters exactly
/// `A` to `Z` are uppercase.
#[verifier::external_body]
fn char_is_uppercase(c: char) -> (b: bool)
    ensures
        b == unicode_is_uppercase(c),
        (c as u32) < 128 ==> (b <==> ('A' <= c && c <= 'Z')),
{
    c.is_uppercase()
}

/// The value of an ASCII decimal digit, and `None` for every other
/// character: what `char::to_digit` gives with radix 10.
fn char_to_decimal_digit(c: char) -> (d: Option<u32>)
    ensures
        d == (if '0' <= c && c <= '9' {
            Some((c as u32 - '0' as u32) as u32)
        } else {
            None
        }),
{
    if '0' <= c && c <= '9' {
        Some(c as u32 - '0' as u32)
    } else {
        None
    }
}

/// Calls `char::to_lowercase` and takes the first character, which always
/// exists. Claims that it is the first character of the lowercase mapping,
/// which for ASCII letters `A` to `Z` is the matching small letter, and for
/// every other ASCII character is the character itself.
#[verifier::external_body]
fn char_lowercase_first(c: char) -> (l: Option<char>)
    ensures
        l == Some(unicode_lowercase_first(c)),
        (c as u32) < 128 ==> l == Some(
            if 'A' <= c && c <= 'Z' {
                (c as u32 + 32) as char
            } else {
                c
            },
        ),
{
    c.to_lowercase().next()
}

/// The key code of a numbered key, or `Unknown` of the digit's low byte.
pub open spec fn spec_numkey_code(digit: u32, type_: NumkeyType) -> KeyCode {
    match type_ {
        NumkeyType::Digit => {
            if digit == 1 {
                KeyCode::D1
            } else if digit == 2 {
                KeyCode::D2
            } else if digit == 3 {
                KeyCode::D3
            } else if digit == 4 {
                KeyCode::D4
            } else if digit == 5 {
                KeyCode::D5
            } else if digit == 6 {
                KeyCode::D6
            } else if digit == 7 {
                KeyCode::D7
            } else if digit == 8 {
                KeyCode::D8
            } else if digit == 9 {
                KeyCode::D9
            } else if digit == 0 {
                KeyCode::D0
            } else {
                KeyCode::Unknown(((digit as u8) as u32) as char)
            }
        },
        NumkeyType::NumPad => {
            if digit == 1 {
                KeyCode::NumPad1
            } else if digit == 2 {
                KeyCode::NumPad2
            } else if digit == 3 {
                KeyCode::NumPad3
            } else if digit == 4 {
                KeyCode::NumPad4
            } else if digit == 5 {
                KeyCode::NumPad5
            } else if digit == 6 {
                KeyCode::NumPad6
            } else if digit == 7 {
                KeyCode::NumPad7
            } else if digit == 8 {
                KeyCode::NumPad8
            } else if digit == 9 {
                KeyCode::NumPad9
            } else if digit == 0 {
                KeyCode::NumPad0
            } else {
                KeyCode::Unknown(((digit as u8) as u32) as char)
            }
        },
        NumkeyType::Function => {
            if digit == 1 {
                KeyCode::F1
            } else if digit == 2 {
                KeyCode::F2
            } else if digit == 3 {
                KeyCode::F3
            } else if digit == 4 {
                KeyCode::F4
            } else if digit == 5 {
                KeyCode::F5
            } else if digit == 6 {
                KeyCode::F6
            } else if digit == 7 {
                KeyCode::F7
            } else if digit == 8 {
                KeyCode::F8
            } else if digit == 9 {
                KeyCode::F9
            } else if digit == 10 {
                KeyCode::F10
            } else if digit == 11 {
                KeyCode::F11
            } else if digit == 12 {
                KeyCode::F12
            } else {
                KeyCode::Unknown(((digit as u8) as u32) as char)
            }
        },
    }
}

/// The key code of a letter key, for the small letters `a` to `z`.
pub open spec fn spec_letter_code(c: char) -> Option<KeyCode> {
    if c == 'a' {
        Some(KeyCode::A)
    } else if c == 'b' {
        Some(KeyCode::B)
    } else if c == 'c' {
        Some(KeyCode::C)
    } else if c == 'd' {
        Some(KeyCode::D)
    } else if c == 'e' {
        Some(KeyCode::E)
    } else if c == 'f' {
        Some(KeyCode::F)
    } else if c == 'g' {
        Some(KeyCode::G)
    } else if c == 'h' {
        Some(KeyCode::H)
    } else if c == 'i' {
        Some(KeyCode::I)
    } else if c == 'j' {
        Some(KeyCode::J)
    } else if c == 'k' {
        Some(KeyCode::K)
    } else if c == 'l' {
        Some(KeyCode::L)
    } else if c == 'm' {
        Some(KeyCode::M)
    } else if c == 'n' {
        Some(KeyCode::N)
    } else if c == 'o' {
        Some(KeyCode::O)
    } else if c == 'p' {
        Some(KeyCode::P)
    } else if c == 'q' {
        Some(KeyCode::Q)
    } else if c == 'r' {
        Some(KeyCode::R)
    } else if c == 's' {
        Some(KeyCode::S)
    } else if c == 't' {
        Some(KeyCode::T)
    } else if c == 'u' {
        Some(KeyCode::U)
    } else if c == 'v' {
        Some(KeyCode::V)
    } else if c == 'w' {
        Some(KeyCode::W)
    } else if c == 'x' {
        Some(KeyCode::X)
    } else if c == 'y' {
        Some(KeyCode::Y)
    } else if c == 'z' {
        Some(KeyCode::Z)
    } else {
        None
    }
}

/// The key code a typed character stands for: digits name the digit row,
/// letters of either case name their letter key, anything else is
/// `Unknown` of its lowercase form.
pub open spec fn spec_code_of_char(ch: char) -> KeyCode {
    if '0' <= ch && ch <= '9' {
        spec_numkey_code((ch as u32 - '0' as u32) as u32, NumkeyType::Digit)
    } else {
        match spec_letter_code(unicode_lowercase_first(ch)) {
            Some(code) => code,
            None => KeyCode::Unknown(unicode_lowercase_first(ch)),
        }
    }
}

/// The key code of an ASCII character, in plain terms: a digit has its
/// digit code, a letter of either case its letter code, and any other
/// character is `Unknown` of itself.
pub open spec fn ascii_code(ch: char) -> KeyCode {
    if '0' <= ch && ch <= '9' {
        spec_numkey_code((ch as u32 - '0' as u32) as u32, NumkeyType::Digit)
    } else {
        let lower = if 'A' <= ch && ch <= 'Z' {
            (ch as u32 + 32) as char
        } else {
            ch
        };
        match spec_letter_code(lower) {
            Some(code) => code,
            None => KeyCode::Unknown(lower),
        }
    }
}

/// The characters whose key code can be read: the numeric ones must be
/// ASCII decimal digits.
pub open spec fn char_has_key_code(ch: char) -> bool {
    unicode_is_numeric(ch) ==> ('0' <= ch && ch <= '9')
}

fn letter_code(c: char) -> (code: Option<KeyCode>)
    ensures
        code == spec_letter_code(c),
{
    match c {
        'a' => Some(KeyCode::A),
        'b' => Some(KeyCode::B),
        'c' => Some(KeyCode::C),
        'd' => Some(KeyCode::D),
        'e' => Some(KeyCode::E),
        'f' => Some(KeyCode::F),
        'g' => Some(KeyCode::G),
        'h' => Some(KeyCode::H),
        'i' => Some(KeyCode::I),
        'j' => Some(KeyCode::J),
        'k' => Some(KeyCode::K),
        'l' => Some(KeyCode::L),
        'm' => Some(KeyCode::M),
        'n' => Some(KeyCode::N),
        'o' => Some(KeyCode::O),
        'p' => Some(KeyCode::P),
        'q' => Some(KeyCode::Q),
        'r' => Some(KeyCode::R),
        's' => Some(KeyCode::S),
        't' => Some(KeyCode::T),
        'u' => Some(KeyCode::U),
        'v' => Some(KeyCode::V),
        'w' => Some(KeyCode::W),
        'x' => Some(KeyCode::X),
        'y' => Some(KeyCode::Y),
        'z' => Some(KeyCode::Z),
        _ => None,
    }
}

/// The key code of a typed character, where it has one.
pub fn keycode_from_char(ch: char) -> (code: Option<KeyCode>)
    ensures
        code == (if char_has_key_code(ch) {
            Some(spec_code_of_char(ch))
        } else {
            None
        }),
        (ch as u32) < 128 ==> code == Some(ascii_code(ch)),
{
    if char_is_numeric(ch) && char_to_decimal_digit(ch).is_none() {
        None
    } else {
        Some(KeyCode::from_char(ch))
    }
}

impl KeyCode {
    /// The key code a typed character stands for.
    pub fn from_char(ch: char) -> (code: KeyCode)
        requires
            char_has_key_code(ch),
        ensures
            code == spec_code_of_char(ch),
            (ch as u32) < 128 ==> code == ascii_code(ch),
    {
        if char_is_numeric(ch) {
            let numeric_ch = char_to_decimal_digit(ch).unwrap();
            return Key::numkey_code_from_digit(numeric_ch, NumkeyType::Digit);
        }
        // Lowercasing in Rust returns an iterator, making this match necessary.
        let ch_lower_iter = char_lowercase_first(ch);

        match ch_lower_iter {
            Some(ch_lower) => match letter_code(ch_lower) {
                Some(code) => code,
                None => KeyCode::Unknown(ch_lower),
            },
            None => KeyCode::Unknown(ch),
        }
    }
}

impl Key {
    pub fn numkey_code_from_digit(digit: u32, type_: NumkeyType) -> (code: KeyCode)
        ensures
            code == spec_numkey_code(digit, type_),
    {
        let unknown = KeyCode::Unknown((digit as u8) as char);
        match type_ {
            NumkeyType::Digit => match digit {
                1 => KeyCode::D1,
                2 => KeyCode::D2,
                3 => KeyCode::D3,
                4 => KeyCode::D4,
                5 => KeyCode::D5,
                6 => KeyCode::D6,
                7 => KeyCode::D7,
                8 => KeyCode::D8,
                9 => KeyCode::D9,
                0 => KeyCode::D0,
                _ => unknown,
            },
            NumkeyType::NumPad => match digit {
                1 => KeyCode::NumPad1,
                2 => KeyCode::NumPad2,
                3 => KeyCode::NumPad3,
                4 => KeyCode::NumPad4,
                5 => KeyCode::NumPad5,
                6 => KeyCode::NumPad6,
                7 => KeyCode::NumPad7,
                8 => KeyCode::NumPad8,
                9 => KeyCode::NumPad9,
                0 => KeyCode::NumPad0,
                _ => unknown,
            },
            NumkeyType::Function => match digit {
                1 => KeyCode::F1,
                2 => KeyCode::F2,
                3 => KeyCode::F3,
                4 => KeyCode::F4,
                5 => KeyCode::F5,
                6 => KeyCode::F6,
                7 => KeyCode::F7,
                8 => KeyCode::F8,
                9 => KeyCode::F9,
                10 => KeyCode::F10,
                11 => KeyCode::F11,
                12 => KeyCode::F12,
                _ => unknown,
            },
        }
    }

    /// A key press of `code` with no modifier held.
    pub fn from_code(code: KeyCode) -> (key: Key)
        ensures
            key == (Key { code: code, alt: false, ctrl: false, shift: false }),
    {
        Key { code: code, ..Default::default() }
    }

    /// The key press that types `ch`: shift is held for uppercase characters.
    pub fn from_char(ch: char) -> (key: Key)
        requires
            char_has_key_code(ch),
        ensures
            key == (Key {
                code: spec_code_of_char(ch),
                alt: false,
                ctrl: false,
                shift: unicode_is_uppercase(ch),
            }),
            (ch as u32) < 128 ==> key == (Key {
                code: ascii_code(ch),
                alt: false,
                ctrl: false,
                shift: 'A' <= ch && ch <= 'Z',
            }),
    {
        let mut shift = false;
        if char_is_uppercase(ch) {
            shift = true;
        }

        let keycode = KeyCode::from_char(ch);  // Or unknown

        let mut key = Key::from_code(keycode);
        key.shift = shift;
        key
    }
}

impl Key {
    /// The key press that types `ch`, where `ch` has a key code: `None` for a
    /// numeric character that is not an ASCII digit.
    pub fn from_char_checked(ch: char) -> (key: Option<Key>)
        ensures
            key == (if char_has_key_code(ch) {
                Some(
                    Key {
                        code: spec_code_of_char(ch),
                        alt: false,
                        ctrl: false,
                        shift: unicode_is_uppercase(ch),
                    },
                )
            } else {
                None
            }),
            (ch as u32) < 128 ==> key == Some(
                Key { code: ascii_code(ch), alt: false, ctrl: false, shift: 'A' <= ch && ch <= 'Z' },
            ),
    {
        if char_is_numeric(ch) && char_to_decimal_digit(ch).is_none() {
            None
        } else {
            Some(Key::from_char(ch))
        }
    }
}

impl Default for Key {
    fn default() -> (key: Key)
        ensures
            key == (Key { code: KeyCode::Unknown(' '), alt: false, ctrl: false, shift: false }),
    {
        Key { code: KeyCode::Unknown(' '), alt: false, ctrl: false, shift: false }
    }
}

impl From<KeyCode> for Key {
    fn from(code: KeyCode) -> (key: Key) {
        Key::from_code(code)
    }
}

impl vstd::std_specs::convert::FromSpecImpl<KeyCode> for Key {
    open spec fn obeys_from_spec() -> bool {
        true
    }

    open spec fn from_spec(code: KeyCode) -> Key {
        Key { code: code, alt: false, ctrl: false, shift: false }
    }
}

} // verus!
