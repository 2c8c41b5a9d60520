//! Keys and keyboard events, as far as the game tells them apart.

use vstd::prelude::*;

verus! {

/// A key of the keyboard: the twenty-six letter keys, and the yen key, which
/// stands for every character that is not a lowercase letter.
#[derive(Clone, Copy, Debug, PartialEq, Eq, Structural)]
pub enum KeyCode {
    A, B, C, D, E, F, G, H, I, J, K, L, M,
    N, O, P, Q, R, S, T, U, V, W, X, Y, Z,
    Yen,
}

/// Whether a key went down or came up.
#[derive(Clone, Copy, Debug, PartialEq, Eq, Structural)]
pub enum ButtonState {
    Pressed,
    Released,
}

/// One keyboard event.
#[derive(Clone, Copy, Debug, PartialEq, Eq)]
pub struct KeyboardInput {
    /// The key, where it is one that `KeyCode` names.
    pub key_code: Option<KeyCode>,
    /// What happened to it.
    pub state: ButtonState,
}

/// The lowercase letters `'a'` to `'z'`.
pub open spec fn is_letter(c: char) -> bool {
    'a' <= c <= 'z'
}

/// The letter keys in alphabetical order.
pub open spec fn letter_keys() -> Seq<KeyCode> {
    seq![
        KeyCode::A, KeyCode::B, KeyCode::C, KeyCode::D, KeyCode::E, KeyCode::F, KeyCode::G,
        KeyCode::H, KeyCode::I, KeyCode::J, KeyCode::K, KeyCode::L, KeyCode::M, KeyCode::N,
        KeyCode::O, KeyCode::P, KeyCode::Q, KeyCode::R, KeyCode::S, KeyCode::T, KeyCode::U,
        KeyCode::V, KeyCode::W, KeyCode::X, KeyCode::Y, KeyCode::Z,
    ]
}

/// The key that types `c`: for a lowercase letter its place in the alphabet
/// picks the key, every other character has the yen key.
pub open spec fn keycode_of(c: char) -> KeyCode {
    if is_letter(c) {
        letter_keys()[c as int - 'a' as int]
    } else {
        KeyCode::Yen
    }
}

/// The key that the player must press for `c`.
pub fn get_char_keycode(c: char) -> (key: KeyCode)
    ensures
        key == keycode_of(c),
{
    match c {
        'a' => KeyCode::A,
        'b' => KeyCode::B,
        'c' => KeyCode::C,
        'd' => KeyCode::D,
        'e' => KeyCode::E,
        'f' => KeyCode::F,
        'g' => KeyCode::G,
        'h' => KeyCode::H,
        'i' => KeyCode::I,
        'j' => KeyCode::J,
        'k' => KeyCode::K,
        'l' => KeyCode::L,
        'm' => KeyCode::M,
        'n' => KeyCode::N,
        'o' => KeyCode::O,
        'p' => KeyCode::P,
        'q' => KeyCode::Q,
        'r' => KeyCode::R,
        's' => KeyCode::S,
        't' => KeyCode::T,
        'u' => KeyCode::U,
        'v' => KeyCode::V,
        'w' => KeyCode::W,
        'x' => KeyCode::X,
        'y' => KeyCode::Y,
        'z' => KeyCode::Z,
        _ => KeyCode::Yen,
    }
}

/// Two lowercase letters with the same key are the same letter, and no
/// lowercase letter has the yen key.
pub proof fn lemma_letter_keys_distinct(a: char, b: char)
    requires
        is_letter(a),
        is_letter(b),
    ensures
        keycode_of(a) == keycode_of(b) ==> a == b,
        keycode_of(a) != KeyCode::Yen,
{
}

} // verus!
