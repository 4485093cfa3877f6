//! Key codes, as curses reports them.

use vstd::prelude::*;

verus! {

/// No key was pressed in time.
pub const ERR: i32 = -1;

pub const KEY_BS: i32 = 8;

pub const KEY_LF: i32 = 10;

pub const KEY_CR: i32 = 13;

pub const KEY_ESC: i32 = 27;

pub const KEY_SPACE: i32 = 32;

pub const KEY_DEL: i32 = 127;

pub const KEY_DOWN: i32 = 258;

pub const KEY_UP: i32 = 259;

pub const KEY_LEFT: i32 = 260;

pub const KEY_RIGHT: i32 = 261;

pub const KEY_HOME: i32 = 262;

pub const KEY_BACKSPACE: i32 = 263;

pub const KEY_ENTER: i32 = 343;

pub const KEY_END: i32 = 360;

/// The lowercase letter that a key code stands for: those of the ASCII
/// letters, whatever their case.
pub open spec fn letter_of(key: i32) -> Option<char> {
    if 65 <= key <= 90 {
        Some((key + 32) as char)
    } else if 97 <= key <= 122 {
        Some(key as char)
    } else {
        None
    }
}

/// Lowercase ASCII letter for a key code, if it is one.
pub fn key_char(key: i32) -> (letter: Option<char>)
    ensures
        letter == letter_of(key),
{
    if 65 <= key && key <= 90 {
        Some((key + 32) as u8 as char)
    } else if 97 <= key && key <= 122 {
        Some(key as u8 as char)
    } else {
        None
    }
}

/// Whether a key confirms: Enter, in any of its codes.
pub open spec fn is_enter(key: i32) -> bool {
    key == KEY_LF || key == KEY_CR || key == KEY_ENTER
}

/// A letter means the same in either case.
pub proof fn law_case_is_folded(upper: i32)
    requires
        65 <= upper <= 90,
    ensures
        letter_of(upper) == letter_of((upper + 32) as i32),
        letter_of(upper) is Some,
{
}

/// No special key is a letter.
pub proof fn law_special_keys_are_no_letters(key: i32)
    requires
        key < 0 || key > 255,
    ensures
        letter_of(key) is None,
{
}

/// The codes of the keys are those of curses and ASCII.
pub proof fn law_keys_have_their_codes()
    ensures
        ERR == -1,
        KEY_BS == 8,
        KEY_LF == 10,
        KEY_CR == 13,
        KEY_ESC == 27,
        KEY_SPACE == 32,
        KEY_DEL == 127,
        KEY_DOWN == 0x102,
        KEY_UP == 0x103,
        KEY_LEFT == 0x104,
        KEY_RIGHT == 0x105,
        KEY_HOME == 0x106,
        KEY_BACKSPACE == 0x107,
        KEY_ENTER == 0x157,
        KEY_END == 0x168,
{
}

/// A key is a letter exactly if it is the code of that letter, small or capital.
pub proof fn law_letters_are_told_by_their_codes(key: i32, letter: char)
    ensures
        letter_of(key) == Some(letter) <==> 'a' <= letter <= 'z' && (key == letter as int || key
            == letter as int - 32),
{
}

/// Enter has three codes, and no other key confirms.
pub proof fn law_enter_has_three_codes(key: i32)
    ensures
        is_enter(key) <==> key == 10 || key == 13 || key == 343,
{
}

} // verus!
