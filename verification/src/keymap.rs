//! Numeric key references in layout files: decimal virtual-key numbers and hex scan codes.
use vstd::prelude::*;

use crate::grid::physical_keys;
use crate::keys::{KeyCode, KeyboardLayout};

verus! {

/// Decimal virtual-key numbers used by layer triggers.
pub open spec fn numeric_vk_key(num: u32) -> Option<KeyCode> {
    match num {
        20 => Some(KeyCode::CapsLock),
        21 => Some(KeyCode::KanaKatakana),
        28 => Some(KeyCode::Henkan),
        29 => Some(KeyCode::Muhenkan),
        _ => None,
    }
}

/// The key of a decimal virtual-key number.
pub fn keycode_from_numeric_vk(num: u32) -> (r: Option<KeyCode>)
    ensures
        r == numeric_vk_key(num),
{
    match num {
        20 => Some(KeyCode::CapsLock),
        21 => Some(KeyCode::KanaKatakana),
        28 => Some(KeyCode::Henkan),
        29 => Some(KeyCode::Muhenkan),
        _ => None,
    }
}

/// PC/AT set-1 scan codes of the alphanumeric block, plus the extra JIS key (0x73).
pub open spec fn scancode_key(code: u32) -> Option<KeyCode> {
    match code {
        0x02 => Some(KeyCode::Num1),
        0x03 => Some(KeyCode::Num2),
        0x04 => Some(KeyCode::Num3),
        0x05 => Some(KeyCode::Num4),
        0x06 => Some(KeyCode::Num5),
        0x07 => Some(KeyCode::Num6),
        0x08 => Some(KeyCode::Num7),
        0x09 => Some(KeyCode::Num8),
        0x0A => Some(KeyCode::Num9),
        0x0B => Some(KeyCode::Num0),
        0x0C => Some(KeyCode::Minus),
        0x0D => Some(KeyCode::Equal),
        0x10 => Some(KeyCode::Q),
        0x11 => Some(KeyCode::W),
        0x12 => Some(KeyCode::E),
        0x13 => Some(KeyCode::R),
        0x14 => Some(KeyCode::T),
        0x15 => Some(KeyCode::Y),
        0x16 => Some(KeyCode::U),
        0x17 => Some(KeyCode::I),
        0x18 => Some(KeyCode::O),
        0x19 => Some(KeyCode::P),
        0x1A => Some(KeyCode::LBracket),
        0x1B => Some(KeyCode::RBracket),
        0x1E => Some(KeyCode::A),
        0x1F => Some(KeyCode::S),
        0x20 => Some(KeyCode::D),
        0x21 => Some(KeyCode::F),
        0x22 => Some(KeyCode::G),
        0x23 => Some(KeyCode::H),
        0x24 => Some(KeyCode::J),
        0x25 => Some(KeyCode::K),
        0x26 => Some(KeyCode::L),
        0x27 => Some(KeyCode::Semicolon),
        0x28 => Some(KeyCode::Quote),
        0x2B => Some(KeyCode::Backslash),
        0x2C => Some(KeyCode::Z),
        0x2D => Some(KeyCode::X),
        0x2E => Some(KeyCode::C),
        0x2F => Some(KeyCode::V),
        0x30 => Some(KeyCode::B),
        0x31 => Some(KeyCode::N),
        0x32 => Some(KeyCode::M),
        0x33 => Some(KeyCode::Comma),
        0x34 => Some(KeyCode::Dot),
        0x35 => Some(KeyCode::Slash),
        0x39 => Some(KeyCode::Space),
        0x73 => Some(KeyCode::Backslash),
        _ => None,
    }
}

/// The key of a scan code.
pub fn keycode_from_scancode(code: u32) -> (r: Option<KeyCode>)
    ensures
        r == scancode_key(code),
{
    match code {
        0x02 => Some(KeyCode::Num1),
        0x03 => Some(KeyCode::Num2),
        0x04 => Some(KeyCode::Num3),
        0x05 => Some(KeyCode::Num4),
        0x06 => Some(KeyCode::Num5),
        0x07 => Some(KeyCode::Num6),
        0x08 => Some(KeyCode::Num7),
        0x09 => Some(KeyCode::Num8),
        0x0A => Some(KeyCode::Num9),
        0x0B => Some(KeyCode::Num0),
        0x0C => Some(KeyCode::Minus),
        0x0D => Some(KeyCode::Equal),
        0x10 => Some(KeyCode::Q),
        0x11 => Some(KeyCode::W),
        0x12 => Some(KeyCode::E),
        0x13 => Some(KeyCode::R),
        0x14 => Some(KeyCode::T),
        0x15 => Some(KeyCode::Y),
        0x16 => Some(KeyCode::U),
        0x17 => Some(KeyCode::I),
        0x18 => Some(KeyCode::O),
        0x19 => Some(KeyCode::P),
        0x1A => Some(KeyCode::LBracket),
        0x1B => Some(KeyCode::RBracket),
        0x1E => Some(KeyCode::A),
        0x1F => Some(KeyCode::S),
        0x20 => Some(KeyCode::D),
        0x21 => Some(KeyCode::F),
        0x22 => Some(KeyCode::G),
        0x23 => Some(KeyCode::H),
        0x24 => Some(KeyCode::J),
        0x25 => Some(KeyCode::K),
        0x26 => Some(KeyCode::L),
        0x27 => Some(KeyCode::Semicolon),
        0x28 => Some(KeyCode::Quote),
        0x2B => Some(KeyCode::Backslash),
        0x2C => Some(KeyCode::Z),
        0x2D => Some(KeyCode::X),
        0x2E => Some(KeyCode::C),
        0x2F => Some(KeyCode::V),
        0x30 => Some(KeyCode::B),
        0x31 => Some(KeyCode::N),
        0x32 => Some(KeyCode::M),
        0x33 => Some(KeyCode::Comma),
        0x34 => Some(KeyCode::Dot),
        0x35 => Some(KeyCode::Slash),
        0x39 => Some(KeyCode::Space),
        0x73 => Some(KeyCode::Backslash),
        _ => None,
    }
}


/// First set-1 scan code of each key row (number row, then the three letter rows).
pub open spec fn set1_row_start(row: int) -> int {
    if row == 0 {
        0x02
    } else if row == 1 {
        0x10
    } else if row == 2 {
        0x1E
    } else {
        0x2C
    }
}

/// Number of keys of a row that have consecutive set-1 scan codes.
pub open spec fn set1_row_len(row: int) -> int {
    if row == 0 {
        12
    } else if row == 1 {
        12
    } else if row == 2 {
        11
    } else {
        10
    }
}

/// Set-1 scan codes run along the key rows: the code of a row's first key
/// plus the column names the key at that column of the US board, and so of
/// the JIS board wherever the two boards have the same key there.
pub proof fn law_scan_codes_follow_rows(row: int, col: int)
    requires
        0 <= row < 4,
        0 <= col < set1_row_len(row),
    ensures
        scancode_key((set1_row_start(row) + col) as u32) == Some(physical_keys(row, KeyboardLayout::Us)[col]),
        physical_keys(row, KeyboardLayout::Jis)[col] == physical_keys(row, KeyboardLayout::Us)[col]
            ==> scancode_key((set1_row_start(row) + col) as u32) == Some(physical_keys(row, KeyboardLayout::Jis)[col]),
{
    if col == 0 {} else if col == 1 {} else if col == 2 {} else if col == 3 {} else if col == 4 {}
    else if col == 5 {} else if col == 6 {} else if col == 7 {} else if col == 8 {} else if col == 9 {}
    else if col == 10 {} else {}
}

} // verus!
