//! Physical keys, modifier sets and keyboard layouts.
use vstd::prelude::*;

use crate::text::same_chars;

verus! {

/// A physical key.
#[derive(Clone, Copy, Debug, PartialEq, Eq, Hash, Structural)]
pub enum KeyCode {
    A,
    B,
    C,
    D,
    E,
    F,
    G,
    H,
    I,
    J,
    K,
    L,
    M,
    N,
    O,
    P,
    Q,
    R,
    S,
    T,
    U,
    V,
    W,
    X,
    Y,
    Z,
    Num0,
    Num1,
    Num2,
    Num3,
    Num4,
    Num5,
    Num6,
    Num7,
    Num8,
    Num9,
    Minus,
    Equal,
    LBracket,
    RBracket,
    Backslash,
    Semicolon,
    Quote,
    Comma,
    Dot,
    Slash,
    Grave,
    Space,
    Enter,
    Tab,
    CapsLock,
    KanaKatakana,
    Henkan,
    Muhenkan,
    HankakuZenkaku,
    ShiftL,
    ShiftR,
    CtrlL,
    CtrlR,
    AltL,
    AltR,
    MetaL,
    MetaR,
    Yen,
    Caret,
    Colon,
    AtSign,
    /// A key without a name of its own, carrying the character (or code) it came from.
    Unknown(u32),
}

/// A set of modifier keys, as bits.
#[derive(Clone, Copy, Debug, PartialEq, Eq, Hash, Structural)]
pub struct Modifiers {
    pub bits: u8,
}

pub open spec fn no_mods() -> Modifiers {
    Modifiers { bits: 0 }
}

pub open spec fn shift_mod() -> Modifiers {
    Modifiers { bits: 1 }
}

impl Modifiers {
    /// No modifier.
    pub fn empty() -> (m: Modifiers)
        ensures
            m == no_mods(),
    {
        Modifiers { bits: 0 }
    }

    /// Shift alone.
    pub fn shift() -> (m: Modifiers)
        ensures
            m == shift_mod(),
    {
        Modifiers { bits: 1 }
    }
}

/// The physical keyboard a layout file is written for.
#[derive(Clone, Copy, Debug, PartialEq, Eq, Hash, Structural)]
pub enum KeyboardLayout {
    /// US / ANSI 104.
    Us,
    /// JIS / OADG 109A.
    Jis,
}

pub open spec fn is_ascii_upper(c: char) -> bool {
    'A' <= c <= 'Z'
}

pub open spec fn is_ascii_lower(c: char) -> bool {
    'a' <= c <= 'z'
}

pub open spec fn is_ascii_digit(c: char) -> bool {
    '0' <= c <= '9'
}

pub open spec fn is_ascii_alpha(c: char) -> bool {
    is_ascii_upper(c) || is_ascii_lower(c)
}

pub open spec fn is_ascii_alnum(c: char) -> bool {
    is_ascii_alpha(c) || is_ascii_digit(c)
}

/// `char::to_ascii_lowercase`.
pub open spec fn to_ascii_lower(c: char) -> char {
    if is_ascii_upper(c) {
        ((c as u32) + 32) as char
    } else {
        c
    }
}

pub fn to_ascii_lower_exec(c: char) -> (r: char)
    ensures
        r == to_ascii_lower(c),
{
    if 'A' <= c && c <= 'Z' {
        let u = (c as u32) + 32;
        assert(0x61 <= u <= 0x7a);
        char_from_ascii(u)
    } else {
        c
    }
}

/// The character with an ASCII code.
pub fn char_from_ascii(u: u32) -> (c: char)
    requires
        u < 0x80,
    ensures
        c == u as char,
        c as u32 == u,
{
    let b = u as u8;
    b as char
}

/// The key that types an ASCII character, after folding letters to lower case.
pub open spec fn ascii_key(c: char) -> KeyCode {
    let l = to_ascii_lower(c);
    if l == 'a' { KeyCode::A }
    else if l == 'b' { KeyCode::B }
    else if l == 'c' { KeyCode::C }
    else if l == 'd' { KeyCode::D }
    else if l == 'e' { KeyCode::E }
    else if l == 'f' { KeyCode::F }
    else if l == 'g' { KeyCode::G }
    else if l == 'h' { KeyCode::H }
    else if l == 'i' { KeyCode::I }
    else if l == 'j' { KeyCode::J }
    else if l == 'k' { KeyCode::K }
    else if l == 'l' { KeyCode::L }
    else if l == 'm' { KeyCode::M }
    else if l == 'n' { KeyCode::N }
    else if l == 'o' { KeyCode::O }
    else if l == 'p' { KeyCode::P }
    else if l == 'q' { KeyCode::Q }
    else if l == 'r' { KeyCode::R }
    else if l == 's' { KeyCode::S }
    else if l == 't' { KeyCode::T }
    else if l == 'u' { KeyCode::U }
    else if l == 'v' { KeyCode::V }
    else if l == 'w' { KeyCode::W }
    else if l == 'x' { KeyCode::X }
    else if l == 'y' { KeyCode::Y }
    else if l == 'z' { KeyCode::Z }
    else if l == '0' { KeyCode::Num0 }
    else if l == '1' { KeyCode::Num1 }
    else if l == '2' { KeyCode::Num2 }
    else if l == '3' { KeyCode::Num3 }
    else if l == '4' { KeyCode::Num4 }
    else if l == '5' { KeyCode::Num5 }
    else if l == '6' { KeyCode::Num6 }
    else if l == '7' { KeyCode::Num7 }
    else if l == '8' { KeyCode::Num8 }
    else if l == '9' { KeyCode::Num9 }
    else if l == '-' { KeyCode::Minus }
    else if l == '=' { KeyCode::Equal }
    else if l == '[' { KeyCode::LBracket }
    else if l == ']' { KeyCode::RBracket }
    else if l == '\\' { KeyCode::Backslash }
    else if l == ';' { KeyCode::Semicolon }
    else if l == '\'' { KeyCode::Quote }
    else if l == ',' { KeyCode::Comma }
    else if l == '.' { KeyCode::Dot }
    else if l == '/' { KeyCode::Slash }
    else if l == '`' { KeyCode::Grave }
    else if l == ' ' { KeyCode::Space }
    else if l == '\n' { KeyCode::Enter }
    else if l == '\t' { KeyCode::Tab }
    else { KeyCode::Unknown(c as u32) }
}

/// The key that types `c` (`Unknown` when there is none).
pub fn ascii_to_keycode(c: char) -> (k: KeyCode)
    ensures
        k == ascii_key(c),
{
    let l = to_ascii_lower_exec(c);
    match l {
        'a' => KeyCode::A,
        'b' => KeyCode::B,
        'c' => KeyCode::C,
        'd' => KeyCode::D,
        'e' => KeyCode::E,
        'f' => KeyCode::F,
        'g' => KeyCode::G,
        'h' => KeyCode::H,
        'i' => KeyCode::I,
        'j' => KeyCode::J,
        'k' => KeyCode::K,
        'l' => KeyCode::L,
        'm' => KeyCode::M,
        'n' => KeyCode::N,
        'o' => KeyCode::O,
        'p' => KeyCode::P,
        'q' => KeyCode::Q,
        'r' => KeyCode::R,
        's' => KeyCode::S,
        't' => KeyCode::T,
        'u' => KeyCode::U,
        'v' => KeyCode::V,
        'w' => KeyCode::W,
        'x' => KeyCode::X,
        'y' => KeyCode::Y,
        'z' => KeyCode::Z,
        '0' => KeyCode::Num0,
        '1' => KeyCode::Num1,
        '2' => KeyCode::Num2,
        '3' => KeyCode::Num3,
        '4' => KeyCode::Num4,
        '5' => KeyCode::Num5,
        '6' => KeyCode::Num6,
        '7' => KeyCode::Num7,
        '8' => KeyCode::Num8,
        '9' => KeyCode::Num9,
        '-' => KeyCode::Minus,
        '=' => KeyCode::Equal,
        '[' => KeyCode::LBracket,
        ']' => KeyCode::RBracket,
        '\\' => KeyCode::Backslash,
        ';' => KeyCode::Semicolon,
        '\'' => KeyCode::Quote,
        ',' => KeyCode::Comma,
        '.' => KeyCode::Dot,
        '/' => KeyCode::Slash,
        '`' => KeyCode::Grave,
        ' ' => KeyCode::Space,
        '\n' => KeyCode::Enter,
        '\t' => KeyCode::Tab,
        _ => KeyCode::Unknown(c as u32),
    }
}

/// Rank of a key in a layer-key list; lists of layer keys are kept sorted by it.
pub open spec fn layer_rank(k: KeyCode) -> int {
    match k {
        KeyCode::Space => 1,
        KeyCode::ShiftL => 2,
        KeyCode::ShiftR => 3,
        KeyCode::CtrlL => 4,
        KeyCode::CtrlR => 5,
        KeyCode::AltL => 6,
        KeyCode::AltR => 7,
        KeyCode::MetaL => 8,
        KeyCode::MetaR => 9,
        KeyCode::Muhenkan => 10,
        KeyCode::Henkan => 11,
        KeyCode::KanaKatakana => 12,
        KeyCode::HankakuZenkaku => 13,
        KeyCode::Yen => 14,
        KeyCode::Caret => 15,
        KeyCode::Colon => 16,
        KeyCode::AtSign => 17,
        KeyCode::Unknown(_) => 200,
        _ => 100,
    }
}

/// Executable `layer_rank`.
pub fn key_sort(k: KeyCode) -> (r: u16)
    ensures
        r == layer_rank(k),
{
    match k {
        KeyCode::Space => 1,
        KeyCode::ShiftL => 2,
        KeyCode::ShiftR => 3,
        KeyCode::CtrlL => 4,
        KeyCode::CtrlR => 5,
        KeyCode::AltL => 6,
        KeyCode::AltR => 7,
        KeyCode::MetaL => 8,
        KeyCode::MetaR => 9,
        KeyCode::Muhenkan => 10,
        KeyCode::Henkan => 11,
        KeyCode::KanaKatakana => 12,
        KeyCode::HankakuZenkaku => 13,
        KeyCode::Yen => 14,
        KeyCode::Caret => 15,
        KeyCode::Colon => 16,
        KeyCode::AtSign => 17,
        KeyCode::Unknown(_) => 200,
        _ => 100,
    }
}

/// Position of a key in the canonical order of chords: declaration order,
/// with `Unknown` keys after all named ones, by their code.
pub open spec fn key_ordinal(k: KeyCode) -> int {
    match k {
        KeyCode::A => 0,
        KeyCode::B => 1,
        KeyCode::C => 2,
        KeyCode::D => 3,
        KeyCode::E => 4,
        KeyCode::F => 5,
        KeyCode::G => 6,
        KeyCode::H => 7,
        KeyCode::I => 8,
        KeyCode::J => 9,
        KeyCode::K => 10,
        KeyCode::L => 11,
        KeyCode::M => 12,
        KeyCode::N => 13,
        KeyCode::O => 14,
        KeyCode::P => 15,
        KeyCode::Q => 16,
        KeyCode::R => 17,
        KeyCode::S => 18,
        KeyCode::T => 19,
        KeyCode::U => 20,
        KeyCode::V => 21,
        KeyCode::W => 22,
        KeyCode::X => 23,
        KeyCode::Y => 24,
        KeyCode::Z => 25,
        KeyCode::Num0 => 26,
        KeyCode::Num1 => 27,
        KeyCode::Num2 => 28,
        KeyCode::Num3 => 29,
        KeyCode::Num4 => 30,
        KeyCode::Num5 => 31,
        KeyCode::Num6 => 32,
        KeyCode::Num7 => 33,
        KeyCode::Num8 => 34,
        KeyCode::Num9 => 35,
        KeyCode::Minus => 36,
        KeyCode::Equal => 37,
        KeyCode::LBracket => 38,
        KeyCode::RBracket => 39,
        KeyCode::Backslash => 40,
        KeyCode::Semicolon => 41,
        KeyCode::Quote => 42,
        KeyCode::Comma => 43,
        KeyCode::Dot => 44,
        KeyCode::Slash => 45,
        KeyCode::Grave => 46,
        KeyCode::Space => 47,
        KeyCode::Enter => 48,
        KeyCode::Tab => 49,
        KeyCode::CapsLock => 50,
        KeyCode::KanaKatakana => 51,
        KeyCode::Henkan => 52,
        KeyCode::Muhenkan => 53,
        KeyCode::HankakuZenkaku => 54,
        KeyCode::ShiftL => 55,
        KeyCode::ShiftR => 56,
        KeyCode::CtrlL => 57,
        KeyCode::CtrlR => 58,
        KeyCode::AltL => 59,
        KeyCode::AltR => 60,
        KeyCode::MetaL => 61,
        KeyCode::MetaR => 62,
        KeyCode::Yen => 63,
        KeyCode::Caret => 64,
        KeyCode::Colon => 65,
        KeyCode::AtSign => 66,
        KeyCode::Unknown(n) => 67 + n,
    }
}

/// Executable `key_ordinal`.
pub fn ordinal(k: KeyCode) -> (r: u64)
    ensures
        r == key_ordinal(k),
{
    match k {
        KeyCode::A => 0,
        KeyCode::B => 1,
        KeyCode::C => 2,
        KeyCode::D => 3,
        KeyCode::E => 4,
        KeyCode::F => 5,
        KeyCode::G => 6,
        KeyCode::H => 7,
        KeyCode::I => 8,
        KeyCode::J => 9,
        KeyCode::K => 10,
        KeyCode::L => 11,
        KeyCode::M => 12,
        KeyCode::N => 13,
        KeyCode::O => 14,
        KeyCode::P => 15,
        KeyCode::Q => 16,
        KeyCode::R => 17,
        KeyCode::S => 18,
        KeyCode::T => 19,
        KeyCode::U => 20,
        KeyCode::V => 21,
        KeyCode::W => 22,
        KeyCode::X => 23,
        KeyCode::Y => 24,
        KeyCode::Z => 25,
        KeyCode::Num0 => 26,
        KeyCode::Num1 => 27,
        KeyCode::Num2 => 28,
        KeyCode::Num3 => 29,
        KeyCode::Num4 => 30,
        KeyCode::Num5 => 31,
        KeyCode::Num6 => 32,
        KeyCode::Num7 => 33,
        KeyCode::Num8 => 34,
        KeyCode::Num9 => 35,
        KeyCode::Minus => 36,
        KeyCode::Equal => 37,
        KeyCode::LBracket => 38,
        KeyCode::RBracket => 39,
        KeyCode::Backslash => 40,
        KeyCode::Semicolon => 41,
        KeyCode::Quote => 42,
        KeyCode::Comma => 43,
        KeyCode::Dot => 44,
        KeyCode::Slash => 45,
        KeyCode::Grave => 46,
        KeyCode::Space => 47,
        KeyCode::Enter => 48,
        KeyCode::Tab => 49,
        KeyCode::CapsLock => 50,
        KeyCode::KanaKatakana => 51,
        KeyCode::Henkan => 52,
        KeyCode::Muhenkan => 53,
        KeyCode::HankakuZenkaku => 54,
        KeyCode::ShiftL => 55,
        KeyCode::ShiftR => 56,
        KeyCode::CtrlL => 57,
        KeyCode::CtrlR => 58,
        KeyCode::AltL => 59,
        KeyCode::AltR => 60,
        KeyCode::MetaL => 61,
        KeyCode::MetaR => 62,
        KeyCode::Yen => 63,
        KeyCode::Caret => 64,
        KeyCode::Colon => 65,
        KeyCode::AtSign => 66,
        KeyCode::Unknown(n) => 67 + n as u64,
    }
}

/// Distinct keys have distinct ordinals.
pub proof fn lemma_ordinal_injective(a: KeyCode, b: KeyCode)
    ensures
        key_ordinal(a) == key_ordinal(b) ==> a == b,
{
}

/// Key names accepted in layer-trigger declarations.
pub open spec fn dvorakj_name_key(s: Seq<char>) -> Option<KeyCode> {
    if s == seq!['s', 'p', 'a', 'c', 'e'] { Some(KeyCode::Space) }
    else if s == seq!['s', 'h', 'i', 'f', 't'] || s == seq!['l', 's', 'h', 'i', 'f', 't'] { Some(KeyCode::ShiftL) }
    else if s == seq!['r', 's', 'h', 'i', 'f', 't'] { Some(KeyCode::ShiftR) }
    else if s == seq!['c', 't', 'r', 'l'] || s == seq!['l', 'c', 't', 'r', 'l'] { Some(KeyCode::CtrlL) }
    else if s == seq!['r', 'c', 't', 'r', 'l'] { Some(KeyCode::CtrlR) }
    else if s == seq!['a', 'l', 't'] || s == seq!['l', 'a', 'l', 't'] { Some(KeyCode::AltL) }
    else if s == seq!['r', 'a', 'l', 't'] { Some(KeyCode::AltR) }
    else if s == seq!['w', 'i', 'n'] || s == seq!['l', 'w', 'i', 'n'] { Some(KeyCode::MetaL) }
    else if s == seq!['r', 'w', 'i', 'n'] { Some(KeyCode::MetaR) }
    else if s == seq!['m', 'u', 'h', 'e', 'n', 'k', 'a', 'n'] || s == seq!['\u{7121}', '\u{5909}', '\u{63DB}'] { Some(KeyCode::Muhenkan) }
    else if s == seq!['h', 'e', 'n', 'k', 'a', 'n'] || s == seq!['\u{5909}', '\u{63DB}'] { Some(KeyCode::Henkan) }
    else if s == seq!['k', 'a', 'n', 'a'] || s == seq!['\u{304B}', '\u{306A}'] { Some(KeyCode::KanaKatakana) }
    else if s == seq!['c', 'a', 'p', 's', 'l', 'o', 'c', 'k'] || s == seq!['\u{82F1}', '\u{6570}'] { Some(KeyCode::CapsLock) }
    else if s == seq!['z', 'e', 'n', 'k', 'a', 'k', 'u'] { Some(KeyCode::HankakuZenkaku) }
    else if s == seq!['e', 'n', 't', 'e', 'r'] { Some(KeyCode::Enter) }
    else if s == seq!['t', 'a', 'b'] { Some(KeyCode::Tab) }
    else { None }
}

impl KeyCode {
    /// The key that a layer-trigger name denotes.
    pub fn from_dvorakj_name(s: &[char]) -> (r: Option<KeyCode>)
        ensures
            r == dvorakj_name_key(s@),
    {
        if same_chars(s, &['s', 'p', 'a', 'c', 'e']) { Some(KeyCode::Space) }
        else if same_chars(s, &['s', 'h', 'i', 'f', 't']) || same_chars(s, &['l', 's', 'h', 'i', 'f', 't']) { Some(KeyCode::ShiftL) }
        else if same_chars(s, &['r', 's', 'h', 'i', 'f', 't']) { Some(KeyCode::ShiftR) }
        else if same_chars(s, &['c', 't', 'r', 'l']) || same_chars(s, &['l', 'c', 't', 'r', 'l']) { Some(KeyCode::CtrlL) }
        else if same_chars(s, &['r', 'c', 't', 'r', 'l']) { Some(KeyCode::CtrlR) }
        else if same_chars(s, &['a', 'l', 't']) || same_chars(s, &['l', 'a', 'l', 't']) { Some(KeyCode::AltL) }
        else if same_chars(s, &['r', 'a', 'l', 't']) { Some(KeyCode::AltR) }
        else if same_chars(s, &['w', 'i', 'n']) || same_chars(s, &['l', 'w', 'i', 'n']) { Some(KeyCode::MetaL) }
        else if same_chars(s, &['r', 'w', 'i', 'n']) { Some(KeyCode::MetaR) }
        else if same_chars(s, &['m', 'u', 'h', 'e', 'n', 'k', 'a', 'n']) || same_chars(s, &['\u{7121}', '\u{5909}', '\u{63DB}']) { Some(KeyCode::Muhenkan) }
        else if same_chars(s, &['h', 'e', 'n', 'k', 'a', 'n']) || same_chars(s, &['\u{5909}', '\u{63DB}']) { Some(KeyCode::Henkan) }
        else if same_chars(s, &['k', 'a', 'n', 'a']) || same_chars(s, &['\u{304B}', '\u{306A}']) { Some(KeyCode::KanaKatakana) }
        else if same_chars(s, &['c', 'a', 'p', 's', 'l', 'o', 'c', 'k']) || same_chars(s, &['\u{82F1}', '\u{6570}']) { Some(KeyCode::CapsLock) }
        else if same_chars(s, &['z', 'e', 'n', 'k', 'a', 'k', 'u']) { Some(KeyCode::HankakuZenkaku) }
        else if same_chars(s, &['e', 'n', 't', 'e', 'r']) { Some(KeyCode::Enter) }
        else if same_chars(s, &['t', 'a', 'b']) { Some(KeyCode::Tab) }
        else { None }
    }
}

} // verus!
