//! Scan code set 1: the codes that the keyboard sends when a key goes down
//! and when it comes up, and the keys that they stand for.

use vstd::prelude::*;

verus! {
/// The keys, as named by the codes sent when they are pressed.
#[derive(Copy, Clone, Debug, PartialEq, Eq, Structural)]
pub enum KeyPressedCodes {
    A,
    B,
    C,
    D,
    E,
    F,
    G,
    H,
    I,
    J,
    K,
    L,
    M,
    N,
    O,
    P,
    Q,
    R,
    S,
    T,
    U,
    V,
    W,
    X,
    Y,
    Z,
    One,
    Two,
    Three,
    Four,
    Five,
    Six,
    Seven,
    Eight,
    Nine,
    Zero,
    Enter,
    Space,
    Backspace,
    CapsLock,
    LeftShift,
    RightShift,
    LeftCtrl,
    RightCtrl,
    LeftAlt,
    RightAlt,
    Unknown,
}

impl KeyPressedCodes {
    /// The code that the keyboard sends for this key; zero for `Unknown`.
    pub open spec fn scan_code(self) -> i32 {
        match self {
            KeyPressedCodes::A => 0x1E,
            KeyPressedCodes::B => 0x30,
            KeyPressedCodes::C => 0x2E,
            KeyPressedCodes::D => 0x20,
            KeyPressedCodes::E => 0x12,
            KeyPressedCodes::F => 0x21,
            KeyPressedCodes::G => 0x22,
            KeyPressedCodes::H => 0x23,
            KeyPressedCodes::I => 0x17,
            KeyPressedCodes::J => 0x24,
            KeyPressedCodes::K => 0x25,
            KeyPressedCodes::L => 0x26,
            KeyPressedCodes::M => 0x32,
            KeyPressedCodes::N => 0x31,
            KeyPressedCodes::O => 0x18,
            KeyPressedCodes::P => 0x19,
            KeyPressedCodes::Q => 0x10,
            KeyPressedCodes::R => 0x13,
            KeyPressedCodes::S => 0x1F,
            KeyPressedCodes::T => 0x14,
            KeyPressedCodes::U => 0x16,
            KeyPressedCodes::V => 0x2F,
            KeyPressedCodes::W => 0x11,
            KeyPressedCodes::X => 0x2D,
            KeyPressedCodes::Y => 0x15,
            KeyPressedCodes::Z => 0x2C,
            KeyPressedCodes::One => 0x02,
            KeyPressedCodes::Two => 0x03,
            KeyPressedCodes::Three => 0x04,
            KeyPressedCodes::Four => 0x05,
            KeyPressedCodes::Five => 0x06,
            KeyPressedCodes::Six => 0x07,
            KeyPressedCodes::Seven => 0x08,
            KeyPressedCodes::Eight => 0x09,
            KeyPressedCodes::Nine => 0x0A,
            KeyPressedCodes::Zero => 0x0B,
            KeyPressedCodes::Enter => 0x1C,
            KeyPressedCodes::Space => 0x39,
            KeyPressedCodes::Backspace => 0x0E,
            KeyPressedCodes::CapsLock => 0x3A,
            KeyPressedCodes::LeftShift => 0x2A,
            KeyPressedCodes::RightShift => 0x36,
            KeyPressedCodes::LeftCtrl => 0x1D,
            KeyPressedCodes::RightCtrl => 0x9D,
            KeyPressedCodes::LeftAlt => 0x38,
            KeyPressedCodes::RightAlt => 0xB8,
            KeyPressedCodes::Unknown => 0x00,
        }
    }

    /// The code that the keyboard sends for this key; zero for `Unknown`.
    pub fn code(&self) -> (code: i32)
        ensures
            code == self.scan_code(),
    {
        match self {
            KeyPressedCodes::A => 0x1E,
            KeyPressedCodes::B => 0x30,
            KeyPressedCodes::C => 0x2E,
            KeyPressedCodes::D => 0x20,
            KeyPressedCodes::E => 0x12,
            KeyPressedCodes::F => 0x21,
            KeyPressedCodes::G => 0x22,
            KeyPressedCodes::H => 0x23,
            KeyPressedCodes::I => 0x17,
            KeyPressedCodes::J => 0x24,
            KeyPressedCodes::K => 0x25,
            KeyPressedCodes::L => 0x26,
            KeyPressedCodes::M => 0x32,
            KeyPressedCodes::N => 0x31,
            KeyPressedCodes::O => 0x18,
            KeyPressedCodes::P => 0x19,
            KeyPressedCodes::Q => 0x10,
            KeyPressedCodes::R => 0x13,
            KeyPressedCodes::S => 0x1F,
            KeyPressedCodes::T => 0x14,
            KeyPressedCodes::U => 0x16,
            KeyPressedCodes::V => 0x2F,
            KeyPressedCodes::W => 0x11,
            KeyPressedCodes::X => 0x2D,
            KeyPressedCodes::Y => 0x15,
            KeyPressedCodes::Z => 0x2C,
            KeyPressedCodes::One => 0x02,
            KeyPressedCodes::Two => 0x03,
            KeyPressedCodes::Three => 0x04,
            KeyPressedCodes::Four => 0x05,
            KeyPressedCodes::Five => 0x06,
            KeyPressedCodes::Six => 0x07,
            KeyPressedCodes::Seven => 0x08,
            KeyPressedCodes::Eight => 0x09,
            KeyPressedCodes::Nine => 0x0A,
            KeyPressedCodes::Zero => 0x0B,
            KeyPressedCodes::Enter => 0x1C,
            KeyPressedCodes::Space => 0x39,
            KeyPressedCodes::Backspace => 0x0E,
            KeyPressedCodes::CapsLock => 0x3A,
            KeyPressedCodes::LeftShift => 0x2A,
            KeyPressedCodes::RightShift => 0x36,
            KeyPressedCodes::LeftCtrl => 0x1D,
            KeyPressedCodes::RightCtrl => 0x9D,
            KeyPressedCodes::LeftAlt => 0x38,
            KeyPressedCodes::RightAlt => 0xB8,
            KeyPressedCodes::Unknown => 0x00,
        }
    }
}

/// The key that sends `key_code` when it is pressed: the one key with that code,
/// or `Unknown` where no key has it.
pub fn get_from_code_pressed(key_code: i32) -> (key: KeyPressedCodes)
    ensures
        !(key is Unknown) ==> key.scan_code() == key_code,
        key is Unknown ==> forall|other: KeyPressedCodes|
            !(other is Unknown) ==> other.scan_code() != key_code,
{
    match key_code {
        0x1E => KeyPressedCodes::A,
        0x30 => KeyPressedCodes::B,
        0x2E => KeyPressedCodes::C,
        0x20 => KeyPressedCodes::D,
        0x12 => KeyPressedCodes::E,
        0x21 => KeyPressedCodes::F,
        0x22 => KeyPressedCodes::G,
        0x23 => KeyPressedCodes::H,
        0x17 => KeyPressedCodes::I,
        0x24 => KeyPressedCodes::J,
        0x25 => KeyPressedCodes::K,
        0x26 => KeyPressedCodes::L,
        0x32 => KeyPressedCodes::M,
        0x31 => KeyPressedCodes::N,
        0x18 => KeyPressedCodes::O,
        0x19 => KeyPressedCodes::P,
        0x10 => KeyPressedCodes::Q,
        0x13 => KeyPressedCodes::R,
        0x1F => KeyPressedCodes::S,
        0x14 => KeyPressedCodes::T,
        0x16 => KeyPressedCodes::U,
        0x2F => KeyPressedCodes::V,
        0x11 => KeyPressedCodes::W,
        0x2D => KeyPressedCodes::X,
        0x15 => KeyPressedCodes::Y,
        0x2C => KeyPressedCodes::Z,
        0x02 => KeyPressedCodes::One,
        0x03 => KeyPressedCodes::Two,
        0x04 => KeyPressedCodes::Three,
        0x05 => KeyPressedCodes::Four,
        0x06 => KeyPressedCodes::Five,
        0x07 => KeyPressedCodes::Six,
        0x08 => KeyPressedCodes::Seven,
        0x09 => KeyPressedCodes::Eight,
        0x0A => KeyPressedCodes::Nine,
        0x0B => KeyPressedCodes::Zero,
        0x1C => KeyPressedCodes::Enter,
        0x39 => KeyPressedCodes::Space,
        0x0E => KeyPressedCodes::Backspace,
        0x3A => KeyPressedCodes::CapsLock,
        0x2A => KeyPressedCodes::LeftShift,
        0x36 => KeyPressedCodes::RightShift,
        0x1D => KeyPressedCodes::LeftCtrl,
        0x9D => KeyPressedCodes::RightCtrl,
        0x38 => KeyPressedCodes::LeftAlt,
        0xB8 => KeyPressedCodes::RightAlt,
        _ => KeyPressedCodes::Unknown,
    }
}

/// The keys, as named by the codes sent when they are released.
#[derive(Copy, Clone, Debug, PartialEq, Eq, Structural)]
pub enum KeyReleasedCodes {
    A,
    B,
    C,
    D,
    E,
    F,
    G,
    H,
    I,
    J,
    K,
    L,
    M,
    N,
    O,
    P,
    Q,
    R,
    S,
    T,
    U,
    V,
    W,
    X,
    Y,
    Z,
    One,
    Two,
    Three,
    Four,
    Five,
    Six,
    Seven,
    Eight,
    Nine,
    Zero,
    Enter,
    Space,
    Backspace,
    CapsLock,
    LeftShift,
    RightShift,
    LeftCtrl,
    RightCtrl,
    LeftAlt,
    RightAlt,
    Unknown,
}

impl KeyReleasedCodes {
    /// The code that the keyboard sends for this key; zero for `Unknown`.
    pub open spec fn scan_code(self) -> i32 {
        match self {
            KeyReleasedCodes::A => 0x9E,
            KeyReleasedCodes::B => 0xB0,
            KeyReleasedCodes::C => 0xAE,
            KeyReleasedCodes::D => 0xA0,
            KeyReleasedCodes::E => 0x92,
            KeyReleasedCodes::F => 0xA1,
            KeyReleasedCodes::G => 0xA2,
            KeyReleasedCodes::H => 0xA3,
            KeyReleasedCodes::I => 0x97,
            KeyReleasedCodes::J => 0xA4,
            KeyReleasedCodes::K => 0xA5,
            KeyReleasedCodes::L => 0xA6,
            KeyReleasedCodes::M => 0xB2,
            KeyReleasedCodes::N => 0xB1,
            KeyReleasedCodes::O => 0x98,
            KeyReleasedCodes::P => 0x99,
            KeyReleasedCodes::Q => 0x90,
            KeyReleasedCodes::R => 0x93,
            KeyReleasedCodes::S => 0x9F,
            KeyReleasedCodes::T => 0x94,
            KeyReleasedCodes::U => 0x96,
            KeyReleasedCodes::V => 0xAF,
            KeyReleasedCodes::W => 0x91,
            KeyReleasedCodes::X => 0xAD,
            KeyReleasedCodes::Y => 0x95,
            KeyReleasedCodes::Z => 0xAC,
            KeyReleasedCodes::One => 0x82,
            KeyReleasedCodes::Two => 0x83,
            KeyReleasedCodes::Three => 0x84,
            KeyReleasedCodes::Four => 0x85,
            KeyReleasedCodes::Five => 0x86,
            KeyReleasedCodes::Six => 0x87,
            KeyReleasedCodes::Seven => 0x88,
            KeyReleasedCodes::Eight => 0x89,
            KeyReleasedCodes::Nine => 0x8A,
            KeyReleasedCodes::Zero => 0x8B,
            KeyReleasedCodes::Enter => 0x9C,
            KeyReleasedCodes::Space => 0xB9,
            KeyReleasedCodes::Backspace => 0x8E,
            KeyReleasedCodes::CapsLock => 0xBA,
            KeyReleasedCodes::LeftShift => 0xAA,
            KeyReleasedCodes::RightShift => 0xB6,
            KeyReleasedCodes::LeftCtrl => 0x9D,
            KeyReleasedCodes::RightCtrl => 0xDD,
            KeyReleasedCodes::LeftAlt => 0xB8,
            KeyReleasedCodes::RightAlt => 0xD8,
            KeyReleasedCodes::Unknown => 0x00,
        }
    }

    /// The code that the keyboard sends for this key; zero for `Unknown`.
    pub fn code(&self) -> (code: i32)
        ensures
            code == self.scan_code(),
    {
        match self {
            KeyReleasedCodes::A => 0x9E,
            KeyReleasedCodes::B => 0xB0,
            KeyReleasedCodes::C => 0xAE,
            KeyReleasedCodes::D => 0xA0,
            KeyReleasedCodes::E => 0x92,
            KeyReleasedCodes::F => 0xA1,
            KeyReleasedCodes::G => 0xA2,
            KeyReleasedCodes::H => 0xA3,
            KeyReleasedCodes::I => 0x97,
            KeyReleasedCodes::J => 0xA4,
            KeyReleasedCodes::K => 0xA5,
            KeyReleasedCodes::L => 0xA6,
            KeyReleasedCodes::M => 0xB2,
            KeyReleasedCodes::N => 0xB1,
            KeyReleasedCodes::O => 0x98,
            KeyReleasedCodes::P => 0x99,
            KeyReleasedCodes::Q => 0x90,
            KeyReleasedCodes::R => 0x93,
            KeyReleasedCodes::S => 0x9F,
            KeyReleasedCodes::T => 0x94,
            KeyReleasedCodes::U => 0x96,
            KeyReleasedCodes::V => 0xAF,
            KeyReleasedCodes::W => 0x91,
            KeyReleasedCodes::X => 0xAD,
            KeyReleasedCodes::Y => 0x95,
            KeyReleasedCodes::Z => 0xAC,
            KeyReleasedCodes::One => 0x82,
            KeyReleasedCodes::Two => 0x83,
            KeyReleasedCodes::Three => 0x84,
            KeyReleasedCodes::Four => 0x85,
            KeyReleasedCodes::Five => 0x86,
            KeyReleasedCodes::Six => 0x87,
            KeyReleasedCodes::Seven => 0x88,
            KeyReleasedCodes::Eight => 0x89,
            KeyReleasedCodes::Nine => 0x8A,
            KeyReleasedCodes::Zero => 0x8B,
            KeyReleasedCodes::Enter => 0x9C,
            KeyReleasedCodes::Space => 0xB9,
            KeyReleasedCodes::Backspace => 0x8E,
            KeyReleasedCodes::CapsLock => 0xBA,
            KeyReleasedCodes::LeftShift => 0xAA,
            KeyReleasedCodes::RightShift => 0xB6,
            KeyReleasedCodes::LeftCtrl => 0x9D,
            KeyReleasedCodes::RightCtrl => 0xDD,
            KeyReleasedCodes::LeftAlt => 0xB8,
            KeyReleasedCodes::RightAlt => 0xD8,
            KeyReleasedCodes::Unknown => 0x00,
        }
    }
}

/// The key that sends `key_code` when it is released: the one key with that code,
/// or `Unknown` where no key has it.
pub fn get_from_code_released(key_code: i32) -> (key: KeyReleasedCodes)
    ensures
        !(key is Unknown) ==> key.scan_code() == key_code,
        key is Unknown ==> forall|other: KeyReleasedCodes|
            !(other is Unknown) ==> other.scan_code() != key_code,
{
    match key_code {
        0x9E => KeyReleasedCodes::A,
        0xB0 => KeyReleasedCodes::B,
        0xAE => KeyReleasedCodes::C,
        0xA0 => KeyReleasedCodes::D,
        0x92 => KeyReleasedCodes::E,
        0xA1 => KeyReleasedCodes::F,
        0xA2 => KeyReleasedCodes::G,
        0xA3 => KeyReleasedCodes::H,
        0x97 => KeyReleasedCodes::I,
        0xA4 => KeyReleasedCodes::J,
        0xA5 => KeyReleasedCodes::K,
        0xA6 => KeyReleasedCodes::L,
        0xB2 => KeyReleasedCodes::M,
        0xB1 => KeyReleasedCodes::N,
        0x98 => KeyReleasedCodes::O,
        0x99 => KeyReleasedCodes::P,
        0x90 => KeyReleasedCodes::Q,
        0x93 => KeyReleasedCodes::R,
        0x9F => KeyReleasedCodes::S,
        0x94 => KeyReleasedCodes::T,
        0x96 => KeyReleasedCodes::U,
        0xAF => KeyReleasedCodes::V,
        0x91 => KeyReleasedCodes::W,
        0xAD => KeyReleasedCodes::X,
        0x95 => KeyReleasedCodes::Y,
        0xAC => KeyReleasedCodes::Z,
        0x82 => KeyReleasedCodes::One,
        0x83 => KeyReleasedCodes::Two,
        0x84 => KeyReleasedCodes::Three,
        0x85 => KeyReleasedCodes::Four,
        0x86 => KeyReleasedCodes::Five,
        0x87 => KeyReleasedCodes::Six,
        0x88 => KeyReleasedCodes::Seven,
        0x89 => KeyReleasedCodes::Eight,
        0x8A => KeyReleasedCodes::Nine,
        0x8B => KeyReleasedCodes::Zero,
        0x9C => KeyReleasedCodes::Enter,
        0xB9 => KeyReleasedCodes::Space,
        0x8E => KeyReleasedCodes::Backspace,
        0xBA => KeyReleasedCodes::CapsLock,
        0xAA => KeyReleasedCodes::LeftShift,
        0xB6 => KeyReleasedCodes::RightShift,
        0x9D => KeyReleasedCodes::LeftCtrl,
        0xDD => KeyReleasedCodes::RightCtrl,
        0xB8 => KeyReleasedCodes::LeftAlt,
        0xD8 => KeyReleasedCodes::RightAlt,
        _ => KeyReleasedCodes::Unknown,
    }
}

} // verus!
