//! The keyboard's state: which modifier keys are held, and the callbacks
//! that are told of every key code.

use crate::input::key_codes::{
    get_from_code_pressed,
    get_from_code_released,
    KeyPressedCodes,
    KeyReleasedCodes,
};
use vstd::prelude::*;

verus! {

/// The modifier keys and five callbacks, each called with every key code.
pub struct Keyboard<F: Fn(i32)> {
    pub callback0: F,
    pub callback1: F,
    pub callback2: F,
    pub callback3: F,
    pub callback4: F,
    pub shift: bool,
    pub caps: bool,
    pub alt: bool,
    pub ctrl: bool,
}

/// Whether one of a pair of modifier keys is held after `code` came in:
/// held once the code of either key going down came, unless the same code
/// also says that one of them came up.
pub open spec fn held_after(held: bool, code: i32, down_left: i32, down_right: i32, up_left: i32, up_right: i32) -> bool {
    if code == up_left || code == up_right {
        false
    } else if code == down_left || code == down_right {
        true
    } else {
        held
    }
}

impl<F: Fn(i32)> Keyboard<F> {
    /// A keyboard with no modifier held and the same callback five times.
    pub fn new(callback0: F, callback1: F, callback2: F, callback3: F, callback4: F) -> (keyboard: Self)
        ensures
            keyboard.callback0 == callback0,
            keyboard.callback1 == callback1,
            keyboard.callback2 == callback2,
            keyboard.callback3 == callback3,
            keyboard.callback4 == callback4,
            !keyboard.shift && !keyboard.caps && !keyboard.alt && !keyboard.ctrl,
    {
        Keyboard {
            callback0,
            callback1,
            callback2,
            callback3,
            callback4,
            shift: false,
            caps: false,
            alt: false,
            ctrl: false,
        }
    }

    pub fn set_callback0(&mut self, callback: F)
        ensures
            *final(self) == (Keyboard { callback0: callback, ..*old(self) }),
    {
        self.callback0 = callback;
    }

    pub fn set_callback1(&mut self, callback: F)
        ensures
            *final(self) == (Keyboard { callback1: callback, ..*old(self) }),
    {
        self.callback1 = callback;
    }

    pub fn set_callback2(&mut self, callback: F)
        ensures
            *final(self) == (Keyboard { callback2: callback, ..*old(self) }),
    {
        self.callback2 = callback;
    }

    pub fn set_callback3(&mut self, callback: F)
        ensures
            *final(self) == (Keyboard { callback3: callback, ..*old(self) }),
    {
        self.callback3 = callback;
    }

    pub fn set_callback4(&mut self, callback: F)
        ensures
            *final(self) == (Keyboard { callback4: callback, ..*old(self) }),
    {
        self.callback4 = callback;
    }

    /// Takes in the key code `code`: calls the five callbacks with it, in
    /// order, and brings the modifier keys up to date. Caps lock switches
    /// each time its key goes down; shift, control and alt are held from
    /// the code of either of their keys going down to the code of either
    /// coming up.
    pub fn handle_key(&mut self, code: i32)
        requires
            call_requires(old(self).callback0, (code,)),
            call_requires(old(self).callback1, (code,)),
            call_requires(old(self).callback2, (code,)),
            call_requires(old(self).callback3, (code,)),
            call_requires(old(self).callback4, (code,)),
        ensures
            call_ensures(old(self).callback0, (code,), ()),
            call_ensures(old(self).callback1, (code,), ()),
            call_ensures(old(self).callback2, (code,), ()),
            call_ensures(old(self).callback3, (code,), ()),
            call_ensures(old(self).callback4, (code,), ()),
            final(self).callback0 == old(self).callback0,
            final(self).callback1 == old(self).callback1,
            final(self).callback2 == old(self).callback2,
            final(self).callback3 == old(self).callback3,
            final(self).callback4 == old(self).callback4,
            final(self).caps == (old(self).caps != (code == KeyPressedCodes::CapsLock.scan_code())),
            final(self).shift == held_after(
                old(self).shift,
                code,
                KeyPressedCodes::LeftShift.scan_code(),
                KeyPressedCodes::RightShift.scan_code(),
                KeyReleasedCodes::LeftShift.scan_code(),
                KeyReleasedCodes::RightShift.scan_code(),
            ),
            final(self).ctrl == held_after(
                old(self).ctrl,
                code,
                KeyPressedCodes::LeftCtrl.scan_code(),
                KeyPressedCodes::RightCtrl.scan_code(),
                KeyReleasedCodes::LeftCtrl.scan_code(),
                KeyReleasedCodes::RightCtrl.scan_code(),
            ),
            final(self).alt == held_after(
                old(self).alt,
                code,
                KeyPressedCodes::LeftAlt.scan_code(),
                KeyPressedCodes::RightAlt.scan_code(),
                KeyReleasedCodes::LeftAlt.scan_code(),
                KeyReleasedCodes::RightAlt.scan_code(),
            ),
    {
        (self.callback0)(code);
        (self.callback1)(code);
        (self.callback2)(code);
        (self.callback3)(code);
        (self.callback4)(code);
        match get_from_code_pressed(code) {
            KeyPressedCodes::CapsLock => self.caps = !self.caps,
            KeyPressedCodes::LeftShift => self.shift = true,
            KeyPressedCodes::RightShift => self.shift = true,
            KeyPressedCodes::LeftCtrl => self.ctrl = true,
            KeyPressedCodes::RightCtrl => self.ctrl = true,
            KeyPressedCodes::LeftAlt => self.alt = true,
            KeyPressedCodes::RightAlt => self.alt = true,
            _ => (),
        }
        match get_from_code_released(code) {
            KeyReleasedCodes::LeftShift => self.shift = false,
            KeyReleasedCodes::RightShift => self.shift = false,
            KeyReleasedCodes::LeftCtrl => self.ctrl = false,
            KeyReleasedCodes::RightCtrl => self.ctrl = false,
            KeyReleasedCodes::LeftAlt => self.alt = false,
            KeyReleasedCodes::RightAlt => self.alt = false,
            _ => (),
        }
    }
}

/// The key that sends `key_code` when it is pressed.
pub fn get_key_pressed(key_code: i32) -> (key: KeyPressedCodes)
    ensures
        !(key is Unknown) ==> key.scan_code() == key_code,
        key is Unknown ==> forall|other: KeyPressedCodes|
            !(other is Unknown) ==> other.scan_code() != key_code,
{
    get_from_code_pressed(key_code)
}

/// The key that sends `key_code` when it is released.
pub fn get_key_released(key_code: i32) -> (key: KeyReleasedCodes)
    ensures
        !(key is Unknown) ==> key.scan_code() == key_code,
        key is Unknown ==> forall|other: KeyReleasedCodes|
            !(other is Unknown) ==> other.scan_code() != key_code,
{
    get_from_code_released(key_code)
}

} // verus!
