//! Linux evdev codes of the keys and pointer buttons that are named here.

use vstd::prelude::*;

verus! {

pub const KEY_LEFTCTRL: u16 = 29;

pub const KEY_A: u16 = 30;

pub const KEY_LEFTSHIFT: u16 = 42;

pub const KEY_LEFTALT: u16 = 56;

pub const BTN_LEFT: u16 = 0x110;

pub const BTN_RIGHT: u16 = 0x111;

pub const BTN_MIDDLE: u16 = 0x112;

/// The code of a pointer button: 0 left, 1 right, 2 middle.
pub open spec fn button_code(button: u8) -> Option<u16> {
    match button {
        0 => Some(BTN_LEFT),
        1 => Some(BTN_RIGHT),
        2 => Some(BTN_MIDDLE),
        _ => None,
    }
}

/// The code of a pointer button: 0 left, 1 right, 2 middle.
pub fn pointer_button(button: u8) -> (r: Option<u16>)
    ensures
        r == button_code(button),
{
    match button {
        0 => Some(BTN_LEFT),
        1 => Some(BTN_RIGHT),
        2 => Some(BTN_MIDDLE),
        _ => None,
    }
}

/// The three buttons have codes one after another from 272 on, and no other has one.
pub proof fn buttons_have_codes_in_a_row(button: u8)
    ensures
        button < 3 ==> button_code(button) == Some((272 + button) as u16),
        button >= 3 ==> button_code(button) is None,
{
}

} // verus!
