//! PS/2 keyboard scancode decoding (scancode set 1, standard PC AT keyboard).

use vstd::prelude::*;
use crate::input::{InputEvent, InputQueue, push_one};

verus! {

/// Scancode set 1 translation table (unshifted), scancodes 0x00-0x5F.
pub const SCANCODE_TABLE: [u8; 96] = [
    0, 27, 0x31, 0x32, 0x33, 0x34, 0x35, 0x36, 0x37, 0x38, 0x39, 0x30, 0x2D, 0x3D, 0x08, 0x09,
    0x71, 0x77, 0x65, 0x72, 0x74, 0x79, 0x75, 0x69, 0x6F, 0x70, 0x5B, 0x5D, 0x0A, 0, 0x61, 0,
    0, 0, 0x7A, 0x78, 0x63, 0x76, 0x62, 0x6E, 0x6D, 0x2C, 0x2E, 0x2F, 0, 0, 0, 0,
    0x20, 0, 0, 0, 0, 0, 0, 0, 0, 0, 0, 0, 0, 0, 0, 0,
    0, 0, 0, 0, 0, 0, 0, 0, 0, 0x2D, 0, 0, 0, 0x2B, 0, 0,
    0, 0, 0, 0, 0, 0x2E, 0, 0, 0, 0, 0, 0, 0, 0, 0, 0,
];

/// Shifted scancode table.
pub const SCANCODE_SHIFT_TABLE: [u8; 96] = [
    0, 27, 0x21, 0x40, 0x23, 0x24, 0x25, 0x5E, 0x26, 0x2A, 0x28, 0x29, 0x5F, 0x2B, 0x08, 0x09,
    0x51, 0x57, 0x45, 0x52, 0x54, 0x59, 0x55, 0x49, 0x4F, 0x50, 0x7B, 0x7D, 0x0A, 0, 0x41, 0,
    0, 0, 0x5A, 0x58, 0x43, 0x56, 0x42, 0x4E, 0x4D, 0x3C, 0x3E, 0x3F, 0, 0, 0, 0,
    0x20, 0, 0, 0, 0, 0, 0, 0, 0, 0, 0, 0, 0, 0, 0, 0,
    0, 0, 0, 0, 0, 0, 0, 0, 0, 0x5F, 0, 0, 0, 0x2B, 0, 0,
    0, 0, 0, 0, 0, 0x2E, 0, 0, 0, 0, 0, 0, 0, 0, 0, 0,
];

pub const KEY_RELEASE: u8 = 0x80;
pub const LSHIFT: u8 = 0x2A;
pub const RSHIFT: u8 = 0x36;
pub const CAPS_KEY: u8 = 0x3A;

/// Modifier state of the keyboard.
#[derive(Debug, Clone, Copy, PartialEq, Eq, Structural)]
pub struct KeyboardState {
    pub shift_pressed: bool,
    pub caps_lock: bool,
}

impl KeyboardState {
    pub fn new() -> (r: Self)
        ensures
            !r.shift_pressed && !r.caps_lock,
    {
        KeyboardState { shift_pressed: false, caps_lock: false }
    }
}

/// The character a key press of `scancode` produces (0 for none).
pub open spec fn key_ascii(scancode: u8, shift: bool, caps: bool) -> u8 {
    if scancode < 96 {
        let c = SCANCODE_TABLE@[scancode as int];
        if shift {
            SCANCODE_SHIFT_TABLE@[scancode as int]
        } else if caps && 0x61 <= c <= 0x7A {
            (c - 32) as u8
        } else {
            c
        }
    } else {
        0
    }
}

/// Modifier state after `scancode`.
pub open spec fn next_keyboard_state(s: KeyboardState, scancode: u8) -> KeyboardState {
    if scancode == LSHIFT || scancode == RSHIFT {
        KeyboardState { shift_pressed: true, ..s }
    } else if scancode == (LSHIFT | KEY_RELEASE) || scancode == (RSHIFT | KEY_RELEASE) {
        KeyboardState { shift_pressed: false, ..s }
    } else if scancode == CAPS_KEY {
        KeyboardState { caps_lock: !s.caps_lock, ..s }
    } else {
        s
    }
}

/// The key press that `scancode` reports, if any.
pub open spec fn scancode_key(s: KeyboardState, scancode: u8) -> Option<u8> {
    if scancode == LSHIFT || scancode == RSHIFT || scancode == (LSHIFT | KEY_RELEASE) || scancode == (
    RSHIFT | KEY_RELEASE) || scancode == CAPS_KEY || scancode & KEY_RELEASE != 0 {
        None
    } else {
        let a = key_ascii(scancode, s.shift_pressed, s.caps_lock);
        if a != 0 {
            Some(a)
        } else {
            None
        }
    }
}

/// Called from the IRQ handler when a scancode is received.
pub fn handle_scancode(kbd: &mut KeyboardState, queue: &mut InputQueue, scancode: u8)
    requires
        old(queue).wf(),
    ensures
        final(queue).wf(),
        *final(kbd) == next_keyboard_state(*old(kbd), scancode),
        final(queue)@ == match scancode_key(*old(kbd), scancode) {
            Some(a) => push_one(old(queue)@, InputEvent::KeyPress { ascii: a }),
            None => old(queue)@,
        },
{
    if scancode == LSHIFT || scancode == RSHIFT {
        kbd.shift_pressed = true;
        return;
    }
    if scancode == (LSHIFT | KEY_RELEASE) || scancode == (RSHIFT | KEY_RELEASE) {
        kbd.shift_pressed = false;
        return;
    }
    if scancode == CAPS_KEY {
        kbd.caps_lock = !kbd.caps_lock;
        return;
    }
    if scancode & KEY_RELEASE != 0 {
        return;
    }

    let ascii = if (scancode as usize) < SCANCODE_TABLE.len() {
        let idx = scancode as usize;
        let mut c = SCANCODE_TABLE[idx];
        if kbd.shift_pressed {
            if idx < SCANCODE_SHIFT_TABLE.len() {
                c = SCANCODE_SHIFT_TABLE[idx];
            }
        } else if kbd.caps_lock && c >= 0x61 && c <= 0x7A {
            c = c - 32;
        }
        c
    } else {
        0
    };

    if ascii != 0 {
        queue.push(InputEvent::KeyPress { ascii });
    }
}

/// The Caps Lock key flips caps lock and leaves shift alone, so pressing it
/// twice restores the keyboard state; it types nothing.
pub proof fn caps_lock_toggles(s: KeyboardState)
    ensures
        next_keyboard_state(s, 0x3A).caps_lock == !s.caps_lock,
        next_keyboard_state(s, 0x3A).shift_pressed == s.shift_pressed,
        next_keyboard_state(next_keyboard_state(s, 0x3A), 0x3A) == s,
        scancode_key(s, 0x3A) is None,
{
    assert(LSHIFT | KEY_RELEASE == 0xAAu8) by (bit_vector);
    assert(RSHIFT | KEY_RELEASE == 0xB6u8) by (bit_vector);
}

/// Either shift key held makes shift active until it is released, and a
/// press followed by its release restores the state; no key release types
/// anything.
pub proof fn shift_press_then_release(s: KeyboardState, sc: u8)
    ensures
        next_keyboard_state(s, 0x2A).shift_pressed && next_keyboard_state(s, 0x36).shift_pressed,
        next_keyboard_state(next_keyboard_state(s, 0x2A), 0xAA) == (KeyboardState { shift_pressed: false, ..s }),
        next_keyboard_state(next_keyboard_state(s, 0x36), 0xB6) == (KeyboardState { shift_pressed: false, ..s }),
        sc & 0x80u8 != 0 ==> scancode_key(s, sc) is None,
{
    assert(LSHIFT | KEY_RELEASE == 0xAAu8) by (bit_vector);
    assert(RSHIFT | KEY_RELEASE == 0xB6u8) by (bit_vector);
}

/// Caps lock without shift turns exactly the lowercase letters into their
/// capitals (32 lower in ASCII) and leaves every other key as it is.
pub proof fn caps_lock_capitalises_letters(sc: u8)
    ensures
        ({
            let c = key_ascii(sc, false, false);
            let k = key_ascii(sc, false, true);
            &&& 0x61 <= c <= 0x7A ==> k == c - 32
            &&& !(0x61 <= c <= 0x7A) ==> k == c
        }),
{
}

} // verus!
