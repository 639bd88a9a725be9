//! PS/2 mouse packet decoding (IRQ 12). Three-byte packets are assembled from
//! the byte stream, applied to the cursor state, and reported as input events.

use vstd::prelude::*;
use crate::input::{InputEvent, InputQueue, push_one};

verus! {

#[derive(Debug, Clone, Copy, PartialEq, Eq, Structural)]
pub struct MouseState {
    pub x: u16,
    pub y: u16,
    pub left: bool,
    pub right: bool,
    pub middle: bool,
}

impl Default for MouseState {
    fn default() -> (r: Self)
        ensures
            r == (MouseState { x: 400, y: 300, left: false, right: false, middle: false }),
    {
        Self { x: 400, y: 300, left: false, right: false, middle: false }
    }
}

/// Cursor state after a packet with `buttons`, `dx`, `dy` (screen y grows downwards).
pub open spec fn decoded(state: MouseState, buttons: u8, dx: i8, dy: i8) -> MouseState {
    MouseState {
        left: buttons & 0x01 != 0,
        right: buttons & 0x02 != 0,
        middle: buttons & 0x04 != 0,
        x: (if state.x + dx >= 0 { state.x + dx } else { 0 }) as u16,
        y: (if state.y - dy >= 0 { state.y - dy } else { 0 }) as u16,
    }
}

pub fn decode_packet(state: &mut MouseState, buttons: u8, dx: i8, dy: i8)
    ensures
        *final(state) == decoded(*old(state), buttons, dx, dy),
{
    state.left = buttons & 0x01 != 0;
    state.right = buttons & 0x02 != 0;
    state.middle = buttons & 0x04 != 0;

    let nx = state.x as i32 + dx as i32;
    let ny = state.y as i32 - dy as i32;
    state.x = (if nx >= 0 { nx } else { 0 }) as u16;
    state.y = (if ny >= 0 { ny } else { 0 }) as u16;
}

/// A byte of the packet stream read as a signed movement.
pub open spec fn as_signed(b: u8) -> i8 {
    if b >= 128 {
        (b - 256) as i8
    } else {
        b as i8
    }
}

fn to_signed(b: u8) -> (r: i8)
    ensures
        r == as_signed(b),
{
    if b >= 128 {
        (b as i16 - 256) as i8
    } else {
        b as i8
    }
}

/// Down or up event for one button whose state went from `was` to `now`.
pub open spec fn button_event(was: bool, now: bool, button: u8, x: u16, y: u16) -> Option<InputEvent> {
    if now && !was {
        Some(InputEvent::MouseDown { button, x, y })
    } else if !now && was {
        Some(InputEvent::MouseUp { button, x, y })
    } else {
        None
    }
}

pub open spec fn push_opt(v: Seq<InputEvent>, e: Option<InputEvent>) -> Seq<InputEvent> {
    match e {
        Some(ev) => push_one(v, ev),
        None => v,
    }
}

/// Cursor state once a complete packet is applied and clamped to the screen.
pub open spec fn packet_state(state: MouseState, b1: u8, b2: u8, b3: u8, fb_w: u16, fb_h: u16) -> MouseState {
    let s = decoded(state, b1, as_signed(b2), as_signed(b3));
    MouseState {
        x: if s.x >= fb_w { (fb_w - 1) as u16 } else { s.x },
        y: if s.y >= fb_h { (fb_h - 1) as u16 } else { s.y },
        ..s
    }
}

/// Events reported for a packet that moved the cursor from `prev` to `s`.
pub open spec fn packet_events(v: Seq<InputEvent>, prev: MouseState, s: MouseState) -> Seq<InputEvent> {
    let buttons = ((if s.left { 1int } else { 0 }) + (if s.right { 2int } else { 0 }) + (if s.middle {
        4int
    } else {
        0
    })) as u8;
    let v1 = push_one(v, InputEvent::MouseMove { x: s.x, y: s.y, buttons });
    let v2 = push_opt(v1, button_event(prev.left, s.left, 0, s.x, s.y));
    let v3 = push_opt(v2, button_event(prev.right, s.right, 1, s.x, s.y));
    push_opt(v3, button_event(prev.middle, s.middle, 2, s.x, s.y))
}

/// Packet assembler and cursor state of the PS/2 mouse.
pub struct MouseDriver {
    pub state: MouseState,
    pub phase: u8,
    pub byte1: u8,
    pub byte2: u8,
}

impl MouseDriver {
    pub fn new() -> (r: Self)
        ensures
            r.state == (MouseState { x: 400, y: 300, left: false, right: false, middle: false }),
            r.phase == 0,
    {
        MouseDriver { state: MouseState::default(), phase: 0, byte1: 0, byte2: 0 }
    }

    /// Push the down/up event for one button, if its state changed.
    fn report_button(queue: &mut InputQueue, was: bool, now: bool, button: u8, x: u16, y: u16)
        requires
            old(queue).wf(),
        ensures
            final(queue).wf(),
            final(queue)@ == push_opt(old(queue)@, button_event(was, now, button, x, y)),
    {
        if now && !was {
            queue.push(InputEvent::MouseDown { button, x, y });
        } else if !now && was {
            queue.push(InputEvent::MouseUp { button, x, y });
        }
    }

    /// Feed one byte from the controller. The first byte of a packet must have
    /// bit 3 set; the third byte completes the packet.
    pub fn handle_mouse_byte(&mut self, queue: &mut InputQueue, byte: u8, fb_w: u16, fb_h: u16)
        requires
            old(queue).wf(),
            fb_w > 0,
            fb_h > 0,
        ensures
            final(queue).wf(),
            old(self).phase == 0 ==> {
                &&& final(self).phase == (if byte & 0x08 != 0 { 1u8 } else { 0u8 })
                &&& final(self).byte1 == (if byte & 0x08 != 0 { byte } else { old(self).byte1 })
                &&& final(self).state == old(self).state
                &&& final(queue)@ == old(queue)@
            },
            old(self).phase == 1 ==> {
                &&& final(self).phase == 2
                &&& final(self).byte2 == byte
                &&& final(self).state == old(self).state
                &&& final(queue)@ == old(queue)@
            },
            old(self).phase == 2 ==> {
                let s = packet_state(old(self).state, old(self).byte1, old(self).byte2, byte, fb_w, fb_h);
                &&& final(self).phase == 0
                &&& final(self).state == s
                &&& final(queue)@ == packet_events(old(queue)@, old(self).state, s)
            },
            old(self).phase > 2 ==> final(self).phase == 0 && final(self).state == old(self).state
                && final(queue)@ == old(queue)@,
    {
        if self.phase == 0 {
            if byte & 0x08 != 0 {
                self.byte1 = byte;
                self.phase = 1;
            }
        } else if self.phase == 1 {
            self.byte2 = byte;
            self.phase = 2;
        } else if self.phase == 2 {
            let buttons = self.byte1;
            let dx = to_signed(self.byte2);
            let dy = to_signed(byte);
            let prev = self.state;

            decode_packet(&mut self.state, buttons, dx, dy);
            if self.state.x >= fb_w {
                self.state.x = fb_w - 1;
            }
            if self.state.y >= fb_h {
                self.state.y = fb_h - 1;
            }

            let x = self.state.x;
            let y = self.state.y;
            let left = self.state.left;
            let right = self.state.right;
            let middle = self.state.middle;
            let buttons_byte: u8 = (if left { 1u8 } else { 0u8 }) + (if right { 2u8 } else { 0u8 }) + (
            if middle { 4u8 } else { 0u8 });

            queue.push(InputEvent::MouseMove { x, y, buttons: buttons_byte });
            Self::report_button(queue, prev.left, left, 0, x, y);
            Self::report_button(queue, prev.right, right, 1, x, y);
            Self::report_button(queue, prev.middle, middle, 2, x, y);

            self.phase = 0;
        } else {
            self.phase = 0;
        }
    }
}

/// Current cursor position and button state.
pub fn get_mouse_state(driver: &MouseDriver) -> (r: MouseState)
    ensures
        r == driver.state,
{
    driver.state
}

} // verus!
