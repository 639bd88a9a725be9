//! Event types dispatched through the view hierarchy, and their IPC encoding.

use vstd::prelude::*;
use crate::bytes::{le16, le32, read_u32};
use crate::libvibe;

verus! {

/// Mouse button identifier.
#[derive(Clone, Copy, Debug, PartialEq, Eq, Structural)]
pub enum MouseButton {
    Left,
    Right,
    Middle,
}

/// Mouse event with position and state.
#[derive(Clone, Copy, Debug, PartialEq, Eq, Structural)]
pub struct MouseEvent {
    pub x: u32,
    pub y: u32,
    pub button: MouseButton,
    pub click_count: u32,
    pub is_down: bool,
    pub is_dragging: bool,
    pub delta_x: i32,
    pub delta_y: i32,
}

/// Keyboard key code (raw scancode).
#[derive(Clone, Copy, Debug, PartialEq, Eq, Structural)]
pub struct KeyCode(pub u8);

/// Input event types dispatched through the view hierarchy.
#[derive(Clone, Copy, Debug, PartialEq, Eq, Structural)]
pub enum InputEvent {
    MouseDown(MouseEvent),
    MouseUp(MouseEvent),
    MouseMove(MouseEvent),
    MouseDrag(MouseEvent),
    KeyDown(KeyCode),
    KeyUp(KeyCode),
}

/// The mouse-down event `mouse_down` builds.
pub open spec fn spec_mouse_down(x: u32, y: u32, button: MouseButton) -> InputEvent {
    InputEvent::MouseDown(
        MouseEvent {
            x,
            y,
            button,
            click_count: 1,
            is_down: true,
            is_dragging: false,
            delta_x: 0,
            delta_y: 0,
        },
    )
}

/// Byte `k` (0 = least significant) of `v`.
pub open spec fn le_byte(v: u32, k: int) -> u8 {
    if k == 0 {
        (v % 256) as u8
    } else if k == 1 {
        ((v / 256) % 256) as u8
    } else if k == 2 {
        ((v / 65536) % 256) as u8
    } else {
        (v / 16777216) as u8
    }
}

/// The 16-byte IPC encoding of an event: a kind byte (1 mouse button, 2 key,
/// 3 move, 4 drag), a flag or key code byte, then x and y little-endian.
pub open spec fn event_bytes(e: InputEvent) -> Seq<u8> {
    let (kind, b1, up, pos) = match e {
        InputEvent::MouseDown(me) => (1u8, 0u8, 0u8, Some((me.x, me.y))),
        InputEvent::MouseUp(me) => (1u8, 1u8, 0u8, Some((me.x, me.y))),
        InputEvent::KeyDown(kc) => (2u8, kc.0, 0u8, None),
        InputEvent::KeyUp(kc) => (2u8, kc.0, 1u8, None),
        InputEvent::MouseMove(me) => (3u8, 0u8, 0u8, Some((me.x, me.y))),
        InputEvent::MouseDrag(me) => (4u8, 0u8, 0u8, Some((me.x, me.y))),
    };
    Seq::new(
        16,
        |i: int|
            if i == 0 {
                kind
            } else if i == 1 {
                b1
            } else if 2 <= i < 10 {
                match pos {
                    Some((x, y)) => if i < 6 { le_byte(x, i - 2) } else { le_byte(y, i - 6) },
                    None => if i == 2 { up } else { 0u8 },
                }
            } else {
                0u8
            },
    )
}

/// The event an IPC payload decodes to, if any: kind 1 is read as a
/// left-button press at the encoded position, kind 2 as a key press of the
/// code in byte 1.
pub open spec fn decode_event(b: Seq<u8>) -> Option<InputEvent> {
    if b.len() < 2 {
        None
    } else if b[0] == 1 {
        if b.len() < 10 {
            None
        } else {
            Some(spec_mouse_down(le32(b, 2) as u32, le32(b, 6) as u32, MouseButton::Left))
        }
    } else if b[0] == 2 {
        Some(InputEvent::KeyDown(KeyCode(b[1])))
    } else {
        None
    }
}

/// Reading back the four bytes of `v` gives `v`.
proof fn lemma_le32_bytes(s: Seq<u8>, i: int, v: u32)
    requires
        0 <= i,
        i + 4 <= s.len(),
        s[i] == le_byte(v, 0),
        s[i + 1] == le_byte(v, 1),
        s[i + 2] == le_byte(v, 2),
        s[i + 3] == le_byte(v, 3),
    ensures
        le32(s, i) == v,
{
    assert(v == (v % 256) + 256 * ((v / 256) % 256) + 65536 * ((v / 65536) % 256) + 16777216 * (v / 16777216))
        by (bit_vector);
    assert(v / 16777216 < 256) by (bit_vector);
}

fn put_le32(buf: &mut [u8; 16], off: usize, v: u32)
    requires
        off + 4 <= 16,
    ensures
        final(buf)@ == old(buf)@.update(off as int, le_byte(v, 0)).update(off + 1, le_byte(v, 1)).update(
            off + 2,
            le_byte(v, 2),
        ).update(off + 3, le_byte(v, 3)),
{
    buf[off] = (v % 256) as u8;
    buf[off + 1] = ((v / 256) % 256) as u8;
    buf[off + 2] = ((v / 65536) % 256) as u8;
    buf[off + 3] = (v / 16777216) as u8;
}

impl InputEvent {
    /// Create a mouse-down event.
    pub fn mouse_down(x: u32, y: u32, button: MouseButton) -> (e: Self)
        ensures
            e == spec_mouse_down(x, y, button),
    {
        InputEvent::MouseDown(
            MouseEvent {
                x,
                y,
                button,
                click_count: 1,
                is_down: true,
                is_dragging: false,
                delta_x: 0,
                delta_y: 0,
            },
        )
    }

    /// Create a mouse-up event.
    pub fn mouse_up(x: u32, y: u32, button: MouseButton) -> (e: Self)
        ensures
            e == InputEvent::MouseUp(
                MouseEvent {
                    x,
                    y,
                    button,
                    click_count: 0,
                    is_down: false,
                    is_dragging: false,
                    delta_x: 0,
                    delta_y: 0,
                },
            ),
    {
        InputEvent::MouseUp(
            MouseEvent {
                x,
                y,
                button,
                click_count: 0,
                is_down: false,
                is_dragging: false,
                delta_x: 0,
                delta_y: 0,
            },
        )
    }

    /// Create a mouse-move event.
    pub fn mouse_move(x: u32, y: u32, dx: i32, dy: i32) -> (e: Self)
        ensures
            e == InputEvent::MouseMove(
                MouseEvent {
                    x,
                    y,
                    button: MouseButton::Left,
                    click_count: 0,
                    is_down: false,
                    is_dragging: false,
                    delta_x: dx,
                    delta_y: dy,
                },
            ),
    {
        InputEvent::MouseMove(
            MouseEvent {
                x,
                y,
                button: MouseButton::Left,
                click_count: 0,
                is_down: false,
                is_dragging: false,
                delta_x: dx,
                delta_y: dy,
            },
        )
    }

    /// Create a key-down event.
    pub fn key_down(code: u8) -> (e: Self)
        ensures
            e == InputEvent::KeyDown(KeyCode(code)),
    {
        InputEvent::KeyDown(KeyCode(code))
    }

    /// Create a key-up event.
    pub fn key_up(code: u8) -> (e: Self)
        ensures
            e == InputEvent::KeyUp(KeyCode(code)),
    {
        InputEvent::KeyUp(KeyCode(code))
    }

    /// Decode an IPC message payload (see `decode_event`).
    pub fn from_bytes(bytes: &[u8]) -> (r: Result<Self, &'static str>)
        ensures
            match decode_event(bytes@) {
                Some(e) => r == Ok::<InputEvent, &'static str>(e),
                None => r is Err,
            },
            bytes@.len() < 2 ==> r->Err_0@ == "too short"@,
            bytes@.len() >= 2 && bytes@[0] == 1 && bytes@.len() < 10 ==> r->Err_0@ == "mouse event too short"@,
            bytes@.len() >= 2 && bytes@[0] != 1 && bytes@[0] != 2 ==> r->Err_0@ == "unknown event type"@,
    {
        proof {
            assert(bytes@.len() == bytes.len());
        }
        if bytes.len() < 2 {
            return Err("too short");
        }
        match bytes[0] {
            0x01 => {
                if bytes.len() < 10 {
                    return Err("mouse event too short");
                }
                let x = read_u32(bytes, 2);
                let y = read_u32(bytes, 6);
                Ok(InputEvent::mouse_down(x, y, MouseButton::Left))
            },
            0x02 => Ok(InputEvent::key_down(bytes[1])),
            _ => Err("unknown event type"),
        }
    }

    /// Serialize to the 16-byte IPC encoding.
    pub fn to_bytes(&self) -> (buf: [u8; 16])
        ensures
            buf@ == event_bytes(*self),
    {
        let mut buf = [0u8; 16];
        match self {
            InputEvent::MouseDown(me) => {
                buf[0] = 0x01;
                put_le32(&mut buf, 2, me.x);
                put_le32(&mut buf, 6, me.y);
            },
            InputEvent::MouseUp(me) => {
                buf[0] = 0x01;
                buf[1] = 0x01;  // up flag
                put_le32(&mut buf, 2, me.x);
                put_le32(&mut buf, 6, me.y);
            },
            InputEvent::KeyDown(kc) => {
                buf[0] = 0x02;
                buf[1] = kc.0;
            },
            InputEvent::KeyUp(kc) => {
                buf[0] = 0x02;
                buf[1] = kc.0;
                buf[2] = 0x01;  // up flag
            },
            InputEvent::MouseMove(me) => {
                buf[0] = 0x03;
                put_le32(&mut buf, 2, me.x);
                put_le32(&mut buf, 6, me.y);
            },
            InputEvent::MouseDrag(me) => {
                buf[0] = 0x04;
                put_le32(&mut buf, 2, me.x);
                put_le32(&mut buf, 6, me.y);
            },
        }
        assert(buf@ =~= event_bytes(*self));
        buf
    }

    /// Convert a kernel input event into a GUI event; an unknown kind becomes a
    /// key release carrying the raw extra byte.
    pub fn from_vibe_input(input: &libvibe::InputEvent) -> (e: Self)
        ensures
            e == (if input.event_type == libvibe::INPUT_MOUSE_MOVE {
                InputEvent::MouseMove(
                    MouseEvent {
                        x: input.x as u32,
                        y: input.y as u32,
                        button: MouseButton::Left,
                        click_count: 0,
                        is_down: false,
                        is_dragging: false,
                        delta_x: 0,
                        delta_y: 0,
                    },
                )
            } else if input.event_type == libvibe::INPUT_MOUSE_DOWN {
                spec_mouse_down(input.x as u32, input.y as u32, MouseButton::Left)
            } else if input.event_type == libvibe::INPUT_MOUSE_UP {
                InputEvent::MouseUp(
                    MouseEvent {
                        x: input.x as u32,
                        y: input.y as u32,
                        button: MouseButton::Left,
                        click_count: 0,
                        is_down: false,
                        is_dragging: false,
                        delta_x: 0,
                        delta_y: 0,
                    },
                )
            } else if input.event_type == libvibe::INPUT_KEY_PRESS {
                InputEvent::KeyDown(KeyCode(input.extra))
            } else {
                InputEvent::KeyUp(KeyCode(input.extra))
            }),
    {
        if input.is_mouse_move() {
            InputEvent::MouseMove(
                MouseEvent {
                    x: input.x as u32,
                    y: input.y as u32,
                    button: MouseButton::Left,
                    click_count: 0,
                    is_down: false,
                    is_dragging: false,
                    delta_x: 0,
                    delta_y: 0,
                },
            )
        } else if input.is_mouse_down() {
            InputEvent::MouseDown(
                MouseEvent {
                    x: input.x as u32,
                    y: input.y as u32,
                    button: MouseButton::Left,
                    click_count: 1,
                    is_down: true,
                    is_dragging: false,
                    delta_x: 0,
                    delta_y: 0,
                },
            )
        } else if input.is_mouse_up() {
            InputEvent::MouseUp(
                MouseEvent {
                    x: input.x as u32,
                    y: input.y as u32,
                    button: MouseButton::Left,
                    click_count: 0,
                    is_down: false,
                    is_dragging: false,
                    delta_x: 0,
                    delta_y: 0,
                },
            )
        } else if input.is_key_press() {
            InputEvent::KeyDown(KeyCode(input.ascii()))
        } else {
            InputEvent::KeyUp(KeyCode(input.extra))
        }
    }

    /// The position of a mouse event.
    pub fn mouse_pos(&self) -> (r: Option<(u32, u32)>)
        ensures
            r == (match *self {
                InputEvent::MouseDown(me) => Some((me.x, me.y)),
                InputEvent::MouseUp(me) => Some((me.x, me.y)),
                InputEvent::MouseMove(me) => Some((me.x, me.y)),
                InputEvent::MouseDrag(me) => Some((me.x, me.y)),
                _ => None,
            }),
    {
        match self {
            InputEvent::MouseDown(me) | InputEvent::MouseUp(me) | InputEvent::MouseMove(me)
            | InputEvent::MouseDrag(me) => Some((me.x, me.y)),
            _ => None,
        }
    }
}

/// Decoding the encoding of a left-button press or of a key press gives the
/// event back.
pub proof fn decode_encoded(e: InputEvent)
    requires
        (exists|x: u32, y: u32| e == spec_mouse_down(x, y, MouseButton::Left)) || e is KeyDown,
    ensures
        decode_event(event_bytes(e)) == Some(e),
{
    let b = event_bytes(e);
    if let InputEvent::MouseDown(me) = e {
        lemma_le32_bytes(b, 2, me.x);
        lemma_le32_bytes(b, 6, me.y);
    }
}

} // verus!
