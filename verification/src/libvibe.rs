//! User-space system interface: system call numbers, the WindowServer message
//! protocol and the kernel input-event wire format.

use vstd::prelude::*;

verus! {

// System call numbers.
pub const SYS_EXIT: usize = 0;
pub const SYS_WRITE: usize = 1;
pub const SYS_READ: usize = 2;
pub const SYS_SPAWN: usize = 3;
pub const SYS_YIELD: usize = 4;
pub const SYS_FORK: usize = 5;
pub const SYS_WAIT: usize = 6;
pub const SYS_EXEC: usize = 7;
pub const SYS_IPC_SEND: usize = 8;
pub const SYS_IPC_RECV: usize = 9;
pub const SYS_SHM_CREATE: usize = 10;
pub const SYS_SHM_MAP: usize = 11;
pub const SYS_FRAMEBUFFER_MAP: usize = 12;
pub const SYS_INPUT_POLL: usize = 13;
pub const SYS_PTYS_OPEN: usize = 14;
pub const SYS_PTYS_READ: usize = 15;
pub const SYS_PTYS_WRITE: usize = 16;
pub const SYS_SPAWN_PTY_SHELL: usize = 17;
pub const SYS_OPEN: usize = 18;
pub const SYS_CLOSE: usize = 19;
pub const SYS_READ_FD: usize = 20;
pub const SYS_WRITE_FD: usize = 21;
pub const SYS_SEEK: usize = 22;
pub const SYS_FSTAT: usize = 23;
pub const SYS_MKDIR: usize = 24;
pub const SYS_UNLINK: usize = 25;
pub const SYS_GETPID: usize = 26;
pub const SYS_DUP: usize = 27;
pub const SYS_PIPE: usize = 28;
pub const SYS_MMAP: usize = 29;
pub const SYS_MUNMAP: usize = 30;
pub const SYS_IOCTL: usize = 31;
pub const SYS_GETTIMEOFDAY: usize = 32;
pub const SYS_NANOSLEEP: usize = 33;
pub const SYS_AUDIO_BEEP: usize = 34;
pub const SYS_AUDIO_PCM_WRITE: usize = 35;
pub const SYS_AUDIO_VOLUME: usize = 36;

/// IPC payload size.
pub const IPC_PAYLOAD_SIZE: usize = 64;

// WindowServer protocol message types (first byte of an IPC payload).
pub const MSG_CREATE_WINDOW: u8 = 1;
pub const MSG_DESTROY_WINDOW: u8 = 2;
pub const MSG_MOVE_WINDOW: u8 = 3;
pub const MSG_RESIZE_WINDOW: u8 = 4;
pub const MSG_WINDOW_READY: u8 = 5;
pub const MSG_FOCUS_WINDOW: u8 = 6;
pub const MSG_INPUT_EVENT: u8 = 7;
pub const MSG_CLOSE_WINDOW: u8 = 8;
pub const MSG_DOCK_CLICK: u8 = 9;
pub const MSG_TERMINAL_READY: u8 = 10;

// Input event types of the kernel's input-poll serialization.
pub const INPUT_MOUSE_MOVE: u8 = 0;
pub const INPUT_MOUSE_DOWN: u8 = 1;
pub const INPUT_MOUSE_UP: u8 = 2;
pub const INPUT_KEY_PRESS: u8 = 3;

// Audio volume commands.
pub const AUDIO_VOL_GET: usize = 0;
pub const AUDIO_VOL_SET: usize = 1;
pub const AUDIO_VOL_STOP: usize = 2;

/// Input event structure deserialized from the kernel.
#[derive(Debug, Clone, Copy, PartialEq, Eq, Structural)]
pub struct InputEvent {
    pub event_type: u8,
    pub x: u16,
    pub y: u16,
    /// Buttons, button, or ASCII code depending on `event_type`.
    pub extra: u8,
}

impl InputEvent {
    /// Wire layout: type, x (LE), y (LE), extra.
    pub fn from_bytes(data: &[u8; 8]) -> (r: Self)
        ensures
            r.event_type == data@[0],
            r.x == data@[1] + 256 * data@[2],
            r.y == data@[3] + 256 * data@[4],
            r.extra == data@[5],
    {
        InputEvent {
            event_type: data[0],
            x: data[1] as u16 + (data[2] as u16) * 256,
            y: data[3] as u16 + (data[4] as u16) * 256,
            extra: data[5],
        }
    }

    pub fn is_mouse_move(&self) -> (r: bool)
        ensures
            r == (self.event_type == INPUT_MOUSE_MOVE),
    {
        self.event_type == INPUT_MOUSE_MOVE
    }

    pub fn is_mouse_down(&self) -> (r: bool)
        ensures
            r == (self.event_type == INPUT_MOUSE_DOWN),
    {
        self.event_type == INPUT_MOUSE_DOWN
    }

    pub fn is_mouse_up(&self) -> (r: bool)
        ensures
            r == (self.event_type == INPUT_MOUSE_UP),
    {
        self.event_type == INPUT_MOUSE_UP
    }

    pub fn is_key_press(&self) -> (r: bool)
        ensures
            r == (self.event_type == INPUT_KEY_PRESS),
    {
        self.event_type == INPUT_KEY_PRESS
    }

    pub fn buttons(&self) -> (r: u8)
        ensures
            r == self.extra,
    {
        self.extra
    }

    pub fn button(&self) -> (r: u8)
        ensures
            r == self.extra,
    {
        self.extra
    }

    pub fn ascii(&self) -> (r: u8)
        ensures
            r == self.extra,
    {
        self.extra
    }
}

/// Framebuffer description returned by the framebuffer-map system call.
#[derive(Debug, Clone, Copy)]
pub struct FramebufferInfo {
    pub addr: u64,
    pub width: u32,
    pub height: u32,
    pub pitch: u32,
    pub bpp: u8,
}

/// Little-endian 16-bit value at `off` of a message.
pub open spec fn msg_u16(msg: Seq<u8>, off: int) -> int {
    msg[off] + 256 * msg[off + 1]
}

/// A message whose first byte is `kind` and whose 16-bit fields starting at
/// byte 1 are `fields`; every other byte is zero.
pub open spec fn message(kind: u8, fields: Seq<u16>) -> Seq<u8> {
    Seq::new(
        IPC_PAYLOAD_SIZE as nat,
        |i: int|
            if i == 0 {
                kind
            } else if 1 <= i < 1 + 2 * fields.len() {
                let f = fields[(i - 1) / 2];
                if (i - 1) % 2 == 0 {
                    (f % 256) as u8
                } else {
                    (f / 256) as u8
                }
            } else {
                0u8
            },
    )
}

fn put_u16(msg: &mut [u8; IPC_PAYLOAD_SIZE], off: usize, v: u16)
    requires
        1 <= off,
        off + 1 < IPC_PAYLOAD_SIZE,
    ensures
        final(msg)@ == old(msg)@.update(off as int, (v % 256) as u8).update(off + 1, (v / 256) as u8),
{
    msg[off] = (v % 256) as u8;
    msg[off + 1] = (v / 256) as u8;
}

/// Build a CreateWindow IPC message.
pub fn msg_create_window(x: u16, y: u16, w: u16, h: u16) -> (r: [u8; IPC_PAYLOAD_SIZE])
    ensures
        r@ == message(MSG_CREATE_WINDOW, seq![x, y, w, h]),
{
    let mut msg = [0u8; IPC_PAYLOAD_SIZE];
    msg[0] = MSG_CREATE_WINDOW;
    put_u16(&mut msg, 1, x);
    put_u16(&mut msg, 3, y);
    put_u16(&mut msg, 5, w);
    put_u16(&mut msg, 7, h);
    assert(msg@ =~= message(MSG_CREATE_WINDOW, seq![x, y, w, h]));
    msg
}

/// Build a DestroyWindow IPC message (window id in bytes 1-2).
pub fn msg_destroy_window(window_id: u16) -> (r: [u8; IPC_PAYLOAD_SIZE])
    ensures
        r@ == message(MSG_DESTROY_WINDOW, seq![window_id]),
{
    let mut msg = [0u8; IPC_PAYLOAD_SIZE];
    msg[0] = MSG_DESTROY_WINDOW;
    put_u16(&mut msg, 1, window_id);
    assert(msg@ =~= message(MSG_DESTROY_WINDOW, seq![window_id]));
    msg
}

/// Build a MoveWindow IPC message.
pub fn msg_move_window(window_id: u16, x: u16, y: u16) -> (r: [u8; IPC_PAYLOAD_SIZE])
    ensures
        r@ == message(MSG_MOVE_WINDOW, seq![window_id, x, y]),
{
    let mut msg = [0u8; IPC_PAYLOAD_SIZE];
    msg[0] = MSG_MOVE_WINDOW;
    put_u16(&mut msg, 1, window_id);
    put_u16(&mut msg, 3, x);
    put_u16(&mut msg, 5, y);
    assert(msg@ =~= message(MSG_MOVE_WINDOW, seq![window_id, x, y]));
    msg
}

/// Build a ResizeWindow IPC message.
pub fn msg_resize_window(window_id: u16, w: u16, h: u16) -> (r: [u8; IPC_PAYLOAD_SIZE])
    ensures
        r@ == message(MSG_RESIZE_WINDOW, seq![window_id, w, h]),
{
    let mut msg = [0u8; IPC_PAYLOAD_SIZE];
    msg[0] = MSG_RESIZE_WINDOW;
    put_u16(&mut msg, 1, window_id);
    put_u16(&mut msg, 3, w);
    put_u16(&mut msg, 5, h);
    assert(msg@ =~= message(MSG_RESIZE_WINDOW, seq![window_id, w, h]));
    msg
}

/// Build a TerminalReady IPC message (sends the window id back).
pub fn msg_terminal_ready(window_id: u16) -> (r: [u8; IPC_PAYLOAD_SIZE])
    ensures
        r@ == message(MSG_TERMINAL_READY, seq![window_id]),
{
    let mut msg = [0u8; IPC_PAYLOAD_SIZE];
    msg[0] = MSG_TERMINAL_READY;
    put_u16(&mut msg, 1, window_id);
    assert(msg@ =~= message(MSG_TERMINAL_READY, seq![window_id]));
    msg
}

/// Parse the window id from a WindowReady response (bytes 1-2).
pub fn parse_window_id(msg: &[u8; IPC_PAYLOAD_SIZE]) -> (r: u16)
    ensures
        r == msg_u16(msg@, 1),
{
    msg[1] as u16 + (msg[2] as u16) * 256
}

/// Little-endian `u16` at `offset`; 0 when the field would run past the payload.
pub fn parse_u16_at(msg: &[u8; IPC_PAYLOAD_SIZE], offset: usize) -> (r: u16)
    ensures
        offset + 1 < IPC_PAYLOAD_SIZE ==> r == msg_u16(msg@, offset as int),
        offset + 1 >= IPC_PAYLOAD_SIZE ==> r == 0,
{
    if offset < IPC_PAYLOAD_SIZE - 1 {
        msg[offset] as u16 + (msg[offset + 1] as u16) * 256
    } else {
        0
    }
}

/// Every 16-bit field written by a message builder reads back unchanged.
pub proof fn message_field_roundtrip(kind: u8, fields: Seq<u16>, k: int)
    requires
        0 <= k < fields.len(),
        1 + 2 * fields.len() <= IPC_PAYLOAD_SIZE,
    ensures
        msg_u16(message(kind, fields), 1 + 2 * k) == fields[k],
        message(kind, fields)[0] == kind,
{
    let m = message(kind, fields);
    assert((1 + 2 * k - 1) / 2 == k && (1 + 2 * k - 1) % 2 == 0);
    assert((2 + 2 * k - 1) / 2 == k && (2 + 2 * k - 1) % 2 == 1);
    assert(m[1 + 2 * k] == (fields[k] % 256) as u8);
    assert(m[2 + 2 * k] == (fields[k] / 256) as u8);
}

} // verus!
