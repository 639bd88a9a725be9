//! Software mouse cursor: the 16x16 arrow bitmap, position clamping and the
//! tracked cursor state.

use vstd::prelude::*;

verus! {

/// 16x16 arrow, one bit per pixel, rows of two bytes, leftmost pixel in the
/// top bit.
pub const CURSOR_BITMAP: [u8; 32] = [
    0b10000000, 0b00000000,
    0b11000000, 0b00000000,
    0b10100000, 0b00000000,
    0b10010000, 0b00000000,
    0b10001000, 0b00000000,
    0b10000100, 0b00000000,
    0b10000010, 0b00000000,
    0b10000001, 0b00000000,
    0b10000000, 0b10000000,
    0b10000000, 0b01000000,
    0b10000000, 0b00100000,
    0b10000000, 0b00010000,
    0b10000000, 0b00011000,
    0b10000000, 0b00000000,
    0b10000001, 0b10000000,
    0b11000011, 0b10000000,
];

pub const CURSOR_FG: u32 = 0xFFFFFF;
pub const CURSOR_OUTLINE: u32 = 0x000000;

/// Pixel `(x, y)` of the arrow is drawn.
pub open spec fn spec_pixel_set(x: int, y: int) -> bool {
    let bit_index = y * 16 + x;
    (CURSOR_BITMAP@[bit_index / 8] >> ((7 - bit_index % 8) as u8)) & 1u8 != 0u8
}

/// Whether pixel `(x, y)` of the 16x16 arrow is drawn.
pub fn pixel_set(x: u16, y: u16) -> (b: bool)
    requires
        x < 16,
        y < 16,
    ensures
        b == spec_pixel_set(x as int, y as int),
{
    let bit_index = y as usize * 16 + x as usize;
    let byte_idx = bit_index / 8;
    let bit_idx = 7 - (bit_index % 8);
    (CURSOR_BITMAP[byte_idx] >> bit_idx) & 1 != 0
}

/// Clamp a pointer position so the whole 16x16 cursor stays on a
/// `max_x` x `max_y` screen (coordinates wrap to 16 bits, as the cursor
/// registers do, when the screen is narrower than the cursor).
pub fn clamp_position(x: i32, y: i32, max_x: u16, max_y: u16) -> (r: (u16, u16))
    ensures
        r.0 == ({
            let a = if x >= 0 { x as int } else { 0 };
            (if a <= max_x - 16 { a } else { max_x - 16 }) as u16
        }),
        r.1 == ({
            let a = if y >= 0 { y as int } else { 0 };
            (if a <= max_y - 16 { a } else { max_y - 16 }) as u16
        }),
{
    let cx = if x >= 0 { x } else { 0 };
    let cy = if y >= 0 { y } else { 0 };
    let lim_x = max_x as i32 - 16;
    let lim_y = max_y as i32 - 16;
    ((if cx <= lim_x { cx } else { lim_x }) as u16, (if cy <= lim_y { cy } else { lim_y }) as u16)
}

/// Where the cursor is drawn and whether it is on screen.
pub struct CursorState {
    pub x: u16,
    pub y: u16,
    pub visible: bool,
}

/// The cursor starts hidden at the origin.
pub fn init() -> (c: CursorState)
    ensures
        c.x == 0 && c.y == 0 && !c.visible,
{
    CursorState { x: 0, y: 0, visible: false }
}

/// The cursor's current position.
pub fn get_position(cursor: &CursorState) -> (r: (u16, u16))
    ensures
        r == (cursor.x, cursor.y),
{
    (cursor.x, cursor.y)
}

} // verus!
