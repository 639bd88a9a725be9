//! Architecture stubs that portable kernel code calls on every target, and
//! the device probes that do not find hardware yet.

use vstd::prelude::*;

verus! {

/// Initialize architecture-specific hardware (nothing to do yet).
pub fn init() {
}

/// Debug character output without a debug device: dropped.
pub fn debug_putchar(byte: u8) {
}

/// No keyboard on AArch64 yet.
pub fn read_char() -> (r: Option<char>)
    ensures
        r is None,
{
    None
}

/// No mouse on AArch64 yet: the position stays at the origin.
pub fn mouse_position() -> (r: (i32, i32))
    ensures
        r == (0i32, 0i32),
{
    (0, 0)
}

/// No mouse buttons on AArch64 yet.
pub fn mouse_buttons() -> (r: u8)
    ensures
        r == 0,
{
    0
}

/// No scancodes on AArch64 yet.
pub fn read_scancode() -> (r: Option<u8>)
    ensures
        r is None,
{
    None
}

/// Signal end-of-interrupt to the interrupt controller (nothing to do yet).
pub fn eoi() {
}

/// No virtio sound device is discovered yet.
pub fn virtio_snd_is_available() -> (b: bool)
    ensures
        !b,
{
    false
}

/// Without a virtio sound device nothing is written.
pub fn virtio_snd_pcm_write(samples: &[u8]) -> (n: usize)
    ensures
        n == 0,
{
    0
}

} // verus!
