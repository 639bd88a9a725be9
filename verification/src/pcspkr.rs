//! PC speaker: square-wave tones from PIT channel 2. The port writes happen
//! elsewhere; this computes what is written.

use vstd::prelude::*;

verus! {

/// PIT input clock frequency (Hz).
pub const PIT_FREQUENCY: u32 = 1_193_182;

/// Gate and data bits of the speaker control port.
pub const SPEAKER_BITS: u8 = 0x03;

/// The PIT channel 2 divisor for a tone of `freq` Hz; audible frequencies
/// only (1 to 20000 Hz).
pub fn pit_divisor(freq: u32) -> (d: Option<u16>)
    ensures
        freq == 0 || freq > 20000 ==> d is None,
        0 < freq <= 20000 ==> d == Some((PIT_FREQUENCY / freq) as u16),
{
    if freq == 0 || freq > 20000 {
        return None;
    }
    Some((PIT_FREQUENCY / freq) as u16)
}

/// Speaker control value with the speaker connected to the timer.
pub fn speaker_on(val: u8) -> (r: u8)
    ensures
        r == val | SPEAKER_BITS,
{
    val | SPEAKER_BITS
}

/// Speaker control value with the speaker disconnected.
pub fn speaker_off(val: u8) -> (r: u8)
    ensures
        r == val & !SPEAKER_BITS,
{
    val & !SPEAKER_BITS
}

/// Initialize the driver (nothing to compute; the speaker is silenced by the
/// port-level code on x86_64).
pub fn init() {
}

/// Without a PC speaker (any architecture but x86_64), a beep does nothing.
pub fn beep(freq: u32, duration_ms: u32) {
}

/// Without a PC speaker, silencing does nothing.
pub fn silence() {
}

} // verus!
