//! The virtio sound device. No device is discovered yet, so none is
//! available and nothing is queued.

use vstd::prelude::*;

verus! {

/// Whether a virtio sound device is present: never, until device discovery
/// exists.
pub fn is_available() -> (r: bool)
    ensures
        !r,
{
    false
}

/// Queue PCM samples for the device; returns the bytes queued, none while
/// no device is available.
pub fn pcm_write(samples: &[u8]) -> (n: usize)
    ensures
        n == 0,
{
    0
}

} // verus!
