//! User-space audio: PCM waveform generation (16-bit signed, mono, 8 kHz) and mixing.

use vstd::prelude::*;

verus! {

pub const SAMPLE_RATE: u32 = 8000;
pub const CHANNELS: u8 = 1;
pub const BITS_PER_SAMPLE: u8 = 16;

/// Number of samples in `duration_ms` milliseconds.
pub open spec fn sample_count(duration_ms: u32) -> int {
    SAMPLE_RATE as int * duration_ms as int / 1000
}

/// Bhaskara I's sine approximation over half a period: for `h` in
/// `0 ..= 32768` standing for an angle of `h / 32768 * pi`, the value
/// `32767 * 16 p / (5 pi^2 - 4 p)` with `p = h (32768 - h)` (angles scaled so
/// that pi is 32768), rounded towards zero.
pub open spec fn bhaskara(h: int) -> int {
    let p = h * (32768 - h);
    (32767 * 16 * p) / (5 * 0x4000_0000 - 4 * p)
}

/// Sine of a phase (the full `u32` range is one period, 2^32 = 2 pi), scaled
/// to `-32767 ..= 32767`: Bhaskara I's approximation of `32767 sin(phase)`
/// on the top 16 bits of the phase, positive over the first half period and
/// negative over the second.
pub open spec fn spec_sine_approx(phase: u32) -> int {
    let t = (phase >> 16u32) as int;
    if t < 32768 { bhaskara(t) } else { -bhaskara(t - 32768) }
}

/// `v * 24000 / 32767`, rounded towards zero (about 75% amplitude).
pub open spec fn scale_amplitude(v: int) -> int {
    if v >= 0 {
        v * 24000 / 32767
    } else {
        -((-v) * 24000 / 32767)
    }
}

/// Phase advance per sample for a tone of `freq` Hz.
pub open spec fn phase_step(freq: u32) -> int {
    ((freq as int * 0x1_0000_0000) / (SAMPLE_RATE as int)) % 0x1_0000_0000
}

proof fn lemma_bhaskara_range(h: int)
    requires
        0 <= h <= 32768,
    ensures
        0 <= bhaskara(h) <= 32767,
        0 <= h * (32768 - h) <= 0x1000_0000,
{
    let p = h * (32768 - h);
    assert(0 <= p <= 0x1000_0000) by (nonlinear_arith)
        requires p == h * (32768 - h), 0 <= h <= 32768;
    let d = 5 * 0x4000_0000 - 4 * p;
    assert(16 * p <= d);
    assert((32767 * 16 * p) / d <= 32767) by (nonlinear_arith)
        requires 16 * p <= d, d > 0, p >= 0;
    assert((32767 * 16 * p) / d >= 0) by (nonlinear_arith)
        requires d > 0, p >= 0;
}

/// The sine approximation is odd over the period and symmetric about a
/// quarter period, as sine is: `sin(pi + x) = -sin(x)` and
/// `sin(pi - x) = sin(x)`; it is 0 at 0 and pi, and at its extremes
/// (+-32767) at a quarter and three quarters of the period.
pub proof fn sine_approx_shape(t: u32)
    requires
        t < 32768,
    ensures
        spec_sine_approx((((t as int + 32768) * 65536) as u32)) == -spec_sine_approx(((t as int * 65536) as u32)),
        spec_sine_approx((((32768 - t) * 65536) as u32)) == spec_sine_approx(((t as int * 65536) as u32)),
        spec_sine_approx(0) == 0,
        spec_sine_approx(0x8000_0000) == 0,
        spec_sine_approx(0x4000_0000) == 32767,
        spec_sine_approx(0xC000_0000) == -32767,
        22000 <= spec_sine_approx(0x2000_0000) <= 24500,
{
    let a = (t as int * 65536) as u32;
    let b = ((t as int + 32768) * 65536) as u32;
    let c = ((32768 - t) * 65536) as u32;
    assert(a >> 16u32 == t) by (bit_vector)
        requires t < 32768, a == (t * 65536) as u32;
    assert(b >> 16u32 == t + 32768) by (bit_vector)
        requires t < 32768, b == ((t + 32768) * 65536) as u32;
    if t == 0 {
        assert(c >> 16u32 == 32768) by (bit_vector)
            requires c == ((32768 - 0) * 65536) as u32;
        assert(bhaskara(0) == 0);
    } else {
        assert(c >> 16u32 == 32768 - t) by (bit_vector)
            requires 0 < t < 32768, c == ((32768 - t) * 65536) as u32;
        assert((32768 - t) * (32768 - (32768 - t)) == t * (32768 - t)) by (nonlinear_arith);
    }
    assert((0u32 >> 16u32) == 0 && (0x8000_0000u32 >> 16u32) == 32768 && (0x4000_0000u32 >> 16u32) == 16384
        && (0xC000_0000u32 >> 16u32) == 49152 && (0x2000_0000u32 >> 16u32) == 8192) by (bit_vector);
    assert(16384 * (32768 - 16384) == 268435456);
    assert(bhaskara(16384) == 140733193388032int / 4294967296int);
    assert(140733193388032int / 4294967296int == 32767) by (nonlinear_arith);
    assert(8192 * (32768 - 8192) == 201326592);
    assert(bhaskara(8192) == 105549895041024int / 4563402752int);
    assert(105549895041024int / 4563402752int == 23129) by (nonlinear_arith);
}

fn sine_approx(phase: u32) -> (r: i16)
    ensures
        r == spec_sine_approx(phase),
        -32767 <= r <= 32767,
{
    let t = phase >> 16;
    assert(t <= 65535) by (bit_vector)
        requires t == phase >> 16u32;
    let neg = t >= 32768;
    let h: u64 = if neg { (t - 32768) as u64 } else { t as u64 };
    proof {
        lemma_bhaskara_range(h as int);
    }
    let p = h * (32768 - h);
    assert(32767 * 16 * p <= 32767 * 16 * 0x1000_0000u64) by (nonlinear_arith)
        requires p <= 0x1000_0000u64;
    let v = (32767 * 16 * p) / (5 * 0x4000_0000 - 4 * p);
    assert(v == bhaskara(h as int));
    if neg { -(v as i16) } else { v as i16 }
}

/// Generate a sine wave at the given frequency and duration.
pub fn sine_wave(freq: u32, duration_ms: u32) -> (samples: Vec<i16>)
    requires
        sample_count(duration_ms) <= usize::MAX,
    ensures
        samples@.len() == sample_count(duration_ms),
        forall|k: int| 0 <= k < samples@.len() ==> #[trigger] samples@[k] == scale_amplitude(
            spec_sine_approx(((k * phase_step(freq)) % 0x1_0000_0000) as u32),
        ),
{
    let num_samples = (SAMPLE_RATE as u64 * duration_ms as u64 / 1000) as usize;
    let mut samples: Vec<i16> = Vec::new();
    let phase_increment = (((freq as u64 * 0x1_0000_0000u64) / SAMPLE_RATE as u64) % 0x1_0000_0000u64) as u32;
    assert(phase_increment == phase_step(freq));
    let mut phase: u32 = 0;
    let mut i: usize = 0;
    while i < num_samples
        invariant
            i <= num_samples,
            num_samples == sample_count(duration_ms),
            phase_increment == phase_step(freq),
            samples@.len() == i,
            phase == (i * phase_step(freq)) % 0x1_0000_0000,
            forall|k: int| 0 <= k < i ==> #[trigger] samples@[k] == scale_amplitude(
                spec_sine_approx(((k * phase_step(freq)) % 0x1_0000_0000) as u32),
            ),
        decreases num_samples - i,
    {
        let sample = sine_approx(phase) as i32;
        let scaled: i32 = if sample >= 0 { sample * 24000 / 32767 } else { -((-sample) * 24000 / 32767) };
        samples.push(scaled as i16);
        proof {
            assert(((i + 1) * phase_step(freq)) % 0x1_0000_0000 == (phase + phase_increment) % 0x1_0000_0000)
                by (nonlinear_arith)
                requires phase == (i * phase_step(freq)) % 0x1_0000_0000, phase_increment == phase_step(freq);
        }
        phase = phase.wrapping_add(phase_increment);
        i += 1;
    }
    samples
}

/// State of the noise generator's 16-bit LFSR after `k` steps.
pub open spec fn lfsr_state(k: nat) -> u32
    decreases k,
{
    if k == 0 {
        0xACE1
    } else {
        let s = lfsr_state((k - 1) as nat);
        let bit = (s ^ (s >> 2u32) ^ (s >> 3u32) ^ (s >> 5u32)) & 1u32;
        (s >> 1u32) | (bit << 15u32)
    }
}

/// Sample `k` of the noise generator.
pub open spec fn noise_sample(k: nat) -> i16 {
    let s = lfsr_state(k);
    if (s ^ (s >> 2u32) ^ (s >> 3u32) ^ (s >> 5u32)) & 1u32 == 1 {
        16000
    } else {
        -16000i16
    }
}

/// Generate white noise for the given duration.
pub fn noise(duration_ms: u32) -> (samples: Vec<i16>)
    requires
        sample_count(duration_ms) <= usize::MAX,
    ensures
        samples@.len() == sample_count(duration_ms),
        forall|k: int| 0 <= k < samples@.len() ==> #[trigger] samples@[k] == noise_sample(k as nat),
{
    let num_samples = (SAMPLE_RATE as u64 * duration_ms as u64 / 1000) as usize;
    let mut samples: Vec<i16> = Vec::new();
    // Simple LFSR-based pseudo-random noise.
    let mut lfsr: u32 = 0xACE1u32;
    let mut i: usize = 0;
    while i < num_samples
        invariant
            i <= num_samples,
            num_samples == sample_count(duration_ms),
            samples@.len() == i,
            lfsr == lfsr_state(i as nat),
            forall|k: int| 0 <= k < i ==> #[trigger] samples@[k] == noise_sample(k as nat),
        decreases num_samples - i,
    {
        let bit = ((lfsr >> 0) ^ (lfsr >> 2) ^ (lfsr >> 3) ^ (lfsr >> 5)) & 1;
        assert(lfsr >> 0u32 == lfsr) by (bit_vector);
        let sample: i16 = if bit == 1 { 16000 } else { -16000 };
        samples.push(sample);
        lfsr = (lfsr >> 1) | (bit << 15);
        i += 1;
    }
    samples
}

/// Sum of two samples, clipped to the `i16` range.
pub open spec fn mixed(a: i16, b: i16) -> i16 {
    if a + b > 32767 {
        32767
    } else if a + b < -32768 {
        -32768i16
    } else {
        (a + b) as i16
    }
}

/// Mix two mono PCM streams by adding samples with clipping. The result is as
/// long as the shorter stream.
pub fn mix(a: &[i16], b: &[i16]) -> (result: Vec<i16>)
    ensures
        result@.len() == if a@.len() < b@.len() { a@.len() } else { b@.len() },
        forall|i: int| 0 <= i < result@.len() ==> #[trigger] result@[i] == mixed(a@[i], b@[i]),
{
    let len = if a.len() < b.len() { a.len() } else { b.len() };
    let mut result: Vec<i16> = Vec::new();
    let mut i: usize = 0;
    while i < len
        invariant
            i <= len,
            len <= a@.len(),
            len <= b@.len(),
            len == if a@.len() < b@.len() { a@.len() } else { b@.len() },
            result@.len() == i,
            forall|k: int| 0 <= k < i ==> #[trigger] result@[k] == mixed(a@[k], b@[k]),
        decreases len - i,
    {
        let m = a[i] as i32 + b[i] as i32;
        result.push(if m > 32767 { 32767 } else if m < -32768 { -32768 } else { m as i16 });
        i += 1;
    }
    result
}

} // verus!
