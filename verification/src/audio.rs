//! Audio subsystem state: the PCM output ring buffer and the master volume.

use vstd::prelude::*;

verus! {

/// 16-bit signed PCM, mono, 8000 Hz.
pub const AUDIO_SAMPLE_RATE: u32 = 8000;
pub const AUDIO_CHANNELS: u8 = 1;
pub const AUDIO_BITS_PER_SAMPLE: u8 = 16;

/// PCM buffer size in bytes: one second of audio.
pub const PCM_BUF_SIZE: usize = 16000;

/// Audio command sent via IPC or system call.
#[derive(Debug, Clone, Copy, PartialEq, Eq, Structural)]
pub enum AudioCmd {
    /// Beep at a frequency (Hz) for a duration (ms).
    Beep,
    /// Write PCM samples to the output buffer.
    PcmWrite,
    /// Set the master volume (0-255).
    SetVolume,
    /// Get the master volume.
    GetVolume,
    /// Stop all playback.
    Stop,
}

/// PCM output buffer: up to `PCM_BUF_SIZE` bytes queued, oldest first.
/// When it is full a new byte overwrites the oldest one. The storage is
/// allocated by the first write.
pub struct PcmRingBuffer {
    data: Vec<u8>,
    /// Position of the oldest queued byte.
    start: usize,
    /// Number of queued bytes.
    count: usize,
}

/// The queue after writing byte `b`: appended, the oldest byte dropped when
/// the queue was full.
pub open spec fn pcm_push(q: Seq<u8>, b: u8) -> Seq<u8> {
    if q.len() < PCM_BUF_SIZE {
        q.push(b)
    } else {
        q.drop_first().push(b)
    }
}

/// The queue after writing `bytes` in order.
pub open spec fn pcm_written(q: Seq<u8>, bytes: Seq<u8>) -> Seq<u8>
    decreases bytes.len(),
{
    if bytes.len() == 0 {
        q
    } else {
        pcm_written(pcm_push(q, bytes[0]), bytes.drop_first())
    }
}

/// `n` bytes read from the queue: the queued bytes first, then silence
/// (zeros) for what is missing; and the queue after them.
pub open spec fn pcm_read_n(q: Seq<u8>, n: nat) -> (Seq<u8>, Seq<u8>) {
    let k = if n <= q.len() { n as int } else { q.len() as int };
    (q.subrange(0, k) + Seq::new((n - k) as nat, |i: int| 0u8), q.subrange(k, q.len() as int))
}

/// Storage position of queued byte `i`.
pub open spec fn ring_pos(start: int, i: int) -> int {
    if start + i < PCM_BUF_SIZE { start + i } else { start + i - PCM_BUF_SIZE }
}

impl View for PcmRingBuffer {
    type V = Seq<u8>;

    closed spec fn view(&self) -> Seq<u8> {
        Seq::new(self.count as nat, |i: int| self.data@[ring_pos(self.start as int, i)])
    }
}

impl PcmRingBuffer {
    /// The storage is empty (never written) or a full ring, and the queue
    /// fits in it.
    pub closed spec fn wf(&self) -> bool {
        &&& self.data@.len() == 0 || self.data@.len() == PCM_BUF_SIZE
        &&& self.data@.len() == 0 ==> self.count == 0
        &&& self.start < PCM_BUF_SIZE
        &&& self.count <= PCM_BUF_SIZE
    }

    pub fn new() -> (b: PcmRingBuffer)
        ensures
            b.wf(),
            b@ == Seq::<u8>::empty(),
    {
        let b = PcmRingBuffer { data: Vec::new(), start: 0, count: 0 };
        assert(b@ =~= Seq::<u8>::empty());
        b
    }

    /// Queue one byte.
    fn push_byte(&mut self, b: u8)
        requires
            old(self).wf(),
        ensures
            final(self).wf(),
            final(self)@ == pcm_push(old(self)@, b),
    {
        let ghost q = self@;
        if self.data.len() == 0 {
            self.data = vec![0u8; PCM_BUF_SIZE];
            assert(self@ =~= q);
        }
        let ghost q1 = self@;
        let ghost d1 = self.data@;
        assert(q1 == q);
        let p = if self.start + self.count < PCM_BUF_SIZE {
            self.start + self.count
        } else {
            self.start + self.count - PCM_BUF_SIZE
        };
        self.data.set(p, b);
        if self.count < PCM_BUF_SIZE {
            self.count = self.count + 1;
            assert(self@ =~= q.push(b)) by {
                assert forall|i: int| 0 <= i < q.len() implies self.data@[ring_pos(self.start as int, i)] == q[i] by {
                    assert(ring_pos(self.start as int, i) != p);
                }
            }
        } else {
            self.start = if self.start + 1 < PCM_BUF_SIZE { self.start + 1 } else { 0 };
            assert(self@ =~= q.drop_first().push(b)) by {
                assert forall|i: int| 0 <= i < PCM_BUF_SIZE - 1 implies self.data@[ring_pos(self.start as int, i)]
                    == q[i + 1] by {
                    assert(ring_pos(self.start as int, i) == ring_pos(old(self).start as int, i + 1));
                    assert(ring_pos(self.start as int, i) != p);
                }
                assert(ring_pos(self.start as int, PCM_BUF_SIZE - 1) == p);
            }
        }
    }

    /// Write samples; returns how many bytes were taken (all of them).
    pub fn write(&mut self, samples: &[u8]) -> (n: usize)
        requires
            old(self).wf(),
        ensures
            final(self).wf(),
            final(self)@ == pcm_written(old(self)@, samples@),
            n == samples@.len(),
    {
        let ghost q0 = self@;
        let mut i: usize = 0;
        while i < samples.len()
            invariant
                i <= samples@.len(),
                self.wf(),
                self@ == pcm_written(q0, samples@.subrange(0, i as int)),
            decreases samples.len() - i,
        {
            self.push_byte(samples[i]);
            proof {
                lemma_written_prefix(q0, samples@, i as int);
            }
            i = i + 1;
        }
        assert(samples@.subrange(0, samples@.len() as int) =~= samples@);
        samples.len()
    }

    /// Fill `buf` with the queued bytes, oldest first, then silence once
    /// the queue is empty; returns `buf.len()`.
    pub fn read(&mut self, buf: &mut [u8]) -> (n: usize)
        requires
            old(self).wf(),
        ensures
            final(self).wf(),
            final(self)@ == pcm_read_n(old(self)@, old(buf)@.len()).1,
            final(buf)@ == pcm_read_n(old(self)@, old(buf)@.len()).0,
            n == old(buf)@.len(),
    {
        let ghost q0 = self@;
        let ghost n0 = buf@.len();
        let ghost k0: int = if n0 <= q0.len() { n0 as int } else { q0.len() as int };
        let mut count: usize = 0;
        while count < buf.len()
            invariant
                count <= buf@.len(),
                buf@.len() == n0,
                self.wf(),
                k0 == (if n0 <= q0.len() { n0 as int } else { q0.len() as int }),
                count <= k0 ==> self@ == q0.subrange(count as int, q0.len() as int),
                count > k0 ==> self@ == q0.subrange(k0, q0.len() as int) && self@.len() == 0,
                forall|j: int| 0 <= j < count ==> #[trigger] buf@[j] == if j < k0 { q0[j] } else { 0u8 },
            decreases buf.len() - count,
        {
            let ghost q = self@;
            let ghost before = buf@;
            if self.count > 0 {
                let b = self.data[self.start];
                assert(ring_pos(self.start as int, 0) == self.start);
                assert(b == q[0]);
                assert(count <= k0 && q[0] == q0[count as int]);
                buf[count] = b;
                self.start = if self.start + 1 < PCM_BUF_SIZE { self.start + 1 } else { 0 };
                self.count = self.count - 1;
                assert(self@ =~= q.drop_first()) by {
                    assert forall|i: int| 0 <= i < self.count implies self.data@[ring_pos(self.start as int, i)]
                        == q[i + 1] by {
                        assert(ring_pos(self.start as int, i) == ring_pos(old(self).start as int, i + 1) || true);
                    }
                }
                assert(count < k0);
                assert(buf@[count as int] == q0[count as int]);
            } else {
                buf[count] = 0;
                assert(count >= k0);
            }
            assert forall|j: int| 0 <= j < count implies #[trigger] buf@[j] == before[j] by {}
            proof {
                if count + 1 <= k0 {
                    assert(self@ =~= q0.subrange(count + 1, q0.len() as int));
                }
            }
            count = count + 1;
        }
        let ghost res = pcm_read_n(q0, n0);
        assert(buf@ =~= res.0);
        assert(self@ =~= res.1);
        count
    }

    /// Number of queued bytes.
    pub fn len(&self) -> (n: usize)
        requires
            self.wf(),
        ensures
            n == self@.len(),
    {
        self.count
    }

    /// Drop everything.
    pub fn clear(&mut self)
        ensures
            final(self).wf(),
            final(self)@ == Seq::<u8>::empty(),
    {
        self.data.clear();
        self.start = 0;
        self.count = 0;
        assert(self@ =~= Seq::<u8>::empty());
    }
}

proof fn lemma_written_prefix(q: Seq<u8>, bytes: Seq<u8>, i: int)
    requires
        0 <= i < bytes.len(),
    ensures
        pcm_written(q, bytes.subrange(0, i + 1)) == pcm_push(pcm_written(q, bytes.subrange(0, i)), bytes[i]),
    decreases i,
{
    if i > 0 {
        let rest = bytes.drop_first();
        lemma_written_prefix(pcm_push(q, bytes[0]), rest, i - 1);
        assert(bytes.subrange(0, i + 1).drop_first() =~= rest.subrange(0, i));
        assert(bytes.subrange(0, i).drop_first() =~= rest.subrange(0, i - 1));
        assert(bytes.subrange(0, i + 1)[0] == bytes[0]);
        assert(bytes.subrange(0, i)[0] == bytes[0]);
        assert(rest[i - 1] == bytes[i]);
        let s1 = pcm_push(q, bytes[0]);
        assert(pcm_written(q, bytes.subrange(0, i + 1)) == pcm_written(s1, rest.subrange(0, i)));
        assert(pcm_written(q, bytes.subrange(0, i)) == pcm_written(s1, rest.subrange(0, i - 1)));
    } else {
        assert(bytes.subrange(0, 1).drop_first() =~= Seq::<u8>::empty());
        assert(bytes.subrange(0, 0) =~= Seq::<u8>::empty());
        assert(bytes.subrange(0, 1)[0] == bytes[0]);
        let s1 = pcm_push(q, bytes[0]);
        assert(pcm_written(s1, Seq::<u8>::empty()) == s1);
        assert(pcm_written(q, bytes.subrange(0, 1)) == pcm_written(s1, bytes.subrange(0, 1).drop_first()));
        assert(pcm_written(q, bytes.subrange(0, 0)) == q);
    }
}

/// What is read back is what was written, oldest first, as long as no more
/// than the buffer holds was written since it was empty.
pub proof fn read_after_write(bytes: Seq<u8>, n: nat)
    requires
        bytes.len() <= PCM_BUF_SIZE,
    ensures
        pcm_written(Seq::empty(), bytes) == bytes,
        n >= bytes.len() ==> pcm_read_n(pcm_written(Seq::empty(), bytes), n).0 == bytes + Seq::new(
            (n - bytes.len()) as nat,
            |i: int| 0u8,
        ),
{
    lemma_written_short(Seq::empty(), bytes);
    assert(Seq::<u8>::empty() + bytes =~= bytes);
    if n >= bytes.len() {
        assert(bytes.subrange(0, bytes.len() as int) =~= bytes);
    }
}

/// Writing into a queue that does not overflow appends.
proof fn lemma_written_short(q: Seq<u8>, bytes: Seq<u8>)
    requires
        q.len() + bytes.len() <= PCM_BUF_SIZE,
    ensures
        pcm_written(q, bytes) == q + bytes,
    decreases bytes.len(),
{
    if bytes.len() > 0 {
        lemma_written_short(q.push(bytes[0]), bytes.drop_first());
        assert(q.push(bytes[0]) + bytes.drop_first() =~= q + bytes);
    }
}

/// Audio subsystem state: master volume, PCM output buffer, readiness.
pub struct AudioState {
    pub volume: u8,
    pub pcm: PcmRingBuffer,
    pub initialized: bool,
}

impl AudioState {
    /// Volume 128, empty buffer, not yet initialized.
    pub fn new() -> (a: AudioState)
        ensures
            a.volume == 128,
            a.pcm.wf(),
            a.pcm@ == Seq::<u8>::empty(),
            !a.initialized,
    {
        AudioState { volume: 128, pcm: PcmRingBuffer::new(), initialized: false }
    }
}

/// Mark the subsystem ready (the speaker itself is set up by the caller).
pub fn init(state: &mut AudioState)
    ensures
        final(state).initialized,
        final(state).volume == old(state).volume,
        final(state).pcm@ == old(state).pcm@,
{
    state.initialized = true;
}

/// The part of a PCM write that needs no scaling: muted output takes
/// nothing (`Some(0)`), full volume queues the bytes as they are
/// (`Some(len)`); at any other volume nothing is done and `None` says the
/// samples must first be scaled by `volume / 255`.
pub fn pcm_write_unscaled(state: &mut AudioState, samples: &[u8]) -> (r: Option<usize>)
    requires
        old(state).pcm.wf(),
    ensures
        final(state).pcm.wf(),
        final(state).volume == old(state).volume,
        final(state).initialized == old(state).initialized,
        old(state).volume == 0 ==> r == Some(0usize) && final(state).pcm@ == old(state).pcm@,
        old(state).volume == 255 ==> r == Some(samples@.len() as usize) && final(state).pcm@ == pcm_written(
            old(state).pcm@,
            samples@,
        ),
        0 < old(state).volume < 255 ==> r is None && final(state).pcm@ == old(state).pcm@,
{
    if state.volume == 0 {
        Some(0)
    } else if state.volume == 255 {
        Some(state.pcm.write(samples))
    } else {
        None
    }
}

/// Read samples for the output device (silence when nothing is buffered).
pub fn pcm_read(state: &mut AudioState, buf: &mut [u8]) -> (n: usize)
    requires
        old(state).pcm.wf(),
    ensures
        final(state).pcm.wf(),
        final(state).pcm@ == pcm_read_n(old(state).pcm@, old(buf)@.len()).1,
        final(buf)@ == pcm_read_n(old(state).pcm@, old(buf)@.len()).0,
        n == old(buf)@.len(),
        final(state).volume == old(state).volume,
        final(state).initialized == old(state).initialized,
{
    state.pcm.read(buf)
}

pub fn set_volume(state: &mut AudioState, vol: u8)
    ensures
        final(state).volume == vol,
        final(state).pcm@ == old(state).pcm@,
        final(state).initialized == old(state).initialized,
{
    state.volume = vol;
}

pub fn get_volume(state: &AudioState) -> (v: u8)
    ensures
        v == state.volume,
{
    state.volume
}

/// Drop all buffered samples (the speaker is silenced by the caller).
pub fn stop(state: &mut AudioState)
    ensures
        final(state).pcm.wf(),
        final(state).pcm@ == Seq::<u8>::empty(),
        final(state).volume == old(state).volume,
        final(state).initialized == old(state).initialized,
{
    state.pcm.clear();
}

pub fn is_initialized(state: &AudioState) -> (b: bool)
    ensures
        b == state.initialized,
{
    state.initialized
}

} // verus!
