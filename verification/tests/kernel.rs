use aperture::audio::{self, AudioState, PcmRingBuffer, PCM_BUF_SIZE};
use aperture::boot_info::{MemoryRegion, MemoryRegionKind};
use aperture::cursor;
use aperture::dyld::{read_sleb128, read_uleb128, resolve_symbol, DyldState, LIBC_BASE, LIB_ALIGN, LIB_BASE};
use aperture::input::{InputEvent, InputQueue};
use aperture::ipc::{self, IpcMessage, IPC_PAYLOAD_SIZE};
use aperture::kgui::{blend, Color};
use aperture::libaudio::{mix, sine_wave, SAMPLE_RATE};
use aperture::mm::frame_allocator::{self, FrameAllocator};
use aperture::mm::{self, BumpAllocator};
use aperture::pcspkr::{pit_divisor, speaker_off, speaker_on};
use aperture::uart;

fn region(start: u64, end: u64, kind: MemoryRegionKind) -> MemoryRegion {
    MemoryRegion { start, end, kind }
}

fn msg(sender: usize, tag: u8) -> IpcMessage {
    let mut payload = [0u8; IPC_PAYLOAD_SIZE];
    payload[0] = tag;
    IpcMessage { sender, msg_type: tag, payload }
}

#[test]
fn pcm_ring_buffer_reads_back_what_was_written() {
    let mut pcm = PcmRingBuffer::new();
    assert_eq!(pcm.len(), 0);
    assert_eq!(pcm.write(&[1, 2, 3, 4]), 4);
    assert_eq!(pcm.len(), 4);
    let mut out = [9u8; 6];
    assert_eq!(pcm.read(&mut out), 6);
    assert_eq!(out, [1, 2, 3, 4, 0, 0]);
    assert_eq!(pcm.len(), 0);
}

#[test]
fn pcm_ring_buffer_drops_the_oldest_once_full() {
    let mut pcm = PcmRingBuffer::new();
    assert_eq!(pcm.write(&vec![7u8; PCM_BUF_SIZE]), PCM_BUF_SIZE);
    assert_eq!(pcm.len(), PCM_BUF_SIZE);
    assert_eq!(pcm.write(&[1, 2, 3]), 3);
    assert_eq!(pcm.len(), PCM_BUF_SIZE);
    let mut all = vec![0u8; PCM_BUF_SIZE];
    assert_eq!(pcm.read(&mut all), PCM_BUF_SIZE);
    assert_eq!(&all[PCM_BUF_SIZE - 4..], &[7, 1, 2, 3]);
    assert_eq!(pcm.len(), 0);
    pcm.write(&[5]);
    pcm.clear();
    assert_eq!(pcm.len(), 0);
}

#[test]
fn kernel_pcm_read_gives_queued_samples_then_silence() {
    let mut st = AudioState::new();
    audio::set_volume(&mut st, 255);
    assert_eq!(st.pcm.write(&[1, 2, 3, 4]), 4);
    let mut buf = [9u8; 6];
    assert_eq!(audio::pcm_read(&mut st, &mut buf), 6);
    assert_eq!(buf, [1, 2, 3, 4, 0, 0]);
}

#[test]
fn kernel_pcm_write_passes_full_volume_and_drops_muted_samples() {
    let mut st = AudioState::new();
    audio::set_volume(&mut st, 0);
    assert_eq!(audio::pcm_write_unscaled(&mut st, &[7, 8]), Some(0));
    audio::set_volume(&mut st, 128);
    assert_eq!(audio::pcm_write_unscaled(&mut st, &[7, 8]), None);
    audio::set_volume(&mut st, 255);
    assert_eq!(audio::pcm_write_unscaled(&mut st, &[1, 2, 3, 4]), Some(4));
    let mut buf = [9u8; 6];
    assert_eq!(audio::pcm_read(&mut st, &mut buf), 6);
    assert_eq!(buf, [1, 2, 3, 4, 0, 0]);
}

#[test]
fn audio_state_volume_and_stop() {
    let mut st = AudioState::new();
    assert!(!audio::is_initialized(&st));
    assert_eq!(audio::get_volume(&st), 128);
    audio::init(&mut st);
    assert!(audio::is_initialized(&st));
    audio::set_volume(&mut st, 40);
    assert_eq!(audio::get_volume(&st), 40);
    st.pcm.write(&[1, 2, 3]);
    audio::stop(&mut st);
    let mut buf = [5u8; 2];
    assert_eq!(audio::pcm_read(&mut st, &mut buf), 2);
    assert_eq!(buf, [0, 0]);
}

#[test]
fn ipc_delivers_each_task_its_own_messages_in_order() {
    let mut mb = ipc::init();
    ipc::send(&mut mb, 2, msg(1, 10));
    ipc::send(&mut mb, 3, msg(1, 20));
    ipc::send(&mut mb, 2, msg(4, 30));
    assert_eq!(ipc::recv(&mut mb, 2).map(|m| m.msg_type), Some(10));
    assert_eq!(ipc::recv(&mut mb, 2).map(|m| (m.sender, m.msg_type)), Some((4, 30)));
    assert!(ipc::recv(&mut mb, 2).is_none());
    assert_eq!(ipc::recv(&mut mb, 3).map(|m| m.payload[0]), Some(20));
}

#[test]
fn bump_allocator_aligns_and_runs_out() {
    let mut b = BumpAllocator::new();
    b.base = 0x1001;
    b.next = 0x1001;
    b.limit = 0x2000;
    assert_eq!(b.allocate(16, 16), Some(0x1010));
    assert_eq!(b.next, 0x1020);
    assert_eq!(b.allocate(0x1000, 8), None);
    assert_eq!(b.next, 0x1020);
}

#[test]
fn early_heap_and_frame_count() {
    let mut m = mm::init();
    mm::init_heap(&mut m, 0x10000, 0x20000);
    assert_eq!(mm::alloc_early(&mut m, 100, 4096), Some(0x10000));
    assert_eq!(mm::alloc_early(&mut m, 8, 4096), Some(0x11000));
    let regions = [
        region(0, 0x9F000, MemoryRegionKind::Usable),
        region(0x9F000, 0x100000, MemoryRegionKind::Reserved),
        region(0x100000, 0x500000, MemoryRegionKind::Usable),
    ];
    assert_eq!(mm::count_usable_frames(&mut m, &regions), 0x9F + 0x400);
    assert_eq!(mm::total_frames(&m), 0x9F + 0x400);
}

#[test]
fn frame_allocator_keeps_the_bitmap_frame_and_hands_out_the_rest() {
    let regions = [
        region(0x10000, 0x14000, MemoryRegionKind::Usable),
        region(0x14000, 0x15000, MemoryRegionKind::Reserved),
        region(0x15000, 0x18000, MemoryRegionKind::Usable),
    ];
    let mut fa = FrameAllocator::new();
    frame_allocator::init(&mut fa, &regions);
    assert_eq!(frame_allocator::total(&fa), 8);
    // Frame 0 holds the bitmap; frame 4 (0x14000) is reserved.
    let mut got = Vec::new();
    while let Some(f) = frame_allocator::allocate(&mut fa) {
        got.push(f);
    }
    assert_eq!(got, vec![0x11000, 0x12000, 0x13000, 0x15000, 0x16000, 0x17000]);
    frame_allocator::free(&mut fa, 0x13000);
    assert_eq!(frame_allocator::allocate(&mut fa), Some(0x13000));
    frame_allocator::free(&mut fa, 0x1000);
    frame_allocator::free(&mut fa, 0x99000);
    assert_eq!(frame_allocator::allocate(&mut fa), None);
}

#[test]
fn frame_allocator_ignores_partial_pages() {
    let regions = [region(0x10800, 0x13800, MemoryRegionKind::Usable)];
    let mut fa = FrameAllocator::new();
    fa.init(&regions);
    // Whole usable pages 0x11000 and 0x12000; the first holds the bitmap.
    assert_eq!(fa.total_frames(), 2);
    assert_eq!(fa.allocate_frame(), Some(0x12000));
    assert_eq!(fa.allocate_frame(), None);
}

#[test]
fn kernel_blend_mixes_channels() {
    // Premultiplied half-red over blue: 128 + 0, 0, 0 + 255 * 127 / 255, 128 + 255 * 127 / 255.
    let c = blend(Color::with_alpha(128, 0, 0, 128), Color::new(0, 0, 255));
    assert_eq!((c.r, c.g, c.b, c.a), (128, 0, 127, 255));
    let d = blend(Color::with_alpha(128, 0, 0, 128), Color::black());
    assert_eq!((d.r, d.g, d.b, d.a), (128, 0, 0, 255));
    assert_eq!(blend(Color::white(), Color::blue()), Color::white());
    // A source channel above its alpha is not premultiplied; the sum is capped.
    let e = blend(Color::with_alpha(255, 0, 0, 128), Color::new(255, 0, 0));
    assert_eq!(e.r, 255);
    let opaque = Color::red();
    assert_eq!(blend(opaque, Color::blue()), opaque);
    assert_eq!(blend(Color::with_alpha(1, 2, 3, 0), Color::blue()), Color::blue());
}

#[test]
fn cursor_bitmap_and_clamping() {
    assert!(cursor::pixel_set(0, 0));
    assert!(!cursor::pixel_set(15, 0));
    assert_eq!(cursor::clamp_position(-5, 900, 800, 600), (0, 584));
    assert_eq!(cursor::clamp_position(100, 50, 800, 600), (100, 50));
    let c = cursor::init();
    assert_eq!(cursor::get_position(&c), (0, 0));
}

#[test]
fn pc_speaker_divisor_and_control_bits() {
    assert_eq!(pit_divisor(1000), Some(1193));
    assert_eq!(pit_divisor(0), None);
    assert_eq!(pit_divisor(20001), None);
    assert_eq!(speaker_on(0x40), 0x43);
    assert_eq!(speaker_off(0x43), 0x40);
}

#[test]
fn serial_output_turns_newlines_into_crlf() {
    assert_eq!(uart::puts("a\nb"), b"a\r\nb".to_vec());
    assert_eq!(uart::puts(""), Vec::<u8>::new());
}

#[test]
fn serial_input_becomes_key_presses() {
    let mut q = InputQueue::new();
    uart::handle_uart_irq(&mut q, &[b'h', 13, 0x01, 8]);
    assert_eq!(q.poll(), Some(InputEvent::KeyPress { ascii: b'h' }));
    assert_eq!(q.poll(), Some(InputEvent::KeyPress { ascii: 10 }));
    assert_eq!(q.poll(), Some(InputEvent::KeyPress { ascii: 8 }));
    assert_eq!(q.poll(), None);
}

#[test]
fn dyld_resolves_builtins_and_libc() {
    let mut d = DyldState::new();
    assert_eq!(d.resolve_symbol("_malloc"), None);
    d.register_libc_symbols();
    assert_eq!(d.resolve_symbol("_malloc"), Some(LIBC_BASE | 0x01));
    assert_eq!(d.resolve_symbol("_dlclose"), Some(LIBC_BASE | 0x13));
    d.register_builtin("_main_hook", 0x4000);
    assert_eq!(d.resolve_symbol("_main_hook"), Some(0x4000));
    d.register_builtin("_malloc", 0x5000);
    assert_eq!(d.resolve_symbol("_malloc"), Some(0x5000));
    assert_eq!(d.resolve_symbol_checked("_malloc"), Some(0x5000));
    assert_eq!(d.resolve_symbol_checked("_dlclose"), Some(LIBC_BASE | 0x13));
    assert_eq!(d.lib_count(), 0);
    assert!(d.get_lib(0).is_none());
}

#[test]
fn dyld_bases_are_aligned() {
    let mut d = DyldState::new();
    assert_eq!(d.allocate_base(10), LIB_BASE);
    assert_eq!(d.allocate_base(LIB_ALIGN + 1), LIB_BASE + LIB_ALIGN);
    assert_eq!(d.allocate_base(1), LIB_BASE + 3 * LIB_ALIGN);
}

#[test]
fn legacy_resolver_knows_libc_names() {
    assert_eq!(resolve_symbol("libSystem", "_printf"), Some(LIBC_BASE | b'_' as u64));
    assert_eq!(resolve_symbol("libSystem", "_nope"), None);
}

#[test]
fn leb128_numbers_decode() {
    let data = [0xE5, 0x8E, 0x26, 0x7F, 0x80, 0x7F];
    let mut pos = 0usize;
    assert_eq!(read_uleb128(&data, &mut pos), 624485);
    assert_eq!(pos, 3);
    assert_eq!(read_sleb128(&data, &mut pos), -1);
    assert_eq!(pos, 4);
    assert_eq!(read_sleb128(&data, &mut pos), -128);
    assert_eq!(pos, 6);
}

#[test]
fn sine_wave_length_and_mixing() {
    let s = sine_wave(440, 100);
    assert_eq!(s.len(), (SAMPLE_RATE / 10) as usize);
    assert_eq!(s[0], 0);
    // A quarter period per sample: 0, peak, 0, trough (peaks scaled to 24000).
    let q = sine_wave(2000, 1);
    assert_eq!(q, vec![0, 24000, 0, -24000, 0, 24000, 0, -24000]);
    // An eighth of a period: about 0.707 of the peak.
    let e = sine_wave(1000, 1);
    assert_eq!(e[1], (23129i32 * 24000 / 32767) as i16);
    assert_eq!(mix(&[30000, -30000, 5], &[10000, -10000]), vec![32767, -32768]);
}

#[test]
fn virtio_sound_is_not_there_yet() {
    assert!(!aperture::virtio_snd::is_available());
    assert_eq!(aperture::virtio_snd::pcm_write(&[1, 2, 3, 4]), 0);
}
