//! Aperture OS: the verified core of the kernel, its drivers and user-space libraries.

use vstd::prelude::*;

pub mod bytes;
pub mod pe;
pub mod x86_decode;
pub mod aarch64_decode;
pub mod input;
pub mod ps2kbd;
pub mod ps2mouse;
pub mod common;
pub mod frame_alloc;
pub mod libvibe;
pub mod libaudio;
pub mod gui;
pub mod terminal;
pub mod term_render;
pub mod windowserver;
pub mod ws_draw;
pub mod audio;
pub mod ipc;
pub mod boot_info;
pub mod mm;
pub mod kgui;
pub mod compositor;
pub mod virtio_snd;
pub mod cursor;
pub mod pcspkr;
pub mod uart;
pub mod platform;
pub mod dyld;
pub mod dyld_load;
pub mod fs;
pub mod bootloader;
pub mod arch;
