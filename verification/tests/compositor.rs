use aperture::boot_info::{FrameBufferInfo, PixelFormat};
use aperture::compositor::Compositor;
use aperture::kgui::{Color, WindowId};

fn info(format: PixelFormat) -> FrameBufferInfo {
    FrameBufferInfo { width: 4, height: 4, stride: 4, bytes_per_pixel: 4, pixel_format: format }
}

fn pixel(c: &Compositor, x: usize, y: usize) -> [u8; 4] {
    let o = (y * 4 + x) * 4;
    [c.buffer[o], c.buffer[o + 1], c.buffer[o + 2], c.buffer[o + 3]]
}

#[test]
fn windows_get_ids_and_slots() {
    let mut c = Compositor::new(vec![0; 64], info(PixelFormat::Rgb));
    assert_eq!(c.create_window("Desktop", 0, 0, 4, 4), WindowId(1));
    assert_eq!(c.create_window("Terminal", 1, 1, 2, 2), WindowId(2));
    assert_eq!(c.find_window(WindowId(2)), Some(1));
    assert_eq!(c.find_window(WindowId(9)), None);
    let w = c.windows[1].as_ref().unwrap();
    assert_eq!(&w.title[..8], b"Terminal");
    assert_eq!(w.title[8], 0);
    assert_eq!(w.backbuffer.len(), 4);
    assert!(w.backbuffer.iter().all(|p| *p == Color::white()));
}

#[test]
fn render_clears_then_paints_windows() {
    let mut c = Compositor::new(vec![0; 64], info(PixelFormat::Rgb));
    c.create_window("Term", 1, 1, 2, 2);
    c.windows[0].as_mut().unwrap().backbuffer[3] = Color::with_alpha(255, 0, 0, 0);
    c.render();
    assert_eq!(pixel(&c, 0, 0), [48, 48, 48, 0]);
    assert_eq!(pixel(&c, 1, 1), [255, 255, 255, 0]);
    // A transparent window pixel leaves the background showing.
    assert_eq!(pixel(&c, 2, 2), [48, 48, 48, 0]);
    c.windows[0].as_mut().unwrap().visible = false;
    c.render();
    assert_eq!(pixel(&c, 1, 1), [48, 48, 48, 0]);
}

#[test]
fn translucent_pixels_blend_over_the_screen() {
    let mut c = Compositor::new(vec![0; 64], info(PixelFormat::Bgr));
    c.create_window("Term", 0, 0, 1, 1);
    c.windows[0].as_mut().unwrap().backbuffer[0] = Color::with_alpha(128, 0, 0, 128);
    c.render();
    // Premultiplied half-red over gray 48: 128 + 48 * 127 / 255 = 151; gray channels 48 * 127 / 255 = 23.
    assert_eq!(pixel(&c, 0, 0), [23, 23, 151, 0]);
}

#[test]
fn pixel_formats_order_the_channels() {
    let mut c = Compositor::new(vec![0; 64], info(PixelFormat::Unknown { red_position: 16, green_position: 8, blue_position: 0 }));
    c.create_window("W", 0, 0, 1, 1);
    c.windows[0].as_mut().unwrap().backbuffer[0] = Color::new(1, 2, 3);
    c.render();
    assert_eq!(pixel(&c, 0, 0), [3, 2, 1, 0]);
    let mut u = Compositor::new(vec![0; 64], info(PixelFormat::U8));
    u.create_window("W", 0, 0, 1, 1);
    u.windows[0].as_mut().unwrap().backbuffer[0] = Color::new(7, 8, 9);
    u.render();
    assert_eq!(pixel(&u, 0, 0), [7, 0, 0, 0]);
}
