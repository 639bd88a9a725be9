use aperture::windowserver::{WindowServer, MENU_BAR_H};
use aperture::ws_draw::{CursorSave, Screen, COL_BG_BOT, COL_CURSOR_BG, COL_CURSOR_FG, COL_MENU_BORDER};

const BG: u32 = 0xFF11_2233;

fn screen(w: usize, h: usize, stride: usize) -> Screen {
    Screen::new(vec![BG; stride * h], w, h, stride)
}

fn px(s: &Screen, x: usize, y: usize) -> u32 {
    s.pixels[y * s.stride + x]
}

fn font() -> Vec<[u8; 16]> {
    let mut glyphs = vec![[0u8; 16]; 95];
    glyphs[(b'A' - 32) as usize][0] = 0xFF;
    glyphs[(b'B' - 32) as usize][3] = 0x81;
    glyphs
}

#[test]
fn fill_rect_is_clipped_to_the_visible_part() {
    let mut s = screen(10, 5, 16);
    s.fill_rect(8, 3, 10, 10, 0xFF00_FF00);
    assert_eq!(px(&s, 8, 3), 0xFF00_FF00);
    assert_eq!(px(&s, 9, 4), 0xFF00_FF00);
    assert_eq!(px(&s, 7, 3), BG);
    // Columns past the width, in the padding of each row, stay untouched.
    assert_eq!(px(&s, 10, 3), BG);
    assert_eq!(px(&s, 15, 4), BG);
}

#[test]
fn blending_mixes_by_alpha() {
    let mut s = Screen::new(vec![0xFF00_0000; 4], 2, 2, 2);
    s.blend_pixel(0, 0, 0x80FF_0000);
    // (255 * 128 + 0 * 127) / 255 = 128 red.
    assert_eq!(px(&s, 0, 0), 0xFF80_0000);
    s.blend_pixel(1, 0, 0x00FF_FFFF);
    assert_eq!(px(&s, 1, 0), 0xFF00_0000);
    s.blend_pixel(0, 1, 0xFF12_3456);
    assert_eq!(px(&s, 0, 1), 0xFF12_3456);
}

#[test]
fn vertical_gradient_runs_from_top_to_bottom() {
    let mut s = screen(4, 4, 4);
    s.fill_v_gradient(0, 0, 4, 4, 0xFF00_0000, 0xFF00_00FF);
    assert_eq!(px(&s, 0, 0), 0xFF00_0000);
    // Row 1 of 4: t = 255 / 3 = 85.
    assert_eq!(px(&s, 2, 1), 0xFF00_0055);
    assert_eq!(px(&s, 3, 3), 0xFF00_00FF);
    // Falling channels truncate toward the top color.
    let mut d = screen(1, 3, 1);
    d.fill_v_gradient(0, 0, 1, 3, 0xFF00_00FF, 0xFF00_0000);
    assert_eq!(px(&d, 0, 1), 0xFF00_0080);
}

#[test]
fn circle_covers_its_disk() {
    let mut s = screen(20, 20, 20);
    s.fill_circle(10, 10, 2, 0xFFFF_FFFF);
    assert_eq!(px(&s, 12, 10), 0xFFFF_FFFF);
    assert_eq!(px(&s, 11, 11), 0xFFFF_FFFF);
    assert_eq!(px(&s, 12, 12), BG);
    assert_eq!(px(&s, 10, 13), BG);
}

#[test]
fn get_pixel_reads_opaque_and_zero_off_screen() {
    let mut s = Screen::new(vec![0x0012_3456; 4], 2, 2, 2);
    assert_eq!(s.get_pixel(1, 1), 0xFF12_3456);
    assert_eq!(s.get_pixel(2, 0), 0);
    s.set_pixel(5, 5, 0);
    assert!(s.pixels.iter().all(|p| *p == 0x0012_3456));
}

#[test]
fn strings_draw_one_cell_per_character() {
    let glyphs = font();
    let mut s = screen(40, 20, 40);
    s.draw_str(0, 0, "A\nB", 0xFFFF_FFFF, &glyphs);
    // 'A' fills the top row of its cell.
    for x in 0..8 {
        assert_eq!(px(&s, x, 0), 0xFFFF_FFFF);
    }
    assert_eq!(px(&s, 0, 1), BG);
    // The newline takes no cell: 'B' is drawn in the second one.
    assert_eq!(px(&s, 8, 3), 0xFFFF_FFFF);
    assert_eq!(px(&s, 15, 3), 0xFFFF_FFFF);
    assert_eq!(px(&s, 9, 3), BG);
    assert_eq!(px(&s, 8, 0), BG);
}

#[test]
fn cursor_draw_then_undraw_restores_the_screen() {
    let mut ws = WindowServer::new(40, 40);
    let mut s = screen(40, 40, 40);
    s.pixels[41] = 0xFFAB_CDEF;
    let before = s.pixels.clone();
    let mut save = CursorSave::new();
    assert!(ws.handle_mouse_move(1, 1));
    ws.draw_cursor(&mut s, &mut save);
    assert!(ws.cursor_visible);
    assert_eq!((save.x, save.y), (1, 1));
    assert_eq!(save.pixels[0], 0xFFAB_CDEF);
    // The arrow's tip is white with a black outline to its right.
    assert_eq!(px(&s, 1, 1), COL_CURSOR_FG);
    assert_eq!(px(&s, 2, 1), COL_CURSOR_BG);
    assert_eq!(px(&s, 3, 1), BG);
    ws.undraw_cursor(&mut s, &save);
    assert!(!ws.cursor_visible);
    assert_eq!(s.pixels, before);
}

#[test]
fn moving_the_cursor_redraws_it() {
    let mut ws = WindowServer::new(40, 40);
    let mut s = screen(40, 40, 40);
    let before = s.pixels.clone();
    let mut save = CursorSave::new();
    ws.handle_mouse_move(0, 0);
    ws.draw_cursor(&mut s, &mut save);
    assert!(ws.handle_mouse_move(20, 20));
    ws.redraw_cursor(&mut s, &mut save);
    assert_eq!(px(&s, 0, 0), BG);
    assert_eq!(px(&s, 20, 20), COL_CURSOR_FG);
    assert_eq!((save.x, save.y), (20, 20));
    ws.undraw_cursor(&mut s, &save);
    assert_eq!(s.pixels, before);
}

#[test]
fn redraw_all_paints_desktop_and_cursor() {
    let glyphs = font();
    let mut ws = WindowServer::new(800, 600);
    let mut s = screen(800, 600, 800);
    let mut save = CursorSave::new();
    ws.redraw_all(&mut s, &mut save, &glyphs);
    assert!(!ws.needs_redraw);
    assert!(ws.cursor_visible);
    assert_eq!(px(&s, 0, 599), COL_BG_BOT);
    assert_eq!(px(&s, 0, MENU_BAR_H as usize), COL_MENU_BORDER);
    // The cursor starts at (400, 300), over the background gradient:
    // row 300 of 600 is t = 300 * 255 / 599 = 127 of the way down.
    assert_eq!(px(&s, 400, 300), COL_CURSOR_FG);
    assert_eq!(save.pixels[0], 0xFF00_132B);
    assert_eq!(px(&s, 402, 300), 0xFF00_132B);
}
