use aperture::term_render::{STATUS_Y, WIN_H, WIN_W, COL_SCROLL_MARK};
use aperture::terminal::{
    decimal_digits, window_wait_step, Terminal, WindowWait, ANSI_COLORS, COL_BG, COL_CURSOR, COL_FG, COL_STATUS_BG,
    COL_STATUS_FG, TERM_COLS, TERM_ROWS,
};
use aperture::libvibe::{IPC_PAYLOAD_SIZE, MSG_WINDOW_READY};

/// A font in which 'A' has its top row set and every other glyph is blank;
/// 'V' (of the status text) has its first row fully set too.
fn test_font() -> Vec<[u8; 16]> {
    let mut glyphs = vec![[0u8; 16]; 95];
    glyphs[(b'A' - 32) as usize][0] = 0xFF;
    glyphs[(b'V' - 32) as usize][0] = 0xFF;
    glyphs[(b'[' - 32) as usize][0] = 0x80;
    glyphs
}

fn row_text(t: &Terminal, row: usize, n: usize) -> Vec<u8> {
    (0..n).map(|c| t.screen[row][c].ch).collect()
}

#[test]
fn printable_text_lands_at_the_cursor() {
    let mut t = Terminal::new();
    t.process_output(b"hi");
    assert_eq!(row_text(&t, 0, 3), b"hi ".to_vec());
    assert_eq!(t.cursor_x, 2);
    assert_eq!(t.cursor_y, 0);
    assert_eq!(t.screen[0][0].fg_color, COL_FG);
    assert_eq!(t.screen[0][0].bg_color, COL_BG);
}

#[test]
fn carriage_return_and_newline_move_to_next_line() {
    let mut t = Terminal::new();
    t.process_output(b"ab\r\ncd");
    assert_eq!(row_text(&t, 0, 2), b"ab".to_vec());
    assert_eq!(row_text(&t, 1, 2), b"cd".to_vec());
    assert_eq!((t.cursor_x, t.cursor_y), (2, 1));
}

#[test]
fn backspace_erases_the_previous_cell() {
    let mut t = Terminal::new();
    t.process_output(b"ab\x08");
    assert_eq!(t.cursor_x, 1);
    assert_eq!(t.screen[0][1].ch, b' ');
    assert_eq!(t.screen[0][0].ch, b'a');
}

#[test]
fn csi_cursor_position_is_one_based() {
    let mut t = Terminal::new();
    t.process_output(b"\x1b[3;5H");
    assert_eq!((t.cursor_x, t.cursor_y), (4, 2));
    t.process_output(b"\x1b[H");
    assert_eq!((t.cursor_x, t.cursor_y), (0, 0));
    t.process_output(b"\x1b[99;999H");
    assert_eq!((t.cursor_x, t.cursor_y), (TERM_COLS - 1, TERM_ROWS - 1));
}

#[test]
fn csi_cursor_moves_are_clamped() {
    let mut t = Terminal::new();
    t.process_output(b"\x1b[5B\x1b[3C");
    assert_eq!((t.cursor_x, t.cursor_y), (3, 5));
    t.process_output(b"\x1b[10A\x1b[10D");
    assert_eq!((t.cursor_x, t.cursor_y), (0, 0));
}

#[test]
fn csi_2j_clears_the_screen_and_homes_the_cursor() {
    let mut t = Terminal::new();
    t.process_output(b"hello\r\nworld\x1b[2J");
    assert_eq!(row_text(&t, 0, 5), b"     ".to_vec());
    assert_eq!(row_text(&t, 1, 5), b"     ".to_vec());
    assert_eq!((t.cursor_x, t.cursor_y), (0, 0));
}

#[test]
fn csi_k_erases_to_end_of_line() {
    let mut t = Terminal::new();
    t.process_output(b"abcdef\x1b[3D\x1b[K");
    assert_eq!(row_text(&t, 0, 6), b"abc   ".to_vec());
}

#[test]
fn sgr_sets_and_resets_colors() {
    let mut t = Terminal::new();
    t.process_output(b"\x1b[31mX\x1b[44mY\x1b[0mZ");
    assert_eq!(t.screen[0][0].fg_color, ANSI_COLORS[1]);
    assert_eq!(t.screen[0][0].bg_color, COL_BG);
    assert_eq!(t.screen[0][1].fg_color, ANSI_COLORS[1]);
    assert_eq!(t.screen[0][1].bg_color, ANSI_COLORS[4]);
    assert_eq!(t.screen[0][2].fg_color, COL_FG);
    assert_eq!(t.screen[0][2].bg_color, COL_BG);
}

#[test]
fn save_and_restore_cursor() {
    let mut t = Terminal::new();
    t.process_output(b"\x1b[4;7H\x1b[s\x1b[H\x1b[u");
    assert_eq!((t.cursor_x, t.cursor_y), (6, 3));
}

#[test]
fn lines_scroll_into_the_scrollback() {
    let mut t = Terminal::new();
    t.process_output(b"first");
    for _ in 0..TERM_ROWS {
        t.process_output(b"\r\n");
    }
    assert_eq!(t.scrollback.len(), 1);
    assert_eq!(t.scrollback[0][0].ch, b'f');
    assert_eq!(t.cursor_y, TERM_ROWS - 1);
}

#[test]
fn writing_past_the_last_column_wraps() {
    let mut t = Terminal::new();
    let line = vec![b'x'; TERM_COLS];
    t.process_output(&line);
    assert_eq!(t.cursor_x, TERM_COLS);
    t.process_output(b"y");
    assert_eq!(t.screen[1][0].ch, b'y');
    assert_eq!((t.cursor_x, t.cursor_y), (1, 1));
}

#[test]
fn split_escape_sequence_has_the_same_effect() {
    let mut whole = Terminal::new();
    whole.process_output(b"ab\x1b[2;3Hc");
    let mut parts = Terminal::new();
    parts.process_output(b"ab\x1b[");
    parts.process_output(b"2;");
    parts.process_output(b"3Hc");
    assert_eq!(whole.cursor_x, parts.cursor_x);
    assert_eq!(whole.cursor_y, parts.cursor_y);
    for r in 0..TERM_ROWS {
        for c in 0..TERM_COLS {
            assert_eq!(whole.screen[r][c], parts.screen[r][c]);
        }
    }
}

#[test]
fn scrollback_view_moves_within_bounds() {
    let mut t = Terminal::new();
    t.scroll_up_scrollback();
    assert_eq!(t.scroll_offset, 0);
    for _ in 0..(TERM_ROWS + 2) {
        t.process_output(b"\n");
    }
    assert_eq!(t.scrollback.len(), 3);
    t.scroll_up_scrollback();
    t.scroll_up_scrollback();
    assert_eq!(t.scroll_offset, 2);
    t.scroll_down_scrollback();
    assert_eq!(t.scroll_offset, 1);
}

#[test]
fn cursor_blinks_every_thirty_ticks() {
    let mut t = Terminal::new();
    assert!(t.cursor_visible);
    for _ in 0..29 {
        t.update_blink();
    }
    assert!(t.cursor_visible);
    t.update_blink();
    assert!(!t.cursor_visible);
    assert_eq!(t.blink_counter, 0);
}

#[test]
fn keys_go_to_the_pty() {
    let mut t = Terminal::new();
    assert_eq!(t.handle_input_key(b'x'), None);
    t.pty_id = 3;
    assert_eq!(t.handle_input_key(b'x'), Some(vec![b'x']));
    assert_eq!(t.handle_input_key(0x41), Some(b"\x1b[A".to_vec()));
    assert_eq!(t.handle_input_key(0x44), Some(b"\x1b[D".to_vec()));
}

#[test]
fn page_keys_scroll_the_view() {
    let mut t = Terminal::new();
    t.pty_id = 1;
    for _ in 0..(TERM_ROWS + 1) {
        t.process_output(b"\n");
    }
    assert_eq!(t.handle_input_key(0x0e), None);
    assert_eq!(t.scroll_offset, 1);
    assert_eq!(t.handle_input_key(0x0f), None);
    assert_eq!(t.scroll_offset, 0);
    t.handle_input_key(0x0e);
    assert_eq!(t.handle_input_key(b'q'), Some(vec![b'q']));
    assert_eq!(t.scroll_offset, 0);
}

#[test]
fn special_keys_send_escape_sequences() {
    let mut t = Terminal::new();
    t.pty_id = 2;
    assert_eq!(t.handle_special_key(0x45), Some(b"\x1b[2~".to_vec()));
    assert_eq!(t.handle_special_key(0x50), Some(b"\x1b[[A".to_vec()));
    assert_eq!(t.handle_special_key(0x99), None);
}

#[test]
fn pty_numbers_print_in_decimal() {
    assert_eq!(decimal_digits(0), b"0".to_vec());
    assert_eq!(decimal_digits(7), b"7".to_vec());
    assert_eq!(decimal_digits(42), b"42".to_vec());
    assert_eq!(decimal_digits(1000), b"1000".to_vec());
}

#[test]
fn render_draws_cells_cursor_and_status_bar() {
    let glyphs = test_font();
    let mut t = Terminal::new();
    t.process_output(b"AB");
    let mut buf = vec![0u32; WIN_W * WIN_H];
    t.render(&mut buf, &glyphs);
    assert!(!t.dirty);
    let px = |x: usize, y: usize| buf[y * WIN_W + x];
    // 'A': top row set (foreground), second row clear (background).
    assert_eq!(px(0, 0), COL_FG);
    assert_eq!(px(7, 0), COL_FG);
    assert_eq!(px(0, 1), COL_BG);
    // 'B' has a blank glyph in this font.
    assert_eq!(px(8, 0), COL_BG);
    // The cursor block after "AB".
    assert_eq!(px(16, 0), COL_CURSOR);
    assert_eq!(px(23, 15), COL_CURSOR);
    assert_eq!(px(24, 0), COL_BG);
    // Status bar: background, and the 'V' of its text at (4, 386).
    assert_eq!(px(0, STATUS_Y), COL_STATUS_BG);
    assert_eq!(px(4, 386), COL_STATUS_FG);
    assert_eq!(px(4, 387), COL_STATUS_BG);
    assert_eq!(px(639, 399), COL_STATUS_BG);
}

#[test]
fn render_shows_scrollback_and_marker_when_scrolled() {
    let glyphs = test_font();
    let mut t = Terminal::new();
    t.process_output(b"A");
    for _ in 0..TERM_ROWS {
        t.process_output(b"\n");
    }
    t.scroll_up_scrollback();
    let mut buf = vec![0u32; WIN_W * WIN_H];
    t.render(&mut buf, &glyphs);
    let px = |x: usize, y: usize| buf[y * WIN_W + x];
    // The scrollback line with 'A' is shown on the top row; no cursor.
    assert_eq!(px(0, 0), COL_FG);
    assert_eq!(px(1, 1), COL_BG);
    // " [SCROLL]" starts at x = 212: its '[' has its leftmost top pixel set.
    assert_eq!(px(220, 386), COL_SCROLL_MARK);
    assert_eq!(px(221, 386), COL_STATUS_BG);
    assert_eq!(t.pixel(&glyphs, 220, 386), COL_SCROLL_MARK);
}

#[test]
fn window_handshake_waits_for_a_named_window_then_falls_back() {
    let mut ready = [0u8; IPC_PAYLOAD_SIZE];
    ready[0] = MSG_WINDOW_READY;
    ready[1] = 0x34;
    ready[2] = 0x12;
    assert_eq!(window_wait_step(0, Some(ready)), WindowWait::Ready(0x1234));
    let mut other = ready;
    other[0] = MSG_WINDOW_READY + 1;
    assert_eq!(window_wait_step(3, Some(other)), WindowWait::Retry(4));
    let mut zero = ready;
    zero[1] = 0;
    zero[2] = 0;
    assert_eq!(window_wait_step(0, Some(zero)), WindowWait::Retry(1));
    assert_eq!(window_wait_step(98, None), WindowWait::Retry(99));
    assert_eq!(window_wait_step(99, None), WindowWait::Fallback);
}

#[test]
fn scrolling_back_stops_at_the_oldest_line() {
    let mut t = Terminal::new();
    t.scroll_up_scrollback();
    assert_eq!(t.scroll_offset, 0);
    for _ in 0..30 {
        t.process_output(b"x\r\n");
    }
    let kept = t.scrollback.len();
    assert!(kept > 0);
    for _ in 0..kept + 5 {
        t.scroll_up_scrollback();
    }
    assert_eq!(t.scroll_offset, kept);
    t.process_output(b"y");
    assert!(t.scroll_offset <= t.scrollback.len());
}
