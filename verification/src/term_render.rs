//! Rendering a terminal into its window's pixel buffer.
//!
//! The window is `WIN_W` x `WIN_H` pixels: the 80x24 character grid in 8x16
//! cells, then one status row. Each pixel gets the color of the topmost layer
//! the terminal draws there: the cells (scrollback lines first when the view
//! is scrolled up), the blinking cursor block, the status bar and its text.
//! `frame_pixel` states that color; `Terminal::render` fills the buffer with it.

use vstd::prelude::*;
use vstd::string::StrSliceExecFns;
use crate::terminal::{Terminal, TermState, Cell, TERM_COLS, TERM_ROWS, COL_CURSOR, COL_STATUS_BG, COL_STATUS_FG};

verus! {

pub const FONT_W: usize = 8;
pub const FONT_H: usize = 16;

/// Window width: one 8-pixel cell per column.
pub const WIN_W: usize = 640;

/// Window height: the character rows plus the status row.
pub const WIN_H: usize = 400;

/// First pixel row of the status bar.
pub const STATUS_Y: usize = 384;

/// Pixel row of the status text.
pub const STATUS_TEXT_Y: usize = 386;

/// Column of the status text, and of the scroll marker after its 26th cell.
pub const STATUS_TEXT_X: usize = 4;
pub const SCROLL_MARK_X: usize = 212;

/// Color of the scroll marker.
pub const COL_SCROLL_MARK: u32 = 0xFF34C759;

/// Number of glyphs in a font table: one for each of ' '..='~'.
pub const GLYPH_COUNT: usize = 95;

/// The glyph of character code `code`: printable ASCII from a space, anything
/// else as the space glyph.
pub open spec fn glyph_slot(code: int) -> int {
    if 32 <= code <= 126 { code - 32 } else { 0 }
}

/// Pixel `col` (from the left) of a glyph row is set.
pub open spec fn bit_on(bits: u8, col: int) -> bool {
    bits & (0x80u8 >> (col as u8)) != 0
}

/// Color of pixel `(gx, gy)` within a cell: its foreground where the glyph
/// has a set bit, its background elsewhere.
pub open spec fn cell_pixel(glyphs: Seq<[u8; 16]>, c: Cell, gx: int, gy: int) -> u32 {
    if bit_on(glyphs[glyph_slot(c.ch as int)][gy], gx) {
        c.fg_color
    } else {
        c.bg_color
    }
}

/// A string drawn with its first cell at `(x0, y0)` sets pixel `(x, y)`: the
/// pixel is a set bit of the glyph of the character whose cell holds it.
/// Drawing stops at the first cell that would not fit the window.
pub open spec fn text_hit(glyphs: Seq<[u8; 16]>, s: Seq<char>, x0: int, y0: int, x: int, y: int) -> bool {
    let k = (x - x0) / 8;
    &&& x0 <= x
    &&& y0 <= y < y0 + 16
    &&& k < s.len()
    &&& x0 + 8 * k + 8 <= WIN_W
    &&& bit_on(glyphs[glyph_slot(s[k] as int)][y - y0], x - x0 - 8 * k)
}

pub open spec fn status_text() -> Seq<char> {
    "VibeOS Terminal  80x24  UTF-8  LF"@
}

pub open spec fn scroll_text() -> Seq<char> {
    " [SCROLL]"@
}

/// Pixel `(x, y)` of buffer `s`.
pub open spec fn pixel_at(s: Seq<u32>, x: int, y: int) -> u32 {
    s[y * 640 + x]
}

impl TermState {
    /// Scrollback lines shown above the screen.
    pub open spec fn scrollback_visible(self) -> int {
        if self.scroll_offset < self.scrollback.len() { self.scroll_offset } else { self.scrollback.len() as int }
    }

    /// Index of the first scrollback line shown.
    pub open spec fn scrollback_start(self) -> int {
        if self.scroll_offset <= self.scrollback.len() { self.scrollback.len() - self.scroll_offset } else { 0 }
    }

    /// The cell shown at display row `row`, column `col`: the visible
    /// scrollback lines come first, then the screen from its top line.
    pub open spec fn display_cell(self, row: int, col: int) -> Cell {
        if row < self.scrollback_visible() {
            self.scrollback[self.scrollback_start() + row][col]
        } else {
            self.screen[row - self.scrollback_visible()][col]
        }
    }

    /// The cursor block is drawn: it is in its visible blink phase, the view
    /// is at the bottom, and the cursor is on a cell.
    pub open spec fn cursor_shown(self) -> bool {
        &&& self.cursor_visible
        &&& self.scroll_offset == 0
        &&& self.cursor_y < TERM_ROWS
        &&& self.cursor_x < TERM_COLS
    }
}

/// The color of pixel `(x, y)` of a rendered terminal.
pub open spec fn frame_pixel(t: TermState, glyphs: Seq<[u8; 16]>, x: int, y: int) -> u32 {
    if y < STATUS_Y {
        if t.cursor_shown() && t.cursor_x * 8 <= x < t.cursor_x * 8 + 8 && t.cursor_y * 16 <= y < t.cursor_y * 16 + 16 {
            COL_CURSOR
        } else {
            cell_pixel(glyphs, t.display_cell(y / 16, x / 8), x % 8, y % 16)
        }
    } else if t.scroll_offset > 0 && text_hit(glyphs, scroll_text(), SCROLL_MARK_X as int, STATUS_TEXT_Y as int, x, y) {
        COL_SCROLL_MARK
    } else if text_hit(glyphs, status_text(), STATUS_TEXT_X as int, STATUS_TEXT_Y as int, x, y) {
        COL_STATUS_FG
    } else {
        COL_STATUS_BG
    }
}

/// Glyph row `row` of character code `code`.
pub(crate) fn glyph_row(glyphs: &[[u8; 16]], code: u32, row: usize) -> (bits: u8)
    requires
        glyphs@.len() >= GLYPH_COUNT,
        row < 16,
    ensures
        bits == glyphs@[glyph_slot(code as int)][row as int],
{
    let slot: u32 = if 32 <= code && code <= 126 { code - 32 } else { 0 };
    glyphs[slot as usize][row]
}

/// Color of pixel `(gx, gy)` of a cell drawn with `glyphs`.
pub fn cell_color(glyphs: &[[u8; 16]], c: Cell, gx: usize, gy: usize) -> (v: u32)
    requires
        glyphs@.len() >= GLYPH_COUNT,
        gx < FONT_W,
        gy < FONT_H,
    ensures
        v == cell_pixel(glyphs@, c, gx as int, gy as int),
{
    let bits = glyph_row(glyphs, c.ch as u32, gy);
    if bits & (0x80u8 >> (gx as u8)) != 0 {
        c.fg_color
    } else {
        c.bg_color
    }
}

/// Whether string `s` drawn from `(x0, y0)` sets pixel `(x, y)`.
pub fn text_covers(glyphs: &[[u8; 16]], s: &str, x0: usize, y0: usize, x: usize, y: usize) -> (r: bool)
    requires
        glyphs@.len() >= GLYPH_COUNT,
        x0 < WIN_W,
        y0 < WIN_H,
        x < WIN_W,
    ensures
        r == text_hit(glyphs@, s@, x0 as int, y0 as int, x as int, y as int),
{
    if x < x0 || y < y0 || y - y0 >= 16 {
        return false;
    }
    let k = (x - x0) / 8;
    if k >= s.unicode_len() {
        return false;
    }
    if x0 + 8 * k + 8 > WIN_W {
        return false;
    }
    let ch = s.get_char(k);
    let bits = glyph_row(glyphs, ch as u32, y - y0);
    bits & (0x80u8 >> ((x - x0 - 8 * k) as u8)) != 0
}

impl Terminal {
    /// The cell shown at display row `row`, column `col`.
    fn display_cell(&self, row: usize, col: usize) -> (c: Cell)
        requires
            self@.wf(),
            row < TERM_ROWS,
            col < TERM_COLS,
        ensures
            c == self@.display_cell(row as int, col as int),
    {
        let len = self.scrollback.len();
        let visible = if self.scroll_offset < len { self.scroll_offset } else { len };
        let start = if self.scroll_offset <= len { len - self.scroll_offset } else { 0 };
        if row < visible {
            self.scrollback[start + row][col]
        } else {
            self.screen[row - visible][col]
        }
    }

    /// The color of pixel `(x, y)` of the rendered window.
    pub fn pixel(&self, glyphs: &[[u8; 16]], x: usize, y: usize) -> (v: u32)
        requires
            self@.wf(),
            glyphs@.len() >= GLYPH_COUNT,
            x < WIN_W,
            y < WIN_H,
        ensures
            v == frame_pixel(self@, glyphs@, x as int, y as int),
    {
        if y < STATUS_Y {
            let shown = self.cursor_visible && self.scroll_offset == 0 && self.cursor_y < TERM_ROWS
                && self.cursor_x < TERM_COLS;
            if shown && self.cursor_x * 8 <= x && x < self.cursor_x * 8 + 8 && self.cursor_y * 16 <= y && y
                < self.cursor_y * 16 + 16 {
                COL_CURSOR
            } else {
                let c = self.display_cell(y / 16, x / 8);
                cell_color(glyphs, c, x % 8, y % 16)
            }
        } else if self.scroll_offset > 0 && text_covers(glyphs, " [SCROLL]", SCROLL_MARK_X, STATUS_TEXT_Y, x, y) {
            COL_SCROLL_MARK
        } else if text_covers(glyphs, "VibeOS Terminal  80x24  UTF-8  LF", STATUS_TEXT_X, STATUS_TEXT_Y, x, y) {
            COL_STATUS_FG
        } else {
            COL_STATUS_BG
        }
    }

    /// Render the terminal into its window buffer (`WIN_W` x `WIN_H` pixels,
    /// row by row) and mark it clean.
    pub fn render(&mut self, buf: &mut [u32], glyphs: &[[u8; 16]])
        requires
            old(self)@.wf(),
            old(buf)@.len() == WIN_W * WIN_H,
            glyphs@.len() >= GLYPH_COUNT,
        ensures
            final(self)@ == (TermState { dirty: false, ..old(self)@ }),
            final(buf)@.len() == old(buf)@.len(),
            forall|x: int, y: int|
                0 <= x < WIN_W && 0 <= y < WIN_H ==> #[trigger] pixel_at(final(buf)@, x, y) == frame_pixel(
                    old(self)@,
                    glyphs@,
                    x,
                    y,
                ),
    {
        let n = WIN_W * WIN_H;
        let mut i: usize = 0;
        while i < n
            invariant
                self@.wf(),
                n == WIN_W * WIN_H,
                buf@.len() == n,
                glyphs@.len() >= GLYPH_COUNT,
                i <= n,
                forall|j: int| 0 <= j < i ==> buf@[j] == #[trigger] frame_pixel(self@, glyphs@, j % 640, j / 640),
            decreases n - i,
        {
            let x = i % WIN_W;
            let y = i / WIN_W;
            let v = self.pixel(glyphs, x, y);
            buf[i] = v;
            i = i + 1;
        }
        let ghost t = self@;
        self.dirty = false;
        assert forall|x: int, y: int| 0 <= x < WIN_W && 0 <= y < WIN_H implies #[trigger] pixel_at(buf@, x, y)
            == frame_pixel(t, glyphs@, x, y) by {
            let j = y * 640 + x;
            assert(0 <= j < n) by (nonlinear_arith)
                requires j == y * 640 + x, 0 <= x < 640, 0 <= y < 400, n == 640 * 400;
            vstd::arithmetic::div_mod::lemma_fundamental_div_mod_converse(j, 640, y, x);
        }
    }
}

} // verus!
