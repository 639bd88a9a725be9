//! Terminal emulator core: an 80x24 character screen with scrollback, driven
//! by the bytes a shell writes (printable text, control characters and ANSI
//! escape sequences).
//!
//! `TermState` models a terminal; each operation is specified as a function
//! from the state before to the state after.

use vstd::prelude::*;
use crate::libvibe::{msg_u16, parse_window_id, IPC_PAYLOAD_SIZE, MSG_WINDOW_READY};

verus! {

pub const TERM_COLS: usize = 80;
pub const TERM_ROWS: usize = 24;
pub const SCROLLBACK_MAX: usize = 1000;

/// Default colors (0xAARRGGBB).
pub const COL_BG: u32 = 0xFF1E1E2E;
pub const COL_FG: u32 = 0xFFD4D4D4;
pub const COL_CURSOR: u32 = 0xFF34C759;
pub const COL_STATUS_BG: u32 = 0xFF222233;
pub const COL_STATUS_FG: u32 = 0xFF888888;

/// The basic 8-color ANSI palette.
pub const ANSI_COLORS: [u32; 8] = [
    0xFF1E1E2E,
    0xFFCC0400,
    0xFF19A500,
    0xFFCC8800,
    0xFF007AFF,
    0xFFA52A2A,
    0xFF00AAAA,
    0xFFD4D4D4,
];

/// A single character cell.
#[derive(Clone, Copy, Debug, PartialEq, Eq, Structural)]
pub struct Cell {
    /// ASCII character (a space when empty).
    pub ch: u8,
    pub fg_color: u32,
    pub bg_color: u32,
}

impl Cell {
    /// An empty cell in the default colors.
    pub fn new() -> (c: Cell)
        ensures
            c == blank_cell(),
    {
        Cell { ch: 32, fg_color: COL_FG, bg_color: COL_BG }
    }
}

/// ANSI escape sequence parser state.
#[derive(Clone, Copy, Debug, PartialEq, Eq, Structural)]
pub enum AnsiState {
    Normal,
    /// Saw ESC.
    Esc,
    /// Saw ESC [.
    Csi,
    /// Collecting CSI parameters.
    CsiParam,
}

/// Terminal state.
pub struct Terminal {
    /// The visible screen, `TERM_ROWS` rows of `TERM_COLS` cells.
    pub screen: Vec<[Cell; TERM_COLS]>,
    /// Lines that scrolled off the top, oldest first.
    pub scrollback: Vec<[Cell; TERM_COLS]>,
    pub cursor_x: usize,
    pub cursor_y: usize,
    /// Saved cursor position (DECSC / DECRC).
    pub saved_cursor_x: usize,
    pub saved_cursor_y: usize,
    /// Lines scrolled up into the scrollback (0 = at the bottom).
    pub scroll_offset: usize,
    pub fg_color: u32,
    pub bg_color: u32,
    pub cursor_visible: bool,
    pub blink_counter: usize,
    pub ansi_state: AnsiState,
    /// CSI parameter bytes.
    pub csi_params: [u8; 16],
    pub csi_param_len: usize,
    /// PTY this terminal talks to (0 = none).
    pub pty_id: usize,
    pub shm_id: usize,
    /// Window ID from the window server.
    pub window_id: u16,
    /// Window server PID.
    pub ws_pid: usize,
    /// The window needs redrawing.
    pub dirty: bool,
}

/// What a terminal holds.
pub struct TermState {
    pub screen: Seq<Seq<Cell>>,
    pub scrollback: Seq<Seq<Cell>>,
    pub cursor_x: int,
    pub cursor_y: int,
    pub saved_cursor_x: int,
    pub saved_cursor_y: int,
    pub scroll_offset: int,
    pub fg_color: u32,
    pub bg_color: u32,
    pub cursor_visible: bool,
    pub blink_counter: int,
    pub ansi_state: AnsiState,
    pub csi_params: Seq<u8>,
    pub csi_param_len: int,
    pub pty_id: int,
    pub shm_id: int,
    pub window_id: u16,
    pub ws_pid: int,
    pub dirty: bool,
}

impl View for Terminal {
    type V = TermState;

    open spec fn view(&self) -> TermState {
        TermState {
            screen: Seq::new(self.screen@.len(), |i: int| self.screen@[i]@),
            scrollback: Seq::new(self.scrollback@.len(), |i: int| self.scrollback@[i]@),
            cursor_x: self.cursor_x as int,
            cursor_y: self.cursor_y as int,
            saved_cursor_x: self.saved_cursor_x as int,
            saved_cursor_y: self.saved_cursor_y as int,
            scroll_offset: self.scroll_offset as int,
            fg_color: self.fg_color,
            bg_color: self.bg_color,
            cursor_visible: self.cursor_visible,
            blink_counter: self.blink_counter as int,
            ansi_state: self.ansi_state,
            csi_params: self.csi_params@,
            csi_param_len: self.csi_param_len as int,
            pty_id: self.pty_id as int,
            shm_id: self.shm_id as int,
            window_id: self.window_id,
            ws_pid: self.ws_pid as int,
            dirty: self.dirty,
        }
    }
}

pub open spec fn blank_cell() -> Cell {
    Cell { ch: 32, fg_color: COL_FG, bg_color: COL_BG }
}

pub open spec fn blank_row() -> Seq<Cell> {
    Seq::new(TERM_COLS as nat, |i: int| blank_cell())
}

impl TermState {
    /// The shape every operation keeps: a full screen, the cursor on it (or
    /// just past the last column), a bounded parameter buffer and blink timer.
    pub open spec fn wf(self) -> bool {
        &&& self.screen.len() == TERM_ROWS
        &&& forall|r: int| 0 <= r < TERM_ROWS ==> (#[trigger] self.screen[r]).len() == TERM_COLS
        &&& forall|r: int| 0 <= r < self.scrollback.len() ==> (#[trigger] self.scrollback[r]).len() == TERM_COLS
        &&& 0 <= self.cursor_x <= TERM_COLS
        &&& 0 <= self.cursor_y < TERM_ROWS
        &&& 0 <= self.saved_cursor_x <= TERM_COLS
        &&& 0 <= self.saved_cursor_y < TERM_ROWS
        &&& self.csi_params.len() == 16
        &&& 0 <= self.csi_param_len <= 16
        &&& 0 <= self.blink_counter < 30
        &&& 0 <= self.scroll_offset <= self.scrollback.len()
    }

    /// A cell holding `ch` in the current colors.
    pub open spec fn pen(self, ch: u8) -> Cell {
        Cell { ch, fg_color: self.fg_color, bg_color: self.bg_color }
    }

    pub open spec fn with_cell(self, y: int, x: int, c: Cell) -> TermState {
        TermState { screen: self.screen.update(y, self.screen[y].update(x, c)), ..self }
    }

    /// The top line moves to the scrollback (which keeps at most
    /// `SCROLLBACK_MAX` lines), the others move up, a blank line appears at
    /// the bottom, and the view returns to the bottom.
    pub open spec fn scrolled_up(self) -> TermState {
        let sb = self.scrollback.push(self.screen[0]);
        TermState {
            scrollback: if sb.len() > SCROLLBACK_MAX { sb.drop_first() } else { sb },
            screen: self.screen.drop_first().push(blank_row()),
            scroll_offset: 0,
            ..self
        }
    }

    /// `n` successive scroll-ups.
    pub open spec fn scrolled_up_n(self, n: nat) -> TermState
        decreases n,
    {
        if n == 0 { self } else { self.scrolled_up().scrolled_up_n((n - 1) as nat) }
    }

    /// Move the cursor one line down, scrolling at the bottom.
    pub open spec fn line_down(self) -> TermState {
        if self.cursor_y + 1 >= TERM_ROWS {
            TermState { cursor_y: TERM_ROWS - 1, ..self }.scrolled_up()
        } else {
            TermState { cursor_y: self.cursor_y + 1, ..self }
        }
    }

    /// Write `ch` at the cursor (wrapping first when the cursor is past the
    /// last column) and advance.
    pub open spec fn put_char(self, ch: u8) -> TermState {
        let s1 = if self.cursor_y >= TERM_ROWS {
            TermState { cursor_y: TERM_ROWS - 1, ..self }.scrolled_up()
        } else {
            self
        };
        let s2 = if s1.cursor_x >= TERM_COLS { TermState { cursor_x: 0, ..s1 }.line_down() } else { s1 };
        TermState { cursor_x: s2.cursor_x + 1, dirty: true, ..s2.with_cell(s2.cursor_y, s2.cursor_x, s2.pen(ch)) }
    }

    pub open spec fn newline(self) -> TermState {
        TermState { dirty: true, ..TermState { cursor_x: 0, ..self }.line_down() }
    }

    pub open spec fn backspace(self) -> TermState {
        if self.cursor_x > 0 {
            let s = TermState { cursor_x: self.cursor_x - 1, dirty: true, ..self };
            s.with_cell(s.cursor_y, s.cursor_x, s.pen(32))
        } else {
            self
        }
    }

    pub open spec fn cleared(self) -> TermState {
        TermState {
            screen: Seq::new(TERM_ROWS as nat, |r: int| blank_row()),
            cursor_x: 0,
            cursor_y: 0,
            dirty: true,
            ..self
        }
    }

    /// Blank (in the current colors) the cells of the cursor's row whose
    /// column satisfies `erase`.
    pub open spec fn erase_in_row(self, erase: spec_fn(int) -> bool) -> TermState {
        if self.cursor_y < TERM_ROWS {
            let row = self.screen[self.cursor_y];
            TermState {
                screen: self.screen.update(
                    self.cursor_y,
                    Seq::new(row.len(), |c: int| if erase(c) { self.pen(32) } else { row[c] }),
                ),
                dirty: true,
                ..self
            }
        } else {
            self
        }
    }

    pub open spec fn cleared_to_eol(self) -> TermState {
        self.erase_in_row(|c: int| c >= self.cursor_x)
    }

    pub open spec fn cleared_to_sol(self) -> TermState {
        self.erase_in_row(|c: int| c < self.cursor_x)
    }

    /// Rows satisfying `erase` become blank.
    pub open spec fn blank_rows(self, erase: spec_fn(int) -> bool) -> TermState {
        TermState {
            screen: Seq::new(self.screen.len(), |r: int| if erase(r) { blank_row() } else { self.screen[r] }),
            dirty: true,
            ..self
        }
    }

    pub open spec fn cleared_to_eos(self) -> TermState {
        let y = self.cursor_y;
        self.cleared_to_eol().blank_rows(|r: int| r > y)
    }

    pub open spec fn cleared_to_sos(self) -> TermState {
        let y = self.cursor_y;
        self.cleared_to_sol().blank_rows(|r: int| r < y)
    }
}

impl Terminal {
    pub fn new() -> (t: Terminal)
        ensures
            t@.wf(),
            t@.screen == Seq::new(TERM_ROWS as nat, |r: int| blank_row()),
            t@.scrollback.len() == 0,
            t@.cursor_x == 0,
            t@.cursor_y == 0,
            t@.saved_cursor_x == 0,
            t@.saved_cursor_y == 0,
            t@.scroll_offset == 0,
            t@.fg_color == COL_FG,
            t@.bg_color == COL_BG,
            t@.cursor_visible,
            t@.blink_counter == 0,
            t@.ansi_state == AnsiState::Normal,
            t@.csi_param_len == 0,
            t@.pty_id == 0,
            t@.shm_id == 0,
            t@.window_id == 0,
            t@.ws_pid == 0,
            t@.dirty,
    {
        let mut screen: Vec<[Cell; TERM_COLS]> = Vec::new();
        let mut r: usize = 0;
        while r < TERM_ROWS
            invariant
                r <= TERM_ROWS,
                screen@.len() == r,
                forall|i: int| 0 <= i < r ==> (#[trigger] screen@[i])@ == blank_row(),
            decreases TERM_ROWS - r,
        {
            let row = blank_line();
            screen.push(row);
            r = r + 1;
        }
        let t = Terminal {
            screen,
            scrollback: Vec::new(),
            cursor_x: 0,
            cursor_y: 0,
            saved_cursor_x: 0,
            saved_cursor_y: 0,
            scroll_offset: 0,
            fg_color: COL_FG,
            bg_color: COL_BG,
            cursor_visible: true,
            blink_counter: 0,
            ansi_state: AnsiState::Normal,
            csi_params: [0u8; 16],
            csi_param_len: 0,
            pty_id: 0,
            shm_id: 0,
            window_id: 0,
            ws_pid: 0,
            dirty: true,
        };
        assert(t@.screen =~= Seq::new(TERM_ROWS as nat, |r: int| blank_row()));
        t
    }

    /// Scroll the screen up by one line, moving the top line to scrollback.
    pub fn scroll_up(&mut self)
        requires
            old(self)@.wf(),
        ensures
            final(self)@.wf(),
            final(self)@ == old(self)@.scrolled_up(),
    {
        let ghost s = self@;
        let top = self.screen[0];
        let ghost sb0 = self.scrollback@;
        self.scrollback.push(top);
        if self.scrollback.len() > SCROLLBACK_MAX {
            self.scrollback.remove(0);
        }
        let blank = blank_line();
        shift_rows_up(&mut self.screen, blank);
        self.scroll_offset = 0;
        assert(self@.screen =~= s.screen.drop_first().push(blank_row()));
        assert(self@.scrollback =~= s.scrolled_up().scrollback);
    }
}

impl Terminal {
    fn set_cell(&mut self, y: usize, x: usize, c: Cell)
        requires
            old(self)@.wf(),
            y < TERM_ROWS,
            x < TERM_COLS,
        ensures
            final(self)@ == old(self)@.with_cell(y as int, x as int, c),
    {
        let ghost s = self@;
        let mut row = self.screen[y];
        row[x] = c;
        self.screen.set(y, row);
        assert(self@.screen =~= s.screen.update(y as int, s.screen[y as int].update(x as int, c)));
    }

    /// Move the cursor one line down, scrolling at the bottom.
    fn line_down(&mut self)
        requires
            old(self)@.wf(),
        ensures
            final(self)@.wf(),
            final(self)@ == old(self)@.line_down(),
    {
        self.cursor_y = self.cursor_y + 1;
        if self.cursor_y >= TERM_ROWS {
            self.cursor_y = TERM_ROWS - 1;
            self.scroll_up();
        }
    }

    /// Write a character at the cursor position and advance the cursor.
    pub fn put_char(&mut self, ch: u8)
        requires
            old(self)@.wf(),
        ensures
            final(self)@.wf(),
            final(self)@ == old(self)@.put_char(ch),
    {
        if self.cursor_y >= TERM_ROWS {
            self.cursor_y = TERM_ROWS - 1;
            self.scroll_up();
        }
        if self.cursor_x >= TERM_COLS {
            self.cursor_x = 0;
            self.line_down();
        }
        let c = Cell { ch, fg_color: self.fg_color, bg_color: self.bg_color };
        self.set_cell(self.cursor_y, self.cursor_x, c);
        self.cursor_x = self.cursor_x + 1;
        self.dirty = true;
    }

    /// Line feed: back to the first column of the next line.
    pub fn newline(&mut self)
        requires
            old(self)@.wf(),
        ensures
            final(self)@.wf(),
            final(self)@ == old(self)@.newline(),
    {
        self.cursor_x = 0;
        self.line_down();
        self.dirty = true;
    }

    /// Erase the cell before the cursor and move back onto it.
    pub fn backspace(&mut self)
        requires
            old(self)@.wf(),
        ensures
            final(self)@.wf(),
            final(self)@ == old(self)@.backspace(),
    {
        if self.cursor_x > 0 {
            self.cursor_x = self.cursor_x - 1;
            self.dirty = true;
            let c = Cell { ch: 32, fg_color: self.fg_color, bg_color: self.bg_color };
            self.set_cell(self.cursor_y, self.cursor_x, c);
        }
    }

    /// Clear the screen and home the cursor.
    pub fn clear_screen(&mut self)
        requires
            old(self)@.wf(),
        ensures
            final(self)@.wf(),
            final(self)@ == old(self)@.cleared(),
    {
        let ghost s = self@;
        blank_rows_in(&mut self.screen, 0, TERM_ROWS);
        self.cursor_x = 0;
        self.cursor_y = 0;
        self.dirty = true;
        assert(self@.screen =~= s.cleared().screen);
    }

    /// Blank the cursor's row from column `from` (inclusive) to `to` (exclusive).
    fn erase_cols(&mut self, from: usize, to: usize)
        requires
            old(self)@.wf(),
            to <= TERM_COLS,
        ensures
            final(self)@ == old(self)@.erase_in_row(|c: int| from <= c < to),
    {
        let ghost s = self@;
        let y = self.cursor_y;
        let mut row = self.screen[y];
        let c = Cell { ch: 32, fg_color: self.fg_color, bg_color: self.bg_color };
        let mut col = from;
        while col < to
            invariant
                s.wf(),
                y == s.cursor_y,
                to <= TERM_COLS,
                from <= col,
                from <= to ==> col <= to,
                to < from ==> col == from,
                row@.len() == TERM_COLS,
                forall|i: int| 0 <= i < TERM_COLS ==> #[trigger] row@[i] == (if from <= i < col {
                    c
                } else {
                    s.screen[y as int][i]
                }),
            decreases to - col,
        {
            row[col] = c;
            col = col + 1;
        }
        self.screen.set(y, row);
        self.dirty = true;
        let ghost e = s.erase_in_row(|cc: int| from <= cc < to);
        assert(self@.screen[y as int] =~= e.screen[y as int]);
        assert(self@.screen =~= e.screen);
    }

    /// Clear from the cursor to the end of its line.
    pub fn clear_to_eol(&mut self)
        requires
            old(self)@.wf(),
        ensures
            final(self)@.wf(),
            final(self)@ == old(self)@.cleared_to_eol(),
    {
        let ghost s = self@;
        if self.cursor_y < TERM_ROWS {
            self.erase_cols(self.cursor_x, TERM_COLS);
            let ghost y = s.cursor_y;
            assert(self@.screen[y] =~= s.cleared_to_eol().screen[y]);
            assert(self@.screen =~= s.cleared_to_eol().screen);
        }
    }

    /// Clear from the start of the cursor's line up to the cursor.
    pub fn clear_to_sol(&mut self)
        requires
            old(self)@.wf(),
        ensures
            final(self)@.wf(),
            final(self)@ == old(self)@.cleared_to_sol(),
    {
        let ghost s = self@;
        if self.cursor_y < TERM_ROWS {
            self.erase_cols(0, self.cursor_x);
            let ghost y = s.cursor_y;
            assert(self@.screen[y] =~= s.cleared_to_sol().screen[y]);
            assert(self@.screen =~= s.cleared_to_sol().screen);
        }
    }

    /// Blank the rows `from..to`.
    fn blank_row_range(&mut self, from: usize, to: usize)
        requires
            old(self)@.wf(),
            to <= TERM_ROWS,
        ensures
            final(self)@ == old(self)@.blank_rows(|r: int| from <= r < to),
    {
        let ghost s = self@;
        blank_rows_in(&mut self.screen, from, to);
        self.dirty = true;
        assert(self@.screen =~= s.blank_rows(|rr: int| from <= rr < to).screen);
    }

    /// Clear from the cursor to the end of the screen.
    pub fn clear_to_eos(&mut self)
        requires
            old(self)@.wf(),
        ensures
            final(self)@.wf(),
            final(self)@ == old(self)@.cleared_to_eos(),
    {
        let ghost s = self@;
        self.clear_to_eol();
        let ghost mid = self@;
        self.blank_row_range(self.cursor_y + 1, TERM_ROWS);
        assert(self@.screen =~= s.cleared_to_eos().screen);
    }

    /// Clear from the start of the screen to the cursor.
    pub fn clear_to_sos(&mut self)
        requires
            old(self)@.wf(),
        ensures
            final(self)@.wf(),
            final(self)@ == old(self)@.cleared_to_sos(),
    {
        let ghost s = self@;
        self.clear_to_sol();
        self.blank_row_range(0, self.cursor_y);
        assert(self@.screen =~= s.cleared_to_sos().screen);
    }
}

pub open spec fn is_digit(b: u8) -> bool {
    48 <= b <= 57
}

/// The leading parameter of `p[i..n]`, accumulated onto `acc`: digits
/// accumulate in decimal, a `;` ends the parameter, other bytes are skipped.
pub open spec fn first_param(p: Seq<u8>, i: int, n: int, acc: int) -> int
    decreases n - i,
{
    if i >= n {
        acc
    } else if is_digit(p[i]) {
        first_param(p, i + 1, n, acc * 10 + (p[i] - 48))
    } else if p[i] == 59 {
        acc
    } else {
        first_param(p, i + 1, n, acc)
    }
}

/// Parameter number `n` (0-based, `;`-separated) of `p[i..len]`, where the
/// scan is at parameter `idx` with value `val` so far (`found` when it has a
/// digit); `default` when it is missing, empty or zero.
pub open spec fn nth_param(
    p: Seq<u8>,
    i: int,
    len: int,
    n: int,
    idx: int,
    val: int,
    found: bool,
    default: int,
) -> int
    decreases len - i,
{
    if i >= len {
        if idx == n && found && val > 0 { val } else { default }
    } else if is_digit(p[i]) {
        nth_param(p, i + 1, len, n, idx, val * 10 + (p[i] - 48), true, default)
    } else if p[i] == 59 {
        if idx == n {
            if found && val > 0 { val } else { default }
        } else {
            nth_param(p, i + 1, len, n, idx + 1, 0, false, default)
        }
    } else {
        nth_param(p, i + 1, len, n, idx, val, found, default)
    }
}

pub open spec fn pow10(k: nat) -> nat
    decreases k,
{
    if k == 0 { 1 } else { 10 * pow10((k - 1) as nat) }
}

proof fn lemma_pow10_mono(a: nat, b: nat)
    requires
        a <= b,
    ensures
        1 <= pow10(a) <= pow10(b),
    decreases b,
{
    if a < b {
        lemma_pow10_mono(a, (b - 1) as nat);
    } else if a > 0 {
        lemma_pow10_mono((a - 1) as nat, (a - 1) as nat);
    }
}

proof fn lemma_pow10_16()
    ensures
        pow10(16) == 10000000000000000,
{
    reveal_with_fuel(pow10, 17);
}

impl TermState {
    /// The first CSI parameter, or `default` when absent or zero.
    pub open spec fn csi_param(self, default: int) -> int {
        if self.csi_param_len == 0 {
            default
        } else {
            let v = first_param(self.csi_params, 0, self.csi_param_len, 0);
            if v == 0 { default } else { v }
        }
    }

    /// CSI parameter number `n`, or `default` when absent or zero.
    pub open spec fn csi_param_n(self, n: int, default: int) -> int {
        nth_param(self.csi_params, 0, self.csi_param_len, n, 0, 0, false, default)
    }

    /// The effect of a complete CSI sequence ending in `b`.
    pub open spec fn handle_csi(self, b: u8) -> TermState {
        if b == 65 {
            // A: cursor up
            let n = self.csi_param(1);
            TermState { cursor_y: if self.cursor_y >= n { self.cursor_y - n } else { 0 }, dirty: true, ..self }
        } else if b == 66 {
            // B: cursor down
            let n = self.csi_param(1);
            TermState {
                cursor_y: if self.cursor_y + n < TERM_ROWS { self.cursor_y + n } else { TERM_ROWS - 1 },
                dirty: true,
                ..self
            }
        } else if b == 67 {
            // C: cursor forward
            let n = self.csi_param(1);
            TermState {
                cursor_x: if self.cursor_x + n < TERM_COLS { self.cursor_x + n } else { TERM_COLS - 1 },
                dirty: true,
                ..self
            }
        } else if b == 68 {
            // D: cursor back
            let n = self.csi_param(1);
            TermState { cursor_x: if self.cursor_x >= n { self.cursor_x - n } else { 0 }, dirty: true, ..self }
        } else if b == 72 || b == 102 {
            // H, f: cursor position (row; col), 1-based
            let row = self.csi_param_n(0, 1);
            let col = self.csi_param_n(1, 1);
            TermState {
                cursor_y: if row - 1 <= TERM_ROWS - 1 { row - 1 } else { TERM_ROWS - 1 },
                cursor_x: if col - 1 <= TERM_COLS - 1 { col - 1 } else { TERM_COLS - 1 },
                dirty: true,
                ..self
            }
        } else if b == 74 {
            // J: erase in display
            let n = self.csi_param(0);
            if n == 0 {
                self.cleared_to_eos()
            } else if n == 1 {
                self.cleared_to_sos()
            } else if n == 2 {
                self.cleared()
            } else {
                self
            }
        } else if b == 75 {
            // K: erase in line
            let n = self.csi_param(0);
            if n == 0 {
                self.cleared_to_eol()
            } else if n == 1 {
                self.cleared_to_sol()
            } else if n == 2 && self.cursor_y < TERM_ROWS {
                TermState { screen: self.screen.update(self.cursor_y, blank_row()), dirty: true, ..self }
            } else {
                self
            }
        } else if b == 109 {
            // m: select graphic rendition
            let code = self.csi_param(0);
            if code == 0 {
                TermState { fg_color: COL_FG, bg_color: COL_BG, ..self }
            } else if 30 <= code <= 37 {
                TermState { fg_color: ANSI_COLORS@[code - 30], ..self }
            } else if 40 <= code <= 47 {
                TermState { bg_color: ANSI_COLORS@[code - 40], ..self }
            } else {
                self
            }
        } else if b == 115 {
            // s: save cursor
            TermState { saved_cursor_x: self.cursor_x, saved_cursor_y: self.cursor_y, ..self }
        } else if b == 117 {
            // u: restore cursor
            TermState { cursor_x: self.saved_cursor_x, cursor_y: self.saved_cursor_y, dirty: true, ..self }
        } else if b == 83 {
            // S: scroll up
            self.scrolled_up_n(self.csi_param(1) as nat)
        } else {
            self
        }
    }

    /// Record a CSI parameter byte when there is room.
    pub open spec fn with_param_byte(self, b: u8) -> TermState {
        if self.csi_param_len < 16 {
            TermState {
                csi_params: self.csi_params.update(self.csi_param_len, b),
                csi_param_len: self.csi_param_len + 1,
                ..self
            }
        } else {
            self
        }
    }

    /// Reverse index at the top line: the bottom line goes to the scrollback
    /// and a blank line is inserted at the top.
    pub open spec fn reverse_index(self) -> TermState {
        if self.cursor_y == 0 {
            TermState {
                scrollback: self.scrollback.push(self.screen[TERM_ROWS - 1]),
                screen: Seq::new(TERM_ROWS as nat, |r: int| if r == 0 { blank_row() } else { self.screen[r - 1] }),
                dirty: true,
                ..self
            }
        } else {
            TermState { cursor_y: self.cursor_y - 1, dirty: true, ..self }
        }
    }

    /// The effect of one byte of shell output.
    pub open spec fn step(self, b: u8) -> TermState {
        match self.ansi_state {
            AnsiState::Normal => {
                if b == 0x1b {
                    TermState { ansi_state: AnsiState::Esc, ..self }
                } else if b == 0x0a {
                    self.newline()
                } else if b == 0x0d {
                    TermState { cursor_x: 0, dirty: true, ..self }
                } else if b == 0x08 {
                    self.backspace()
                } else if b == 0x09 {
                    let x = (self.cursor_x + 8) / 8 * 8;
                    TermState { cursor_x: if x >= TERM_COLS { TERM_COLS - 1 } else { x }, dirty: true, ..self }
                } else if 0x20 <= b <= 0x7e {
                    self.put_char(b)
                } else {
                    self
                }
            },
            AnsiState::Esc => {
                if b == 91 {
                    TermState { ansi_state: AnsiState::Csi, csi_param_len: 0, ..self }
                } else if b == 99 {
                    TermState { ansi_state: AnsiState::Normal, ..self.cleared() }
                } else if b == 55 {
                    TermState {
                        saved_cursor_x: self.cursor_x,
                        saved_cursor_y: self.cursor_y,
                        ansi_state: AnsiState::Normal,
                        ..self
                    }
                } else if b == 56 {
                    TermState {
                        cursor_x: self.saved_cursor_x,
                        cursor_y: self.saved_cursor_y,
                        dirty: true,
                        ansi_state: AnsiState::Normal,
                        ..self
                    }
                } else if b == 68 {
                    TermState { dirty: true, ansi_state: AnsiState::Normal, ..self.line_down() }
                } else if b == 77 {
                    TermState { ansi_state: AnsiState::Normal, ..self.reverse_index() }
                } else {
                    TermState { ansi_state: AnsiState::Normal, ..self }
                }
            },
            AnsiState::Csi => {
                if is_digit(b) || b == 59 || b == 63 {
                    TermState { ansi_state: AnsiState::CsiParam, ..self.with_param_byte(b) }
                } else if 0x40 <= b <= 0x7e {
                    TermState { ansi_state: AnsiState::Normal, ..self.handle_csi(b) }
                } else {
                    TermState { ansi_state: AnsiState::CsiParam, ..self }
                }
            },
            AnsiState::CsiParam => {
                if is_digit(b) || b == 59 || b == 63 {
                    self.with_param_byte(b)
                } else if 0x40 <= b <= 0x7e {
                    TermState { ansi_state: AnsiState::Normal, ..self.handle_csi(b) }
                } else {
                    self
                }
            },
        }
    }

    /// The effect of a run of shell output, byte by byte.
    pub open spec fn processed(self, data: Seq<u8>) -> TermState
        decreases data.len(),
    {
        if data.len() == 0 {
            self
        } else {
            self.step(data[0]).processed(data.drop_first())
        }
    }
}

/// Shell output split into chunks has the effect of the same bytes in one
/// piece: an escape sequence cut between two reads is still recognised.
pub proof fn output_in_chunks(t: TermState, a: Seq<u8>, b: Seq<u8>)
    ensures
        t.processed(a + b) == t.processed(a).processed(b),
    decreases a.len(),
{
    if a.len() == 0 {
        assert(a + b =~= b);
    } else {
        assert((a + b).drop_first() =~= a.drop_first() + b);
        output_in_chunks(t.step(a[0]), a.drop_first(), b);
    }
}

impl Terminal {
    /// The first CSI parameter, or `default` when absent or zero.
    fn parse_csi_param(&self, default: u64) -> (r: u64)
        requires
            self@.wf(),
        ensures
            r == self@.csi_param(default as int),
    {
        if self.csi_param_len == 0 {
            return default;
        }
        let ghost p = self@.csi_params;
        let ghost n = self.csi_param_len as int;
        let mut val: u64 = 0;
        let mut i: usize = 0;
        let mut stopped = false;
        while i < self.csi_param_len && !stopped
            invariant
                self@.wf(),
                p == self@.csi_params,
                n == self.csi_param_len,
                i <= n,
                val < pow10(i as nat),
                stopped ==> first_param(p, 0, n, 0) == val,
                !stopped ==> first_param(p, 0, n, 0) == first_param(p, i as int, n, val as int),
            decreases n - i,
        {
            proof {
                lemma_pow10_mono(i as nat + 1, 16);
                lemma_pow10_16();
            }
            let d = self.csi_params[i];
            if d >= 48 && d <= 57 {
                val = val * 10 + (d - 48) as u64;
            } else if d == 59 {
                stopped = true;
            }
            i = i + 1;
        }
        if val == 0 { default } else { val }
    }

    /// CSI parameter number `n` (0-based), or `default` when absent or zero.
    fn parse_csi_param_n(&self, n: u64, default: u64) -> (r: u64)
        requires
            self@.wf(),
        ensures
            r == self@.csi_param_n(n as int, default as int),
            r > 0 || r == default,
    {
        let ghost p = self@.csi_params;
        let ghost len = self.csi_param_len as int;
        let mut param_idx: u64 = 0;
        let mut val: u64 = 0;
        let mut found_digit = false;
        let mut i: usize = 0;
        while i < self.csi_param_len
            invariant
                self@.wf(),
                p == self@.csi_params,
                len == self.csi_param_len,
                i <= len,
                param_idx <= i,
                val < pow10(i as nat),
                self@.csi_param_n(n as int, default as int) == nth_param(
                    p,
                    i as int,
                    len,
                    n as int,
                    param_idx as int,
                    val as int,
                    found_digit,
                    default as int,
                ),
            decreases len - i,
        {
            proof {
                lemma_pow10_mono(i as nat + 1, 16);
                lemma_pow10_16();
            }
            let d = self.csi_params[i];
            if d >= 48 && d <= 57 {
                val = val * 10 + (d - 48) as u64;
                found_digit = true;
            } else if d == 59 {
                if param_idx == n {
                    return if found_digit && val > 0 { val } else { default };
                }
                param_idx = param_idx + 1;
                val = 0;
                found_digit = false;
            }
            i = i + 1;
        }
        if param_idx == n {
            return if found_digit && val > 0 { val } else { default };
        }
        default
    }
}

impl Terminal {
    /// Handle a complete CSI sequence whose final byte is `final_byte`.
    pub fn handle_csi(&mut self, final_byte: u8)
        requires
            old(self)@.wf(),
        ensures
            final(self)@.wf(),
            final(self)@ == old(self)@.handle_csi(final_byte),
    {
        let ghost s = self@;
        if final_byte == 65 {
            // A: cursor up
            let n = self.parse_csi_param(1);
            if self.cursor_y as u64 >= n {
                self.cursor_y = self.cursor_y - n as usize;
            } else {
                self.cursor_y = 0;
            }
            self.dirty = true;
        } else if final_byte == 66 {
            // B: cursor down
            let n = self.parse_csi_param(1);
            if n < TERM_ROWS as u64 && self.cursor_y + (n as usize) < TERM_ROWS {
                self.cursor_y = self.cursor_y + n as usize;
            } else {
                self.cursor_y = TERM_ROWS - 1;
            }
            self.dirty = true;
        } else if final_byte == 67 {
            // C: cursor forward
            let n = self.parse_csi_param(1);
            if n < TERM_COLS as u64 && self.cursor_x + (n as usize) < TERM_COLS {
                self.cursor_x = self.cursor_x + n as usize;
            } else {
                self.cursor_x = TERM_COLS - 1;
            }
            self.dirty = true;
        } else if final_byte == 68 {
            // D: cursor back
            let n = self.parse_csi_param(1);
            if self.cursor_x as u64 >= n {
                self.cursor_x = self.cursor_x - n as usize;
            } else {
                self.cursor_x = 0;
            }
            self.dirty = true;
        } else if final_byte == 72 || final_byte == 102 {
            // H, f: cursor position (row; col), 1-based
            let row = self.parse_csi_param_n(0, 1);
            let col = self.parse_csi_param_n(1, 1);
            self.cursor_y = if row - 1 <= (TERM_ROWS - 1) as u64 { (row - 1) as usize } else { TERM_ROWS - 1 };
            self.cursor_x = if col - 1 <= (TERM_COLS - 1) as u64 { (col - 1) as usize } else { TERM_COLS - 1 };
            self.dirty = true;
        } else if final_byte == 74 {
            // J: erase in display
            let n = self.parse_csi_param(0);
            if n == 0 {
                self.clear_to_eos();
            } else if n == 1 {
                self.clear_to_sos();
            } else if n == 2 {
                self.clear_screen();
            }
        } else if final_byte == 75 {
            // K: erase in line
            let n = self.parse_csi_param(0);
            if n == 0 {
                self.clear_to_eol();
            } else if n == 1 {
                self.clear_to_sol();
            } else if n == 2 {
                if self.cursor_y < TERM_ROWS {
                    let blank = blank_line();
                    self.screen.set(self.cursor_y, blank);
                    self.dirty = true;
                    assert(self@.screen =~= s.screen.update(s.cursor_y, blank_row()));
                }
            }
        } else if final_byte == 109 {
            // m: select graphic rendition
            let code = self.parse_csi_param(0);
            if code == 0 {
                self.fg_color = COL_FG;
                self.bg_color = COL_BG;
            } else if code >= 30 && code <= 37 {
                self.fg_color = ANSI_COLORS[(code - 30) as usize];
            } else if code >= 40 && code <= 47 {
                self.bg_color = ANSI_COLORS[(code - 40) as usize];
            }
        } else if final_byte == 115 {
            // s: save cursor
            self.saved_cursor_x = self.cursor_x;
            self.saved_cursor_y = self.cursor_y;
        } else if final_byte == 117 {
            // u: restore cursor
            self.cursor_x = self.saved_cursor_x;
            self.cursor_y = self.saved_cursor_y;
            self.dirty = true;
        } else if final_byte == 83 {
            // S: scroll up
            let n = self.parse_csi_param(1);
            let mut k: u64 = 0;
            while k < n
                invariant
                    k <= n,
                    self@.wf(),
                    s.handle_csi(final_byte) == self@.scrolled_up_n((n - k) as nat),
                decreases n - k,
            {
                self.scroll_up();
                k = k + 1;
            }
        }
    }

    /// Reverse index (ESC M): move the cursor up, or at the top line insert a
    /// blank line there.
    fn reverse_index(&mut self)
        requires
            old(self)@.wf(),
        ensures
            final(self)@.wf(),
            final(self)@ == old(self)@.reverse_index(),
    {
        let ghost s = self@;
        if self.cursor_y == 0 {
            let bottom = self.screen[TERM_ROWS - 1];
            self.scrollback.push(bottom);
            let blank = blank_line();
            shift_rows_down(&mut self.screen, blank);
            assert(self@.screen =~= s.reverse_index().screen);
            assert(self@.scrollback =~= s.reverse_index().scrollback);
        } else {
            self.cursor_y = self.cursor_y - 1;
        }
        self.dirty = true;
    }

    /// Record a CSI parameter byte when there is room.
    fn push_param(&mut self, b: u8)
        requires
            old(self)@.wf(),
        ensures
            final(self)@.wf(),
            final(self)@ == old(self)@.with_param_byte(b),
    {
        if self.csi_param_len < 16 {
            self.csi_params[self.csi_param_len] = b;
            self.csi_param_len = self.csi_param_len + 1;
        }
    }

    /// Process one byte of shell output.
    pub fn process_byte(&mut self, byte: u8)
        requires
            old(self)@.wf(),
        ensures
            final(self)@.wf(),
            final(self)@ == old(self)@.step(byte),
    {
        match self.ansi_state {
            AnsiState::Normal => {
                if byte == 0x1b {
                    self.ansi_state = AnsiState::Esc;
                } else if byte == 0x0a {
                    self.newline();
                } else if byte == 0x0d {
                    self.cursor_x = 0;
                    self.dirty = true;
                } else if byte == 0x08 {
                    self.backspace();
                } else if byte == 0x09 {
                    // Tab: next 8-column boundary
                    let x = self.cursor_x + 8;
                    assert(x & !7usize == x / 8 * 8) by (bit_vector)
                        requires x <= 88;
                    self.cursor_x = (self.cursor_x + 8) & !7usize;
                    if self.cursor_x >= TERM_COLS {
                        self.cursor_x = TERM_COLS - 1;
                    }
                    self.dirty = true;
                } else if byte >= 0x20 && byte <= 0x7e {
                    self.put_char(byte);
                }
            },
            AnsiState::Esc => {
                if byte == 91 {
                    self.ansi_state = AnsiState::Csi;
                    self.csi_param_len = 0;
                } else if byte == 99 {
                    // RIS: reset
                    self.clear_screen();
                    self.ansi_state = AnsiState::Normal;
                } else if byte == 55 {
                    // DECSC: save cursor
                    self.saved_cursor_x = self.cursor_x;
                    self.saved_cursor_y = self.cursor_y;
                    self.ansi_state = AnsiState::Normal;
                } else if byte == 56 {
                    // DECRC: restore cursor
                    self.cursor_x = self.saved_cursor_x;
                    self.cursor_y = self.saved_cursor_y;
                    self.dirty = true;
                    self.ansi_state = AnsiState::Normal;
                } else if byte == 68 {
                    // IND: index
                    self.line_down();
                    self.dirty = true;
                    self.ansi_state = AnsiState::Normal;
                } else if byte == 77 {
                    // RI: reverse index
                    self.reverse_index();
                    self.ansi_state = AnsiState::Normal;
                } else {
                    self.ansi_state = AnsiState::Normal;
                }
            },
            AnsiState::Csi => {
                if (byte >= 48 && byte <= 57) || byte == 59 || byte == 63 {
                    self.push_param(byte);
                    self.ansi_state = AnsiState::CsiParam;
                } else if byte >= 0x40 && byte <= 0x7e {
                    self.handle_csi(byte);
                    self.ansi_state = AnsiState::Normal;
                } else {
                    self.ansi_state = AnsiState::CsiParam;
                }
            },
            AnsiState::CsiParam => {
                if (byte >= 48 && byte <= 57) || byte == 59 || byte == 63 {
                    self.push_param(byte);
                } else if byte >= 0x40 && byte <= 0x7e {
                    self.handle_csi(byte);
                    self.ansi_state = AnsiState::Normal;
                }
            },
        }
    }

    /// Process bytes of shell output from the PTY.
    pub fn process_output(&mut self, data: &[u8])
        requires
            old(self)@.wf(),
        ensures
            final(self)@.wf(),
            final(self)@ == old(self)@.processed(data@),
    {
        let ghost target = self@.processed(data@);
        let mut i: usize = 0;
        assert(data@.subrange(0, data@.len() as int) =~= data@);
        while i < data.len()
            invariant
                i <= data@.len(),
                self@.wf(),
                target == self@.processed(data@.subrange(i as int, data@.len() as int)),
            decreases data.len() - i,
        {
            proof {
                let rest = data@.subrange(i as int, data@.len() as int);
                assert(rest.drop_first() =~= data@.subrange(i + 1, data@.len() as int));
            }
            self.process_byte(data[i]);
            i = i + 1;
        }
        proof {
            assert(data@.subrange(i as int, data@.len() as int) =~= Seq::<u8>::empty());
        }
    }

    /// Scroll the view one line up into the scrollback.
    pub fn scroll_up_scrollback(&mut self)
        ensures
            final(self)@ == (if old(self)@.scroll_offset < old(self)@.scrollback.len() {
                TermState { scroll_offset: old(self)@.scroll_offset + 1, dirty: true, ..old(self)@ }
            } else {
                old(self)@
            }),
    {
        if self.scroll_offset < self.scrollback.len() {
            self.scroll_offset = self.scroll_offset + 1;
            self.dirty = true;
        }
    }

    /// Scroll the view one line down, towards the live screen.
    pub fn scroll_down_scrollback(&mut self)
        ensures
            final(self)@ == (if old(self)@.scroll_offset > 0 {
                TermState { scroll_offset: old(self)@.scroll_offset - 1, dirty: true, ..old(self)@ }
            } else {
                old(self)@
            }),
    {
        if self.scroll_offset > 0 {
            self.scroll_offset = self.scroll_offset - 1;
            self.dirty = true;
        }
    }

    /// Advance the cursor blink timer; the cursor toggles every 30 ticks.
    pub fn update_blink(&mut self)
        requires
            old(self)@.wf(),
        ensures
            final(self)@.wf(),
            final(self)@ == (if old(self)@.blink_counter + 1 >= 30 {
                TermState {
                    blink_counter: 0,
                    cursor_visible: !old(self)@.cursor_visible,
                    dirty: true,
                    ..old(self)@
                }
            } else {
                TermState { blink_counter: old(self)@.blink_counter + 1, ..old(self)@ }
            }),
    {
        self.blink_counter = self.blink_counter + 1;
        if self.blink_counter >= 30 {
            self.blink_counter = 0;
            self.cursor_visible = !self.cursor_visible;
            self.dirty = true;
        }
    }

    /// A typed key: with a PTY open, the view returns to the bottom and the
    /// key is to be written to the PTY (returned).
    pub fn handle_key(&mut self, ascii: u8) -> (w: Option<u8>)
        ensures
            old(self)@.pty_id == 0 ==> w is None && final(self)@ == old(self)@,
            old(self)@.pty_id != 0 ==> w == Some(ascii) && final(self)@ == (if old(self)@.scroll_offset > 0 {
                TermState { scroll_offset: 0, dirty: true, ..old(self)@ }
            } else {
                old(self)@
            }),
    {
        if self.pty_id == 0 {
            return None;
        }
        if self.scroll_offset > 0 {
            self.scroll_offset = 0;
            self.dirty = true;
        }
        Some(ascii)
    }

    /// A special key: with a PTY open, the ANSI sequence to write to the PTY
    /// for arrows, Home, Insert, End and F1-F4.
    pub fn handle_special_key(&self, key_code: u8) -> (w: Option<Vec<u8>>)
        ensures
            self@.pty_id == 0 ==> w is None,
            self@.pty_id != 0 ==> match special_key_seq(key_code) {
                Some(q) => w is Some && w->Some_0@ == q,
                None => w is None,
            },
    {
        if self.pty_id == 0 {
            return None;
        }
        let tail: Vec<u8> = if key_code == 0x41 {
            vec![65u8]
        } else if key_code == 0x42 {
            vec![66u8]
        } else if key_code == 0x43 {
            vec![67u8]
        } else if key_code == 0x44 {
            vec![68u8]
        } else if key_code == 0x48 {
            vec![72u8]
        } else if key_code == 0x45 {
            vec![50u8, 126u8]
        } else if key_code == 0x46 {
            vec![70u8]
        } else if key_code == 0x50 {
            vec![91u8, 65u8]
        } else if key_code == 0x51 {
            vec![91u8, 66u8]
        } else if key_code == 0x52 {
            vec![91u8, 67u8]
        } else if key_code == 0x53 {
            vec![91u8, 68u8]
        } else {
            return None;
        };
        let mut seq: Vec<u8> = vec![0x1bu8, 91u8];
        let mut i: usize = 0;
        while i < tail.len()
            invariant
                i <= tail@.len(),
                seq@ == seq![0x1bu8, 91u8] + tail@.subrange(0, i as int),
            decreases tail.len() - i,
        {
            seq.push(tail[i]);
            i = i + 1;
            assert(seq@ =~= seq![0x1bu8, 91u8] + tail@.subrange(0, i as int));
        }
        assert(tail@.subrange(0, tail@.len() as int) =~= tail@);
        assert(seq@ =~= special_key_seq(key_code)->Some_0);
        Some(seq)
    }
}

impl Terminal {
    /// A key press from the main loop. 0x0e and 0x0f scroll the view up and
    /// down; 'A'-'D' go to the shell as arrow-key sequences; any other key is
    /// typed. Returns the bytes to write to the PTY.
    pub fn handle_input_key(&mut self, ascii: u8) -> (w: Option<Vec<u8>>)
        ensures
            ascii == 0x0e ==> w is None && final(self)@ == (if old(self)@.scroll_offset
                < old(self)@.scrollback.len() {
                TermState { scroll_offset: old(self)@.scroll_offset + 1, dirty: true, ..old(self)@ }
            } else {
                old(self)@
            }),
            ascii == 0x0f ==> w is None && final(self)@ == (if old(self)@.scroll_offset > 0 {
                TermState { scroll_offset: old(self)@.scroll_offset - 1, dirty: true, ..old(self)@ }
            } else {
                old(self)@
            }),
            0x41 <= ascii <= 0x44 ==> final(self)@ == old(self)@ && (old(self)@.pty_id == 0 ==> w is None) && (
            old(self)@.pty_id != 0 ==> w is Some && w->Some_0@ == special_key_seq(ascii)->Some_0),
            ascii != 0x0e && ascii != 0x0f && !(0x41 <= ascii <= 0x44) ==> {
                &&& old(self)@.pty_id == 0 ==> w is None && final(self)@ == old(self)@
                &&& old(self)@.pty_id != 0 ==> w is Some && w->Some_0@ == seq![ascii] && final(self)@ == (
                if old(self)@.scroll_offset > 0 {
                    TermState { scroll_offset: 0, dirty: true, ..old(self)@ }
                } else {
                    old(self)@
                })
            },
    {
        if ascii == 0x0e {
            self.scroll_up_scrollback();
            None
        } else if ascii == 0x0f {
            self.scroll_down_scrollback();
            None
        } else if 0x41 <= ascii && ascii <= 0x44 {
            self.handle_special_key(ascii)
        } else {
            match self.handle_key(ascii) {
                Some(b) => {
                    let v = vec![b];
                    assert(v@ =~= seq![ascii]);
                    Some(v)
                },
                None => None,
            }
        }
    }
}

/// The decimal representation of `n`, most significant digit first.
pub open spec fn decimal(n: nat) -> Seq<u8>
    decreases n,
{
    if n < 10 {
        seq![(48 + n) as u8]
    } else {
        decimal(n / 10).push((48 + n % 10) as u8)
    }
}

/// `s` back to front.
pub open spec fn reversed(s: Seq<u8>) -> Seq<u8> {
    Seq::new(s.len(), |i: int| s[s.len() - 1 - i])
}

/// The ASCII decimal digits of `n`, as the terminal prints its PTY number.
pub fn decimal_digits(n: usize) -> (d: Vec<u8>)
    ensures
        d@ == decimal(n as nat),
{
    if n == 0 {
        let z = vec![48u8];
        assert(z@ =~= decimal(0));
        return z;
    }
    let mut digits: Vec<u8> = Vec::new();
    let mut id = n;
    assert(decimal(n as nat) + reversed(digits@) =~= decimal(n as nat));
    while id > 0
        invariant
            id > 0 ==> decimal(n as nat) == decimal(id as nat) + reversed(digits@),
            id == 0 ==> decimal(n as nat) == reversed(digits@),
        decreases id,
    {
        let d: u8 = (id % 10) as u8;
        let ghost old_digits = digits@;
        digits.push(48u8 + d);
        proof {
            assert(reversed(digits@) =~= seq![(48 + d) as u8] + reversed(old_digits));
            if id >= 10 {
                assert(decimal(id as nat) == decimal((id / 10) as nat).push((48 + id % 10) as u8));
                assert(decimal(id as nat) + reversed(old_digits) =~= decimal((id / 10) as nat) + reversed(digits@));
            } else {
                assert(decimal(id as nat) =~= seq![(48 + d) as u8]);
            }
        }
        id = id / 10;
    }
    let mut out: Vec<u8> = Vec::new();
    let mut i = digits.len();
    while i > 0
        invariant
            i <= digits@.len(),
            out@ =~= reversed(digits@).subrange(0, digits@.len() - i),
        decreases i,
    {
        out.push(digits[i - 1]);
        i = i - 1;
    }
    assert(out@ =~= reversed(digits@));
    out
}

/// The ANSI sequence a special key sends: ESC [ followed by A-D for the
/// arrows, H Home, 2~ Insert, F End, [A-[D for F1-F4.
pub open spec fn special_key_seq(key_code: u8) -> Option<Seq<u8>> {
    let tail: Option<Seq<u8>> = if key_code == 0x41 {
        Some(seq![65u8])
    } else if key_code == 0x42 {
        Some(seq![66u8])
    } else if key_code == 0x43 {
        Some(seq![67u8])
    } else if key_code == 0x44 {
        Some(seq![68u8])
    } else if key_code == 0x48 {
        Some(seq![72u8])
    } else if key_code == 0x45 {
        Some(seq![50u8, 126u8])
    } else if key_code == 0x46 {
        Some(seq![70u8])
    } else if key_code == 0x50 {
        Some(seq![91u8, 65u8])
    } else if key_code == 0x51 {
        Some(seq![91u8, 66u8])
    } else if key_code == 0x52 {
        Some(seq![91u8, 67u8])
    } else if key_code == 0x53 {
        Some(seq![91u8, 68u8])
    } else {
        None
    };
    match tail {
        Some(t) => Some(seq![0x1bu8, 91u8] + t),
        None => None,
    }
}

/// Insert `blank` as the first row, dropping the last, shifting in place.
fn shift_rows_down(rows: &mut Vec<[Cell; TERM_COLS]>, blank: [Cell; TERM_COLS])
    requires
        old(rows)@.len() == TERM_ROWS,
    ensures
        final(rows)@.len() == TERM_ROWS,
        final(rows)@[0] == blank,
        forall|i: int| 1 <= i < TERM_ROWS ==> #[trigger] final(rows)@[i] == old(rows)@[i - 1],
{
    let ghost s = rows@;
    let mut row: usize = TERM_ROWS - 1;
    while row > 0
        invariant
            row < TERM_ROWS,
            s.len() == TERM_ROWS,
            rows@.len() == TERM_ROWS,
            forall|i: int| row < i < TERM_ROWS ==> #[trigger] rows@[i] == s[i - 1],
            forall|i: int| 0 <= i <= row ==> #[trigger] rows@[i] == s[i],
        decreases row,
    {
        let prev = rows[row - 1];
        rows.set(row, prev);
        row = row - 1;
    }
    rows.set(0, blank);
}

/// Replace rows `from..to` by blank rows.
fn blank_rows_in(rows: &mut Vec<[Cell; TERM_COLS]>, from: usize, to: usize)
    requires
        to <= old(rows)@.len(),
    ensures
        final(rows)@.len() == old(rows)@.len(),
        forall|i: int| 0 <= i < old(rows)@.len() ==> (#[trigger] final(rows)@[i])@ == (if from <= i < to {
            blank_row()
        } else {
            old(rows)@[i]@
        }),
{
    let ghost s = rows@;
    let mut r = from;
    while r < to
        invariant
            to <= s.len(),
            from <= r,
            from <= to ==> r <= to,
            to < from ==> r == from,
            rows@.len() == s.len(),
            forall|i: int| 0 <= i < s.len() ==> (#[trigger] rows@[i])@ == (if from <= i < r {
                blank_row()
            } else {
                s[i]@
            }),
        decreases to - r,
    {
        let row = blank_line();
        rows.set(r, row);
        r = r + 1;
    }
}

/// Drop the first row and append `blank`, shifting rows in place.
fn shift_rows_up(rows: &mut Vec<[Cell; TERM_COLS]>, blank: [Cell; TERM_COLS])
    requires
        old(rows)@.len() == TERM_ROWS,
    ensures
        final(rows)@ == old(rows)@.drop_first().push(blank),
{
    let ghost s = rows@;
    let mut row: usize = 0;
    while row < TERM_ROWS - 1
        invariant
            row <= TERM_ROWS - 1,
            s.len() == TERM_ROWS,
            rows@.len() == TERM_ROWS,
            forall|i: int| 0 <= i < row ==> #[trigger] rows@[i] == s[i + 1],
            forall|i: int| row <= i < TERM_ROWS ==> #[trigger] rows@[i] == s[i],
        decreases TERM_ROWS - 1 - row,
    {
        let next = rows[row + 1];
        rows.set(row, next);
        row = row + 1;
    }
    rows.set(TERM_ROWS - 1, blank);
    assert(rows@ =~= s.drop_first().push(blank));
}

/// A row of empty cells.
fn blank_line() -> (row: [Cell; TERM_COLS])
    ensures
        row@ == blank_row(),
{
    let c = Cell::new();
    let row = [c; TERM_COLS];
    assert(row@ =~= blank_row());
    row
}

/// Rounds the terminal waits for the window server to answer its request
/// for a window.
pub const WINDOW_WAIT_ROUNDS: u32 = 100;

/// What to do after a round of waiting for the window server.
#[derive(Clone, Copy, Debug, PartialEq, Eq, Structural)]
pub enum WindowWait {
    /// The window server named the window.
    Ready(u16),
    /// Yield, then wait another round; the rounds spent so far.
    Retry(u32),
    /// Yield, then give up waiting and use window 1.
    Fallback,
}

/// One round of waiting for the window server: `reply` is the message that
/// arrived this round, if any. A window-ready reply naming a window other
/// than 0 ends the wait; otherwise the round counts, and after
/// `WINDOW_WAIT_ROUNDS` rounds the terminal falls back to window 1.
pub fn window_wait_step(retries: u32, reply: Option<[u8; IPC_PAYLOAD_SIZE]>) -> (r: WindowWait)
    requires
        retries < WINDOW_WAIT_ROUNDS,
    ensures
        (match reply {
            Some(m) => m@[0] == MSG_WINDOW_READY && msg_u16(m@, 1) != 0,
            None => false,
        }) ==> r == WindowWait::Ready(msg_u16(reply->0@, 1) as u16),
        !(match reply {
            Some(m) => m@[0] == MSG_WINDOW_READY && msg_u16(m@, 1) != 0,
            None => false,
        }) ==> r == (if retries + 1 < WINDOW_WAIT_ROUNDS {
            WindowWait::Retry((retries + 1) as u32)
        } else {
            WindowWait::Fallback
        }),
{
    let mut id: u16 = 0;
    if let Some(m) = reply {
        if m[0] == MSG_WINDOW_READY {
            id = parse_window_id(&m);
        }
    }
    if id != 0 {
        WindowWait::Ready(id)
    } else if retries + 1 < WINDOW_WAIT_ROUNDS {
        WindowWait::Retry(retries + 1)
    } else {
        WindowWait::Fallback
    }
}

/// A tab moves the cursor to the next tab stop: the least multiple of 8
/// beyond the cursor, or the last column when that lies past the line. The
/// line, the screen and the colors stay as they were.
pub proof fn tab_moves_to_next_stop(s: TermState)
    requires
        s.wf(),
        s.ansi_state == AnsiState::Normal,
    ensures
        s.cursor_x < 72 ==> {
            let x = s.step(0x09).cursor_x;
            &&& x % 8 == 0
            &&& s.cursor_x < x <= s.cursor_x + 8
        },
        s.cursor_x >= 72 ==> s.step(0x09).cursor_x == TERM_COLS - 1,
        s.step(0x09).cursor_y == s.cursor_y,
        s.step(0x09).screen == s.screen,
        s.step(0x09).ansi_state == AnsiState::Normal,
{
    let c = s.cursor_x;
    assert(((c + 8) / 8 * 8) % 8 == 0 && c < (c + 8) / 8 * 8 <= c + 8 && (c >= 72 ==> (c + 8) / 8 * 8 >= 80) && (c < 72
        ==> (c + 8) / 8 * 8 < 80)) by (nonlinear_arith)
        requires 0 <= c <= 80;
}

/// Carriage return, backspace and printable bytes on a well-formed screen: a
/// carriage return goes to column 0 of the same line; a backspace away from
/// column 0 steps back one column and blanks that cell (at column 0 it does
/// nothing); a printable byte with room on the line is drawn at the cursor,
/// which moves one column right.
pub proof fn cursor_moves_of_plain_bytes(s: TermState, b: u8)
    requires
        s.wf(),
        s.ansi_state == AnsiState::Normal,
    ensures
        s.step(0x0d).cursor_x == 0 && s.step(0x0d).cursor_y == s.cursor_y && s.step(0x0d).screen == s.screen,
        s.cursor_x > 0 ==> {
            let t = s.step(0x08);
            &&& t.cursor_x == s.cursor_x - 1
            &&& t.cursor_y == s.cursor_y
            &&& t.screen[s.cursor_y][s.cursor_x - 1].ch == 32
        },
        s.cursor_x == 0 ==> s.step(0x08) == s,
        0x20 <= b <= 0x7e && s.cursor_x < TERM_COLS ==> {
            let t = s.step(b);
            &&& t.cursor_x == s.cursor_x + 1
            &&& t.cursor_y == s.cursor_y
            &&& t.screen[s.cursor_y][s.cursor_x].ch == b
        },
{
}

} // verus!
