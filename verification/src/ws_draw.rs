//! The window server's screen: a 32-bit framebuffer (0xAARRGGBB pixels,
//! `stride` pixels per row) and the drawing primitives the desktop, the
//! windows and the cursor are made of.
//!
//! `ScreenView` models the screen; each primitive is specified as painting a
//! set of pixels with a function of their position and previous value.

use vstd::prelude::*;
use vstd::string::StrSliceExecFns;
use crate::term_render::{glyph_slot, bit_on, glyph_row, GLYPH_COUNT};
use crate::gui::drawing::lemma_coords;
use crate::windowserver::{WindowServer, WsView, Window, WinView, DOCK_W, DOCK_H, ICON_SIZE, MENU_BAR_H, TITLE_BAR_H, NUM_DOCK_ICONS};
use crate::cursor::{spec_pixel_set, pixel_set};

verus! {

/// The screen: `height` rows of `stride` pixels, `width` of them visible.
pub struct Screen {
    pub pixels: Vec<u32>,
    pub width: usize,
    pub height: usize,
    pub stride: usize,
}

pub struct ScreenView {
    pub pixels: Seq<u32>,
    pub width: int,
    pub height: int,
    pub stride: int,
}

impl View for Screen {
    type V = ScreenView;

    open spec fn view(&self) -> ScreenView {
        ScreenView {
            pixels: self.pixels@,
            width: self.width as int,
            height: self.height as int,
            stride: self.stride as int,
        }
    }
}

/// Channel `shift` (16 red, 8 green, 0 blue) of a pixel.
pub open spec fn chan(v: u32, shift: u32) -> int {
    ((v >> shift) & 0xFF) as int
}

/// An opaque pixel of the given channels.
pub open spec fn rgb_px(r: int, g: int, b: int) -> u32 {
    0xFF00_0000u32 | ((r as u32) << 16u32) | ((g as u32) << 8u32) | (b as u32)
}

/// `c` blended over the pixel `v` by the alpha in its top byte: unchanged
/// when transparent, replaced when opaque, mixed channel by channel otherwise.
pub open spec fn blend_px(c: u32, v: u32) -> u32 {
    let a = chan(c, 24);
    if a == 0 {
        v
    } else if a == 255 {
        c
    } else {
        rgb_px(
            (chan(c, 16) * a + chan(v, 16) * (255 - a)) / 255,
            (chan(c, 8) * a + chan(v, 8) * (255 - a)) / 255,
            (chan(c, 0) * a + chan(v, 0) * (255 - a)) / 255,
        )
    }
}

/// A channel `t`/255 of the way from `a` to `b`, truncating toward `a`.
pub open spec fn grad_chan(a: int, b: int, t: int) -> int {
    if b >= a {
        a + (b - a) * t / 255
    } else {
        a - (a - b) * t / 255
    }
}

/// The color of row `row` of a vertical gradient from `top` (row `y`) to
/// `bot` (row `y + h - 1`).
pub open spec fn grad_px(top: u32, bot: u32, y: int, h: int, row: int) -> u32 {
    let t = if h > 1 { (row - y) * 255 / (h - 1) } else { 0 };
    rgb_px(
        grad_chan(chan(top, 16), chan(bot, 16), t),
        grad_chan(chan(top, 8), chan(bot, 8), t),
        grad_chan(chan(top, 0), chan(bot, 0), t),
    )
}

/// Point `(x, y)` lies in the disk of radius `r` around `(cx, cy)`.
pub open spec fn in_disk(cx: int, cy: int, r: int, x: int, y: int) -> bool {
    (x - cx) * (x - cx) + (y - cy) * (y - cy) <= r * r
}

impl ScreenView {
    /// Every visible pixel is backed by the buffer.
    pub open spec fn wf(self) -> bool {
        &&& 0 < self.stride
        &&& self.width <= self.stride
        &&& self.height * self.stride <= self.pixels.len()
    }

    /// The pixel at `(x, y)`.
    pub open spec fn at(self, x: int, y: int) -> u32 {
        self.pixels[y * self.stride + x]
    }

    pub open spec fn col(self, i: int) -> int {
        i % self.stride
    }

    pub open spec fn row(self, i: int) -> int {
        i / self.stride
    }

    /// Buffer index `i` holds a visible pixel.
    pub open spec fn on_screen(self, i: int) -> bool {
        self.col(i) < self.width && self.row(i) < self.height
    }

    /// The screen after giving every visible pixel `(x, y)` with `hit(x, y)`
    /// the value `f(x, y, old)`.
    pub open spec fn paint(self, hit: spec_fn(int, int) -> bool, f: spec_fn(int, int, u32) -> u32) -> ScreenView {
        ScreenView {
            pixels: Seq::new(
                self.pixels.len(),
                |i: int|
                    if self.on_screen(i) && hit(self.col(i), self.row(i)) {
                        f(self.col(i), self.row(i), self.pixels[i])
                    } else {
                        self.pixels[i]
                    },
            ),
            ..self
        }
    }

    /// A rectangle in one color.
    pub open spec fn rect(self, x: int, y: int, w: int, h: int, c: u32) -> ScreenView {
        self.paint(|a: int, b: int| x <= a < x + w && y <= b < y + h, |a: int, b: int, o: u32| c)
    }

    /// A rectangle blended over the screen.
    pub open spec fn rect_blend(self, x: int, y: int, w: int, h: int, c: u32) -> ScreenView {
        self.paint(|a: int, b: int| x <= a < x + w && y <= b < y + h, |a: int, b: int, o: u32| blend_px(c, o))
    }

    /// A vertical gradient over a rectangle.
    pub open spec fn vgrad(self, x: int, y: int, w: int, h: int, top: u32, bot: u32) -> ScreenView {
        self.paint(|a: int, b: int| x <= a < x + w && y <= b < y + h, |a: int, b: int, o: u32| grad_px(top, bot, y, h, b))
    }

    /// A disk in one color.
    pub open spec fn disk(self, cx: int, cy: int, r: int, c: u32) -> ScreenView {
        self.paint(|a: int, b: int| in_disk(cx, cy, r, a, b), |a: int, b: int, o: u32| c)
    }

    /// A rounded rectangle: two crossing rectangles and four corner disks.
    pub open spec fn rounded(self, x: int, y: int, w: int, h: int, r: int, c: u32) -> ScreenView {
        self.rect(x + r, y, w - 2 * r, h, c).rect(x, y + r, w, h - 2 * r, c).disk(x + r, y + r, r, c).disk(
            x + w - 1 - r,
            y + r,
            r,
            c,
        ).disk(x + r, y + h - 1 - r, r, c).disk(x + w - 1 - r, y + h - 1 - r, r, c)
    }

    /// The drop shadow right of and below a `w` x `h` box at `(x, y)`.
    pub open spec fn shadow(self, x: int, y: int, w: int, h: int, off: int) -> ScreenView {
        self.rect_blend(x + w, y + off, off, h - off, 0x8000_0000).rect_blend(x + off, y + h, w - off, off, 0x8000_0000).rect_blend(
            x + w,
            y + h,
            off,
            off,
            0x6000_0000,
        )
    }

    /// The set bits of the glyph of character code `code` at `(x, y)`.
    pub open spec fn glyph(self, glyphs: Seq<[u8; 16]>, x: int, y: int, code: int, c: u32) -> ScreenView {
        self.paint(
            |a: int, b: int| x <= a < x + 8 && y <= b < y + 16 && bit_on(glyphs[glyph_slot(code)][b - y], a - x),
            |a: int, b: int, o: u32| c,
        )
    }

    /// The characters `s[k..]` from column `x`, one 8-pixel cell each;
    /// newlines are skipped.
    pub open spec fn text(self, glyphs: Seq<[u8; 16]>, x: int, y: int, s: Seq<char>, k: int, c: u32) -> ScreenView
        decreases s.len() - k,
    {
        if k < 0 || k >= s.len() {
            self
        } else if s[k] == '\n' {
            self.text(glyphs, x, y, s, k + 1, c)
        } else {
            self.glyph(glyphs, x, y, s[k] as int, c).text(glyphs, x + 8, y, s, k + 1, c)
        }
    }
}

/// Painting depends only on which visible pixels are hit and their values.
proof fn lemma_paint_ext(
    v: ScreenView,
    h1: spec_fn(int, int) -> bool,
    h2: spec_fn(int, int) -> bool,
    f1: spec_fn(int, int, u32) -> u32,
    f2: spec_fn(int, int, u32) -> u32,
)
    requires
        v.wf(),
        forall|x: int, y: int| 0 <= x < v.width && 0 <= y < v.height ==> #[trigger] h1(x, y) == #[trigger] h2(x, y),
        forall|x: int, y: int, o: u32|
            0 <= x < v.width && 0 <= y < v.height && #[trigger] h1(x, y) ==> #[trigger] f1(x, y, o) == f2(x, y, o),
    ensures
        v.paint(h1, f1) == v.paint(h2, f2),
{
    let p1 = v.paint(h1, f1);
    let p2 = v.paint(h2, f2);
    assert forall|i: int| 0 <= i < v.pixels.len() implies p1.pixels[i] == p2.pixels[i] by {
        if v.on_screen(i) {
            assert(0 <= v.col(i));
            assert(0 <= v.row(i)) by {
                vstd::arithmetic::div_mod::lemma_div_pos_is_pos(i, v.stride);
            }
            assert(h1(v.col(i), v.row(i)) == h2(v.col(i), v.row(i)));
            if h1(v.col(i), v.row(i)) {
                assert(f1(v.col(i), v.row(i), v.pixels[i]) == f2(v.col(i), v.row(i), v.pixels[i]));
            }
        }
    }
    assert(p1.pixels =~= p2.pixels);
}

/// Painting one more visible pixel `(x, y)` on top of a painted screen.
proof fn lemma_paint_step(
    v: ScreenView,
    hit: spec_fn(int, int) -> bool,
    f: spec_fn(int, int, u32) -> u32,
    x: int,
    y: int,
)
    requires
        v.wf(),
        0 <= x < v.width,
        0 <= y < v.height,
        !hit(x, y),
    ensures
        ({
            let p = v.paint(hit, f);
            let idx = y * v.stride + x;
            &&& 0 <= idx < v.pixels.len()
            &&& p.pixels[idx] == v.pixels[idx]
            &&& (ScreenView { pixels: p.pixels.update(idx, f(x, y, v.pixels[idx])), ..p }) == v.paint(
                |a: int, b: int| hit(a, b) || (a == x && b == y),
                f,
            )
        }),
{
    let p = v.paint(hit, f);
    let idx = y * v.stride + x;
    assert(0 <= idx < v.pixels.len()) by (nonlinear_arith)
        requires
            idx == y * v.stride + x,
            0 <= x < v.width,
            v.width <= v.stride,
            0 <= y < v.height,
            v.height * v.stride <= v.pixels.len();
    lemma_coords(idx, v.stride, x, y);
    let q = v.paint(|a: int, b: int| hit(a, b) || (a == x && b == y), f);
    assert forall|i: int| 0 <= i < v.pixels.len() && i != idx implies !(#[trigger] v.col(i) == x && v.row(i) == y) by {
        lemma_coords(i, v.stride, x, y);
    }
    assert(p.pixels.update(idx, f(x, y, v.pixels[idx])) =~= q.pixels);
}

/// What a painting loop draws at each pixel of its box.
enum Brush<'a> {
    /// One color.
    Solid { color: u32 },
    /// One color blended over the screen.
    Blend { color: u32 },
    /// A vertical gradient from `top` at row `y` to `bot` at row `y + h - 1`.
    Gradient { y: usize, h: usize, top: u32, bot: u32 },
    /// A disk.
    Disk { cx: usize, cy: usize, r: usize, color: u32 },
    /// The set bits of a glyph cell at `(x, y)`.
    Glyph { x: usize, y: usize, code: u32, glyphs: &'a [[u8; 16]], color: u32 },
    /// Saved cursor pixels put back over the 16x16 box at `(x, y)`.
    Saved { x: usize, y: usize, pixels: &'a [u32; 256] },
    /// The cursor arrow over the 16x16 box at `(x, y)` of a screen `width` wide.
    Arrow { x: usize, y: usize, width: usize },
}

impl<'a> Brush<'a> {
    spec fn ok_at(self, x: int, y: int) -> bool {
        match self {
            Brush::Gradient { y: gy, h, .. } => gy <= y < gy + h && h <= 0x100_0000,
            Brush::Disk { cx, cy, r, .. } => cx + r <= 0x7FFF_FFFF && cy + r <= 0x7FFF_FFFF && r <= 46340 && x <= 0x7FFF_FFFF
                && y <= 0x7FFF_FFFF,
            Brush::Glyph { x: gx, y: gy, glyphs, .. } => gx <= x < gx + 8 && gy <= y < gy + 16 && glyphs@.len() >= GLYPH_COUNT,
            Brush::Saved { x: sx, y: sy, .. } => sx <= x < sx + 16 && sy <= y < sy + 16,
            Brush::Arrow { x: ax, y: ay, width } => ax <= x < ax + 16 && ay <= y < ay + 16 && x < width,
            _ => true,
        }
    }

    spec fn hits(self, x: int, y: int) -> bool {
        match self {
            Brush::Disk { cx, cy, r, .. } => in_disk(cx as int, cy as int, r as int, x, y),
            Brush::Glyph { x: gx, y: gy, code, glyphs, .. } => bit_on(glyphs@[glyph_slot(code as int)][y - gy], x - gx),
            Brush::Arrow { x: ax, y: ay, width } => arrow_hit(ax as int, width as int, x - ax, y - ay),
            _ => true,
        }
    }

    spec fn value(self, x: int, y: int, o: u32) -> u32 {
        match self {
            Brush::Solid { color } => color,
            Brush::Blend { color } => blend_px(color, o),
            Brush::Gradient { y: gy, h, top, bot } => grad_px(top, bot, gy as int, h as int, y),
            Brush::Disk { color, .. } => color,
            Brush::Glyph { color, .. } => color,
            Brush::Saved { x: sx, y: sy, pixels } => pixels@[(y - sy) * 16 + (x - sx)],
            Brush::Arrow { x: ax, y: ay, .. } => if spec_pixel_set(x - ax, y - ay) {
                COL_CURSOR_FG
            } else {
                COL_CURSOR_BG
            },
        }
    }

    fn hits_exec(&self, x: usize, y: usize) -> (r: bool)
        requires
            self.ok_at(x as int, y as int),
        ensures
            r == self.hits(x as int, y as int),
    {
        match self {
            Brush::Disk { cx, cy, r, .. } => {
                let dx = x as i64 - *cx as i64;
                let dy = y as i64 - *cy as i64;
                assert(0 <= dx * dx <= 0x7FFF_FFFF * 0x7FFF_FFFFi64) by (nonlinear_arith)
                    requires -0x7FFF_FFFF <= dx <= 0x7FFF_FFFF;
                assert(0 <= dy * dy <= 0x7FFF_FFFF * 0x7FFF_FFFFi64) by (nonlinear_arith)
                    requires -0x7FFF_FFFF <= dy <= 0x7FFF_FFFF;
                let rr = *r as i64;
                assert(rr * rr <= 46340 * 46340) by (nonlinear_arith)
                    requires 0 <= rr <= 46340;
                dx * dx + dy * dy <= rr * rr
            },
            Brush::Glyph { x: gx, y: gy, code, glyphs, .. } => {
                let bits = glyph_row(glyphs, *code, y - *gy);
                bits & (0x80u8 >> ((x - *gx) as u8)) != 0
            },
            Brush::Arrow { x: ax, y: ay, width } => {
                let i = (x - *ax) as u16;
                let j = (y - *ay) as u16;
                pixel_set(i, j) || (i > 0 && pixel_set(i - 1, j)) || (i < 15 && pixel_set(i + 1, j) && x + 1 < *width)
            },
            _ => true,
        }
    }

    fn value_exec(&self, x: usize, y: usize, o: u32) -> (v: u32)
        requires
            self.ok_at(x as int, y as int),
        ensures
            v == self.value(x as int, y as int, o),
    {
        match self {
            Brush::Solid { color } => *color,
            Brush::Blend { color } => blend_value(*color, o),
            Brush::Gradient { y: gy, h, top, bot } => gradient_value(*top, *bot, *gy, *h, y),
            Brush::Disk { color, .. } => *color,
            Brush::Glyph { color, .. } => *color,
            Brush::Saved { x: sx, y: sy, pixels } => pixels[(y - *sy) * 16 + (x - *sx)],
            Brush::Arrow { x: ax, y: ay, .. } => if pixel_set((x - *ax) as u16, (y - *ay) as u16) {
                COL_CURSOR_FG
            } else {
                COL_CURSOR_BG
            },
        }
    }
}

/// Channel `shift` of a pixel.
fn chan_exec(v: u32, shift: u32) -> (c: u32)
    requires
        shift == 0 || shift == 8 || shift == 16 || shift == 24,
    ensures
        c == chan(v, shift),
        c <= 255,
{
    let c = (v >> shift) & 0xFF;
    assert(c <= 255) by (bit_vector)
        requires c == (v >> shift) & 0xFF;
    c
}

/// `blend_px`.
fn blend_value(c: u32, v: u32) -> (r: u32)
    ensures
        r == blend_px(c, v),
{
    let a = chan_exec(c, 24);
    if a == 0 {
        return v;
    }
    if a == 255 {
        return c;
    }
    let inv = 255 - a;
    let fr = chan_exec(c, 16);
    let fg = chan_exec(c, 8);
    let fb = chan_exec(c, 0);
    let br = chan_exec(v, 16);
    let bg = chan_exec(v, 8);
    let bb = chan_exec(v, 0);
    assert(fr * a + br * inv <= 255 * 255) by (nonlinear_arith)
        requires fr <= 255, br <= 255, a + inv == 255;
    assert(fg * a + bg * inv <= 255 * 255) by (nonlinear_arith)
        requires fg <= 255, bg <= 255, a + inv == 255;
    assert(fb * a + bb * inv <= 255 * 255) by (nonlinear_arith)
        requires fb <= 255, bb <= 255, a + inv == 255;
    let r = (fr * a + br * inv) / 255;
    let g = (fg * a + bg * inv) / 255;
    let b = (fb * a + bb * inv) / 255;
    0xFF00_0000u32 | (r << 16) | (g << 8) | b
}

/// A gradient channel.
fn grad_chan_exec(a: u32, b: u32, t: u32) -> (c: u32)
    requires
        a <= 255,
        b <= 255,
        t <= 255,
    ensures
        c == grad_chan(a as int, b as int, t as int),
        c <= 255,
{
    if b >= a {
        assert((b - a) * t <= 255 * 255) by (nonlinear_arith)
            requires b - a <= 255, t <= 255;
        assert((b - a) * t / 255 <= b - a) by (nonlinear_arith)
            requires t <= 255, b >= a;
        a + (b - a) * t / 255
    } else {
        assert((a - b) * t <= 255 * 255) by (nonlinear_arith)
            requires a - b <= 255, t <= 255;
        assert((a - b) * t / 255 <= a - b) by (nonlinear_arith)
            requires t <= 255, a > b;
        a - (a - b) * t / 255
    }
}

/// `grad_px`.
fn gradient_value(top: u32, bot: u32, y: usize, h: usize, row: usize) -> (v: u32)
    requires
        y <= row < y + h,
        h <= 0x100_0000,
    ensures
        v == grad_px(top, bot, y as int, h as int, row as int),
{
    let t: u32 = if h > 1 {
        let d = (row - y) as u32;
        let hm = (h as u32) - 1;
        assert(d * 255 <= 0x100_0000 * 255) by (nonlinear_arith)
            requires d <= 0x100_0000;
        let ghost hmi = hm as int;
        assert((d * 255) / hmi <= 255) by (nonlinear_arith)
            requires d <= hmi, hmi >= 1;
        d * 255 / hm
    } else {
        0
    };
    let r = grad_chan_exec(chan_exec(top, 16), chan_exec(bot, 16), t);
    let g = grad_chan_exec(chan_exec(top, 8), chan_exec(bot, 8), t);
    let b = grad_chan_exec(chan_exec(top, 0), chan_exec(bot, 0), t);
    0xFF00_0000u32 | (r << 16) | (g << 8) | b
}

impl Screen {
    pub fn new(pixels: Vec<u32>, width: usize, height: usize, stride: usize) -> (s: Screen)
        ensures
            s@ == (ScreenView { pixels: pixels@, width: width as int, height: height as int, stride: stride as int }),
    {
        Screen { pixels, width, height, stride }
    }

    /// Set pixel `(x, y)`; pixels off the screen are ignored.
    pub fn set_pixel(&mut self, x: usize, y: usize, color: u32)
        requires
            old(self)@.wf(),
        ensures
            final(self)@ == old(self)@.paint(|a: int, b: int| a == x && b == y, |a: int, b: int, o: u32| color),
    {
        let ghost v = self@;
        let ghost f = |a: int, b: int, o: u32| color;
        if x >= self.width || y >= self.height {
            proof {
                lemma_paint_ext(v, |a: int, b: int| a == x && b == y, |a: int, b: int| false, f, f);
                assert(v.paint(|a: int, b: int| false, f).pixels =~= v.pixels);
            }
            return;
        }
        proof {
            lemma_paint_step(v, |a: int, b: int| false, f, x as int, y as int);
            lemma_paint_ext(v, |a: int, b: int| false, |a: int, b: int| false, f, f);
            assert(v.paint(|a: int, b: int| false, f).pixels =~= v.pixels);
            lemma_paint_ext(
                v,
                |a: int, b: int| (|a: int, b: int| false)(a, b) || (a == x && b == y),
                |a: int, b: int| a == x && b == y,
                f,
                f,
            );
            assert(y * self.stride + x < self.pixels@.len()) by (nonlinear_arith)
                requires
                    x < self.width,
                    self.width <= self.stride,
                    y < self.height,
                    self.height * self.stride <= self.pixels@.len();
        }
        let n = self.pixels.len();
        let idx = y * self.stride + x;
        self.pixels.set(idx, color);
    }

    /// The pixel at `(x, y)`, as opaque; 0 off the screen.
    pub fn get_pixel(&self, x: usize, y: usize) -> (v: u32)
        requires
            self@.wf(),
        ensures
            v == if x < self.width && y < self.height { self@.at(x as int, y as int) | 0xFF00_0000 } else { 0 },
    {
        if x >= self.width || y >= self.height {
            return 0;
        }
        assert(y * self.stride + x < self.pixels@.len()) by (nonlinear_arith)
            requires
                x < self.width,
                self.width <= self.stride,
                y < self.height,
                self.height * self.stride <= self.pixels@.len();
        let n = self.pixels.len();
        self.pixels[y * self.stride + x] | 0xFF00_0000
    }

    /// Paint every pixel of `[x0, x1) x [y0, y1)` the brush hits, row by row.
    fn paint_box(&mut self, x0: usize, x1: usize, y0: usize, y1: usize, brush: &Brush)
        requires
            old(self)@.wf(),
            x1 <= old(self).width,
            y1 <= old(self).height,
            forall|x: int, y: int| x0 <= x < x1 && y0 <= y < y1 ==> #[trigger] brush.ok_at(x, y),
        ensures
            final(self)@ == old(self)@.paint(
                |x: int, y: int| x0 <= x < x1 && y0 <= y < y1 && brush.hits(x, y),
                |x: int, y: int, o: u32| brush.value(x, y, o),
            ),
    {
        let ghost v = self@;
        let ghost f = |x: int, y: int, o: u32| brush.value(x, y, o);
        let mut y = y0;
        proof {
            lemma_paint_ext(v, |x: int, yy: int| false, |x: int, yy: int| x0 <= x < x1 && y0 <= yy < y && brush.hits(x, yy), f, f);
            assert(v.paint(|x: int, yy: int| false, f).pixels =~= v.pixels);
        }
        while y < y1
            invariant
                v.wf(),
                x1 <= v.width,
                y1 <= v.height,
                self.width == v.width,
                self.height == v.height,
                self.stride == v.stride,
                forall|x: int, y: int| x0 <= x < x1 && y0 <= y < y1 ==> #[trigger] brush.ok_at(x, y),
                f == (|x: int, y: int, o: u32| brush.value(x, y, o)),
                y0 <= y,
                y0 <= y1 ==> y <= y1,
                y1 < y0 ==> y == y0,
                self@ == v.paint(|x: int, yy: int| x0 <= x < x1 && y0 <= yy < y && brush.hits(x, yy), f),
            decreases y1 - y,
        {
            let mut x = x0;
            proof {
                lemma_paint_ext(
                    v,
                    |x: int, yy: int| x0 <= x < x1 && y0 <= yy < y && brush.hits(x, yy),
                    |a: int, b: int| (x0 <= a < x1 && y0 <= b < y && brush.hits(a, b)) || (b == y && x0 <= a < x && brush.hits(a, b)),
                    f,
                    f,
                );
            }
            while x < x1
                invariant
                    v.wf(),
                    x1 <= v.width,
                    y < y1,
                    y1 <= v.height,
                    self.width == v.width,
                    self.height == v.height,
                    self.stride == v.stride,
                    forall|x: int, y: int| x0 <= x < x1 && y0 <= y < y1 ==> #[trigger] brush.ok_at(x, y),
                    f == (|x: int, y: int, o: u32| brush.value(x, y, o)),
                    x0 <= x,
                    x0 <= x1 ==> x <= x1,
                    x1 < x0 ==> x == x0,
                    y0 <= y,
                    self@ == v.paint(
                        |a: int, b: int| (x0 <= a < x1 && y0 <= b < y && brush.hits(a, b)) || (b == y && x0 <= a < x && brush.hits(a, b)),
                        f,
                    ),
                decreases x1 - x,
            {
                let ghost h = |a: int, b: int| (x0 <= a < x1 && y0 <= b < y && brush.hits(a, b)) || (b == y && x0 <= a < x && brush.hits(a, b));
                let ghost h2 = |a: int, b: int| (x0 <= a < x1 && y0 <= b < y && brush.hits(a, b)) || (b == y && x0 <= a < x + 1 && brush.hits(a, b));
                assert(brush.ok_at(x as int, y as int));
                if brush.hits_exec(x, y) {
                    proof {
                        lemma_paint_step(v, h, f, x as int, y as int);
                        lemma_paint_ext(v, |a: int, b: int| h(a, b) || (a == x && b == y), h2, f, f);
                    }
                    assert(y * self.stride + x < self.pixels@.len()) by (nonlinear_arith)
                        requires
                            x < self.width,
                            self.width <= self.stride,
                            y < self.height,
                            self.height * self.stride <= self.pixels@.len();
                    let n = self.pixels.len();
                    let idx = y * self.stride + x;
                    let old_v = self.pixels[idx];
                    let nv = brush.value_exec(x, y, old_v);
                    self.pixels.set(idx, nv);
                } else {
                    proof {
                        lemma_paint_ext(v, h, h2, f, f);
                    }
                }
                x = x + 1;
            }
            proof {
                lemma_paint_ext(
                    v,
                    |a: int, b: int| (x0 <= a < x1 && y0 <= b < y && brush.hits(a, b)) || (b == y && x0 <= a < x && brush.hits(a, b)),
                    |a: int, b: int| x0 <= a < x1 && y0 <= b < y + 1 && brush.hits(a, b),
                    f,
                    f,
                );
            }
            y = y + 1;
        }
        proof {
            lemma_paint_ext(
                v,
                |x: int, yy: int| x0 <= x < x1 && y0 <= yy < y && brush.hits(x, yy),
                |x: int, y: int| x0 <= x < x1 && y0 <= y < y1 && brush.hits(x, y),
                f,
                f,
            );
        }
    }
}

/// A point of the disk is at most `r` away on each axis.
proof fn lemma_disk_box(cx: int, cy: int, r: int, x: int, y: int)
    requires
        r >= 0,
        in_disk(cx, cy, r, x, y),
    ensures
        cx - r <= x <= cx + r,
        cy - r <= y <= cy + r,
{
    assert((y - cy) * (y - cy) >= 0) by (nonlinear_arith);
    assert((x - cx) * (x - cx) >= 0) by (nonlinear_arith);
    assert(cx - r <= x <= cx + r) by (nonlinear_arith)
        requires (x - cx) * (x - cx) <= r * r, r >= 0;
    assert(cy - r <= y <= cy + r) by (nonlinear_arith)
        requires (y - cy) * (y - cy) <= r * r, r >= 0;
}

impl Screen {
    /// Fill a rectangle (clipped to the screen).
    pub fn fill_rect(&mut self, x: usize, y: usize, w: usize, h: usize, color: u32)
        requires
            old(self)@.wf(),
            x + w <= usize::MAX,
            y + h <= usize::MAX,
        ensures
            final(self)@ == old(self)@.rect(x as int, y as int, w as int, h as int, color),
    {
        let max_y = if y + h <= self.height { y + h } else { self.height };
        let max_x = if x + w <= self.width { x + w } else { self.width };
        let ghost v = self@;
        let brush = Brush::Solid { color };
        self.paint_box(x, max_x, y, max_y, &brush);
        proof {
            lemma_paint_ext(
                v,
                |a: int, b: int| x <= a < max_x && y <= b < max_y && brush.hits(a, b),
                |a: int, b: int| x <= a < x + w && y <= b < y + h,
                |a: int, b: int, o: u32| brush.value(a, b, o),
                |a: int, b: int, o: u32| color,
            );
        }
    }

    /// Blend `color` (by its alpha) over a rectangle.
    pub fn fill_rect_blend(&mut self, x: usize, y: usize, w: usize, h: usize, color: u32)
        requires
            old(self)@.wf(),
            x + w <= usize::MAX,
            y + h <= usize::MAX,
        ensures
            final(self)@ == old(self)@.rect_blend(x as int, y as int, w as int, h as int, color),
    {
        let max_y = if y + h <= self.height { y + h } else { self.height };
        let max_x = if x + w <= self.width { x + w } else { self.width };
        let ghost v = self@;
        let brush = Brush::Blend { color };
        self.paint_box(x, max_x, y, max_y, &brush);
        proof {
            lemma_paint_ext(
                v,
                |a: int, b: int| x <= a < max_x && y <= b < max_y && brush.hits(a, b),
                |a: int, b: int| x <= a < x + w && y <= b < y + h,
                |a: int, b: int, o: u32| brush.value(a, b, o),
                |a: int, b: int, o: u32| blend_px(color, o),
            );
        }
    }

    /// Blend `color` over pixel `(x, y)`.
    pub fn blend_pixel(&mut self, x: usize, y: usize, color: u32)
        requires
            old(self)@.wf(),
            x < usize::MAX,
            y < usize::MAX,
        ensures
            final(self)@ == old(self)@.rect_blend(x as int, y as int, 1, 1, color),
    {
        self.fill_rect_blend(x, y, 1, 1, color);
    }

    /// Fill a rectangle with a vertical gradient from `top` to `bot`.
    pub fn fill_v_gradient(&mut self, x: usize, y: usize, w: usize, h: usize, top: u32, bot: u32)
        requires
            old(self)@.wf(),
            x + w <= usize::MAX,
            y + h <= usize::MAX,
            h <= 0x100_0000,
        ensures
            final(self)@ == old(self)@.vgrad(x as int, y as int, w as int, h as int, top, bot),
    {
        let max_y = if y + h <= self.height { y + h } else { self.height };
        let max_x = if x + w <= self.width { x + w } else { self.width };
        let ghost v = self@;
        let brush = Brush::Gradient { y, h, top, bot };
        self.paint_box(x, max_x, y, max_y, &brush);
        proof {
            lemma_paint_ext(
                v,
                |a: int, b: int| x <= a < max_x && y <= b < max_y && brush.hits(a, b),
                |a: int, b: int| x <= a < x + w && y <= b < y + h,
                |a: int, b: int, o: u32| brush.value(a, b, o),
                |a: int, b: int, o: u32| grad_px(top, bot, y as int, h as int, b),
            );
        }
    }

    /// Fill a disk.
    pub fn fill_circle(&mut self, cx: usize, cy: usize, r: usize, color: u32)
        requires
            old(self)@.wf(),
            cx + r <= 0x7FFF_FFFF,
            cy + r <= 0x7FFF_FFFF,
            r <= 46340,
        ensures
            final(self)@ == old(self)@.disk(cx as int, cy as int, r as int, color),
    {
        let x0 = if cx > r { cx - r } else { 0 };
        let y0 = if cy > r { cy - r } else { 0 };
        let x1 = if cx + r + 1 <= self.width { cx + r + 1 } else { self.width };
        let y1 = if cy + r + 1 <= self.height { cy + r + 1 } else { self.height };
        let ghost v = self@;
        let brush = Brush::Disk { cx, cy, r, color };
        self.paint_box(x0, x1, y0, y1, &brush);
        proof {
            assert forall|a: int, b: int| 0 <= a < v.width && 0 <= b < v.height implies #[trigger] in_disk(
                cx as int,
                cy as int,
                r as int,
                a,
                b,
            ) == (x0 <= a < x1 && y0 <= b < y1 && brush.hits(a, b)) by {
                if in_disk(cx as int, cy as int, r as int, a, b) {
                    lemma_disk_box(cx as int, cy as int, r as int, a, b);
                }
            }
            lemma_paint_ext(
                v,
                |a: int, b: int| x0 <= a < x1 && y0 <= b < y1 && brush.hits(a, b),
                |a: int, b: int| in_disk(cx as int, cy as int, r as int, a, b),
                |a: int, b: int, o: u32| brush.value(a, b, o),
                |a: int, b: int, o: u32| color,
            );
        }
    }

    /// Fill a rounded rectangle with corner radius `r`.
    pub fn fill_rounded_rect(&mut self, x: usize, y: usize, w: usize, h: usize, r: usize, color: u32)
        requires
            old(self)@.wf(),
            2 * r <= w,
            2 * r <= h,
            r + 1 <= x + w,
            r + 1 <= y + h,
            x + w <= 0x7FFF_FFFF,
            y + h <= 0x7FFF_FFFF,
            r <= 46340,
        ensures
            final(self)@ == old(self)@.rounded(x as int, y as int, w as int, h as int, r as int, color),
    {
        self.fill_rect(x + r, y, w - 2 * r, h, color);
        self.fill_rect(x, y + r, w, h - 2 * r, color);
        self.fill_circle(x + r, y + r, r, color);
        self.fill_circle(x + w - 1 - r, y + r, r, color);
        self.fill_circle(x + r, y + h - 1 - r, r, color);
        self.fill_circle(x + w - 1 - r, y + h - 1 - r, r, color);
    }

    /// A horizontal line `w` pixels long.
    pub fn draw_hline(&mut self, x: usize, y: usize, w: usize, color: u32)
        requires
            old(self)@.wf(),
            x + w <= usize::MAX,
            y + 1 <= usize::MAX,
        ensures
            final(self)@ == old(self)@.rect(x as int, y as int, w as int, 1, color),
    {
        self.fill_rect(x, y, w, 1, color);
    }

    /// A drop shadow `off` pixels right of and below a box.
    pub fn draw_shadow(&mut self, x: usize, y: usize, w: usize, h: usize, off: usize)
        requires
            old(self)@.wf(),
            off <= w,
            off <= h,
            x + w + off <= usize::MAX,
            y + h + off <= usize::MAX,
        ensures
            final(self)@ == old(self)@.shadow(x as int, y as int, w as int, h as int, off as int),
    {
        self.fill_rect_blend(x + w, y + off, off, h - off, 0x8000_0000);
        self.fill_rect_blend(x + off, y + h, w - off, off, 0x8000_0000);
        self.fill_rect_blend(x + w, y + h, off, off, 0x6000_0000);
    }

    /// Draw the set bits of a character's glyph with its cell at `(x, y)`.
    pub fn draw_char(&mut self, x: usize, y: usize, ch: char, color: u32, glyphs: &[[u8; 16]])
        requires
            old(self)@.wf(),
            x + 8 <= usize::MAX,
            y + 16 <= usize::MAX,
            glyphs@.len() >= GLYPH_COUNT,
        ensures
            final(self)@ == old(self)@.glyph(glyphs@, x as int, y as int, ch as int, color),
    {
        let code = ch as u32;
        let max_y = if y + 16 <= self.height { y + 16 } else { self.height };
        let max_x = if x + 8 <= self.width { x + 8 } else { self.width };
        let ghost v = self@;
        let brush = Brush::Glyph { x, y, code, glyphs, color };
        self.paint_box(x, max_x, y, max_y, &brush);
        proof {
            lemma_paint_ext(
                v,
                |a: int, b: int| x <= a < max_x && y <= b < max_y && brush.hits(a, b),
                |a: int, b: int| x <= a < x + 8 && y <= b < y + 16 && bit_on(glyphs@[glyph_slot(ch as int)][b - y], a - x),
                |a: int, b: int, o: u32| brush.value(a, b, o),
                |a: int, b: int, o: u32| color,
            );
        }
    }

    /// Draw a string from `(x, y)`, one cell per character; newlines are skipped.
    pub fn draw_str(&mut self, x: usize, y: usize, s: &str, color: u32, glyphs: &[[u8; 16]])
        requires
            old(self)@.wf(),
            x + 8 * s@.len() + 8 <= usize::MAX,
            y + 16 <= usize::MAX,
            glyphs@.len() >= GLYPH_COUNT,
        ensures
            final(self)@ == old(self)@.text(glyphs@, x as int, y as int, s@, 0, color),
            final(self)@.wf(),
            final(self).width == old(self).width,
            final(self).height == old(self).height,
    {
        let ghost target = self@.text(glyphs@, x as int, y as int, s@, 0, color);
        let ghost w0 = self.width;
        let ghost h0 = self.height;
        let n = s.unicode_len();
        let mut cx = x;
        let mut k: usize = 0;
        while k < n
            invariant
                n == s@.len(),
                k <= n,
                cx == x + 8 * k - 8 * skipped(s@, k as int),
                0 <= skipped(s@, k as int) <= k,
                x + 8 * s@.len() + 8 <= usize::MAX,
                y + 16 <= usize::MAX,
                glyphs@.len() >= GLYPH_COUNT,
                self@.wf(),
                self.width == w0,
                self.height == h0,
                target == self@.text(glyphs@, cx as int, y as int, s@, k as int, color),
            decreases n - k,
        {
            let ch = s.get_char(k);
            if ch != '\n' {
                self.draw_char(cx, y, ch, color, glyphs);
                cx = cx + 8;
            }
            k = k + 1;
        }
    }

    /// Fill the whole screen.
    pub fn clear(&mut self, color: u32)
        requires
            old(self)@.wf(),
        ensures
            final(self)@ == old(self)@.rect(0, 0, old(self)@.width, old(self)@.height, color),
    {
        let w = self.width;
        let h = self.height;
        self.fill_rect(0, 0, w, h, color);
    }
}

/// Newlines among the first `k` characters.
pub open spec fn skipped(s: Seq<char>, k: int) -> int
    decreases k,
{
    if k <= 0 {
        0
    } else {
        skipped(s, k - 1) + if s[k - 1] == '\n' { 1int } else { 0int }
    }
}

pub const COL_BG_TOP: u32 = 0xFF00_1A3A;
pub const COL_BG_BOT: u32 = 0xFF00_0A1A;
pub const COL_MENU_TOP: u32 = 0xFF1A_1A2E;
pub const COL_MENU_BOT: u32 = 0xFF12_121E;
pub const COL_MENU_BORDER: u32 = 0xFF33_3344;
pub const COL_MENU_TEXT: u32 = 0xFFD0_D0D0;
pub const COL_DOCK_BG: u32 = 0x802A_2A3A;
pub const COL_DOCK_BORDER: u32 = 0x8044_4455;
pub const COL_WIN_BG: u32 = 0xFF1E_1E2E;
pub const COL_WIN_TITLE: u32 = 0xFF2A_2A3A;
pub const COL_WIN_STATUS: u32 = 0xFF22_2233;
pub const COL_WHITE: u32 = 0xFFFF_FFFF;
pub const COL_TEXT_DIM: u32 = 0xFFAA_AAAA;
pub const COL_TEXT_DARK: u32 = 0xFF88_8888;
pub const COL_ICON_SHADOW: u32 = 0x4000_0000;
pub const COL_ICON_SHINE: u32 = 0x20FF_FFFF;
pub const COL_ICONS: [u32; 5] = [0xFF00_7AFF, 0xFF34_C759, 0xFFFF_9500, 0xFFFF_3B30, 0xFF58_56D6];
pub const COL_CLOSE: u32 = 0xFFFF_5F57;
pub const COL_MINIMIZE: u32 = 0xFFFE_BC2E;
pub const COL_MAXIMIZE: u32 = 0xFF28_C840;
pub const COL_HOVER: u32 = 0x20FF_FFFF;
pub const COL_HOVER_LIGHT: u32 = 0x15FF_FFFF;
pub const COL_CURSOR_FG: u32 = 0xFFFF_FFFF;
pub const COL_CURSOR_BG: u32 = 0xFF00_0000;

/// The pixels under the cursor, saved when it was drawn at `(x, y)`
/// (row by row, 16 per row).
pub struct CursorSave {
    pub x: u16,
    pub y: u16,
    pub pixels: [u32; 256],
}

impl CursorSave {
    pub fn new() -> (c: CursorSave)
        ensures
            c.x == 0 && c.y == 0,
            forall|i: int| 0 <= i < 256 ==> #[trigger] c.pixels@[i] == 0u32,
    {
        CursorSave { x: 0, y: 0, pixels: [0u32; 256] }
    }
}

/// The menu bar over the background gradient.
pub open spec fn menu_drawn(v: ScreenView, glyphs: Seq<[u8; 16]>) -> ScreenView {
    let w = v.width;
    v.vgrad(0, 0, w, v.height, COL_BG_TOP, COL_BG_BOT).vgrad(0, 0, w, MENU_BAR_H as int, COL_MENU_TOP, COL_MENU_BOT).rect(
        0,
        MENU_BAR_H as int,
        w,
        1,
        COL_MENU_BORDER,
    ).text(glyphs, 8, 6, "VibeOS"@, 0, COL_WHITE).text(glyphs, 80, 6, "Finder"@, 0, COL_WHITE).text(
        glyphs,
        150,
        6,
        "File"@,
        0,
        COL_MENU_TEXT,
    ).text(glyphs, 190, 6, "Edit"@, 0, COL_MENU_TEXT).text(glyphs, 230, 6, "View"@, 0, COL_MENU_TEXT).text(
        glyphs,
        275,
        6,
        "Go"@,
        0,
        COL_MENU_TEXT,
    ).text(glyphs, 300, 6, "Window"@, 0, COL_MENU_TEXT).text(glyphs, 360, 6, "Help"@, 0, COL_MENU_TEXT).text(
        glyphs,
        w - 80,
        6,
        "04:20"@,
        0,
        COL_MENU_TEXT,
    )
}

/// Dock icon `i`: hover plate, shadow, icon, shine, hover light.
pub open spec fn icon_drawn(v: ScreenView, ws: WsView, i: int) -> ScreenView {
    let ix = ws.dock_icon_x(i);
    let iy = ws.dock_y() + 8;
    let hovered = ws.hovered_dock == Some(i as usize);
    let v1 = if hovered { v.rounded(ix - 4, iy - 6, ICON_SIZE + 8, ICON_SIZE + 12, 10, COL_HOVER) } else { v };
    let v2 = v1.rounded(ix + 2, iy + 4, ICON_SIZE as int, ICON_SIZE as int, 8, COL_ICON_SHADOW).rounded(
        ix,
        iy,
        ICON_SIZE as int,
        ICON_SIZE as int,
        8,
        COL_ICONS@[i],
    ).rounded(ix, iy, ICON_SIZE as int, (ICON_SIZE / 2) as int, 8, COL_ICON_SHINE);
    if hovered { v2.rounded(ix, iy, ICON_SIZE as int, ICON_SIZE as int, 8, COL_HOVER_LIGHT) } else { v2 }
}

/// The first `k` dock icons.
pub open spec fn icons_drawn(v: ScreenView, ws: WsView, k: int) -> ScreenView
    decreases k,
{
    if k <= 0 {
        v
    } else {
        icon_drawn(icons_drawn(v, ws, k - 1), ws, k - 1)
    }
}

/// The desktop: background, menu bar, dock and its icons.
pub open spec fn desktop_drawn(v: ScreenView, ws: WsView, glyphs: Seq<[u8; 16]>) -> ScreenView {
    let dx = ws.dock_x();
    let dy = ws.dock_y();
    icons_drawn(
        menu_drawn(v, glyphs).rounded(dx, dy, DOCK_W as int, DOCK_H as int, 16, COL_DOCK_BG).rect(
            dx + 2,
            dy + 2,
            DOCK_W - 4,
            1,
            COL_DOCK_BORDER,
        ),
        ws,
        NUM_DOCK_ICONS as int,
    )
}

/// A window's title bytes as characters.
pub open spec fn title_chars(w: WinView) -> Seq<char> {
    Seq::new(w.title_len as nat, |i: int| w.title[i] as char)
}

/// A window: shadow, background, title bar, traffic lights, title, body
/// text, separator and status bar; nothing when it is hidden.
pub open spec fn window_drawn(v: ScreenView, w: WinView, glyphs: Seq<[u8; 16]>) -> ScreenView {
    if !w.visible {
        v
    } else {
        let x = w.x as int;
        let y = w.y as int;
        let ww = w.w as int;
        let wh = w.h as int;
        v.shadow(x, y, ww, wh, 8).rounded(x, y, ww, wh, 10, COL_WIN_BG).rounded(x, y, ww, TITLE_BAR_H as int, 10, COL_WIN_TITLE).rect(
            x,
            y + TITLE_BAR_H - 10,
            ww,
            10,
            COL_WIN_TITLE,
        ).disk(x + 16, y + 18, 6, COL_CLOSE).disk(x + 32, y + 18, 6, COL_MINIMIZE).disk(x + 48, y + 18, 6, COL_MAXIMIZE).text(
            glyphs,
            x + 60,
            y + 10,
            title_chars(w),
            0,
            COL_WHITE,
        ).text(glyphs, x + 20, y + 60, "Vibe Coded OS v0.1.0"@, 0, COL_WHITE).text(
            glyphs,
            x + 20,
            y + 80,
            "WindowServer: User-space"@,
            0,
            COL_TEXT_DIM,
        ).rect(x + 20, y + 110, ww - 40, 1, COL_MENU_BORDER).rect(x, y + wh - 24, ww, 24, COL_WIN_STATUS).text(
            glyphs,
            x + 10,
            y + wh - 20,
            "UTF-8  LF  100%"@,
            0,
            COL_TEXT_DARK,
        )
    }
}

/// The first `k` windows, back to front.
pub open spec fn windows_drawn(v: ScreenView, wins: Seq<WinView>, glyphs: Seq<[u8; 16]>, k: int) -> ScreenView
    decreases k,
{
    if k <= 0 {
        v
    } else {
        window_drawn(windows_drawn(v, wins, glyphs, k - 1), wins[k - 1], glyphs)
    }
}

/// A window can be drawn: big enough for its chrome, title within its buffer.
pub open spec fn drawable(w: WinView) -> bool {
    w.visible ==> w.w >= 40 && w.h >= TITLE_BAR_H && w.title_len <= 32
}

/// The arrow's pixel `(i, j)`: white on its set bits, black beside them on
/// the same row (right of a set bit, or left of one that is on the screen),
/// untouched elsewhere.
pub open spec fn arrow_hit(x: int, width: int, i: int, j: int) -> bool {
    spec_pixel_set(i, j) || (i > 0 && spec_pixel_set(i - 1, j)) || (i < 15 && spec_pixel_set(i + 1, j) && x + i + 1
        < width)
}

/// The cursor drawn with its top-left corner at `(x, y)`.
pub open spec fn cursor_drawn(v: ScreenView, x: int, y: int) -> ScreenView {
    v.paint(
        |a: int, b: int| x <= a < x + 16 && y <= b < y + 16 && arrow_hit(x, v.width, a - x, b - y),
        |a: int, b: int, o: u32| if spec_pixel_set(a - x, b - y) { COL_CURSOR_FG } else { COL_CURSOR_BG },
    )
}

/// The pixels under a cursor at `(x, y)`, saved over `old`.
pub open spec fn cursor_saved(v: ScreenView, x: int, y: int, old: Seq<u32>) -> Seq<u32> {
    Seq::new(
        256,
        |k: int|
            if x + k % 16 < v.width && y + k / 16 < v.height {
                v.at(x + k % 16, y + k / 16) | 0xFF00_0000
            } else {
                old[k]
            },
    )
}

/// The saved pixels put back over a cursor at `(x, y)`.
pub open spec fn cursor_restored(v: ScreenView, x: int, y: int, saved: Seq<u32>) -> ScreenView {
    v.paint(|a: int, b: int| x <= a < x + 16 && y <= b < y + 16, |a: int, b: int, o: u32| saved[(b - y) * 16 + (a - x)])
}

impl Screen {
    /// Draw bytes as characters from `(x, y)`, one cell each; newlines are skipped.
    pub fn draw_text_bytes(&mut self, x: usize, y: usize, bytes: &[u8], color: u32, glyphs: &[[u8; 16]])
        requires
            old(self)@.wf(),
            x + 8 * bytes@.len() + 8 <= usize::MAX,
            y + 16 <= usize::MAX,
            glyphs@.len() >= GLYPH_COUNT,
        ensures
            final(self)@ == old(self)@.text(
                glyphs@,
                x as int,
                y as int,
                Seq::new(bytes@.len(), |i: int| bytes@[i] as char),
                0,
                color,
            ),
            final(self)@.wf(),
            final(self).width == old(self).width,
            final(self).height == old(self).height,
    {
        let ghost s = Seq::new(bytes@.len(), |i: int| bytes@[i] as char);
        let ghost w0 = self.width;
        let ghost h0 = self.height;
        let ghost target = self@.text(glyphs@, x as int, y as int, s, 0, color);
        let n = bytes.len();
        let mut cx = x;
        let mut k: usize = 0;
        while k < n
            invariant
                n == s.len(),
                s == Seq::new(bytes@.len(), |i: int| bytes@[i] as char),
                k <= n,
                cx == x + 8 * k - 8 * skipped(s, k as int),
                0 <= skipped(s, k as int) <= k,
                x + 8 * s.len() + 8 <= usize::MAX,
                y + 16 <= usize::MAX,
                glyphs@.len() >= GLYPH_COUNT,
                self@.wf(),
                self.width == w0,
                self.height == h0,
                target == self@.text(glyphs@, cx as int, y as int, s, k as int, color),
            decreases n - k,
        {
            let ch = bytes[k] as char;
            if ch != '\n' {
                self.draw_char(cx, y, ch, color, glyphs);
                cx = cx + 8;
            }
            k = k + 1;
        }
    }
}

impl WindowServer {
    /// Draw the desktop: background gradient, menu bar, dock and dock icons.
    #[verifier::spinoff_prover]
    pub fn draw_desktop(&self, screen: &mut Screen, glyphs: &[[u8; 16]])
        requires
            old(screen)@.wf(),
            old(screen).width == self.fb_width,
            old(screen).height == self.fb_height,
            self@.wf(),
            self.fb_width >= 80,
            glyphs@.len() >= GLYPH_COUNT,
        ensures
            final(screen)@ == desktop_drawn(old(screen)@, self@, glyphs@),
            final(screen)@.wf(),
            final(screen).width == old(screen).width,
            final(screen).height == old(screen).height,
    {
        proof {
            reveal_strlit("VibeOS");
            reveal_strlit("Finder");
            reveal_strlit("File");
            reveal_strlit("Edit");
            reveal_strlit("View");
            reveal_strlit("Go");
            reveal_strlit("Window");
            reveal_strlit("Help");
            reveal_strlit("04:20");
        }
        let w = screen.width;
        let h = screen.height;
        screen.fill_v_gradient(0, 0, w, h, COL_BG_TOP, COL_BG_BOT);
        screen.fill_v_gradient(0, 0, w, MENU_BAR_H as usize, COL_MENU_TOP, COL_MENU_BOT);
        screen.draw_hline(0, MENU_BAR_H as usize, w, COL_MENU_BORDER);
        screen.draw_str(8, 6, "VibeOS", COL_WHITE, glyphs);
        screen.draw_str(80, 6, "Finder", COL_WHITE, glyphs);
        screen.draw_str(150, 6, "File", COL_MENU_TEXT, glyphs);
        screen.draw_str(190, 6, "Edit", COL_MENU_TEXT, glyphs);
        screen.draw_str(230, 6, "View", COL_MENU_TEXT, glyphs);
        screen.draw_str(275, 6, "Go", COL_MENU_TEXT, glyphs);
        screen.draw_str(300, 6, "Window", COL_MENU_TEXT, glyphs);
        screen.draw_str(360, 6, "Help", COL_MENU_TEXT, glyphs);
        screen.draw_str(w - 80, 6, "04:20", COL_MENU_TEXT, glyphs);
        let dk_x = self.dock_x() as usize;
        let dk_y = self.dock_y() as usize;
        screen.fill_rounded_rect(dk_x, dk_y, DOCK_W as usize, DOCK_H as usize, 16, COL_DOCK_BG);
        screen.draw_hline(dk_x + 2, dk_y + 2, DOCK_W as usize - 4, COL_DOCK_BORDER);
        let ghost base = screen@;
        let mut i: usize = 0;
        while i < NUM_DOCK_ICONS
            invariant
                i <= NUM_DOCK_ICONS,
                self@.wf(),
                screen@.wf(),
                screen.width == self.fb_width,
                screen.height == self.fb_height,
                screen@ == icons_drawn(base, self@, i as int),
            decreases NUM_DOCK_ICONS - i,
        {
            let ix = self.dock_icon_x(i) as usize;
            let iy = self.dock_icon_y() as usize;
            let is_hovered = match self.hovered_dock {
                Some(h) => h == i,
                None => false,
            };
            if is_hovered {
                screen.fill_rounded_rect(ix - 4, iy - 6, ICON_SIZE as usize + 8, ICON_SIZE as usize + 12, 10, COL_HOVER);
            }
            screen.fill_rounded_rect(ix + 2, iy + 4, ICON_SIZE as usize, ICON_SIZE as usize, 8, COL_ICON_SHADOW);
            screen.fill_rounded_rect(ix, iy, ICON_SIZE as usize, ICON_SIZE as usize, 8, COL_ICONS[i]);
            screen.fill_rounded_rect(ix, iy, ICON_SIZE as usize, ICON_SIZE as usize / 2, 8, COL_ICON_SHINE);
            if is_hovered {
                screen.fill_rounded_rect(ix, iy, ICON_SIZE as usize, ICON_SIZE as usize, 8, COL_HOVER_LIGHT);
            }
            i = i + 1;
        }
    }

    /// Draw one window (nothing when it is hidden).
    #[verifier::spinoff_prover]
    pub fn draw_window(&self, screen: &mut Screen, win: &Window, glyphs: &[[u8; 16]])
        requires
            old(screen)@.wf(),
            drawable(win@),
            glyphs@.len() >= GLYPH_COUNT,
        ensures
            final(screen)@ == window_drawn(old(screen)@, win@, glyphs@),
            final(screen)@.wf(),
            final(screen).width == old(screen).width,
            final(screen).height == old(screen).height,
    {
        if !win.visible {
            return;
        }
        proof {
            reveal_strlit("Vibe Coded OS v0.1.0");
            reveal_strlit("WindowServer: User-space");
            reveal_strlit("UTF-8  LF  100%");
        }
        let wx = win.x as usize;
        let wy = win.y as usize;
        let ww = win.w as usize;
        let wh = win.h as usize;
        screen.draw_shadow(wx, wy, ww, wh, 8);
        screen.fill_rounded_rect(wx, wy, ww, wh, 10, COL_WIN_BG);
        screen.fill_rounded_rect(wx, wy, ww, TITLE_BAR_H as usize, 10, COL_WIN_TITLE);
        screen.fill_rect(wx, wy + TITLE_BAR_H as usize - 10, ww, 10, COL_WIN_TITLE);
        let light_y = wy + 12 + 6;
        screen.fill_circle(wx + 16, light_y, 6, COL_CLOSE);
        screen.fill_circle(wx + 32, light_y, 6, COL_MINIMIZE);
        screen.fill_circle(wx + 48, light_y, 6, COL_MAXIMIZE);
        let title = slice_prefix(&win.title, win.title_len);
        assert(Seq::new(title@.len(), |i: int| title@[i] as char) =~= title_chars(win@));
        screen.draw_text_bytes(wx + 60, wy + 10, title, COL_WHITE, glyphs);
        screen.draw_str(wx + 20, wy + 60, "Vibe Coded OS v0.1.0", COL_WHITE, glyphs);
        screen.draw_str(wx + 20, wy + 80, "WindowServer: User-space", COL_TEXT_DIM, glyphs);
        screen.draw_hline(wx + 20, wy + 110, ww - 40, COL_MENU_BORDER);
        screen.fill_rect(wx, wy + wh - 24, ww, 24, COL_WIN_STATUS);
        screen.draw_str(wx + 10, wy + wh - 20, "UTF-8  LF  100%", COL_TEXT_DARK, glyphs);
    }
}

impl WindowServer {
    /// Put back the pixels saved under the cursor, if it is shown.
    pub fn undraw_cursor(&mut self, screen: &mut Screen, save: &CursorSave)
        requires
            old(screen)@.wf(),
        ensures
            final(self)@ == (WsView { cursor_visible: false, ..old(self)@ }),
            final(screen)@ == if old(self).cursor_visible {
                cursor_restored(old(screen)@, save.x as int, save.y as int, save.pixels@)
            } else {
                old(screen)@
            },
    {
        if !self.cursor_visible {
            return;
        }
        let x = save.x as usize;
        let y = save.y as usize;
        let x1 = if x + 16 <= screen.width { x + 16 } else { screen.width };
        let y1 = if y + 16 <= screen.height { y + 16 } else { screen.height };
        let ghost v = screen@;
        let brush = Brush::Saved { x, y, pixels: &save.pixels };
        screen.paint_box(x, x1, y, y1, &brush);
        proof {
            lemma_paint_ext(
                v,
                |a: int, b: int| x <= a < x1 && y <= b < y1 && brush.hits(a, b),
                |a: int, b: int| x <= a < x + 16 && y <= b < y + 16,
                |a: int, b: int, o: u32| brush.value(a, b, o),
                |a: int, b: int, o: u32| save.pixels@[(b - y) * 16 + (a - x)],
            );
        }
        self.cursor_visible = false;
    }

    /// Save the pixels under the cursor, then draw the arrow over them.
    pub fn draw_cursor(&mut self, screen: &mut Screen, save: &mut CursorSave)
        requires
            old(screen)@.wf(),
        ensures
            final(self)@ == (WsView { cursor_visible: true, ..old(self)@ }),
            final(save).x == old(self).cursor_x,
            final(save).y == old(self).cursor_y,
            final(save).pixels@ == cursor_saved(
                old(screen)@,
                old(self).cursor_x as int,
                old(self).cursor_y as int,
                old(save).pixels@,
            ),
            final(screen)@ == cursor_drawn(old(screen)@, old(self).cursor_x as int, old(self).cursor_y as int),
    {
        let x = self.cursor_x as usize;
        let y = self.cursor_y as usize;
        let ghost old_px = save.pixels@;
        let mut k: usize = 0;
        while k < 256
            invariant
                k <= 256,
                screen@.wf(),
                x == self.cursor_x,
                y == self.cursor_y,
                save.pixels@.len() == 256,
                old_px.len() == 256,
                forall|j: int|
                    0 <= j < 256 ==> #[trigger] save.pixels@[j] == if j < k && x + j % 16 < screen@.width && y + j / 16
                        < screen@.height {
                        screen@.at(x + j % 16, y + j / 16) | 0xFF00_0000
                    } else {
                        old_px[j]
                    },
            decreases 256 - k,
        {
            let px = x + k % 16;
            let py = y + k / 16;
            if px < screen.width && py < screen.height {
                let v = screen.get_pixel(px, py);
                save.pixels[k] = v;
            }
            k = k + 1;
        }
        proof {
            assert(save.pixels@ =~= cursor_saved(screen@, x as int, y as int, old_px));
        }
        save.x = self.cursor_x;
        save.y = self.cursor_y;
        let x1 = if x + 16 <= screen.width { x + 16 } else { screen.width };
        let y1 = if y + 16 <= screen.height { y + 16 } else { screen.height };
        let ghost v = screen@;
        let brush = Brush::Arrow { x, y, width: screen.width };
        screen.paint_box(x, x1, y, y1, &brush);
        proof {
            lemma_paint_ext(
                v,
                |a: int, b: int| x <= a < x1 && y <= b < y1 && brush.hits(a, b),
                |a: int, b: int| x <= a < x + 16 && y <= b < y + 16 && arrow_hit(x as int, v.width, a - x, b - y),
                |a: int, b: int, o: u32| brush.value(a, b, o),
                |a: int, b: int, o: u32| if spec_pixel_set(a - x, b - y) { COL_CURSOR_FG } else { COL_CURSOR_BG },
            );
        }
        self.cursor_visible = true;
    }
}

impl WindowServer {
    /// Move the cursor's image to where the cursor now is: put back what
    /// was under it (when shown), then save and draw at the new position.
    pub fn redraw_cursor(&mut self, screen: &mut Screen, save: &mut CursorSave)
        requires
            old(screen)@.wf(),
        ensures
            ({
                let under = if old(self).cursor_visible {
                    cursor_restored(old(screen)@, old(save).x as int, old(save).y as int, old(save).pixels@)
                } else {
                    old(screen)@
                };
                let x = old(self).cursor_x as int;
                let y = old(self).cursor_y as int;
                &&& final(screen)@ == cursor_drawn(under, x, y)
                &&& final(save).pixels@ == cursor_saved(under, x, y, old(save).pixels@)
                &&& final(save).x == old(self).cursor_x
                &&& final(save).y == old(self).cursor_y
            }),
            final(self)@ == (WsView { cursor_visible: true, ..old(self)@ }),
    {
        self.undraw_cursor(screen, save);
        self.draw_cursor(screen, save);
    }

    /// Redraw everything: the desktop, the windows back to front, then the
    /// cursor on top.
    pub fn redraw_all(&mut self, screen: &mut Screen, save: &mut CursorSave, glyphs: &[[u8; 16]])
        requires
            old(screen)@.wf(),
            old(screen).width == old(self).fb_width,
            old(screen).height == old(self).fb_height,
            old(self)@.wf(),
            old(self).fb_width >= 80,
            glyphs@.len() >= GLYPH_COUNT,
            forall|i: int| 0 <= i < old(self)@.windows.len() ==> drawable(#[trigger] old(self)@.windows[i]),
        ensures
            ({
                let ws = old(self)@;
                let scene = windows_drawn(desktop_drawn(old(screen)@, ws, glyphs@), ws.windows, glyphs@, ws.windows.len() as int);
                &&& final(screen)@ == cursor_drawn(scene, ws.cursor_x as int, ws.cursor_y as int)
                &&& final(save).pixels@ == cursor_saved(scene, ws.cursor_x as int, ws.cursor_y as int, old(save).pixels@)
                &&& final(save).x == ws.cursor_x
                &&& final(save).y == ws.cursor_y
            }),
            final(self)@ == (WsView { cursor_visible: true, needs_redraw: false, ..old(self)@ }),
    {
        self.draw_desktop(screen, glyphs);
        let ghost base = screen@;
        let n = self.windows.len();
        let mut i: usize = 0;
        while i < n
            invariant
                n == self.windows@.len(),
                i <= n,
                self@ == old(self)@,
                forall|j: int| 0 <= j < self@.windows.len() ==> drawable(#[trigger] self@.windows[j]),
                screen@.wf(),
                glyphs@.len() >= GLYPH_COUNT,
                screen@ == windows_drawn(base, self@.windows, glyphs@, i as int),
            decreases n - i,
        {
            assert(drawable(self@.windows[i as int]));
            self.draw_window(screen, &self.windows[i], glyphs);
            i = i + 1;
        }
        self.draw_cursor(screen, save);
        self.needs_redraw = false;
    }
}

/// Putting back what was saved when the cursor was drawn undoes the drawing:
/// every pixel of the screen is as before, except that the pixels under the
/// cursor come back opaque (saving reads them with full alpha).
pub proof fn undraw_undoes_draw(v: ScreenView, x: int, y: int, old_save: Seq<u32>)
    requires
        v.wf(),
        0 <= x,
        0 <= y,
        old_save.len() == 256,
    ensures
        cursor_restored(cursor_drawn(v, x, y), x, y, cursor_saved(v, x, y, old_save)) == v.paint(
            |a: int, b: int| x <= a < x + 16 && y <= b < y + 16,
            |a: int, b: int, o: u32| o | 0xFF00_0000,
        ),
{
    let d = cursor_drawn(v, x, y);
    let saved = cursor_saved(v, x, y, old_save);
    let r = cursor_restored(d, x, y, saved);
    let e = v.paint(|a: int, b: int| x <= a < x + 16 && y <= b < y + 16, |a: int, b: int, o: u32| o | 0xFF00_0000);
    assert forall|i: int| 0 <= i < v.pixels.len() implies r.pixels[i] == e.pixels[i] by {
        let c = v.col(i);
        let w = v.row(i);
        if v.on_screen(i) && x <= c < x + 16 && y <= w < y + 16 {
            let k = (w - y) * 16 + (c - x);
            assert(k % 16 == c - x && k / 16 == w - y) by {
                lemma_coords(k, 16, c - x, w - y);
            }
            assert(0 <= w) by {
                vstd::arithmetic::div_mod::lemma_div_pos_is_pos(i, v.stride);
            }
            assert(0 <= c < v.stride);
            lemma_coords(i, v.stride, c, w);
            assert(0 <= k < 256);
            assert(saved[k] == v.at(c, w) | 0xFF00_0000);
        }
    }
    assert(r.pixels =~= e.pixels);
}

/// The first `n` bytes of `a`.
fn slice_prefix(a: &[u8; 32], n: usize) -> (s: &[u8])
    requires
        n <= 32,
    ensures
        s@ == a@.subrange(0, n as int),
{
    vstd::slice::slice_subrange(a.as_slice(), 0, n)
}

} // verus!
