//! Drawing primitives: rectangles, a software framebuffer and bitmap text.
//!
//! A framebuffer is modelled by `FbView`: its pixel sequence and geometry.
//! Pixel `(x, y)` lives at index `y * pitch + x`; every drawing operation is
//! specified as a function of the view before the call.

use vstd::prelude::*;
use vstd::string::StrSliceExecFns;
use crate::gui::color::{Color, packed, unpacked, spec_blend_over, unpack_packed};

verus! {

/// Rectangle in pixel coordinates.
#[derive(Clone, Copy, Debug)]
pub struct Rect {
    pub x: u32,
    pub y: u32,
    pub width: u32,
    pub height: u32,
}

impl Rect {
    /// The right and bottom edges fit in a `u32`.
    pub open spec fn edges_fit(self) -> bool {
        self.x + self.width <= u32::MAX && self.y + self.height <= u32::MAX
    }

    /// Whether the point lies inside (right and bottom edges exclusive).
    pub open spec fn covers(self, px: int, py: int) -> bool {
        self.x <= px < self.x + self.width && self.y <= py < self.y + self.height
    }

    pub fn new(x: u32, y: u32, width: u32, height: u32) -> (r: Rect)
        ensures
            r == (Rect { x, y, width, height }),
    {
        Rect { x, y, width, height }
    }

    pub fn zero() -> (r: Rect)
        ensures
            r == (Rect { x: 0, y: 0, width: 0, height: 0 }),
    {
        Rect { x: 0, y: 0, width: 0, height: 0 }
    }

    /// Right edge (exclusive).
    pub fn right(&self) -> (r: u32)
        requires
            self.x + self.width <= u32::MAX,
        ensures
            r == self.x + self.width,
    {
        self.x + self.width
    }

    /// Bottom edge (exclusive).
    pub fn bottom(&self) -> (r: u32)
        requires
            self.y + self.height <= u32::MAX,
        ensures
            r == self.y + self.height,
    {
        self.y + self.height
    }

    /// Whether this rect contains the point.
    pub fn contains(&self, px: u32, py: u32) -> (r: bool)
        ensures
            r == self.covers(px as int, py as int),
    {
        px >= self.x && (px as u64) < self.x as u64 + self.width as u64 && py >= self.y
            && (py as u64) < self.y as u64 + self.height as u64
    }

    /// Intersection of two rects (the zero rect when they do not overlap).
    pub fn intersect(&self, other: &Rect) -> (r: Rect)
        requires
            self.edges_fit(),
            other.edges_fit(),
        ensures
            ({
                let x = if self.x >= other.x { self.x } else { other.x };
                let y = if self.y >= other.y { self.y } else { other.y };
                let rr = if self.x + self.width <= other.x + other.width {
                    self.x + self.width
                } else {
                    other.x + other.width
                };
                let bb = if self.y + self.height <= other.y + other.height {
                    self.y + self.height
                } else {
                    other.y + other.height
                };
                if rr > x && bb > y {
                    r == Rect { x, y, width: (rr - x) as u32, height: (bb - y) as u32 }
                } else {
                    r == Rect { x: 0, y: 0, width: 0, height: 0 }
                }
            }),
            forall|px: int, py: int| r.covers(px, py) <==> self.covers(px, py) && other.covers(px, py),
    {
        let x = if self.x >= other.x { self.x } else { other.x };
        let y = if self.y >= other.y { self.y } else { other.y };
        let sr = self.right();
        let or = other.right();
        let sb = self.bottom();
        let ob = other.bottom();
        let r = if sr <= or { sr } else { or };
        let b = if sb <= ob { sb } else { ob };
        if r > x && b > y {
            Rect::new(x, y, r - x, b - y)
        } else {
            Rect::zero()
        }
    }

    /// Whether this rect has zero area.
    pub fn is_empty(&self) -> (r: bool)
        ensures
            r == (self.width == 0 || self.height == 0),
    {
        self.width == 0 || self.height == 0
    }
}

/// Size (width x height).
#[derive(Clone, Copy, Debug)]
pub struct Size {
    pub width: u32,
    pub height: u32,
}

impl Size {
    pub fn new(width: u32, height: u32) -> (s: Size)
        ensures
            s == (Size { width, height }),
    {
        Size { width, height }
    }
}

/// A software framebuffer for rendering into.
pub struct Framebuffer {
    pub pixels: Vec<u32>,
    pub width: u32,
    pub height: u32,
    /// Pixels per row (may differ from width).
    pub pitch: u32,
}

/// What a framebuffer holds: its pixels (0xRRGGBBAA) and geometry.
pub struct FbView {
    pub pixels: Seq<u32>,
    pub width: u32,
    pub height: u32,
    pub pitch: u32,
}

impl View for Framebuffer {
    type V = FbView;

    open spec fn view(&self) -> FbView {
        FbView { pixels: self.pixels@, width: self.width, height: self.height, pitch: self.pitch }
    }
}

/// The value a pixel holding `v` takes when `c` is painted on it, blended
/// (source-over) or opaque.
pub open spec fn paint_px(blend: bool, c: Color, v: u32) -> u32 {
    if !blend || c.a == 255 {
        packed(c)
    } else if c.a == 0 {
        v
    } else {
        packed(spec_blend_over(c, unpacked(v)))
    }
}

impl FbView {
    /// Rows never overlap: a row is at least as long as the visible width.
    pub open spec fn wf(self) -> bool {
        self.width <= self.pitch
    }

    pub open spec fn index_of(self, x: int, y: int) -> int {
        y * self.pitch + x
    }

    /// Pixel `(x, y)` is visible and backed by the buffer.
    pub open spec fn holds(self, x: int, y: int) -> bool {
        &&& 0 <= x < self.width
        &&& 0 <= y < self.height
        &&& self.index_of(x, y) < self.pixels.len()
    }

    pub open spec fn col(self, i: int) -> int {
        i % (self.pitch as int)
    }

    pub open spec fn row(self, i: int) -> int {
        i / (self.pitch as int)
    }

    /// Buffer index `i` shows a visible pixel.
    pub open spec fn on_screen(self, i: int) -> bool {
        self.pitch > 0 && self.col(i) < self.width && self.row(i) < self.height
    }

    pub open spec fn with_pixels(self, s: Seq<u32>) -> FbView {
        FbView { pixels: s, ..self }
    }

    /// The view after storing `v` at pixel `(x, y)`; nothing changes when the
    /// pixel is not held.
    pub open spec fn put(self, x: int, y: int, v: u32) -> FbView {
        if self.holds(x, y) {
            self.with_pixels(self.pixels.update(self.index_of(x, y), v))
        } else {
            self
        }
    }

    /// The color read back from pixel `(x, y)` (transparent black when not held).
    pub open spec fn color_at(self, x: int, y: int) -> Color {
        if self.holds(x, y) {
            unpacked(self.pixels[self.index_of(x, y)])
        } else {
            Color { r: 0, g: 0, b: 0, a: 0 }
        }
    }

    /// The view after painting, on every visible pixel `(x, y)` with `hit(x, y)`,
    /// the color `colors(x, y)`.
    pub open spec fn paint_with(
        self,
        hit: spec_fn(int, int) -> bool,
        colors: spec_fn(int, int) -> Color,
        blend: bool,
    ) -> FbView {
        self.with_pixels(
            Seq::new(
                self.pixels.len(),
                |i: int|
                    if self.on_screen(i) && hit(self.col(i), self.row(i)) {
                        paint_px(blend, colors(self.col(i), self.row(i)), self.pixels[i])
                    } else {
                        self.pixels[i]
                    },
            ),
        )
    }

    /// The view after painting `c` on every visible pixel `(x, y)` with `hit(x, y)`.
    pub open spec fn paint(self, hit: spec_fn(int, int) -> bool, c: Color, blend: bool) -> FbView {
        self.paint_with(hit, solid(c), blend)
    }
}

/// The same color everywhere.
pub open spec fn solid(c: Color) -> spec_fn(int, int) -> Color {
    |x: int, y: int| c
}

/// Buffer index `i` is pixel `(x, y)` exactly when its column is `x` and its row `y`.
pub(crate) proof fn lemma_coords(i: int, pitch: int, x: int, y: int)
    requires
        pitch > 0,
        0 <= x < pitch,
        0 <= i,
    ensures
        (i == y * pitch + x) <==> (i % pitch == x && i / pitch == y),
{
    if i == y * pitch + x {
        vstd::arithmetic::div_mod::lemma_fundamental_div_mod_converse(i, pitch, y, x);
    }
    if i % pitch == x && i / pitch == y {
        vstd::arithmetic::div_mod::lemma_fundamental_div_mod(i, pitch);
        assert(pitch * y == y * pitch) by (nonlinear_arith);
    }
}

/// Painting depends only on which visible pixels are hit, and on their colors.
proof fn lemma_paint_ext(
    v: FbView,
    h1: spec_fn(int, int) -> bool,
    h2: spec_fn(int, int) -> bool,
    c1: spec_fn(int, int) -> Color,
    c2: spec_fn(int, int) -> Color,
    blend: bool,
)
    requires
        forall|x: int, y: int| 0 <= x < v.width && 0 <= y < v.height ==> #[trigger] h1(x, y) == #[trigger] h2(x, y),
        forall|x: int, y: int| 0 <= x < v.width && 0 <= y < v.height && #[trigger] h1(x, y) ==> c1(x, y) == c2(x, y),
    ensures
        v.paint_with(h1, c1, blend) == v.paint_with(h2, c2, blend),
{
    let p1 = v.paint_with(h1, c1, blend);
    let p2 = v.paint_with(h2, c2, blend);
    assert forall|i: int| 0 <= i < v.pixels.len() implies p1.pixels[i] == p2.pixels[i] by {
        if v.on_screen(i) {
            assert(0 <= v.col(i));
            assert(0 <= v.row(i)) by {
                vstd::arithmetic::div_mod::lemma_div_pos_is_pos(i, v.pitch as int);
            }
            assert(h1(v.col(i), v.row(i)) == h2(v.col(i), v.row(i)));
        }
    }
    assert(p1.pixels =~= p2.pixels);
}

/// Painting one more pixel `(x, y)` on top of a painted view; a pixel off the
/// screen changes nothing.
proof fn lemma_paint_step(
    v: FbView,
    hit: spec_fn(int, int) -> bool,
    colors: spec_fn(int, int) -> Color,
    x: int,
    y: int,
    blend: bool,
)
    requires
        v.wf(),
        0 <= x,
        0 <= y,
        !hit(x, y),
    ensures
        ({
            let p = v.paint_with(hit, colors, blend);
            p.put(x, y, paint_px(blend, colors(x, y), p.pixels[p.index_of(x, y)]))
                == v.paint_with(|a: int, b: int| hit(a, b) || (a == x && b == y), colors, blend)
        }),
{
    let p = v.paint_with(hit, colors, blend);
    let idx = v.index_of(x, y);
    let h2 = |a: int, b: int| hit(a, b) || (a == x && b == y);
    let q = v.paint_with(h2, colors, blend);
    if x < v.width && y < v.height {
        assert(0 <= idx) by (nonlinear_arith)
            requires idx == y * v.pitch + x, y >= 0, x >= 0;
        assert forall|i: int| 0 <= i < v.pixels.len() && i != idx implies !(#[trigger] v.col(i) == x && v.row(i) == y) by {
            lemma_coords(i, v.pitch as int, x, y);
        }
        if p.holds(x, y) {
            lemma_coords(idx, v.pitch as int, x, y);
            assert(p.pixels[idx] == v.pixels[idx]);
            assert(p.put(x, y, paint_px(blend, colors(x, y), p.pixels[idx])).pixels =~= q.pixels);
        } else {
            assert(p.pixels =~= q.pixels);
        }
    } else {
        lemma_paint_ext(v, hit, h2, colors, colors, blend);
    }
}

/// The color of the blended pixel, as `blend_pixel` computes it.
proof fn lemma_blend_px(c: Color, v: u32)
    ensures
        c.a != 0 && c.a != 255 ==> paint_px(true, c, v) == packed(spec_blend_over(c, unpacked(v))),
        c.a == 255 ==> paint_px(true, c, v) == packed(c),
{
}

impl Framebuffer {
    pub fn new(pixels: Vec<u32>, width: u32, height: u32) -> (fb: Framebuffer)
        ensures
            fb@ == (FbView { pixels: pixels@, width, height, pitch: width }),
    {
        let pitch = width;
        Framebuffer { pixels, width, height, pitch }
    }

    /// Buffer index of `(x, y)` when that pixel is held.
    fn index(&self, x: u32, y: u32) -> (r: Option<usize>)
        ensures
            r is Some <==> self@.holds(x as int, y as int),
            r is Some ==> r->Some_0 == self@.index_of(x as int, y as int),
    {
        if x < self.width && y < self.height {
            assert(y as int * self.pitch as int <= 0xffff_ffff * 0xffff_ffff) by (nonlinear_arith)
                requires y <= 0xffff_ffff, self.pitch <= 0xffff_ffff;
            let idx = y as u64 * self.pitch as u64 + x as u64;
            if idx < self.pixels.len() as u64 {
                return Some(idx as usize);
            }
        }
        None
    }

    pub fn set_pixel(&mut self, x: u32, y: u32, color: Color)
        ensures
            final(self)@ == old(self)@.put(x as int, y as int, packed(color)),
    {
        if let Some(idx) = self.index(x, y) {
            let v = color.to_u32();
            self.pixels.set(idx, v);
        }
    }

    pub fn get_pixel(&self, x: u32, y: u32) -> (c: Color)
        ensures
            c == self@.color_at(x as int, y as int),
    {
        if let Some(idx) = self.index(x, y) {
            let v = self.pixels[idx];
            return Color {
                r: ((v >> 24) & 0xFF) as u8,
                g: ((v >> 16) & 0xFF) as u8,
                b: ((v >> 8) & 0xFF) as u8,
                a: (v & 0xFF) as u8,
            };
        }
        Color::clear()
    }

    /// Blend a pixel over the existing value.
    pub fn blend_pixel(&mut self, x: u32, y: u32, color: Color)
        ensures
            final(self)@ == old(self)@.put(
                x as int,
                y as int,
                paint_px(true, color, old(self)@.pixels[old(self)@.index_of(x as int, y as int)]),
            ),
    {
        if color.a == 0 {
            proof {
                if self@.holds(x as int, y as int) {
                    let i = self@.index_of(x as int, y as int);
                    assert(self@.pixels.update(i, self@.pixels[i]) =~= self@.pixels);
                }
            }
            return;
        }
        if let Some(idx) = self.index(x, y) {
            if color.a == 255 {
                let v = color.to_u32();
                self.pixels.set(idx, v);
            } else {
                let dst = self.get_pixel(x, y);
                let blended = color.blend_over(&dst);
                let v = blended.to_u32();
                self.pixels.set(idx, v);
            }
        }
    }
}

/// What a painting loop draws at each pixel of its box.
enum Shape<'a> {
    /// Every pixel, in one color.
    Full { color: Color },
    /// The pixels of a disk, in one color.
    Disk { cx: u32, cy: u32, radius: u32, color: Color },
    /// An 8x16 glyph cell at `(x, y)`: set bits in `fg`, clear bits in `bg` when given.
    Glyph { x: u32, y: u32, bits: [u8; 16], fg: Color, bg: Option<Color> },
    /// An image `width` pixels wide whose top-left corner is at `(x, y)`.
    Image { x: u32, y: u32, src: &'a [u32], width: u32 },
}

impl<'a> Shape<'a> {
    /// The shape can be evaluated at `(x, y)`.
    spec fn ok_at(self, x: int, y: int) -> bool {
        match self {
            Shape::Full { .. } => true,
            Shape::Disk { radius, .. } => 2 * radius * radius <= i32::MAX,
            Shape::Glyph { x: gx, y: gy, .. } => gx <= x < gx + 8 && gy <= y < gy + 16,
            Shape::Image { x: ix, y: iy, src, width } => {
                &&& ix <= x < ix + width
                &&& iy <= y
                &&& (y - iy) * width + (x - ix) < src@.len()
            },
        }
    }

    spec fn hits(self, x: int, y: int) -> bool {
        match self {
            Shape::Full { .. } => true,
            Shape::Disk { cx, cy, radius, .. } => in_disk(cx as int, cy as int, radius as int, x, y),
            Shape::Glyph { x: gx, y: gy, bits, bg, .. } => glyph_bit(bits@, x - gx, y - gy) || bg is Some,
            Shape::Image { .. } => true,
        }
    }

    spec fn color(self, x: int, y: int) -> Color {
        match self {
            Shape::Full { color } => color,
            Shape::Disk { color, .. } => color,
            Shape::Glyph { x: gx, y: gy, bits, fg, bg } => glyph_colors(gx as int, gy as int, bits@, fg, bg)(x, y),
            Shape::Image { x: ix, y: iy, src, width } => image_colors(ix as int, iy as int, src@, width as int)(x, y),
        }
    }

    fn hits_exec(&self, x: u32, y: u32) -> (r: bool)
        requires
            self.ok_at(x as int, y as int),
        ensures
            r == self.hits(x as int, y as int),
    {
        match self {
            Shape::Full { .. } => true,
            Shape::Disk { cx, cy, radius, .. } => {
                let dx = x as i128 - *cx as i128;
                let dy = y as i128 - *cy as i128;
                assert(0 <= dx * dx <= 0xffff_ffff * 0xffff_ffff) by (nonlinear_arith)
                    requires -0xffff_ffff <= dx <= 0xffff_ffff;
                assert(0 <= dy * dy <= 0xffff_ffff * 0xffff_ffff) by (nonlinear_arith)
                    requires -0xffff_ffff <= dy <= 0xffff_ffff;
                let r = *radius as i128;
                assert(r * r <= 0xffff_ffff * 0xffff_ffff) by (nonlinear_arith)
                    requires 0 <= r <= 0xffff_ffff;
                dx * dx + dy * dy <= r * r
            },
            Shape::Glyph { x: gx, y: gy, bits, bg, .. } => {
                let col = x - *gx;
                let row = (y - *gy) as usize;
                (bits[row] >> (7 - col)) & 1 != 0 || bg.is_some()
            },
            Shape::Image { .. } => true,
        }
    }

    fn color_exec(&self, x: u32, y: u32) -> (c: Color)
        requires
            self.ok_at(x as int, y as int),
        ensures
            c == self.color(x as int, y as int),
    {
        match self {
            Shape::Full { color } => *color,
            Shape::Disk { color, .. } => *color,
            Shape::Glyph { x: gx, y: gy, bits, fg, bg } => {
                let col = x - *gx;
                let row = (y - *gy) as usize;
                if (bits[row] >> (7 - col)) & 1 != 0 {
                    *fg
                } else {
                    match bg {
                        Some(c) => *c,
                        None => *fg,
                    }
                }
            },
            Shape::Image { x: ix, y: iy, src, width } => {
                let dy = (y - *iy) as u64;
                assert(dy * (*width as u64) <= 0xffff_ffff * 0xffff_ffff) by (nonlinear_arith)
                    requires dy <= 0xffff_ffff, *width <= 0xffff_ffff;
                let idx = (y - *iy) as u64 * *width as u64 + (x - *ix) as u64;
                let v = src[idx as usize];
                Color {
                    r: ((v >> 24) & 0xFF) as u8,
                    g: ((v >> 16) & 0xFF) as u8,
                    b: ((v >> 8) & 0xFF) as u8,
                    a: (v & 0xFF) as u8,
                }
            },
        }
    }
}

/// Point `(x, y)` lies in the disk of `radius` around `(cx, cy)`.
pub open spec fn in_disk(cx: int, cy: int, radius: int, x: int, y: int) -> bool {
    (x - cx) * (x - cx) + (y - cy) * (y - cy) <= radius * radius
}

/// A rounded rectangle blended over `v`: a center band, left and right
/// strips, and a disk at each corner.
pub open spec fn rounded_drawn(v: FbView, rect: Rect, radius: u32, color: Color) -> FbView {
    v.paint(rect_hit(Rect { x: (rect.x + radius) as u32, y: rect.y, width: (rect.width - 2 * radius) as u32, height: rect.height }), color, true)
        .paint(rect_hit(Rect { x: rect.x, y: (rect.y + radius) as u32, width: radius, height: (rect.height - 2 * radius) as u32 }), color, true)
        .paint(rect_hit(Rect { x: (rect.x + rect.width - radius) as u32, y: (rect.y + radius) as u32, width: radius, height: (rect.height - 2 * radius) as u32 }), color, true)
        .paint(disk_hit((rect.x + radius) as u32, (rect.y + radius) as u32, radius), color, true)
        .paint(disk_hit((rect.x + rect.width - radius - 1) as u32, (rect.y + radius) as u32, radius), color, true)
        .paint(disk_hit((rect.x + radius) as u32, (rect.y + rect.height - radius - 1) as u32, radius), color, true)
        .paint(disk_hit((rect.x + rect.width - radius - 1) as u32, (rect.y + rect.height - radius - 1) as u32, radius), color, true)
}

/// A border `thickness` pixels wide blended just inside `rect`.
pub open spec fn border_drawn(v: FbView, rect: Rect, color: Color, thickness: u32) -> FbView {
    v.paint(rect_hit(Rect { x: rect.x, y: rect.y, width: rect.width, height: thickness }), color, true)
        .paint(rect_hit(Rect { x: rect.x, y: (rect.y + rect.height - thickness) as u32, width: rect.width, height: thickness }), color, true)
        .paint(rect_hit(Rect { x: rect.x, y: (rect.y + thickness) as u32, width: thickness, height: (rect.height - 2 * thickness) as u32 }), color, true)
        .paint(rect_hit(Rect { x: (rect.x + rect.width - thickness) as u32, y: (rect.y + thickness) as u32, width: thickness, height: (rect.height - 2 * thickness) as u32 }), color, true)
}

/// The hit test of a rectangle.
pub open spec fn rect_hit(r: Rect) -> spec_fn(int, int) -> bool {
    |x: int, y: int| r.covers(x, y)
}

/// The hit test of a disk.
pub open spec fn disk_hit(cx: u32, cy: u32, radius: u32) -> spec_fn(int, int) -> bool {
    |x: int, y: int| in_disk(cx as int, cy as int, radius as int, x, y)
}

/// Bit `col` (from the left) of row `row` of a glyph.
pub open spec fn glyph_bit(bits: Seq<u8>, col: int, row: int) -> bool {
    (bits[row] >> ((7 - col) as u8)) & 1u8 != 0u8
}

/// The pixels a glyph drawn at `(gx, gy)` paints: its set bits, and its clear
/// bits too when there is a background.
pub open spec fn glyph_hit(gx: int, gy: int, bits: Seq<u8>, bg: Option<Color>) -> spec_fn(int, int) -> bool {
    |x: int, y: int| gx <= x < gx + 8 && gy <= y < gy + 16 && (glyph_bit(bits, x - gx, y - gy) || bg is Some)
}

/// The color of each pixel of a glyph drawn at `(gx, gy)`.
pub open spec fn glyph_colors(gx: int, gy: int, bits: Seq<u8>, fg: Color, bg: Option<Color>) -> spec_fn(int, int) -> Color {
    |x: int, y: int|
        if glyph_bit(bits, x - gx, y - gy) {
            fg
        } else {
            match bg {
                Some(c) => c,
                None => fg,
            }
        }
}

/// The colors of an image `width` pixels wide drawn with its top-left corner at `(ix, iy)`.
pub open spec fn image_colors(ix: int, iy: int, src: Seq<u32>, width: int) -> spec_fn(int, int) -> Color {
    |x: int, y: int| unpacked(src[(y - iy) * width + (x - ix)])
}

/// A point of the disk is at most `radius` away on each axis.
proof fn lemma_disk_box(cx: int, cy: int, radius: int, x: int, y: int)
    requires
        radius >= 0,
        in_disk(cx, cy, radius, x, y),
    ensures
        cx - radius <= x <= cx + radius,
        cy - radius <= y <= cy + radius,
{
    assert((y - cy) * (y - cy) >= 0) by (nonlinear_arith);
    assert((x - cx) * (x - cx) >= 0) by (nonlinear_arith);
    assert(cx - radius <= x <= cx + radius) by (nonlinear_arith)
        requires (x - cx) * (x - cx) <= radius * radius, radius >= 0;
    assert(cy - radius <= y <= cy + radius) by (nonlinear_arith)
        requires (y - cy) * (y - cy) <= radius * radius, radius >= 0;
}

impl Framebuffer {
    /// Paint every pixel of `[x0, x1) x [y0, y1)` that `shape` hits, in the
    /// shape's color, row by row.
    fn paint_box(&mut self, x0: u32, x1: u32, y0: u32, y1: u32, shape: &Shape, blend: bool)
        requires
            old(self)@.wf(),
            x1 <= old(self).width,
            y1 <= old(self).height,
            forall|x: int, y: int| x0 <= x < x1 && y0 <= y < y1 ==> #[trigger] shape.ok_at(x, y),
        ensures
            final(self)@ == old(self)@.paint_with(
                |x: int, y: int| x0 <= x < x1 && y0 <= y < y1 && shape.hits(x, y),
                |x: int, y: int| shape.color(x, y),
                blend,
            ),
    {
        let ghost v = self@;
        let ghost cs = |x: int, y: int| shape.color(x, y);
        let mut y = y0;
        proof {
            lemma_paint_ext(
                v,
                |x: int, yy: int| false,
                |x: int, yy: int| x0 <= x < x1 && y0 <= yy < y && shape.hits(x, yy),
                cs,
                cs,
                blend,
            );
            assert(v.paint_with(|x: int, yy: int| false, cs, blend).pixels =~= v.pixels);
        }
        while y < y1
            invariant
                v.wf(),
                x1 <= v.width,
                y1 <= v.height,
                forall|x: int, y: int| x0 <= x < x1 && y0 <= y < y1 ==> #[trigger] shape.ok_at(x, y),
                cs == (|x: int, y: int| shape.color(x, y)),
                y0 <= y,
                y0 <= y1 ==> y <= y1,
                y1 < y0 ==> y == y0,
                self@ == v.paint_with(|x: int, yy: int| x0 <= x < x1 && y0 <= yy < y && shape.hits(x, yy), cs, blend),
            decreases y1 - y,
        {
            let mut x = x0;
            proof {
                lemma_paint_ext(
                    v,
                    |x: int, yy: int| x0 <= x < x1 && y0 <= yy < y && shape.hits(x, yy),
                    |a: int, b: int| (x0 <= a < x1 && y0 <= b < y && shape.hits(a, b)) || (b == y && x0 <= a < x && shape.hits(a, b)),
                    cs,
                    cs,
                    blend,
                );
            }
            while x < x1
                invariant
                    v.wf(),
                    x1 <= v.width,
                    y < y1,
                    y1 <= v.height,
                    forall|x: int, y: int| x0 <= x < x1 && y0 <= y < y1 ==> #[trigger] shape.ok_at(x, y),
                    cs == (|x: int, y: int| shape.color(x, y)),
                    x0 <= x,
                    x0 <= x1 ==> x <= x1,
                    x1 < x0 ==> x == x0,
                    y0 <= y,
                    self@ == v.paint_with(
                        |a: int, b: int| (x0 <= a < x1 && y0 <= b < y && shape.hits(a, b)) || (b == y && x0 <= a < x && shape.hits(a, b)),
                        cs,
                        blend,
                    ),
                decreases x1 - x,
            {
                let ghost h = |a: int, b: int| (x0 <= a < x1 && y0 <= b < y && shape.hits(a, b)) || (b == y && x0 <= a < x && shape.hits(a, b));
                let ghost h2 = |a: int, b: int| (x0 <= a < x1 && y0 <= b < y && shape.hits(a, b)) || (b == y && x0 <= a < x + 1 && shape.hits(a, b));
                assert(shape.ok_at(x as int, y as int));
                if shape.hits_exec(x, y) {
                    let c = shape.color_exec(x, y);
                    proof {
                        lemma_paint_step(v, h, cs, x as int, y as int, blend);
                        lemma_paint_ext(v, |a: int, b: int| h(a, b) || (a == x && b == y), h2, cs, cs, blend);
                    }
                    if blend {
                        self.blend_pixel(x, y, c);
                    } else {
                        self.set_pixel(x, y, c);
                    }
                } else {
                    proof {
                        lemma_paint_ext(v, h, h2, cs, cs, blend);
                    }
                }
                x = x + 1;
            }
            proof {
                lemma_paint_ext(
                    v,
                    |a: int, b: int| (x0 <= a < x1 && y0 <= b < y && shape.hits(a, b)) || (b == y && x0 <= a < x && shape.hits(a, b)),
                    |a: int, b: int| x0 <= a < x1 && y0 <= b < y + 1 && shape.hits(a, b),
                    cs,
                    cs,
                    blend,
                );
            }
            y = y + 1;
        }
        proof {
            lemma_paint_ext(
                v,
                |x: int, yy: int| x0 <= x < x1 && y0 <= yy < y && shape.hits(x, yy),
                |x: int, y: int| x0 <= x < x1 && y0 <= y < y1 && shape.hits(x, y),
                cs,
                cs,
                blend,
            );
        }
    }

    /// Fill a rectangle with an opaque color.
    pub fn fill_rect(&mut self, rect: Rect, color: Color)
        requires
            old(self)@.wf(),
            rect.edges_fit(),
        ensures
            final(self)@ == old(self)@.paint(rect_hit(rect), color, false),
    {
        let x_end = if rect.x + rect.width <= self.width { rect.x + rect.width } else { self.width };
        let y_end = if rect.y + rect.height <= self.height { rect.y + rect.height } else { self.height };
        let ghost v = self@;
        let shape = Shape::Full { color };
        self.paint_box(rect.x, x_end, rect.y, y_end, &shape, false);
        proof {
            lemma_paint_ext(
                v,
                |x: int, y: int| rect.x <= x < x_end && rect.y <= y < y_end && shape.hits(x, y),
                rect_hit(rect),
                |x: int, y: int| shape.color(x, y),
                solid(color),
                false,
            );
        }
    }

    /// Fill a rectangle with alpha blending.
    pub fn fill_rect_blend(&mut self, rect: Rect, color: Color)
        requires
            old(self)@.wf(),
            rect.edges_fit(),
        ensures
            final(self)@ == old(self)@.paint(rect_hit(rect), color, true),
    {
        let ghost v = self@;
        if color.a == 0 {
            assert(v.paint(rect_hit(rect), color, true).pixels =~= v.pixels);
            return;
        }
        if color.a == 255 {
            self.fill_rect(rect, color);
            assert(v.paint(rect_hit(rect), color, true).pixels =~= v.paint(rect_hit(rect), color, false).pixels);
            return;
        }
        let x_end = if rect.x + rect.width <= self.width { rect.x + rect.width } else { self.width };
        let y_end = if rect.y + rect.height <= self.height { rect.y + rect.height } else { self.height };
        let shape = Shape::Full { color };
        self.paint_box(rect.x, x_end, rect.y, y_end, &shape, true);
        proof {
            lemma_paint_ext(
                v,
                |x: int, y: int| rect.x <= x < x_end && rect.y <= y < y_end && shape.hits(x, y),
                rect_hit(rect),
                |x: int, y: int| shape.color(x, y),
                solid(color),
                true,
            );
        }
    }

    /// Draw a filled circle: every pixel within `radius` of the center.
    pub fn fill_circle(&mut self, cx: u32, cy: u32, radius: u32, color: Color)
        requires
            old(self)@.wf(),
            2 * radius * radius <= i32::MAX,
            cx + radius + 1 <= u32::MAX,
            cy + radius + 1 <= u32::MAX,
        ensures
            final(self)@ == old(self)@.paint(disk_hit(cx, cy, radius), color, true),
    {
        let x_start = if cx > radius { cx - radius } else { 0 };
        let y_start = if cy > radius { cy - radius } else { 0 };
        let x_end = if cx + radius + 1 <= self.width { cx + radius + 1 } else { self.width };
        let y_end = if cy + radius + 1 <= self.height { cy + radius + 1 } else { self.height };
        let ghost v = self@;
        let shape = Shape::Disk { cx, cy, radius, color };
        self.paint_box(x_start, x_end, y_start, y_end, &shape, true);
        proof {
            assert forall|x: int, y: int| 0 <= x < v.width && 0 <= y < v.height implies
                #[trigger] disk_hit(cx, cy, radius)(x, y) == (x_start <= x < x_end && y_start <= y < y_end && shape.hits(x, y)) by {
                if in_disk(cx as int, cy as int, radius as int, x, y) {
                    lemma_disk_box(cx as int, cy as int, radius as int, x, y);
                }
            }
            lemma_paint_ext(
                v,
                |x: int, y: int| x_start <= x < x_end && y_start <= y < y_end && shape.hits(x, y),
                disk_hit(cx, cy, radius),
                |x: int, y: int| shape.color(x, y),
                solid(color),
                true,
            );
        }
    }
}

impl Framebuffer {
    /// Draw a filled rounded rectangle: three strips and four corner disks.
    pub fn fill_rounded_rect(&mut self, rect: Rect, radius: u32, color: Color)
        requires
            old(self)@.wf(),
            rect.edges_fit(),
            2 * radius <= rect.width,
            2 * radius <= rect.height,
            radius + 1 <= rect.x + rect.width,
            radius + 1 <= rect.y + rect.height,
            rect.x + 2 * radius + 1 <= u32::MAX,
            rect.y + 2 * radius + 1 <= u32::MAX,
            2 * radius * radius <= i32::MAX,
        ensures
            final(self)@ == rounded_drawn(old(self)@, rect, radius, color),
    {
        // Center area
        self.fill_rect_blend(Rect::new(rect.x + radius, rect.y, rect.width - 2 * radius, rect.height), color);
        // Left strip
        self.fill_rect_blend(Rect::new(rect.x, rect.y + radius, radius, rect.height - 2 * radius), color);
        // Right strip
        self.fill_rect_blend(
            Rect::new(rect.x + rect.width - radius, rect.y + radius, radius, rect.height - 2 * radius),
            color,
        );
        // Four corner disks
        self.fill_circle(rect.x + radius, rect.y + radius, radius, color);
        self.fill_circle(rect.x + rect.width - radius - 1, rect.y + radius, radius, color);
        self.fill_circle(rect.x + radius, rect.y + rect.height - radius - 1, radius, color);
        self.fill_circle(rect.x + rect.width - radius - 1, rect.y + rect.height - radius - 1, radius, color);
    }

    /// Draw a horizontal line of `width` pixels starting at `(x, y)`.
    pub fn draw_hline(&mut self, x: u32, y: u32, width: u32, color: Color)
        requires
            old(self)@.wf(),
            x + width <= u32::MAX + 1,
        ensures
            final(self)@ == old(self)@.paint(|a: int, b: int| x <= a < x + width && b == y, color, true),
    {
        let ghost v = self@;
        let ghost hit = |a: int, b: int| x <= a < x + width && b == y;
        if y >= self.height {
            assert(v.paint(hit, color, true).pixels =~= v.pixels);
            return;
        }
        let x_end: u32 = if x as u64 + width as u64 <= self.width as u64 { (x as u64 + width as u64) as u32 } else { self.width };
        let shape = Shape::Full { color };
        self.paint_box(x, x_end, y, y + 1, &shape, true);
        proof {
            lemma_paint_ext(
                v,
                |a: int, b: int| x <= a < x_end && y <= b < y + 1 && shape.hits(a, b),
                hit,
                |a: int, b: int| shape.color(a, b),
                solid(color),
                true,
            );
        }
    }

    /// Draw a border of `thickness` pixels just inside a rectangle.
    pub fn draw_border(&mut self, rect: Rect, color: Color, thickness: u32)
        requires
            old(self)@.wf(),
            rect.edges_fit(),
            2 * thickness <= rect.height,
            thickness <= rect.x + rect.width,
            rect.x + thickness <= u32::MAX,
        ensures
            final(self)@ == border_drawn(old(self)@, rect, color, thickness),
    {
        // Top
        self.fill_rect_blend(Rect::new(rect.x, rect.y, rect.width, thickness), color);
        // Bottom
        self.fill_rect_blend(Rect::new(rect.x, rect.y + rect.height - thickness, rect.width, thickness), color);
        // Left
        self.fill_rect_blend(Rect::new(rect.x, rect.y + thickness, thickness, rect.height - 2 * thickness), color);
        // Right
        self.fill_rect_blend(
            Rect::new(rect.x + rect.width - thickness, rect.y + thickness, thickness, rect.height - 2 * thickness),
            color,
        );
    }

    /// Draw a shadow: the rectangle moved by `offset` on both axes, blended.
    pub fn draw_shadow(&mut self, rect: Rect, offset: u32, color: Color)
        requires
            old(self)@.wf(),
            rect.x + offset + rect.width <= u32::MAX,
            rect.y + offset + rect.height <= u32::MAX,
        ensures
            final(self)@ == old(self)@.paint(
                rect_hit(Rect { x: (rect.x + offset) as u32, y: (rect.y + offset) as u32, width: rect.width, height: rect.height }),
                color,
                true,
            ),
    {
        let shadow_rect = Rect::new(rect.x + offset, rect.y + offset, rect.width, rect.height);
        self.fill_rect_blend(shadow_rect, color);
    }

    /// Clear the entire buffer (every pixel, shown or not) to a color.
    pub fn clear(&mut self, color: Color)
        ensures
            final(self)@ == old(self)@.with_pixels(Seq::new(old(self)@.pixels.len(), |i: int| packed(color))),
    {
        let packed = color.to_u32();
        let ghost v = self@;
        let mut i: usize = 0;
        while i < self.pixels.len()
            invariant
                self@ == v.with_pixels(self.pixels@),
                self.pixels@.len() == v.pixels.len(),
                packed == crate::gui::color::packed(color),
                forall|j: int| 0 <= j < i ==> self.pixels@[j] == packed,
            decreases self.pixels.len() - i,
        {
            self.pixels.set(i, packed);
            i = i + 1;
        }
        assert(self.pixels@ =~= Seq::new(v.pixels.len(), |i: int| crate::gui::color::packed(color)));
    }

    /// Blit a source image (`src_w` x `src_h`, 0xRRGGBBAA) with its top-left
    /// corner at `(x, y)`, blending each pixel; clipped to the screen.
    pub fn blit(&mut self, x: u32, y: u32, src: &[u32], src_w: u32, src_h: u32)
        requires
            old(self)@.wf(),
            blit_fits(old(self)@, x as int, y as int, src@.len() as int, src_w as int, src_h as int),
        ensures
            final(self)@ == old(self)@.paint_with(
                |a: int, b: int| x <= a < x + src_w && y <= b < y + src_h,
                image_colors(x as int, y as int, src@, src_w as int),
                true,
            ),
    {
        let ghost v = self@;
        let x_end: u32 = if x as u64 + src_w as u64 <= self.width as u64 { (x as u64 + src_w as u64) as u32 } else { self.width };
        let y_end: u32 = if y as u64 + src_h as u64 <= self.height as u64 { (y as u64 + src_h as u64) as u32 } else { self.height };
        let shape = Shape::Image { x, y, src, width: src_w };
        proof {
            assert forall|a: int, b: int| x <= a < x_end && y <= b < y_end implies #[trigger] shape.ok_at(a, b) by {
                let rows = y_end - y;
                let cols = x_end - x;
                assert((b - y) * src_w <= (rows - 1) * src_w) by (nonlinear_arith)
                    requires b - y <= rows - 1, src_w >= 0;
            }
        }
        self.paint_box(x, x_end, y, y_end, &shape, true);
        proof {
            lemma_paint_ext(
                v,
                |a: int, b: int| x <= a < x_end && y <= b < y_end && shape.hits(a, b),
                |a: int, b: int| x <= a < x + src_w && y <= b < y + src_h,
                |a: int, b: int| shape.color(a, b),
                image_colors(x as int, y as int, src@, src_w as int),
                true,
            );
        }
    }
}

/// The part of a `src_w` x `src_h` image drawn at `(x, y)` that lands on the
/// screen is backed by a source of `src_len` pixels.
pub open spec fn blit_fits(fb: FbView, x: int, y: int, src_len: int, src_w: int, src_h: int) -> bool {
    let x_end = if x + src_w <= fb.width { x + src_w } else { fb.width as int };
    let y_end = if y + src_h <= fb.height { y + src_h } else { fb.height as int };
    x_end <= x || y_end <= y || (y_end - y - 1) * src_w + (x_end - x) <= src_len
}

/// The glyph drawn for `ch`: its entry in the table for ASCII characters the
/// table holds, blank otherwise.
pub open spec fn glyph_of(glyphs: Seq<[u8; 16]>, ch: char) -> Seq<u8> {
    if (ch as int) < 128 && (ch as int) < glyphs.len() {
        glyphs[ch as int]@
    } else {
        Seq::new(16, |i: int| 0u8)
    }
}

/// The view after drawing `ch` with its top-left corner at `(x, y)`.
pub open spec fn char_drawn(
    v: FbView,
    glyphs: Seq<[u8; 16]>,
    x: int,
    y: int,
    ch: char,
    fg: Color,
    bg: Option<Color>,
) -> FbView {
    v.paint_with(glyph_hit(x, y, glyph_of(glyphs, ch), bg), glyph_colors(x, y, glyph_of(glyphs, ch), fg, bg), false)
}

/// The view after drawing `chars[k..]` from column `cx`: newlines are skipped,
/// and drawing stops once the next cell would not fit the width.
pub open spec fn text_drawn(
    v: FbView,
    glyphs: Seq<[u8; 16]>,
    chars: Seq<char>,
    k: int,
    cx: int,
    y: int,
    fg: Color,
    bg: Option<Color>,
) -> FbView
    decreases chars.len() - k,
{
    if k < 0 || k >= chars.len() {
        v
    } else if chars[k] == '\n' {
        text_drawn(v, glyphs, chars, k + 1, cx, y, fg, bg)
    } else {
        let drawn = char_drawn(v, glyphs, cx, y, chars[k], fg, bg);
        if cx + 16 > v.width {
            drawn
        } else {
            text_drawn(drawn, glyphs, chars, k + 1, cx + 8, y, fg, bg)
        }
    }
}

/// 8x16 bitmap font. The glyph table (one 16-row bitmap per ASCII code, the
/// leftmost pixel in the top bit) is passed to each call.
pub struct Font;

impl Font {
    /// Width of each character cell in pixels.
    pub const CHAR_W: u32 = 8;

    /// Height of each character cell in pixels.
    pub const CHAR_H: u32 = 16;

    /// Draw a single character with its top-left corner at `(x, y)`: set bits
    /// in `fg`, clear bits in `bg` when one is given.
    pub fn draw_char(
        fb: &mut Framebuffer,
        x: u32,
        y: u32,
        ch: char,
        fg: Color,
        bg: Option<Color>,
        glyphs: &[[u8; 16]],
    )
        requires
            old(fb)@.wf(),
            x + 7 <= u32::MAX,
            y + 15 <= u32::MAX,
        ensures
            final(fb)@ == char_drawn(old(fb)@, glyphs@, x as int, y as int, ch, fg, bg),
    {
        let code = ch as u32;
        let bits: [u8; 16] = if code < 128 && (code as usize) < glyphs.len() {
            glyphs[code as usize]
        } else {
            [0u8; 16]
        };
        assert(bits@ =~= glyph_of(glyphs@, ch));
        let ghost v = fb@;
        let x_end: u32 = if x as u64 + 8 <= fb.width as u64 { x + 8 } else { fb.width };
        let y_end: u32 = if y as u64 + 16 <= fb.height as u64 { y + 16 } else { fb.height };
        let shape = Shape::Glyph { x, y, bits, fg, bg };
        fb.paint_box(x, x_end, y, y_end, &shape, false);
        proof {
            lemma_paint_ext(
                v,
                |a: int, b: int| x <= a < x_end && y <= b < y_end && shape.hits(a, b),
                glyph_hit(x as int, y as int, glyph_of(glyphs@, ch), bg),
                |a: int, b: int| shape.color(a, b),
                glyph_colors(x as int, y as int, glyph_of(glyphs@, ch), fg, bg),
                false,
            );
        }
    }

    /// Draw a string starting at `(x, y)`, one cell per character; newlines are
    /// skipped and drawing stops at the right edge.
    pub fn draw_str(
        fb: &mut Framebuffer,
        x: u32,
        y: u32,
        s: &str,
        fg: Color,
        bg: Option<Color>,
        glyphs: &[[u8; 16]],
    )
        requires
            old(fb)@.wf(),
            x + 7 <= u32::MAX,
            y + 15 <= u32::MAX,
        ensures
            final(fb)@ == text_drawn(old(fb)@, glyphs@, s@, 0, x as int, y as int, fg, bg),
            final(fb)@.wf(),
    {
        let ghost target = text_drawn(fb@, glyphs@, s@, 0, x as int, y as int, fg, bg);
        let n = s.unicode_len();
        let mut cx: u64 = x as u64;
        let mut k: usize = 0;
        let mut done = false;
        while k < n && !done
            invariant
                n == s@.len(),
                k <= n,
                y + 15 <= u32::MAX,
                fb@.wf(),
                done ==> fb@ == target,
                !done ==> cx + 7 <= u32::MAX && target == text_drawn(fb@, glyphs@, s@, k as int, cx as int, y as int, fg, bg),
            decreases n - k,
        {
            let ch = s.get_char(k);
            if ch != '\n' {
                Self::draw_char(fb, cx as u32, y, ch, fg, bg, glyphs);
                cx = cx + 8;
                if cx + 8 > fb.width as u64 {
                    done = true;
                }
            }
            k = k + 1;
        }
    }

    /// Pixel width of a string: one cell per character.
    pub fn str_width(s: &str) -> (w: u32)
        requires
            s@.len() * 8 <= u32::MAX,
        ensures
            w == s@.len() * 8,
    {
        s.unicode_len() as u32 * Self::CHAR_W
    }
}

/// Reading a pixel back gives the color last written to it.
pub proof fn get_after_set(v: FbView, x: int, y: int, c: Color)
    requires
        v.holds(x, y),
    ensures
        v.put(x, y, packed(c)).color_at(x, y) == c,
{
    unpack_packed(c);
}

} // verus!
