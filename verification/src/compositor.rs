//! The kernel's software compositor: windows with their own backbuffers,
//! painted back to front onto the boot framebuffer in its pixel format.

use vstd::prelude::*;
use vstd::string::{StringSliceAdditionalSpecFns, StrSliceExecFns};
use crate::boot_info::{FrameBufferInfo, PixelFormat};
use crate::kgui::{Color, WindowId, blend, spec_blend};

verus! {

/// Window slots.
pub const MAX_WINDOWS: usize = 32;

/// A window: geometry, title bytes (zero padded), and a backbuffer of
/// `width * height` colors, row by row.
pub struct Window {
    pub id: WindowId,
    pub title: [u8; 64],
    pub x: i32,
    pub y: i32,
    pub width: i32,
    pub height: i32,
    pub visible: bool,
    pub backbuffer: Vec<Color>,
}

impl Window {
    /// The backbuffer holds exactly one color per pixel.
    pub open spec fn wf(&self) -> bool {
        0 <= self.width * self.height && self.backbuffer@.len() == self.width * self.height
    }
}

/// The compositor: the framebuffer's bytes and description, window slots,
/// and the next window id.
pub struct Compositor {
    pub buffer: Vec<u8>,
    pub info: FrameBufferInfo,
    pub windows: Vec<Option<Window>>,
    pub next_id: usize,
}

/// The four bytes a pixel of `c` is stored as (the first `bytes_per_pixel`
/// of them are used): red, green, blue in the format's order; for an
/// unknown format each channel goes to the byte its bit position names
/// (capped at the last byte), later channels winning.
pub open spec fn encode(c: Color, f: PixelFormat) -> Seq<u8> {
    match f {
        PixelFormat::Rgb => seq![c.r, c.g, c.b, 0u8],
        PixelFormat::Bgr => seq![c.b, c.g, c.r, 0u8],
        PixelFormat::U8 => seq![c.r, 0u8, 0u8, 0u8],
        PixelFormat::Unknown { red_position, green_position, blue_position } => seq![0u8, 0u8, 0u8, 0u8].update(
            cap3(red_position / 8),
            c.r,
        ).update(cap3(green_position / 8), c.g).update(cap3(blue_position / 8), c.b),
    }
}

pub open spec fn cap3(v: u8) -> int {
    if v < 3 { v as int } else { 3 }
}

/// Byte offset of pixel `(x, y)`.
pub open spec fn offset(info: FrameBufferInfo, x: int, y: int) -> int {
    (y * info.stride + x) * info.bytes_per_pixel
}

/// Pixel `(x, y)`'s bytes lie in a buffer of `len` bytes (and its index
/// fits in a `usize` on the way).
pub open spec fn px_fits(info: FrameBufferInfo, len: int, x: int, y: int) -> bool {
    &&& 0 <= x
    &&& 0 <= y
    &&& y * info.stride + x <= usize::MAX
    &&& offset(info, x, y) + info.bytes_per_pixel <= len
}

/// Pixel `(x, y)` is on the screen.
pub open spec fn on_screen(info: FrameBufferInfo, x: int, y: int) -> bool {
    0 <= x < info.width && 0 <= y < info.height
}

/// The buffer after storing `c` at pixel `(x, y)`.
pub open spec fn put(buf: Seq<u8>, info: FrameBufferInfo, x: int, y: int, c: Color) -> Seq<u8> {
    let o = offset(info, x, y);
    Seq::new(
        buf.len(),
        |i: int| if o <= i < o + info.bytes_per_pixel { encode(c, info.pixel_format)[i - o] } else { buf[i] },
    )
}

/// The color read back from pixel `(x, y)`: decoded for RGB and BGR
/// buffers, black off the screen or in other formats.
pub open spec fn get(buf: Seq<u8>, info: FrameBufferInfo, x: int, y: int) -> Color {
    let o = offset(info, x, y);
    let black = Color { r: 0, g: 0, b: 0, a: 255 };
    if !on_screen(info, x, y) {
        black
    } else {
        match info.pixel_format {
            PixelFormat::Rgb => Color { r: buf[o], g: buf[o + 1], b: buf[o + 2], a: 255 },
            PixelFormat::Bgr => Color { r: buf[o + 2], g: buf[o + 1], b: buf[o], a: 255 },
            _ => black,
        }
    }
}

/// The framebuffer description fits: at most 4 bytes per pixel, and its
/// dimensions are valid `i32` coordinates.
pub open spec fn info_ok(info: FrameBufferInfo) -> bool {
    info.bytes_per_pixel <= 4 && info.width <= i32::MAX && info.height <= i32::MAX
}

/// Every on-screen pixel's bytes lie in a buffer of `len` bytes.
pub open spec fn screen_fits(info: FrameBufferInfo, len: int) -> bool {
    forall|x: int, y: int| on_screen(info, x, y) ==> #[trigger] px_fits(info, len, x, y)
}

/// The buffer after filling the first `k` on-screen pixels (row by row)
/// with `c`.
pub open spec fn cleared(buf: Seq<u8>, info: FrameBufferInfo, c: Color, k: int) -> Seq<u8>
    decreases k,
{
    if k <= 0 || info.width == 0 {
        buf
    } else {
        let j = k - 1;
        put(cleared(buf, info, c, j), info, j % (info.width as int), j / (info.width as int), c)
    }
}

/// Local pixel `k` of window `w` (row by row) on the screen.
pub open spec fn win_x(w: Window, k: int) -> int {
    w.x + k % (w.width as int)
}

pub open spec fn win_y(w: Window, k: int) -> int {
    w.y + k / (w.width as int)
}

/// The buffer after the first `k` pixels of window `w` are painted: opaque
/// pixels are stored, translucent ones blended over what the screen shows,
/// transparent ones skipped.
pub open spec fn window_painted(buf: Seq<u8>, info: FrameBufferInfo, w: Window, k: int) -> Seq<u8>
    decreases k,
{
    if k <= 0 || w.width <= 0 {
        buf
    } else {
        let j = k - 1;
        let prev = window_painted(buf, info, w, j);
        let src = w.backbuffer@[j];
        let gx = win_x(w, j);
        let gy = win_y(w, j);
        if src.a == 255 {
            put(prev, info, gx, gy, src)
        } else if src.a != 0 {
            put(prev, info, gx, gy, spec_blend(src, get(prev, info, gx, gy)))
        } else {
            prev
        }
    }
}

/// Window `w` can be painted onto a buffer of `len` bytes: every pixel it
/// stores lies in the buffer, and a blended one can be read back there.
pub open spec fn window_fits(info: FrameBufferInfo, len: int, w: Window) -> bool {
    forall|k: int|
        0 <= k < w.width * w.height && (#[trigger] w.backbuffer@[k]).a != 0 ==> {
            let gx = win_x(w, k);
            let gy = win_y(w, k);
            &&& px_fits(info, len, gx, gy)
            &&& (w.backbuffer@[k].a != 255 && on_screen(info, gx, gy) && (info.pixel_format == PixelFormat::Rgb
                || info.pixel_format == PixelFormat::Bgr)) ==> offset(info, gx, gy) + 3 <= len
        }
}

/// The screen after rendering: cleared to dark gray, then every visible
/// window among the first `k` slots painted in slot order.
pub open spec fn rendered(buf: Seq<u8>, info: FrameBufferInfo, slots: Seq<Option<Window>>, k: int) -> Seq<u8>
    decreases k,
{
    if k <= 0 {
        cleared(buf, info, Color { r: 48, g: 48, b: 48, a: 255 }, info.width * info.height)
    } else {
        let prev = rendered(buf, info, slots, k - 1);
        match slots[k - 1] {
            Some(w) => if w.visible {
                window_painted(prev, info, w, w.width * w.height)
            } else {
                prev
            },
            None => prev,
        }
    }
}


/// The first empty slot at or after `i`, if any.
pub open spec fn first_free(slots: Seq<Option<Window>>, i: int) -> Option<int>
    decreases slots.len() - i,
{
    if i < 0 || i >= slots.len() {
        None
    } else if slots[i] is None {
        Some(i)
    } else {
        first_free(slots, i + 1)
    }
}

/// The first slot at or after `i` holding the window `id`, if any.
pub open spec fn slot_of(slots: Seq<Option<Window>>, id: WindowId, i: int) -> Option<int>
    decreases slots.len() - i,
{
    if i < 0 || i >= slots.len() {
        None
    } else if slots[i] matches Some(w) && w.id == id {
        Some(i)
    } else {
        slot_of(slots, id, i + 1)
    }
}

/// A title stored in 64 bytes: its first 63 bytes at most, zero padded.
pub open spec fn title_bytes(b: Seq<u8>) -> Seq<u8> {
    Seq::new(64, |i: int| if i < b.len() && i < 63 { b[i] } else { 0u8 })
}


/// Storing pixels never changes the buffer's length.
proof fn lemma_cleared_len(buf: Seq<u8>, info: FrameBufferInfo, c: Color, k: int)
    ensures
        cleared(buf, info, c, k).len() == buf.len(),
    decreases k,
{
    if k > 0 && info.width != 0 {
        lemma_cleared_len(buf, info, c, k - 1);
    }
}

proof fn lemma_painted_len(buf: Seq<u8>, info: FrameBufferInfo, w: Window, k: int)
    ensures
        window_painted(buf, info, w, k).len() == buf.len(),
    decreases k,
{
    if k > 0 && w.width > 0 {
        lemma_painted_len(buf, info, w, k - 1);
    }
}

/// `j` is row `j / w`, column `j % w` of rows `w` wide.
proof fn lemma_row_col(j: int, w: int, x: int, y: int)
    requires
        0 < w,
        0 <= x < w,
        0 <= y,
        j == y * w + x,
    ensures
        j % w == x,
        j / w == y,
{
    vstd::arithmetic::div_mod::lemma_fundamental_div_mod_converse(j, w, y, x);
}


/// Reading a pixel back gives the opaque color last stored there, in the
/// formats that can be read (RGB and BGR with at least 3 bytes per pixel).
pub proof fn get_after_put(buf: Seq<u8>, info: FrameBufferInfo, x: int, y: int, c: Color)
    requires
        on_screen(info, x, y),
        info.pixel_format == PixelFormat::Rgb || info.pixel_format == PixelFormat::Bgr,
        3 <= info.bytes_per_pixel <= 4,
        0 <= offset(info, x, y),
        offset(info, x, y) + info.bytes_per_pixel <= buf.len(),
        c.a == 255,
    ensures
        get(put(buf, info, x, y, c), info, x, y) == c,
{
}

/// The bytes of `c` in format `f`.
fn encode_exec(c: Color, f: PixelFormat) -> (b: [u8; 4])
    ensures
        b@ == encode(c, f),
{
    match f {
        PixelFormat::Rgb => [c.r, c.g, c.b, 0],
        PixelFormat::Bgr => [c.b, c.g, c.r, 0],
        PixelFormat::U8 => [c.r, 0, 0, 0],
        PixelFormat::Unknown { red_position, green_position, blue_position } => {
            let mut pixel = [0u8; 4];
            let ri = if red_position / 8 < 3 { (red_position / 8) as usize } else { 3 };
            let gi = if green_position / 8 < 3 { (green_position / 8) as usize } else { 3 };
            let bi = if blue_position / 8 < 3 { (blue_position / 8) as usize } else { 3 };
            pixel[ri] = c.r;
            pixel[gi] = c.g;
            pixel[bi] = c.b;
            assert(pixel@ =~= encode(c, f));
            pixel
        },
    }
}

impl Compositor {
    /// A compositor over a framebuffer, with no windows.
    pub fn new(buffer: Vec<u8>, info: FrameBufferInfo) -> (c: Compositor)
        ensures
            c.buffer@ == buffer@,
            c.info == info,
            c.windows@.len() == MAX_WINDOWS,
            forall|i: int| 0 <= i < MAX_WINDOWS ==> #[trigger] c.windows@[i] is None,
            c.next_id == 1,
    {
        let mut windows: Vec<Option<Window>> = Vec::new();
        let mut i: usize = 0;
        while i < MAX_WINDOWS
            invariant
                i <= MAX_WINDOWS,
                windows@.len() == i,
                forall|j: int| 0 <= j < i ==> #[trigger] windows@[j] is None,
            decreases MAX_WINDOWS - i,
        {
            windows.push(None);
            i = i + 1;
        }
        Compositor { buffer, info, windows, next_id: 1 }
    }


    /// The slot of the window `id`, if it exists (the first one holding it).
    pub fn find_window(&self, id: WindowId) -> (r: Option<usize>)
        ensures
            r == match slot_of(self.windows@, id, 0) {
                Some(i) => Some(i as usize),
                None => None::<usize>,
            },
    {
        let mut i: usize = 0;
        while i < self.windows.len()
            invariant
                i <= self.windows@.len(),
                slot_of(self.windows@, id, 0) == slot_of(self.windows@, id, i as int),
            decreases self.windows.len() - i,
        {
            match &self.windows[i] {
                Some(w) => {
                    if w.id == id {
                        return Some(i);
                    }
                },
                None => {},
            }
            i = i + 1;
        }
        None
    }

    /// Create a window in the first empty slot, its backbuffer all white;
    /// returns its id.
    pub fn create_window(&mut self, title: &str, x: i32, y: i32, width: i32, height: i32) -> (id: WindowId)
        requires
            old(self).next_id < usize::MAX,
            0 <= width * height <= i32::MAX,
            first_free(old(self).windows@, 0) is Some,
        ensures
            id == WindowId(old(self).next_id),
            final(self).next_id == old(self).next_id + 1,
            final(self).buffer == old(self).buffer,
            final(self).info == old(self).info,
            ({
                let s = first_free(old(self).windows@, 0)->0;
                &&& final(self).windows@.len() == old(self).windows@.len()
                &&& forall|i: int| 0 <= i < old(self).windows@.len() && i != s ==> #[trigger] final(self).windows@[i]
                    == old(self).windows@[i]
                &&& final(self).windows@[s] matches Some(w) && {
                    &&& w.id == id
                    &&& w.title@ == title_bytes(title.spec_bytes())
                    &&& w.x == x && w.y == y && w.width == width && w.height == height
                    &&& w.visible
                    &&& w.backbuffer@ == Seq::new((width * height) as nat, |k: int| Color { r: 255, g: 255, b: 255, a: 255 })
                }
            }),
    {
        let id = WindowId(self.next_id);
        self.next_id = self.next_id + 1;
        let pixel_count = (width * height) as usize;
        let mut backbuffer: Vec<Color> = Vec::new();
        let mut k: usize = 0;
        while k < pixel_count
            invariant
                k <= pixel_count,
                backbuffer@.len() == k,
                forall|j: int| 0 <= j < k ==> #[trigger] backbuffer@[j] == (Color { r: 255, g: 255, b: 255, a: 255 }),
            decreases pixel_count - k,
        {
            backbuffer.push(Color::white());
            k = k + 1;
        }
        let bytes = title.as_bytes_vec();
        let len = if bytes.len() < 63 { bytes.len() } else { 63 };
        let mut title_buf = [0u8; 64];
        let mut i: usize = 0;
        while i < len
            invariant
                i <= len <= 63,
                len <= bytes@.len(),
                len == bytes@.len() || len == 63,
                forall|j: int| 0 <= j < 64 ==> #[trigger] title_buf@[j] == if j < i { bytes@[j] } else { 0u8 },
            decreases len - i,
        {
            title_buf[i] = bytes[i];
            i = i + 1;
        }
        assert(title_buf@ =~= title_bytes(bytes@));
        let mut s: usize = 0;
        while s < self.windows.len()
            invariant
                s <= self.windows@.len(),
                self.windows@ == old(self).windows@,
                first_free(old(self).windows@, 0) == first_free(old(self).windows@, s as int),
                first_free(old(self).windows@, 0) is Some,
            ensures
                s < self.windows@.len(),
                self.windows@ == old(self).windows@,
                first_free(old(self).windows@, 0) == Some(s as int),
            decreases self.windows.len() - s,
        {
            if self.windows[s].is_none() {
                break;
            }
            s = s + 1;
        }
        assert(backbuffer@ =~= Seq::new((width * height) as nat, |k: int| Color { r: 255, g: 255, b: 255, a: 255 }));
        let w = Window { id, title: title_buf, x, y, width, height, visible: true, backbuffer };
        self.windows.set(s, Some(w));
        id
    }


    /// Fill every on-screen pixel with `color`, row by row.
    fn clear(&mut self, color: Color)
        requires
            info_ok(old(self).info),
            screen_fits(old(self).info, old(self).buffer@.len() as int),
        ensures
            final(self).buffer@ == cleared(old(self).buffer@, old(self).info, color, old(self).info.width * old(self).info.height),
            final(self).info == old(self).info,
            final(self).windows == old(self).windows,
            final(self).next_id == old(self).next_id,
    {
        let info = self.info;
        let ghost b0 = self.buffer@;
        let mut y: usize = 0;
        while y < info.height
            invariant
                y <= info.height,
                info == old(self).info,
                info_ok(info),
                screen_fits(info, self.buffer@.len() as int),
                self.buffer@.len() == b0.len(),
                b0 == old(self).buffer@,
                self.windows == old(self).windows,
                self.next_id == old(self).next_id,
                self.info == info,
                self.buffer@ == cleared(b0, info, color, y * info.width),
            decreases info.height - y,
        {
            let mut x: usize = 0;
            while x < info.width
                invariant
                    x <= info.width,
                    y < info.height,
                    info == old(self).info,
                    info_ok(info),
                    screen_fits(info, self.buffer@.len() as int),
                    self.buffer@.len() == b0.len(),
                    self.windows == old(self).windows,
                    self.next_id == old(self).next_id,
                    self.info == info,
                    self.buffer@ == cleared(b0, info, color, y * info.width + x),
                decreases info.width - x,
            {
                proof {
                    lemma_row_col(y * info.width + x, info.width as int, x as int, y as int);
                    assert(on_screen(info, x as int, y as int));
                    assert(px_fits(info, self.buffer@.len() as int, x as int, y as int));
                }
                self.write_pixel(x as i32, y as i32, color);
                x = x + 1;
            }
            assert(y * info.width + info.width == (y + 1) * info.width) by (nonlinear_arith);
            y = y + 1;
        }
        assert(info.height * info.width == info.width * info.height) by (nonlinear_arith);
    }

    /// Paint a window's pixels onto the screen (see `window_painted`).
    fn draw_window(&mut self, window: &Window)
        requires
            info_ok(old(self).info),
            window.wf(),
            window.width * window.height <= i32::MAX,
            window.x + window.width <= i32::MAX,
            window.y + window.height <= i32::MAX,
            window_fits(old(self).info, old(self).buffer@.len() as int, *window),
        ensures
            final(self).buffer@ == window_painted(old(self).buffer@, old(self).info, *window, window.width * window.height),
            final(self).info == old(self).info,
            final(self).windows == old(self).windows,
            final(self).next_id == old(self).next_id,
    {
        let ghost b0 = self.buffer@;
        let ghost n = window.width * window.height;
        if window.width <= 0 || window.height <= 0 {
            assert(window_painted(b0, self.info, *window, n) == b0) by {
                if window.width > 0 {
                    assert(window.height <= 0);
                    assert(n <= 0) by (nonlinear_arith)
                        requires window.width > 0, window.height <= 0, n == window.width * window.height;
                }
            }
            return;
        }
        let mut local_y: i32 = 0;
        while local_y < window.height
            invariant
                0 < window.width,
                0 <= local_y <= window.height,
                window.wf(),
                window.width * window.height <= i32::MAX,
                window.x + window.width <= i32::MAX,
                window.y + window.height <= i32::MAX,
                info_ok(self.info),
                self.info == old(self).info,
                self.windows == old(self).windows,
                self.next_id == old(self).next_id,
                self.buffer@.len() == b0.len(),
                b0 == old(self).buffer@,
                window_fits(self.info, b0.len() as int, *window),
                self.buffer@ == window_painted(b0, self.info, *window, local_y * window.width),
            decreases window.height - local_y,
        {
            let mut local_x: i32 = 0;
            while local_x < window.width
                invariant
                    0 < window.width,
                    0 <= local_x <= window.width,
                    0 <= local_y < window.height,
                    window.wf(),
                    window.width * window.height <= i32::MAX,
                    window.x + window.width <= i32::MAX,
                    window.y + window.height <= i32::MAX,
                    info_ok(self.info),
                    self.info == old(self).info,
                    self.windows == old(self).windows,
                    self.next_id == old(self).next_id,
                    self.buffer@.len() == b0.len(),
                    window_fits(self.info, b0.len() as int, *window),
                    self.buffer@ == window_painted(b0, self.info, *window, local_y * window.width + local_x),
                decreases window.width - local_x,
            {
                let ghost k = local_y * window.width + local_x;
                proof {
                    lemma_row_col(k, window.width as int, local_x as int, local_y as int);
                    assert(k < window.width * window.height) by (nonlinear_arith)
                        requires k == local_y * window.width + local_x, local_x < window.width, local_y < window.height, 0 <= local_x;
                    assert(0 <= k) by (nonlinear_arith)
                        requires k == local_y * window.width + local_x, 0 <= local_x, 0 <= local_y, 0 < window.width;
                }
                let idx = (local_y * window.width + local_x) as usize;
                let src = window.backbuffer[idx];
                let global_x = window.x + local_x;
                let global_y = window.y + local_y;
                if src.a == 255 {
                    self.write_pixel_unchecked(global_x, global_y, src);
                } else if src.a != 0 {
                    let dst = self.read_pixel(global_x, global_y);
                    self.write_pixel_unchecked(global_x, global_y, blend(src, dst));
                }
                local_x = local_x + 1;
            }
            assert(local_y * window.width + window.width == (local_y + 1) * window.width) by (nonlinear_arith);
            local_y = local_y + 1;
        }
        assert(window.height * window.width == window.width * window.height) by (nonlinear_arith);
    }

    /// Paint the scene: the screen cleared to dark gray, then every visible
    /// window, slot by slot.
    pub fn render(&mut self)
        requires
            info_ok(old(self).info),
            screen_fits(old(self).info, old(self).buffer@.len() as int),
            forall|i: int|
                0 <= i < old(self).windows@.len() ==> (#[trigger] old(self).windows@[i] matches Some(w) ==> w.visible ==> {
                    &&& w.wf()
                    &&& w.width * w.height <= i32::MAX
                    &&& w.x + w.width <= i32::MAX
                    &&& w.y + w.height <= i32::MAX
                    &&& window_fits(old(self).info, old(self).buffer@.len() as int, w)
                }),
        ensures
            final(self).buffer@ == rendered(old(self).buffer@, old(self).info, old(self).windows@, old(self).windows@.len() as int),
            final(self).info == old(self).info,
            final(self).windows@ == old(self).windows@,
            final(self).next_id == old(self).next_id,
    {
        self.clear(Color::dark_gray());
        proof {
            lemma_cleared_len(old(self).buffer@, old(self).info, Color { r: 48, g: 48, b: 48, a: 255 }, old(self).info.width * old(self).info.height);
        }
        let n = self.windows.len();
        let mut i: usize = 0;
        while i < n
            invariant
                i <= n,
                n == old(self).windows@.len(),
                self.windows@ == old(self).windows@,
                self.info == old(self).info,
                self.next_id == old(self).next_id,
                self.buffer@.len() == old(self).buffer@.len(),
                info_ok(self.info),
                forall|j: int|
                    0 <= j < old(self).windows@.len() ==> (#[trigger] old(self).windows@[j] matches Some(w) ==> w.visible ==> {
                        &&& w.wf()
                        &&& w.width * w.height <= i32::MAX
                        &&& w.x + w.width <= i32::MAX
                        &&& w.y + w.height <= i32::MAX
                        &&& window_fits(old(self).info, old(self).buffer@.len() as int, w)
                    }),
                self.buffer@ == rendered(old(self).buffer@, old(self).info, old(self).windows@, i as int),
            decreases n - i,
        {
            let visible = match &self.windows[i] {
                Some(w) => w.visible,
                None => false,
            };
            if visible {
                let window = self.windows.remove(i);
                match &window {
                    Some(w) => {
                        assert(self.buffer@.len() == old(self).buffer@.len());
                        let ghost before = self.buffer@;
                        self.draw_window(w);
                        proof {
                            lemma_painted_len(before, self.info, *w, w.width * w.height);
                        }
                    },
                    None => {},
                }
                self.windows.insert(i, window);
                assert(self.windows@ =~= old(self).windows@);
            }
            i = i + 1;
        }
    }

    /// Store `color` at pixel `(x, y)` without checking it is on the screen.
    fn write_pixel_unchecked(&mut self, x: i32, y: i32, color: Color)
        requires
            old(self).info.bytes_per_pixel <= 4,
            px_fits(old(self).info, old(self).buffer@.len() as int, x as int, y as int),
        ensures
            final(self).buffer@ == put(old(self).buffer@, old(self).info, x as int, y as int, color),
            final(self).info == old(self).info,
            final(self).windows == old(self).windows,
            final(self).next_id == old(self).next_id,
    {
        let bpp = self.info.bytes_per_pixel;
        let stride = self.info.stride;
        let n = self.buffer.len();
        assert((y as int * stride + x as int) * bpp + bpp <= n);
        assert(0 <= y as int * stride) by (nonlinear_arith)
            requires 0 <= y, 0 <= stride;
        assert(y as int * stride + x as int <= (y as int * stride + x as int) * bpp || bpp == 0) by (nonlinear_arith)
            requires 0 <= y as int * stride + x as int, 0 <= bpp;
        let row = y as usize * stride;
        let off = (row + x as usize) * bpp;
        let bytes = encode_exec(color, self.info.pixel_format);
        let ghost b0 = self.buffer@;
        let mut i: usize = 0;
        while i < bpp
            invariant
                i <= bpp <= 4,
                off + bpp <= n,
                n == b0.len(),
                self.buffer@.len() == n,
                off == offset(self.info, x as int, y as int),
                bytes@ == encode(color, self.info.pixel_format),
                self.info == old(self).info,
                self.windows == old(self).windows,
                self.next_id == old(self).next_id,
                b0 == old(self).buffer@,
                forall|k: int|
                    0 <= k < n ==> #[trigger] self.buffer@[k] == if off <= k < off + i { bytes@[k - off] } else { b0[k] },
            decreases bpp - i,
        {
            self.buffer.set(off + i, bytes[i]);
            i = i + 1;
        }
        assert(self.buffer@ =~= put(b0, self.info, x as int, y as int, color));
    }

    /// Store `color` at pixel `(x, y)`; off-screen pixels are ignored.
    fn write_pixel(&mut self, x: i32, y: i32, color: Color)
        requires
            info_ok(old(self).info),
            on_screen(old(self).info, x as int, y as int) ==> px_fits(old(self).info, old(self).buffer@.len() as int, x as int, y as int),
        ensures
            final(self).buffer@ == if on_screen(old(self).info, x as int, y as int) {
                put(old(self).buffer@, old(self).info, x as int, y as int, color)
            } else {
                old(self).buffer@
            },
            final(self).info == old(self).info,
            final(self).windows == old(self).windows,
            final(self).next_id == old(self).next_id,
    {
        if x < 0 || y < 0 || x >= self.info.width as i32 || y >= self.info.height as i32 {
            return;
        }
        self.write_pixel_unchecked(x, y, color);
    }

    /// The color shown at pixel `(x, y)` (see `get`).
    fn read_pixel(&self, x: i32, y: i32) -> (c: Color)
        requires
            info_ok(self.info),
            on_screen(self.info, x as int, y as int) && (self.info.pixel_format == PixelFormat::Rgb
                || self.info.pixel_format == PixelFormat::Bgr) ==> px_fits(self.info, self.buffer@.len() as int, x as int, y as int)
                && offset(self.info, x as int, y as int) + 3 <= self.buffer@.len(),
        ensures
            c == get(self.buffer@, self.info, x as int, y as int),
    {
        if x < 0 || y < 0 || x >= self.info.width as i32 || y >= self.info.height as i32 {
            return Color::black();
        }
        let bpp = self.info.bytes_per_pixel;
        let stride = self.info.stride;
        match self.info.pixel_format {
            PixelFormat::Rgb => {
                let n = self.buffer.len();
                assert(0 <= y as int * stride) by (nonlinear_arith)
                    requires 0 <= y, 0 <= stride;
                assert(y as int * stride + x as int <= (y as int * stride + x as int) * bpp || bpp == 0) by (nonlinear_arith)
                    requires 0 <= y as int * stride + x as int, 0 <= bpp;
                let off = (y as usize * stride + x as usize) * bpp;
                Color::new(self.buffer[off], self.buffer[off + 1], self.buffer[off + 2])
            },
            PixelFormat::Bgr => {
                let n = self.buffer.len();
                assert(0 <= y as int * stride) by (nonlinear_arith)
                    requires 0 <= y, 0 <= stride;
                assert(y as int * stride + x as int <= (y as int * stride + x as int) * bpp || bpp == 0) by (nonlinear_arith)
                    requires 0 <= y as int * stride + x as int, 0 <= bpp;
                let off = (y as usize * stride + x as usize) * bpp;
                Color::new(self.buffer[off + 2], self.buffer[off + 1], self.buffer[off])
            },
            _ => Color::black(),
        }
    }
}

} // verus!
