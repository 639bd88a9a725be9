//! Color types and pixel format definitions for the GUI framework.

use vstd::prelude::*;

verus! {

/// RGBA color with 8-bit channels.
#[derive(Clone, Copy, Debug, PartialEq, Eq, Structural)]
pub struct Color {
    pub r: u8,
    pub g: u8,
    pub b: u8,
    pub a: u8,
}

/// 0xRRGGBBAA packing of a color.
pub open spec fn packed(c: Color) -> u32 {
    (c.r as int * 0x100_0000 + c.g as int * 0x1_0000 + c.b as int * 0x100 + c.a as int) as u32
}

/// The color stored in a 0xRRGGBBAA pixel.
pub open spec fn unpacked(v: u32) -> Color {
    Color {
        r: ((v >> 24u32) & 0xFFu32) as u8,
        g: ((v >> 16u32) & 0xFFu32) as u8,
        b: ((v >> 8u32) & 0xFFu32) as u8,
        a: (v & 0xFFu32) as u8,
    }
}

/// Porter-Duff source-over of `src` on `dst`.
pub open spec fn spec_blend_over(src: Color, dst: Color) -> Color {
    let sa = src.a as int;
    let da = dst.a as int;
    let out_a = sa + (da * (255 - sa)) / 255;
    if src.a == 0 {
        dst
    } else if src.a == 255 {
        src
    } else {
        Color {
            r: ((src.r * sa + dst.r * da * (255 - sa) / 255) / out_a) as u8,
            g: ((src.g * sa + dst.g * da * (255 - sa) / 255) / out_a) as u8,
            b: ((src.b * sa + dst.b * da * (255 - sa) / 255) / out_a) as u8,
            a: out_a as u8,
        }
    }
}

impl Color {
    // Named colors of the system palette.
    pub fn clear() -> (c: Color)
        ensures
            c == (Color { r: 0, g: 0, b: 0, a: 0 }),
    {
        Color { r: 0, g: 0, b: 0, a: 0 }
    }

    pub fn white() -> (c: Color)
        ensures
            c == (Color { r: 255, g: 255, b: 255, a: 255 }),
    {
        Color { r: 255, g: 255, b: 255, a: 255 }
    }

    pub fn black() -> (c: Color)
        ensures
            c == (Color { r: 0, g: 0, b: 0, a: 255 }),
    {
        Color { r: 0, g: 0, b: 0, a: 255 }
    }

    pub fn red() -> (c: Color)
        ensures
            c == (Color { r: 255, g: 59, b: 48, a: 255 }),
    {
        Color { r: 255, g: 59, b: 48, a: 255 }
    }

    pub fn orange() -> (c: Color)
        ensures
            c == (Color { r: 255, g: 149, b: 0, a: 255 }),
    {
        Color { r: 255, g: 149, b: 0, a: 255 }
    }

    pub fn yellow() -> (c: Color)
        ensures
            c == (Color { r: 255, g: 204, b: 0, a: 255 }),
    {
        Color { r: 255, g: 204, b: 0, a: 255 }
    }

    pub fn green() -> (c: Color)
        ensures
            c == (Color { r: 52, g: 199, b: 89, a: 255 }),
    {
        Color { r: 52, g: 199, b: 89, a: 255 }
    }

    pub fn teal() -> (c: Color)
        ensures
            c == (Color { r: 90, g: 200, b: 250, a: 255 }),
    {
        Color { r: 90, g: 200, b: 250, a: 255 }
    }

    pub fn blue() -> (c: Color)
        ensures
            c == (Color { r: 0, g: 122, b: 255, a: 255 }),
    {
        Color { r: 0, g: 122, b: 255, a: 255 }
    }

    pub fn light_blue() -> (c: Color)
        ensures
            c == (Color { r: 90, g: 200, b: 250, a: 255 }),
    {
        Color { r: 90, g: 200, b: 250, a: 255 }
    }

    pub fn purple() -> (c: Color)
        ensures
            c == (Color { r: 175, g: 82, b: 222, a: 255 }),
    {
        Color { r: 175, g: 82, b: 222, a: 255 }
    }

    pub fn pink() -> (c: Color)
        ensures
            c == (Color { r: 255, g: 45, b: 85, a: 255 }),
    {
        Color { r: 255, g: 45, b: 85, a: 255 }
    }

    pub fn gray() -> (c: Color)
        ensures
            c == (Color { r: 142, g: 142, b: 147, a: 255 }),
    {
        Color { r: 142, g: 142, b: 147, a: 255 }
    }

    pub fn light_gray() -> (c: Color)
        ensures
            c == (Color { r: 229, g: 229, b: 234, a: 255 }),
    {
        Color { r: 229, g: 229, b: 234, a: 255 }
    }

    pub fn dark_gray() -> (c: Color)
        ensures
            c == (Color { r: 99, g: 99, b: 102, a: 255 }),
    {
        Color { r: 99, g: 99, b: 102, a: 255 }
    }

    pub fn window_bg() -> (c: Color)
        ensures
            c == (Color { r: 236, g: 236, b: 236, a: 255 }),
    {
        Color { r: 236, g: 236, b: 236, a: 255 }
    }

    pub fn title_bar_bg() -> (c: Color)
        ensures
            c == (Color { r: 232, g: 232, b: 232, a: 255 }),
    {
        Color { r: 232, g: 232, b: 232, a: 255 }
    }

    pub fn menu_bar_bg() -> (c: Color)
        ensures
            c == (Color { r: 220, g: 220, b: 222, a: 230 }),
    {
        Color { r: 220, g: 220, b: 222, a: 230 }
    }

    pub fn desktop_bg() -> (c: Color)
        ensures
            c == (Color { r: 46, g: 46, b: 46, a: 255 }),
    {
        Color { r: 46, g: 46, b: 46, a: 255 }
    }

    pub fn accent() -> (c: Color)
        ensures
            c == (Color { r: 0, g: 122, b: 255, a: 255 }),
    {
        Color { r: 0, g: 122, b: 255, a: 255 }
    }


    pub fn rgb(r: u8, g: u8, b: u8) -> (c: Color)
        ensures
            c == (Color { r, g, b, a: 255 }),
    {
        Color { r, g, b, a: 255 }
    }

    pub fn rgba(r: u8, g: u8, b: u8, a: u8) -> (c: Color)
        ensures
            c == (Color { r, g, b, a }),
    {
        Color { r, g, b, a }
    }

    /// Convert to a packed 32-bit RGBA value (0xRRGGBBAA).
    pub fn to_u32(&self) -> (v: u32)
        ensures
            v == packed(*self),
    {
        let r = self.r as u32;
        let g = self.g as u32;
        let b = self.b as u32;
        let a = self.a as u32;
        let v = (r << 24) | (g << 16) | (b << 8) | a;
        assert(v == r * 0x100_0000 + g * 0x1_0000 + b * 0x100 + a) by (bit_vector)
            requires
                v == (r << 24u32) | (g << 16u32) | (b << 8u32) | a,
                r < 256,
                g < 256,
                b < 256,
                a < 256,
        ;
        v
    }

    /// Blend this color over another (Porter-Duff src-over).
    pub fn blend_over(&self, dst: &Color) -> (c: Color)
        ensures
            c == spec_blend_over(*self, *dst),
    {
        if self.a == 0 {
            return *dst;
        }
        if self.a == 255 {
            return *self;
        }
        let sa = self.a as u32;
        let da = dst.a as u32;
        assert(da * (255 - sa) <= 255 * 255) by (nonlinear_arith)
            requires da <= 255, sa <= 255;
        let out_a = sa + ((da * (255 - sa)) / 255);
        if out_a == 0 {
            return Color::clear();
        }
        assert(dst.r as u32 * da <= 255 * 255) by (nonlinear_arith)
            requires dst.r <= 255, da <= 255;
        assert(dst.r as u32 * da * (255 - sa) <= 255 * 255 * 255) by (nonlinear_arith)
            requires dst.r <= 255, da <= 255, sa <= 255;
        assert(dst.g as u32 * da <= 255 * 255) by (nonlinear_arith)
            requires dst.g <= 255, da <= 255;
        assert(dst.g as u32 * da * (255 - sa) <= 255 * 255 * 255) by (nonlinear_arith)
            requires dst.g <= 255, da <= 255, sa <= 255;
        assert(dst.b as u32 * da <= 255 * 255) by (nonlinear_arith)
            requires dst.b <= 255, da <= 255;
        assert(dst.b as u32 * da * (255 - sa) <= 255 * 255 * 255) by (nonlinear_arith)
            requires dst.b <= 255, da <= 255, sa <= 255;
        assert(self.r as u32 * sa <= 255 * 255) by (nonlinear_arith)
            requires self.r <= 255, sa <= 255;
        assert(self.g as u32 * sa <= 255 * 255) by (nonlinear_arith)
            requires self.g <= 255, sa <= 255;
        assert(self.b as u32 * sa <= 255 * 255) by (nonlinear_arith)
            requires self.b <= 255, sa <= 255;
        let r = ((self.r as u32 * sa + dst.r as u32 * da * (255 - sa) / 255) / out_a) as u8;
        let g = ((self.g as u32 * sa + dst.g as u32 * da * (255 - sa) / 255) / out_a) as u8;
        let b = ((self.b as u32 * sa + dst.b as u32 * da * (255 - sa) / 255) / out_a) as u8;
        Color { r, g, b, a: out_a as u8 }
    }

    /// With alpha override.
    pub fn with_alpha(&self, alpha: u8) -> (c: Color)
        ensures
            c == (Color { a: alpha, ..*self }),
    {
        Color { r: self.r, g: self.g, b: self.b, a: alpha }
    }
}

/// Reading back a packed color gives the color.
pub proof fn unpack_packed(c: Color)
    ensures
        unpacked(packed(c)) == c,
{
    let r = c.r as u32;
    let g = c.g as u32;
    let b = c.b as u32;
    let a = c.a as u32;
    let v = packed(c);
    assert(v == r * 0x100_0000 + g * 0x1_0000 + b * 0x100 + a);
    assert(((v >> 24u32) & 0xFFu32) == r && ((v >> 16u32) & 0xFFu32) == g && ((v >> 8u32) & 0xFFu32) == b
        && (v & 0xFFu32) == a) by (bit_vector)
        requires
            v == r * 0x100_0000 + g * 0x1_0000 + b * 0x100 + a,
            r < 256,
            g < 256,
            b < 256,
            a < 256,
    ;
}

/// Pixel format for framebuffer and surface buffers.
#[derive(Clone, Copy, Debug, PartialEq, Eq, Structural)]
pub enum PixelFormat {
    /// 32-bit RGBA, 1 byte per channel.
    RGBA32,
    /// 32-bit BGRA, 1 byte per channel (common on x86).
    BGRA32,
    /// 24-bit RGB, 1 byte per channel.
    RGB24,
}

impl PixelFormat {
    pub fn bytes_per_pixel(&self) -> (r: u32)
        ensures
            r == (if *self == PixelFormat::RGB24 { 3u32 } else { 4u32 }),
    {
        match self {
            PixelFormat::RGBA32 | PixelFormat::BGRA32 => 4,
            PixelFormat::RGB24 => 3,
        }
    }
}

} // verus!
