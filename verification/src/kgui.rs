//! Kernel compositor colors (straight 8-bit RGBA) and window handles.

use vstd::prelude::*;

verus! {

#[derive(Clone, Copy, Debug, Default, PartialEq, Eq, Structural)]
pub struct Color {
    pub r: u8,
    pub g: u8,
    pub b: u8,
    pub a: u8,
}

impl Color {
    /// An opaque color.
    pub fn new(r: u8, g: u8, b: u8) -> (c: Color)
        ensures
            c == (Color { r, g, b, a: 0xFF }),
    {
        Color { r, g, b, a: 0xFF }
    }

    pub fn with_alpha(r: u8, g: u8, b: u8, a: u8) -> (c: Color)
        ensures
            c == (Color { r, g, b, a }),
    {
        Color { r, g, b, a }
    }

    pub fn black() -> (c: Color)
        ensures
            c == (Color { r: 0, g: 0, b: 0, a: 255 }),
    {
        Color::new(0, 0, 0)
    }

    pub fn white() -> (c: Color)
        ensures
            c == (Color { r: 255, g: 255, b: 255, a: 255 }),
    {
        Color::new(255, 255, 255)
    }

    pub fn red() -> (c: Color)
        ensures
            c == (Color { r: 255, g: 0, b: 0, a: 255 }),
    {
        Color::new(255, 0, 0)
    }

    pub fn green() -> (c: Color)
        ensures
            c == (Color { r: 0, g: 255, b: 0, a: 255 }),
    {
        Color::new(0, 255, 0)
    }

    pub fn blue() -> (c: Color)
        ensures
            c == (Color { r: 0, g: 0, b: 255, a: 255 }),
    {
        Color::new(0, 0, 255)
    }

    pub fn teal() -> (c: Color)
        ensures
            c == (Color { r: 0, g: 128, b: 128, a: 255 }),
    {
        Color::new(0, 128, 128)
    }

    pub fn gray() -> (c: Color)
        ensures
            c == (Color { r: 128, g: 128, b: 128, a: 255 }),
    {
        Color::new(128, 128, 128)
    }

    pub fn dark_gray() -> (c: Color)
        ensures
            c == (Color { r: 48, g: 48, b: 48, a: 255 }),
    {
        Color::new(48, 48, 48)
    }
}

/// One channel of a premultiplied source `s` over `d`, where the source
/// covers `sa` / 255 of the pixel: `s + d * (255 - sa) / 255`, capped at
/// 255 (a source channel above its alpha is not premultiplied).
pub open spec fn mix(s: u8, d: u8, sa: u8) -> u8 {
    let v = s + (d * (255 - sa)) / 255;
    if v > 255 { 255u8 } else { v as u8 }
}

/// Premultiplied `src` over `dst`, every channel alike (alpha included):
/// an opaque source wins outright and a fully transparent one leaves `dst`.
pub open spec fn spec_blend(src: Color, dst: Color) -> Color {
    if src.a == 255 {
        src
    } else if src.a == 0 {
        dst
    } else {
        Color {
            r: mix(src.r, dst.r, src.a),
            g: mix(src.g, dst.g, src.a),
            b: mix(src.b, dst.b, src.a),
            a: mix(src.a, dst.a, src.a),
        }
    }
}

/// One channel of a premultiplied source over a destination.
fn mix_channel(s: u8, d: u8, sa: u8) -> (r: u8)
    ensures
        r == mix(s, d, sa),
{
    let inv = 255 - sa as u16;
    assert(d as u16 * inv <= 255 * 255) by (nonlinear_arith)
        requires d <= 255, inv <= 255;
    let v = s as u16 + (d as u16 * inv) / 255;
    if v > 255 { 255 } else { v as u8 }
}

/// Blend `src` over `dst`, the source's channels premultiplied by its alpha.
pub fn blend(src: Color, dst: Color) -> (c: Color)
    ensures
        c == spec_blend(src, dst),
{
    if src.a == 255 {
        return src;
    }
    if src.a == 0 {
        return dst;
    }
    Color::with_alpha(
        mix_channel(src.r, dst.r, src.a),
        mix_channel(src.g, dst.g, src.a),
        mix_channel(src.b, dst.b, src.a),
        mix_channel(src.a, dst.a, src.a),
    )
}

/// A properly premultiplied source (no channel above its alpha) over any
/// color never overflows a channel: each result channel is the source's
/// plus the uncovered share of the destination's, exactly.
pub proof fn blend_premultiplied_exact(src: Color, dst: Color)
    requires
        src.r <= src.a && src.g <= src.a && src.b <= src.a,
        0 < src.a < 255,
    ensures
        spec_blend(src, dst).r == src.r + (dst.r * (255 - src.a)) / 255,
        spec_blend(src, dst).g == src.g + (dst.g * (255 - src.a)) / 255,
        spec_blend(src, dst).b == src.b + (dst.b * (255 - src.a)) / 255,
        spec_blend(src, dst).a == src.a + (dst.a * (255 - src.a)) / 255,
{
    lemma_mix_fits(src.r, dst.r, src.a);
    lemma_mix_fits(src.g, dst.g, src.a);
    lemma_mix_fits(src.b, dst.b, src.a);
    lemma_mix_fits(src.a, dst.a, src.a);
}

proof fn lemma_mix_fits(s: u8, d: u8, sa: u8)
    requires
        s <= sa,
    ensures
        s + (d * (255 - sa)) / 255 <= 255,
{
    assert(d * (255 - sa) <= 255 * (255 - sa)) by (nonlinear_arith)
        requires d <= 255, sa <= 255;
    assert((d * (255 - sa)) / 255 <= 255 - sa) by (nonlinear_arith)
        requires d * (255 - sa) <= 255 * (255 - sa), sa <= 255;
}

/// Opaque window handle.
#[derive(Clone, Copy, Debug, PartialEq, Eq, Structural)]
pub struct WindowId(pub usize);

} // verus!
