//! How the standard widgets draw themselves into a framebuffer.

use vstd::prelude::*;
use crate::gui::color::Color;
use crate::gui::drawing::{
    Font, Framebuffer, FbView, Rect, rect_hit, rounded_drawn, border_drawn, text_drawn, blit_fits, image_colors,
};
use crate::gui::layout::sat_sub;
use crate::gui::widget::{Button, ButtonState, Label, TextAlignment, TextField, Toggle, ImageView};

verus! {

fn sat_sub_u32(a: u32, b: u32) -> (r: u32)
    ensures
        r == sat_sub(a as int, b as int),
{
    if a >= b { a - b } else { 0 }
}

/// Where a label's text starts: 4 pixels in from the left or right edge, or
/// centered.
pub open spec fn label_text_x(align: TextAlignment, rect: Rect, text_w: int) -> int {
    match align {
        TextAlignment::Left => rect.x + 4,
        TextAlignment::Center => rect.x + sat_sub(rect.width as int, text_w) / 2,
        TextAlignment::Right => rect.x + sat_sub(rect.width as int, text_w + 4),
    }
}

/// A rounded rectangle's corner radius fits it, and its corners' coordinates
/// fit in `u32` (what `fill_rounded_rect` needs).
pub open spec fn rounded_fits(rect: Rect, radius: u32) -> bool {
    &&& rect.edges_fit()
    &&& 2 * radius <= rect.width
    &&& 2 * radius <= rect.height
    &&& radius + 1 <= rect.x + rect.width
    &&& radius + 1 <= rect.y + rect.height
    &&& rect.x + 2 * radius + 1 <= u32::MAX
    &&& rect.y + 2 * radius + 1 <= u32::MAX
    &&& 2 * radius * radius <= i32::MAX
}

/// The background a button shows for its state: its own color, `lighter`
/// when hovered, `darker` when pressed, gray when disabled.
pub open spec fn button_background(state: ButtonState, own: Color, lighter: Color, darker: Color) -> Color {
    match state {
        ButtonState::Normal => own,
        ButtonState::Hovered => lighter,
        ButtonState::Pressed => darker,
        ButtonState::Disabled => Color { r: 142, g: 142, b: 147, a: 255 },
    }
}

impl Button {
    /// The background for the current state, given the background color
    /// lightened and darkened (by 15%) for the hovered and pressed looks.
    pub fn background(&self, lighter: Color, darker: Color) -> (c: Color)
        ensures
            c == button_background(self.state, self.background_color, lighter, darker),
    {
        match self.state {
            ButtonState::Normal => self.background_color,
            ButtonState::Hovered => lighter,
            ButtonState::Pressed => darker,
            ButtonState::Disabled => Color::gray(),
        }
    }

    /// Draw the button over `rect`: a rounded background in `bg`, then the
    /// title centered on it.
    pub fn draw(&self, fb: &mut Framebuffer, rect: Rect, bg: Color, glyphs: &[[u8; 16]])
        requires
            old(fb)@.wf(),
            rounded_fits(rect, self.corner_radius),
            self.title@.len() * 8 <= u32::MAX,
            rect.x + rect.width + 7 <= u32::MAX,
            rect.y + rect.height + 15 <= u32::MAX,
        ensures
            final(fb)@ == text_drawn(
                rounded_drawn(old(fb)@, rect, self.corner_radius, bg),
                glyphs@,
                self.title@,
                0,
                rect.x + sat_sub(rect.width as int, (self.title@.len() * 8) as int) / 2,
                rect.y + sat_sub(rect.height as int, 16) / 2,
                self.title_color,
                None,
            ),
    {
        fb.fill_rounded_rect(rect, self.corner_radius, bg);
        let text_w = Font::str_width(self.title.as_str());
        let text_x = rect.x + sat_sub_u32(rect.width, text_w) / 2;
        let text_y = rect.y + sat_sub_u32(rect.height, Font::CHAR_H) / 2;
        Font::draw_str(fb, text_x, text_y, self.title.as_str(), self.title_color, None, glyphs);
    }
}

impl Label {
    /// Draw the label over `rect`: its background blended when it is not
    /// transparent, then its text aligned on row `rect.y + 4`.
    pub fn draw(&self, fb: &mut Framebuffer, rect: Rect, glyphs: &[[u8; 16]])
        requires
            old(fb)@.wf(),
            rect.edges_fit(),
            self.text@.len() * 8 + 4 <= u32::MAX,
            rect.x + rect.width + 11 <= u32::MAX,
            rect.y + 19 <= u32::MAX,
        ensures
            ({
                let v = if self.background_color.a > 0 {
                    old(fb)@.paint(rect_hit(rect), self.background_color, true)
                } else {
                    old(fb)@
                };
                final(fb)@ == text_drawn(
                    v,
                    glyphs@,
                    self.text@,
                    0,
                    label_text_x(self.alignment, rect, (self.text@.len() * 8) as int),
                    rect.y + 4,
                    self.text_color,
                    None,
                )
            }),
    {
        if self.background_color.a > 0 {
            fb.fill_rect_blend(rect, self.background_color);
        }
        let text_w = Font::str_width(self.text.as_str());
        let x = match self.alignment {
            TextAlignment::Left => rect.x + 4,
            TextAlignment::Center => rect.x + sat_sub_u32(rect.width, text_w) / 2,
            TextAlignment::Right => rect.x + sat_sub_u32(rect.width, text_w + 4),
        };
        Font::draw_str(fb, x, rect.y + 4, self.text.as_str(), self.text_color, None, glyphs);
    }
}

/// A text field's look: rounded background, border (2 pixels in the accent
/// color when focused, else 1 in its border color), its text (or the
/// placeholder in gray when empty), and when focused a 1-pixel black caret
/// after the first `cursor_pos` characters.
pub open spec fn text_field_drawn(f: TextField, v: FbView, rect: Rect, glyphs: Seq<[u8; 16]>) -> FbView {
    let accent = Color { r: 0, g: 122, b: 255, a: 255 };
    let gray = Color { r: 142, g: 142, b: 147, a: 255 };
    let black = Color { r: 0, g: 0, b: 0, a: 255 };
    let v1 = rounded_drawn(v, rect, 4, f.background_color);
    let v2 = if f.is_focused { border_drawn(v1, rect, accent, 2) } else { border_drawn(v1, rect, f.border_color, 1) };
    let empty = f.text@.len() == 0;
    let v3 = text_drawn(
        v2,
        glyphs,
        if empty { f.placeholder@ } else { f.text@ },
        0,
        rect.x + 6,
        rect.y + 4,
        if empty { gray } else { f.text_color },
        None,
    );
    if f.is_focused {
        let caret = Rect { x: (rect.x + 6 + 8 * f.cursor_pos) as u32, y: (rect.y + 4) as u32, width: 1, height: 16 };
        v3.paint(rect_hit(caret), black, false)
    } else {
        v3
    }
}

impl TextField {
    /// Draw the field over `rect` (see `text_field_drawn`).
    pub fn draw(&self, fb: &mut Framebuffer, rect: Rect, glyphs: &[[u8; 16]])
        requires
            old(fb)@.wf(),
            self.wf(),
            rounded_fits(rect, 4),
            rect.x + 6 + 8 * self.text@.len() + 8 <= u32::MAX,
            rect.x + 13 <= u32::MAX,
            rect.y + 20 + 16 <= u32::MAX,
        ensures
            final(fb)@ == text_field_drawn(*self, old(fb)@, rect, glyphs@),
    {
        fb.fill_rounded_rect(rect, 4, self.background_color);
        if self.is_focused {
            fb.draw_border(rect, Color::accent(), 2);
        } else {
            fb.draw_border(rect, self.border_color, 1);
        }
        let empty = self.text.as_str().is_empty();
        let display = if empty { self.placeholder.as_str() } else { self.text.as_str() };
        let color = if empty { Color::gray() } else { self.text_color };
        Font::draw_str(fb, rect.x + 6, rect.y + 4, display, color, None, glyphs);
        if self.is_focused {
            let cursor_x = rect.x + 6 + (self.cursor_pos as u32) * Font::CHAR_W;
            fb.fill_rect(Rect::new(cursor_x, rect.y + 4, 1, Font::CHAR_H), Color::black());
        }
    }
}

impl Toggle {
    /// Draw the toggle over `rect`: a 16-pixel rounded box (on or off color)
    /// centered vertically at the left, a check mark in it when on, and the
    /// title in black after it.
    pub fn draw(&self, fb: &mut Framebuffer, rect: Rect, glyphs: &[[u8; 16]])
        requires
            old(fb)@.wf(),
            16 <= rect.height,
            rect.edges_fit(),
            5 <= rect.x + 16,
            5 <= rect.y + rect.height,
            rect.x + 16 + 6 + 7 <= u32::MAX,
            rect.y + rect.height + 16 <= u32::MAX,
        ensures
            ({
                let bx = Rect { x: rect.x, y: (rect.y + (rect.height - 16) / 2) as u32, width: 16, height: 16 };
                let v1 = rounded_drawn(old(fb)@, bx, 4, if self.is_on { self.on_color } else { self.off_color });
                let v2 = if self.is_on {
                    text_drawn(v1, glyphs@, "\u{2713}"@, 0, bx.x + 2, bx.y + 1, Color { r: 255, g: 255, b: 255, a: 255 }, None)
                } else {
                    v1
                };
                final(fb)@ == text_drawn(v2, glyphs@, self.title@, 0, rect.x + 22, rect.y + 4, Color { r: 0, g: 0, b: 0, a: 255 }, None)
            }),
    {
        let box_size = 16u32;
        let box_rect = Rect::new(rect.x, rect.y + (rect.height - box_size) / 2, box_size, box_size);
        let color = if self.is_on { self.on_color } else { self.off_color };
        fb.fill_rounded_rect(box_rect, 4, color);
        if self.is_on {
            Font::draw_str(fb, box_rect.x + 2, box_rect.y + 1, "\u{2713}", Color::white(), None, glyphs);
        }
        Font::draw_str(fb, rect.x + box_size + 6, rect.y + 4, self.title.as_str(), Color::black(), None, glyphs);
    }
}

impl ImageView {
    /// Draw the view over `rect`: its background blended when not
    /// transparent, then its image (if any) blitted at the top-left corner.
    pub fn draw(&self, fb: &mut Framebuffer, rect: Rect)
        requires
            old(fb)@.wf(),
            rect.edges_fit(),
            self.pixels matches Some(p) ==> blit_fits(
                old(fb)@,
                rect.x as int,
                rect.y as int,
                p@.len() as int,
                self.image_width as int,
                self.image_height as int,
            ),
        ensures
            ({
                let v = if self.background_color.a > 0 {
                    old(fb)@.paint(rect_hit(rect), self.background_color, true)
                } else {
                    old(fb)@
                };
                final(fb)@ == match self.pixels {
                    Some(p) => v.paint_with(
                        |a: int, b: int| rect.x <= a < rect.x + self.image_width && rect.y <= b < rect.y + self.image_height,
                        image_colors(rect.x as int, rect.y as int, p@, self.image_width as int),
                        true,
                    ),
                    None => v,
                }
            }),
    {
        if self.background_color.a > 0 {
            fb.fill_rect_blend(rect, self.background_color);
        }
        match &self.pixels {
            Some(pixels) => fb.blit(rect.x, rect.y, pixels.as_slice(), self.image_width, self.image_height),
            None => {},
        }
    }
}

} // verus!
