//! Top-level windows: their chrome (title bar and traffic-light buttons) and
//! how title-bar clicks are handled before events reach the content view.
//!
//! The content view and the delegate are user-supplied objects; they stay
//! with the application, which routes to the content view every event the
//! window itself does not consume.

use vstd::prelude::*;
use crate::gui::color::Color;
use crate::gui::drawing::{Rect, Framebuffer, Font, FbView, disk_hit, text_drawn};
use crate::gui::event::{InputEvent, MouseEvent};

verus! {

/// Window style determines chrome appearance.
#[derive(Clone, Copy, Debug, PartialEq, Eq, Structural)]
pub enum WindowStyle {
    /// Standard window with title bar, traffic lights, and resize.
    Titled,
    /// Borderless utility panel.
    Borderless,
    /// Modal dialog with close button only.
    Modal,
    /// Panel/sidebar style.
    Panel,
}

/// A top-level window.
pub struct Window {
    /// Unique window ID (assigned by the window server).
    pub id: u32,
    /// Position and size.
    pub frame: Rect,
    pub style: WindowStyle,
    pub title: String,
    pub visible: bool,
    pub minimized: bool,
    pub maximized: bool,
    /// The window needs redrawing.
    pub needs_redraw: bool,
    pub title_bar_height: u32,
    pub background_color: Color,
    /// Focused view ID (for keyboard routing).
    pub focused_view_id: Option<u64>,
    /// The title bar is being dragged.
    pub is_dragging: bool,
    pub drag_offset: (u32, u32),
    /// Frame to restore from maximized.
    pub prev_frame: Rect,
}

/// The style has a title bar.
pub open spec fn has_title_bar(style: WindowStyle) -> bool {
    style == WindowStyle::Titled || style == WindowStyle::Modal
}

/// A click at `me` hits the close button, centred at (14, `title_bar_height / 2`).
pub open spec fn on_close_button(title_bar_height: u32, me: MouseEvent) -> bool {
    let yc = title_bar_height / 2;
    8 <= me.x <= 20 && yc - 6 <= me.y <= yc + 6
}

impl Window {
    pub fn new(title: &str, x: u32, y: u32, width: u32, height: u32) -> (w: Window)
        ensures
            w.id == 0,
            w.frame == (Rect { x, y, width, height }),
            w.style == WindowStyle::Titled,
            w.title@ == title@,
            w.visible,
            !w.minimized,
            !w.maximized,
            w.needs_redraw,
            w.title_bar_height == 28,
            w.background_color == (Color { r: 236, g: 236, b: 236, a: 255 }),
            w.focused_view_id is None,
            !w.is_dragging,
            w.drag_offset == (0u32, 0u32),
            w.prev_frame == w.frame,
    {
        Window {
            id: 0,
            frame: Rect::new(x, y, width, height),
            style: WindowStyle::Titled,
            title: title.to_owned(),
            visible: true,
            minimized: false,
            maximized: false,
            needs_redraw: true,
            title_bar_height: 28,
            background_color: Color::window_bg(),
            focused_view_id: None,
            is_dragging: false,
            drag_offset: (0, 0),
            prev_frame: Rect::new(x, y, width, height),
        }
    }

    /// Content area, in window coordinates: below the title bar, if any.
    pub fn content_rect(&self) -> (r: Rect)
        requires
            has_title_bar(self.style) ==> self.frame.height >= self.title_bar_height,
        ensures
            r == (if has_title_bar(self.style) {
                Rect {
                    x: 0,
                    y: self.title_bar_height,
                    width: self.frame.width,
                    height: (self.frame.height - self.title_bar_height) as u32,
                }
            } else {
                Rect { x: 0, y: 0, width: self.frame.width, height: self.frame.height }
            }),
    {
        let title_h = match self.style {
            WindowStyle::Titled | WindowStyle::Modal => self.title_bar_height,
            WindowStyle::Borderless | WindowStyle::Panel => 0,
        };
        Rect::new(0, title_h, self.frame.width, self.frame.height - title_h)
    }

    /// Mark the window clean: drawing happens when it is composited.
    pub fn redraw(&mut self)
        ensures
            *final(self) == (Window { needs_redraw: false, ..*old(self) }),
    {
        self.needs_redraw = false;
    }

    /// Handle an event at the window level. A press on the title bar closes
    /// the window (on the close button) or starts a drag, and is consumed:
    /// `Some(true)`. A release ends any drag. Every event not consumed gives
    /// `None`: it goes to the content view (and is not handled without one).
    pub fn handle_event(&mut self, event: &InputEvent) -> (r: Option<bool>)
        requires
            old(self).title_bar_height >= 12,
        ensures
            match *event {
                InputEvent::MouseDown(me) => if me.y < old(self).title_bar_height {
                    &&& r == Some(true)
                    &&& *final(self) == if on_close_button(old(self).title_bar_height, me) {
                        Window { visible: false, ..*old(self) }
                    } else {
                        Window { is_dragging: true, drag_offset: (me.x, me.y), ..*old(self) }
                    }
                } else {
                    r is None && *final(self) == *old(self)
                },
                InputEvent::MouseUp(_) => r is None && *final(self) == (Window { is_dragging: false, ..*old(self) }),
                _ => r is None && *final(self) == *old(self),
            },
    {
        match event {
            InputEvent::MouseDown(me) => {
                if me.y < self.title_bar_height {
                    let y_center = self.title_bar_height / 2;
                    if me.x >= 14 - 6 && me.x <= 14 + 6 && me.y >= y_center - 6 && me.y <= y_center + 6 {
                        self.visible = false;
                        return Some(true);
                    }
                    self.is_dragging = true;
                    self.drag_offset = (me.x, me.y);
                    return Some(true);
                }
            },
            InputEvent::MouseUp(_) => {
                self.is_dragging = false;
            },
            _ => {},
        }
        None
    }
}

/// The traffic-light buttons and title a titled or modal window draws over
/// its title-bar background, then the bottom border line.
pub open spec fn title_decorations(v: FbView, w: Window, glyphs: Seq<[u8; 16]>) -> FbView {
    let yc = w.title_bar_height / 2;
    let buttons = if w.style == WindowStyle::Titled {
        let v1 = text_drawn(
            v.paint(disk_hit(14, yc, 6), (Color { r: 255, g: 59, b: 48, a: 255 }), true),
            glyphs,
            "x"@,
            0,
            11,
            yc - 8,
            (Color { r: 255, g: 255, b: 255, a: 255 }),
            None,
        );
        let v2 = text_drawn(
            v1.paint(disk_hit(34, yc, 6), (Color { r: 255, g: 204, b: 0, a: 255 }), true),
            glyphs,
            "-"@,
            0,
            31,
            yc - 8,
            (Color { r: 0, g: 0, b: 0, a: 255 }),
            None,
        );
        text_drawn(
            v2.paint(disk_hit(54, yc, 6), (Color { r: 52, g: 199, b: 89, a: 255 }), true),
            glyphs,
            "+"@,
            0,
            51,
            yc - 8,
            (Color { r: 255, g: 255, b: 255, a: 255 }),
            None,
        )
    } else if w.style == WindowStyle::Modal {
        text_drawn(
            v.paint(disk_hit(14, yc, 6), (Color { r: 255, g: 59, b: 48, a: 255 }), true),
            glyphs,
            "x"@,
            0,
            11,
            yc - 8,
            (Color { r: 255, g: 255, b: 255, a: 255 }),
            None,
        )
    } else {
        v
    };
    let text_w = w.title@.len() * 8;
    let text_x = if w.frame.width > text_w { (w.frame.width - text_w) / 2 } else { 0 };
    let titled = text_drawn(buttons, glyphs, w.title@, 0, text_x, 6, (Color { r: 0, g: 0, b: 0, a: 255 }), None);
    titled.paint(
        |a: int, b: int| 0 <= a < w.frame.width && b == w.title_bar_height - 1,
        (Color { r: 142, g: 142, b: 147, a: 255 }),
        true,
    )
}

impl Window {
    /// Draw the title bar's buttons, title and border over its background
    /// (which the caller fills first).
    pub fn draw_title_decorations(&self, fb: &mut Framebuffer, glyphs: &[[u8; 16]])
        requires
            old(fb)@.wf(),
            self.title_bar_height >= 16,
            self.title_bar_height <= 0x1000,
            self.title@.len() * 8 <= u32::MAX,
        ensures
            final(fb)@ == title_decorations(old(fb)@, *self, glyphs@),
    {
        if self.style == WindowStyle::Titled {
            let y_center = self.title_bar_height / 2;
            let radius: u32 = 6;
            fb.fill_circle(14, y_center, radius, Color::red());
            Font::draw_str(fb, 11, y_center - 8, "x", Color::white(), None, glyphs);
            fb.fill_circle(34, y_center, radius, Color::yellow());
            Font::draw_str(fb, 31, y_center - 8, "-", Color::black(), None, glyphs);
            fb.fill_circle(54, y_center, radius, Color::green());
            Font::draw_str(fb, 51, y_center - 8, "+", Color::white(), None, glyphs);
        } else if self.style == WindowStyle::Modal {
            let y_center = self.title_bar_height / 2;
            let radius: u32 = 6;
            fb.fill_circle(14, y_center, radius, Color::red());
            Font::draw_str(fb, 11, y_center - 8, "x", Color::white(), None, glyphs);
        }
        let text_w = Font::str_width(self.title.as_str());
        let text_x = self.frame.width.saturating_sub(text_w) / 2;
        Font::draw_str(fb, text_x, 6, self.title.as_str(), Color::black(), None, glyphs);
        fb.draw_hline(0, self.title_bar_height - 1, self.frame.width, Color::gray());
    }
}

} // verus!
