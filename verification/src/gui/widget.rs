//! Standard widgets: Button, Label, TextField, Toggle, ImageView, and their
//! event handling.

use vstd::prelude::*;
use vstd::string::string_is_ascii;
use crate::gui::color::Color;
use crate::gui::drawing::{Font, Rect};
use crate::gui::event::{InputEvent, KeyCode, MouseEvent};

verus! {

/// `String::insert`: on an ASCII string byte positions are character
/// positions, so inserting an ASCII character at `idx <= len` inserts it into
/// the character sequence; a string never holds more than `isize::MAX` bytes.
#[verifier::external_body]
fn string_insert(s: &mut String, idx: usize, ch: char)
    requires
        string_is_ascii(old(s)),
        idx <= old(s)@.len(),
        (ch as u32) < 128,
    ensures
        final(s)@ == old(s)@.insert(idx as int, ch),
        final(s)@.len() <= isize::MAX,
{
    s.insert(idx, ch)
}

/// `String::remove`: on an ASCII string, removing at `idx < len` removes and
/// returns the character at that position.
#[verifier::external_body]
fn string_remove(s: &mut String, idx: usize) -> (c: char)
    requires
        string_is_ascii(old(s)),
        idx < old(s)@.len(),
    ensures
        c == old(s)@[idx as int],
        final(s)@ == old(s)@.remove(idx as int),
{
    s.remove(idx)
}

/// State of a button widget.
#[derive(Clone, Copy, Debug, PartialEq, Eq, Structural)]
pub enum ButtonState {
    Normal,
    Hovered,
    Pressed,
    Disabled,
}

/// A clickable button widget.
pub struct Button {
    pub id: u64,
    pub frame: Rect,
    pub title: String,
    pub state: ButtonState,
    pub background_color: Color,
    pub title_color: Color,
    pub corner_radius: u32,
    pub is_hidden: bool,
}

/// How a button in `state` reacts to a mouse event: its next state, whether
/// the event is consumed, and whether it completes a click (a release after a
/// press, wherever the pointer is).
pub open spec fn button_step(state: ButtonState, inside: bool, is_down: bool) -> (ButtonState, bool, bool) {
    if state == ButtonState::Disabled {
        (state, false, false)
    } else if is_down {
        if inside {
            (ButtonState::Pressed, true, false)
        } else {
            (state, false, false)
        }
    } else if state == ButtonState::Pressed {
        (ButtonState::Hovered, true, true)
    } else if inside {
        (ButtonState::Hovered, true, false)
    } else {
        (ButtonState::Normal, false, false)
    }
}

impl Button {
    pub fn new(title: &str, frame: Rect, id: u64) -> (b: Button)
        ensures
            b.id == id,
            b.frame == frame,
            b.title@ == title@,
            b.state == ButtonState::Normal,
            b.background_color == (Color { r: 0, g: 122, b: 255, a: 255 }),
            b.title_color == (Color { r: 255, g: 255, b: 255, a: 255 }),
            b.corner_radius == 6,
            !b.is_hidden,
    {
        Button {
            id,
            frame,
            title: title.to_owned(),
            state: ButtonState::Normal,
            background_color: Color::accent(),
            title_color: Color::white(),
            corner_radius: 6,
            is_hidden: false,
        }
    }

    /// A button centered at `(cx, cy)`, 28 pixels high and 24 pixels wider
    /// than its title.
    pub fn with_title(title: &str, cx: u32, cy: u32, id: u64) -> (b: Button)
        requires
            title@.len() * 8 + 24 <= u32::MAX,
            (title@.len() * 8 + 24) / 2 <= cx,
            14 <= cy,
        ensures
            b.id == id,
            b.title@ == title@,
            b.frame == (Rect {
                x: (cx - (title@.len() * 8 + 24) / 2) as u32,
                y: (cy - 14) as u32,
                width: (title@.len() * 8 + 24) as u32,
                height: 28,
            }),
            b.state == ButtonState::Normal,
    {
        let w = Font::str_width(title) + 24;
        let h: u32 = 28;
        Self::new(title, Rect::new(cx - w / 2, cy - h / 2, w, h), id)
    }

    /// Handle a mouse event; returns whether it was consumed and whether it
    /// completed a click.
    pub fn handle_mouse_event(&mut self, event: &MouseEvent) -> (r: (bool, bool))
        ensures
            ({
                let (state, consumed, clicked) = button_step(
                    old(self).state,
                    old(self).frame.covers(event.x as int, event.y as int),
                    event.is_down,
                );
                &&& final(self).state == state
                &&& r == (consumed, clicked)
            }),
            final(self).id == old(self).id,
            final(self).frame == old(self).frame,
            final(self).title == old(self).title,
    {
        if self.state == ButtonState::Disabled {
            return (false, false);
        }
        let inside = self.frame.contains(event.x, event.y);
        if event.is_down {
            if inside {
                self.state = ButtonState::Pressed;
                return (true, false);
            }
        } else {
            if self.state == ButtonState::Pressed {
                self.state = ButtonState::Hovered;
                return (true, true);
            }
            if inside {
                self.state = ButtonState::Hovered;
            } else {
                self.state = ButtonState::Normal;
            }
        }
        (inside, false)
    }
}

/// Text alignment.
#[derive(Clone, Copy, Debug, PartialEq, Eq, Structural)]
pub enum TextAlignment {
    Left,
    Center,
    Right,
}

/// A static text label.
pub struct Label {
    pub id: u64,
    pub frame: Rect,
    pub text: String,
    pub text_color: Color,
    pub background_color: Color,
    pub is_hidden: bool,
    pub font_size: u32,
    pub alignment: TextAlignment,
}

impl Label {
    pub fn new(text: &str, frame: Rect, id: u64) -> (l: Label)
        ensures
            l.id == id,
            l.frame == frame,
            l.text@ == text@,
            l.text_color == (Color { r: 0, g: 0, b: 0, a: 255 }),
            l.background_color == (Color { r: 0, g: 0, b: 0, a: 0 }),
            !l.is_hidden,
            l.font_size == 8,
            l.alignment == TextAlignment::Left,
    {
        Label {
            id,
            frame,
            text: text.to_owned(),
            text_color: Color::black(),
            background_color: Color::clear(),
            is_hidden: false,
            font_size: 8,
            alignment: TextAlignment::Left,
        }
    }
}

/// An editable single-line text field.
pub struct TextField {
    pub id: u64,
    pub frame: Rect,
    pub text: String,
    pub placeholder: String,
    pub text_color: Color,
    pub background_color: Color,
    pub border_color: Color,
    pub is_hidden: bool,
    pub is_editing: bool,
    pub cursor_pos: usize,
    pub is_focused: bool,
}

/// What typing `code` does to focused text `t` with the cursor at `pos`:
/// the new text, the new cursor, whether focus is kept, and whether the key
/// was consumed. Backspace (8) deletes before the cursor, Enter (13) and
/// Escape (27) end editing, printable ASCII is inserted at the cursor.
pub open spec fn type_key(t: Seq<char>, pos: int, code: u8) -> (Seq<char>, int, bool, bool) {
    if code == 8 {
        if pos > 0 {
            (t.remove(pos - 1), pos - 1, true, true)
        } else {
            (t, pos, true, true)
        }
    } else if code == 13 || code == 27 {
        (t, pos, false, true)
    } else if 32 <= code < 127 {
        (t.insert(pos, code as char), pos + 1, true, true)
    } else {
        (t, pos, true, false)
    }
}

impl TextField {
    /// The text is ASCII and the cursor lies within it.
    pub open spec fn wf(&self) -> bool {
        string_is_ascii(&self.text) && self.cursor_pos <= self.text@.len()
    }

    pub fn new(placeholder: &str, frame: Rect, id: u64) -> (f: TextField)
        ensures
            f.wf(),
            f.id == id,
            f.frame == frame,
            f.text@ == Seq::<char>::empty(),
            f.placeholder@ == placeholder@,
            f.text_color == (Color { r: 0, g: 0, b: 0, a: 255 }),
            f.background_color == (Color { r: 255, g: 255, b: 255, a: 255 }),
            f.border_color == (Color { r: 142, g: 142, b: 147, a: 255 }),
            !f.is_hidden,
            !f.is_editing,
            f.cursor_pos == 0,
            !f.is_focused,
    {
        TextField {
            id,
            frame,
            text: String::new(),
            placeholder: placeholder.to_owned(),
            text_color: Color::black(),
            background_color: Color::white(),
            border_color: Color::gray(),
            is_hidden: false,
            is_editing: false,
            cursor_pos: 0,
            is_focused: false,
        }
    }

    /// A press inside the field focuses it and puts the cursor at the clicked
    /// character cell (at most the end of the text).
    pub fn handle_mouse_event(&mut self, event: &MouseEvent) -> (r: bool)
        requires
            old(self).wf(),
            old(self).frame.x + 6 <= u32::MAX,
        ensures
            final(self).wf(),
            r == (event.is_down && old(self).frame.covers(event.x as int, event.y as int)),
            r ==> final(self).is_focused && final(self).cursor_pos == ({
                let rel = if event.x >= old(self).frame.x + 6 { event.x - (old(self).frame.x + 6) } else { 0 };
                let cell = rel / 8;
                if cell <= old(self).text@.len() { cell } else { old(self).text@.len() as int }
            }),
            !r ==> final(self).is_focused == old(self).is_focused && final(self).cursor_pos == old(self).cursor_pos,
            final(self).text == old(self).text,
            final(self).frame == old(self).frame,
    {
        if event.is_down && self.frame.contains(event.x, event.y) {
            self.is_focused = true;
            let rel_x = event.x.saturating_sub(self.frame.x + 6);
            let char_pos = (rel_x / Font::CHAR_W) as usize;
            let len = self.text.as_str().unicode_len();
            self.cursor_pos = if char_pos <= len { char_pos } else { len };
            return true;
        }
        false
    }

    /// Edit the focused text with a key press (see `type_key`); an unfocused
    /// field ignores every event.
    pub fn handle_key_event(&mut self, event: &InputEvent) -> (r: bool)
        requires
            old(self).wf(),
        ensures
            final(self).wf(),
            final(self).frame == old(self).frame,
            match *event {
                InputEvent::KeyDown(KeyCode(code)) if old(self).is_focused => {
                    let (t, pos, focused, consumed) = type_key(old(self).text@, old(self).cursor_pos as int, code);
                    &&& final(self).text@ == t
                    &&& final(self).cursor_pos == pos
                    &&& final(self).is_focused == focused
                    &&& r == consumed
                },
                _ => {
                    &&& !r
                    &&& final(self).text@ == old(self).text@
                    &&& final(self).cursor_pos == old(self).cursor_pos
                    &&& final(self).is_focused == old(self).is_focused
                },
            },
    {
        if !self.is_focused {
            return false;
        }
        match event {
            InputEvent::KeyDown(kc) => {
                let code = kc.0;
                if code == 8 {
                    if self.cursor_pos > 0 {
                        self.cursor_pos = self.cursor_pos - 1;
                        string_remove(&mut self.text, self.cursor_pos);
                        assert(vstd::utf8::is_ascii_chars(self.text@)) by {
                            assert forall|i: int| 0 <= i < self.text@.len() implies '\0' <= #[trigger] self.text@[i] <= '\u{7f}' by {
                                if i < self.cursor_pos {
                                    assert(self.text@[i] == old(self).text@[i]);
                                } else {
                                    assert(self.text@[i] == old(self).text@[i + 1]);
                                }
                            }
                        }
                    }
                    return true;
                } else if code == 13 {
                    self.is_focused = false;
                    return true;
                } else if code == 27 {
                    self.is_focused = false;
                    return true;
                } else if code >= 32 && code < 127 {
                    let ch = code as char;
                    let ghost before = self.text@;
                    string_insert(&mut self.text, self.cursor_pos, ch);
                    assert(vstd::utf8::is_ascii_chars(self.text@)) by {
                        assert forall|i: int| 0 <= i < self.text@.len() implies '\0' <= #[trigger] self.text@[i] <= '\u{7f}' by {
                            if i < old(self).cursor_pos {
                                assert(self.text@[i] == before[i]);
                            } else if i > old(self).cursor_pos {
                                assert(self.text@[i] == before[i - 1]);
                            }
                        }
                    }
                    self.cursor_pos = self.cursor_pos + 1;
                    return true;
                }
            },
            _ => {},
        }
        false
    }
}

/// A toggle (checkbox) widget.
pub struct Toggle {
    pub id: u64,
    pub frame: Rect,
    pub title: String,
    pub is_on: bool,
    pub is_hidden: bool,
    pub on_color: Color,
    pub off_color: Color,
}

impl Toggle {
    pub fn new(title: &str, frame: Rect, id: u64) -> (t: Toggle)
        ensures
            t.id == id,
            t.frame == frame,
            t.title@ == title@,
            !t.is_on,
            !t.is_hidden,
            t.on_color == (Color { r: 52, g: 199, b: 89, a: 255 }),
            t.off_color == (Color { r: 229, g: 229, b: 234, a: 255 }),
    {
        Toggle {
            id,
            frame,
            title: title.to_owned(),
            is_on: false,
            is_hidden: false,
            on_color: Color::green(),
            off_color: Color::light_gray(),
        }
    }

    /// A press inside the toggle flips it; returns whether it flipped.
    pub fn handle_mouse_event(&mut self, event: &MouseEvent) -> (r: bool)
        ensures
            r == (event.is_down && old(self).frame.covers(event.x as int, event.y as int)),
            final(self).is_on == (old(self).is_on != r),
            final(self).frame == old(self).frame,
    {
        if event.is_down && self.frame.contains(event.x, event.y) {
            self.is_on = !self.is_on;
            return true;
        }
        false
    }
}

/// A widget that displays a static image (0xRRGGBBAA pixels).
pub struct ImageView {
    pub id: u64,
    pub frame: Rect,
    pub pixels: Option<Vec<u32>>,
    pub image_width: u32,
    pub image_height: u32,
    pub is_hidden: bool,
    pub background_color: Color,
}

impl ImageView {
    pub fn new(frame: Rect, id: u64) -> (v: ImageView)
        ensures
            v.id == id,
            v.frame == frame,
            v.pixels is None,
            v.image_width == 0,
            v.image_height == 0,
            !v.is_hidden,
            v.background_color == (Color { r: 0, g: 0, b: 0, a: 0 }),
    {
        ImageView {
            id,
            frame,
            pixels: None,
            image_width: 0,
            image_height: 0,
            is_hidden: false,
            background_color: Color::clear(),
        }
    }

    pub fn with_image(frame: Rect, pixels: Vec<u32>, w: u32, h: u32, id: u64) -> (v: ImageView)
        ensures
            v.id == id,
            v.frame == frame,
            v.pixels == Some(pixels),
            v.image_width == w,
            v.image_height == h,
            !v.is_hidden,
            v.background_color == (Color { r: 0, g: 0, b: 0, a: 0 }),
    {
        ImageView {
            id,
            frame,
            pixels: Some(pixels),
            image_width: w,
            image_height: h,
            is_hidden: false,
            background_color: Color::clear(),
        }
    }
}

/// Scroll behavior for content overflow.
#[derive(Clone, Copy, Debug, PartialEq, Eq, Structural)]
pub enum ScrollBehavior {
    /// No scrolling.
    Fixed,
    Vertical,
    Horizontal,
    Both,
}

} // verus!
