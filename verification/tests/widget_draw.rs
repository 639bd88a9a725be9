use aperture::gui::color::Color;
use aperture::gui::drawing::{Framebuffer, Rect};
use aperture::gui::widget::{Button, ButtonState, ImageView, Label, TextAlignment, TextField, Toggle};

fn font() -> Vec<[u8; 16]> {
    let mut glyphs = vec![[0u8; 16]; 128];
    glyphs[b'A' as usize][0] = 0xFF;
    glyphs
}

fn screen() -> Framebuffer {
    Framebuffer::new(vec![0x0000_00FF; 64 * 40], 64, 40)
}

fn px(fb: &Framebuffer, x: u32, y: u32) -> u32 {
    fb.pixels[(y * fb.pitch + x) as usize]
}

#[test]
fn label_text_is_aligned() {
    let glyphs = font();
    let mut fb = screen();
    let mut label = Label::new("A", Rect::new(0, 0, 40, 20), 1);
    label.alignment = TextAlignment::Center;
    label.draw(&mut fb, Rect::new(0, 0, 40, 20), &glyphs);
    // (40 - 8) / 2 = 16; text starts on row 4.
    assert_eq!(px(&fb, 16, 4), Color::black().to_u32());
    assert_eq!(px(&fb, 23, 4), Color::black().to_u32());
    assert_eq!(px(&fb, 15, 4), 0x0000_00FF);
    let mut right = Label::new("A", Rect::new(0, 0, 40, 20), 2);
    right.alignment = TextAlignment::Right;
    right.text_color = Color::white();
    right.draw(&mut fb, Rect::new(0, 20, 40, 20), &glyphs);
    // 40 - (8 + 4) = 28.
    assert_eq!(px(&fb, 28, 24), Color::white().to_u32());
    assert_eq!(px(&fb, 27, 24), 0x0000_00FF);
}

#[test]
fn label_background_is_blended_only_when_visible() {
    let glyphs = font();
    let mut fb = screen();
    let mut label = Label::new("", Rect::new(0, 0, 10, 10), 1);
    label.draw(&mut fb, Rect::new(0, 0, 10, 10), &glyphs);
    assert_eq!(px(&fb, 5, 5), 0x0000_00FF);
    label.background_color = Color::rgba(255, 0, 0, 255);
    label.draw(&mut fb, Rect::new(0, 0, 10, 10), &glyphs);
    assert_eq!(px(&fb, 5, 5), 0xFF00_00FF);
    assert_eq!(px(&fb, 10, 5), 0x0000_00FF);
}

#[test]
fn button_background_follows_its_state() {
    let mut b = Button::new("A", Rect::new(0, 0, 40, 20), 1);
    let lighter = Color::rgb(1, 1, 1);
    let darker = Color::rgb(2, 2, 2);
    assert_eq!(b.background(lighter, darker), b.background_color);
    b.state = ButtonState::Hovered;
    assert_eq!(b.background(lighter, darker), lighter);
    b.state = ButtonState::Pressed;
    assert_eq!(b.background(lighter, darker), darker);
    b.state = ButtonState::Disabled;
    assert_eq!(b.background(lighter, darker), Color::gray());
}

#[test]
fn button_title_is_centered() {
    let glyphs = font();
    let mut fb = screen();
    let mut b = Button::new("A", Rect::new(0, 0, 40, 20), 1);
    b.corner_radius = 4;
    b.title_color = Color::rgb(9, 9, 9);
    b.draw(&mut fb, Rect::new(0, 0, 40, 20), Color::rgb(0, 0, 200), &glyphs);
    // Title at ((40 - 8) / 2, (20 - 16) / 2) = (16, 2).
    assert_eq!(px(&fb, 16, 2), Color::rgb(9, 9, 9).to_u32());
    assert_eq!(px(&fb, 20, 10), Color::rgb(0, 0, 200).to_u32());
    // The rounded corner leaves the very corner pixel alone.
    assert_eq!(px(&fb, 0, 0), 0x0000_00FF);
}

#[test]
fn text_field_shows_placeholder_border_and_caret() {
    let glyphs = font();
    let mut fb = screen();
    let mut f = TextField::new("A", Rect::new(0, 0, 60, 30), 1);
    f.draw(&mut fb, Rect::new(0, 0, 60, 30), &glyphs);
    // The placeholder is drawn in gray at (6, 4).
    assert_eq!(px(&fb, 6, 4), Color::gray().to_u32());
    f.is_focused = true;
    f.draw(&mut fb, Rect::new(0, 0, 60, 30), &glyphs);
    // Focused: an accent border two pixels wide, and the caret at x = 6.
    assert_eq!(px(&fb, 30, 1), Color::accent().to_u32());
    assert_eq!(px(&fb, 6, 10), Color::black().to_u32());
}

#[test]
fn toggle_box_color_follows_state() {
    let glyphs = font();
    let mut fb = screen();
    let mut t = Toggle::new("A", Rect::new(0, 0, 60, 20), 1);
    t.draw(&mut fb, Rect::new(0, 0, 60, 20), &glyphs);
    // Box at y = (20 - 16) / 2 = 2; its center is the off color.
    assert_eq!(px(&fb, 8, 10), t.off_color.to_u32());
    // Title in black at (22, 4).
    assert_eq!(px(&fb, 22, 4), Color::black().to_u32());
    t.is_on = true;
    t.draw(&mut fb, Rect::new(0, 0, 60, 20), &glyphs);
    assert_eq!(px(&fb, 8, 10), t.on_color.to_u32());
}

#[test]
fn image_view_blits_its_pixels() {
    let mut fb = screen();
    let v = ImageView::with_image(Rect::new(0, 0, 2, 2), vec![0x1122_33FF, 0x4455_66FF, 0x7788_99FF, 0xAABB_CCFF], 2, 2, 1);
    v.draw(&mut fb, Rect::new(3, 4, 2, 2));
    assert_eq!(px(&fb, 3, 4), 0x1122_33FF);
    assert_eq!(px(&fb, 4, 5), 0xAABB_CCFF);
    assert_eq!(px(&fb, 5, 5), 0x0000_00FF);
}
