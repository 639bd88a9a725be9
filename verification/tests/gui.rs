use aperture::gui::color::Color;
use aperture::gui::drawing::{Font, Framebuffer, Rect, Size};
use aperture::gui::event::{InputEvent, KeyCode, MouseButton};
use aperture::gui::layout::{EdgeInsets, LayoutAlignment, LayoutDistribution, StackView};
use aperture::gui::widget::{Button, ButtonState, TextField, Toggle};
use aperture::gui::window::{Window, WindowStyle};
use aperture::gui::{ResponderChain, ViewIds};

fn mouse(x: u32, y: u32, down: bool) -> aperture::gui::event::MouseEvent {
    match if down { InputEvent::mouse_down(x, y, MouseButton::Left) } else { InputEvent::mouse_up(x, y, MouseButton::Left) } {
        InputEvent::MouseDown(m) | InputEvent::MouseUp(m) => m,
        _ => unreachable!(),
    }
}

#[test]
fn colors_pack_as_rgba() {
    assert_eq!(Color::rgba(0x12, 0x34, 0x56, 0x78).to_u32(), 0x1234_5678);
    assert_eq!(Color::rgb(1, 2, 3).to_u32(), 0x0102_03FF);
    assert_eq!(Color::red().with_alpha(7), Color::rgba(255, 59, 48, 7));
}

#[test]
fn blend_over_mixes_by_alpha() {
    let src = Color::rgba(255, 0, 0, 128);
    let dst = Color::rgba(0, 0, 255, 255);
    assert_eq!(src.blend_over(&dst), Color::rgba(128, 0, 127, 255));
    assert_eq!(Color::clear().blend_over(&dst), dst);
    assert_eq!(Color::white().blend_over(&dst), Color::white());
}

#[test]
fn rect_geometry() {
    let a = Rect::new(10, 10, 20, 20);
    assert_eq!(a.right(), 30);
    assert_eq!(a.bottom(), 30);
    assert!(a.contains(10, 29));
    assert!(!a.contains(30, 10));
    let b = Rect::new(25, 0, 20, 15);
    let i = a.intersect(&b);
    assert_eq!((i.x, i.y, i.width, i.height), (25, 10, 5, 5));
    let far = Rect::new(100, 100, 5, 5);
    assert!(a.intersect(&far).is_empty());
    assert!(Rect::zero().is_empty());
    let s = Size::new(3, 4);
    assert_eq!((s.width, s.height), (3, 4));
}

#[test]
fn framebuffer_reads_back_what_was_set() {
    let mut fb = Framebuffer::new(vec![0u32; 16], 4, 4);
    fb.set_pixel(2, 3, Color::green());
    assert_eq!(fb.get_pixel(2, 3), Color::green());
    assert_eq!(fb.get_pixel(9, 9), Color::clear());
    fb.fill_rect(Rect::new(1, 1, 2, 2), Color::blue());
    assert_eq!(fb.get_pixel(1, 1), Color::blue());
    assert_eq!(fb.get_pixel(2, 2), Color::blue());
    assert_eq!(fb.get_pixel(3, 3), Color::clear());
    fb.clear(Color::black());
    assert!(fb.pixels.iter().all(|&p| p == Color::black().to_u32()));
}

#[test]
fn blit_copies_an_image_clipped() {
    let mut fb = Framebuffer::new(vec![0u32; 9], 3, 3);
    let red = Color::red().to_u32();
    let src = [red, 0x0000_00FF, 0x0000_00FF, 0x0000_00FF];
    fb.blit(2, 2, &src, 2, 2);
    assert_eq!(fb.pixels[8], red);
    assert_eq!(fb.pixels[7], 0);
    assert_eq!(fb.get_pixel(2, 2), Color::red());
}

#[test]
fn draw_char_paints_set_bits() {
    let mut glyphs = vec![[0u8; 16]; 128];
    glyphs[b'T' as usize][0] = 0b1000_0001;
    let mut fb = Framebuffer::new(vec![0u32; 16 * 20], 16, 20);
    Font::draw_char(&mut fb, 0, 0, 'T', Color::white(), Some(Color::black()), &glyphs);
    assert_eq!(fb.get_pixel(0, 0), Color::white());
    assert_eq!(fb.get_pixel(7, 0), Color::white());
    assert_eq!(fb.get_pixel(1, 0), Color::black());
    assert_eq!(fb.get_pixel(0, 1), Color::black());
    assert_eq!(fb.get_pixel(8, 0), Color::clear());
    assert_eq!(Font::str_width("abc"), 24);
}

#[test]
fn events_round_trip_through_bytes() {
    let down = InputEvent::mouse_down(300, 200, MouseButton::Left);
    assert_eq!(InputEvent::from_bytes(&down.to_bytes()), Ok(down));
    let key = InputEvent::key_down(0x1C);
    assert_eq!(InputEvent::from_bytes(&key.to_bytes()), Ok(key));
    assert_eq!(down.mouse_pos(), Some((300, 200)));
    assert_eq!(key.mouse_pos(), None);
}

#[test]
fn malformed_event_bytes_are_rejected() {
    assert_eq!(InputEvent::from_bytes(&[1]), Err("too short"));
    assert_eq!(InputEvent::from_bytes(&[1, 0, 0]), Err("mouse event too short"));
    assert_eq!(InputEvent::from_bytes(&[9, 0]), Err("unknown event type"));
}

#[test]
fn vertical_stack_spaces_subviews_equally() {
    let stack = StackView::vertical();
    let mut frames = vec![Rect::new(0, 0, 50, 20), Rect::new(0, 0, 60, 30)];
    stack.layout_subviews(&mut frames, Rect::new(0, 0, 100, 200));
    assert_eq!((frames[0].x, frames[0].y, frames[0].width, frames[0].height), (8, 8, 84, 20));
    assert_eq!((frames[1].x, frames[1].y, frames[1].width, frames[1].height), (8, 162, 84, 30));
}

#[test]
fn horizontal_stack_fills_equally() {
    let mut stack = StackView::horizontal();
    stack.distribution = LayoutDistribution::FillEqually;
    stack.padding = EdgeInsets::zero();
    stack.spacing = 10;
    let mut frames = vec![Rect::new(0, 0, 1, 1); 3];
    stack.layout_subviews(&mut frames, Rect::new(5, 5, 110, 40));
    assert_eq!((frames[0].x, frames[0].y, frames[0].width, frames[0].height), (5, 5, 30, 40));
    assert_eq!((frames[1].x, frames[1].width), (45, 30));
    assert_eq!((frames[2].x, frames[2].width), (85, 30));
    assert_eq!(EdgeInsets::all(3).horizontal(), 6);
    assert_eq!(stack.alignment, LayoutAlignment::Fill);
}

#[test]
fn button_clicks_on_release_after_press() {
    let mut b = Button::new("OK", Rect::new(10, 10, 40, 20), 1);
    assert_eq!(b.handle_mouse_event(&mouse(15, 15, true)), (true, false));
    assert_eq!(b.state, ButtonState::Pressed);
    assert_eq!(b.handle_mouse_event(&mouse(100, 100, false)), (true, true));
    assert_eq!(b.state, ButtonState::Hovered);
    assert_eq!(b.handle_mouse_event(&mouse(100, 100, false)), (false, false));
    assert_eq!(b.state, ButtonState::Normal);
    b.state = ButtonState::Disabled;
    assert_eq!(b.handle_mouse_event(&mouse(15, 15, true)), (false, false));
    let c = Button::with_title("Go", 100, 50, 2);
    assert_eq!((c.frame.x, c.frame.y, c.frame.width, c.frame.height), (80, 36, 40, 28));
}

#[test]
fn text_field_edits_at_the_cursor() {
    let mut f = TextField::new("name", Rect::new(0, 0, 200, 24), 3);
    assert!(!f.handle_key_event(&InputEvent::KeyDown(KeyCode(b'a'))));
    assert!(f.handle_mouse_event(&mouse(5, 5, true)));
    assert!(f.is_focused);
    for c in b"hllo" {
        assert!(f.handle_key_event(&InputEvent::KeyDown(KeyCode(*c))));
    }
    assert_eq!(f.text, "hllo");
    f.cursor_pos = 1;
    f.handle_key_event(&InputEvent::KeyDown(KeyCode(b'e')));
    assert_eq!(f.text, "hello");
    assert_eq!(f.cursor_pos, 2);
    f.handle_key_event(&InputEvent::KeyDown(KeyCode(8)));
    assert_eq!(f.text, "hllo");
    assert!(f.handle_key_event(&InputEvent::KeyDown(KeyCode(13))));
    assert!(!f.is_focused);
}

#[test]
fn toggle_flips_on_press_inside() {
    let mut t = Toggle::new("Wi-Fi", Rect::new(0, 0, 50, 30), 4);
    assert!(t.handle_mouse_event(&mouse(10, 10, true)));
    assert!(t.is_on);
    assert!(!t.handle_mouse_event(&mouse(10, 10, false)));
    assert!(t.is_on);
    assert!(t.handle_mouse_event(&mouse(49, 29, true)));
    assert!(!t.is_on);
}

#[test]
fn view_ids_and_responders() {
    let mut ids = ViewIds::new();
    let a = ids.next_view_id();
    let b = ids.next_view_id();
    assert_eq!(b, a + 1);
    let mut chain = ResponderChain::new();
    assert_eq!(chain.first_responder(), None);
    chain.set_first_responder(Some(a));
    chain.set_hovered(Some(b));
    assert_eq!(chain.first_responder(), Some(a));
    assert_eq!(chain.hovered(), Some(b));
}

#[test]
fn window_content_sits_below_the_title_bar() {
    let mut w = Window::new("Notes", 10, 20, 300, 200);
    assert_eq!(w.title_bar_height, 28);
    let r = w.content_rect();
    assert_eq!((r.x, r.y, r.width, r.height), (0, 28, 300, 172));
    w.style = WindowStyle::Panel;
    let r = w.content_rect();
    assert_eq!((r.x, r.y, r.width, r.height), (0, 0, 300, 200));
    w.redraw();
    assert!(!w.needs_redraw);
}

#[test]
fn title_bar_clicks_close_or_drag() {
    let mut w = Window::new("Notes", 0, 0, 300, 200);
    assert_eq!(w.handle_event(&InputEvent::mouse_down(100, 5, MouseButton::Left)), Some(true));
    assert!(w.is_dragging);
    assert_eq!(w.drag_offset, (100, 5));
    assert_eq!(w.handle_event(&InputEvent::mouse_up(100, 5, MouseButton::Left)), None);
    assert!(!w.is_dragging);
    assert_eq!(w.handle_event(&InputEvent::mouse_down(100, 50, MouseButton::Left)), None);
    assert!(w.visible);
    assert_eq!(w.handle_event(&InputEvent::mouse_down(14, 14, MouseButton::Left)), Some(true));
    assert!(!w.visible);
    assert_eq!(w.handle_event(&InputEvent::key_down(4)), None);
}

#[test]
fn title_decorations_draw_buttons_and_border() {
    let glyphs = vec![[0u8; 16]; 128];
    let w = Window::new("T", 0, 0, 80, 60);
    let mut fb = Framebuffer::new(vec![0u32; 80 * 60], 80, 60);
    w.draw_title_decorations(&mut fb, &glyphs);
    // Close button (red) centred at (14, 14); border line at row 27.
    assert_eq!(fb.get_pixel(14, 14), Color::red());
    assert_eq!(fb.get_pixel(54, 14), Color::green());
    assert_eq!(fb.get_pixel(5, 27), Color::gray());
    assert_eq!(fb.get_pixel(5, 40), Color::clear());
}
