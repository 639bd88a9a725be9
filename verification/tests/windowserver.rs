use aperture::libvibe::{msg_create_window, msg_destroy_window, msg_move_window, INPUT_KEY_PRESS, MSG_INPUT_EVENT};
use aperture::windowserver::{HitTarget, Window, WindowServer, MENU_BAR_H};

fn server() -> WindowServer {
    WindowServer::new(800, 600)
}

#[test]
fn new_window_has_the_default_title() {
    let w = Window::new(3, 10, 20, 30, 40, 7);
    assert_eq!(&w.title[..13], b"VibeOS Window");
    assert_eq!(w.title_len, 14);
    assert_eq!((w.orig_x, w.orig_y, w.orig_w, w.orig_h), (10, 20, 30, 40));
    assert_eq!(w.owner_pid, 7);
    assert!(w.visible);
}

#[test]
fn dock_is_centred_at_the_bottom() {
    let ws = server();
    assert_eq!(ws.dock_x(), 150);
    assert_eq!(ws.dock_y(), 530);
    assert_eq!(ws.dock_icon_x(0), 166);
    assert_eq!(ws.dock_icon_x(1), 226);
    assert_eq!(ws.dock_icon_y(), 538);
    assert_eq!(ws.hit_test_dock(170, 540), Some(0));
    assert_eq!(ws.hit_test_dock(170, 100), None);
}

#[test]
fn windows_are_created_focused_and_destroyed() {
    let mut ws = server();
    let a = ws.create_window(100, 80, 300, 200, 5);
    let b = ws.create_window(10, 10, 50, 50, 6);
    assert_eq!((a, b), (1, 2));
    assert_eq!(ws.focused_win, 2);
    assert_eq!(ws.find_window_idx(1), Some(0));
    ws.destroy_window(2);
    assert_eq!(ws.windows.len(), 1);
    assert_eq!(ws.focused_win, 1);
    ws.destroy_window(42);
    assert_eq!(ws.windows.len(), 1);
}

#[test]
fn hit_test_finds_lights_title_body_and_dock() {
    let mut ws = server();
    ws.create_window(100, 80, 300, 200, 5);
    assert_eq!(ws.hit_test(116, 98), HitTarget::TrafficLightClose);
    assert_eq!(ws.hit_test(132, 98), HitTarget::TrafficLightMin);
    assert_eq!(ws.hit_test(148, 98), HitTarget::TrafficLightMax);
    assert_eq!(ws.hit_test(250, 90), HitTarget::TitleBar(1));
    assert_eq!(ws.hit_test(250, 150), HitTarget::WindowBody(1));
    assert_eq!(ws.hit_test(170, 540), HitTarget::DockIcon(0));
    assert_eq!(ws.hit_test(10, 10), HitTarget::Nothing);
}

#[test]
fn close_light_destroys_the_focused_window() {
    let mut ws = server();
    ws.create_window(100, 80, 300, 200, 5);
    ws.handle_mouse_down(0, 116, 98);
    assert!(ws.windows.is_empty());
    assert_eq!(ws.focused_win, 0);
}

#[test]
fn other_buttons_are_ignored() {
    let mut ws = server();
    ws.create_window(100, 80, 300, 200, 5);
    ws.handle_mouse_down(1, 116, 98);
    assert_eq!(ws.windows.len(), 1);
}

#[test]
fn minimize_then_dock_restores() {
    let mut ws = server();
    ws.create_window(100, 80, 300, 200, 5);
    ws.handle_mouse_down(0, 132, 98);
    assert!(ws.windows[0].minimized);
    assert!(!ws.windows[0].visible);
    ws.handle_mouse_down(0, 170, 540);
    assert_eq!(ws.windows.len(), 1);
    assert!(ws.windows[0].visible);
    assert!(!ws.windows[0].minimized);
}

#[test]
fn dock_click_creates_a_window() {
    let mut ws = server();
    ws.handle_mouse_down(0, 170, 540);
    assert_eq!(ws.windows.len(), 1);
    let w = &ws.windows[0];
    assert_eq!((w.x, w.y, w.w, w.h, w.owner_pid), (100, 80, 600, 400, 0));
    ws.handle_mouse_down(0, 230, 540);
    assert_eq!((ws.windows[1].x, ws.windows[1].y), (120, 100));
}

#[test]
fn maximize_toggles() {
    let mut ws = server();
    ws.create_window(100, 80, 300, 200, 5);
    ws.handle_mouse_down(0, 148, 98);
    let w = &ws.windows[0];
    assert!(w.maximized);
    assert_eq!((w.x, w.y, w.w, w.h), (0, MENU_BAR_H, 800, 502));
    let light_y = MENU_BAR_H + 18;
    ws.handle_mouse_down(0, 48, light_y);
    let w = &ws.windows[0];
    assert!(!w.maximized);
    assert_eq!((w.x, w.y, w.w, w.h), (100, 80, 300, 200));
}

#[test]
fn dragging_the_title_bar_moves_the_window() {
    let mut ws = server();
    ws.create_window(100, 80, 300, 200, 5);
    ws.handle_mouse_down(0, 200, 90);
    assert!(ws.dragging);
    assert_eq!((ws.drag_off_x, ws.drag_off_y), (-100, -10));
    ws.handle_mouse_move(300, 100);
    assert_eq!((ws.windows[0].x, ws.windows[0].y), (200, 90));
    ws.handle_mouse_up();
    assert!(!ws.dragging);
    ws.handle_mouse_move(400, 400);
    assert_eq!((ws.windows[0].x, ws.windows[0].y), (200, 90));
}

#[test]
fn cursor_is_kept_on_screen() {
    let mut ws = server();
    assert!(ws.handle_mouse_move(10, 10));
    assert_eq!((ws.cursor_x, ws.cursor_y), (10, 10));
    assert!(!ws.handle_mouse_move(10, 10));
    ws.handle_mouse_move(5000, 5000);
    assert_eq!((ws.cursor_x, ws.cursor_y), (784, 584));
    ws.handle_mouse_move(170, 540);
    assert_eq!(ws.hovered_dock, Some(0));
}

#[test]
fn keys_go_to_the_focused_windows_owner() {
    let mut ws = server();
    assert!(ws.handle_key_press(b'a').is_none());
    ws.create_window(100, 80, 300, 200, 5);
    let (owner, msg) = ws.handle_key_press(b'a').unwrap();
    assert_eq!(owner, 5);
    assert_eq!((msg[0], msg[1], msg[2]), (MSG_INPUT_EVENT, INPUT_KEY_PRESS, b'a'));
    ws.create_window(0, 0, 10, 10, 0);
    assert!(ws.handle_key_press(b'a').is_none());
}

#[test]
fn ipc_messages_create_move_and_destroy() {
    let mut ws = server();
    ws.handle_ipc_message(&msg_create_window(10, 20, 30, 40));
    assert_eq!(ws.windows.len(), 1);
    let w = &ws.windows[0];
    assert_eq!((w.id, w.x, w.y, w.w, w.h), (1, 10, 20, 30, 40));
    ws.handle_ipc_message(&msg_move_window(1, 50, 60));
    assert_eq!((ws.windows[0].x, ws.windows[0].y), (50, 60));
    ws.handle_ipc_message(&msg_destroy_window(1));
    assert!(ws.windows.is_empty());
}
