use aperture::input::{InputEvent, InputQueue, INPUT_BUF_SIZE};
use aperture::ps2kbd::{handle_scancode, KeyboardState};

#[test]
fn test_scancode_to_keypress() {
    let mut kbd = KeyboardState::new();
    let mut queue = InputQueue::new();
    handle_scancode(&mut kbd, &mut queue, 0x1E);
    assert_eq!(queue.poll(), Some(InputEvent::KeyPress { ascii: b'a' }));
}

#[test]
fn test_shifted_scancode() {
    let mut kbd = KeyboardState::new();
    let mut queue = InputQueue::new();
    handle_scancode(&mut kbd, &mut queue, 0x2A);
    handle_scancode(&mut kbd, &mut queue, 0x02);
    assert_eq!(queue.poll(), Some(InputEvent::KeyPress { ascii: b'!' }));
}

#[test]
fn test_key_release_ignored() {
    let mut kbd = KeyboardState::new();
    let mut queue = InputQueue::new();
    handle_scancode(&mut kbd, &mut queue, 0x9E);
    assert_eq!(queue.poll(), None);
}

#[test]
fn test_push_and_poll() {
    let mut queue = InputQueue::new();
    queue.push(InputEvent::KeyPress { ascii: b'a' });
    assert_eq!(queue.poll(), Some(InputEvent::KeyPress { ascii: b'a' }));
    assert_eq!(queue.poll(), None);
}

#[test]
fn test_ring_buffer_overflow() {
    let mut queue = InputQueue::new();
    for i in 0..300usize {
        queue.push(InputEvent::KeyPress { ascii: (i % 256) as u8 });
    }
    let mut count = 0;
    while queue.poll().is_some() {
        count += 1;
    }
    assert!(count <= INPUT_BUF_SIZE);
}

#[test]
fn test_mouse_events() {
    let mut queue = InputQueue::new();
    queue.push(InputEvent::MouseMove { x: 100, y: 200, buttons: 0 });
    queue.push(InputEvent::MouseDown { button: 0, x: 100, y: 200 });
    queue.push(InputEvent::MouseUp { button: 0, x: 100, y: 200 });

    assert_eq!(queue.poll(), Some(InputEvent::MouseMove { x: 100, y: 200, buttons: 0 }));
    assert_eq!(queue.poll(), Some(InputEvent::MouseDown { button: 0, x: 100, y: 200 }));
    assert_eq!(queue.poll(), Some(InputEvent::MouseUp { button: 0, x: 100, y: 200 }));
    assert_eq!(queue.poll(), None);
}

#[test]
fn full_queue_keeps_the_oldest_events() {
    let mut queue = InputQueue::new();
    for i in 0..300usize {
        queue.push(InputEvent::KeyPress { ascii: (i % 256) as u8 });
    }
    let mut count = 0;
    let mut first = None;
    while let Some(e) = queue.poll() {
        if first.is_none() {
            first = Some(e);
        }
        count += 1;
    }
    assert_eq!(count, INPUT_BUF_SIZE - 1);
    assert_eq!(first, Some(InputEvent::KeyPress { ascii: 0 }));
}

#[test]
fn try_recv_key_skips_mouse_events() {
    let mut queue = InputQueue::new();
    queue.push(InputEvent::MouseMove { x: 1, y: 2, buttons: 0 });
    queue.push(InputEvent::KeyPress { ascii: b'x' });
    queue.push(InputEvent::MouseUp { button: 0, x: 1, y: 2 });
    assert_eq!(queue.try_recv_key(), Some(b'x'));
    assert_eq!(queue.try_recv_key(), None);
    assert_eq!(queue.poll(), Some(InputEvent::MouseMove { x: 1, y: 2, buttons: 0 }));
    assert_eq!(queue.poll(), Some(InputEvent::MouseUp { button: 0, x: 1, y: 2 }));
}

#[test]
fn caps_lock_uppercases_letters() {
    let mut kbd = KeyboardState::new();
    let mut queue = InputQueue::new();
    handle_scancode(&mut kbd, &mut queue, 0x3A);
    handle_scancode(&mut kbd, &mut queue, 0x1E);
    assert_eq!(queue.poll(), Some(InputEvent::KeyPress { ascii: b'A' }));
}
