//! Window server core: the window list, hit testing, and how mouse, keyboard
//! and IPC events change it. Drawing happens elsewhere; the server only says
//! when a redraw or a cursor update is needed.

use vstd::prelude::*;
use crate::bytes::le16;
use crate::libvibe::{
    IPC_PAYLOAD_SIZE, MSG_CREATE_WINDOW, MSG_DESTROY_WINDOW, MSG_MOVE_WINDOW, MSG_RESIZE_WINDOW,
    MSG_INPUT_EVENT, INPUT_KEY_PRESS, parse_u16_at,
};

verus! {

pub const MAX_WINDOWS: usize = 32;
pub const TITLE_BAR_H: u16 = 36;
pub const MENU_BAR_H: u16 = 28;
pub const DOCK_H: u16 = 70;
pub const DOCK_W: u16 = 500;
pub const ICON_SIZE: u16 = 48;
pub const ICON_SPACING: u16 = 12;
pub const NUM_DOCK_ICONS: usize = 5;

/// A top-level window.
#[derive(Clone, Copy, Debug)]
pub struct Window {
    pub id: u16,
    pub x: u16,
    pub y: u16,
    pub w: u16,
    pub h: u16,
    pub visible: bool,
    pub minimized: bool,
    pub maximized: bool,
    /// Geometry to restore after a maximize.
    pub orig_x: u16,
    pub orig_y: u16,
    pub orig_w: u16,
    pub orig_h: u16,
    pub title: [u8; 32],
    pub title_len: usize,
    pub owner_pid: usize,
}

/// What a window holds.
pub struct WinView {
    pub id: u16,
    pub x: u16,
    pub y: u16,
    pub w: u16,
    pub h: u16,
    pub visible: bool,
    pub minimized: bool,
    pub maximized: bool,
    pub orig_x: u16,
    pub orig_y: u16,
    pub orig_w: u16,
    pub orig_h: u16,
    pub title: Seq<u8>,
    pub title_len: usize,
    pub owner_pid: usize,
}

impl View for Window {
    type V = WinView;

    open spec fn view(&self) -> WinView {
        WinView {
            id: self.id,
            x: self.x,
            y: self.y,
            w: self.w,
            h: self.h,
            visible: self.visible,
            minimized: self.minimized,
            maximized: self.maximized,
            orig_x: self.orig_x,
            orig_y: self.orig_y,
            orig_w: self.orig_w,
            orig_h: self.orig_h,
            title: self.title@,
            title_len: self.title_len,
            owner_pid: self.owner_pid,
        }
    }
}

/// The 32 title bytes of a new window: "VibeOS Window", then zeros.
pub open spec fn default_title() -> Seq<u8> {
    seq![86u8, 105, 98, 101, 79, 83, 32, 87, 105, 110, 100, 111, 119] + Seq::new(19, |i: int| 0u8)
}

/// A new visible window at `(x, y)` of size `w` x `h`, titled "VibeOS Window".
pub open spec fn new_window(id: u16, x: u16, y: u16, w: u16, h: u16, owner: usize) -> WinView {
    WinView {
        id,
        x,
        y,
        w,
        h,
        visible: true,
        minimized: false,
        maximized: false,
        orig_x: x,
        orig_y: y,
        orig_w: w,
        orig_h: h,
        title: default_title(),
        title_len: 14,
        owner_pid: owner,
    }
}

impl Window {
    pub fn new(id: u16, x: u16, y: u16, w: u16, h: u16, owner: usize) -> (win: Window)
        ensures
            win@ == new_window(id, x, y, w, h, owner),
    {
        let mut title = [0u8; 32];
        let name: [u8; 13] = [86, 105, 98, 101, 79, 83, 32, 87, 105, 110, 100, 111, 119];
        let mut i: usize = 0;
        while i < 13
            invariant
                i <= 13,
                name@ == default_title().subrange(0, 13),
                title@.len() == 32,
                forall|k: int| 0 <= k < i ==> #[trigger] title@[k] == name@[k],
                forall|k: int| i <= k < 32 ==> #[trigger] title@[k] == 0,
            decreases 13 - i,
        {
            title[i] = name[i];
            i = i + 1;
        }
        assert(title@ =~= default_title());
        Window {
            id,
            x,
            y,
            w,
            h,
            visible: true,
            minimized: false,
            maximized: false,
            orig_x: x,
            orig_y: y,
            orig_w: w,
            orig_h: h,
            title,
            title_len: 14,
            owner_pid: owner,
        }
    }
}

/// What a screen point is over.
#[derive(Clone, Copy, Debug, PartialEq, Eq, Structural)]
pub enum HitTarget {
    Nothing,
    TrafficLightClose,
    TrafficLightMin,
    TrafficLightMax,
    /// The title bar of the window with this id.
    TitleBar(u16),
    /// The body of the window with this id.
    WindowBody(u16),
    DockIcon(usize),
}

/// Window server state.
pub struct WindowServer {
    pub fb_width: usize,
    pub fb_height: usize,
    pub windows: Vec<Window>,
    pub next_win_id: u16,
    /// Id of the focused window (0 = none).
    pub focused_win: u16,
    pub cursor_x: u16,
    pub cursor_y: u16,
    pub cursor_visible: bool,
    pub dragging: bool,
    pub drag_win: u16,
    pub drag_off_x: i32,
    pub drag_off_y: i32,
    pub hovered_dock: Option<usize>,
    pub needs_redraw: bool,
}

/// What a window server holds.
pub struct WsView {
    pub fb_width: int,
    pub fb_height: int,
    pub windows: Seq<WinView>,
    pub next_win_id: u16,
    pub focused_win: u16,
    pub cursor_x: u16,
    pub cursor_y: u16,
    pub cursor_visible: bool,
    pub dragging: bool,
    pub drag_win: u16,
    pub drag_off_x: i32,
    pub drag_off_y: i32,
    pub hovered_dock: Option<usize>,
    pub needs_redraw: bool,
}

impl View for WindowServer {
    type V = WsView;

    open spec fn view(&self) -> WsView {
        WsView {
            fb_width: self.fb_width as int,
            fb_height: self.fb_height as int,
            windows: Seq::new(self.windows@.len(), |i: int| self.windows@[i]@),
            next_win_id: self.next_win_id,
            focused_win: self.focused_win,
            cursor_x: self.cursor_x,
            cursor_y: self.cursor_y,
            cursor_visible: self.cursor_visible,
            dragging: self.dragging,
            drag_win: self.drag_win,
            drag_off_x: self.drag_off_x,
            drag_off_y: self.drag_off_y,
            hovered_dock: self.hovered_dock,
            needs_redraw: self.needs_redraw,
        }
    }
}

/// Index of the first window with `id` at or after `i`.
pub open spec fn find_from(wins: Seq<WinView>, id: u16, i: int) -> Option<int>
    decreases wins.len() - i,
{
    if i < 0 || i >= wins.len() {
        None
    } else if wins[i].id == id {
        Some(i)
    } else {
        find_from(wins, id, i + 1)
    }
}

/// Index of the first window with `id`.
pub open spec fn find_window(wins: Seq<WinView>, id: u16) -> Option<int> {
    find_from(wins, id, 0)
}

/// Index of the first minimized window at or after `i`.
pub open spec fn first_minimized(wins: Seq<WinView>, i: int) -> Option<int>
    decreases wins.len() - i,
{
    if i < 0 || i >= wins.len() {
        None
    } else if wins[i].minimized {
        Some(i)
    } else {
        first_minimized(wins, i + 1)
    }
}

/// `(px, py)` lies within `r` of `(cx, cy)`.
pub open spec fn circle_hit(px: int, py: int, cx: int, cy: int, r: int) -> bool {
    (px - cx) * (px - cx) + (py - cy) * (py - cy) <= r * r
}

/// What part of window `w` the point is over: its traffic lights (close,
/// minimize, maximize), title bar or body.
pub open spec fn window_hit(w: WinView, x: int, y: int) -> Option<HitTarget> {
    let light_y = w.y + 18;
    if !w.visible {
        None
    } else if circle_hit(x, y, w.x + 16, light_y, 6) {
        Some(HitTarget::TrafficLightClose)
    } else if circle_hit(x, y, w.x + 32, light_y, 6) {
        Some(HitTarget::TrafficLightMin)
    } else if circle_hit(x, y, w.x + 48, light_y, 6) {
        Some(HitTarget::TrafficLightMax)
    } else if w.x <= x < w.x + w.w && w.y <= y < w.y + TITLE_BAR_H {
        Some(HitTarget::TitleBar(w.id))
    } else if w.x <= x < w.x + w.w && w.y + TITLE_BAR_H <= y < w.y + w.h {
        Some(HitTarget::WindowBody(w.id))
    } else {
        None
    }
}

/// The hit among windows `0..k`, the topmost (last) first.
pub open spec fn windows_hit(wins: Seq<WinView>, k: int, x: int, y: int) -> Option<HitTarget>
    decreases k,
{
    if k <= 0 {
        None
    } else {
        match window_hit(wins[k - 1], x, y) {
            Some(t) => Some(t),
            None => windows_hit(wins, k - 1, x, y),
        }
    }
}

proof fn lemma_find_from(wins: Seq<WinView>, id: u16, i: int)
    requires
        0 <= i,
    ensures
        find_from(wins, id, i) matches Some(k) ==> i <= k < wins.len() && wins[k].id == id,
        find_from(wins, id, i) is None ==> forall|k: int| i <= k < wins.len() ==> #[trigger] wins[k].id != id,
    decreases wins.len() - i,
{
    if i < wins.len() && wins[i].id != id {
        lemma_find_from(wins, id, i + 1);
    }
}

proof fn lemma_first_minimized(wins: Seq<WinView>, i: int)
    requires
        0 <= i,
    ensures
        first_minimized(wins, i) matches Some(k) ==> i <= k < wins.len() && wins[k].minimized,
        first_minimized(wins, i) is None ==> forall|k: int| i <= k < wins.len() ==> !(#[trigger] wins[k].minimized),
    decreases wins.len() - i,
{
    if i < wins.len() && !wins[i].minimized {
        lemma_first_minimized(wins, i + 1);
    }
}

impl WsView {
    /// Coordinates fit the 16-bit window geometry, and the screen is tall
    /// enough for the menu bar and the dock.
    pub open spec fn wf(self) -> bool {
        &&& 0 <= self.fb_width <= u16::MAX
        &&& (MENU_BAR_H + DOCK_H) <= self.fb_height <= u16::MAX
    }

    pub open spec fn dock_x(self) -> int {
        if self.fb_width > DOCK_W { (self.fb_width - DOCK_W) / 2 } else { 0 }
    }

    pub open spec fn dock_y(self) -> int {
        self.fb_height - DOCK_H
    }

    pub open spec fn dock_icon_x(self, i: int) -> int {
        self.dock_x() + 16 + i * (ICON_SIZE + ICON_SPACING)
    }

    /// The first dock icon at or after `i` under `x`.
    pub open spec fn dock_icon_from(self, x: int, i: int) -> Option<usize>
        decreases NUM_DOCK_ICONS - i,
    {
        if i < 0 || i >= NUM_DOCK_ICONS {
            None
        } else if self.dock_icon_x(i) <= x < self.dock_icon_x(i) + ICON_SIZE {
            Some(i as usize)
        } else {
            self.dock_icon_from(x, i + 1)
        }
    }

    /// The dock icon under the point.
    pub open spec fn dock_hit(self, x: int, y: int) -> Option<usize> {
        if self.dock_y() <= y < self.dock_y() + DOCK_H {
            self.dock_icon_from(x, 0)
        } else {
            None
        }
    }

    /// What the point is over: the topmost window part, else a dock icon.
    pub open spec fn hit_test(self, x: int, y: int) -> HitTarget {
        match windows_hit(self.windows, self.windows.len() as int, x, y) {
            Some(t) => t,
            None => match self.dock_hit(x, y) {
                Some(i) => HitTarget::DockIcon(i),
                None => HitTarget::Nothing,
            },
        }
    }

    /// A new window gets the next id and the focus.
    pub open spec fn with_created(self, win: WinView) -> WsView {
        WsView {
            next_win_id: (self.next_win_id + 1) as u16,
            windows: self.windows.push(win),
            focused_win: win.id,
            needs_redraw: true,
            ..self
        }
    }

    /// Remove the window with `id`; when it had the focus, the focus goes to
    /// the new topmost window (or none).
    pub open spec fn destroyed(self, id: u16) -> WsView {
        match find_window(self.windows, id) {
            Some(idx) => {
                let wins = self.windows.remove(idx);
                WsView {
                    windows: wins,
                    focused_win: if self.focused_win == id {
                        if wins.len() > 0 { wins.last().id } else { 0 }
                    } else {
                        self.focused_win
                    },
                    needs_redraw: true,
                    ..self
                }
            },
            None => self,
        }
    }

    pub open spec fn with_window(self, idx: int, w: WinView) -> WsView {
        WsView { windows: self.windows.update(idx, w), ..self }
    }

    /// Toggle maximization of window `w`.
    pub open spec fn maximize_toggled(self, w: WinView) -> WinView {
        if w.maximized {
            WinView { x: w.orig_x, y: w.orig_y, w: w.orig_w, h: w.orig_h, maximized: false, visible: true, ..w }
        } else {
            WinView {
                orig_x: w.x,
                orig_y: w.y,
                orig_w: w.w,
                orig_h: w.h,
                x: 0,
                y: MENU_BAR_H,
                w: self.fb_width as u16,
                h: (self.fb_height - DOCK_H - MENU_BAR_H) as u16,
                maximized: true,
                minimized: false,
                visible: true,
                ..w
            }
        }
    }

    /// Clicking a dock icon creates a new window (when no window is
    /// minimized and there is room).
    pub open spec fn dock_click_creates(self) -> bool {
        first_minimized(self.windows, 0) is None && self.windows.len() < MAX_WINDOWS
    }

    /// The effect of pressing mouse `button` at `(x, y)`; only the left button
    /// (0) acts. The traffic lights act on the focused window.
    pub open spec fn mouse_down(self, button: u8, x: int, y: int) -> WsView {
        if button != 0 {
            self
        } else {
            match self.hit_test(x, y) {
                HitTarget::TrafficLightClose => match find_window(self.windows, self.focused_win) {
                    Some(idx) => if self.windows[idx].visible { self.destroyed(self.windows[idx].id) } else { self },
                    None => self,
                },
                HitTarget::TrafficLightMin => match find_window(self.windows, self.focused_win) {
                    Some(idx) => {
                        let w = self.windows[idx];
                        if w.visible && !w.minimized {
                            WsView {
                                needs_redraw: true,
                                ..self.with_window(idx, WinView { minimized: true, visible: false, ..w })
                            }
                        } else {
                            self
                        }
                    },
                    None => self,
                },
                HitTarget::TrafficLightMax => match find_window(self.windows, self.focused_win) {
                    Some(idx) => {
                        let w = self.windows[idx];
                        if w.visible {
                            WsView { needs_redraw: true, ..self.with_window(idx, self.maximize_toggled(w)) }
                        } else {
                            self
                        }
                    },
                    None => self,
                },
                HitTarget::TitleBar(id) => {
                    let s = WsView { focused_win: id, ..self };
                    match find_window(self.windows, id) {
                        Some(idx) => {
                            let w = self.windows[idx];
                            if !w.maximized {
                                WsView {
                                    dragging: true,
                                    drag_win: id,
                                    drag_off_x: (w.x - x) as i32,
                                    drag_off_y: (w.y - y) as i32,
                                    ..s
                                }
                            } else {
                                s
                            }
                        },
                        None => s,
                    }
                },
                HitTarget::WindowBody(id) => WsView { focused_win: id, ..self },
                HitTarget::DockIcon(i) => match first_minimized(self.windows, 0) {
                    Some(j) => WsView {
                        needs_redraw: true,
                        ..self.with_window(j, WinView { visible: true, minimized: false, ..self.windows[j] })
                    },
                    None => if self.windows.len() < MAX_WINDOWS { self.with_created(self.dock_window()) } else { self },
                },
                HitTarget::Nothing => self,
            }
        }
    }

    /// The window a dock click creates.
    pub open spec fn dock_window(self) -> WinView {
        let offset = (self.windows.len() * 20) as u16;
        new_window(self.next_win_id, (100 + offset) as u16, (80 + offset) as u16, 600, 400, 0)
    }
}

impl WindowServer {
    pub fn new(fb_width: usize, fb_height: usize) -> (ws: WindowServer)
        ensures
            ws@ == (WsView {
                fb_width: fb_width as int,
                fb_height: fb_height as int,
                windows: Seq::empty(),
                next_win_id: 1,
                focused_win: 0,
                cursor_x: 400,
                cursor_y: 300,
                cursor_visible: false,
                dragging: false,
                drag_win: 0,
                drag_off_x: 0,
                drag_off_y: 0,
                hovered_dock: None,
                needs_redraw: true,
            }),
    {
        let ws = WindowServer {
            fb_width,
            fb_height,
            windows: Vec::new(),
            next_win_id: 1,
            focused_win: 0,
            cursor_x: 400,
            cursor_y: 300,
            cursor_visible: false,
            dragging: false,
            drag_win: 0,
            drag_off_x: 0,
            drag_off_y: 0,
            hovered_dock: None,
            needs_redraw: true,
        };
        assert(ws@.windows =~= Seq::<WinView>::empty());
        ws
    }

    pub fn dock_x(&self) -> (r: u32)
        requires
            self@.wf(),
        ensures
            r == self@.dock_x(),
    {
        if self.fb_width > DOCK_W as usize {
            ((self.fb_width - DOCK_W as usize) / 2) as u32
        } else {
            0
        }
    }

    pub fn dock_y(&self) -> (r: u32)
        requires
            self@.wf(),
        ensures
            r == self@.dock_y(),
    {
        (self.fb_height - DOCK_H as usize) as u32
    }

    pub fn dock_icon_x(&self, i: usize) -> (r: u32)
        requires
            self@.wf(),
            i < NUM_DOCK_ICONS,
        ensures
            r == self@.dock_icon_x(i as int),
    {
        let dx = self.dock_x();
        assert(dx <= 65535);
        let step: u32 = (ICON_SIZE + ICON_SPACING) as u32;
        assert(i * step <= 240) by (nonlinear_arith)
            requires i < 5, step == 60;
        dx + 16 + (i as u32) * step
    }

    pub fn dock_icon_y(&self) -> (r: u32)
        requires
            self@.wf(),
        ensures
            r == self@.dock_y() + 8,
    {
        self.dock_y() + 8
    }

    /// Index of the first window with `id`.
    pub fn find_window_idx(&self, id: u16) -> (r: Option<usize>)
        ensures
            match find_window(self@.windows, id) {
                Some(i) => r == Some(i as usize),
                None => r is None,
            },
            r matches Some(i) ==> find_window(self@.windows, id) == Some(i as int) && i < self@.windows.len()
                && self@.windows[i as int].id == id,
    {
        proof {
            lemma_find_from(self@.windows, id, 0);
        }
        let mut i: usize = 0;
        while i < self.windows.len()
            invariant
                i <= self.windows@.len(),
                find_window(self@.windows, id) == find_from(self@.windows, id, i as int),
            decreases self.windows.len() - i,
        {
            if self.windows[i].id == id {
                return Some(i);
            }
            i = i + 1;
        }
        None
    }

    /// Create a window; it gets the next id and the focus.
    pub fn create_window(&mut self, x: u16, y: u16, w: u16, h: u16, owner: usize) -> (id: u16)
        requires
            old(self).next_win_id < u16::MAX,
        ensures
            id == old(self).next_win_id,
            final(self)@.windows.len() == old(self)@.windows.len() + 1,
            final(self)@ == old(self)@.with_created(new_window(id, x, y, w, h, owner)),
    {
        let id = self.next_win_id;
        self.next_win_id = self.next_win_id + 1;
        let win = Window::new(id, x, y, w, h, owner);
        let ghost before = self@.windows;
        self.windows.push(win);
        self.focused_win = id;
        self.needs_redraw = true;
        assert(self@.windows =~= before.push(new_window(id, x, y, w, h, owner)));
        id
    }

    /// Remove the window with `id`, moving the focus to the new topmost window
    /// when it had it.
    pub fn destroy_window(&mut self, id: u16)
        ensures
            final(self)@ == old(self)@.destroyed(id),
    {
        proof {
            lemma_find_from(self@.windows, id, 0);
        }
        let ghost s = self@;
        if let Some(idx) = self.find_window_idx(id) {
            self.windows.remove(idx);
            assert(self@.windows == s.windows.remove(idx as int));
            if self.focused_win == id {
                self.focused_win = if self.windows.len() > 0 { self.windows[self.windows.len() - 1].id } else { 0 };
            }
            self.needs_redraw = true;
            assert(self@.windows == s.destroyed(id).windows);
            assert(self@.focused_win == s.destroyed(id).focused_win);
        }
    }
}

impl WsView {
    /// Drag the window being dragged so its title bar follows the pointer,
    /// kept on screen (within 100 pixels of the right edge, 50 of the bottom).
    pub open spec fn dragged(self, x: int, y: int) -> WsView {
        if self.dragging {
            match find_window(self.windows, self.drag_win) {
                Some(idx) => {
                    let w = self.windows[idx];
                    if !w.maximized {
                        let ax = x + self.drag_off_x;
                        let ay = y + self.drag_off_y;
                        let cx = if ax >= 0 { ax } else { 0 };
                        let cy = if ay >= 0 { ay } else { 0 };
                        let nx = (if cx <= self.fb_width - 100 { cx } else { self.fb_width - 100 }) as u16;
                        let ny = (if cy <= self.fb_height - 50 { cy } else { self.fb_height - 50 }) as u16;
                        if nx != w.x || ny != w.y {
                            WsView { needs_redraw: true, ..self.with_window(idx, WinView { x: nx, y: ny, ..w }) }
                        } else {
                            self
                        }
                    } else {
                        self
                    }
                },
                None => self,
            }
        } else {
            self
        }
    }

    /// Track the dock icon under the pointer.
    pub open spec fn hover_updated(self, x: int, y: int) -> WsView {
        let hovered = self.dock_hit(x, y);
        if hovered != self.hovered_dock {
            WsView { hovered_dock: hovered, needs_redraw: true, ..self }
        } else {
            self
        }
    }

    /// Where the 16x16 cursor goes for pointer `(x, y)`: kept fully on screen.
    pub open spec fn cursor_target(self, x: int, y: int) -> (u16, u16) {
        let max_x = if self.fb_width > 16 { (self.fb_width - 16) as u16 } else { 0u16 };
        let max_y = if self.fb_height > 16 { (self.fb_height - 16) as u16 } else { 0u16 };
        ((if x <= max_x { x } else { max_x as int }) as u16, (if y <= max_y { y } else { max_y as int }) as u16)
    }

    pub open spec fn cursor_moved(self, x: int, y: int) -> WsView {
        let (nx, ny) = self.cursor_target(x, y);
        WsView { cursor_x: nx, cursor_y: ny, ..self }
    }

    /// The effect of a pointer move to `(x, y)`.
    pub open spec fn mouse_move(self, x: int, y: int) -> WsView {
        self.dragged(x, y).hover_updated(x, y).cursor_moved(x, y)
    }

    /// Where a key press goes: to the owner of the focused window, as an
    /// input-event message carrying the key.
    pub open spec fn key_forward(self, ascii: u8) -> Option<(usize, Seq<u8>)> {
        if self.focused_win > 0 {
            match find_window(self.windows, self.focused_win) {
                Some(idx) => {
                    let owner = self.windows[idx].owner_pid;
                    if owner > 0 {
                        Some(
                            (
                                owner,
                                Seq::new(
                                    IPC_PAYLOAD_SIZE as nat,
                                    |i: int|
                                        if i == 0 {
                                            MSG_INPUT_EVENT
                                        } else if i == 1 {
                                            INPUT_KEY_PRESS
                                        } else if i == 2 {
                                            ascii
                                        } else {
                                            0u8
                                        },
                                ),
                            ),
                        )
                    } else {
                        None
                    }
                },
                None => None,
            }
        } else {
            None
        }
    }

    /// The effect of a window-protocol message: create, destroy, move or
    /// resize a window (16-bit little-endian fields after the kind byte).
    pub open spec fn ipc(self, msg: Seq<u8>) -> WsView {
        let f1 = le16(msg, 1) as u16;
        let f3 = le16(msg, 3) as u16;
        let f5 = le16(msg, 5) as u16;
        let f7 = le16(msg, 7) as u16;
        if msg[0] == MSG_CREATE_WINDOW {
            if self.windows.len() < MAX_WINDOWS {
                self.with_created(new_window(self.next_win_id, f1, f3, f5, f7, 0))
            } else {
                self
            }
        } else if msg[0] == MSG_DESTROY_WINDOW {
            self.destroyed(f1)
        } else if msg[0] == MSG_MOVE_WINDOW {
            match find_window(self.windows, f1) {
                Some(idx) => WsView {
                    needs_redraw: true,
                    ..self.with_window(idx, WinView { x: f3, y: f5, ..self.windows[idx] })
                },
                None => self,
            }
        } else if msg[0] == MSG_RESIZE_WINDOW {
            match find_window(self.windows, f1) {
                Some(idx) => WsView {
                    needs_redraw: true,
                    ..self.with_window(idx, WinView { w: f3, h: f5, ..self.windows[idx] })
                },
                None => self,
            }
        } else {
            self
        }
    }
}

/// `(px, py)` lies within `r` of `(cx, cy)`.
fn circle_hit_exec(px: i64, py: i64, cx: i64, cy: i64, r: i64) -> (b: bool)
    requires
        0 <= px < 0x10_0000,
        0 <= py < 0x10_0000,
        0 <= cx < 0x10_0000,
        0 <= cy < 0x10_0000,
        0 <= r < 0x10_0000,
    ensures
        b == circle_hit(px as int, py as int, cx as int, cy as int, r as int),
{
    let dx = px - cx;
    let dy = py - cy;
    assert(0 <= dx * dx < 0x100_0000_0000) by (nonlinear_arith)
        requires -0x10_0000 < dx < 0x10_0000;
    assert(0 <= dy * dy < 0x100_0000_0000) by (nonlinear_arith)
        requires -0x10_0000 < dy < 0x10_0000;
    assert(0 <= r * r < 0x100_0000_0000) by (nonlinear_arith)
        requires 0 <= r < 0x10_0000;
    dx * dx + dy * dy <= r * r
}

/// What part of window `w` the point is over.
fn window_hit_exec(w: &Window, x: u16, y: u16) -> (r: Option<HitTarget>)
    ensures
        r == window_hit(w@, x as int, y as int),
{
    if !w.visible {
        return None;
    }
    let wx = w.x as i64;
    let wy = w.y as i64;
    let light_y = wy + 18;
    let px = x as i64;
    let py = y as i64;
    if circle_hit_exec(px, py, wx + 16, light_y, 6) {
        return Some(HitTarget::TrafficLightClose);
    }
    if circle_hit_exec(px, py, wx + 32, light_y, 6) {
        return Some(HitTarget::TrafficLightMin);
    }
    if circle_hit_exec(px, py, wx + 48, light_y, 6) {
        return Some(HitTarget::TrafficLightMax);
    }
    let in_cols = px >= wx && px < wx + w.w as i64;
    if in_cols && py >= wy && py < wy + TITLE_BAR_H as i64 {
        return Some(HitTarget::TitleBar(w.id));
    }
    if in_cols && py >= wy + TITLE_BAR_H as i64 && py < wy + w.h as i64 {
        return Some(HitTarget::WindowBody(w.id));
    }
    None
}

impl WindowServer {
    /// The dock icon under the point.
    pub fn hit_test_dock(&self, x: u16, y: u16) -> (r: Option<usize>)
        requires
            self@.wf(),
        ensures
            r == self@.dock_hit(x as int, y as int),
    {
        let dy = self.dock_y();
        if (y as u32) >= dy && (y as u32) < dy + DOCK_H as u32 {
            let mut i: usize = 0;
            while i < NUM_DOCK_ICONS
                invariant
                    self@.wf(),
                    i <= NUM_DOCK_ICONS,
                    self@.dock_y() <= y < self@.dock_y() + DOCK_H,
                    self@.dock_icon_from(x as int, 0) == self@.dock_icon_from(x as int, i as int),
                decreases NUM_DOCK_ICONS - i,
            {
                let ix = self.dock_icon_x(i);
                if (x as u32) >= ix && (x as u32) < ix + ICON_SIZE as u32 {
                    return Some(i);
                }
                i = i + 1;
            }
        }
        None
    }

    /// What the point is over: the topmost window part under it, else a dock icon.
    pub fn hit_test(&self, x: u16, y: u16) -> (r: HitTarget)
        requires
            self@.wf(),
        ensures
            r == self@.hit_test(x as int, y as int),
    {
        let ghost wins = self@.windows;
        let mut k = self.windows.len();
        while k > 0
            invariant
                k <= self.windows@.len(),
                wins == self@.windows,
                windows_hit(wins, wins.len() as int, x as int, y as int) == windows_hit(wins, k as int, x as int, y as int),
            decreases k,
        {
            let w = &self.windows[k - 1];
            if let Some(t) = window_hit_exec(w, x, y) {
                return t;
            }
            k = k - 1;
        }
        match self.hit_test_dock(x, y) {
            Some(i) => HitTarget::DockIcon(i),
            None => HitTarget::Nothing,
        }
    }

    /// Replace window `idx`.
    fn set_window(&mut self, idx: usize, w: Window)
        requires
            idx < old(self)@.windows.len(),
        ensures
            final(self)@ == old(self)@.with_window(idx as int, w@),
            final(self).windows@.len() == old(self).windows@.len(),
    {
        let ghost s = self@;
        self.windows.set(idx, w);
        assert(self@.windows =~= s.windows.update(idx as int, w@));
    }

    /// Handle a mouse press (only the left button, 0, acts): traffic lights
    /// close, minimize or (un)maximize the focused window, the title bar
    /// focuses and starts a drag, the body focuses, a dock icon restores a
    /// minimized window or opens a new one.
    pub fn handle_mouse_down(&mut self, button: u8, x: u16, y: u16)
        requires
            old(self)@.wf(),
            button == 0 && old(self)@.hit_test(x as int, y as int) is DockIcon && old(self)@.dock_click_creates()
                ==> old(self).next_win_id < u16::MAX,
        ensures
            final(self)@ == old(self)@.mouse_down(button, x as int, y as int),
    {
        if button != 0 {
            return;
        }
        let ghost s = self@;
        let target = self.hit_test(x, y);
        match target {
            HitTarget::TrafficLightClose => {
                if let Some(idx) = self.find_window_idx(self.focused_win) {
                    let win = self.windows[idx];
                    if win.visible {
                        let win_id = win.id;
                        self.destroy_window(win_id);
                    }
                }
            },
            HitTarget::TrafficLightMin => {
                if let Some(idx) = self.find_window_idx(self.focused_win) {
                    let win = self.windows[idx];
                    if win.visible && !win.minimized {
                        self.set_window(idx, Window { minimized: true, visible: false, ..win });
                        self.needs_redraw = true;
                    }
                }
            },
            HitTarget::TrafficLightMax => {
                if let Some(idx) = self.find_window_idx(self.focused_win) {
                    let win = self.windows[idx];
                    if win.visible {
                        let updated = if win.maximized {
                            Window {
                                x: win.orig_x,
                                y: win.orig_y,
                                w: win.orig_w,
                                h: win.orig_h,
                                maximized: false,
                                visible: true,
                                ..win
                            }
                        } else {
                            Window {
                                orig_x: win.x,
                                orig_y: win.y,
                                orig_w: win.w,
                                orig_h: win.h,
                                x: 0,
                                y: MENU_BAR_H,
                                w: self.fb_width as u16,
                                h: (self.fb_height - DOCK_H as usize - MENU_BAR_H as usize) as u16,
                                maximized: true,
                                minimized: false,
                                visible: true,
                                ..win
                            }
                        };
                        self.set_window(idx, updated);
                        self.needs_redraw = true;
                    }
                }
            },
            HitTarget::TitleBar(win_id) => {
                self.focused_win = win_id;
                if let Some(idx) = self.find_window_idx(win_id) {
                    let win = self.windows[idx];
                    if !win.maximized {
                        self.dragging = true;
                        self.drag_win = win_id;
                        self.drag_off_x = win.x as i32 - x as i32;
                        self.drag_off_y = win.y as i32 - y as i32;
                    }
                }
            },
            HitTarget::WindowBody(win_id) => {
                self.focused_win = win_id;
            },
            HitTarget::DockIcon(_i) => {
                proof {
                    lemma_first_minimized(s.windows, 0);
                }
                let mut j: usize = 0;
                let mut restored = false;
                while j < self.windows.len()
                    invariant
                        !restored ==> self@ == s,
                        !restored ==> first_minimized(s.windows, 0) == first_minimized(s.windows, j as int),
                        restored ==> self@ == s.mouse_down(button, x as int, y as int),
                        j <= self.windows@.len(),
                        self@.windows.len() == s.windows.len(),
                        button == 0,
                        s.hit_test(x as int, y as int) == target,
                        target is DockIcon,
                    decreases self.windows.len() - j,
                {
                    if !restored && self.windows[j].minimized {
                        let win = self.windows[j];
                        self.set_window(j, Window { visible: true, minimized: false, ..win });
                        self.needs_redraw = true;
                        restored = true;
                    }
                    j = j + 1;
                }
                if !restored && self.windows.len() < MAX_WINDOWS {
                    let offset = self.windows.len() as u16 * 20;
                    let _ = self.create_window(100 + offset, 80 + offset, 600, 400, 0);
                }
            },
            HitTarget::Nothing => {},
        }
    }

    /// Move the window being dragged so its title bar follows the pointer.
    fn drag_to(&mut self, x: u16, y: u16)
        requires
            old(self)@.wf(),
        ensures
            final(self)@ == old(self)@.dragged(x as int, y as int),
    {
        if self.dragging {
            if let Some(idx) = self.find_window_idx(self.drag_win) {
                let win = self.windows[idx];
                if !win.maximized {
                    let ax = x as i64 + self.drag_off_x as i64;
                    let ay = y as i64 + self.drag_off_y as i64;
                    let cx = if ax >= 0 { ax } else { 0 };
                    let cy = if ay >= 0 { ay } else { 0 };
                    let lim_x = self.fb_width as i64 - 100;
                    let lim_y = self.fb_height as i64 - 50;
                    let new_x = (if cx <= lim_x { cx } else { lim_x }) as u16;
                    let new_y = (if cy <= lim_y { cy } else { lim_y }) as u16;
                    if new_x != win.x || new_y != win.y {
                        self.set_window(idx, Window { x: new_x, y: new_y, ..win });
                        self.needs_redraw = true;
                    }
                }
            }
        }
    }

    /// Handle a pointer move: drag, dock hover, and cursor position; returns
    /// whether the cursor moved (and must be redrawn).
    pub fn handle_mouse_move(&mut self, x: u16, y: u16) -> (moved: bool)
        requires
            old(self)@.wf(),
        ensures
            final(self)@ == old(self)@.mouse_move(x as int, y as int),
            moved == (final(self).cursor_x != old(self).cursor_x || final(self).cursor_y != old(self).cursor_y),
    {
        self.drag_to(x, y);
        let hovered = self.hit_test_dock(x, y);
        if hovered != self.hovered_dock {
            self.hovered_dock = hovered;
            self.needs_redraw = true;
        }
        let max_x: u16 = if self.fb_width > 16 { (self.fb_width - 16) as u16 } else { 0 };
        let max_y: u16 = if self.fb_height > 16 { (self.fb_height - 16) as u16 } else { 0 };
        let nx = if x <= max_x { x } else { max_x };
        let ny = if y <= max_y { y } else { max_y };
        let moved = nx != self.cursor_x || ny != self.cursor_y;
        self.cursor_x = nx;
        self.cursor_y = ny;
        moved
    }

    /// Releasing the button ends a drag.
    pub fn handle_mouse_up(&mut self)
        ensures
            final(self)@ == (WsView { dragging: false, ..old(self)@ }),
    {
        self.dragging = false;
    }

    /// A key press: the owner to forward it to, and the message.
    pub fn handle_key_press(&self, ascii: u8) -> (r: Option<(usize, [u8; IPC_PAYLOAD_SIZE])>)
        ensures
            match self@.key_forward(ascii) {
                Some((owner, msg)) => r matches Some((o, m)) && o == owner && m@ == msg,
                None => r is None,
            },
    {
        if self.focused_win > 0 {
            if let Some(idx) = self.find_window_idx(self.focused_win) {
                let owner = self.windows[idx].owner_pid;
                if owner > 0 {
                    let mut msg = [0u8; IPC_PAYLOAD_SIZE];
                    msg[0] = MSG_INPUT_EVENT;
                    msg[1] = INPUT_KEY_PRESS;
                    msg[2] = ascii;
                    assert(msg@ =~= self@.key_forward(ascii)->Some_0.1);
                    return Some((owner, msg));
                }
            }
        }
        None
    }

    /// Handle a window-protocol message from a client.
    pub fn handle_ipc_message(&mut self, msg: &[u8; IPC_PAYLOAD_SIZE])
        requires
            msg@[0] == MSG_CREATE_WINDOW && old(self)@.windows.len() < MAX_WINDOWS ==> old(self).next_win_id
                < u16::MAX,
        ensures
            final(self)@ == old(self)@.ipc(msg@),
    {
        let kind = msg[0];
        let f1 = parse_u16_at(msg, 1);
        let f3 = parse_u16_at(msg, 3);
        let f5 = parse_u16_at(msg, 5);
        let f7 = parse_u16_at(msg, 7);
        if kind == MSG_CREATE_WINDOW {
            if self.windows.len() < MAX_WINDOWS {
                let _ = self.create_window(f1, f3, f5, f7, 0);
            }
        } else if kind == MSG_DESTROY_WINDOW {
            self.destroy_window(f1);
        } else if kind == MSG_MOVE_WINDOW {
            if let Some(idx) = self.find_window_idx(f1) {
                let win = self.windows[idx];
                self.set_window(idx, Window { x: f3, y: f5, ..win });
                self.needs_redraw = true;
            }
        } else if kind == MSG_RESIZE_WINDOW {
            if let Some(idx) = self.find_window_idx(f1) {
                let win = self.windows[idx];
                self.set_window(idx, Window { w: f3, h: f5, ..win });
                self.needs_redraw = true;
            }
        }
    }
}

} // verus!
