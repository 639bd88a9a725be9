//! GUI framework: colors, geometry, software framebuffer, events, layout and
//! widgets, plus first-responder tracking.

use vstd::prelude::*;
use crate::gui::drawing::{Framebuffer, Rect};

pub mod color;
pub mod drawing;
pub mod event;
pub mod layout;
pub mod widget;
pub mod widget_draw;
pub mod window;

verus! {

/// Source of view identifiers: each call hands out the next one.
pub struct ViewIds {
    next: u64,
}

impl ViewIds {
    pub closed spec fn peek(&self) -> u64 {
        self.next
    }

    /// Identifiers start at 1.
    pub fn new() -> (ids: ViewIds)
        ensures
            ids.peek() == 1,
    {
        ViewIds { next: 1 }
    }

    /// The next identifier; identifiers increase strictly.
    pub fn next_view_id(&mut self) -> (id: u64)
        requires
            old(self).peek() < u64::MAX,
        ensures
            id == old(self).peek(),
            final(self).peek() == id + 1,
    {
        let id = self.next;
        self.next = self.next + 1;
        id
    }
}

/// First-responder tracking for keyboard event delivery.
pub struct ResponderChain {
    /// The view ID that currently has keyboard focus.
    first_responder: Option<u64>,
    /// The view ID that the mouse is hovering over.
    hovered_view: Option<u64>,
}

impl ResponderChain {
    pub closed spec fn spec_first_responder(&self) -> Option<u64> {
        self.first_responder
    }

    pub closed spec fn spec_hovered(&self) -> Option<u64> {
        self.hovered_view
    }

    pub fn new() -> (r: ResponderChain)
        ensures
            r.spec_first_responder() is None,
            r.spec_hovered() is None,
    {
        ResponderChain { first_responder: None, hovered_view: None }
    }

    pub fn set_first_responder(&mut self, view_id: Option<u64>)
        ensures
            final(self).spec_first_responder() == view_id,
            final(self).spec_hovered() == old(self).spec_hovered(),
    {
        self.first_responder = view_id;
    }

    pub fn first_responder(&self) -> (r: Option<u64>)
        ensures
            r == self.spec_first_responder(),
    {
        self.first_responder
    }

    pub fn set_hovered(&mut self, view_id: Option<u64>)
        ensures
            final(self).spec_hovered() == view_id,
            final(self).spec_first_responder() == old(self).spec_first_responder(),
    {
        self.hovered_view = view_id;
    }

    pub fn hovered(&self) -> (r: Option<u64>)
        ensures
            r == self.spec_hovered(),
    {
        self.hovered_view
    }
}

/// Context passed through the draw tree: the target framebuffer and the
/// dirty rectangle that needs redrawing.
pub struct DrawContext<'a> {
    pub framebuffer: &'a mut Framebuffer,
    pub dirty_rect: Rect,
}

impl<'a> DrawContext<'a> {
    pub fn new(fb: &'a mut Framebuffer, dirty: Rect) -> (ctx: DrawContext<'a>)
        ensures
            ctx.dirty_rect == dirty,
            *ctx.framebuffer == *old(fb),
    {
        DrawContext { framebuffer: fb, dirty_rect: dirty }
    }
}

} // verus!
