//! Layout: edge insets and stack views that arrange subview frames in a row or
//! a column.

use vstd::prelude::*;
use crate::gui::drawing::Rect;

verus! {

/// Edge insets for padding.
#[derive(Clone, Copy, Debug)]
pub struct EdgeInsets {
    pub top: u32,
    pub left: u32,
    pub bottom: u32,
    pub right: u32,
}

impl EdgeInsets {
    pub fn zero() -> (e: EdgeInsets)
        ensures
            e == (EdgeInsets { top: 0, left: 0, bottom: 0, right: 0 }),
    {
        EdgeInsets { top: 0, left: 0, bottom: 0, right: 0 }
    }

    pub fn all(v: u32) -> (e: EdgeInsets)
        ensures
            e == (EdgeInsets { top: v, left: v, bottom: v, right: v }),
    {
        EdgeInsets { top: v, left: v, bottom: v, right: v }
    }

    pub fn horizontal(&self) -> (r: u32)
        requires
            self.left + self.right <= u32::MAX,
        ensures
            r == self.left + self.right,
    {
        self.left + self.right
    }

    pub fn vertical(&self) -> (r: u32)
        requires
            self.top + self.bottom <= u32::MAX,
        ensures
            r == self.top + self.bottom,
    {
        self.top + self.bottom
    }
}

/// Layout axis for StackView.
#[derive(Clone, Copy, Debug, PartialEq, Eq, Structural)]
pub enum LayoutAxis {
    Vertical,
    Horizontal,
}

/// Alignment within a stack.
#[derive(Clone, Copy, Debug, PartialEq, Eq, Structural)]
pub enum LayoutAlignment {
    Leading,
    Center,
    Trailing,
    Fill,
}

/// Distribution of space in a stack.
#[derive(Clone, Copy, Debug, PartialEq, Eq, Structural)]
pub enum LayoutDistribution {
    EqualSpacing,
    FillEqually,
    FillProportionally,
}

/// Stack layout: arranges subviews in a row or column.
pub struct StackView {
    pub axis: LayoutAxis,
    pub alignment: LayoutAlignment,
    pub distribution: LayoutDistribution,
    pub spacing: u32,
    pub padding: EdgeInsets,
}

/// Simple absolute positioning: subviews keep their frames.
pub struct AbsoluteLayout;

pub open spec fn sat_sub(a: int, b: int) -> int {
    if a >= b { a - b } else { 0 }
}

/// Length of a frame along the stack's axis.
pub open spec fn main_len(axis: LayoutAxis, r: Rect) -> int {
    if axis == LayoutAxis::Vertical { r.height as int } else { r.width as int }
}

/// Length of a frame across the stack's axis.
pub open spec fn cross_len(axis: LayoutAxis, r: Rect) -> int {
    if axis == LayoutAxis::Vertical { r.width as int } else { r.height as int }
}

/// Sum of the main lengths of the first `k` frames.
pub open spec fn sum_main(axis: LayoutAxis, frames: Seq<Rect>, k: int) -> int
    decreases k,
{
    if k <= 0 { 0 } else { sum_main(axis, frames, k - 1) + main_len(axis, frames[k - 1]) }
}

impl StackView {
    /// Top-left corner of the padded content area.
    pub open spec fn content_x(self, bounds: Rect) -> int {
        bounds.x + self.padding.left
    }

    pub open spec fn content_y(self, bounds: Rect) -> int {
        bounds.y + self.padding.top
    }

    /// Size of the padded content area along and across the axis.
    pub open spec fn avail_main(self, bounds: Rect) -> int {
        if self.axis == LayoutAxis::Vertical {
            sat_sub(bounds.height as int, self.padding.top + self.padding.bottom)
        } else {
            sat_sub(bounds.width as int, self.padding.left + self.padding.right)
        }
    }

    pub open spec fn avail_cross(self, bounds: Rect) -> int {
        if self.axis == LayoutAxis::Vertical {
            sat_sub(bounds.width as int, self.padding.left + self.padding.right)
        } else {
            sat_sub(bounds.height as int, self.padding.top + self.padding.bottom)
        }
    }

    /// Where the first slot starts along the axis.
    pub open spec fn start(self, bounds: Rect) -> int {
        if self.axis == LayoutAxis::Vertical { self.content_y(bounds) } else { self.content_x(bounds) }
    }

    pub open spec fn total_spacing(self, n: int) -> int {
        self.spacing * sat_sub(n, 1)
    }

    /// Length of slot `i` along the axis: an equal share of the space left
    /// after spacing, or the frame's own length.
    pub open spec fn slot_len(self, frames: Seq<Rect>, bounds: Rect, i: int) -> int {
        let n = frames.len() as int;
        if self.distribution == LayoutDistribution::FillEqually {
            sat_sub(self.avail_main(bounds), self.total_spacing(n)) / (if n > 1 { n } else { 1 })
        } else {
            main_len(self.axis, frames[i])
        }
    }

    /// Advance between the end of one slot and the start of the next: the
    /// spacing, or with equal spacing the leftover space shared between the
    /// gaps when that is larger.
    pub open spec fn step(self, frames: Seq<Rect>, bounds: Rect) -> int {
        let n = frames.len() as int;
        if self.distribution == LayoutDistribution::FillEqually {
            self.spacing as int
        } else {
            let gap = if n > 1 {
                sat_sub(self.avail_main(bounds), sum_main(self.axis, frames, n)) / (n - 1)
            } else {
                0
            };
            if gap >= self.spacing { gap } else { self.spacing as int }
        }
    }

    /// Start of slot `i` along the axis.
    pub open spec fn slot_pos(self, frames: Seq<Rect>, bounds: Rect, i: int) -> int
        decreases i,
    {
        if i <= 0 {
            self.start(bounds)
        } else {
            self.slot_pos(frames, bounds, i - 1) + self.slot_len(frames, bounds, i - 1) + self.step(frames, bounds)
        }
    }

    /// Length of slot `i` across the axis.
    pub open spec fn slot_cross(self, frames: Seq<Rect>, bounds: Rect, i: int) -> int {
        let avail = self.avail_cross(bounds);
        if self.distribution == LayoutDistribution::FillEqually || self.alignment == LayoutAlignment::Fill {
            avail
        } else if cross_len(self.axis, frames[i]) <= avail {
            cross_len(self.axis, frames[i])
        } else {
            avail
        }
    }

    /// The frame the stack gives subview `i`.
    pub open spec fn slot_rect(self, frames: Seq<Rect>, bounds: Rect, i: int) -> Rect {
        let pos = self.slot_pos(frames, bounds, i) as u32;
        let len = self.slot_len(frames, bounds, i) as u32;
        let cross = self.slot_cross(frames, bounds, i) as u32;
        if self.axis == LayoutAxis::Vertical {
            Rect { x: self.content_x(bounds) as u32, y: pos, width: cross, height: len }
        } else {
            Rect { x: pos, y: self.content_y(bounds) as u32, width: len, height: cross }
        }
    }

    /// Every quantity the layout computes fits in a `u32`.
    pub open spec fn fits(self, frames: Seq<Rect>, bounds: Rect) -> bool {
        let n = frames.len() as int;
        &&& n <= u32::MAX
        &&& self.content_x(bounds) <= u32::MAX
        &&& self.content_y(bounds) <= u32::MAX
        &&& self.padding.left + self.padding.right <= u32::MAX
        &&& self.padding.top + self.padding.bottom <= u32::MAX
        &&& sum_main(self.axis, frames, n) <= u32::MAX
        &&& self.total_spacing(n) <= u32::MAX
        &&& self.slot_pos(frames, bounds, n) <= u32::MAX
    }

    pub fn vertical() -> (s: StackView)
        ensures
            s.axis == LayoutAxis::Vertical,
            s.alignment == LayoutAlignment::Fill,
            s.distribution == LayoutDistribution::EqualSpacing,
            s.spacing == 8,
            s.padding == (EdgeInsets { top: 8, left: 8, bottom: 8, right: 8 }),
    {
        StackView {
            axis: LayoutAxis::Vertical,
            alignment: LayoutAlignment::Fill,
            distribution: LayoutDistribution::EqualSpacing,
            spacing: 8,
            padding: EdgeInsets::all(8),
        }
    }

    pub fn horizontal() -> (s: StackView)
        ensures
            s.axis == LayoutAxis::Horizontal,
            s.alignment == LayoutAlignment::Fill,
            s.distribution == LayoutDistribution::EqualSpacing,
            s.spacing == 8,
            s.padding == (EdgeInsets { top: 8, left: 8, bottom: 8, right: 8 }),
    {
        StackView {
            axis: LayoutAxis::Horizontal,
            alignment: LayoutAlignment::Fill,
            distribution: LayoutDistribution::EqualSpacing,
            spacing: 8,
            padding: EdgeInsets::all(8),
        }
    }

    /// Give each subview frame its slot within `bounds`. Proportional
    /// distribution is computed in floating point and is not handled here.
    pub fn layout_subviews(&self, frames: &mut Vec<Rect>, bounds: Rect)
        requires
            self.distribution != LayoutDistribution::FillProportionally,
            old(frames)@.len() > 0 ==> self.fits(old(frames)@, bounds),
        ensures
            final(frames)@.len() == old(frames)@.len(),
            forall|i: int| 0 <= i < old(frames)@.len() ==> final(frames)@[i] == self.slot_rect(old(frames)@, bounds, i),
    {
        let ghost orig = frames@;
        if frames.len() == 0 {
            return;
        }
        let content_x = bounds.x + self.padding.left;
        let content_y = bounds.y + self.padding.top;
        let content_w = bounds.width.saturating_sub(self.padding.horizontal());
        let content_h = bounds.height.saturating_sub(self.padding.vertical());
        let vertical = match self.axis {
            LayoutAxis::Vertical => true,
            LayoutAxis::Horizontal => false,
        };
        let (start, avail_main, avail_cross) = if vertical {
            (content_y, content_h, content_w)
        } else {
            (content_x, content_w, content_h)
        };
        let n = frames.len() as u32;
        // Total natural length along the axis.
        let mut total: u32 = 0;
        let mut k: usize = 0;
        while k < frames.len()
            invariant
                frames@ == orig,
                k <= frames@.len(),
                vertical == (self.axis == LayoutAxis::Vertical),
                sum_main(self.axis, orig, orig.len() as int) <= u32::MAX,
                total == sum_main(self.axis, orig, k as int),
            decreases frames.len() - k,
        {
            proof {
                lemma_sum_main_mono(self.axis, orig, k as int + 1, orig.len() as int);
            }
            let r = frames[k];
            let m = if vertical { r.height } else { r.width };
            total = total + m;
            k = k + 1;
        }
        let total_spacing = self.spacing * (n - 1);
        let fill_equally = match self.distribution {
            LayoutDistribution::FillEqually => true,
            _ => false,
        };
        let each = avail_main.saturating_sub(total_spacing) / (if n > 1 { n } else { 1 });
        let step = if fill_equally {
            self.spacing
        } else {
            let extra = avail_main.saturating_sub(total);
            let gap = if n > 1 { extra / (n - 1) } else { 0 };
            if gap >= self.spacing { gap } else { self.spacing }
        };
        let fill_cross = match self.alignment {
            LayoutAlignment::Fill => true,
            _ => false,
        };
        assert(step == self.step(orig, bounds));
        let mut pos = start;
        let mut i: usize = 0;
        while i < frames.len()
            invariant
                frames@.len() == orig.len(),
                n == orig.len(),
                i <= orig.len(),
                self.distribution != LayoutDistribution::FillProportionally,
                self.fits(orig, bounds),
                fill_equally == (self.distribution == LayoutDistribution::FillEqually),
                fill_cross == (self.alignment == LayoutAlignment::Fill),
                vertical == (self.axis == LayoutAxis::Vertical),
                step == self.step(orig, bounds),
                each == sat_sub(self.avail_main(bounds), self.total_spacing(n as int)) / (if n > 1 { n as int } else { 1 }),
                avail_cross == self.avail_cross(bounds),
                content_x == self.content_x(bounds),
                content_y == self.content_y(bounds),
                pos == self.slot_pos(orig, bounds, i as int),
                forall|j: int| i <= j < orig.len() ==> frames@[j] == orig[j],
                forall|j: int| 0 <= j < i ==> frames@[j] == self.slot_rect(orig, bounds, j),
            decreases orig.len() - i,
        {
            let r = frames[i];
            let len = if fill_equally {
                each
            } else if vertical {
                r.height
            } else {
                r.width
            };
            let natural_cross = if vertical { r.width } else { r.height };
            let cross = if fill_equally || fill_cross {
                avail_cross
            } else if natural_cross <= avail_cross {
                natural_cross
            } else {
                avail_cross
            };
            let slot = if vertical {
                Rect::new(content_x, pos, cross, len)
            } else {
                Rect::new(pos, content_y, len, cross)
            };
            frames.set(i, slot);
            proof {
                lemma_slot_pos_mono(*self, orig, bounds, i as int + 1, orig.len() as int);
            }
            pos = pos + len + step;
            i = i + 1;
        }
    }
}

proof fn lemma_sum_main_mono(axis: LayoutAxis, frames: Seq<Rect>, i: int, j: int)
    requires
        0 <= i <= j <= frames.len(),
    ensures
        sum_main(axis, frames, i) <= sum_main(axis, frames, j),
    decreases j - i,
{
    if i < j {
        lemma_sum_main_mono(axis, frames, i, j - 1);
    }
}

proof fn lemma_slot_pos_mono(sv: StackView, frames: Seq<Rect>, bounds: Rect, i: int, j: int)
    requires
        0 <= i <= j <= frames.len(),
        sv.distribution != LayoutDistribution::FillProportionally,
    ensures
        sv.slot_pos(frames, bounds, i) <= sv.slot_pos(frames, bounds, j),
    decreases j - i,
{
    if i < j {
        lemma_slot_pos_mono(sv, frames, bounds, i, j - 1);
        assert(sv.slot_len(frames, bounds, j - 1) >= 0);
        assert(sv.step(frames, bounds) >= 0);
    }
}

} // verus!
