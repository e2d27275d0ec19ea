//! The four-quadrant split-scroll compositor.
//!
//! An outer rectangle is partitioned into a fixed corner, a horizontally
//! scrolling top strip, a vertically scrolling left strip, and a fully
//! scrolling body. All four share one scroll offset; each quadrant has an
//! outer rectangle (its clip) and a content rectangle (where its content is
//! laid out, shifted against the scroll offset).

use vstd::prelude::*;

use crate::geom::{Rect, Vec2, MAX_COORD};

verus! {

/// A scroll area with a portion of its left and top sides held fixed.
#[derive(Clone, Copy, Debug)]
pub struct SplitScroll {
    /// Whether scrolling is enabled on each axis.
    pub scroll_enabled_x: bool,
    pub scroll_enabled_y: bool,
    /// Width of the fixed left band, and height of the fixed top band.
    pub fixed_size: Vec2,
    /// Size of the viewport of the fully scrolling region.
    pub scroll_outer_size: Vec2,
    /// Size of the content of the fully scrolling region, the fixed bands
    /// not counted.
    pub scroll_content_size: Vec2,
}

/// Where each quadrant is clipped and where its content goes, for one frame.
#[derive(Clone, Copy, Debug, PartialEq, Eq, Structural)]
pub struct QuadrantLayout {
    /// The whole control.
    pub rect: Rect,
    /// The fixed corner; its content is never shifted.
    pub left_top: Rect,
    /// Clip of the horizontally scrolling top strip.
    pub right_top_outer: Rect,
    /// Content of the top strip, shifted left by the scroll offset.
    pub right_top_content: Rect,
    /// Clip of the vertically scrolling left strip.
    pub left_bottom_outer: Rect,
    /// Content of the left strip, shifted up by the scroll offset.
    pub left_bottom_content: Rect,
    /// Clip of the fully scrolling body.
    pub right_bottom_outer: Rect,
    /// Content of the body, shifted on both axes by the scroll offset.
    pub right_bottom_content: Rect,
}

impl SplitScroll {
    /// Sizes are non-negative and small enough that every coordinate the
    /// layout produces stays within [`MAX_COORD`].
    pub open spec fn wf(self) -> bool {
        &&& 0 <= self.fixed_size.x <= MAX_COORD / 4
        &&& 0 <= self.fixed_size.y <= MAX_COORD / 4
        &&& 0 <= self.scroll_outer_size.x <= MAX_COORD / 4
        &&& 0 <= self.scroll_outer_size.y <= MAX_COORD / 4
        &&& 0 <= self.scroll_content_size.x <= MAX_COORD / 4
        &&& 0 <= self.scroll_content_size.y <= MAX_COORD / 4
    }

    /// The quadrant geometry for a control whose top-left corner sits at
    /// `origin`, under the scroll offset the body was painted with.
    pub open spec fn layout_spec(self, origin: Vec2, scroll_offset: Vec2) -> QuadrantLayout {
        let rect = Rect {
            min: origin,
            max: Vec2 {
                x: (origin.x + self.fixed_size.x + self.scroll_outer_size.x) as i64,
                y: (origin.y + self.fixed_size.y + self.scroll_outer_size.y) as i64,
            },
        };
        let split = Vec2 {
            x: (origin.x + self.fixed_size.x) as i64,
            y: (origin.y + self.fixed_size.y) as i64,
        };
        QuadrantLayout {
            rect,
            left_top: Rect { min: origin, max: split },
            right_top_outer: Rect {
                min: Vec2 { x: split.x, y: origin.y },
                max: Vec2 { x: rect.max.x, y: split.y },
            },
            right_top_content: Rect {
                min: Vec2 { x: (split.x - scroll_offset.x) as i64, y: origin.y },
                max: Vec2 {
                    x: (split.x - scroll_offset.x + self.scroll_content_size.x) as i64,
                    y: split.y,
                },
            },
            left_bottom_outer: Rect {
                min: Vec2 { x: origin.x, y: split.y },
                max: Vec2 { x: split.x, y: rect.max.y },
            },
            left_bottom_content: Rect {
                min: Vec2 { x: origin.x, y: (split.y - scroll_offset.y) as i64 },
                max: Vec2 {
                    x: split.x,
                    y: (split.y - scroll_offset.y + self.scroll_content_size.y) as i64,
                },
            },
            right_bottom_outer: Rect { min: split, max: rect.max },
            right_bottom_content: Rect {
                min: Vec2 {
                    x: (split.x - scroll_offset.x) as i64,
                    y: (split.y - scroll_offset.y) as i64,
                },
                max: Vec2 {
                    x: (split.x - scroll_offset.x + self.scroll_content_size.x) as i64,
                    y: (split.y - scroll_offset.y + self.scroll_content_size.y) as i64,
                },
            },
        }
    }

    /// Compute the four quadrants for one frame.
    pub fn layout(&self, origin: Vec2, scroll_offset: Vec2) -> (q: QuadrantLayout)
        requires
            self.wf(),
            -MAX_COORD / 4 <= origin.x <= MAX_COORD / 4,
            -MAX_COORD / 4 <= origin.y <= MAX_COORD / 4,
            0 <= scroll_offset.x <= MAX_COORD / 4,
            0 <= scroll_offset.y <= MAX_COORD / 4,
        ensures
            q == self.layout_spec(origin, scroll_offset),
    {
        let rect = Rect {
            min: origin,
            max: Vec2 {
                x: origin.x + self.fixed_size.x + self.scroll_outer_size.x,
                y: origin.y + self.fixed_size.y + self.scroll_outer_size.y,
            },
        };
        let split = Vec2 { x: origin.x + self.fixed_size.x, y: origin.y + self.fixed_size.y };
        QuadrantLayout {
            rect,
            left_top: Rect { min: origin, max: split },
            right_top_outer: Rect {
                min: Vec2 { x: split.x, y: origin.y },
                max: Vec2 { x: rect.max.x, y: split.y },
            },
            right_top_content: Rect {
                min: Vec2 { x: split.x - scroll_offset.x, y: origin.y },
                max: Vec2 { x: split.x - scroll_offset.x + self.scroll_content_size.x, y: split.y },
            },
            left_bottom_outer: Rect {
                min: Vec2 { x: origin.x, y: split.y },
                max: Vec2 { x: split.x, y: rect.max.y },
            },
            left_bottom_content: Rect {
                min: Vec2 { x: origin.x, y: split.y - scroll_offset.y },
                max: Vec2 { x: split.x, y: split.y - scroll_offset.y + self.scroll_content_size.y },
            },
            right_bottom_outer: Rect { min: split, max: rect.max },
            right_bottom_content: Rect {
                min: Vec2 { x: split.x - scroll_offset.x, y: split.y - scroll_offset.y },
                max: Vec2 {
                    x: split.x - scroll_offset.x + self.scroll_content_size.x,
                    y: split.y - scroll_offset.y + self.scroll_content_size.y,
                },
            },
        }
    }
}

/// Scroll-offset coherence law: within one frame's layout, the top strip is
/// shifted by exactly the horizontal offset the body was painted with, and
/// the left strip by exactly the body's vertical offset, so no quadrant lags
/// the body.
pub proof fn lemma_offset_coherence(s: SplitScroll, origin: Vec2, scroll_offset: Vec2)
    requires
        s.wf(),
        -MAX_COORD / 4 <= origin.x <= MAX_COORD / 4,
        -MAX_COORD / 4 <= origin.y <= MAX_COORD / 4,
        0 <= scroll_offset.x <= MAX_COORD / 4,
        0 <= scroll_offset.y <= MAX_COORD / 4,
    ensures
        s.layout_spec(origin, scroll_offset).right_top_content.min.x == s.layout_spec(
            origin,
            scroll_offset,
        ).right_bottom_content.min.x,
        s.layout_spec(origin, scroll_offset).left_bottom_content.min.y == s.layout_spec(
            origin,
            scroll_offset,
        ).right_bottom_content.min.y,
        s.layout_spec(origin, scroll_offset).right_top_content.min.x == s.layout_spec(
            origin,
            scroll_offset,
        ).right_top_outer.min.x - scroll_offset.x,
        s.layout_spec(origin, scroll_offset).left_bottom_content.min.y == s.layout_spec(
            origin,
            scroll_offset,
        ).left_bottom_outer.min.y - scroll_offset.y,
{
}

/// Partition law: the four quadrant clips tile the control exactly — every
/// point of the control lies in precisely one quadrant, and a zero fixed
/// band or a zero viewport degrades to empty quadrants rather than failing.
pub proof fn lemma_quadrants_tile(s: SplitScroll, origin: Vec2, scroll_offset: Vec2, p: Vec2)
    requires
        s.wf(),
        -MAX_COORD / 4 <= origin.x <= MAX_COORD / 4,
        -MAX_COORD / 4 <= origin.y <= MAX_COORD / 4,
    ensures
        s.layout_spec(origin, scroll_offset).rect.contains_spec(p) <==> {
            let q = s.layout_spec(origin, scroll_offset);
            q.left_top.contains_spec(p) || q.right_top_outer.contains_spec(p)
                || q.left_bottom_outer.contains_spec(p) || q.right_bottom_outer.contains_spec(p)
        },
        !(s.layout_spec(origin, scroll_offset).left_top.contains_spec(p) && s.layout_spec(
            origin,
            scroll_offset,
        ).right_bottom_outer.contains_spec(p)),
        !(s.layout_spec(origin, scroll_offset).left_top.contains_spec(p) && s.layout_spec(
            origin,
            scroll_offset,
        ).right_top_outer.contains_spec(p)),
        !(s.layout_spec(origin, scroll_offset).left_top.contains_spec(p) && s.layout_spec(
            origin,
            scroll_offset,
        ).left_bottom_outer.contains_spec(p)),
        !(s.layout_spec(origin, scroll_offset).right_top_outer.contains_spec(p) && s.layout_spec(
            origin,
            scroll_offset,
        ).left_bottom_outer.contains_spec(p)),
        !(s.layout_spec(origin, scroll_offset).right_top_outer.contains_spec(p) && s.layout_spec(
            origin,
            scroll_offset,
        ).right_bottom_outer.contains_spec(p)),
        !(s.layout_spec(origin, scroll_offset).left_bottom_outer.contains_spec(p) && s.layout_spec(
            origin,
            scroll_offset,
        ).right_bottom_outer.contains_spec(p)),
{
}

} // verus!
