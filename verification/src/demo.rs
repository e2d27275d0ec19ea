//! Demonstration scenes: the fixed configurations the example application
//! renders. The scenes own no host state; each exposes the split-scroll
//! control it shows, and a host-side front end does the painting.

use vstd::prelude::*;

use crate::geom::Vec2;
use crate::split_scroll::SplitScroll;

verus! {

/// A scene showing a plain four-quadrant split-scroll area filled with a
/// checkerboard.
#[derive(Clone, Copy, Debug, Default)]
pub struct SplitScrollDemo {}

impl SplitScrollDemo {
    /// The control this scene shows: a small fixed corner and a large
    /// scrollable body.
    pub fn split_scroll(&self) -> (s: SplitScroll)
        ensures
            s.scroll_enabled_x && s.scroll_enabled_y,
            s.fixed_size == (Vec2 { x: 123, y: 37 }),
            s.scroll_outer_size == (Vec2 { x: 600, y: 400 }),
            s.scroll_content_size == (Vec2 { x: 10000, y: 10000 }),
            s.wf(),
    {
        SplitScroll {
            scroll_enabled_x: true,
            scroll_enabled_y: true,
            fixed_size: Vec2 { x: 123, y: 37 },
            scroll_outer_size: Vec2 { x: 600, y: 400 },
            scroll_content_size: Vec2 { x: 10000, y: 10000 },
        }
    }
}

/// A scene showing plots inside a partially scrolling split area; it uses
/// the same control geometry as [`SplitScrollDemo`].
#[derive(Clone, Copy, Debug, Default)]
pub struct PlotDemo {}

impl PlotDemo {
    /// The control this scene shows.
    pub fn split_scroll(&self) -> (s: SplitScroll)
        ensures
            s.scroll_enabled_x && s.scroll_enabled_y,
            s.fixed_size == (Vec2 { x: 123, y: 37 }),
            s.scroll_outer_size == (Vec2 { x: 600, y: 400 }),
            s.scroll_content_size == (Vec2 { x: 10000, y: 10000 }),
            s.wf(),
    {
        SplitScroll {
            scroll_enabled_x: true,
            scroll_enabled_y: true,
            fixed_size: Vec2 { x: 123, y: 37 },
            scroll_outer_size: Vec2 { x: 600, y: 400 },
            scroll_content_size: Vec2 { x: 10000, y: 10000 },
        }
    }
}

} // verus!
