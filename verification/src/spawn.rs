//! Adding a window to a session: the size its terminal starts with, the ID it
//! gets, where it is drawn, and how the focus moves to it. Starting its
//! process happens outside the library, between planning and adding.

use vstd::prelude::*;

use crate::layout::{content_rect_for, content_size_spec, floating_spec, max16, sat_sub16, window_winsize_for, winsize_spec, PaneRect, WinSize};

verus! {

/// What the session knows when a window is added.
#[derive(Clone, Copy, Debug, PartialEq, Eq, Structural)]
pub struct SessionWindows {
    /// The number of windows.
    pub count: usize,
    /// The index of the focused window, when there is one.
    pub active: usize,
    /// The next unused ID.
    pub next_id: usize,
}

/// How a new window starts.
#[derive(Clone, Copy, Debug, PartialEq, Eq, Structural)]
pub struct WindowPlan {
    /// Its ID.
    pub id: usize,
    /// The size its terminal starts with.
    pub winsize: WinSize,
    /// Where its content is drawn until the layout places it.
    pub pane_rect: PaneRect,
    /// The window that loses the focus (and is told so), if any.
    pub unfocus: Option<usize>,
}

/// A floating window gets the inside of the floating frame, any other window
/// the content area; the ID is the next unused one.
pub open spec fn window_plan_spec(s: SessionWindows, size: (u16, u16), pixels: (u16, u16), floating: bool, compact: bool) -> WindowPlan {
    WindowPlan {
        id: s.next_id,
        winsize: if floating {
            winsize_spec(
                size,
                pixels,
                (
                    max16(sat_sub16(floating_spec(size, compact).width, 2), 1),
                    max16(sat_sub16(floating_spec(size, compact).height, 2), 1),
                ),
            )
        } else {
            winsize_spec(size, pixels, content_size_spec(size, compact))
        },
        pane_rect: PaneRect {
            column: 0,
            row: 0,
            width: content_size_spec(size, compact).0,
            height: content_size_spec(size, compact).1,
        },
        unfocus: if s.count > 0 {
            Some(s.active)
        } else {
            None
        },
    }
}

/// Plans a new window.
pub fn plan_window(s: SessionWindows, size: (u16, u16), pixels: (u16, u16), floating: bool, compact: bool) -> (r: WindowPlan)
    ensures
        r == window_plan_spec(s, size, pixels, floating, compact),
{
    WindowPlan {
        id: s.next_id,
        winsize: window_winsize_for(size, pixels, floating, compact),
        pane_rect: content_rect_for(size, compact),
        unfocus: if s.count > 0 {
            Some(s.active)
        } else {
            None
        },
    }
}

/// Once its process runs, the window is appended and focused, and its ID is used up.
pub open spec fn with_window_spec(s: SessionWindows, plan: WindowPlan) -> SessionWindows {
    SessionWindows { count: (s.count + 1) as usize, active: s.count, next_id: (plan.id + 1) as usize }
}

/// Records a started window: it is appended and takes the focus.
pub fn add_window(s: &mut SessionWindows, plan: &WindowPlan)
    requires
        old(s).count < usize::MAX,
        plan.id < usize::MAX,
    ensures
        *final(s) == with_window_spec(*old(s), *plan),
{
    s.active = s.count;
    s.count = s.count + 1;
    s.next_id = plan.id + 1;
}

/// Adding a planned window focuses it, and the next window gets a fresh ID.
pub proof fn added_window_is_focused_and_ids_stay_fresh(s: SessionWindows, size: (u16, u16), pixels: (u16, u16), floating: bool, compact: bool)
    requires
        s.next_id < usize::MAX,
        s.count < usize::MAX,
    ensures
        with_window_spec(s, window_plan_spec(s, size, pixels, floating, compact)).active == s.count,
        with_window_spec(s, window_plan_spec(s, size, pixels, floating, compact)).next_id > window_plan_spec(s, size, pixels, floating, compact).id,
{
}

} // verus!
