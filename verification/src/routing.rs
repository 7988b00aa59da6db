//! Where a decoded key goes: to an open overlay (help, the session manager,
//! the rename prompt, a history search), to the actions bound to it in the
//! current mode, or through to the focused pane. Running the actions and the
//! overlays' own handling happen elsewhere.

use vstd::prelude::*;

use crate::app::same_text;
use crate::config::{entry, has_entry, Config, ConfigModel};
use crate::input::{DecodedKey, MouseAction};

verus! {

/// The overlay that has the keyboard, if any.
pub enum Overlay {
    /// Help for this mode is shown.
    Help(String),
    SessionManager,
    Rename,
    /// A history search whose query is being edited.
    HistorySearch,
    Nothing,
}

pub enum OverlayModel {
    Help(Seq<char>),
    SessionManager,
    Rename,
    HistorySearch,
    Nothing,
}

pub open spec fn overlay_view(o: Overlay) -> OverlayModel {
    match o {
        Overlay::Help(m) => OverlayModel::Help(m@),
        Overlay::SessionManager => OverlayModel::SessionManager,
        Overlay::Rename => OverlayModel::Rename,
        Overlay::HistorySearch => OverlayModel::HistorySearch,
        Overlay::Nothing => OverlayModel::Nothing,
    }
}

/// What becomes of one key.
#[derive(Clone, Copy, Debug, PartialEq, Eq, Structural)]
pub enum KeyRoute {
    /// Close the help overlay.
    CloseHelp,
    /// Close the help overlay and run the actions bound to the key in the help's mode.
    CloseHelpAndRun,
    /// Drop the key.
    Ignore,
    /// Hand the key to the session manager.
    ToSessionManager,
    /// Hand the key to the rename prompt.
    ToRename,
    /// Hand the key to the history search.
    ToHistorySearch,
    /// Run the actions bound to the key in the current mode.
    Run,
    /// Send the key's bytes to the focused pane.
    Forward,
}

/// Whether `key` has a binding in `mode`.
pub open spec fn bound(c: ConfigModel, mode: Seq<char>, key: Seq<char>) -> bool {
    has_entry(c.bindings, mode) && has_entry(entry(c.bindings, mode), key)
}

/// An open overlay takes every key; the help overlay closes on `esc` or `?`,
/// and on a key bound in its mode, whose actions then run. Otherwise key
/// releases count only in locked mode, bound keys run their actions, and in
/// locked mode every other key goes to the focused pane.
pub open spec fn route_spec(c: ConfigModel, overlay: OverlayModel, mode: Seq<char>, key: Seq<char>, event_type: u8) -> KeyRoute {
    match overlay {
        OverlayModel::Help(h) => if key == "esc"@ || key == "?"@ {
            KeyRoute::CloseHelp
        } else if bound(c, h, key) {
            KeyRoute::CloseHelpAndRun
        } else {
            KeyRoute::Ignore
        },
        OverlayModel::SessionManager => KeyRoute::ToSessionManager,
        OverlayModel::Rename => KeyRoute::ToRename,
        OverlayModel::HistorySearch => KeyRoute::ToHistorySearch,
        OverlayModel::Nothing => if event_type == 3 && mode != "locked"@ {
            KeyRoute::Ignore
        } else if bound(c, mode, key) {
            KeyRoute::Run
        } else if mode == "locked"@ {
            KeyRoute::Forward
        } else {
            KeyRoute::Ignore
        },
    }
}

pub fn route_key(config: &Config, overlay: &Overlay, mode: &str, key: &DecodedKey) -> (r: KeyRoute)
    ensures
        r == route_spec(config@, overlay_view(*overlay), mode@, key.name@, key.event_type),
{
    match overlay {
        Overlay::Help(h) => {
            if same_text(key.name.as_str(), "esc") || same_text(key.name.as_str(), "?") {
                KeyRoute::CloseHelp
            } else if config.actions(h.as_str(), key.name.as_str()).is_some() {
                KeyRoute::CloseHelpAndRun
            } else {
                KeyRoute::Ignore
            }
        },
        Overlay::SessionManager => KeyRoute::ToSessionManager,
        Overlay::Rename => KeyRoute::ToRename,
        Overlay::HistorySearch => KeyRoute::ToHistorySearch,
        Overlay::Nothing => {
            let locked = same_text(mode, "locked");
            if key.event_type == 3 && !locked {
                KeyRoute::Ignore
            } else if config.actions(mode, key.name.as_str()).is_some() {
                KeyRoute::Run
            } else if locked {
                KeyRoute::Forward
            } else {
                KeyRoute::Ignore
            }
        },
    }
}


/// What the server knows when a mouse report arrives.
#[derive(Clone, Copy, Debug, PartialEq, Eq, Structural)]
pub struct MouseContext {
    /// A button went down on the status bar and has not come up yet.
    pub status_mouse_down: bool,
    /// Text is selected.
    pub selecting: bool,
    /// A drag (of the window bar or a pane border) is in progress.
    pub dragging: bool,
    /// The report lies on the status bar.
    pub on_status_bar: bool,
    /// An overlay has the keyboard.
    pub overlay_open: bool,
    /// The window tab under the report, if any.
    pub window_tab: Option<usize>,
    /// The pane border under the report, if any.
    pub border: bool,
    /// The focused pane shows its history.
    pub history_mode: bool,
    /// The current mode is locked.
    pub locked: bool,
    /// The pane under the report, when it is not the focused one.
    pub other_pane: Option<usize>,
}

/// What becomes of one mouse report.
#[derive(Clone, Copy, Debug, PartialEq, Eq, Structural)]
pub enum MouseRoute {
    /// The status bar takes it; `click` when a press there is to be acted on.
    StatusBar { click: bool },
    /// Dropped, as an overlay has the keyboard.
    Swallow,
    /// It continues the drag in progress.
    ContinueDrag,
    /// A press on a window tab: select that tab and start dragging the bar.
    SelectTab(usize),
    /// A press on a pane border: start resizing.
    StartResize,
    /// It scrolls or selects in the pane's history.
    History,
    /// Locked mode: focus the pane under a press first when it is another
    /// one, then pass the report to the focused pane if it asked for mouse input.
    Pane { focus: Option<usize> },
    /// Nothing to do.
    Ignore,
}

pub open spec fn is_press(m: MouseAction) -> bool {
    m is SelectStart
}

/// The status bar keeps a press that began on it until the button comes up,
/// and takes reports on it unless a drag or a selection is under way. Open
/// overlays swallow the rest; then drags, tab and border presses, history
/// and, in locked mode, the panes get them.
pub open spec fn mouse_spec(c: MouseContext, m: MouseAction) -> (bool, MouseRoute) {
    let captured = c.status_mouse_down && !is_press(m);
    let dragging_selection = c.selecting && (m is SelectExtend || m is SelectEnd);
    let on_bar = c.on_status_bar && !c.dragging && !dragging_selection;
    if captured || on_bar {
        let down = if m is SelectEnd {
            false
        } else if !captured && is_press(m) {
            true
        } else {
            c.status_mouse_down
        };
        (down, MouseRoute::StatusBar { click: !captured && is_press(m) })
    } else if c.overlay_open {
        (c.status_mouse_down, MouseRoute::Swallow)
    } else if c.dragging {
        (c.status_mouse_down, MouseRoute::ContinueDrag)
    } else if is_press(m) && c.window_tab is Some {
        (c.status_mouse_down, MouseRoute::SelectTab(c.window_tab->0))
    } else if is_press(m) && c.border {
        (c.status_mouse_down, MouseRoute::StartResize)
    } else if c.history_mode {
        (c.status_mouse_down, MouseRoute::History)
    } else if c.locked {
        (c.status_mouse_down, MouseRoute::Pane { focus: if is_press(m) { c.other_pane } else { None } })
    } else {
        (c.status_mouse_down, MouseRoute::Ignore)
    }
}

/// Routes one mouse report; returns whether a status-bar press is now held, and the route.
pub fn route_mouse(c: MouseContext, m: MouseAction) -> (r: (bool, MouseRoute))
    ensures
        r == mouse_spec(c, m),
{
    let press = matches!(m, MouseAction::SelectStart(_));
    let captured = c.status_mouse_down && !press;
    let dragging_selection = c.selecting && matches!(m, MouseAction::SelectExtend(_) | MouseAction::SelectEnd(_));
    let on_bar = c.on_status_bar && !c.dragging && !dragging_selection;
    if captured || on_bar {
        let down = if matches!(m, MouseAction::SelectEnd(_)) {
            false
        } else if !captured && press {
            true
        } else {
            c.status_mouse_down
        };
        return (down, MouseRoute::StatusBar { click: !captured && press });
    }
    if c.overlay_open {
        return (c.status_mouse_down, MouseRoute::Swallow);
    }
    if c.dragging {
        return (c.status_mouse_down, MouseRoute::ContinueDrag);
    }
    if press {
        if let Some(tab) = c.window_tab {
            return (c.status_mouse_down, MouseRoute::SelectTab(tab));
        }
        if c.border {
            return (c.status_mouse_down, MouseRoute::StartResize);
        }
    }
    if c.history_mode {
        return (c.status_mouse_down, MouseRoute::History);
    }
    if c.locked {
        return (c.status_mouse_down, MouseRoute::Pane { focus: if press { c.other_pane } else { None } });
    }
    (c.status_mouse_down, MouseRoute::Ignore)
}

/// In locked mode with no overlay, a key with no binding always reaches the
/// focused pane, whether pressed, repeated or released.
pub proof fn locked_mode_forwards_unbound_keys(c: ConfigModel, key: Seq<char>, event_type: u8)
    requires
        !bound(c, "locked"@, key),
    ensures
        route_spec(c, OverlayModel::Nothing, "locked"@, key, event_type) == KeyRoute::Forward,
{
}

/// While an overlay other than help is open, no key reaches a pane or runs a binding.
pub proof fn overlays_capture_every_key(c: ConfigModel, overlay: OverlayModel, mode: Seq<char>, key: Seq<char>, event_type: u8)
    requires
        overlay !is Nothing,
    ensures
        route_spec(c, overlay, mode, key, event_type) != KeyRoute::Forward,
        route_spec(c, overlay, mode, key, event_type) != KeyRoute::Run,
{
}

} // verus!
