//! Plain-value model of the display session: window descriptors, the
//! protocol requests the manager issues, and the session state that the
//! handlers read (screen size, recorded bar height, sticky split orientation).
//!
//! The process that owns the real X connection translates `XRequest` values
//! into protocol requests and flushes after every handled event.

use vstd::prelude::*;

use crate::geometry::{configured_geometry, spec_configured, ConfiguredRect, WindowChanges};

verus! {

/// An immutable snapshot of a managed top-level window: its server-side
/// identifier and its geometry in root coordinates. Identity is the `win`
/// field; the geometry is refreshed whenever it may have changed.
#[derive(Clone, Copy, Debug, PartialEq, Eq, Structural)]
pub struct Window {
    pub win: u32,
    pub x: i32,
    pub y: i32,
    pub width: i32,
    pub height: i32,
}

impl Window {
    /// Builds a descriptor from a window identifier and its queried geometry.
    pub fn new(win: u32, x: i32, y: i32, width: i32, height: i32) -> (w: Window)
        ensures
            w == (Window { win, x, y, width, height }),
    {
        Window { win, x, y, width, height }
    }

    /// The server-side identifier of the window.
    pub fn get_window(&self) -> (r: u32)
        ensures
            r == self.win,
    {
        self.win
    }
}

/// A descriptor refreshed to the rectangle just applied to the window: the
/// observed geometry after a configure request is the geometry that was
/// requested.
pub open spec fn placed(win: u32, r: ConfiguredRect) -> Window {
    Window { win, x: r.x, y: r.y, width: r.width, height: r.height }
}

/// The geometry change that requests exactly the frame of `w`.
pub open spec fn spec_frame_changes(w: Window) -> WindowChanges {
    WindowChanges {
        x: w.x as i16,
        y: w.y as i16,
        width: w.width as u16,
        height: w.height as u16,
        border_width: 0,
    }
}

/// Builds the geometry change requesting exactly the frame of `w`; the
/// frame must lie within the 16-bit coordinate space.
pub fn frame_changes(w: &Window) -> (c: WindowChanges)
    requires
        0 <= w.x,
        0 <= w.y,
        0 <= w.width,
        0 <= w.height,
        w.x + w.width <= 0x7fff,
        w.y + w.height <= 0x7fff,
    ensures
        c == spec_frame_changes(*w),
{
    WindowChanges {
        x: w.x as i16,
        y: w.y as i16,
        width: w.width as u16,
        height: w.height as u16,
        border_width: 0,
    }
}

/// The window identifiers of a descriptor sequence, in order.
pub open spec fn ids_of(s: Seq<Window>) -> Seq<u32> {
    s.map_values(|w: Window| w.win)
}

/// One protocol request the manager asks the display session to perform.
#[derive(Clone, Copy, Debug, PartialEq, Eq, Structural)]
pub enum XRequest {
    /// Apply a position, size and border width to a window.
    Configure { window: u32, rect: ConfiguredRect },
    /// Stack a window directly below a sibling.
    StackBelow { window: u32, sibling: u32 },
    /// Paint the border in the focused or the unfocused colour.
    SetBorder { window: u32, focused: bool },
    /// Give a window the input focus (revert-to pointer root).
    SetInputFocus { window: u32 },
    /// Subscribe to the per-client event mask on a window.
    RegisterWindowEvents { window: u32 },
    /// Map a window.
    MapWindow { window: u32 },
    /// Unmap a window.
    UnmapWindow { window: u32 },
    /// Destroy a window.
    DestroyWindow { window: u32 },
    /// Replace the current-desktop property on the root window.
    SetCurrentDesktop { index: u32 },
}

/// The session state that the verified handlers read and update: the root
/// window, the screen size, the height recorded for the status bar (zero
/// until a bar is mapped), and the sticky orientation used when windows are
/// inserted in manual mode.
#[derive(Clone, Copy, Debug, PartialEq, Eq, Structural)]
pub struct Session {
    pub root: u32,
    pub screen_width: u16,
    pub screen_height: u16,
    pub bar_height: u16,
    pub vertical: bool,
}

impl Session {
    /// Geometry sanity: X11 carries window coordinates as 16-bit signed
    /// integers, so the screen dimensions and the recorded bar height fit
    /// in that signed range.
    pub open spec fn wf(self) -> bool {
        self.screen_width <= 0x7fff && self.screen_height <= 0x7fff && self.bar_height <= 0x7fff
    }

    /// A fresh session: no bar recorded yet, vertical splits by default.
    pub fn new(root: u32, screen_width: u16, screen_height: u16) -> (s: Session)
        ensures
            s == (Session { root, screen_width, screen_height, bar_height: 0, vertical: true }),
    {
        Session { root, screen_width, screen_height, bar_height: 0, vertical: true }
    }

    /// The request that moves the input focus to a window.
    pub fn update_focus(&self, win: u32) -> (r: XRequest)
        ensures
            r == (XRequest::SetInputFocus { window: win }),
    {
        XRequest::SetInputFocus { window: win }
    }

    /// The request that stacks `win` directly below `sibling_win`.
    pub fn configure_window_stacking(&self, win: u32, sibling_win: u32) -> (r: XRequest)
        ensures
            r == (XRequest::StackBelow { window: win, sibling: sibling_win }),
    {
        XRequest::StackBelow { window: win, sibling: sibling_win }
    }

    /// The request that subscribes to the per-client events of a window.
    pub fn register_events_on_windows(&self, win: u32) -> (r: XRequest)
        ensures
            r == (XRequest::RegisterWindowEvents { window: win }),
    {
        XRequest::RegisterWindowEvents { window: win }
    }

    /// The request that paints a window border in the focused or the
    /// unfocused colour.
    pub fn configure_border(&self, win: u32, focus: bool) -> (r: XRequest)
        ensures
            r == (XRequest::SetBorder { window: win, focused: focus }),
    {
        XRequest::SetBorder { window: win, focused: focus }
    }

    /// The request that applies a rectangle to a window, after running it
    /// through the decoration algebra.
    pub fn configure_window(
        &self,
        win: &Window,
        cwin: &WindowChanges,
        border_width: u16,
        bar_height: i16,
        gaps: i16,
    ) -> (r: XRequest)
        ensures
            r == (XRequest::Configure {
                window: win.win,
                rect: spec_configured(*cwin, border_width as int, bar_height as int, gaps as int),
            }),
    {
        let rect = configured_geometry(cwin, border_width, bar_height, gaps);
        XRequest::Configure { window: win.win, rect }
    }

    /// A ConfigureRequest is honoured with zeroed decorations, unless the
    /// window's current height equals the recorded bar height: the bar is not
    /// a managed client and its requests are ignored.
    pub fn configure_request(&self, win: &Window, cwin: &WindowChanges) -> (r: Option<XRequest>)
        ensures
            win.height == self.bar_height ==> r is None,
            win.height != self.bar_height ==> r == Some(
                XRequest::Configure { window: win.win, rect: spec_configured(*cwin, 0, 0, 0) },
            ),
    {
        if win.height == self.bar_height as i32 {
            None
        } else {
            Some(self.configure_window(win, cwin, 0, 0, 0))
        }
    }

    /// Make the next manual-mode insertion split vertically.
    pub fn split_vertically(&mut self)
        ensures
            *final(self) == (Session { vertical: true, ..*old(self) }),
    {
        self.vertical = true;
    }

    /// Make the next manual-mode insertion split horizontally.
    pub fn split_horizontally(&mut self)
        ensures
            *final(self) == (Session { vertical: false, ..*old(self) }),
    {
        self.vertical = false;
    }
}

} // verus!
