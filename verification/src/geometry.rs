//! Decoration algebra: how a requested window rectangle is turned into the
//! rectangle actually applied on the X server, accounting for gaps, the extra
//! border width, and the height reserved for the status bar.

use vstd::prelude::*;

verus! {

/// Gap kept between a window frame and its assigned region, in pixels.
pub const GAPS: i16 = 5;

/// Extra border width added to every configured window, in pixels.
pub const BORDER_WIDTH: u16 = 5;

/// Height reserved at the top of the screen for the status bar, in pixels.
pub const BAR_HEIGHT: i16 = 26;

/// A geometry change requested for a window, as carried by a
/// ConfigureRequest event or produced by a layout.
#[derive(Clone, Copy, Debug, PartialEq, Eq, Structural)]
pub struct WindowChanges {
    pub x: i16,
    pub y: i16,
    pub width: u16,
    pub height: u16,
    pub border_width: u16,
}

/// The rectangle actually sent to the X server for a window, after the
/// decoration algebra has been applied to a requested rectangle.
#[derive(Clone, Copy, Debug, PartialEq, Eq, Structural)]
pub struct ConfiguredRect {
    pub x: i32,
    pub y: i32,
    pub width: i32,
    pub height: i32,
    pub border_width: i32,
}

/// A window dimension may never collapse to nothing: non-positive results of
/// the decoration algebra are clamped to one pixel.
pub open spec fn clamp_dim(v: int) -> int {
    if v <= 0 {
        1
    } else {
        v
    }
}

/// The decoration algebra on a single field tuple, over the integers.
pub open spec fn spec_configured(
    c: WindowChanges,
    border_width: int,
    bar_height: int,
    gaps: int,
) -> ConfiguredRect {
    ConfiguredRect {
        x: (c.x + gaps) as i32,
        y: (c.y + bar_height + gaps) as i32,
        width: clamp_dim(c.width - 2 * gaps - 2 * border_width) as i32,
        height: clamp_dim(c.height - bar_height - 2 * gaps - 2 * border_width) as i32,
        border_width: (c.border_width + border_width) as i32,
    }
}

/// Applies the decoration algebra to a requested rectangle: the position is
/// pushed right and down by the gap (and below the bar reservation), and the
/// size is shrunk by the gaps and by the added border on both sides, clamped
/// so that no window collapses to zero.
pub fn configured_geometry(c: &WindowChanges, border_width: u16, bar_height: i16, gaps: i16) -> (r:
    ConfiguredRect)
    ensures
        r == spec_configured(*c, border_width as int, bar_height as int, gaps as int),
        r.x == c.x + gaps,
        r.y == c.y + bar_height + gaps,
        r.width == clamp_dim(c.width - 2 * gaps - 2 * border_width),
        r.height == clamp_dim(c.height - bar_height - 2 * gaps - 2 * border_width),
        r.border_width == c.border_width + border_width,
{
    let x = c.x as i32 + gaps as i32;
    let y = c.y as i32 + bar_height as i32 + gaps as i32;
    let mut width = c.width as i32 - 2 * gaps as i32 - 2 * border_width as i32;
    if width <= 0 {
        width = 1;
    }
    let mut height = c.height as i32 - bar_height as i32 - 2 * gaps as i32 - 2 * border_width
        as i32;
    if height <= 0 {
        height = 1;
    }
    let bw = c.border_width as i32 + border_width as i32;
    ConfiguredRect { x, y, width, height, border_width: bw }
}

} // verus!
