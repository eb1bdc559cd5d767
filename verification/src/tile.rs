//! The tile layout: a vertical master–stack arrangement. The master window
//! occupies the left half of the screen at full height; the remaining
//! windows share the right half top to bottom. The stack windows from the
//! second one down are raised by the bar height, with the height enlarged by
//! the same amount, so the column tiles without a seam under the bar
//! reservation.

use vstd::prelude::*;

use crate::geometry::{
    configured_geometry, spec_configured, ConfiguredRect, WindowChanges, BAR_HEIGHT, BORDER_WIDTH,
    GAPS,
};
use crate::layouts::Layouts;
use crate::max::{max, max_request_seq, max_rect, max_window_seq};
use crate::x::{ids_of, placed, Session, Window, XRequest};
use vstd::arithmetic::div_mod::lemma_fundamental_div_mod;
use vstd::arithmetic::div_mod::lemma_mod_bound;
use vstd::arithmetic::mul::lemma_mul_inequality;

verus! {

/// The rectangle requested for the window at index `i` of `n` (with
/// `n >= 2`): index 0 is the master on the left half; the stack windows
/// split the right half evenly, each `sh / (n - 1)` tall, the entries from
/// index 2 on shifted up by the bar height with the height enlarged to
/// compensate.
pub open spec fn tile_changes(i: int, n: int, sw: int, sh: int) -> WindowChanges {
    let mw = sw / 2;
    let per = sh / (n - 1);
    if i == 0 {
        WindowChanges { x: 0, y: 0, width: mw as u16, height: sh as u16, border_width: 0 }
    } else if i == 1 {
        WindowChanges {
            x: mw as i16,
            y: 0,
            width: mw as u16,
            height: per as u16,
            border_width: 0,
        }
    } else {
        WindowChanges {
            x: mw as i16,
            y: ((i - 1) * per - BAR_HEIGHT) as i16,
            width: mw as u16,
            height: (per + BAR_HEIGHT) as u16,
            border_width: 0,
        }
    }
}

/// The rectangle applied for the window at index `i` of `n`: the requested
/// rectangle run through the decoration algebra.
pub open spec fn tile_rect(i: int, n: int, sw: int, sh: int) -> ConfiguredRect {
    spec_configured(tile_changes(i, n, sw, sh), BORDER_WIDTH as int, BAR_HEIGHT as int, GAPS as int)
}

/// The stack height quotient is bounded by the screen height: for
/// `1 <= i < n`, `(i - 1) * (sh / (n - 1)) <= sh`.
proof fn lemma_stack_offset_bound(i: int, n: int, sh: int)
    requires
        2 <= n,
        1 <= i < n,
        0 <= sh,
    ensures
        0 <= (i - 1) * (sh / (n - 1)),
        (i - 1) * (sh / (n - 1)) <= sh,
{
    let per = sh / (n - 1);
    lemma_fundamental_div_mod(sh, n - 1);
    lemma_mod_bound(sh, n - 1);
    lemma_mul_inequality(0, i - 1, per);
    lemma_mul_inequality(i - 1, n - 1, per);
}

/// The requests tile mode issues for two or more windows with identifier
/// sequence `ids` and focused index `f`: each window is configured to its
/// tile rectangle and its border is highlighted exactly when it is focused.
pub open spec fn tile_request_seq(ids: Seq<u32>, f: int, sw: int, sh: int) -> Seq<XRequest> {
    Seq::new(
        2 * ids.len(),
        |k: int|
            if k % 2 == 0 {
                XRequest::Configure { window: ids[k / 2], rect: tile_rect(k / 2, ids.len() as int, sw, sh) }
            } else {
                XRequest::SetBorder { window: ids[k / 2], focused: k / 2 == f }
            },
    )
}

/// The refreshed descriptors after tile mode has been applied to `ids`.
pub open spec fn tile_window_seq(ids: Seq<u32>, sw: int, sh: int) -> Seq<Window> {
    Seq::new(ids.len(), |i: int| placed(ids[i], tile_rect(i, ids.len() as int, sw, sh)))
}

/// Applies the tile layout. An empty workspace is left alone; a single
/// window is given the whole screen as in max mode; with two or more
/// windows every window is configured to its tile rectangle and its border
/// is highlighted exactly when it is the focused one. Each descriptor is
/// refreshed to the rectangle just applied.
pub fn tile(layouts: &mut Layouts, session: &Session) -> (reqs: Vec<XRequest>)
    requires
        old(layouts).inv(),
        session.wf(),
        old(layouts).windows@.len() < 0x7fff,
    ensures
        final(layouts).inv(),
        final(layouts).focus_win == old(layouts).focus_win,
        final(layouts).current_layout == old(layouts).current_layout,
        final(layouts).tree == old(layouts).tree,
        final(layouts).windows@.len() == old(layouts).windows@.len(),
        old(layouts).windows@.len() == 0 ==> reqs@.len() == 0 && final(layouts).windows
            == old(layouts).windows,
        old(layouts).windows@.len() == 1 ==> final(layouts).windows@ == max_window_seq(
            ids_of(old(layouts).windows@),
            session.screen_width as int,
            session.screen_height as int,
        ) && reqs@ == max_request_seq(
            ids_of(old(layouts).windows@),
            old(layouts).focus_win as int,
            session.screen_width as int,
            session.screen_height as int,
        ),
        old(layouts).windows@.len() >= 2 ==> final(layouts).windows@ == tile_window_seq(
            ids_of(old(layouts).windows@),
            session.screen_width as int,
            session.screen_height as int,
        ) && reqs@ == tile_request_seq(
            ids_of(old(layouts).windows@),
            old(layouts).focus_win as int,
            session.screen_width as int,
            session.screen_height as int,
        ),
{
    let n = layouts.windows.len();
    if n == 0 {
        return Vec::new();
    }
    if n == 1 {
        return max(layouts, session);
    }
    let mw: u16 = session.screen_width / 2;
    let per: u16 = session.screen_height / ((n - 1) as u16);
    let ghost sw = session.screen_width as int;
    let ghost sh = session.screen_height as int;
    let mut reqs: Vec<XRequest> = Vec::new();
    let mut i: usize = 0;
    while i < n
        invariant
            2 <= n < 0x7fff,
            i <= n,
            n == old(layouts).windows@.len(),
            layouts.windows@.len() == n,
            layouts.focus_win == old(layouts).focus_win,
            layouts.current_layout == old(layouts).current_layout,
            layouts.tree == old(layouts).tree,
            old(layouts).inv(),
            session.wf(),
            sw == session.screen_width as int,
            sh == session.screen_height as int,
            mw == sw / 2,
            per == sh / (n - 1),
            forall|j: int| i <= j < n ==> layouts.windows@[j] == old(layouts).windows@[j],
            forall|j: int|
                0 <= j < i ==> layouts.windows@[j] == placed(
                    old(layouts).windows@[j].win,
                    tile_rect(j, n as int, sw, sh),
                ),
            reqs@.len() == 2 * i,
            forall|j: int|
                0 <= j < i ==> reqs@[2 * j] == (XRequest::Configure {
                    window: old(layouts).windows@[j].win,
                    rect: tile_rect(j, n as int, sw, sh),
                }) && reqs@[2 * j + 1] == (XRequest::SetBorder {
                    window: old(layouts).windows@[j].win,
                    focused: j == old(layouts).focus_win,
                }),
        decreases n - i,
    {
        let cwin = if i == 0 {
            WindowChanges {
                x: 0,
                y: 0,
                width: mw,
                height: session.screen_height,
                border_width: 0,
            }
        } else if i == 1 {
            WindowChanges { x: mw as i16, y: 0, width: mw, height: per, border_width: 0 }
        } else {
            proof {
                lemma_stack_offset_bound(i as int, n as int, sh);
            }
            let y = (i as i32 - 1) * per as i32 - BAR_HEIGHT as i32;
            WindowChanges {
                x: mw as i16,
                y: y as i16,
                width: mw,
                height: per + (BAR_HEIGHT as u16),
                border_width: 0,
            }
        };
        proof {
            assert(cwin == tile_changes(i as int, n as int, sw, sh));
        }
        let w = layouts.windows[i];
        let req = session.configure_window(&w, &cwin, BORDER_WIDTH, BAR_HEIGHT, GAPS);
        reqs.push(req);
        reqs.push(session.configure_border(w.win, i == layouts.focus_win));
        let r = configured_geometry(&cwin, BORDER_WIDTH, BAR_HEIGHT, GAPS);
        layouts.windows[i] = Window { win: w.win, x: r.x, y: r.y, width: r.width, height: r.height };
        i += 1;
    }
    proof {
        assert(final(layouts).windows@ =~= tile_window_seq(ids_of(old(layouts).windows@), sw, sh));
        assert(reqs@ =~= tile_request_seq(
            ids_of(old(layouts).windows@),
            old(layouts).focus_win as int,
            sw,
            sh,
        ));
        assert forall|id: u32| #[trigger]
            final(layouts).tree.has_id(id) implies final(layouts).has_window(id) by {
            assert(old(layouts).has_window(id));
            let k = choose|k: int|
                0 <= k < old(layouts).windows@.len() && old(layouts).windows@[k].win == id;
            assert(final(layouts).windows@[k].win == id);
        }
    }
    reqs
}

/// Whether a configured rectangle lies within the screen.
pub open spec fn rect_within_screen(r: ConfiguredRect, sw: int, sh: int) -> bool {
    0 <= r.x && 0 <= r.y && r.x + r.width <= sw && r.y + r.height <= sh
}

/// Whether two configured rectangles do not overlap.
pub open spec fn rects_disjoint(a: ConfiguredRect, b: ConfiguredRect) -> bool {
    a.x + a.width <= b.x || b.x + b.width <= a.x || a.y + a.height <= b.y || b.y + b.height <= a.y
}

/// The tiled rectangles cover no more than the screen and do not overlap:
/// on a screen wide and tall enough that no dimension is clamped, every
/// tile rectangle lies within the screen and any two are disjoint — so the
/// sum of their areas cannot exceed the screen's.
pub proof fn lemma_tile_rects_apart(i: int, j: int, n: int, sw: int, sh: int)
    requires
        2 <= n,
        0 <= i < n,
        0 <= j < n,
        i != j,
        0 <= sw <= 0x7fff,
        0 <= sh <= 0x7fff,
        sw / 2 >= 21,
        sh >= 47,
        sh / (n - 1) >= 47,
    ensures
        rect_within_screen(tile_rect(i, n, sw, sh), sw, sh),
        rects_disjoint(tile_rect(i, n, sw, sh), tile_rect(j, n, sw, sh)),
{
    lemma_tile_rect_shape(i, n, sw, sh);
    lemma_tile_rect_shape(j, n, sw, sh);
    let per = sh / (n - 1);
    lemma_fundamental_div_mod(sh, n - 1);
    lemma_mod_bound(sh, n - 1);
    if i >= 1 && j >= 1 {
        let a = if i < j {
            i
        } else {
            j
        };
        let b = if i < j {
            j
        } else {
            i
        };
        lemma_mul_inequality(a, b - 1, per);
    }
}

/// The exact shape of each tile rectangle on a screen where nothing is
/// clamped: the master fills the left half, and the stack windows descend
/// the right half at `sh / (n - 1)` intervals.
proof fn lemma_tile_rect_shape(i: int, n: int, sw: int, sh: int)
    requires
        2 <= n,
        0 <= i < n,
        0 <= sw <= 0x7fff,
        0 <= sh <= 0x7fff,
        sw / 2 >= 21,
        sh >= 47,
        sh / (n - 1) >= 47,
    ensures
        ({
            let mw = sw / 2;
            let per = sh / (n - 1);
            let r = tile_rect(i, n, sw, sh);
            &&& r.width == mw - 20
            &&& (i == 0 ==> r.x == 5 && r.y == 31 && r.height == sh - 46)
            &&& (i == 1 ==> r.x == mw + 5 && r.y == 31 && r.height == per - 46)
            &&& (i >= 2 ==> r.x == mw + 5 && r.y == (i - 1) * per + 5 && r.height == per - 20)
            &&& (i == 0 ==> r.y + r.height == sh - 15)
            &&& (i >= 1 ==> r.y + r.height == i * per - 15)
            &&& i * per <= sh
        }),
{
    let mw = sw / 2;
    let per = sh / (n - 1);
    lemma_fundamental_div_mod(sh, n - 1);
    lemma_mod_bound(sh, n - 1);
    lemma_mul_inequality(i, n - 1, per);
    if i >= 2 {
        assert((i - 1) * per + per == i * per) by (nonlinear_arith);
        lemma_mul_inequality(0, i - 1, per);
    }
    if i == 1 {
        assert(1 * per == per) by (nonlinear_arith);
    }
}

} // verus!
