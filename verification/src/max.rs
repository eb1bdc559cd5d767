//! The max layout: every managed window is given the whole screen (minus
//! decorations), and only the focused window's border is highlighted.

use vstd::prelude::*;

use crate::geometry::{
    configured_geometry, spec_configured, ConfiguredRect, WindowChanges, BAR_HEIGHT, BORDER_WIDTH,
    GAPS,
};
use crate::layouts::Layouts;
use crate::x::{ids_of, placed, Session, Window, XRequest};

verus! {

/// The requested rectangle covering the whole screen.
pub open spec fn full_screen_changes(sw: int, sh: int) -> WindowChanges {
    WindowChanges { x: 0, y: 0, width: sw as u16, height: sh as u16, border_width: 0 }
}

/// The rectangle every window receives in max mode: the whole screen run
/// through the decoration algebra.
pub open spec fn max_rect(sw: int, sh: int) -> ConfiguredRect {
    spec_configured(
        full_screen_changes(sw, sh),
        BORDER_WIDTH as int,
        BAR_HEIGHT as int,
        GAPS as int,
    )
}

/// The requests max mode issues for the identifier sequence `ids` with
/// focused index `f`: each window is configured to the full-screen
/// rectangle and its border is highlighted exactly when it is focused.
pub open spec fn max_request_seq(ids: Seq<u32>, f: int, sw: int, sh: int) -> Seq<XRequest> {
    Seq::new(
        2 * ids.len(),
        |k: int|
            if k % 2 == 0 {
                XRequest::Configure { window: ids[k / 2], rect: max_rect(sw, sh) }
            } else {
                XRequest::SetBorder { window: ids[k / 2], focused: k / 2 == f }
            },
    )
}

/// The refreshed descriptors after max mode has been applied to `ids`.
pub open spec fn max_window_seq(ids: Seq<u32>, sw: int, sh: int) -> Seq<Window> {
    Seq::new(ids.len(), |i: int| placed(ids[i], max_rect(sw, sh)))
}

/// Applies the max layout: every window is configured to the full-screen
/// rectangle and its border is highlighted exactly when it is the focused
/// one. Each descriptor is refreshed to the rectangle just applied.
pub fn max(layouts: &mut Layouts, session: &Session) -> (reqs: Vec<XRequest>)
    requires
        old(layouts).inv(),
    ensures
        final(layouts).inv(),
        final(layouts).focus_win == old(layouts).focus_win,
        final(layouts).current_layout == old(layouts).current_layout,
        final(layouts).tree == old(layouts).tree,
        final(layouts).windows@ == max_window_seq(
            ids_of(old(layouts).windows@),
            session.screen_width as int,
            session.screen_height as int,
        ),
        reqs@ == max_request_seq(
            ids_of(old(layouts).windows@),
            old(layouts).focus_win as int,
            session.screen_width as int,
            session.screen_height as int,
        ),
{
    let mut reqs: Vec<XRequest> = Vec::new();
    let cwin = WindowChanges {
        x: 0,
        y: 0,
        width: session.screen_width,
        height: session.screen_height,
        border_width: 0,
    };
    let ghost rect = max_rect(session.screen_width as int, session.screen_height as int);
    let n = layouts.windows.len();
    let mut i: usize = 0;
    while i < n
        invariant
            i <= n,
            n == old(layouts).windows@.len(),
            layouts.windows@.len() == n,
            layouts.focus_win == old(layouts).focus_win,
            layouts.current_layout == old(layouts).current_layout,
            layouts.tree == old(layouts).tree,
            old(layouts).inv(),
            cwin == full_screen_changes(session.screen_width as int, session.screen_height as int),
            rect == max_rect(session.screen_width as int, session.screen_height as int),
            forall|j: int|
                i <= j < n ==> layouts.windows@[j] == old(layouts).windows@[j],
            forall|j: int|
                0 <= j < i ==> layouts.windows@[j] == placed(old(layouts).windows@[j].win, rect),
            reqs@.len() == 2 * i,
            forall|j: int|
                0 <= j < i ==> reqs@[2 * j] == (XRequest::Configure {
                    window: old(layouts).windows@[j].win,
                    rect,
                }) && reqs@[2 * j + 1] == (XRequest::SetBorder {
                    window: old(layouts).windows@[j].win,
                    focused: j == old(layouts).focus_win,
                }),
        decreases n - i,
    {
        let w = layouts.windows[i];
        let req = session.configure_window(&w, &cwin, BORDER_WIDTH, BAR_HEIGHT, GAPS);
        reqs.push(req);
        reqs.push(session.configure_border(w.win, i == layouts.focus_win));
        let r = configured_geometry(&cwin, BORDER_WIDTH, BAR_HEIGHT, GAPS);
        layouts.windows[i] = Window { win: w.win, x: r.x, y: r.y, width: r.width, height: r.height };
        i += 1;
    }
    proof {
        assert(final(layouts).windows@ =~= max_window_seq(
            ids_of(old(layouts).windows@),
            session.screen_width as int,
            session.screen_height as int,
        ));
        assert(reqs@ =~= max_request_seq(
            ids_of(old(layouts).windows@),
            old(layouts).focus_win as int,
            session.screen_width as int,
            session.screen_height as int,
        ));
        assert forall|id: u32| #[trigger]
            final(layouts).tree.has_id(id) implies final(layouts).has_window(id) by {
            assert(old(layouts).has_window(id));
            let k = choose|k: int|
                0 <= k < old(layouts).windows@.len() && old(layouts).windows@[k].win == id;
            assert(final(layouts).windows@[k].win == id);
        }
    }
    reqs
}

} // verus!
