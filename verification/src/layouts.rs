//! Per-workspace layout engine state: the managed-window sequence, the
//! focused index, the active layout mode, and the manual-mode split tree.

use vstd::prelude::*;

use crate::config_parser::ParsedConfig;
use crate::geometry::{spec_configured, BAR_HEIGHT, BORDER_WIDTH, GAPS};
use crate::max::{max, max_request_seq, max_window_seq};
use crate::tile::{tile, tile_request_seq, tile_window_seq};
use crate::tree::{
    focus_after_remove, frame_ok, grown_leaf, leaf_index, leaves, lemma_frames_ok_leaves,
    primary_is_width, remove_leaf, split_first, split_second, Tree,
};
use crate::x::{frame_changes, ids_of, spec_frame_changes, Session, Window, XRequest};

verus! {

/// The layout modes.
#[derive(Clone, Copy, Debug, PartialEq, Eq, Structural)]
pub enum WmLayouts {
    Tile,
    Float,
    Max,
}

/// The layout mode a configured layout name selects: `tile` and `max` name
/// those modes, anything else selects the float mode.
pub open spec fn layout_of_name(s: Seq<char>) -> WmLayouts {
    if s == "tile"@ {
        WmLayouts::Tile
    } else if s == "max"@ {
        WmLayouts::Max
    } else {
        WmLayouts::Float
    }
}

/// The name of a layout mode.
pub open spec fn name_of_layout(l: WmLayouts) -> Seq<char> {
    match l {
        WmLayouts::Tile => "tile"@,
        WmLayouts::Max => "max"@,
        WmLayouts::Float => "float"@,
    }
}

/// The position of the first entry of `s` holding the window `id`, or
/// zero when none does, scanning from `i`.
pub open spec fn win_index_from(s: Seq<Window>, id: u32, i: int) -> int
    decreases s.len() - i,
{
    if i < 0 || i >= s.len() {
        0
    } else if s[i].win == id {
        i
    } else {
        win_index_from(s, id, i + 1)
    }
}

/// The position of the first entry of `s` holding the window `id`.
pub open spec fn win_index(s: Seq<Window>, id: u32) -> int {
    win_index_from(s, id, 0)
}

/// The position of the first entry of `names` equal to `cur`, or zero when
/// none matches, scanning from `i`.
pub open spec fn first_match(names: Seq<Seq<char>>, cur: Seq<char>, i: int) -> int
    decreases names.len() - i,
{
    if i < 0 || i >= names.len() {
        0
    } else if names[i] == cur {
        i
    } else {
        first_match(names, cur, i + 1)
    }
}

/// The index of the layout that follows `cur` in the rotation over
/// `names`: one past the first occurrence of `cur`, wrapping to the front
/// from the last entry.
pub open spec fn next_layout_index(names: Seq<Seq<char>>, cur: Seq<char>) -> int {
    let i = first_match(names, cur, 0);
    if i == names.len() - 1 {
        0
    } else {
        i + 1
    }
}

/// The descriptors after layout `l` has been applied to the sequence `s`:
/// max places every window on the full screen; tile does so too for a
/// single window and otherwise builds the master–stack arrangement; float
/// leaves every window where it is.
pub open spec fn apply_layout_windows(l: WmLayouts, s: Seq<Window>, sw: int, sh: int) -> Seq<
    Window,
> {
    match l {
        WmLayouts::Max => max_window_seq(ids_of(s), sw, sh),
        WmLayouts::Tile => if s.len() == 0 {
            s
        } else if s.len() == 1 {
            max_window_seq(ids_of(s), sw, sh)
        } else {
            tile_window_seq(ids_of(s), sw, sh)
        },
        WmLayouts::Float => s,
    }
}

/// The requests that applying layout `l` to the sequence `s` with focused
/// index `f` issues.
pub open spec fn apply_layout_requests(l: WmLayouts, s: Seq<Window>, f: int, sw: int, sh: int) -> Seq<
    XRequest,
> {
    match l {
        WmLayouts::Max => max_request_seq(ids_of(s), f, sw, sh),
        WmLayouts::Tile => if s.len() == 0 {
            Seq::empty()
        } else if s.len() == 1 {
            max_request_seq(ids_of(s), f, sw, sh)
        } else {
            tile_request_seq(ids_of(s), f, sw, sh)
        },
        WmLayouts::Float => Seq::empty(),
    }
}

/// The frame of the first leaf planted in an empty manual tree: the whole
/// screen.
pub open spec fn root_window(id: u32, sw: int, sh: int) -> Window {
    Window { win: id, x: 0, y: 0, width: sw as i32, height: sh as i32 }
}

/// The managed sequence after a manual insertion of `win` into the engine
/// `l`: the first window covers the whole screen; otherwise the focused
/// leaf's entry shrinks to the first half of its frame and the new window
/// is appended with the second half.
pub open spec fn manual_insert_windows(l: Layouts, win_id: u32, vertical: bool, sw: int, sh: int) -> Seq<
    Window,
> {
    match l.tree.root {
        None => l.windows@.push(root_window(win_id, sw, sh)),
        Some(n) => {
            let fid = l.tree.focused;
            let k = leaf_index(n, fid);
            let old_leaf = leaves(n)[k];
            l.windows@.update(win_index(l.windows@, fid), split_first(old_leaf, vertical)).push(
                split_second(old_leaf, win_id, vertical),
            )
        },
    }
}

/// The leaf sequence of the manual tree after the insertion.
pub open spec fn manual_insert_leaves(l: Layouts, win_id: u32, vertical: bool, sw: int, sh: int) -> Seq<
    Window,
> {
    match l.tree.root {
        None => seq![root_window(win_id, sw, sh)],
        Some(n) => {
            let fid = l.tree.focused;
            let k = leaf_index(n, fid);
            let old_leaf = leaves(n)[k];
            leaves(n).subrange(0, k) + seq![
                split_first(old_leaf, vertical),
                split_second(old_leaf, win_id, vertical),
            ] + leaves(n).subrange(k + 1, leaves(n).len() as int)
        },
    }
}

/// The requests a manual insertion issues: each affected half is
/// configured through the decoration algebra, the old focused window loses
/// the border highlight and the new window gains it.
pub open spec fn manual_insert_requests(
    l: Layouts,
    win_id: u32,
    vertical: bool,
    sw: int,
    sh: int,
    bar: int,
) -> Seq<XRequest> {
    match l.tree.root {
        None => seq![
            XRequest::Configure {
                window: win_id,
                rect: spec_configured(
                    spec_frame_changes(root_window(win_id, sw, sh)),
                    BORDER_WIDTH as int,
                    bar,
                    GAPS as int,
                ),
            },
            XRequest::SetBorder { window: win_id, focused: true },
        ],
        Some(n) => {
            let fid = l.tree.focused;
            let k = leaf_index(n, fid);
            let old_leaf = leaves(n)[k];
            let h1 = split_first(old_leaf, vertical);
            let h2 = split_second(old_leaf, win_id, vertical);
            seq![
                XRequest::Configure {
                    window: fid,
                    rect: spec_configured(
                        spec_frame_changes(h1),
                        BORDER_WIDTH as int,
                        bar,
                        GAPS as int,
                    ),
                },
                XRequest::Configure {
                    window: win_id,
                    rect: spec_configured(
                        spec_frame_changes(h2),
                        BORDER_WIDTH as int,
                        bar,
                        GAPS as int,
                    ),
                },
                XRequest::SetBorder { window: fid, focused: false },
                XRequest::SetBorder { window: win_id, focused: true },
            ]
        },
    }
}

/// The identifier sequence and focused index after one forward swap: the
/// focused window moves one slot toward the master (index 0), carrying
/// focus with it; from index 0 it wraps, the whole sequence rotating left
/// so the focused window ends up at the back.
pub open spec fn cycle_forward_ids(s: Seq<u32>, f: int) -> (Seq<u32>, int) {
    if f == 0 {
        (s.subrange(1, s.len() as int).push(s[0]), s.len() - 1)
    } else {
        (s.update(f, s[f - 1]).update(f - 1, s[f]), f - 1)
    }
}

/// The identifier sequence and focused index after one backward swap: the
/// focused window moves one slot toward the back, carrying focus with it;
/// from the back it wraps, the whole sequence rotating right so the focused
/// window ends up at the master slot.
pub open spec fn cycle_backward_ids(s: Seq<u32>, f: int) -> (Seq<u32>, int) {
    if f == s.len() - 1 {
        (seq![s[s.len() - 1]] + s.subrange(0, s.len() - 1), 0)
    } else {
        (s.update(f, s[f + 1]).update(f + 1, s[f]), f + 1)
    }
}

/// The state and request relation of one forward swap rotation on an
/// engine: the contract of `cycle_window_forward`.
pub open spec fn cycle_forward_post(
    l0: Layouts,
    l1: Layouts,
    reqs: Seq<XRequest>,
    sw: int,
    sh: int,
    dynamic: bool,
) -> bool {
    &&& l1.current_layout == l0.current_layout
    &&& l1.tree == l0.tree
    &&& l1.windows@.len() == l0.windows@.len()
    &&& (!(dynamic && l0.windows@.len() > 1) ==> l1 == l0 && reqs.len() == 0)
    &&& (dynamic && l0.windows@.len() > 1 ==> ({
        let n = l0.windows@.len() as int;
        let f = l0.focus_win as int;
        let next = cycle_forward_ids(ids_of(l0.windows@), f);
        match l0.current_layout {
            WmLayouts::Max => {
                &&& l1.windows@ == l0.windows@.subrange(1, n) + seq![l0.windows@[0]]
                &&& l1.focus_win == 0
                &&& reqs == seq![
                    XRequest::StackBelow {
                        window: l0.windows@[0].win,
                        sibling: l0.windows@[1].win,
                    },
                    XRequest::SetInputFocus { window: l0.windows@[1].win },
                ]
            },
            WmLayouts::Tile => {
                &&& ids_of(l1.windows@) == next.0
                &&& l1.focus_win == next.1
                &&& l1.windows@ == tile_window_seq(next.0, sw, sh)
                &&& reqs == tile_request_seq(next.0, next.1, sw, sh)
            },
            WmLayouts::Float => {
                &&& ids_of(l1.windows@) == next.0
                &&& l1.focus_win == next.1
                &&& reqs.len() == 0
            },
        }
    }))
}

/// The state and request relation of one backward swap rotation: the
/// contract of `cycle_window_backward`.
pub open spec fn cycle_backward_post(
    l0: Layouts,
    l1: Layouts,
    reqs: Seq<XRequest>,
    sw: int,
    sh: int,
    dynamic: bool,
) -> bool {
    &&& l1.current_layout == l0.current_layout
    &&& l1.tree == l0.tree
    &&& l1.windows@.len() == l0.windows@.len()
    &&& (!(dynamic && l0.windows@.len() > 1) ==> l1 == l0 && reqs.len() == 0)
    &&& (dynamic && l0.windows@.len() > 1 ==> ({
        let n = l0.windows@.len() as int;
        let f = l0.focus_win as int;
        let next = cycle_backward_ids(ids_of(l0.windows@), f);
        match l0.current_layout {
            WmLayouts::Max => {
                &&& l1.windows@ == seq![l0.windows@[n - 1]] + l0.windows@.subrange(0, n - 1)
                &&& l1.focus_win == 0
                &&& reqs == seq![
                    XRequest::StackBelow {
                        window: l0.windows@[0].win,
                        sibling: l0.windows@[n - 1].win,
                    },
                    XRequest::SetInputFocus { window: l0.windows@[n - 1].win },
                ]
            },
            WmLayouts::Tile => {
                &&& ids_of(l1.windows@) == next.0
                &&& l1.focus_win == next.1
                &&& l1.windows@ == tile_window_seq(next.0, sw, sh)
                &&& reqs == tile_request_seq(next.0, next.1, sw, sh)
            },
            WmLayouts::Float => {
                &&& ids_of(l1.windows@) == next.0
                &&& l1.focus_win == next.1
                &&& reqs.len() == 0
            },
        }
    }))
}

/// The state and request relation of one forward focus rotation: the
/// contract of `cycle_window_focus_forward`.
pub open spec fn focus_forward_post(
    l0: Layouts,
    l1: Layouts,
    reqs: Seq<XRequest>,
    dynamic: bool,
) -> bool {
    &&& l1.windows == l0.windows
    &&& l1.current_layout == l0.current_layout
    &&& l1.tree == l0.tree
    &&& (!(dynamic && l0.windows@.len() > 1 && l0.current_layout is Tile) ==> l1 == l0
        && reqs.len() == 0)
    &&& (dynamic && l0.windows@.len() > 1 && l0.current_layout is Tile ==> ({
        let n = l0.windows@.len() as int;
        let f = l0.focus_win as int;
        let nf = if f == 0 {
            n - 1
        } else {
            f - 1
        };
        &&& l1.focus_win == nf
        &&& reqs == seq![
            XRequest::SetBorder { window: l0.windows@[f].win, focused: false },
            XRequest::SetBorder { window: l0.windows@[nf].win, focused: true },
            XRequest::SetInputFocus { window: l0.windows@[nf].win },
        ]
    }))
}

/// The state and request relation of one backward focus rotation: the
/// contract of `cycle_window_focus_backward`.
pub open spec fn focus_backward_post(
    l0: Layouts,
    l1: Layouts,
    reqs: Seq<XRequest>,
    dynamic: bool,
) -> bool {
    &&& l1.windows == l0.windows
    &&& l1.current_layout == l0.current_layout
    &&& l1.tree == l0.tree
    &&& (!(dynamic && l0.windows@.len() > 1 && l0.current_layout is Tile) ==> l1 == l0
        && reqs.len() == 0)
    &&& (dynamic && l0.windows@.len() > 1 && l0.current_layout is Tile ==> ({
        let n = l0.windows@.len() as int;
        let f = l0.focus_win as int;
        let nf = if f == n - 1 {
            0
        } else {
            f + 1
        };
        &&& l1.focus_win == nf
        &&& reqs == seq![
            XRequest::SetBorder { window: l0.windows@[f].win, focused: false },
            XRequest::SetBorder { window: l0.windows@[nf].win, focused: true },
            XRequest::SetInputFocus { window: l0.windows@[nf].win },
        ]
    }))
}

/// The state and request relation of a layout rotation: the contract of
/// `change_layout`.
pub open spec fn change_layout_post(
    l0: Layouts,
    l1: Layouts,
    reqs: Seq<XRequest>,
    names: Seq<Seq<char>>,
    sw: int,
    sh: int,
    dynamic: bool,
) -> bool {
    &&& l1.focus_win == l0.focus_win
    &&& l1.tree == l0.tree
    &&& (!dynamic ==> l1 == l0 && reqs.len() == 0)
    &&& (dynamic ==> ({
        let next = next_layout_index(names, name_of_layout(l0.current_layout));
        &&& l1.current_layout == layout_of_name(names[next])
        &&& l1.windows@ == apply_layout_windows(l1.current_layout, l0.windows@, sw, sh)
        &&& reqs == apply_layout_requests(l1.current_layout, l0.windows@, l0.focus_win as int, sw, sh)
    }))
}

/// The state of one workspace's layout engine.
#[derive(Debug)]
pub struct Layouts {
    /// The managed-window sequence; index 0 is the master in tile mode and
    /// the top of the stack in max mode.
    pub windows: Vec<Window>,
    /// The focused index, in `[0, len)` whenever the sequence is non-empty.
    pub focus_win: usize,
    /// The active layout mode.
    pub current_layout: WmLayouts,
    /// The manual-mode split tree; empty in dynamic mode.
    pub tree: Tree,
}

impl Layouts {
    /// Whether the window `id` occurs in the managed sequence.
    pub open spec fn has_window(self, id: u32) -> bool {
        exists|i: int| 0 <= i < self.windows@.len() && self.windows@[i].win == id
    }

    /// The engine invariant: the focused index is in range unless the
    /// workspace is empty, managed window identifiers are distinct, the
    /// split tree is well-formed, and every leaf of the tree has a matching
    /// entry in the managed sequence.
    pub open spec fn inv(self) -> bool {
        &&& (self.windows@.len() == 0 || self.focus_win < self.windows@.len())
        &&& (forall|i: int, j: int|
            0 <= i < j < self.windows@.len() ==> self.windows@[i].win != self.windows@[j].win)
        &&& self.tree.wf()
        &&& (forall|id: u32| #[trigger] self.tree.has_id(id) ==> self.has_window(id))
    }

    /// A fresh engine: no windows, and the initial layout mode taken from
    /// the first enabled layout of the configuration.
    pub fn new(config: &ParsedConfig) -> (l: Layouts)
        requires
            config.enabled_layouts@.len() > 0,
        ensures
            l.windows@.len() == 0,
            l.focus_win == 0,
            l.current_layout == layout_of_name(config.enabled_layouts@[0]@),
            l.tree.root is None,
            l.inv(),
    {
        let default_layout = &config.enabled_layouts[0];
        Layouts {
            windows: Vec::new(),
            focus_win: 0,
            current_layout: Self::get_enum_from_layout(default_layout),
            tree: Tree::new(),
        }
    }

    /// The layout mode a configured name selects.
    pub fn get_enum_from_layout(default_layout: &String) -> (l: WmLayouts)
        ensures
            l == layout_of_name(default_layout@),
    {
        let tile_name: String = "tile".to_owned();
        let max_name: String = "max".to_owned();
        if tile_name.eq(default_layout) {
            WmLayouts::Tile
        } else if max_name.eq(default_layout) {
            WmLayouts::Max
        } else {
            WmLayouts::Float
        }
    }

    /// The configured name of the active layout mode.
    pub fn get_layout_from_enum(&self) -> (s: String)
        ensures
            s@ == name_of_layout(self.current_layout),
    {
        match self.current_layout {
            WmLayouts::Tile => "tile".to_owned(),
            WmLayouts::Max => "max".to_owned(),
            WmLayouts::Float => "float".to_owned(),
        }
    }

    /// Rotates the managed sequence one slot to the left and re-establishes
    /// the invariant facts the callers need.
    fn rotate_left(&mut self)
        requires
            old(self).inv(),
            old(self).windows@.len() >= 1,
        ensures
            final(self).inv(),
            final(self).windows@ == old(self).windows@.subrange(
                1,
                old(self).windows@.len() as int,
            ) + seq![old(self).windows@[0]],
            ids_of(final(self).windows@) == cycle_forward_ids(ids_of(old(self).windows@), 0).0,
            final(self).focus_win == old(self).windows@.len() - 1,
            final(self).current_layout == old(self).current_layout,
            final(self).tree == old(self).tree,
    {
        let window = self.windows.remove(0);
        self.windows.push(window);
        self.focus_win = self.windows.len() - 1;
        proof {
            assert(final(self).windows@ =~= old(self).windows@.subrange(
                1,
                old(self).windows@.len() as int,
            ) + seq![old(self).windows@[0]]);
            assert(ids_of(final(self).windows@) =~= cycle_forward_ids(
                ids_of(old(self).windows@),
                0,
            ).0);
            assert forall|id: u32| #[trigger]
                final(self).tree.has_id(id) implies final(self).has_window(id) by {
                let k = choose|k: int|
                    0 <= k < old(self).windows@.len() && old(self).windows@[k].win == id;
                if k == 0 {
                    assert(final(self).windows@[old(self).windows@.len() - 1].win == id);
                } else {
                    assert(final(self).windows@[k - 1].win == id);
                }
            }
        }
    }

    /// Rotates the managed sequence one slot to the right.
    fn rotate_right(&mut self)
        requires
            old(self).inv(),
            old(self).windows@.len() >= 1,
        ensures
            final(self).inv(),
            final(self).windows@ == seq![
                old(self).windows@[old(self).windows@.len() - 1],
            ] + old(self).windows@.subrange(0, old(self).windows@.len() - 1),
            ids_of(final(self).windows@) == cycle_backward_ids(
                ids_of(old(self).windows@),
                old(self).windows@.len() - 1,
            ).0,
            final(self).focus_win == 0,
            final(self).current_layout == old(self).current_layout,
            final(self).tree == old(self).tree,
    {
        let window = match self.windows.pop() {
            Some(w) => w,
            None => Window::new(0, 0, 0, 0, 0),
        };
        self.windows.insert(0, window);
        self.focus_win = 0;
        proof {
            assert(final(self).windows@ =~= seq![
                old(self).windows@[old(self).windows@.len() - 1],
            ] + old(self).windows@.subrange(0, old(self).windows@.len() - 1));
            assert(ids_of(final(self).windows@) =~= cycle_backward_ids(
                ids_of(old(self).windows@),
                old(self).windows@.len() - 1,
            ).0);
            assert forall|id: u32| #[trigger]
                final(self).tree.has_id(id) implies final(self).has_window(id) by {
                let k = choose|k: int|
                    0 <= k < old(self).windows@.len() && old(self).windows@[k].win == id;
                if k == old(self).windows@.len() - 1 {
                    assert(final(self).windows@[0].win == id);
                } else {
                    assert(final(self).windows@[k + 1].win == id);
                }
            }
        }
    }

    /// Swaps the focused window with its neighbour at `other`, moving focus
    /// with it.
    fn swap_focused(&mut self, other: usize)
        requires
            old(self).inv(),
            old(self).windows@.len() >= 1,
            old(self).focus_win < old(self).windows@.len(),
            other < old(self).windows@.len(),
        ensures
            final(self).inv(),
            final(self).windows@ == old(self).windows@.update(
                old(self).focus_win as int,
                old(self).windows@[other as int],
            ).update(other as int, old(self).windows@[old(self).focus_win as int]),
            final(self).focus_win == other,
            final(self).current_layout == old(self).current_layout,
            final(self).tree == old(self).tree,
    {
        let a = self.windows[self.focus_win];
        let b = self.windows[other];
        let f = self.focus_win;
        self.windows[f] = b;
        self.windows[other] = a;
        self.focus_win = other;
        proof {
            assert forall|id: u32| #[trigger]
                final(self).tree.has_id(id) implies final(self).has_window(id) by {
                let k = choose|k: int|
                    0 <= k < old(self).windows@.len() && old(self).windows@[k].win == id;
                if k == f {
                    assert(final(self).windows@[other as int].win == id);
                } else if k == other {
                    assert(final(self).windows@[f as int].win == id);
                } else {
                    assert(final(self).windows@[k].win == id);
                }
            }
        }
    }

    /// One forward swap rotation: the focused window moves one slot toward
    /// the master, wrapping by a full left rotation from index 0; focus
    /// follows the moved window and the current layout is re-applied. In max
    /// mode the stack rotates instead: the topmost window goes to the back,
    /// stacked below its previous neighbour, which is focused. A no-op
    /// outside dynamic mode or with fewer than two windows.
    pub fn cycle_window_forward(&mut self, session: &Session, config: &ParsedConfig) -> (reqs: Vec<XRequest>)
        requires
            old(self).inv(),
            session.wf(),
            old(self).windows@.len() < 0x7fff,
        ensures
            final(self).inv(),
            cycle_forward_post(
                *old(self),
                *final(self),
                reqs@,
                session.screen_width as int,
                session.screen_height as int,
                config.dynamic,
            ),
    {
        if !config.dynamic {
            return Vec::new();
        }
        let n = self.windows.len();
        if n <= 1 {
            return Vec::new();
        }
        match self.current_layout {
            WmLayouts::Max => {
                let moved = self.windows[0];
                self.rotate_left();
                self.focus_win = 0;
                let top = self.windows[0];
                let mut reqs: Vec<XRequest> = Vec::new();
                reqs.push(session.configure_window_stacking(moved.win, top.win));
                reqs.push(session.update_focus(top.win));
                proof {
                    assert(reqs@ =~= seq![
                        XRequest::StackBelow {
                            window: old(self).windows@[0].win,
                            sibling: old(self).windows@[1].win,
                        },
                        XRequest::SetInputFocus { window: old(self).windows@[1].win },
                    ]);
                }
                reqs
            },
            WmLayouts::Tile => {
                if self.focus_win == 0 {
                    self.rotate_left();
                } else {
                    let f = self.focus_win;
                    self.swap_focused(f - 1);
                    proof {
                        assert(ids_of(self.windows@) =~= cycle_forward_ids(
                            ids_of(old(self).windows@),
                            old(self).focus_win as int,
                        ).0);
                    }
                }
                let r = tile(self, session);
                proof {
                    assert(ids_of(self.windows@) =~= cycle_forward_ids(
                        ids_of(old(self).windows@),
                        old(self).focus_win as int,
                    ).0);
                }
                r
            },
            WmLayouts::Float => {
                if self.focus_win == 0 {
                    self.rotate_left();
                } else {
                    let f = self.focus_win;
                    self.swap_focused(f - 1);
                    proof {
                        assert(ids_of(self.windows@) =~= cycle_forward_ids(
                            ids_of(old(self).windows@),
                            old(self).focus_win as int,
                        ).0);
                    }
                }
                Vec::new()
            },
        }
    }

    /// One backward swap rotation: the focused window moves one slot toward
    /// the back, wrapping by a full right rotation from the last index;
    /// focus follows the moved window and the current layout is re-applied.
    /// In max mode the stack rotates the other way: the backmost window
    /// becomes the topmost and is focused, the previous top stacked below
    /// it. A no-op outside dynamic mode or with fewer than two windows.
    pub fn cycle_window_backward(&mut self, session: &Session, config: &ParsedConfig) -> (reqs: Vec<XRequest>)
        requires
            old(self).inv(),
            session.wf(),
            old(self).windows@.len() < 0x7fff,
        ensures
            final(self).inv(),
            cycle_backward_post(
                *old(self),
                *final(self),
                reqs@,
                session.screen_width as int,
                session.screen_height as int,
                config.dynamic,
            ),
    {
        if !config.dynamic {
            return Vec::new();
        }
        let n = self.windows.len();
        if n <= 1 {
            return Vec::new();
        }
        match self.current_layout {
            WmLayouts::Max => {
                let moved = self.windows[n - 1];
                let top = self.windows[0];
                self.rotate_right();
                let mut reqs: Vec<XRequest> = Vec::new();
                reqs.push(session.configure_window_stacking(top.win, moved.win));
                reqs.push(session.update_focus(moved.win));
                proof {
                    assert(reqs@ =~= seq![
                        XRequest::StackBelow {
                            window: old(self).windows@[0].win,
                            sibling: old(self).windows@[old(self).windows@.len() - 1].win,
                        },
                        XRequest::SetInputFocus {
                            window: old(self).windows@[old(self).windows@.len() - 1].win,
                        },
                    ]);
                }
                reqs
            },
            WmLayouts::Tile => {
                if self.focus_win == n - 1 {
                    self.rotate_right();
                } else {
                    let f = self.focus_win;
                    self.swap_focused(f + 1);
                    proof {
                        assert(ids_of(self.windows@) =~= cycle_backward_ids(
                            ids_of(old(self).windows@),
                            old(self).focus_win as int,
                        ).0);
                    }
                }
                let r = tile(self, session);
                proof {
                    assert(ids_of(self.windows@) =~= cycle_backward_ids(
                        ids_of(old(self).windows@),
                        old(self).focus_win as int,
                    ).0);
                }
                r
            },
            WmLayouts::Float => {
                if self.focus_win == n - 1 {
                    self.rotate_right();
                } else {
                    let f = self.focus_win;
                    self.swap_focused(f + 1);
                    proof {
                        assert(ids_of(self.windows@) =~= cycle_backward_ids(
                            ids_of(old(self).windows@),
                            old(self).focus_win as int,
                        ).0);
                    }
                }
                Vec::new()
            },
        }
    }

    /// Moves the focus one slot toward the master, wrapping, without
    /// touching the sequence; only the border highlight and the input focus
    /// change. Meaningful only in tile mode: a no-op elsewhere, outside
    /// dynamic mode, or with fewer than two windows.
    pub fn cycle_window_focus_forward(&mut self, session: &Session, config: &ParsedConfig) -> (reqs: Vec<XRequest>)
        requires
            old(self).inv(),
        ensures
            final(self).inv(),
            focus_forward_post(*old(self), *final(self), reqs@, config.dynamic),
    {
        if !config.dynamic {
            return Vec::new();
        }
        let n = self.windows.len();
        if n <= 1 {
            return Vec::new();
        }
        match self.current_layout {
            WmLayouts::Tile => {
                let prev = self.windows[self.focus_win];
                if self.focus_win == 0 {
                    self.focus_win = n - 1;
                } else {
                    self.focus_win = self.focus_win - 1;
                }
                let now = self.windows[self.focus_win];
                let mut reqs: Vec<XRequest> = Vec::new();
                reqs.push(session.configure_border(prev.win, false));
                reqs.push(session.configure_border(now.win, true));
                reqs.push(session.update_focus(now.win));
                proof {
                    let f = old(self).focus_win as int;
                    let nf = if f == 0 {
                        old(self).windows@.len() - 1
                    } else {
                        f - 1
                    };
                    assert(reqs@ =~= seq![
                        XRequest::SetBorder { window: old(self).windows@[f].win, focused: false },
                        XRequest::SetBorder { window: old(self).windows@[nf].win, focused: true },
                        XRequest::SetInputFocus { window: old(self).windows@[nf].win },
                    ]);
                }
                reqs
            },
            _ => Vec::new(),
        }
    }

    /// Moves the focus one slot toward the back, wrapping, without touching
    /// the sequence. Meaningful only in tile mode: a no-op elsewhere,
    /// outside dynamic mode, or with fewer than two windows.
    pub fn cycle_window_focus_backward(&mut self, session: &Session, config: &ParsedConfig) -> (reqs: Vec<XRequest>)
        requires
            old(self).inv(),
        ensures
            final(self).inv(),
            focus_backward_post(*old(self), *final(self), reqs@, config.dynamic),
    {
        if !config.dynamic {
            return Vec::new();
        }
        let n = self.windows.len();
        if n <= 1 {
            return Vec::new();
        }
        match self.current_layout {
            WmLayouts::Tile => {
                let prev = self.windows[self.focus_win];
                if self.focus_win == n - 1 {
                    self.focus_win = 0;
                } else {
                    self.focus_win = self.focus_win + 1;
                }
                let now = self.windows[self.focus_win];
                let mut reqs: Vec<XRequest> = Vec::new();
                reqs.push(session.configure_border(prev.win, false));
                reqs.push(session.configure_border(now.win, true));
                reqs.push(session.update_focus(now.win));
                proof {
                    let n = old(self).windows@.len() as int;
                    let f = old(self).focus_win as int;
                    let nf = if f == n - 1 {
                        0
                    } else {
                        f + 1
                    };
                    assert(reqs@ =~= seq![
                        XRequest::SetBorder { window: old(self).windows@[f].win, focused: false },
                        XRequest::SetBorder { window: old(self).windows@[nf].win, focused: true },
                        XRequest::SetInputFocus { window: old(self).windows@[nf].win },
                    ]);
                }
                reqs
            },
            _ => Vec::new(),
        }
    }

    /// Applies the active layout mode to the managed sequence.
    pub(crate) fn apply_current_layout(&mut self, session: &Session) -> (reqs: Vec<XRequest>)
        requires
            old(self).inv(),
            session.wf(),
            old(self).windows@.len() < 0x7fff,
        ensures
            final(self).inv(),
            final(self).focus_win == old(self).focus_win,
            final(self).current_layout == old(self).current_layout,
            final(self).tree == old(self).tree,
            final(self).windows@ == apply_layout_windows(
                old(self).current_layout,
                old(self).windows@,
                session.screen_width as int,
                session.screen_height as int,
            ),
            reqs@ == apply_layout_requests(
                old(self).current_layout,
                old(self).windows@,
                old(self).focus_win as int,
                session.screen_width as int,
                session.screen_height as int,
            ),
    {
        let reqs = match self.current_layout {
            WmLayouts::Tile => tile(self, session),
            WmLayouts::Max => max(self, session),
            WmLayouts::Float => Vec::new(),
        };
        proof {
            if old(self).current_layout is Tile && old(self).windows@.len() == 0 {
                assert(reqs@ =~= Seq::<XRequest>::empty());
            }
            if old(self).current_layout is Float {
                assert(reqs@ =~= Seq::<XRequest>::empty());
            }
        }
        reqs
    }

    /// Advances the layout mode to the next enabled layout in the
    /// configured rotation and re-applies it. A no-op outside dynamic mode.
    pub fn change_layout(&mut self, config: &ParsedConfig, session: &Session) -> (reqs: Vec<XRequest>)
        requires
            old(self).inv(),
            session.wf(),
            old(self).windows@.len() < 0x7fff,
            config.enabled_layouts@.len() > 0,
        ensures
            final(self).inv(),
            change_layout_post(
                *old(self),
                *final(self),
                reqs@,
                config.enabled_layouts@.map_values(|t: String| t@),
                session.screen_width as int,
                session.screen_height as int,
                config.dynamic,
            ),
    {
        if !config.dynamic {
            return Vec::new();
        }
        let current = self.get_layout_from_enum();
        let fm = Self::first_match_from(&config.enabled_layouts, &current, 0);
        let next = if fm == config.enabled_layouts.len() - 1 {
            0
        } else {
            fm + 1
        };
        self.current_layout = Self::get_enum_from_layout(&config.enabled_layouts[next]);
        self.apply_current_layout(session)
    }

    /// The position of the first enabled layout named `cur`, scanning from
    /// `i`; zero when none matches.
    fn first_match_from(layouts: &Vec<String>, cur: &String, i: usize) -> (r: usize)
        requires
            i <= layouts@.len(),
        ensures
            r == first_match(layouts@.map_values(|t: String| t@), cur@, i as int),
            layouts@.len() > 0 ==> r < layouts@.len(),
            layouts@.len() == 0 ==> r == 0,
        decreases layouts@.len() - i,
    {
        if i >= layouts.len() {
            0
        } else if cur.eq(&layouts[i]) {
            i
        } else {
            Self::first_match_from(layouts, cur, i + 1)
        }
    }

    /// The position of the first managed entry holding the window `id`,
    /// scanning from `i`.
    pub(crate) fn find_window_from(windows: &Vec<Window>, id: u32, i: usize) -> (r: Option<usize>)
        requires
            i <= windows@.len(),
        ensures
            match r {
                Some(k) => i <= k < windows@.len() && windows@[k as int].win == id && k
                    == win_index_from(windows@, id, i as int),
                None => forall|j: int| i <= j < windows@.len() ==> windows@[j].win != id,
            },
        decreases windows@.len() - i,
    {
        if i >= windows.len() {
            None
        } else if windows[i].win == id {
            Some(i)
        } else {
            Self::find_window_from(windows, id, i + 1)
        }
    }

    /// Inserts `win` into the manual split tree: the first window becomes a
    /// root leaf covering the whole screen; otherwise the focused leaf is
    /// split in half, the old window keeping the first half and the new one
    /// taking the second. The new window is appended to the managed
    /// sequence and focused, and both halves are configured.
    fn insert(&mut self, win: Window, vertical: bool, session: &Session) -> (reqs: Vec<XRequest>)
        requires
            old(self).inv(),
            session.wf(),
            !old(self).has_window(win.win),
            old(self).windows@.len() < 0x7fff,
        ensures
            final(self).inv(),
            final(self).current_layout == old(self).current_layout,
            final(self).focus_win == old(self).windows@.len(),
            final(self).tree.focused == win.win,
            final(self).tree.root is Some,
            final(self).windows@ == manual_insert_windows(
                *old(self),
                win.win,
                vertical,
                session.screen_width as int,
                session.screen_height as int,
            ),
            final(self).tree.leaf_seq() == manual_insert_leaves(
                *old(self),
                win.win,
                vertical,
                session.screen_width as int,
                session.screen_height as int,
            ),
            reqs@ == manual_insert_requests(
                *old(self),
                win.win,
                vertical,
                session.screen_width as int,
                session.screen_height as int,
                session.bar_height as int,
            ),
    {
        proof {
            assert(!old(self).tree.has_id(win.win));
        }
        let mut reqs: Vec<XRequest> = Vec::new();
        if self.tree.is_empty() {
            let rootw = Window {
                win: win.win,
                x: 0,
                y: 0,
                width: session.screen_width as i32,
                height: session.screen_height as i32,
            };
            self.tree.insert_root(rootw);
            self.focus_win = self.windows.len();
            self.windows.push(rootw);
            let cw = frame_changes(&rootw);
            reqs.push(
                session.configure_window(
                    &rootw,
                    &cw,
                    BORDER_WIDTH,
                    session.bar_height as i16,
                    GAPS,
                ),
            );
            reqs.push(session.configure_border(win.win, true));
            proof {
                assert forall|id: u32| #[trigger]
                    self.tree.has_id(id) implies self.has_window(id) by {
                    assert(self.windows@[old(self).windows@.len() as int].win == win.win);
                }
                assert(reqs@ =~= seq![
                    XRequest::Configure {
                        window: win.win,
                        rect: spec_configured(
                            spec_frame_changes(rootw),
                            BORDER_WIDTH as int,
                            session.bar_height as int,
                            GAPS as int,
                        ),
                    },
                    XRequest::SetBorder { window: win.win, focused: true },
                ]);
            }
        } else {
            let fid = self.tree.focused;
            let ghost n = old(self).tree.root->Some_0;
            let ghost k = leaf_index(n, old(self).tree.focused);
            proof {
                lemma_frames_ok_leaves(n);
                crate::tree::lemma_contains_index(n, fid);
                assert(old(self).tree.has_id(fid));
                assert(old(self).has_window(fid));
            }
            let idx = match Self::find_window_from(&self.windows, fid, 0) {
                Some(i) => i,
                None => {
                    proof {
                        let j = choose|j: int|
                            0 <= j < self.windows@.len() && self.windows@[j].win == fid;
                        assert(self.windows@[j].win != fid);
                    }
                    0
                },
            };
            self.tree.insert_split(win.win, vertical);
            proof {
                let n2 = self.tree.root->Some_0;
                assert(self.tree.leaf_seq().len() == leaves(n).len() + 1);
                assert(self.tree.leaf_seq()[k] == split_first(leaves(n)[k], vertical));
                assert(self.tree.leaf_seq()[k + 1] == split_second(leaves(n)[k], win.win, vertical));
                assert(self.tree.has_id(fid));
                assert(self.tree.has_id(win.win));
                crate::tree::lemma_contains_index(n2, fid);
                crate::tree::lemma_distinct_unique(n2, leaf_index(n2, fid), k);
                crate::tree::lemma_contains_index(n2, win.win);
                crate::tree::lemma_distinct_unique(n2, leaf_index(n2, win.win), k + 1);
                lemma_frames_ok_leaves(n2);
            }
            let h1 = self.tree.frame_of(fid);
            let h2 = self.tree.frame_of(win.win);
            proof {
                assert(frame_ok(self.tree.leaf_seq()[k]));
                assert(frame_ok(self.tree.leaf_seq()[k + 1]));
            }
            self.windows[idx] = h1;
            self.focus_win = self.windows.len();
            self.windows.push(h2);
            let cw1 = frame_changes(&h1);
            let cw2 = frame_changes(&h2);
            reqs.push(
                session.configure_window(&h1, &cw1, BORDER_WIDTH, session.bar_height as i16, GAPS),
            );
            reqs.push(
                session.configure_window(&h2, &cw2, BORDER_WIDTH, session.bar_height as i16, GAPS),
            );
            reqs.push(session.configure_border(fid, false));
            reqs.push(session.configure_border(win.win, true));
            proof {
                let old_leafg = leaves(n)[k];
                let h1g = split_first(old_leafg, vertical);
                let h2g = split_second(old_leafg, win.win, vertical);
                assert(reqs@ =~= seq![
                    XRequest::Configure {
                        window: old(self).tree.focused,
                        rect: spec_configured(
                            spec_frame_changes(h1g),
                            BORDER_WIDTH as int,
                            session.bar_height as int,
                            GAPS as int,
                        ),
                    },
                    XRequest::Configure {
                        window: win.win,
                        rect: spec_configured(
                            spec_frame_changes(h2g),
                            BORDER_WIDTH as int,
                            session.bar_height as int,
                            GAPS as int,
                        ),
                    },
                    XRequest::SetBorder { window: old(self).tree.focused, focused: false },
                    XRequest::SetBorder { window: win.win, focused: true },
                ]);
                assert forall|id: u32| #[trigger]
                    self.tree.has_id(id) implies self.has_window(id) by {
                    if id == win.win {
                        assert(self.windows@[old(self).windows@.len() as int].win == id);
                    } else {
                        assert(old(self).tree.has_id(id));
                        assert(old(self).has_window(id));
                        let j = choose|j: int|
                            0 <= j < old(self).windows@.len() && old(self).windows@[j].win == id;
                        if j == idx {
                            assert(self.windows@[j].win == id);
                        } else {
                            assert(self.windows@[j].win == id);
                        }
                    }
                }
                assert forall|i: int, j: int|
                    0 <= i < j < self.windows@.len() implies self.windows@[i].win
                    != self.windows@[j].win by {
                    assert(old(self).windows@[idx as int].win == old(self).tree.focused);
                }
            }
        }
        reqs
    }

    /// Removes the leaf holding `id` from the manual split tree and its
    /// entry from the managed sequence. The sibling of the removed leaf is
    /// promoted into its parent's place; when the focused leaf is removed,
    /// focus moves to the promoted sibling's leftmost leaf. A no-op while
    /// the tree does not hold `id`.
    #[verifier::rlimit(60)]
    pub fn remove_window(&mut self, id: u32)
        requires
            old(self).inv(),
        ensures
            final(self).inv(),
            final(self).current_layout == old(self).current_layout,
            !old(self).tree.has_id(id) ==> *final(self) == *old(self),
            old(self).tree.has_id(id) ==> ({
                let n = old(self).tree.root->Some_0;
                let fid = id;
                &&& final(self).tree.root == remove_leaf(n, fid)
                &&& final(self).tree.leaf_seq() == leaves(n).remove(leaf_index(n, fid))
                &&& (leaves(n).len() == 1 <==> final(self).tree.root is None)
                &&& ({
                    let fs = *final(self);
                    &&& (leaves(n).len() > 1 && old(self).tree.focused == fid ==> fs.tree.focused
                        == focus_after_remove(n, fid))
                    &&& (old(self).tree.focused != fid ==> fs.tree.focused == old(
                        self,
                    ).tree.focused)
                })
                &&& final(self).windows@ == old(self).windows@.remove(
                    win_index(old(self).windows@, fid),
                )
                &&& ({
                    let fs = *final(self);
                    &&& (fs.tree.root is Some ==> fs.focus_win < fs.windows@.len()
                        && fs.windows@[fs.focus_win as int].win == fs.tree.focused)
                    &&& (fs.tree.root is None ==> fs.focus_win == 0)
                })
            }),
    {
        let present = match &self.tree.root {
            None => false,
            Some(n) => crate::tree::node_has(n, id),
        };
        if !present {
            return ;
        }
        let fid = id;
        proof {
            assert(old(self).tree.has_id(fid));
            assert(old(self).has_window(fid));
            crate::tree::lemma_contains_index(old(self).tree.root->Some_0, fid);
        }
        let idx = match Self::find_window_from(&self.windows, fid, 0) {
            Some(i) => i,
            None => {
                proof {
                    let j = choose|j: int|
                        0 <= j < self.windows@.len() && self.windows@[j].win == fid;
                    assert(self.windows@[j].win != fid);
                }
                0
            },
        };
        self.windows.remove(idx);
        self.tree.remove(fid);
        if self.tree.is_empty() {
            self.focus_win = 0;
            proof {
                lemma_remove_keeps_distinct(old(self).windows@, idx as int);
                assert forall|id: u32| #[trigger]
                    self.tree.has_id(id) implies self.has_window(id) by {}
            }
        } else {
            let nf = self.tree.focused;
            proof {
                lemma_remove_keeps_distinct(old(self).windows@, idx as int);
                assert(self.tree.has_id(nf));
                assert(old(self).tree.has_id(nf));
                assert(old(self).has_window(nf));
                let j = choose|j: int|
                    0 <= j < old(self).windows@.len() && old(self).windows@[j].win == nf;
                if j < idx {
                    assert(self.windows@[j].win == nf);
                } else {
                    assert(self.windows@[j - 1].win == nf);
                }
                assert(exists|i: int|
                    0 <= i < self.windows@.len() && self.windows@[i].win == nf);
            }
            let nidx = match Self::find_window_from(&self.windows, nf, 0) {
                Some(i) => i,
                None => {
                    proof {
                        let j = choose|j: int|
                            0 <= j < self.windows@.len() && self.windows@[j].win == nf;
                        assert(self.windows@[j].win != nf);
                    }
                    0
                },
            };
            self.focus_win = nidx;
            proof {
                assert forall|id: u32| #[trigger]
                    self.tree.has_id(id) implies self.has_window(id) by {
                    assert(old(self).tree.has_id(id));
                    assert(old(self).has_window(id));
                    let j = choose|j: int|
                        0 <= j < old(self).windows@.len() && old(self).windows@[j].win == id;
                    if j < idx {
                        assert(self.windows@[j].win == id);
                    } else {
                        assert(self.windows@[j - 1].win == id);
                    }
                }
            }
        }
    }

    /// Removes the focused leaf from the manual split tree, promoting its
    /// sibling; focus moves to the promoted sibling's leftmost leaf. A
    /// no-op while the tree is empty.
    pub fn remove(&mut self)
        requires
            old(self).inv(),
        ensures
            final(self).inv(),
            final(self).current_layout == old(self).current_layout,
            old(self).tree.root is None ==> *final(self) == *old(self),
            old(self).tree.root is Some ==> ({
                let n = old(self).tree.root->Some_0;
                let fid = old(self).tree.focused;
                &&& final(self).tree.root == remove_leaf(n, fid)
                &&& final(self).tree.leaf_seq() == leaves(n).remove(leaf_index(n, fid))
                &&& (leaves(n).len() == 1 <==> final(self).tree.root is None)
                &&& (leaves(n).len() > 1 ==> final(self).tree.focused == focus_after_remove(
                    n,
                    fid,
                ))
                &&& final(self).windows@ == old(self).windows@.remove(
                    win_index(old(self).windows@, fid),
                )
                &&& ({
                    let fs = *final(self);
                    &&& (fs.tree.root is Some ==> fs.focus_win < fs.windows@.len()
                        && fs.windows@[fs.focus_win as int].win == fs.tree.focused)
                    &&& (fs.tree.root is None ==> fs.focus_win == 0)
                })
            }),
    {
        if self.tree.is_empty() {
            return ;
        }
        let fid = self.tree.focused;
        self.remove_window(fid);
    }

    /// Grows the focused leaf of the manual split tree by doubling its
    /// primary dimension — the width under a vertical parent split or at
    /// the root, the height otherwise — and configures the window to the
    /// grown frame. A no-op while the tree is empty.
    pub fn resize(&mut self, session: &Session) -> (reqs: Vec<XRequest>)
        requires
            old(self).inv(),
            session.wf(),
        ensures
            final(self).inv(),
            final(self).current_layout == old(self).current_layout,
            final(self).focus_win == old(self).focus_win,
            old(self).tree.root is None ==> *final(self) == *old(self) && reqs@.len() == 0,
            old(self).tree.root is Some ==> ({
                let n = old(self).tree.root->Some_0;
                let fid = old(self).tree.focused;
                let k = leaf_index(n, fid);
                let grown = grown_leaf(leaves(n)[k], primary_is_width(n, fid, true));
                &&& final(self).tree.leaf_seq() == leaves(n).update(k, grown)
                &&& final(self).tree.focused == fid
                &&& final(self).windows@ == old(self).windows@.update(
                    win_index(old(self).windows@, fid),
                    grown,
                )
                &&& reqs@ == seq![
                    XRequest::Configure {
                        window: fid,
                        rect: spec_configured(
                            spec_frame_changes(grown),
                            BORDER_WIDTH as int,
                            session.bar_height as int,
                            GAPS as int,
                        ),
                    },
                ]
            }),
    {
        if self.tree.is_empty() {
            return Vec::new();
        }
        let fid = self.tree.focused;
        proof {
            assert(old(self).tree.has_id(fid));
            assert(old(self).has_window(fid));
        }
        let idx = match Self::find_window_from(&self.windows, fid, 0) {
            Some(i) => i,
            None => {
                proof {
                    let j = choose|j: int|
                        0 <= j < self.windows@.len() && self.windows@[j].win == fid;
                    assert(self.windows@[j].win != fid);
                }
                0
            },
        };
        let grown = self.tree.resize();
        proof {
            let n = old(self).tree.root->Some_0;
            let k = leaf_index(n, old(self).tree.focused);
            crate::tree::lemma_contains_index(n, old(self).tree.focused);
            lemma_frames_ok_leaves(self.tree.root->Some_0);
            assert(frame_ok(self.tree.leaf_seq()[k]));
        }
        self.windows[idx] = grown;
        let cw = frame_changes(&grown);
        let mut reqs: Vec<XRequest> = Vec::new();
        reqs.push(
            session.configure_window(&grown, &cw, BORDER_WIDTH, session.bar_height as i16, GAPS),
        );
        proof {
            let n = old(self).tree.root->Some_0;
            let fidg = old(self).tree.focused;
            let k = leaf_index(n, fidg);
            let g = grown_leaf(leaves(n)[k], primary_is_width(n, fidg, true));
            assert(reqs@ =~= seq![
                XRequest::Configure {
                    window: fidg,
                    rect: spec_configured(
                        spec_frame_changes(g),
                        BORDER_WIDTH as int,
                        session.bar_height as int,
                        GAPS as int,
                    ),
                },
            ]);
            assert forall|id: u32| #[trigger]
                self.tree.has_id(id) implies self.has_window(id) by {
                assert(old(self).tree.has_id(id));
                assert(old(self).has_window(id));
                let j = choose|j: int|
                    0 <= j < old(self).windows@.len() && old(self).windows@[j].win == id;
                assert(self.windows@[j].win == id);
            }
            assert forall|i: int, j: int|
                0 <= i < j < self.windows@.len() implies self.windows@[i].win
                != self.windows@[j].win by {
                assert(old(self).windows@[idx as int].win == fidg);
            }
        }
        reqs
    }

    /// Inserts `win` by splitting the focused leaf vertically (side by
    /// side). A no-op in dynamic mode.
    pub fn split_window_vertical(
        &mut self,
        session: &Session,
        win: Window,
        config: &ParsedConfig,
    ) -> (reqs: Vec<XRequest>)
        requires
            old(self).inv(),
            session.wf(),
            !old(self).has_window(win.win),
            old(self).windows@.len() < 0x7fff,
        ensures
            final(self).inv(),
            config.dynamic ==> *final(self) == *old(self) && reqs@.len() == 0,
            !config.dynamic ==> ({
                let sw = session.screen_width as int;
                let sh = session.screen_height as int;
                &&& final(self).current_layout == old(self).current_layout
                &&& final(self).focus_win == old(self).windows@.len()
                &&& final(self).tree.focused == win.win
                &&& final(self).windows@ == manual_insert_windows(*old(self), win.win, true, sw, sh)
                &&& final(self).tree.leaf_seq() == manual_insert_leaves(
                    *old(self),
                    win.win,
                    true,
                    sw,
                    sh,
                )
                &&& reqs@ == manual_insert_requests(
                    *old(self),
                    win.win,
                    true,
                    sw,
                    sh,
                    session.bar_height as int,
                )
            }),
    {
        if config.dynamic {
            return Vec::new();
        }
        self.insert(win, true, session)
    }

    /// Inserts `win` by splitting the focused leaf horizontally (stacked).
    /// A no-op in dynamic mode.
    pub fn split_window_horizontal(
        &mut self,
        session: &Session,
        win: Window,
        config: &ParsedConfig,
    ) -> (reqs: Vec<XRequest>)
        requires
            old(self).inv(),
            session.wf(),
            !old(self).has_window(win.win),
            old(self).windows@.len() < 0x7fff,
        ensures
            final(self).inv(),
            config.dynamic ==> *final(self) == *old(self) && reqs@.len() == 0,
            !config.dynamic ==> ({
                let sw = session.screen_width as int;
                let sh = session.screen_height as int;
                &&& final(self).current_layout == old(self).current_layout
                &&& final(self).focus_win == old(self).windows@.len()
                &&& final(self).tree.focused == win.win
                &&& final(self).windows@ == manual_insert_windows(*old(self), win.win, false, sw, sh)
                &&& final(self).tree.leaf_seq() == manual_insert_leaves(
                    *old(self),
                    win.win,
                    false,
                    sw,
                    sh,
                )
                &&& reqs@ == manual_insert_requests(
                    *old(self),
                    win.win,
                    false,
                    sw,
                    sh,
                    session.bar_height as int,
                )
            }),
    {
        if config.dynamic {
            return Vec::new();
        }
        self.insert(win, false, session)
    }
}

/// Every identifier after one forward swap was in the sequence before it.
pub proof fn lemma_cycle_forward_ids_onto(s: Seq<u32>, f: int)
    requires
        0 <= f < s.len(),
    ensures
        ({
            let t = cycle_forward_ids(s, f).0;
            forall|i: int|
                #![trigger t[i]]
                0 <= i < t.len() ==> exists|j: int| 0 <= j < s.len() && s[j] == t[i]
        }),
{
    let t = cycle_forward_ids(s, f).0;
    assert forall|i: int| #![trigger t[i]] 0 <= i < t.len() implies exists|j: int|
        0 <= j < s.len() && s[j] == t[i] by {
        if f == 0 {
            if i < s.len() - 1 {
                assert(s[i + 1] == t[i]);
            } else {
                assert(s[0] == t[i]);
            }
        } else {
            if i == f {
                assert(s[f - 1] == t[i]);
            } else if i == f - 1 {
                assert(s[f] == t[i]);
            } else {
                assert(s[i] == t[i]);
            }
        }
    }
}

/// Every identifier after one backward swap was in the sequence before it.
pub proof fn lemma_cycle_backward_ids_onto(s: Seq<u32>, f: int)
    requires
        0 <= f < s.len(),
    ensures
        ({
            let t = cycle_backward_ids(s, f).0;
            forall|i: int|
                #![trigger t[i]]
                0 <= i < t.len() ==> exists|j: int| 0 <= j < s.len() && s[j] == t[i]
        }),
{
    let t = cycle_backward_ids(s, f).0;
    assert forall|i: int| #![trigger t[i]] 0 <= i < t.len() implies exists|j: int|
        0 <= j < s.len() && s[j] == t[i] by {
        if f == s.len() - 1 {
            if i == 0 {
                assert(s[s.len() - 1] == t[i]);
            } else {
                assert(s[i - 1] == t[i]);
            }
        } else {
            if i == f {
                assert(s[f + 1] == t[i]);
            } else if i == f + 1 {
                assert(s[f] == t[i]);
            } else {
                assert(s[i] == t[i]);
            }
        }
    }
}

/// Re-applying a layout never changes which windows are managed, nor
/// their order: only the recorded geometries move.
pub proof fn lemma_apply_layout_ids(l: WmLayouts, s: Seq<Window>, sw: int, sh: int)
    ensures
        ids_of(apply_layout_windows(l, s, sw, sh)) == ids_of(s),
{
    assert(ids_of(apply_layout_windows(l, s, sw, sh)) =~= ids_of(s));
}

/// A manual insertion adds exactly the new identifier to the managed
/// sequence.
pub proof fn lemma_manual_insert_ids(l: Layouts, win_id: u32, vertical: bool, sw: int, sh: int)
    requires
        l.inv(),
        l.tree.root is Some ==> l.tree.wf(),
    ensures
        ({
            let s2 = manual_insert_windows(l, win_id, vertical, sw, sh);
            forall|i: int|
                0 <= i < s2.len() ==> ((#[trigger] s2[i]).win == win_id || exists|j: int|
                    0 <= j < l.windows@.len() && #[trigger] l.windows@[j].win == s2[i].win)
        }),
{
    let s2 = manual_insert_windows(l, win_id, vertical, sw, sh);
    match l.tree.root {
        None => {
            assert forall|i: int| 0 <= i < s2.len() implies ((#[trigger] s2[i]).win == win_id
                || exists|j: int|
                0 <= j < l.windows@.len() && #[trigger] l.windows@[j].win == s2[i].win) by {
                if i < l.windows@.len() {
                    assert(l.windows@[i].win == s2[i].win);
                }
            }
        },
        Some(n) => {
            assert forall|i: int| 0 <= i < s2.len() implies ((#[trigger] s2[i]).win == win_id
                || exists|j: int|
                0 <= j < l.windows@.len() && #[trigger] l.windows@[j].win == s2[i].win) by {
                let fid = l.tree.focused;
                let k = win_index(l.windows@, fid);
                assert(l.tree.has_id(fid));
                assert(l.has_window(fid));
                lemma_win_index_bounds(l.windows@, fid);
                crate::tree::lemma_contains_index(n, fid);
                if i < l.windows@.len() {
                    if i == k {
                        assert(l.windows@[k].win == s2[i].win);
                    } else {
                        assert(l.windows@[i].win == s2[i].win);
                    }
                }
            }
        },
    }
}

/// The first-occurrence index is in bounds when the identifier occurs.
pub proof fn lemma_win_index_bounds(s: Seq<Window>, id: u32)
    requires
        exists|i: int| 0 <= i < s.len() && s[i].win == id,
    ensures
        0 <= win_index(s, id) < s.len(),
        s[win_index(s, id)].win == id,
{
    lemma_win_index_from_bounds(s, id, 0);
}

/// Helper for `lemma_win_index_bounds`, generalised over the scan start.
proof fn lemma_win_index_from_bounds(s: Seq<Window>, id: u32, i: int)
    requires
        0 <= i <= s.len(),
        exists|j: int| i <= j < s.len() && s[j].win == id,
    ensures
        i <= win_index_from(s, id, i) < s.len(),
        s[win_index_from(s, id, i)].win == id,
    decreases s.len() - i,
{
    if s[i].win == id {
    } else {
        lemma_win_index_from_bounds(s, id, i + 1);
    }
}

/// Removing one entry from a sequence of pairwise-distinct window
/// identifiers keeps them pairwise distinct.
pub proof fn lemma_remove_keeps_distinct(s: Seq<Window>, k: int)
    requires
        0 <= k < s.len(),
        forall|i: int, j: int| 0 <= i < j < s.len() ==> s[i].win != s[j].win,
    ensures
        forall|i: int, j: int|
            0 <= i < j < s.remove(k).len() ==> s.remove(k)[i].win != s.remove(k)[j].win,
{
    assert forall|i: int, j: int|
        0 <= i < j < s.remove(k).len() implies s.remove(k)[i].win != s.remove(k)[j].win by {
        let a = if i < k {
            i
        } else {
            i + 1
        };
        let b = if j < k {
            j
        } else {
            j + 1
        };
        assert(s.remove(k)[i] == s[a]);
        assert(s.remove(k)[j] == s[b]);
    }
}

/// The focused index of a well-formed engine is within the managed
/// sequence whenever the workspace is non-empty.
pub proof fn lemma_focused_index_in_range(l: Layouts)
    requires
        l.inv(),
    ensures
        l.windows@.len() == 0 || l.focus_win < l.windows@.len(),
{
}

/// One forward focus rotation step on an index.
pub open spec fn focus_step(n: int, f: int) -> int {
    if f == 0 {
        n - 1
    } else {
        f - 1
    }
}

/// The focused index after `k` forward focus rotations.
pub open spec fn iter_focus_step(n: int, f: int, k: nat) -> int
    decreases k,
{
    if k == 0 {
        f
    } else {
        focus_step(n, iter_focus_step(n, f, (k - 1) as nat))
    }
}

/// Focus cycling is a rotation: as many consecutive forward focus
/// rotations as there are windows return the focused index to its original
/// value.
pub proof fn lemma_focus_cycle_rotation(n: int, f: int)
    requires
        0 <= f < n,
    ensures
        iter_focus_step(n, f, n as nat) == f,
{
    lemma_focus_cycle_aux(n, f, n as nat);
}

/// After `k` of `n` forward focus rotations the focused index is the
/// original one shifted down by `k`, wrapping.
proof fn lemma_focus_cycle_aux(n: int, f: int, k: nat)
    requires
        0 <= f < n,
        k <= n,
    ensures
        iter_focus_step(n, f, k) == (if f - k >= 0 {
            f - k
        } else {
            f - k + n
        }),
    decreases k,
{
    if k > 0 {
        lemma_focus_cycle_aux(n, f, (k - 1) as nat);
    }
}

/// The identifier sequence and focused index after `k` forward swap
/// rotations.
pub open spec fn iter_cycle_forward(s: Seq<u32>, f: int, k: nat) -> (Seq<u32>, int)
    decreases k,
{
    if k == 0 {
        (s, f)
    } else {
        let p = iter_cycle_forward(s, f, (k - 1) as nat);
        cycle_forward_ids(p.0, p.1)
    }
}

/// The sequence `s` with its element at `f` carried to position `p`.
pub open spec fn carried(s: Seq<u32>, f: int, p: int) -> Seq<u32> {
    s.remove(f).insert(p, s[f])
}

/// Carrying an element to its own position changes nothing.
proof fn lemma_carried_identity(s: Seq<u32>, f: int)
    requires
        0 <= f < s.len(),
    ensures
        carried(s, f, f) == s,
{
    assert(carried(s, f, f) =~= s);
}

/// One swap step moves the carried element down one position.
proof fn lemma_carried_step(s: Seq<u32>, f: int, p: int)
    requires
        0 <= f < s.len(),
        1 <= p < s.len(),
    ensures
        cycle_forward_ids(carried(s, f, p), p) == (carried(s, f, p - 1), p - 1),
{
    let t = carried(s, f, p);
    assert(t.len() == s.len());
    assert(cycle_forward_ids(t, p).0 =~= carried(s, f, p - 1));
}

/// From the front, the wrap carries the element to the back.
proof fn lemma_carried_wrap(s: Seq<u32>, f: int)
    requires
        0 <= f < s.len(),
    ensures
        cycle_forward_ids(carried(s, f, 0), 0) == (carried(s, f, s.len() - 1), s.len() - 1),
{
    let t = carried(s, f, 0);
    assert(t.len() == s.len());
    assert(t[0] == s[f]);
    assert(cycle_forward_ids(t, 0).0 =~= carried(s, f, s.len() - 1));
}

/// After `k` forward swap rotations the focused element has been carried
/// `k` positions down, wrapping, and remains focused.
proof fn lemma_cycle_rotation_aux(s: Seq<u32>, f: int, k: nat)
    requires
        0 <= f < s.len(),
        k <= s.len(),
    ensures
        ({
            let p = if f - k >= 0 {
                f - k
            } else {
                f - k + s.len()
            };
            iter_cycle_forward(s, f, k) == (carried(s, f, p), p)
        }),
    decreases k,
{
    if k == 0 {
        lemma_carried_identity(s, f);
    } else {
        lemma_cycle_rotation_aux(s, f, (k - 1) as nat);
        let prev = if f - (k - 1) >= 0 {
            f - (k - 1)
        } else {
            f - (k - 1) + s.len()
        };
        if prev == 0 {
            lemma_carried_wrap(s, f);
        } else {
            lemma_carried_step(s, f, prev);
        }
    }
}

/// Swap cycling is a rotation: as many consecutive forward swap rotations
/// as there are windows return the identifier sequence and the focused
/// index to their original values.
pub proof fn lemma_cycle_rotation(s: Seq<u32>, f: int)
    requires
        0 <= f < s.len(),
    ensures
        iter_cycle_forward(s, f, s.len() as nat) == (s, f),
{
    lemma_cycle_rotation_aux(s, f, s.len() as nat);
    lemma_carried_identity(s, f);
}

} // verus!