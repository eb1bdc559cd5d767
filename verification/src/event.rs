//! Event classification and handling: the decisions taken for each
//! protocol event, as pure functions from the event's plain values to the
//! requests to issue. The owning process blocks for the next event,
//! translates it into an `Event` value, performs the returned requests and
//! flushes the connection.

use vstd::prelude::*;

use crate::config_parser::ParsedConfig;
use crate::geometry::{spec_configured, WindowChanges, BORDER_WIDTH, GAPS};
use crate::layouts::{
    apply_layout_requests, apply_layout_windows, cycle_backward_ids, cycle_forward_ids,
    lemma_apply_layout_ids, lemma_cycle_backward_ids_onto, lemma_cycle_forward_ids_onto,
    lemma_manual_insert_ids, lemma_remove_keeps_distinct, lemma_win_index_bounds,
    manual_insert_requests, manual_insert_windows, win_index, Layouts, WmLayouts,
};
use crate::tree::{
    contains_id, focus_after_remove, grown_leaf, leaf_index, leaves, lemma_contains_index,
    node_has, primary_is_width, remove_leaf, Node,
};
use crate::keybinding_parser::{
    first_binding_from, lemma_first_binding_bounds, match_key_press, parse_command,
    parse_command_spec, Command, Keybindings,
};
use crate::workspaces::{focus_target, lemma_replace_active, map_seq, unmap_seq, Workspaces};
use crate::layouts::{
    change_layout_post, cycle_backward_post, cycle_forward_post, focus_backward_post,
    focus_forward_post,
};
use crate::x::{ids_of, spec_frame_changes, Session, Window, XRequest};

verus! {

/// Whether the byte string holds `b`, `a`, `r` consecutively at `i`.
pub open spec fn bar_at(h: Seq<u8>, i: int) -> bool {
    h[i] == 98u8 && h[i + 1] == 97u8 && h[i + 2] == 114u8
}

/// Whether the byte string holds the name of the bar as a substring.
pub open spec fn contains_bar_spec(h: Seq<u8>) -> bool {
    exists|i: int| 0 <= i && i + 3 <= h.len() && bar_at(h, i)
}

/// Scans a WM_CLASS property value for the bytes naming the bar.
pub fn contains_bar(v: &[u8]) -> (r: bool)
    ensures
        r == contains_bar_spec(v@),
{
    if v.len() < 3 {
        return false;
    }
    let mut i: usize = 0;
    while i <= v.len() - 3
        invariant
            3 <= v@.len(),
            i <= v@.len(),
            forall|j: int| 0 <= j < i ==> !bar_at(v@, j),
        decreases v@.len() - i,
    {
        if v[i] == 98 && v[i + 1] == 97 && v[i + 2] == 114 {
            proof {
                assert(bar_at(v@, i as int));
            }
            return true;
        }
        i += 1;
    }
    false
}

/// The recorded bar height for an observed window height: negative values
/// are recorded as zero, values beyond the 16-bit coordinate range are
/// capped there.
pub open spec fn clamped_bar_height(h: int) -> int {
    if h < 0 {
        0
    } else if h > 0x7fff {
        0x7fff
    } else {
        h
    }
}

/// The state and request relation of handling a MapRequest: the contract
/// of `Session::map_req`.
pub open spec fn map_req_post(
    s0: Session,
    s1: Session,
    w0: Workspaces,
    w1: Workspaces,
    win: Window,
    wm_class: Seq<u8>,
    dynamic: bool,
    reqs: Seq<XRequest>,
) -> bool {
    &&& (contains_bar_spec(wm_class) ==> ({
        &&& w1 == w0
        &&& s1 == (Session { bar_height: clamped_bar_height(win.height as int) as u16, ..s0 })
        &&& reqs == seq![XRequest::MapWindow { window: win.win }]
    }))
    &&& (!contains_bar_spec(wm_class) ==> ({
        let fw = w0.focus_workspace as int;
        let active = w0.workspaces@[fw];
        let sw = s0.screen_width as int;
        let sh = s0.screen_height as int;
        let act2 = w1.workspaces@[fw];
        &&& s1 == s0
        &&& w1.focus_workspace == w0.focus_workspace
        &&& w1.workspaces@ == w0.workspaces@.update(fw, act2)
        &&& act2.current_layout == active.current_layout
        &&& act2.focus_win == active.windows@.len()
        &&& (dynamic ==> act2.windows@ == apply_layout_windows(
            active.current_layout,
            active.windows@.push(win),
            sw,
            sh,
        ) && act2.tree == active.tree && reqs == seq![
            XRequest::RegisterWindowEvents { window: win.win },
        ] + apply_layout_requests(
            active.current_layout,
            active.windows@.push(win),
            active.windows@.len() as int,
            sw,
            sh,
        ) + seq![XRequest::MapWindow { window: win.win }])
        &&& (!dynamic ==> act2.windows@ == manual_insert_windows(active, win.win, s0.vertical, sw, sh)
            && act2.tree.focused == win.win && reqs == seq![
            XRequest::RegisterWindowEvents { window: win.win },
        ] + manual_insert_requests(active, win.win, s0.vertical, sw, sh, s0.bar_height as int)
            + seq![XRequest::MapWindow { window: win.win }])
    }))
}

impl Session {
    /// Handles a MapRequest. A window whose WM_CLASS names the bar has its
    /// height recorded and is mapped unmodified. Any other window is
    /// subscribed for per-client events, appended to the active workspace
    /// and focused; the active layout is re-applied (or, in manual mode,
    /// the focused leaf is split along the sticky orientation); finally the
    /// window is mapped.
    pub fn map_req(
        &mut self,
        win: Window,
        wm_class: &[u8],
        workspaces: &mut Workspaces,
        config: &ParsedConfig,
    ) -> (reqs: Vec<XRequest>)
        requires
            old(self).wf(),
            old(workspaces).inv(),
            !old(workspaces).manages(win.win),
            old(workspaces).workspaces@[old(workspaces).focus_workspace as int].windows@.len() + 1
                < 0x7fff,
        ensures
            final(self).wf(),
            final(workspaces).inv(),
            map_req_post(
                *old(self),
                *final(self),
                *old(workspaces),
                *final(workspaces),
                win,
                wm_class@,
                config.dynamic,
                reqs@,
            ),
    {
        if contains_bar(wm_class) {
            let h: u16 = if win.height < 0 {
                0
            } else if win.height > 0x7fff {
                0x7fff
            } else {
                win.height as u16
            };
            self.bar_height = h;
            let mut reqs: Vec<XRequest> = Vec::new();
            reqs.push(XRequest::MapWindow { window: win.win });
            proof {
                assert(reqs@ =~= seq![XRequest::MapWindow { window: win.win }]);
            }
            return reqs;
        }
        let fw = workspaces.focus_workspace;
        let mut active = workspaces.workspaces.remove(fw);
        proof {
            assert(old(workspaces).workspaces@[fw as int].inv());
            if active.has_window(win.win) {
                assert(old(workspaces).manages(win.win));
            }
        }
        let mut reqs: Vec<XRequest> = Vec::new();
        reqs.push(self.register_events_on_windows(win.win));
        let ghost active0 = active;
        let mut inner: Vec<XRequest>;
        if config.dynamic {
            active.windows.push(win);
            active.focus_win = active.windows.len() - 1;
            proof {
                assert forall|id: u32| #[trigger]
                    active.tree.has_id(id) implies active.has_window(id) by {
                    assert(active0.has_window(id));
                    let j = choose|j: int|
                        0 <= j < active0.windows@.len() && active0.windows@[j].win == id;
                    assert(active.windows@[j].win == id);
                }
                assert forall|i: int, j: int|
                    0 <= i < j < active.windows@.len() implies active.windows@[i].win
                    != active.windows@[j].win by {
                    if j == active.windows@.len() - 1 && active.windows@[i].win == win.win {
                        assert(active0.has_window(win.win));
                    }
                }
            }
            inner = active.apply_current_layout(self);
            proof {
                lemma_apply_layout_ids(
                    active0.current_layout,
                    active0.windows@.push(win),
                    self.screen_width as int,
                    self.screen_height as int,
                );
            }
        } else {
            let vertical = self.vertical;
            if vertical {
                inner = active.split_window_vertical(self, win, config);
            } else {
                inner = active.split_window_horizontal(self, win, config);
            }
            proof {
                lemma_manual_insert_ids(
                    active0,
                    win.win,
                    vertical,
                    self.screen_width as int,
                    self.screen_height as int,
                );
            }
        }
        reqs.append(&mut inner);
        reqs.push(XRequest::MapWindow { window: win.win });
        let ghost act2 = active;
        workspaces.workspaces.insert(fw, active);
        proof {
            assert(final(workspaces).workspaces@ =~= old(workspaces).workspaces@.update(
                fw as int,
                act2,
            ));
            assert forall|id: u32| #[trigger] act2.has_window(id) implies (active0.has_window(id)
                || id == win.win) by {
                let i = choose|i: int|
                    0 <= i < act2.windows@.len() && act2.windows@[i].win == id;
                if config.dynamic {
                    assert(ids_of_idx(act2.windows@, i) == ids_of_idx(
                        active0.windows@.push(win),
                        i,
                    ));
                    if i < active0.windows@.len() {
                        assert(active0.windows@[i].win == id);
                    }
                } else {
                }
            }
            let wsf = *final(workspaces);
            assert forall|i: int, j: int, id: u32|
                0 <= i < j < wsf.workspaces@.len() implies !((#[trigger] wsf.workspaces@[i].has_window(
                id,
            )) && (#[trigger] wsf.workspaces@[j].has_window(id))) by {
                if i == fw as int || j == fw as int {
                    if wsf.workspaces@[i].has_window(id) && wsf.workspaces@[j].has_window(id) {
                        assert(act2.has_window(id));
                        if id == win.win {
                            assert(old(workspaces).manages(win.win));
                        } else {
                            assert(active0.has_window(id));
                        }
                    }
                }
            }
            if !config.dynamic {
                assert(reqs@ =~= seq![XRequest::RegisterWindowEvents { window: win.win }]
                    + manual_insert_requests(
                    active0,
                    win.win,
                    old(self).vertical,
                    old(self).screen_width as int,
                    old(self).screen_height as int,
                    old(self).bar_height as int,
                ) + seq![XRequest::MapWindow { window: win.win }]);
            } else {
                assert(reqs@ =~= seq![XRequest::RegisterWindowEvents { window: win.win }]
                    + apply_layout_requests(
                    active0.current_layout,
                    active0.windows@.push(win),
                    active0.windows@.len() as int,
                    old(self).screen_width as int,
                    old(self).screen_height as int,
                ) + seq![XRequest::MapWindow { window: win.win }]);
            }
        }
        reqs
    }
}

/// The identifier at one position of a descriptor sequence.
pub open spec fn ids_of_idx(s: Seq<Window>, i: int) -> u32 {
    s[i].win
}

/// The root node of an engine's manual split tree.
pub open spec fn n_of(l: Layouts) -> Node {
    l.tree.root->Some_0
}

/// The state and request relation of handling a DestroyNotify: the
/// contract of `Session::destroy_notify`.
pub open spec fn destroy_notify_post(
    s0: Session,
    w0: Workspaces,
    w1: Workspaces,
    win: u32,
    dynamic: bool,
    reqs: Seq<XRequest>,
) -> bool {

                let fw = w0.focus_workspace as int;
                let active = w0.workspaces@[fw];
                let sw = s0.screen_width as int;
                let sh = s0.screen_height as int;
                let act2 = w1.workspaces@[fw];
                &&& w1.workspaces@ == w0.workspaces@.update(fw, act2)
                &&& (dynamic ==> ({
                    &&& (!active.has_window(win) ==> act2 == active && reqs.len() == 0)
                    &&& (active.has_window(win) ==> ({
                        let removed = active.windows@.remove(
                            win_index(active.windows@, win),
                        );
                        let m = removed.len() as int;
                        let nf = if m == 0 {
                            0
                        } else {
                            m - 1
                        };
                        let focus_part: Seq<XRequest> = if m == 0 {
                            Seq::empty()
                        } else {
                            seq![XRequest::SetInputFocus { window: removed[nf].win }]
                        };
                        &&& act2.focus_win == nf
                        &&& act2.current_layout == active.current_layout
                        &&& act2.tree == active.tree
                        &&& (active.current_layout is Tile ==> act2.windows@
                            == apply_layout_windows(WmLayouts::Tile, removed, sw, sh) && reqs
                            == focus_part + apply_layout_requests(
                            WmLayouts::Tile,
                            removed,
                            nf,
                            sw,
                            sh,
                        ))
                        &&& (!(active.current_layout is Tile) ==> act2.windows@ == removed
                            && reqs == focus_part)
                    }))
                }))
                &&& (!dynamic ==> ({
                    &&& (!active.tree.has_id(win) ==> act2 == active && reqs.len() == 0)
                    &&& (active.tree.has_id(win) ==> ({
                        let n = active.tree.root->Some_0;
                        let windows1 = active.windows@.remove(
                            win_index(active.windows@, win),
                        );
                        match remove_leaf(n, win) {
                            None => act2.windows@ == windows1 && act2.tree.root is None && reqs.len()
                                == 0,
                            Some(n2) => {
                                let focus1 = if active.tree.focused == win {
                                    focus_after_remove(n, win)
                                } else {
                                    active.tree.focused
                                };
                                let k2 = leaf_index(n2, focus1);
                                let grown = grown_leaf(
                                    leaves(n2)[k2],
                                    primary_is_width(n2, focus1, true),
                                );
                                &&& act2.tree.focused == focus1
                                &&& act2.tree.leaf_seq() == leaves(n2).update(
                                    k2,
                                    grown,
                                )
                                &&& act2.windows@ == windows1.update(
                                    win_index(windows1, focus1),
                                    grown,
                                )
                                &&& act2.windows@.len() == windows1.len()
                                &&& 0 <= win_index(windows1, focus1)
                                    < windows1.len()
                                &&& reqs == seq![
                                    XRequest::Configure {
                                        window: focus1,
                                        rect: spec_configured(
                                            spec_frame_changes(grown),
                                            BORDER_WIDTH as int,
                                            s0.bar_height as int,
                                            GAPS as int,
                                        ),
                                    },
                                    XRequest::SetInputFocus { window: focus1 },
                                ]
                            },
                        }
                    }))
                }))
}

impl Session {
    /// Handles a DestroyNotify. A window that the active workspace does not
    /// manage is ignored. In dynamic mode the entry is removed, the focused
    /// index drops to the end of the shortened sequence, the input focus
    /// moves there, and the tile layout is re-applied when it is active. In
    /// manual mode the leaf is removed from the split tree, the promoted
    /// sibling (now focused when the destroyed window was) is grown by the
    /// resize rule, and the input focus moves to the focused leaf.
    #[verifier::rlimit(60)]
    pub fn destroy_notify(
        &self,
        workspaces: &mut Workspaces,
        win: u32,
        config: &ParsedConfig,
    ) -> (reqs: Vec<XRequest>)
        requires
            self.wf(),
            old(workspaces).inv(),
            old(workspaces).workspaces@[old(workspaces).focus_workspace as int].windows@.len()
                < 0x7fff,
            config.dynamic ==> old(workspaces).workspaces@[old(workspaces).focus_workspace as int].tree.root is None,
        ensures
            final(workspaces).inv(),
            final(workspaces).focus_workspace == old(workspaces).focus_workspace,
            destroy_notify_post(*self, *old(workspaces), *final(workspaces), win, config.dynamic, reqs@),
    {
        let fw = workspaces.focus_workspace;
        let mut active = workspaces.workspaces.remove(fw);
        let ghost active0 = active;
        proof {
            assert(old(workspaces).workspaces@[fw as int].inv());
        }
        let mut reqs: Vec<XRequest> = Vec::new();
        if config.dynamic {
            match Layouts::find_window_from(&active.windows, win, 0) {
                None => {
                    proof {
                        if active0.has_window(win) {
                            let j = choose|j: int|
                                0 <= j < active0.windows@.len() && active0.windows@[j].win == win;
                            assert(active0.windows@[j].win != win);
                        }
                    }
                },
                Some(idx) => {
                    active.windows.remove(idx);
                    let m = active.windows.len();
                    active.focus_win = if m == 0 {
                        0
                    } else {
                        m - 1
                    };
                    proof {
                        lemma_remove_keeps_distinct(active0.windows@, idx as int);
                    }
                    if m > 0 {
                        reqs.push(
                            XRequest::SetInputFocus {
                                window: active.windows[active.focus_win].win,
                            },
                        );
                    }
                    let is_tile = match active.current_layout {
                        WmLayouts::Tile => true,
                        _ => false,
                    };
                    if is_tile {
                        let mut inner = active.apply_current_layout(self);
                        reqs.append(&mut inner);
                    }
                    proof {
                        if m > 0 && active.current_layout is Tile {
                            assert(reqs@ =~= seq![
                                XRequest::SetInputFocus {
                                    window: active0.windows@.remove(idx as int)[m - 1].win,
                                },
                            ] + apply_layout_requests(
                                WmLayouts::Tile,
                                active0.windows@.remove(idx as int),
                                m - 1,
                                self.screen_width as int,
                                self.screen_height as int,
                            ));
                        }
                        if m == 0 && active.current_layout is Tile {
                            assert(reqs@ =~= Seq::<XRequest>::empty() + apply_layout_requests(
                                WmLayouts::Tile,
                                active0.windows@.remove(idx as int),
                                0,
                                self.screen_width as int,
                                self.screen_height as int,
                            ));
                        }
                        if m > 0 && !(active.current_layout is Tile) {
                            assert(reqs@ =~= seq![
                                XRequest::SetInputFocus {
                                    window: active0.windows@.remove(idx as int)[m - 1].win,
                                },
                            ]);
                        }
                    }
                },
            }
        } else {
            let present = match &active.tree.root {
                None => false,
                Some(n) => node_has(n, win),
            };
            if present {
                active.remove_window(win);
                if !active.tree.is_empty() {
                    let mut inner = active.resize(self);
                    let ghost innerv = inner@;
                    reqs.append(&mut inner);
                    reqs.push(XRequest::SetInputFocus { window: active.tree.focused });
                    proof {
                        assert(reqs@ =~= seq![
                            innerv[0],
                            XRequest::SetInputFocus { window: active.tree.focused },
                        ]);
                    }
                }
            }
        }
        let ghost act2 = active;
        workspaces.workspaces.insert(fw, active);
        proof {
            assert(final(workspaces).workspaces@ =~= old(workspaces).workspaces@.update(
                fw as int,
                act2,
            ));
            if config.dynamic && active0.has_window(win) {
                lemma_win_index_bounds(active0.windows@, win);
            }
            if !config.dynamic && active0.tree.has_id(win) {
                let n = active0.tree.root->Some_0;
                assert(active0.has_window(win));
                lemma_win_index_bounds(active0.windows@, win);
                lemma_contains_index(n, win);
                let windows1 = active0.windows@.remove(
                    win_index(active0.windows@, win),
                );
                if remove_leaf(n, win) is Some {
                    let n2 = remove_leaf(n, win)->Some_0;
                    let focus1 = if active0.tree.focused == win {
                        focus_after_remove(n, win)
                    } else {
                        active0.tree.focused
                    };
                    assert(contains_id(n2, focus1));
                    lemma_contains_index(n2, focus1);
                    assert(exists|i: int|
                        0 <= i < windows1.len() && windows1[i].win == focus1);
                    lemma_win_index_bounds(windows1, focus1);
                }
            }
            assert forall|id: u32| #[trigger] act2.has_window(id) implies active0.has_window(
                id,
            ) by {
                let i = choose|i: int|
                    0 <= i < act2.windows@.len() && act2.windows@[i].win == id;
                if config.dynamic {
                    if active0.has_window(win) {
                        let idx = win_index(active0.windows@, win);
                        let removed = active0.windows@.remove(idx);
                        assert(ids_of_idx(act2.windows@, i) == ids_of_idx(removed, i));
                        if i < idx {
                            assert(active0.windows@[i].win == id);
                        } else {
                            assert(active0.windows@[i + 1].win == id);
                        }
                    }
                } else {
                    if active0.tree.has_id(win) {
                        let idx = win_index(active0.windows@, win);
                        let windows1 = active0.windows@.remove(idx);
                        if remove_leaf(n_of(active0), win) is Some {
                            let focus1 = act2.tree.focused;
                            let j = win_index(windows1, focus1);
                            if i == j {
                                assert(act2.windows@[i].win == focus1);
                                assert(active0.tree.has_id(focus1) || contains_id(
                                    remove_leaf(n_of(active0), win)->Some_0,
                                    focus1,
                                ));
                                assert(active0.has_window(focus1));
                            } else {
                                assert(windows1[i].win == id);
                                if i < idx {
                                    assert(active0.windows@[i].win == id);
                                } else {
                                    assert(active0.windows@[i + 1].win == id);
                                }
                            }
                        }
                    }
                }
            }
            let wsf = *final(workspaces);
            assert forall|i: int, j: int, id: u32|
                0 <= i < j < wsf.workspaces@.len() implies !((#[trigger] wsf.workspaces@[i].has_window(
                id,
            )) && (#[trigger] wsf.workspaces@[j].has_window(id))) by {
                if i == fw as int || j == fw as int {
                    if wsf.workspaces@[i].has_window(id) && wsf.workspaces@[j].has_window(id) {
                        assert(act2.has_window(id));
                        assert(active0.has_window(id));
                    }
                }
            }
        }
        reqs
    }

    /// Issues a destroy request for the focused window of the active
    /// workspace. Dynamic mode only; a no-op on an empty workspace.
    pub fn kill_window(&self, workspaces: &Workspaces, config: &ParsedConfig) -> (reqs: Vec<
        XRequest,
    >)
        requires
            workspaces.inv(),
        ensures
            ({
                let active = workspaces.workspaces@[workspaces.focus_workspace as int];
                if config.dynamic && active.windows@.len() > 0 {
                    reqs@ == seq![
                        XRequest::DestroyWindow {
                            window: active.windows@[active.focus_win as int].win,
                        },
                    ]
                } else {
                    reqs@.len() == 0
                }
            }),
    {
        let mut reqs: Vec<XRequest> = Vec::new();
        if config.dynamic {
            let active = workspaces.get_current_layout();
            if active.windows.len() > 0 {
                reqs.push(
                    XRequest::DestroyWindow { window: active.windows[active.focus_win].win },
                );
                proof {
                    assert(reqs@ =~= seq![
                        XRequest::DestroyWindow {
                            window: workspaces.workspaces@[workspaces.focus_workspace as int].windows@[workspaces.workspaces@[workspaces.focus_workspace as int].focus_win as int].win,
                        },
                    ]);
                }
            }
        }
        reqs
    }
}


/// A protocol event, as plain values, after the owning process has read
/// the auxiliary data the handler needs (the WM_CLASS property for a map
/// request, the current geometry for a configure request).
#[derive(Debug)]
pub enum Event {
    KeyPress { detail: u8, state: u16 },
    MapRequest { window: Window, wm_class: Vec<u8> },
    ConfigureRequest { window: Window, changes: WindowChanges },
    DestroyNotify { window: u32 },
    CreateNotify,
    MapNotify,
    MappingNotify,
    LeaveNotify,
    EnterNotify,
}

/// What handling one event asks of the owning process: protocol requests
/// to perform (followed by a flush), a command line to spawn, and whether
/// to exit the event loop.
#[derive(Debug)]
pub struct Outcome {
    pub quit: bool,
    pub spawn: Option<Vec<u8>>,
    pub requests: Vec<XRequest>,
}

/// The whole manager state the event loop drives: the configuration, the
/// session values, the workspaces and the resolved keybinding table.
#[derive(Debug)]
pub struct Events {
    pub config: ParsedConfig,
    pub session: Session,
    pub workspaces: Workspaces,
    pub keybindings: Keybindings,
}

/// The state and outcome relation of handling a key press: the contract
/// of `Events::handle_key_press`.
pub open spec fn key_press_post(
    e0: Events,
    e1: Events,
    detail: u8,
    state: u16,
    out_quit: bool,
    out_spawn: Option<Vec<u8>>,
    out_requests: Seq<XRequest>,
) -> bool {

                let bs = e0.keybindings.keyseqs@;
                let k = first_binding_from(bs, detail, state, 0);
                if k >= bs.len() {
                    &&& e1 == e0
                    &&& !out_quit
                    &&& out_spawn is None
                    &&& out_requests.len() == 0
                } else {
                    let c = parse_command_spec(bs[k].command@);
                    let fw = e0.workspaces.focus_workspace as int;
                    let active = e0.workspaces.workspaces@[fw];
                    let act2 = e1.workspaces.workspaces@[fw];
                    let sw = e0.session.screen_width as int;
                    let sh = e0.session.screen_height as int;
                    let dynamic = e0.config.dynamic;
                    &&& out_quit == (c is Quit)
                    &&& (out_spawn is Some <==> c is Spawn)
                    &&& (out_spawn matches Some(v) ==> v@ == bs[k].command@)
                    &&& ((c is Quit || c is Spawn || c is Invalid) ==> e1 == e0
                        && out_requests.len() == 0)
                    &&& (c is ChangeLayout ==> e1.session == e0.session && e1.workspaces.focus_workspace == fw && e1.workspaces.workspaces@ == e0.workspaces.workspaces@.update(fw, act2) && change_layout_post(
                        active,
                        act2,
                        out_requests,
                        e0.config.enabled_layouts@.map_values(|t: String| t@),
                        sw,
                        sh,
                        dynamic,
                    ))
                    &&& (c is CycleWindowForward ==> e1.session == e0.session
                        && e1.workspaces.focus_workspace == fw && e1.workspaces.workspaces@ == e0.workspaces.workspaces@.update(fw, act2)
                        && cycle_forward_post(active, act2, out_requests, sw, sh, dynamic))
                    &&& (c is CycleWindowBackward ==> e1.session == e0.session
                        && e1.workspaces.focus_workspace == fw && e1.workspaces.workspaces@ == e0.workspaces.workspaces@.update(fw, act2)
                        && cycle_backward_post(active, act2, out_requests, sw, sh, dynamic))
                    &&& (c is CycleWindowFocusForward ==> e1.session == e0.session
                        && e1.workspaces.focus_workspace == fw && e1.workspaces.workspaces@ == e0.workspaces.workspaces@.update(fw, act2)
                        && focus_forward_post(active, act2, out_requests, dynamic))
                    &&& (c is CycleWindowFocusBackward ==> e1.session == e0.session
                        && e1.workspaces.focus_workspace == fw && e1.workspaces.workspaces@ == e0.workspaces.workspaces@.update(fw, act2)
                        && focus_backward_post(active, act2, out_requests, dynamic))
                    &&& (c matches Command::GotoTag(nr) ==> ({
                        if 1 <= nr < e0.workspaces.workspaces@.len() + 1 {
                            &&& e1.session == e0.session
                            &&& e1.workspaces.workspaces == e0.workspaces.workspaces
                            &&& e1.workspaces.focus_workspace == nr - 1
                            &&& out_requests == unmap_seq(
                                ids_of(active.windows@),
                            ) + map_seq(
                                ids_of(
                                    e0.workspaces.workspaces@[nr - 1].windows@,
                                ),
                            ) + seq![
                                XRequest::SetCurrentDesktop { index: (nr - 1) as u32 },
                                XRequest::SetInputFocus {
                                    window: focus_target(
                                        e0.workspaces.workspaces@[nr - 1],
                                        e0.session.root,
                                    ),
                                },
                            ]
                        } else {
                            e1 == e0 && out_requests.len() == 0
                        }
                    }))
                }
}

impl Events {
    /// Assembles the manager state from its parts, checking the dispatcher
    /// invariant's startup obligations.
    pub fn new(
        config: ParsedConfig,
        session: Session,
        workspaces: Workspaces,
        keybindings: Keybindings,
    ) -> (e: Events)
        requires
            session.wf(),
            workspaces.inv(),
            config.enabled_layouts@.len() > 0,
            forall|i: int|
                0 <= i < workspaces.workspaces@.len() ==> (#[trigger] workspaces.workspaces@[i]).windows@.len()
                    + 2 < 0x7fff,
            config.dynamic ==> forall|i: int|
                0 <= i < workspaces.workspaces@.len() ==> (#[trigger] workspaces.workspaces@[i]).tree.root
                    is None,
        ensures
            e.inv(),
            e.config == config,
            e.session == session,
            e.workspaces == workspaces,
            e.keybindings == keybindings,
    {
        Events { config, session, workspaces, keybindings }
    }

    /// The dispatcher invariant: the session and every workspace are
    /// well-formed, at least one layout is enabled, every workspace is
    /// comfortably below the window-count cap, and in dynamic mode no
    /// manual split tree exists.
    pub open spec fn inv(self) -> bool {
        &&& self.session.wf()
        &&& self.workspaces.inv()
        &&& self.config.enabled_layouts@.len() > 0
        &&& (forall|i: int|
            0 <= i < self.workspaces.workspaces@.len() ==> (#[trigger] self.workspaces.workspaces@[i]).windows@.len()
                + 2 < 0x7fff)
        &&& (self.config.dynamic ==> forall|i: int|
            0 <= i < self.workspaces.workspaces@.len() ==> (#[trigger] self.workspaces.workspaces@[i]).tree.root
                is None)
    }

    /// Handles the first matching keybinding of a key press: none matching
    /// is a no-op; otherwise the bound command string is classified and
    /// dispatched.
    pub fn handle_key_press(&mut self, detail: u8, state: u16) -> (out: Outcome)
        requires
            old(self).inv(),
        ensures
            final(self).inv(),
            final(self).config == old(self).config,
            final(self).keybindings == old(self).keybindings,
            key_press_post(
                *old(self),
                *final(self),
                detail,
                state,
                out.quit,
                out.spawn,
                out.requests@,
            ),
    {
        let found = match_key_press(&self.keybindings, detail, state);
        if found.is_none() {
            return Outcome { quit: false, spawn: None, requests: Vec::new() };
        }
        let k = found.unwrap();
        let table_len = self.keybindings.keyseqs.len();
        proof {
            let bs = self.keybindings.keyseqs@;
            lemma_first_binding_bounds(bs, detail, state, 0);
            let firstk = first_binding_from(bs, detail, state, 0);
            assert(bs.len() == table_len);
            assert(k == firstk);
            assert(k < bs.len());
        }
        let cmd = copy_bytes(&self.keybindings.keyseqs[k].command);
        let c = parse_command(&cmd);
        match c {
            Command::Quit => Outcome { quit: true, spawn: None, requests: Vec::new() },
            Command::Spawn => Outcome { quit: false, spawn: Some(cmd), requests: Vec::new() },
            Command::Invalid => Outcome { quit: false, spawn: None, requests: Vec::new() },
            Command::GotoTag(nr) => {
                if 1 <= nr && nr - 1 < self.workspaces.workspaces.len() {
                    let reqs = self.workspaces.go_to_tag(nr - 1, &self.session);
                    Outcome { quit: false, spawn: None, requests: reqs }
                } else {
                    Outcome { quit: false, spawn: None, requests: Vec::new() }
                }
            },
            Command::ChangeLayout => {
                let reqs = self.with_active_change_layout();
                Outcome { quit: false, spawn: None, requests: reqs }
            },
            Command::CycleWindowForward => {
                let reqs = self.with_active_cycle(0);
                Outcome { quit: false, spawn: None, requests: reqs }
            },
            Command::CycleWindowBackward => {
                let reqs = self.with_active_cycle(1);
                Outcome { quit: false, spawn: None, requests: reqs }
            },
            Command::CycleWindowFocusForward => {
                let reqs = self.with_active_cycle(2);
                Outcome { quit: false, spawn: None, requests: reqs }
            },
            Command::CycleWindowFocusBackward => {
                let reqs = self.with_active_cycle(3);
                Outcome { quit: false, spawn: None, requests: reqs }
            },
        }
    }

    /// Applies `change_layout` to the active workspace.
    fn with_active_change_layout(&mut self) -> (reqs: Vec<XRequest>)
        requires
            old(self).inv(),
        ensures
            final(self).inv(),
            final(self).config == old(self).config,
            final(self).keybindings == old(self).keybindings,
            final(self).session == old(self).session,
            final(self).workspaces.focus_workspace == old(self).workspaces.focus_workspace,
            ({
                let fw = old(self).workspaces.focus_workspace as int;
                let active = old(self).workspaces.workspaces@[fw];
                let act2 = final(self).workspaces.workspaces@[fw];
                &&& final(self).workspaces.workspaces@ == old(self).workspaces.workspaces@.update(
                    fw,
                    act2,
                )
                &&& change_layout_post(
                    active,
                    act2,
                    reqs@,
                    old(self).config.enabled_layouts@.map_values(|t: String| t@),
                    old(self).session.screen_width as int,
                    old(self).session.screen_height as int,
                    old(self).config.dynamic,
                )
            }),
    {
        let fw = self.workspaces.focus_workspace;
        let mut active = self.workspaces.workspaces.remove(fw);
        let ghost active0 = active;
        proof {
            assert(old(self).workspaces.workspaces@[fw as int].inv());
        }
        let reqs = active.change_layout(&self.config, &self.session);
        proof {
            lemma_apply_layout_ids(
                active.current_layout,
                active0.windows@,
                self.session.screen_width as int,
                self.session.screen_height as int,
            );
        }
        let ghost act2 = active;
        self.workspaces.workspaces.insert(fw, active);
        proof {
            assert(self.workspaces.workspaces@ =~= old(self).workspaces.workspaces@.update(
                fw as int,
                act2,
            ));
            assert forall|id: u32| #[trigger] act2.has_window(id) implies active0.has_window(
                id,
            ) by {
                let i = choose|i: int|
                    0 <= i < act2.windows@.len() && act2.windows@[i].win == id;
                if self.config.dynamic {
                    assert(ids_of(act2.windows@)[i] == ids_of(active0.windows@)[i]);
                    assert(active0.windows@[i].win == id);
                }
            }
            lemma_replace_active(
                old(self).workspaces,
                self.workspaces,
                act2,
                fw as int,
            );
        }
        reqs
    }

    /// Applies one of the four cycle operations to the active workspace:
    /// `0` moves the window forward, `1` backward, `2` the focus forward,
    /// `3` the focus backward.
    fn with_active_cycle(&mut self, which: u8) -> (reqs: Vec<XRequest>)
        requires
            old(self).inv(),
            which < 4,
        ensures
            final(self).inv(),
            final(self).config == old(self).config,
            final(self).keybindings == old(self).keybindings,
            final(self).session == old(self).session,
            final(self).workspaces.focus_workspace == old(self).workspaces.focus_workspace,
            ({
                let fw = old(self).workspaces.focus_workspace as int;
                let active = old(self).workspaces.workspaces@[fw];
                let act2 = final(self).workspaces.workspaces@[fw];
                let sw = old(self).session.screen_width as int;
                let sh = old(self).session.screen_height as int;
                let dynamic = old(self).config.dynamic;
                &&& final(self).workspaces.workspaces@ == old(self).workspaces.workspaces@.update(
                    fw,
                    act2,
                )
                &&& (which == 0 ==> cycle_forward_post(active, act2, reqs@, sw, sh, dynamic))
                &&& (which == 1 ==> cycle_backward_post(active, act2, reqs@, sw, sh, dynamic))
                &&& (which == 2 ==> focus_forward_post(active, act2, reqs@, dynamic))
                &&& (which == 3 ==> focus_backward_post(active, act2, reqs@, dynamic))
            }),
    {
        let fw = self.workspaces.focus_workspace;
        let mut active = self.workspaces.workspaces.remove(fw);
        let ghost active0 = active;
        proof {
            assert(old(self).workspaces.workspaces@[fw as int].inv());
        }
        let reqs = if which == 0 {
            let r = active.cycle_window_forward(&self.session, &self.config);
            proof {
                if self.config.dynamic && active0.windows@.len() > 1 && !(active0.current_layout
                    is Max) {
                    lemma_cycle_forward_ids_onto(
                        ids_of(active0.windows@),
                        active0.focus_win as int,
                    );
                }
            }
            r
        } else if which == 1 {
            let r = active.cycle_window_backward(&self.session, &self.config);
            proof {
                if self.config.dynamic && active0.windows@.len() > 1 && !(active0.current_layout
                    is Max) {
                    lemma_cycle_backward_ids_onto(
                        ids_of(active0.windows@),
                        active0.focus_win as int,
                    );
                }
            }
            r
        } else if which == 2 {
            active.cycle_window_focus_forward(&self.session, &self.config)
        } else {
            active.cycle_window_focus_backward(&self.session, &self.config)
        };
        let ghost act2 = active;
        self.workspaces.workspaces.insert(fw, active);
        proof {
            assert(self.workspaces.workspaces@ =~= old(self).workspaces.workspaces@.update(
                fw as int,
                act2,
            ));
            assert forall|id: u32| #[trigger] act2.has_window(id) implies active0.has_window(
                id,
            ) by {
                let i = choose|i: int|
                    0 <= i < act2.windows@.len() && act2.windows@[i].win == id;
                let dynamic = self.config.dynamic;
                if dynamic && active0.windows@.len() > 1 && (which == 0 || which == 1) {
                    if active0.current_layout is Max {
                        let n = active0.windows@.len() as int;
                        if which == 0 {
                            if i < n - 1 {
                                assert(active0.windows@[i + 1].win == id);
                            } else {
                                assert(active0.windows@[0].win == id);
                            }
                        } else {
                            if i == 0 {
                                assert(active0.windows@[n - 1].win == id);
                            } else {
                                assert(active0.windows@[i - 1].win == id);
                            }
                        }
                    } else {
                        let t = if which == 0 {
                            cycle_forward_ids(
                                ids_of(active0.windows@),
                                active0.focus_win as int,
                            ).0
                        } else {
                            cycle_backward_ids(
                                ids_of(active0.windows@),
                                active0.focus_win as int,
                            ).0
                        };
                        assert(ids_of(act2.windows@)[i] == t[i]);
                        let j = choose|j: int|
                            0 <= j < ids_of(active0.windows@).len() && ids_of(active0.windows@)[j]
                                == t[i];
                        assert(active0.windows@[j].win == id);
                    }
                }
            }
            lemma_replace_active(
                old(self).workspaces,
                self.workspaces,
                act2,
                fw as int,
            );
        }
        reqs
    }
}

/// Copies a byte string.
pub fn copy_bytes(v: &Vec<u8>) -> (r: Vec<u8>)
    ensures
        r@ == v@,
{
    let n = v.len();
    let mut r: Vec<u8> = Vec::new();
    let mut i: usize = 0;
    while i < n
        invariant
            i <= n,
            n == v@.len(),
            r@ == v@.subrange(0, i as int),
        decreases n - i,
    {
        r.push(v[i]);
        proof {
            assert(r@ =~= v@.subrange(0, i as int + 1));
        }
        i += 1;
    }
    proof {
        assert(v@.subrange(0, n as int) =~= v@);
    }
    r
}


impl Events {
    /// Classifies one protocol event and dispatches it per the handler
    /// table: key presses go to the keybinding executor; a map request
    /// (ignored beyond the window-count cap) goes to the map handler; a
    /// configure request is honoured unless it comes from the bar; a
    /// destroy notification removes the window from the active workspace;
    /// the remaining notifications are ignored.
    pub fn handle_event(&mut self, event: Event) -> (out: Outcome)
        requires
            old(self).inv(),
            event matches Event::MapRequest { window, .. } ==> !old(self).workspaces.manages(
                window.win,
            ),
        ensures
            final(self).inv(),
            final(self).config == old(self).config,
            final(self).keybindings == old(self).keybindings,
            (event is CreateNotify || event is MapNotify || event is MappingNotify || event
                is LeaveNotify || event is EnterNotify) ==> *final(self) == *old(self) && !out.quit
                && out.spawn is None && out.requests@.len() == 0,
            event matches Event::ConfigureRequest { window, changes } ==> *final(self) == *old(
                self,
            ) && !out.quit && out.spawn is None && (if window.height == old(
                self,
            ).session.bar_height {
                out.requests@.len() == 0
            } else {
                out.requests@ == seq![
                    XRequest::Configure {
                        window: window.win,
                        rect: spec_configured(changes, 0, 0, 0),
                    },
                ]
            }),
            event matches Event::DestroyNotify { window } ==> final(self).session == old(
                self,
            ).session && !out.quit && out.spawn is None && final(self).workspaces.focus_workspace
                == old(self).workspaces.focus_workspace && destroy_notify_post(
                old(self).session,
                old(self).workspaces,
                final(self).workspaces,
                window,
                old(self).config.dynamic,
                out.requests@,
            ),
            event matches Event::MapRequest { window, wm_class } ==> !out.quit && out.spawn
                is None && ({
                let active_len = old(self).workspaces.workspaces@[old(
                    self,
                ).workspaces.focus_workspace as int].windows@.len();
                if active_len + 3 < 0x7fff {
                    map_req_post(
                        old(self).session,
                        final(self).session,
                        old(self).workspaces,
                        final(self).workspaces,
                        window,
                        wm_class@,
                        old(self).config.dynamic,
                        out.requests@,
                    )
                } else {
                    *final(self) == *old(self) && out.requests@.len() == 0
                }
            }),
            event matches Event::KeyPress { detail, state } ==> key_press_post(
                *old(self),
                *final(self),
                detail,
                state,
                out.quit,
                out.spawn,
                out.requests@,
            ),
    {
        match event {
            Event::KeyPress { detail, state } => self.handle_key_press(detail, state),
            Event::MapRequest { window, wm_class } => {
                let active_len = self.workspaces.get_current_layout().windows.len();
                if active_len + 3 < 0x7fff {
                    let ghost pre = *self;
                    let reqs = self.session.map_req(
                        window,
                        wm_class.as_slice(),
                        &mut self.workspaces,
                        &self.config,
                    );
                    proof {
                        let fw = pre.workspaces.focus_workspace as int;
                        let active = pre.workspaces.workspaces@[fw];
                        let act2 = self.workspaces.workspaces@[fw];
                        if !contains_bar_spec(wm_class@) {
                            assert(ids_of(active.windows@.push(window)).len()
                                == active.windows@.len() + 1);
                            if !pre.config.dynamic {
                                if active.tree.root is Some {
                                    assert(active.tree.has_id(active.tree.focused));
                                    assert(active.has_window(active.tree.focused));
                                    lemma_win_index_bounds(
                                        active.windows@,
                                        active.tree.focused,
                                    );
                                }
                            }
                            assert(act2.windows@.len() == active.windows@.len() + 1);
                            assert forall|i: int|
                                0 <= i < self.workspaces.workspaces@.len() implies (
                            #[trigger] self.workspaces.workspaces@[i]).windows@.len() + 2
                                < 0x7fff by {
                                if i != fw {
                                    assert(self.workspaces.workspaces@[i]
                                        == pre.workspaces.workspaces@[i]);
                                }
                            }
                        }
                    }
                    Outcome { quit: false, spawn: None, requests: reqs }
                } else {
                    Outcome { quit: false, spawn: None, requests: Vec::new() }
                }
            },
            Event::ConfigureRequest { window, changes } => {
                let r = self.session.configure_request(&window, &changes);
                let mut reqs: Vec<XRequest> = Vec::new();
                match r {
                    Some(req) => {
                        reqs.push(req);
                        proof {
                            assert(reqs@ =~= seq![
                                XRequest::Configure {
                                    window: window.win,
                                    rect: spec_configured(changes, 0, 0, 0),
                                },
                            ]);
                        }
                    },
                    None => {},
                }
                Outcome { quit: false, spawn: None, requests: reqs }
            },
            Event::DestroyNotify { window } => {
                let ghost pre = *self;
                let reqs = self.session.destroy_notify(
                    &mut self.workspaces,
                    window,
                    &self.config,
                );
                proof {
                    let fw = pre.workspaces.focus_workspace as int;
                    let active = pre.workspaces.workspaces@[fw];
                    let act2 = self.workspaces.workspaces@[fw];
                    assert forall|i: int|
                        0 <= i < self.workspaces.workspaces@.len() implies (
                    #[trigger] self.workspaces.workspaces@[i]).windows@.len() + 2 < 0x7fff by {
                        if i != fw {
                            assert(self.workspaces.workspaces@[i] == pre.workspaces.workspaces@[i]);
                        } else {
                            if pre.config.dynamic {
                                if active.has_window(window) {
                                    lemma_win_index_bounds(
                                        active.windows@,
                                        window,
                                    );
                                    assert(act2.windows@.len() == active.windows@.len() - 1);
                                }
                            } else {
                                if active.tree.has_id(window) {
                                    assert(active.has_window(window));
                                    lemma_win_index_bounds(
                                        active.windows@,
                                        window,
                                    );
                                    let n = active.tree.root->Some_0;
                                    if remove_leaf(n, window) is Some {
                                        assert(act2.windows@.len() == active.windows@.len() - 1);
                                    } else {
                                        assert(act2.windows@.len() == active.windows@.len() - 1);
                                    }
                                }
                            }
                        }
                    }
                    if self.config.dynamic {
                        assert forall|i: int|
                            0 <= i < self.workspaces.workspaces@.len() implies (
                        #[trigger] self.workspaces.workspaces@[i]).tree.root is None by {
                            if i != fw {
                                assert(self.workspaces.workspaces@[i]
                                    == pre.workspaces.workspaces@[i]);
                            }
                        }
                    }
                }
                Outcome { quit: false, spawn: None, requests: reqs }
            },
            Event::CreateNotify => Outcome { quit: false, spawn: None, requests: Vec::new() },
            Event::MapNotify => Outcome { quit: false, spawn: None, requests: Vec::new() },
            Event::MappingNotify => Outcome { quit: false, spawn: None, requests: Vec::new() },
            Event::LeaveNotify => Outcome { quit: false, spawn: None, requests: Vec::new() },
            Event::EnterNotify => Outcome { quit: false, spawn: None, requests: Vec::new() },
        }
    }
}

} // verus!
