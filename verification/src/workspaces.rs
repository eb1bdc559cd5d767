//! The workspace manager: a fixed collection of layout engines, one per
//! configured workspace, with the index of the currently visible one.
//! Switching tags unmaps every window of the old workspace, maps every
//! window of the new one, publishes the current-desktop property and moves
//! the input focus.

use vstd::prelude::*;

use crate::config_parser::ParsedConfig;
use crate::layouts::Layouts;
use crate::x::{ids_of, Session, Window, XRequest};

verus! {

/// One unmap request per window of `ids`, in order.
pub open spec fn unmap_seq(ids: Seq<u32>) -> Seq<XRequest> {
    Seq::new(ids.len(), |i: int| XRequest::UnmapWindow { window: ids[i] })
}

/// One map request per window of `ids`, in order.
pub open spec fn map_seq(ids: Seq<u32>) -> Seq<XRequest> {
    Seq::new(ids.len(), |i: int| XRequest::MapWindow { window: ids[i] })
}

/// The window that receives the input focus after a workspace becomes
/// current: its focused window, or the root window when it is empty.
pub open spec fn focus_target(l: Layouts, root: u32) -> u32 {
    if l.windows@.len() == 0 {
        root
    } else {
        l.windows@[l.focus_win as int].win
    }
}

/// The manager state after switching to `tag`: the same engines, with
/// `tag` current. `go_to_tag` ensures the final state is exactly this.
pub open spec fn switched(w: Workspaces, tag: usize) -> Workspaces {
    Workspaces { focus_workspace: tag, ..w }
}

/// The identifiers mapped on screen: those of the current workspace, since
/// a switch unmaps every window of the old workspace and maps every window
/// of the new one.
pub open spec fn mapped_ids(w: Workspaces) -> Seq<u32> {
    ids_of(w.workspaces@[w.focus_workspace as int].windows@)
}

/// The fixed collection of per-workspace layout engines and the index of
/// the currently visible workspace.
#[derive(Debug)]
pub struct Workspaces {
    pub workspaces: Vec<Layouts>,
    pub focus_workspace: usize,
}

impl Workspaces {
    /// The manager invariant: there is at least one workspace, the current
    /// index is in range, every engine satisfies its own invariant, and no
    /// window is managed by two workspaces.
    pub open spec fn inv(self) -> bool {
        &&& self.workspaces@.len() >= 1
        &&& self.focus_workspace < self.workspaces@.len()
        &&& (forall|i: int|
            0 <= i < self.workspaces@.len() ==> (#[trigger] self.workspaces@[i]).inv())
        &&& (forall|i: int, j: int, id: u32|
            0 <= i < j < self.workspaces@.len() ==> !((#[trigger] self.workspaces@[i].has_window(
                id,
            )) && (#[trigger] self.workspaces@[j].has_window(id))))
    }

    /// Whether any workspace manages the window `id`.
    pub open spec fn manages(self, id: u32) -> bool {
        exists|i: int| 0 <= i < self.workspaces@.len() && self.workspaces@[i].has_window(id)
    }

    /// One layout engine per configured workspace entry, all starting in
    /// the first enabled layout; the first workspace is current.
    pub fn new(config: &ParsedConfig) -> (w: Workspaces)
        requires
            config.workspaces@.len() >= 1,
            config.enabled_layouts@.len() > 0,
        ensures
            w.inv(),
            w.workspaces@.len() == config.workspaces@.len(),
            w.focus_workspace == 0,
            forall|i: int|
                0 <= i < w.workspaces@.len() ==> (#[trigger] w.workspaces@[i]).windows@.len() == 0
                    && w.workspaces@[i].tree.root is None,
    {
        let mut workspaces: Vec<Layouts> = Vec::new();
        let n = config.workspaces.len();
        let mut i: usize = 0;
        while i < n
            invariant
                i <= n,
                config.enabled_layouts@.len() > 0,
                workspaces@.len() == i,
                forall|j: int|
                    0 <= j < i ==> (#[trigger] workspaces@[j]).inv() && workspaces@[j].windows@.len()
                        == 0 && workspaces@[j].tree.root is None,
            decreases n - i,
        {
            workspaces.push(Layouts::new(config));
            i += 1;
        }
        Workspaces { workspaces, focus_workspace: 0 }
    }

    /// Switches to workspace `tag`: every window of the current workspace
    /// is unmapped, every window of the new one mapped, the current-desktop
    /// property is replaced, and focus moves to the new workspace's focused
    /// window — or to the root window when it is empty.
    pub fn go_to_tag(&mut self, tag: usize, session: &Session) -> (reqs: Vec<XRequest>)
        requires
            old(self).inv(),
            tag < old(self).workspaces@.len(),
        ensures
            final(self).inv(),
            final(self).workspaces == old(self).workspaces,
            final(self).focus_workspace == tag,
            *final(self) == switched(*old(self), tag),
            reqs@ == unmap_seq(
                ids_of(old(self).workspaces@[old(self).focus_workspace as int].windows@),
            ) + map_seq(ids_of(old(self).workspaces@[tag as int].windows@)) + seq![
                XRequest::SetCurrentDesktop { index: tag as u32 },
                XRequest::SetInputFocus {
                    window: focus_target(old(self).workspaces@[tag as int], session.root),
                },
            ],
    {
        let mut reqs: Vec<XRequest> = Vec::new();
        let cur = self.focus_workspace;
        let n_cur = self.workspaces[cur].windows.len();
        let ghost old_ids = ids_of(self.workspaces@[cur as int].windows@);
        let mut i: usize = 0;
        while i < n_cur
            invariant
                i <= n_cur,
                *self == *old(self),
                cur == old(self).focus_workspace,
                cur < self.workspaces@.len(),
                n_cur == self.workspaces@[cur as int].windows@.len(),
                old_ids == ids_of(self.workspaces@[cur as int].windows@),
                reqs@.len() == i,
                forall|j: int|
                    0 <= j < i ==> reqs@[j] == (XRequest::UnmapWindow { window: old_ids[j] }),
            decreases n_cur - i,
        {
            let w = self.workspaces[cur].windows[i].win;
            reqs.push(XRequest::UnmapWindow { window: w });
            i += 1;
        }
        self.focus_workspace = tag;
        let n_new = self.workspaces[tag].windows.len();
        let ghost new_ids = ids_of(self.workspaces@[tag as int].windows@);
        let mut i: usize = 0;
        while i < n_new
            invariant
                i <= n_new,
                self.workspaces == old(self).workspaces,
                self.focus_workspace == tag,
                tag < self.workspaces@.len(),
                n_new == self.workspaces@[tag as int].windows@.len(),
                new_ids == ids_of(self.workspaces@[tag as int].windows@),
                old_ids == ids_of(self.workspaces@[old(self).focus_workspace as int].windows@),
                reqs@.len() == old_ids.len() + i,
                forall|j: int|
                    0 <= j < old_ids.len() ==> reqs@[j] == (XRequest::UnmapWindow {
                        window: old_ids[j],
                    }),
                forall|j: int|
                    0 <= j < i ==> reqs@[old_ids.len() + j] == (XRequest::MapWindow {
                        window: new_ids[j],
                    }),
            decreases n_new - i,
        {
            let w = self.workspaces[tag].windows[i].win;
            reqs.push(XRequest::MapWindow { window: w });
            i += 1;
        }
        reqs.push(XRequest::SetCurrentDesktop { index: tag as u32 });
        let target = &self.workspaces[tag];
        if target.windows.len() == 0 {
            reqs.push(XRequest::SetInputFocus { window: session.root });
        } else {
            reqs.push(
                XRequest::SetInputFocus { window: target.windows[target.focus_win].win },
            );
        }
        proof {
            assert(reqs@ =~= unmap_seq(old_ids) + map_seq(new_ids) + seq![
                XRequest::SetCurrentDesktop { index: tag as u32 },
                XRequest::SetInputFocus {
                    window: focus_target(old(self).workspaces@[tag as int], session.root),
                },
            ]);
        }
        reqs
    }

    /// The currently visible workspace's layout engine.
    pub fn get_current_layout(&self) -> (l: &Layouts)
        requires
            self.inv(),
        ensures
            *l == self.workspaces@[self.focus_workspace as int],
    {
        &self.workspaces[self.focus_workspace]
    }
}

/// The manager invariant survives replacing the active workspace by a
/// well-formed engine that manages no window the old one did not.
pub proof fn lemma_replace_active(w0: Workspaces, w1: Workspaces, act2: Layouts, fw: int)
    requires
        w0.inv(),
        0 <= fw < w0.workspaces@.len(),
        w1.workspaces@ == w0.workspaces@.update(fw, act2),
        w1.focus_workspace == w0.focus_workspace,
        act2.inv(),
        forall|id: u32| #[trigger] act2.has_window(id) ==> w0.workspaces@[fw].has_window(id),
    ensures
        w1.inv(),
{
    assert forall|i: int, j: int, id: u32|
        0 <= i < j < w1.workspaces@.len() implies !((#[trigger] w1.workspaces@[i].has_window(id))
        && (#[trigger] w1.workspaces@[j].has_window(id))) by {
        if w1.workspaces@[i].has_window(id) && w1.workspaces@[j].has_window(id) {
            if i == fw {
                assert(w0.workspaces@[fw].has_window(id));
                assert(w0.workspaces@[j].has_window(id));
            } else if j == fw {
                assert(w0.workspaces@[fw].has_window(id));
                assert(w0.workspaces@[i].has_window(id));
            } else {
                assert(w0.workspaces@[i].has_window(id));
                assert(w0.workspaces@[j].has_window(id));
            }
        }
    }
}

/// Switching away and back is idempotent: after `go_to_tag(k)`, a
/// `go_to_tag(j)` followed by `go_to_tag(k)` restores the manager state
/// exactly, so the set of mapped windows and their recorded geometries
/// equal the snapshot taken after the first switch.
pub proof fn lemma_go_to_tag_round_trip(w: Workspaces, k: usize, j: usize)
    ensures
        switched(switched(switched(w, k), j), k) == switched(w, k),
        mapped_ids(switched(switched(switched(w, k), j), k)) == mapped_ids(switched(w, k)),
        switched(switched(switched(w, k), j), k).workspaces@ == w.workspaces@,
{
}

/// Every managed window belongs to exactly one workspace: some workspace
/// manages it, and any two workspace positions managing it coincide.
pub proof fn lemma_window_in_one_workspace(w: Workspaces, id: u32)
    requires
        w.inv(),
        w.manages(id),
    ensures
        exists|i: int| 0 <= i < w.workspaces@.len() && #[trigger] w.workspaces@[i].has_window(id),
        forall|i: int, j: int|
            0 <= i < w.workspaces@.len() && 0 <= j < w.workspaces@.len() && #[trigger] w.workspaces@[i].has_window(
                id,
            ) && #[trigger] w.workspaces@[j].has_window(id) ==> i == j,
{
    assert forall|i: int, j: int|
        0 <= i < w.workspaces@.len() && 0 <= j < w.workspaces@.len() && #[trigger] w.workspaces@[i].has_window(
            id,
        ) && #[trigger] w.workspaces@[j].has_window(id) implies i == j by {
        if i < j {
            assert(!(w.workspaces@[i].has_window(id) && w.workspaces@[j].has_window(id)));
        } else if j < i {
            assert(!(w.workspaces@[j].has_window(id) && w.workspaces@[i].has_window(id)));
        }
    }
}

} // verus!
