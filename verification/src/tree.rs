//! The manual-mode binary-split tree.
//!
//! Each workspace in manual mode partitions the screen by a binary tree:
//! a leaf holds one managed window together with the frame rectangle it was
//! assigned, and an inner node splits its region between two children,
//! vertically (side by side) or horizontally (stacked). Inserting a window
//! splits the focused leaf in half; removing a leaf promotes its sibling
//! into the parent's place.

use vstd::prelude::*;

use crate::x::Window;

verus! {

/// Largest coordinate value a frame may reach: the X11 protocol carries
/// coordinates as 16-bit signed integers, and frames keep `x + width` and
/// `y + height` at or below this bound.
pub const MAX_DIM: i32 = 0x7fff;

/// A node of the split tree: a leaf owning one window and its frame, or a
/// split with two children.
#[derive(Debug)]
pub enum Node {
    Leaf { window: Window },
    Split { vertical: bool, left: Box<Node>, right: Box<Node> },
}

/// The leaves of a subtree, leftmost first.
pub open spec fn leaves(n: Node) -> Seq<Window>
    decreases n,
{
    match n {
        Node::Leaf { window } => seq![window],
        Node::Split { left, right, .. } => leaves(*left) + leaves(*right),
    }
}

/// Whether some leaf of the subtree holds the window `id`.
pub open spec fn contains_id(n: Node, id: u32) -> bool
    decreases n,
{
    match n {
        Node::Leaf { window } => window.win == id,
        Node::Split { left, right, .. } => contains_id(*left, id) || contains_id(*right, id),
    }
}

/// No window identifier appears in two different leaves.
pub open spec fn distinct_ids(n: Node) -> bool
    decreases n,
{
    match n {
        Node::Leaf { .. } => true,
        Node::Split { left, right, .. } => distinct_ids(*left) && distinct_ids(*right) && (forall|
            id: u32,
        | !(#[trigger] contains_id(*left, id) && #[trigger] contains_id(*right, id))),
    }
}

/// A frame that lies in the first quadrant and within coordinate range.
pub open spec fn frame_ok(w: Window) -> bool {
    &&& 0 <= w.x
    &&& 0 <= w.y
    &&& 0 <= w.width
    &&& 0 <= w.height
    &&& w.x + w.width <= MAX_DIM
    &&& w.y + w.height <= MAX_DIM
}

/// Every leaf frame of the subtree is within range.
pub open spec fn frames_ok(n: Node) -> bool
    decreases n,
{
    match n {
        Node::Leaf { window } => frame_ok(window),
        Node::Split { left, right, .. } => frames_ok(*left) && frames_ok(*right),
    }
}

/// The position of the leaf holding `id` in the leaf sequence.
pub open spec fn leaf_index(n: Node, id: u32) -> int
    decreases n,
{
    match n {
        Node::Leaf { .. } => 0,
        Node::Split { left, right, .. } => if contains_id(*left, id) {
            leaf_index(*left, id)
        } else {
            leaves(*left).len() + leaf_index(*right, id)
        },
    }
}

/// A subtree always has at least one leaf.
pub proof fn lemma_leaves_nonempty(n: Node)
    ensures
        leaves(n).len() >= 1,
    decreases n,
{
    match n {
        Node::Leaf { .. } => {},
        Node::Split { left, right, .. } => {
            lemma_leaves_nonempty(*left);
            lemma_leaves_nonempty(*right);
        },
    }
}

/// If the subtree holds `id`, then `leaf_index` locates its leaf.
pub proof fn lemma_contains_index(n: Node, id: u32)
    requires
        contains_id(n, id),
    ensures
        0 <= leaf_index(n, id) < leaves(n).len(),
        leaves(n)[leaf_index(n, id)].win == id,
    decreases n,
{
    match n {
        Node::Leaf { .. } => {},
        Node::Split { left, right, .. } => {
            if contains_id(*left, id) {
                lemma_contains_index(*left, id);
            } else {
                lemma_contains_index(*right, id);
                lemma_leaves_nonempty(*left);
            }
        },
    }
}

/// Conversely, every leaf's window identifier is contained in the subtree.
pub proof fn lemma_index_contains(n: Node, i: int)
    requires
        0 <= i < leaves(n).len(),
    ensures
        contains_id(n, leaves(n)[i].win),
    decreases n,
{
    match n {
        Node::Leaf { .. } => {},
        Node::Split { left, right, .. } => {
            if i < leaves(*left).len() {
                lemma_index_contains(*left, i);
            } else {
                lemma_index_contains(*right, i - leaves(*left).len());
            }
        },
    }
}

/// In a subtree with distinct identifiers, a window identifier determines
/// its leaf position.
pub proof fn lemma_distinct_unique(n: Node, i: int, j: int)
    requires
        distinct_ids(n),
        0 <= i < leaves(n).len(),
        0 <= j < leaves(n).len(),
        leaves(n)[i].win == leaves(n)[j].win,
    ensures
        i == j,
    decreases n,
{
    match n {
        Node::Leaf { .. } => {},
        Node::Split { left, right, .. } => {
            let ll = leaves(*left).len() as int;
            if i < ll && j < ll {
                lemma_distinct_unique(*left, i, j);
            } else if i >= ll && j >= ll {
                lemma_distinct_unique(*right, i - ll, j - ll);
            } else if i < ll && j >= ll {
                lemma_index_contains(*left, i);
                lemma_index_contains(*right, j - ll);
            } else {
                lemma_index_contains(*left, j);
                lemma_index_contains(*right, i - ll);
            }
        },
    }
}

/// Bridges the recursive containment predicate and the leaf sequence, in
/// both directions and for every identifier at once.
pub proof fn lemma_contains_iff_index(n: Node)
    ensures
        forall|x: u32| #[trigger]
            contains_id(n, x) ==> exists|i: int|
                0 <= i < leaves(n).len() && leaves(n)[i].win == x,
        forall|i: int|
            0 <= i < leaves(n).len() ==> #[trigger] contains_id(n, leaves(n)[i].win),
{
    assert forall|x: u32| #[trigger] contains_id(n, x) implies exists|i: int|
        0 <= i < leaves(n).len() && leaves(n)[i].win == x by {
        lemma_contains_index(n, x);
        assert(0 <= leaf_index(n, x) < leaves(n).len() && leaves(n)[leaf_index(n, x)].win == x);
    }
    assert forall|i: int| 0 <= i < leaves(n).len() implies #[trigger] contains_id(
        n,
        leaves(n)[i].win,
    ) by {
        lemma_index_contains(n, i);
    }
}

/// Definitional facts about a leaf node, recorded for proofs whose nesting
/// exceeds the solver's automatic unfolding of the recursive functions.
pub proof fn lemma_leaf_facts(n: Node)
    requires
        n is Leaf,
    ensures
        leaves(n) == seq![n->Leaf_window],
        distinct_ids(n),
        frames_ok(n) == frame_ok(n->Leaf_window),
        forall|id: u32| #[trigger] contains_id(n, id) == (n->Leaf_window.win == id),
        forall|id: u32| #[trigger] leaf_index(n, id) == 0,
{
    assert(leaves(n) =~= seq![n->Leaf_window]);
}

/// Definitional facts about a split node, recorded for the same reason.
pub proof fn lemma_split_facts(n: Node)
    requires
        n is Split,
    ensures
        leaves(n) == leaves(*n->Split_left) + leaves(*n->Split_right),
        forall|id: u32| #[trigger]
            contains_id(n, id) == (contains_id(*n->Split_left, id) || contains_id(
                *n->Split_right,
                id,
            )),
        distinct_ids(n) == (distinct_ids(*n->Split_left) && distinct_ids(*n->Split_right) && (
        forall|id: u32|
            !(#[trigger] contains_id(*n->Split_left, id) && #[trigger] contains_id(
                *n->Split_right,
                id,
            )))),
        frames_ok(n) == (frames_ok(*n->Split_left) && frames_ok(*n->Split_right)),
        forall|id: u32|
            contains_id(*n->Split_left, id) ==> #[trigger] leaf_index(n, id) == leaf_index(
                *n->Split_left,
                id,
            ),
        forall|id: u32|
            !contains_id(*n->Split_left, id) ==> #[trigger] leaf_index(n, id) == leaves(
                *n->Split_left,
            ).len() + leaf_index(*n->Split_right, id),
{
}

/// Every leaf frame of a subtree with `frames_ok` is itself within range.
pub proof fn lemma_frames_ok_leaves(n: Node)
    requires
        frames_ok(n),
    ensures
        forall|i: int| 0 <= i < leaves(n).len() ==> #[trigger] frame_ok(leaves(n)[i]),
    decreases n,
{
    match n {
        Node::Leaf { .. } => {},
        Node::Split { left, right, .. } => {
            lemma_frames_ok_leaves(*left);
            lemma_frames_ok_leaves(*right);
            assert forall|i: int| 0 <= i < leaves(n).len() implies #[trigger] frame_ok(
                leaves(n)[i],
            ) by {
                if i < leaves(*left).len() {
                    assert(leaves(n)[i] == leaves(*left)[i]);
                } else {
                    assert(leaves(n)[i] == leaves(*right)[i - leaves(*left).len()]);
                }
            }
        },
    }
}

/// The frame kept by the old window when its leaf is split: the left half
/// of a vertical split, the top half of a horizontal one.
pub open spec fn split_first(w: Window, vertical: bool) -> Window {
    if vertical {
        Window { width: (w.width / 2) as i32, ..w }
    } else {
        Window { height: (w.height / 2) as i32, ..w }
    }
}

/// The frame given to the inserted window: the right half of a vertical
/// split, the bottom half of a horizontal one.
pub open spec fn split_second(w: Window, new_id: u32, vertical: bool) -> Window {
    if vertical {
        Window { win: new_id, x: (w.x + w.width / 2) as i32, width: (w.width / 2) as i32, ..w }
    } else {
        Window { win: new_id, y: (w.y + w.height / 2) as i32, height: (w.height / 2) as i32, ..w }
    }
}

/// The focused leaf grown by doubling its primary dimension, saturated so
/// the frame stays within coordinate range.
pub open spec fn grown_leaf(w: Window, primary_width: bool) -> Window {
    if primary_width {
        Window {
            width: (if w.width <= (MAX_DIM - w.x) / 2 {
                2 * w.width
            } else {
                MAX_DIM - w.x
            }) as i32,
            ..w
        }
    } else {
        Window {
            height: (if w.height <= (MAX_DIM - w.y) / 2 {
                2 * w.height
            } else {
                MAX_DIM - w.y
            }) as i32,
            ..w
        }
    }
}

/// Whether the primary dimension of the leaf holding `id` is its width:
/// true when its parent split is vertical, or when the leaf is the root.
pub open spec fn primary_is_width(n: Node, id: u32, top: bool) -> bool
    decreases n,
{
    match n {
        Node::Leaf { .. } => top,
        Node::Split { vertical, left, right } => if contains_id(*left, id) {
            primary_is_width(*left, id, vertical)
        } else {
            primary_is_width(*right, id, vertical)
        },
    }
}

/// The subtree left when the leaf holding `id` is removed: the sibling of
/// the removed leaf takes its parent's place; nothing is left when the
/// subtree was that single leaf.
pub open spec fn remove_leaf(n: Node, id: u32) -> Option<Node>
    decreases n,
{
    match n {
        Node::Leaf { .. } => None,
        Node::Split { vertical, left, right } => if contains_id(*left, id) {
            match remove_leaf(*left, id) {
                None => Some(*right),
                Some(l2) => Some(
                    Node::Split { vertical, left: Box::new(l2), right },
                ),
            }
        } else {
            match remove_leaf(*right, id) {
                None => Some(*left),
                Some(r2) => Some(
                    Node::Split { vertical, left, right: Box::new(r2) },
                ),
            }
        },
    }
}

/// The window that receives focus after the leaf holding `id` is removed:
/// the leftmost leaf of the promoted sibling.
pub open spec fn focus_after_remove(n: Node, id: u32) -> u32
    decreases n,
{
    match n {
        Node::Leaf { .. } => id,
        Node::Split { left, right, .. } => if contains_id(*left, id) {
            if leaves(*left).len() == 1 {
                leaves(*right)[0].win
            } else {
                focus_after_remove(*left, id)
            }
        } else {
            if leaves(*right).len() == 1 {
                leaves(*left)[0].win
            } else {
                focus_after_remove(*right, id)
            }
        },
    }
}

/// Returns the leaf of the subtree that holds `id`.
fn find_leaf(n: &Node, id: u32) -> (w: Window)
    requires
        contains_id(*n, id),
    ensures
        w == leaves(*n)[leaf_index(*n, id)],
        w.win == id,
    decreases *n,
{
    proof {
        lemma_contains_index(*n, id);
    }
    match n {
        Node::Leaf { window } => *window,
        Node::Split { left, right, .. } => {
            if node_has(left, id) {
                proof {
                    lemma_contains_index(**left, id);
                }
                find_leaf(left, id)
            } else {
                proof {
                    lemma_contains_index(**right, id);
                    lemma_leaves_nonempty(**left);
                }
                find_leaf(right, id)
            }
        },
    }
}

/// Whether some leaf of the subtree holds `id` (executable form).
pub(crate) fn node_has(n: &Node, id: u32) -> (r: bool)
    ensures
        r == contains_id(*n, id),
    decreases *n,
{
    match n {
        Node::Leaf { window } => window.win == id,
        Node::Split { left, right, .. } => node_has(left, id) || node_has(right, id),
    }
}

/// Replaces the leaf holding `fid` by a split whose children keep the old
/// window in the first half of the frame and put `new_id` in the second.
fn insert_split_node(n: Node, fid: u32, new_id: u32, vertical: bool) -> (r: Node)
    requires
        distinct_ids(n),
        frames_ok(n),
        contains_id(n, fid),
        !contains_id(n, new_id),
    ensures
        ({
            let k = leaf_index(n, fid);
            let old = leaves(n)[k];
            leaves(r) == leaves(n).subrange(0, k) + seq![
                split_first(old, vertical),
                split_second(old, new_id, vertical),
            ] + leaves(n).subrange(k + 1, leaves(n).len() as int)
        }),
        forall|id: u32| #[trigger]
            contains_id(r, id) <==> (contains_id(n, id) || id == new_id),
        distinct_ids(r),
        frames_ok(r),
    decreases n,
{
    let ghost orig_n = n;
    proof {
        lemma_contains_index(n, fid);
    }
    match n {
        Node::Leaf { window } => {
            let first = if vertical {
                Window { width: window.width / 2, ..window }
            } else {
                Window { height: window.height / 2, ..window }
            };
            let second = if vertical {
                Window { win: new_id, x: window.x + window.width / 2, width: window.width / 2, ..window }
            } else {
                Window { win: new_id, y: window.y + window.height / 2, height: window.height / 2, ..window }
            };
            let r = Node::Split {
                vertical,
                left: Box::new(Node::Leaf { window: first }),
                right: Box::new(Node::Leaf { window: second }),
            };
            proof {
                lemma_leaf_facts(orig_n);
                lemma_split_facts(r);
                lemma_leaf_facts(*r->Split_left);
                lemma_leaf_facts(*r->Split_right);
                assert(leaves(r) =~= leaves(orig_n).subrange(0, 0) + seq![
                    split_first(window, vertical),
                    split_second(window, new_id, vertical),
                ] + leaves(orig_n).subrange(1, 1));
            }
            r
        },
        Node::Split { vertical: v, left, right } => {
            let ghost orig_left = *left;
            let ghost orig_right = *right;
            if node_has(&left, fid) {
                let new_left = insert_split_node(*left, fid, new_id, vertical);
                let r = Node::Split { vertical: v, left: Box::new(new_left), right };
                proof {
                    lemma_split_facts(orig_n);
                    lemma_split_facts(r);
                    lemma_contains_index(orig_left, fid);
                    let k = leaf_index(orig_left, fid);
                    let old = leaves(orig_left)[k];
                    let whole = leaves(orig_left) + leaves(orig_right);
                    assert(leaves(r) =~= whole.subrange(0, k) + seq![
                        split_first(old, vertical),
                        split_second(old, new_id, vertical),
                    ] + whole.subrange(k + 1, whole.len() as int));
                }
                r
            } else {
                let new_right = insert_split_node(*right, fid, new_id, vertical);
                let r = Node::Split { vertical: v, left, right: Box::new(new_right) };
                proof {
                    lemma_split_facts(orig_n);
                    lemma_split_facts(r);
                    lemma_contains_index(orig_right, fid);
                    let k = leaf_index(orig_right, fid);
                    let old = leaves(orig_right)[k];
                    let whole = leaves(orig_left) + leaves(orig_right);
                    assert(leaves(r) =~= whole.subrange(0, leaves(orig_left).len() as int + k)
                        + seq![
                        split_first(old, vertical),
                        split_second(old, new_id, vertical),
                    ] + whole.subrange(
                        leaves(orig_left).len() as int + k + 1,
                        whole.len() as int,
                    ));
                }
                r
            }
        },
    }
}

/// The leftmost leaf of a subtree.
fn leftmost_leaf(n: &Node) -> (w: Window)
    ensures
        w == leaves(*n)[0],
    decreases *n,
{
    match n {
        Node::Leaf { window } => *window,
        Node::Split { left, .. } => {
            proof {
                lemma_leaves_nonempty(**left);
            }
            leftmost_leaf(left)
        },
    }
}

/// Removes the leaf holding `id`; the sibling of the removed leaf takes its
/// parent's place. Returns the remaining subtree (or nothing if the subtree
/// was that single leaf) and the window that should receive focus: the
/// leftmost leaf of the promoted sibling.
fn remove_node(n: Node, id: u32) -> (r: (Option<Node>, u32))
    requires
        distinct_ids(n),
        frames_ok(n),
        contains_id(n, id),
    ensures
        r.0 == remove_leaf(n, id),
        r.0 is None <==> leaves(n).len() == 1,
        leaves(n).len() > 1 ==> r.1 == focus_after_remove(n, id) && contains_id(
            r.0->Some_0,
            r.1,
        ),
        r.0 is Some ==> ({
            let m = r.0->Some_0;
            &&& leaves(m) == leaves(n).remove(leaf_index(n, id))
            &&& distinct_ids(m)
            &&& frames_ok(m)
            &&& (forall|x: u32| #[trigger]
                contains_id(m, x) <==> (contains_id(n, x) && x != id))
        }),
    decreases n,
{
    let ghost orig_n = n;
    proof {
        lemma_contains_index(n, id);
    }
    match n {
        Node::Leaf { .. } => (None, id),
        Node::Split { vertical: v, left, right } => {
            let ghost orig_left = *left;
            let ghost orig_right = *right;
            if node_has(&left, id) {
                let rec = remove_node(*left, id);
                match rec {
                    (None, _) => {
                        let focus = leftmost_leaf(&right).get_window();
                        proof {
                            lemma_split_facts(orig_n);
                            lemma_leaves_nonempty(orig_right);
                            lemma_contains_index(orig_left, id);
                            lemma_contains_iff_index(orig_left);
                            assert(leaves(orig_right) =~= (leaves(orig_left) + leaves(
                                orig_right,
                            )).remove(0));
                            lemma_index_contains(orig_right, 0);
                        }
                        (Some(*right), focus)
                    },
                    (Some(new_left), focus) => {
                        let r = Node::Split { vertical: v, left: Box::new(new_left), right };
                        proof {
                            lemma_split_facts(orig_n);
                            lemma_split_facts(r);
                            lemma_contains_index(orig_left, id);
                            let k = leaf_index(orig_left, id);
                            let whole = leaves(orig_left) + leaves(orig_right);
                            lemma_leaves_nonempty(orig_left);
                            assert(leaves(r) =~= whole.remove(k));
                        }
                        (Some(r), focus)
                    },
                }
            } else {
                let rec = remove_node(*right, id);
                match rec {
                    (None, _) => {
                        let focus = leftmost_leaf(&left).get_window();
                        proof {
                            lemma_split_facts(orig_n);
                            lemma_leaves_nonempty(orig_left);
                            lemma_contains_index(orig_right, id);
                            lemma_contains_iff_index(orig_right);
                            let whole = leaves(orig_left) + leaves(orig_right);
                            assert(leaves(orig_left) =~= whole.remove(
                                leaves(orig_left).len() as int,
                            ));
                            lemma_index_contains(orig_left, 0);
                        }
                        (Some(*left), focus)
                    },
                    (Some(new_right), focus) => {
                        let r = Node::Split { vertical: v, left, right: Box::new(new_right) };
                        proof {
                            lemma_split_facts(orig_n);
                            lemma_split_facts(r);
                            lemma_contains_index(orig_right, id);
                            let k = leaf_index(orig_right, id);
                            let whole = leaves(orig_left) + leaves(orig_right);
                            lemma_leaves_nonempty(orig_right);
                            assert(leaves(r) =~= whole.remove(leaves(orig_left).len() as int + k));
                        }
                        (Some(r), focus)
                    },
                }
            }
        },
    }
}

/// Doubles the primary dimension of the leaf holding `id`. `primary_width`
/// tells whether the enclosing split (or the root position) makes the
/// primary dimension the width.
fn resize_node(n: Node, id: u32, primary_width: bool) -> (r: (Node, Window))
    requires
        distinct_ids(n),
        frames_ok(n),
        contains_id(n, id),
    ensures
        ({
            let k = leaf_index(n, id);
            let grown = grown_leaf(leaves(n)[k], primary_is_width(n, id, primary_width));
            &&& leaves(r.0) == leaves(n).update(k, grown)
            &&& r.1 == grown
            &&& distinct_ids(r.0)
            &&& frames_ok(r.0)
            &&& (forall|x: u32| #[trigger] contains_id(r.0, x) <==> contains_id(n, x))
        }),
    decreases n,
{
    let ghost orig_n = n;
    proof {
        lemma_contains_index(n, id);
    }
    match n {
        Node::Leaf { window } => {
            let grown = if primary_width {
                let cap = MAX_DIM - window.x;
                let w = if window.width <= cap / 2 {
                    window.width * 2
                } else {
                    cap
                };
                Window { width: w, ..window }
            } else {
                let cap = MAX_DIM - window.y;
                let h = if window.height <= cap / 2 {
                    window.height * 2
                } else {
                    cap
                };
                Window { height: h, ..window }
            };
            let r = Node::Leaf { window: grown };
            proof {
                lemma_leaf_facts(orig_n);
                lemma_leaf_facts(r);
                assert(leaves(r) =~= leaves(orig_n).update(0, grown));
            }
            (r, grown)
        },
        Node::Split { vertical: v, left, right } => {
            let ghost orig_left = *left;
            let ghost orig_right = *right;
            if node_has(&left, id) {
                let (new_left, grown) = resize_node(*left, id, v);
                let r = Node::Split { vertical: v, left: Box::new(new_left), right };
                proof {
                    lemma_split_facts(orig_n);
                    lemma_split_facts(r);
                    lemma_contains_index(orig_left, id);
                    let k = leaf_index(orig_left, id);
                    let whole = leaves(orig_left) + leaves(orig_right);
                    assert(leaves(r) =~= whole.update(k, grown));
                }
                (r, grown)
            } else {
                let (new_right, grown) = resize_node(*right, id, v);
                let r = Node::Split { vertical: v, left, right: Box::new(new_right) };
                proof {
                    lemma_split_facts(orig_n);
                    lemma_split_facts(r);
                    lemma_contains_index(orig_right, id);
                    let k = leaf_index(orig_right, id);
                    let whole = leaves(orig_left) + leaves(orig_right);
                    assert(leaves(r) =~= whole.update(leaves(orig_left).len() as int + k, grown));
                }
                (r, grown)
            }
        },
    }
}

/// The per-workspace split tree: the root of the partition (absent while no
/// window is managed in manual mode) and the identifier of the focused leaf.
#[derive(Debug)]
pub struct Tree {
    pub root: Option<Node>,
    pub focused: u32,
}

impl Tree {
    /// The leaf sequence of the whole tree, leftmost first.
    pub open spec fn leaf_seq(self) -> Seq<Window> {
        match self.root {
            None => Seq::empty(),
            Some(n) => leaves(n),
        }
    }

    /// Whether some leaf holds the window `id`.
    pub open spec fn has_id(self, id: u32) -> bool {
        match self.root {
            None => false,
            Some(n) => contains_id(n, id),
        }
    }

    /// Well-formedness: leaf identifiers are distinct, frames are within
    /// range, and the focused identifier names one of the leaves — so, as
    /// long as the tree is non-empty, exactly one leaf is the focused one.
    pub open spec fn wf(self) -> bool {
        match self.root {
            None => true,
            Some(n) => distinct_ids(n) && frames_ok(n) && contains_id(n, self.focused),
        }
    }

    /// An empty tree.
    pub fn new() -> (t: Tree)
        ensures
            t.root is None,
            t.focused == 0,
            t.wf(),
    {
        Tree { root: None, focused: 0 }
    }

    /// Whether the tree manages no window.
    pub fn is_empty(&self) -> (r: bool)
        ensures
            r == (self.root is None),
    {
        match self.root {
            None => true,
            Some(_) => false,
        }
    }

    /// Plants the first leaf, covering the frame of `w`; it becomes focused.
    pub fn insert_root(&mut self, w: Window)
        requires
            old(self).root is None,
            frame_ok(w),
        ensures
            final(self).leaf_seq() == seq![w],
            final(self).focused == w.win,
            final(self).root is Some,
            final(self).wf(),
            forall|id: u32| #[trigger] final(self).has_id(id) <==> id == w.win,
    {
        self.root = Some(Node::Leaf { window: w });
        self.focused = w.win;
        proof {
            assert(final(self).leaf_seq() =~= seq![w]);
        }
    }

    /// The frame of the leaf holding `id`.
    pub fn frame_of(&self, id: u32) -> (w: Window)
        requires
            self.wf(),
            self.has_id(id),
        ensures
            w == self.leaf_seq()[leaf_index(self.root->Some_0, id)],
            w.win == id,
    {
        match &self.root {
            Some(n) => find_leaf(n, id),
            None => Window::new(0, 0, 0, 0, 0),
        }
    }

    /// Looks a window up in the tree: its leaf frame, if a leaf holds it.
    pub fn search_win(&self, win: u32) -> (r: Option<Window>)
        requires
            self.wf(),
        ensures
            match r {
                Some(w) => self.has_id(win) && w == self.leaf_seq()[leaf_index(
                    self.root->Some_0,
                    win,
                )] && w.win == win,
                None => !self.has_id(win),
            },
    {
        match &self.root {
            None => None,
            Some(n) => {
                if node_has(n, win) {
                    Some(find_leaf(n, win))
                } else {
                    None
                }
            },
        }
    }

    /// The frame of the focused leaf.
    pub fn focused_frame(&self) -> (w: Window)
        requires
            self.root is Some,
            self.wf(),
        ensures
            w == self.leaf_seq()[leaf_index(self.root->Some_0, self.focused)],
            w.win == self.focused,
    {
        self.frame_of(self.focused)
    }

    /// Splits the focused leaf in half and puts `new_id` in the second half;
    /// the new leaf becomes focused.
    pub fn insert_split(&mut self, new_id: u32, vertical: bool)
        requires
            old(self).root is Some,
            old(self).wf(),
            !old(self).has_id(new_id),
        ensures
            ({
                let n = old(self).root->Some_0;
                let k = leaf_index(n, old(self).focused);
                let old_leaf = leaves(n)[k];
                final(self).leaf_seq() == leaves(n).subrange(0, k) + seq![
                    split_first(old_leaf, vertical),
                    split_second(old_leaf, new_id, vertical),
                ] + leaves(n).subrange(k + 1, leaves(n).len() as int)
            }),
            final(self).focused == new_id,
            final(self).root is Some,
            final(self).wf(),
            forall|id: u32| #[trigger]
                final(self).has_id(id) <==> (old(self).has_id(id) || id == new_id),
    {
        let n = self.root.take();
        match n {
            Some(node) => {
                let new_node = insert_split_node(node, self.focused, new_id, vertical);
                self.root = Some(new_node);
                self.focused = new_id;
            },
            None => {},
        }
    }

    /// Removes the leaf holding `id`, promoting its sibling. When the
    /// focused leaf is removed, focus moves to the leftmost leaf of the
    /// promoted sibling.
    pub fn remove(&mut self, id: u32)
        requires
            old(self).wf(),
            old(self).has_id(id),
        ensures
            ({
                let n = old(self).root->Some_0;
                &&& final(self).root == remove_leaf(n, id)
                &&& final(self).leaf_seq() == leaves(n).remove(leaf_index(n, id))
                &&& (leaves(n).len() == 1 ==> final(self).root is None)
                &&& (leaves(n).len() > 1 ==> final(self).root is Some)
                &&& (leaves(n).len() > 1 && old(self).focused == id ==> final(self).focused
                    == focus_after_remove(n, id))
                &&& (old(self).focused != id ==> final(self).focused == old(self).focused)
                &&& final(self).wf()
                &&& (forall|x: u32| #[trigger]
                    final(self).has_id(x) <==> (old(self).has_id(x) && x != id))
            }),
    {
        let n = self.root.take();
        match n {
            Some(node) => {
                let ghost orig = node;
                let (removed, new_focus) = remove_node(node, id);
                match removed {
                    None => {
                        self.root = None;
                        self.focused = 0;
                        proof {
                            lemma_contains_index(orig, id);
                            lemma_contains_index(orig, old(self).focused);
                            lemma_contains_iff_index(orig);
                            assert(final(self).leaf_seq() =~= leaves(orig).remove(
                                leaf_index(orig, id),
                            ));
                        }
                    },
                    Some(rest) => {
                        if self.focused == id {
                            self.focused = new_focus;
                        }
                        self.root = Some(rest);
                        proof {
                            lemma_contains_index(orig, id);
                            lemma_leaves_nonempty(orig);
                            assert(final(self).root->Some_0 == rest);
                            assert forall|x: u32|
                                final(self).has_id(x) <==> (old(self).has_id(x) && x
                                    != id) by {
                                assert(final(self).has_id(x) == contains_id(rest, x));
                                assert(old(self).has_id(x) == contains_id(orig, x));
                            }
                        }
                    },
                }
            },
            None => {},
        }
    }

    /// Doubles the primary dimension of the focused leaf and returns its new
    /// frame: the width when the leaf's parent split is vertical or the leaf
    /// is the root, the height otherwise.
    pub fn resize(&mut self) -> (w: Window)
        requires
            old(self).root is Some,
            old(self).wf(),
        ensures
            ({
                let n = old(self).root->Some_0;
                let k = leaf_index(n, old(self).focused);
                let grown = grown_leaf(leaves(n)[k], primary_is_width(n, old(self).focused, true));
                &&& final(self).leaf_seq() == leaves(n).update(k, grown)
                &&& w == grown
                &&& final(self).focused == old(self).focused
                &&& final(self).root is Some
                &&& final(self).wf()
                &&& (forall|x: u32| #[trigger]
                    final(self).has_id(x) <==> old(self).has_id(x))
            }),
    {
        let n = self.root.take();
        match n {
            Some(node) => {
                let (new_node, grown) = resize_node(node, self.focused, true);
                self.root = Some(new_node);
                grown
            },
            None => Window::new(0, 0, 0, 0, 0),
        }
    }
}

/// In a well-formed non-empty split tree, exactly one leaf is the focused
/// one: there is a leaf holding the focused window identifier, and any two
/// leaf positions holding it coincide.
pub proof fn lemma_exactly_one_focused(t: Tree)
    requires
        t.wf(),
        t.root is Some,
    ensures
        exists|k: int|
            0 <= k < t.leaf_seq().len() && #[trigger] t.leaf_seq()[k].win == t.focused,
        forall|i: int, j: int|
            0 <= i < t.leaf_seq().len() && 0 <= j < t.leaf_seq().len() && #[trigger] t.leaf_seq()[i].win
                == t.focused && #[trigger] t.leaf_seq()[j].win == t.focused ==> i == j,
{
    let n = t.root->Some_0;
    lemma_contains_index(n, t.focused);
    assert(t.leaf_seq()[leaf_index(n, t.focused)].win == t.focused);
    assert forall|i: int, j: int|
        0 <= i < t.leaf_seq().len() && 0 <= j < t.leaf_seq().len() && #[trigger] t.leaf_seq()[i].win
            == t.focused && #[trigger] t.leaf_seq()[j].win == t.focused implies i == j by {
        lemma_distinct_unique(n, i, j);
    }
}

} // verus!
