//! The scene graph: a display root over outputs, workspaces, containers,
//! floats and toplevel surfaces, held in an arena. Every mutation preserves
//! the structural invariants: parent and child lists agree, workspaces hang
//! under outputs, and a workspace is visible exactly when it is its output's
//! current workspace.

use vstd::prelude::*;
use crate::config::Axis;

verus! {

/// Stands for "no node": the root is never a child, a current workspace or a
/// focus target, so index zero works as the absent value.
pub const NO_NODE: usize = 0;

/// What a scene node is. `current` of an output is the node index of its
/// current workspace, or `NO_NODE`.
#[derive(Copy, Clone, Debug)]
pub enum NodeKind {
    Display,
    Output { connector: u64, is_dummy: bool, x1: i32, y1: i32, width: i32, height: i32, current: usize },
    Workspace { visible: bool },
    Container { split: Axis },
    Float { x1: i32, y1: i32, width: i32, height: i32 },
    Toplevel,
}

/// One arena slot: the parent index, the ordered children, liveness and the
/// node's kind.
pub struct SceneNode {
    pub parent: usize,
    pub live: bool,
    pub kind: NodeKind,
    pub children: Vec<usize>,
}

/// The scene tree: the display root lives at index zero; freed slots stay in
/// the arena as dead nodes.
pub struct Tree {
    pub nodes: Vec<SceneNode>,
}

/// The kinds a child of the given parent kind may have.
pub open spec fn kind_fits(child: NodeKind, parent: NodeKind) -> bool {
    match child {
        NodeKind::Display => false,
        NodeKind::Output { .. } => parent is Display,
        NodeKind::Workspace { .. } => parent is Output,
        NodeKind::Container { .. } => parent is Workspace || parent is Container,
        NodeKind::Float { .. } => parent is Workspace,
        NodeKind::Toplevel => parent is Container || parent is Float,
    }
}

/// The current workspace recorded in an output kind, `NO_NODE` otherwise.
pub open spec fn kind_current(k: NodeKind) -> usize {
    match k {
        NodeKind::Output { current, .. } => current,
        _ => NO_NODE,
    }
}

/// Whether an output kind is the dummy output.
pub open spec fn kind_is_dummy(k: NodeKind) -> bool {
    match k {
        NodeKind::Output { is_dummy, .. } => is_dummy,
        _ => false,
    }
}

/// The visibility bit of a workspace kind.
pub open spec fn kind_visible(k: NodeKind) -> bool {
    match k {
        NodeKind::Workspace { visible } => visible,
        _ => false,
    }
}

impl Tree {
    /// Number of arena slots.
    pub open spec fn n(&self) -> int {
        self.nodes@.len() as int
    }

    pub open spec fn live(&self, i: int) -> bool {
        self.nodes@[i].live
    }

    pub open spec fn parent_of(&self, i: int) -> int {
        self.nodes@[i].parent as int
    }

    pub open spec fn kind_of(&self, i: int) -> NodeKind {
        self.nodes@[i].kind
    }

    pub open spec fn kids(&self, i: int) -> Seq<usize> {
        self.nodes@[i].children@
    }

    /// The root exists, is live, and is the display.
    pub open spec fn wf_root(&self) -> bool {
        &&& self.n() >= 1
        &&& self.live(0)
        &&& self.kind_of(0) is Display
        &&& self.parent_of(0) == 0
    }

    /// Every live non-root node's parent is live, holds it as a child, and
    /// accepts its kind; no other node is a display.
    #[verifier::opaque]
    pub open spec fn wf_parents(&self) -> bool {
        forall|i: int|
            #![trigger self.nodes@[i]]
            1 <= i < self.n() && self.live(i) ==> {
                &&& 0 <= self.parent_of(i) < self.n()
                &&& self.parent_of(i) != i
                &&& self.live(self.parent_of(i))
                &&& self.kids(self.parent_of(i)).contains(i as usize)
                &&& kind_fits(self.kind_of(i), self.kind_of(self.parent_of(i)))
            }
    }

    /// Every child entry names a live non-root node whose parent is the
    /// holder, and no child is listed twice.
    #[verifier::opaque]
    pub open spec fn wf_children(&self) -> bool {
        forall|p: int, j: int|
            #![trigger self.kids(p)[j]]
            0 <= p < self.n() && 0 <= j < self.kids(p).len() ==> {
                &&& 1 <= self.kids(p)[j] < self.n()
                &&& self.live(self.kids(p)[j] as int)
                &&& self.parent_of(self.kids(p)[j] as int) == p
                &&& forall|j2: int|
                    0 <= j2 < self.kids(p).len() && j2 != j ==> self.kids(p)[j2] != self.kids(p)[j]
            }
    }

    /// Dead slots hold no children.
    #[verifier::opaque]
    pub open spec fn wf_dead(&self) -> bool {
        forall|i: int|
            #![trigger self.nodes@[i]]
            0 <= i < self.n() && !self.live(i) ==> self.kids(i).len() == 0
    }

    /// An output's current workspace is a live workspace under that output;
    /// a workspace is visible exactly when it is its parent's current one.
    #[verifier::opaque]
    pub open spec fn wf_workspaces(&self) -> bool {
        &&& forall|i: int|
            #![trigger self.nodes@[i]]
            0 <= i < self.n() && self.live(i) && self.kind_of(i) is Output && kind_current(
                self.kind_of(i),
            ) != NO_NODE ==> {
                let w = kind_current(self.kind_of(i)) as int;
                &&& 0 < w < self.n()
                &&& self.live(w)
                &&& self.kind_of(w) is Workspace
                &&& self.parent_of(w) == i
            }
        &&& forall|w: int|
            #![trigger self.nodes@[w]]
            1 <= w < self.n() && self.live(w) && self.kind_of(w) is Workspace ==> (kind_visible(
                self.kind_of(w),
            ) <==> kind_current(self.kind_of(self.parent_of(w))) == w)
    }

    /// The tree invariant.
    pub open spec fn wf(&self) -> bool {
        &&& self.wf_root()
        &&& self.wf_parents()
        &&& self.wf_children()
        &&& self.wf_dead()
        &&& self.wf_workspaces()
    }

    /// A fresh tree: only the display root.
    pub fn new() -> (r: Self)
        ensures
            r.wf(),
            r.n() == 1,
    {
        let mut nodes: Vec<SceneNode> = Vec::new();
        nodes.push(
            SceneNode { parent: 0, live: true, kind: NodeKind::Display, children: Vec::new() },
        );
        let r = Tree { nodes };
        proof {
            reveal(Tree::wf_parents);
            reveal(Tree::wf_children);
            reveal(Tree::wf_dead);
            reveal(Tree::wf_workspaces);
            assert(r.kids(0).len() == 0);
        }
        r
    }

    /// Creates a live node of the given kind and splices it into the
    /// parent's child list at position `pos`. Workspaces are born invisible,
    /// outputs without a current workspace.
    pub fn new_child_at(&mut self, parent: usize, pos: usize, kind: NodeKind) -> (idx: usize)
        requires
            old(self).wf(),
            0 <= parent < old(self).n(),
            old(self).live(parent as int),
            pos <= old(self).kids(parent as int).len(),
            kind_fits(kind, old(self).kind_of(parent as int)),
            !kind_visible(kind),
            kind_current(kind) == NO_NODE,
            old(self).n() < usize::MAX,
        ensures
            final(self).wf(),
            idx as int == old(self).n(),
            final(self).n() == old(self).n() + 1,
            final(self).live(idx as int),
            final(self).kind_of(idx as int) == kind,
            final(self).parent_of(idx as int) == parent as int,
            final(self).kids(idx as int).len() == 0,
            final(self).kids(parent as int) == old(self).kids(parent as int).insert(
                pos as int,
                idx,
            ),
            forall|i: int|
                #![trigger old(self).nodes@[i]]
                0 <= i < old(self).n() && i != parent ==> final(self).nodes@[i] == old(self).nodes@[i],
            forall|i: int|
                0 <= i < old(self).n() ==> final(self).live(i) == old(self).live(i) && final(self).kind_of(i) == old(self).kind_of(i) && final(self).parent_of(i) == old(self).parent_of(i),
            final(self).kind_of(parent as int) == old(self).kind_of(parent as int),
    {
        let idx = self.nodes.len();
        self.nodes.push(SceneNode { parent, live: true, kind, children: Vec::new() });
        let pnode = &mut self.nodes[parent];
        pnode.children.insert(pos, idx);
        proof {
            reveal(Tree::wf_parents);
            reveal(Tree::wf_children);
            reveal(Tree::wf_dead);
            reveal(Tree::wf_workspaces);
            let pre = old(self);
            let post = self;
            assert(post.kids(parent as int) =~= pre.kids(parent as int).insert(pos as int, idx));
            assert forall|i: int|
                1 <= i < post.n() && post.live(i) implies {
                &&& 0 <= post.parent_of(i) < post.n()
                &&& post.parent_of(i) != i
                &&& post.live(post.parent_of(i))
                &&& post.kids(post.parent_of(i)).contains(i as usize)
                &&& kind_fits(post.kind_of(i), post.kind_of(post.parent_of(i)))
            } by {
                if i < pre.n() {
                    assert(pre.nodes@[i].live);
                    let p = pre.parent_of(i);
                    if p == parent as int {
                        assert(pre.kids(p).contains(i as usize));
                        let j = choose|j: int| 0 <= j < pre.kids(p).len() && pre.kids(p)[j] == i as usize;
                        if j < pos {
                            assert(post.kids(p)[j] == i as usize);
                        } else {
                            assert(post.kids(p)[j + 1] == i as usize);
                        }
                        assert(post.kids(p).contains(i as usize));
                    } else {
                        assert(post.kids(p) == pre.kids(p));
                        assert(pre.kids(p).contains(i as usize));
                    }
                } else {
                    assert(i == idx);
                    assert(post.kids(parent as int)[pos as int] == idx);
                    assert(post.kids(parent as int).contains(idx));
                }
            }
            assert forall|p: int, j: int|
                0 <= p < post.n() && 0 <= j < post.kids(p).len() implies {
                &&& 1 <= post.kids(p)[j] < post.n()
                &&& post.live(post.kids(p)[j] as int)
                &&& post.parent_of(post.kids(p)[j] as int) == p
                &&& forall|j2: int|
                    0 <= j2 < post.kids(p).len() && j2 != j ==> post.kids(p)[j2] != post.kids(p)[j]
            } by {
                if p == parent as int {
                    assert forall|j2: int|
                        0 <= j2 < post.kids(p).len() implies (post.kids(p)[j2] == idx <==> j2
                        == pos as int) by {
                        if j2 < pos {
                            assert(post.kids(p)[j2] == pre.kids(p)[j2]);
                            assert(pre.kids(p)[j2] < pre.n());
                        } else if j2 > pos {
                            assert(post.kids(p)[j2] == pre.kids(p)[j2 - 1]);
                            assert(pre.kids(p)[j2 - 1] < pre.n());
                        }
                    }
                    if j != pos as int {
                        let j0 = if j < pos as int { j } else { j - 1 };
                        assert(post.kids(p)[j] == pre.kids(p)[j0]);
                        assert forall|j2: int|
                            0 <= j2 < post.kids(p).len() && j2 != j implies post.kids(p)[j2]
                            != post.kids(p)[j] by {
                            if j2 != pos as int {
                                let j20 = if j2 < pos as int { j2 } else { j2 - 1 };
                                assert(post.kids(p)[j2] == pre.kids(p)[j20]);
                                assert(j20 != j0);
                            }
                        }
                    } else {
                        assert(post.kids(p)[j] == idx);
                    }
                } else {
                    assert(post.kids(p) == pre.kids(p));
                    if 1 <= post.kids(p)[j] < pre.n() {
                    }
                    assert(pre.kids(p)[j] != idx) by {
                        assert(pre.kids(p)[j] < pre.n());
                    }
                }
            }
            assert(post.wf_dead()) by {
                assert forall|i: int|
                    0 <= i < post.n() && !post.live(i) implies post.kids(i).len() == 0 by {
                    assert(i < pre.n());
                    assert(i != parent as int);
                }
            }
            assert(post.wf_workspaces()) by {
                assert forall|i: int|
                    0 <= i < post.n() && post.live(i) && post.kind_of(i) is Output && kind_current(
                        post.kind_of(i),
                    ) != NO_NODE implies {
                    let w = kind_current(post.kind_of(i)) as int;
                    &&& 0 < w < post.n()
                    &&& post.live(w)
                    &&& post.kind_of(w) is Workspace
                    &&& post.parent_of(w) == i
                } by {
                    assert(i < pre.n() || i == idx);
                }
                assert forall|w: int|
                    1 <= w < post.n() && post.live(w) && post.kind_of(w) is Workspace implies (
                kind_visible(post.kind_of(w)) <==> kind_current(post.kind_of(post.parent_of(w)))
                    == w) by {
                    if w < pre.n() {
                        assert(pre.parent_of(w) == post.parent_of(w));
                    } else {
                        assert(w == idx);
                        assert(!kind_visible(kind));
                        assert(kind_current(post.kind_of(parent as int)) != idx) by {
                            if post.kind_of(parent as int) is Output {
                                if kind_current(pre.kind_of(parent as int)) != NO_NODE {
                                    assert(kind_current(pre.kind_of(parent as int)) < pre.n());
                                }
                            }
                        }
                    }
                }
            }
        }
        idx
    }

    /// Creates a live node of the given kind as the parent's last child.
    pub fn new_child(&mut self, parent: usize, kind: NodeKind) -> (idx: usize)
        requires
            old(self).wf(),
            0 <= parent < old(self).n(),
            old(self).live(parent as int),
            kind_fits(kind, old(self).kind_of(parent as int)),
            !kind_visible(kind),
            kind_current(kind) == NO_NODE,
            old(self).n() < usize::MAX,
        ensures
            final(self).wf(),
            idx as int == old(self).n(),
            final(self).n() == old(self).n() + 1,
            final(self).live(idx as int),
            final(self).kind_of(idx as int) == kind,
            final(self).parent_of(idx as int) == parent as int,
            final(self).kids(idx as int).len() == 0,
            final(self).kids(parent as int) == old(self).kids(parent as int).push(idx),
            forall|i: int|
                #![trigger old(self).nodes@[i]]
                0 <= i < old(self).n() && i != parent ==> final(self).nodes@[i] == old(self).nodes@[i],
            forall|i: int|
                0 <= i < old(self).n() ==> final(self).live(i) == old(self).live(i) && final(self).kind_of(i) == old(self).kind_of(i) && final(self).parent_of(i) == old(self).parent_of(i),
            final(self).kind_of(parent as int) == old(self).kind_of(parent as int),
    {
        let pos = self.nodes[parent].children.len();
        let idx = self.new_child_at(parent, pos, kind);
        proof {
            assert(self.kids(parent as int) =~= old(self).kids(parent as int).push(idx));
        }
        idx
    }

/// Updates an output's rectangle to a new mode, leaving everything else
    /// as it is.
    pub fn set_output_mode(&mut self, output: usize, width: i32, height: i32)
        requires
            old(self).wf(),
            0 < output < old(self).n(),
            old(self).live(output as int),
            old(self).kind_of(output as int) is Output,
        ensures
            final(self).wf(),
            final(self).n() == old(self).n(),
            final(self).kind_of(output as int) == (match old(self).kind_of(output as int) {
                NodeKind::Output { connector, is_dummy, x1, y1, current, .. } => NodeKind::Output {
                    connector,
                    is_dummy,
                    x1,
                    y1,
                    width,
                    height,
                    current,
                },
                k => k,
            }),
            forall|i: int|
                0 <= i < old(self).n() && i != output ==> final(self).nodes@[i] == old(
                    self,
                ).nodes@[i],
            forall|i: int|
                0 <= i < old(self).n() ==> {
                    &&& final(self).live(i) == old(self).live(i)
                    &&& final(self).parent_of(i) == old(self).parent_of(i)
                    &&& final(self).kids(i) == old(self).kids(i)
                    &&& kind_current(final(self).kind_of(i)) == kind_current(
                        old(self).kind_of(i),
                    )
                    &&& kind_visible(final(self).kind_of(i)) == kind_visible(old(self).kind_of(i))
                    &&& (final(self).kind_of(i) is Output <==> old(self).kind_of(i) is Output)
                    &&& (final(self).kind_of(i) is Workspace <==> old(self).kind_of(
                        i,
                    ) is Workspace)
                },
    {
        let (connector, is_dummy, x1, y1, current) = match self.nodes[output].kind {
            NodeKind::Output { connector, is_dummy, x1, y1, current, .. } => (
                connector,
                is_dummy,
                x1,
                y1,
                current,
            ),
            _ => (0u64, false, 0i32, 0i32, NO_NODE),
        };
        let nd = &mut self.nodes[output];
        nd.kind = NodeKind::Output { connector, is_dummy, x1, y1, width, height, current };
        proof {
            reveal(Tree::wf_parents);
            reveal(Tree::wf_children);
            reveal(Tree::wf_dead);
            reveal(Tree::wf_workspaces);
            let pre = old(self);
            let post = self;
            assert forall|i: int|
                1 <= i < post.n() && post.live(i) implies {
                &&& 0 <= post.parent_of(i) < post.n()
                &&& post.parent_of(i) != i
                &&& post.live(post.parent_of(i))
                &&& post.kids(post.parent_of(i)).contains(i as usize)
                &&& kind_fits(post.kind_of(i), post.kind_of(post.parent_of(i)))
            } by {
                assert(pre.kids(pre.parent_of(i)).contains(i as usize));
                assert(post.kids(post.parent_of(i)) == pre.kids(pre.parent_of(i)));
            }
            assert forall|p: int, j: int|
                0 <= p < post.n() && 0 <= j < post.kids(p).len() implies {
                &&& 1 <= post.kids(p)[j] < post.n()
                &&& post.live(post.kids(p)[j] as int)
                &&& post.parent_of(post.kids(p)[j] as int) == p
                &&& forall|j2: int|
                    0 <= j2 < post.kids(p).len() && j2 != j ==> post.kids(p)[j2] != post.kids(p)[j]
            } by {
                assert(post.kids(p) == pre.kids(p));
            }
            assert(post.wf_workspaces()) by {
                assert forall|i: int|
                    0 <= i < post.n() && post.live(i) && post.kind_of(i) is Output && kind_current(
                        post.kind_of(i),
                    ) != NO_NODE implies {
                    let cw = kind_current(post.kind_of(i)) as int;
                    &&& 0 < cw < post.n()
                    &&& post.live(cw)
                    &&& post.kind_of(cw) is Workspace
                    &&& post.parent_of(cw) == i
                } by {
                    assert(kind_current(post.kind_of(i)) == kind_current(pre.kind_of(i)));
                }
                assert forall|ws: int|
                    1 <= ws < post.n() && post.live(ws) && post.kind_of(ws) is Workspace implies (
                kind_visible(post.kind_of(ws)) <==> kind_current(
                    post.kind_of(post.parent_of(ws)),
                ) == ws) by {
                    assert(pre.kind_of(ws) is Workspace);
                    assert(kind_visible(pre.kind_of(ws)) <==> kind_current(
                        pre.kind_of(pre.parent_of(ws)),
                    ) == ws);
                }
            }
        }
    }

/// The workspace a node hangs under, or the node itself when it is a
    /// workspace; `NO_NODE` when the walk reaches the root first.
    pub fn workspace_of(&self, node: usize) -> (w: usize)
        requires
            self.wf(),
            0 <= node < self.n(),
            self.live(node as int),
        ensures
            w == ws_above(*self, node as int, self.n() as nat),
    {
        let mut cur = node;
        let mut fuel = self.nodes.len();
        loop
            invariant
                self.wf(),
                0 <= cur < self.n(),
                self.live(cur as int),
                fuel <= self.n(),
                ws_above(*self, node as int, self.n() as nat) == ws_above(
                    *self,
                    cur as int,
                    fuel as nat,
                ),
            decreases fuel,
        {
            let is_ws = match self.nodes[cur].kind {
                NodeKind::Workspace { .. } => true,
                _ => false,
            };
            if is_ws {
                return cur;
            }
            if fuel == 0 || cur == 0 {
                return NO_NODE;
            }
            proof {
                reveal(Tree::wf_parents);
            }
            cur = self.nodes[cur].parent;
            fuel = fuel - 1;
        }
    }

    /// Position of a child in its parent's list.
    pub fn child_pos(&self, parent: usize, child: usize) -> (j: usize)
        requires
            self.wf(),
            0 <= parent < self.n(),
            self.kids(parent as int).contains(child),
        ensures
            j < self.kids(parent as int).len(),
            self.kids(parent as int)[j as int] == child,
    {
        let pk = &self.nodes[parent].children;
        let mut j: usize = 0;
        while j < pk.len()
            invariant
                j <= pk@.len(),
                pk@ == self.kids(parent as int),
                self.kids(parent as int).contains(child),
                forall|j2: int| 0 <= j2 < j ==> self.kids(parent as int)[j2] != child,
            decreases pk@.len() - j,
        {
            if pk[j] == child {
                return j;
            }
            j = j + 1;
        }
        proof {
            let w = choose|w: int|
                0 <= w < self.kids(parent as int).len() && self.kids(parent as int)[w] == child;
            assert(false);
        }
        0
    }

    /// Makes `w` (or no workspace, when `w` is `NO_NODE`) the output's
    /// current workspace, clearing the old one's visibility and setting the
    /// new one's.
    #[verifier::rlimit(100)]
    #[verifier::spinoff_prover]
    pub fn set_current_workspace(&mut self, output: usize, w: usize)
        requires
            old(self).wf(),
            0 < output < old(self).n(),
            old(self).live(output as int),
            old(self).kind_of(output as int) is Output,
            w != NO_NODE ==> {
                &&& w < old(self).n()
                &&& old(self).live(w as int)
                &&& old(self).kind_of(w as int) is Workspace
                &&& old(self).parent_of(w as int) == output as int
            },
        ensures
            final(self).wf(),
            final(self).n() == old(self).n(),
            kind_current(final(self).kind_of(output as int)) == w,
            final(self).kind_of(output as int) is Output,
            w != NO_NODE ==> final(self).kind_of(w as int) == (NodeKind::Workspace {
                visible: true,
            }),
            w != NO_NODE ==> kind_visible(final(self).kind_of(w as int)),
            ({
                let oc = kind_current(old(self).kind_of(output as int));
                oc != NO_NODE && oc != w ==> final(self).kind_of(oc as int) == (
                NodeKind::Workspace { visible: false })
            }),
            forall|i: int|
                0 <= i < old(self).n() ==> {
                    &&& final(self).live(i) == old(self).live(i)
                    &&& final(self).parent_of(i) == old(self).parent_of(i)
                    &&& final(self).kids(i) == old(self).kids(i)
                },
            forall|i: int|
                #![trigger old(self).nodes@[i]]
                0 <= i < old(self).n() && i != output && i != w && i != kind_current(
                    old(self).kind_of(output as int),
                ) ==> final(self).kind_of(i) == old(self).kind_of(i),
    {
        let (connector, is_dummy, x1, y1, width, height, old_cur) = match self.nodes[output].kind {
            NodeKind::Output { connector, is_dummy, x1, y1, width, height, current } => (
                connector,
                is_dummy,
                x1,
                y1,
                width,
                height,
                current,
            ),
            _ => (0u64, false, 0i32, 0i32, 0i32, 0i32, NO_NODE),
        };
        proof {
            reveal(Tree::wf_workspaces);
            assert(kind_current(old(self).kind_of(output as int)) == old_cur);
            assert(old_cur != NO_NODE ==> 0 < old_cur < old(self).n() && old(self).live(
                old_cur as int,
            ) && old(self).kind_of(old_cur as int) is Workspace);
        }
        if old_cur != NO_NODE {
            let nd = &mut self.nodes[old_cur];
            nd.kind = NodeKind::Workspace { visible: false };
        }
        if w != NO_NODE {
            let nd = &mut self.nodes[w];
            nd.kind = NodeKind::Workspace { visible: true };
        }
        let nd = &mut self.nodes[output];
        nd.kind = NodeKind::Output { connector, is_dummy, x1, y1, width, height, current: w };
        proof {
            reveal(Tree::wf_parents);
            reveal(Tree::wf_children);
            reveal(Tree::wf_dead);
            reveal(Tree::wf_workspaces);
            let pre = old(self);
            let post = self;
            assert forall|i: int|
                1 <= i < post.n() && post.live(i) implies {
                &&& 0 <= post.parent_of(i) < post.n()
                &&& post.parent_of(i) != i
                &&& post.live(post.parent_of(i))
                &&& post.kids(post.parent_of(i)).contains(i as usize)
                &&& kind_fits(post.kind_of(i), post.kind_of(post.parent_of(i)))
            } by {
                assert(pre.live(i) && pre.kids(pre.parent_of(i)).contains(i as usize));
                assert(post.kids(post.parent_of(i)) == pre.kids(pre.parent_of(i)));
            }
            assert forall|p: int, j: int|
                0 <= p < post.n() && 0 <= j < post.kids(p).len() implies {
                &&& 1 <= post.kids(p)[j] < post.n()
                &&& post.live(post.kids(p)[j] as int)
                &&& post.parent_of(post.kids(p)[j] as int) == p
                &&& forall|j2: int|
                    0 <= j2 < post.kids(p).len() && j2 != j ==> post.kids(p)[j2] != post.kids(p)[j]
            } by {
                assert(post.kids(p) == pre.kids(p));
            }
            assert(post.wf_workspaces()) by {
                let oc = kind_current(pre.kind_of(output as int)) as int;
                assert forall|i: int|
                    0 <= i < post.n() && post.live(i) && post.kind_of(i) is Output && kind_current(
                        post.kind_of(i),
                    ) != NO_NODE implies {
                    let cw = kind_current(post.kind_of(i)) as int;
                    &&& 0 < cw < post.n()
                    &&& post.live(cw)
                    &&& post.kind_of(cw) is Workspace
                    &&& post.parent_of(cw) == i
                } by {
                    if i == output as int {
                        assert(kind_current(post.kind_of(i)) == w);
                    } else {
                        assert(post.kind_of(i) == pre.kind_of(i));
                        let cw = kind_current(pre.kind_of(i)) as int;
                        assert(pre.live(cw) && pre.kind_of(cw) is Workspace && pre.parent_of(cw)
                            == i);
                        assert(cw != oc) by {
                            if oc != NO_NODE as int {
                                assert(pre.parent_of(oc) == output as int);
                            }
                        }
                        assert(cw != w) by {
                            if w != NO_NODE {
                                assert(pre.parent_of(w as int) == output as int);
                            }
                        }
                        assert(post.kind_of(cw) == pre.kind_of(cw));
                    }
                }
                assert forall|ws: int|
                    1 <= ws < post.n() && post.live(ws) && post.kind_of(ws) is Workspace implies (
                kind_visible(post.kind_of(ws)) <==> kind_current(
                    post.kind_of(post.parent_of(ws)),
                ) == ws) by {
                    let pp = pre.parent_of(ws);
                    assert(pre.kids(pp).contains(ws as usize));
                    if ws == w as int {
                        assert(pp == output as int);
                        assert(kind_visible(post.kind_of(ws)));
                        assert(kind_current(post.kind_of(pp)) == w);
                    } else if ws == oc && oc != NO_NODE as int {
                        assert(pp == output as int);
                        assert(!kind_visible(post.kind_of(ws)));
                        assert(kind_current(post.kind_of(pp)) == w);
                    } else {
                        assert(post.kind_of(ws) == pre.kind_of(ws));
                        assert(pre.kind_of(ws) is Workspace);
                        if pp == output as int {
                            assert(kind_visible(pre.kind_of(ws)) <==> kind_current(
                                pre.kind_of(pp),
                            ) == ws);
                            assert(kind_current(pre.kind_of(pp)) == oc);
                            assert(!kind_visible(pre.kind_of(ws)) || ws == oc);
                            assert(!kind_visible(post.kind_of(ws)));
                            assert(kind_current(post.kind_of(pp)) == w && w as int != ws);
                        } else {
                            assert(post.kind_of(pp) == pre.kind_of(pp));
                        }
                    }
                }
            }
        }
    }

    /// Moves an invisible workspace under another output, keeping it at the
    /// end of the new output's child list.
    pub fn reparent_workspace(&mut self, w: usize, new_output: usize)
        requires
            old(self).wf(),
            0 < w < old(self).n(),
            old(self).live(w as int),
            old(self).kind_of(w as int) is Workspace,
            !kind_visible(old(self).kind_of(w as int)),
            0 < new_output < old(self).n(),
            old(self).live(new_output as int),
            old(self).kind_of(new_output as int) is Output,
            old(self).parent_of(w as int) != new_output as int,
        ensures
            final(self).wf(),
            final(self).n() == old(self).n(),
            final(self).parent_of(w as int) == new_output as int,
            final(self).kids(new_output as int) == old(self).kids(new_output as int).push(w),
            final(self).kind_of(w as int) == old(self).kind_of(w as int),
            forall|i: int|
                0 <= i < old(self).n() ==> {
                    &&& final(self).live(i) == old(self).live(i)
                    &&& final(self).kind_of(i) == old(self).kind_of(i)
                },
            forall|i: int|
                0 <= i < old(self).n() && i != w ==> final(self).parent_of(i) == old(
                    self,
                ).parent_of(i),
            forall|i: int|
                0 <= i < old(self).n() && i != old(self).parent_of(w as int) && i != new_output
                    ==> final(self).kids(i) == old(self).kids(i),
            final(self).kids(old(self).parent_of(w as int)).len() == old(self).kids(
                old(self).parent_of(w as int),
            ).len() - 1,
            !final(self).kids(old(self).parent_of(w as int)).contains(w),
            forall|c: usize|
                c != w ==> (final(self).kids(old(self).parent_of(w as int)).contains(c) <==> old(
                    self,
                ).kids(old(self).parent_of(w as int)).contains(c)),
    {
        let total = self.nodes.len();
        proof {
            assert(total as int == old(self).n());
        }
        let oldp = self.nodes[w].parent;
        proof {
            reveal(Tree::wf_parents);
            assert(old(self).kids(oldp as int).contains(w));
        }
        let jw = self.child_pos(oldp, w);
        let pn = &mut self.nodes[oldp];
        pn.children.remove(jw);
        let nn = &mut self.nodes[new_output];
        nn.children.push(w);
        let wn = &mut self.nodes[w];
        wn.parent = new_output;
        proof {
            lemma_reparent_wf(*old(self), *self, w, oldp, new_output, jw as int);
        }
    }

    /// Removes a childless node from the tree; its slot goes dead. A
    /// workspace must be invisible when it is removed.
    pub fn remove_leaf(&mut self, node: usize)
        requires
            old(self).wf(),
            0 < node < old(self).n(),
            old(self).live(node as int),
            old(self).kids(node as int).len() == 0,
            !kind_visible(old(self).kind_of(node as int)),
            old(self).kind_of(node as int) is Output ==> kind_current(
                old(self).kind_of(node as int),
            ) == NO_NODE,
        ensures
            final(self).wf(),
            final(self).n() == old(self).n(),
            !final(self).live(node as int),
            forall|i: int|
                0 <= i < old(self).n() && i != node ==> {
                    &&& final(self).live(i) == old(self).live(i)
                    &&& final(self).kind_of(i) == old(self).kind_of(i)
                    &&& final(self).parent_of(i) == old(self).parent_of(i)
                },
            forall|i: int|
                0 <= i < old(self).n() && i != old(self).parent_of(node as int)
                    ==> final(self).kids(i) == old(self).kids(i),
            final(self).kids(old(self).parent_of(node as int)).len() == old(self).kids(
                old(self).parent_of(node as int),
            ).len() - 1,
            !final(self).kids(old(self).parent_of(node as int)).contains(node),
            forall|c: usize|
                c != node ==> (final(self).kids(old(self).parent_of(node as int)).contains(c)
                    <==> old(self).kids(old(self).parent_of(node as int)).contains(c)),
    {
        let total = self.nodes.len();
        proof {
            assert(total as int == old(self).n());
        }
        let oldp = self.nodes[node].parent;
        proof {
            reveal(Tree::wf_parents);
            assert(old(self).kids(oldp as int).contains(node));
        }
        let jw = self.child_pos(oldp, node);
        let pn = &mut self.nodes[oldp];
        pn.children.remove(jw);
        let nn = &mut self.nodes[node];
        nn.live = false;
        proof {
            lemma_remove_leaf_wf(*old(self), *self, node, oldp, jw as int);
        }
    }

}

/// The workspace above a node, walking at most `fuel` parent steps; the node
/// itself when it is a workspace, `NO_NODE` when the walk finds none.
pub open spec fn ws_above(t: Tree, i: int, fuel: nat) -> usize
    decreases fuel,
{
    if !(0 <= i < t.n()) {
        NO_NODE
    } else if t.kind_of(i) is Workspace {
        i as usize
    } else if fuel == 0 || i == 0 {
        NO_NODE
    } else {
        ws_above(t, t.parent_of(i), (fuel - 1) as nat)
    }
}

/// The first container among these children, `NO_NODE` when there is none.
pub open spec fn first_container_in(t: Tree, kids: Seq<usize>) -> usize
    decreases kids.len(),
{
    if kids.len() == 0 {
        NO_NODE
    } else if t.kind_of(kids[0] as int) is Container {
        kids[0]
    } else {
        first_container_in(t, kids.skip(1))
    }
}

/// The first container child of a node, `NO_NODE` when there is none.
pub open spec fn first_container(t: Tree, w: int) -> usize {
    first_container_in(t, t.kids(w))
}

/// Law: after any mutation, every live node other than the root has a parent
/// that is live and lists it among its children.
pub proof fn lemma_parent_child(t: &Tree, i: int)
    requires
        t.wf(),
        1 <= i < t.n(),
        t.live(i),
    ensures
        t.live(t.parent_of(i)),
        t.kids(t.parent_of(i)).contains(i as usize),
{
    reveal(Tree::wf_parents);
}

/// Law: a workspace is visible exactly when its output's current workspace
/// is that workspace.
pub proof fn lemma_workspace_visible(t: &Tree, w: int)
    requires
        t.wf(),
        1 <= w < t.n(),
        t.live(w),
        t.kind_of(w) is Workspace,
    ensures
        kind_visible(t.kind_of(w)) <==> kind_current(t.kind_of(t.parent_of(w))) == w,
{
    reveal(Tree::wf_workspaces);
}

/// A child list with one occurrence of a value removed: the value is gone,
/// everything else keeps its membership, and distinctness survives.
proof fn lemma_remove_at(pre: Seq<usize>, jw: int, w: usize)
    requires
        0 <= jw < pre.len(),
        pre[jw] == w,
        forall|a: int, b: int| 0 <= a < b < pre.len() ==> pre[a] != pre[b],
    ensures
        !pre.remove(jw).contains(w),
        forall|c: usize| c != w ==> (pre.remove(jw).contains(c) <==> pre.contains(c)),
        forall|a: int, b: int|
            0 <= a < b < pre.remove(jw).len() ==> pre.remove(jw)[a] != pre.remove(jw)[b],
{
    let post = pre.remove(jw);
    assert forall|j: int| 0 <= j < post.len() implies post[j] != w by {
        if j < jw {
            assert(post[j] == pre[j]);
        } else {
            assert(post[j] == pre[j + 1]);
        }
    }
    assert forall|c: usize| c != w implies (post.contains(c) <==> pre.contains(c)) by {
        if pre.contains(c) {
            let j = choose|j: int| 0 <= j < pre.len() && pre[j] == c;
            assert(j != jw);
            if j < jw {
                assert(post[j] == c);
            } else {
                assert(post[j - 1] == c);
            }
            assert(post.contains(c));
        }
        if post.contains(c) {
            let j = choose|j: int| 0 <= j < post.len() && post[j] == c;
            if j < jw {
                assert(pre[j] == c);
            } else {
                assert(pre[j + 1] == c);
            }
            assert(pre.contains(c));
        }
    }
    assert forall|a: int, b: int|
        0 <= a < b < post.len() implies post[a] != post[b] by {
        let a0 = if a < jw { a } else { a + 1 };
        let b0 = if b < jw { b } else { b + 1 };
        assert(post[a] == pre[a0] && post[b] == pre[b0]);
        assert(a0 < b0);
    }
}

/// The parent-side invariant survives moving `w` from `oldp` to `newp`.
#[verifier::rlimit(100)]
#[verifier::spinoff_prover]
proof fn lemma_reparent_parents(pre: Tree, post: Tree, w: usize, oldp: usize, newp: usize, jw: int)
    requires
        reparent_shape(pre, post, w, oldp, newp, jw),
    ensures
        post.wf_parents(),
{
    reveal(Tree::wf_parents);
    reveal(Tree::wf_children);
    let pk = pre.kids(oldp as int);
    let qk = post.kids(oldp as int);
    assert(qk.len() == pk.len() - 1);
    assert forall|j: int| 0 <= j < qk.len() implies qk[j] == (if j < jw {
        pk[j]
    } else {
        pk[j + 1]
    }) by {}
    assert forall|i: int|
        1 <= i < post.n() && post.live(i) implies {
        &&& 0 <= post.parent_of(i) < post.n()
        &&& post.parent_of(i) != i
        &&& post.live(post.parent_of(i))
        &&& post.kids(post.parent_of(i)).contains(i as usize)
        &&& kind_fits(post.kind_of(i), post.kind_of(post.parent_of(i)))
    } by {
        if i == w as int {
            assert(post.kids(newp as int)[post.kids(newp as int).len() - 1] == w);
            assert(post.kids(newp as int).contains(w));
        } else {
            let p = pre.parent_of(i);
            assert(pre.live(i));
            assert(pre.kids(p).contains(i as usize));
            let j = choose|j: int| 0 <= j < pre.kids(p).len() && pre.kids(p)[j] == i as usize;
            if p == oldp as int {
                assert(j != jw) by {
                    assert(pre.kids(p)[jw] == w);
                    assert(pre.kids(p)[j] == i as usize);
                    assert(i as usize as int == i);
                }
                if j < jw {
                    assert(post.kids(p)[j] == i as usize);
                } else {
                    assert(post.kids(p)[j - 1] == i as usize);
                }
                assert(post.kids(p).contains(i as usize));
            } else if p == newp as int {
                assert(post.kids(p)[j] == i as usize);
                assert(post.kids(p).contains(i as usize));
            } else {
                assert(post.kids(p) == pre.kids(p));
            }
        }
    }
}

/// The child-side invariant survives moving `w` from `oldp` to `newp`.
#[verifier::rlimit(100)]
#[verifier::spinoff_prover]
proof fn lemma_reparent_children(pre: Tree, post: Tree, w: usize, oldp: usize, newp: usize, jw: int)
    requires
        reparent_shape(pre, post, w, oldp, newp, jw),
    ensures
        post.wf_children(),
{
    reveal(Tree::wf_parents);
    reveal(Tree::wf_children);
    assert forall|p: int, j: int|
        0 <= p < post.n() && 0 <= j < post.kids(p).len() implies {
        &&& 1 <= post.kids(p)[j] < post.n()
        &&& post.live(post.kids(p)[j] as int)
        &&& post.parent_of(post.kids(p)[j] as int) == p
        &&& forall|j2: int|
            0 <= j2 < post.kids(p).len() && j2 != j ==> post.kids(p)[j2] != post.kids(p)[j]
    } by {
        if p == oldp as int {
            let j0 = if j < jw { j } else { j + 1 };
            assert(post.kids(p)[j] == pre.kids(p)[j0]);
            assert(pre.kids(p)[j0] != w) by {
                assert(j0 != jw);
                assert(pre.kids(p)[jw] == w);
            }
            assert forall|j2: int|
                0 <= j2 < post.kids(p).len() && j2 != j implies post.kids(p)[j2] != post.kids(
                p,
            )[j] by {
                let j20 = if j2 < jw { j2 } else { j2 + 1 };
                assert(post.kids(p)[j2] == pre.kids(p)[j20]);
            }
        } else if p == newp as int {
            assert forall|j2: int|
                0 <= j2 < post.kids(p).len() implies (post.kids(p)[j2] == w <==> j2 == post.kids(
                p,
            ).len() - 1) by {
                if j2 < post.kids(p).len() - 1 {
                    assert(post.kids(p)[j2] == pre.kids(p)[j2]);
                    assert(pre.parent_of(pre.kids(p)[j2] as int) == p);
                    assert(pre.kids(p)[j2] != w) by {
                        assert(pre.parent_of(w as int) == oldp as int);
                    }
                }
            }
            if j == post.kids(p).len() - 1 {
                assert(post.kids(p)[j] == w);
                assert(post.parent_of(w as int) == p);
            } else {
                assert(post.kids(p)[j] == pre.kids(p)[j]);
                assert forall|j2: int|
                    0 <= j2 < post.kids(p).len() && j2 != j implies post.kids(p)[j2] != post.kids(
                    p,
                )[j] by {
                    if j2 < post.kids(p).len() - 1 {
                        assert(post.kids(p)[j2] == pre.kids(p)[j2]);
                    } else {
                        assert(post.kids(p)[j2] == w);
                    }
                }
            }
        } else {
            assert(post.kids(p) == pre.kids(p));
            assert(pre.kids(p)[j] != w) by {
                assert(pre.parent_of(pre.kids(p)[j] as int) == p);
                assert(pre.parent_of(w as int) == oldp as int);
                if pre.kids(p)[j] == w {
                    assert(p == oldp as int);
                }
            }
        }
    }
}

/// The workspace invariants survive moving the invisible workspace `w`.
proof fn lemma_reparent_workspaces(
    pre: Tree,
    post: Tree,
    w: usize,
    oldp: usize,
    newp: usize,
    jw: int,
)
    requires
        reparent_shape(pre, post, w, oldp, newp, jw),
    ensures
        post.wf_workspaces(),
{
    reveal(Tree::wf_parents);
    reveal(Tree::wf_children);
    reveal(Tree::wf_workspaces);
    assert forall|i: int|
        0 <= i < post.n() && post.live(i) && post.kind_of(i) is Output && kind_current(
            post.kind_of(i),
        ) != NO_NODE implies {
        let cw = kind_current(post.kind_of(i)) as int;
        &&& 0 < cw < post.n()
        &&& post.live(cw)
        &&& post.kind_of(cw) is Workspace
        &&& post.parent_of(cw) == i
    } by {
        let cw = kind_current(pre.kind_of(i)) as int;
        assert(pre.parent_of(cw) == i);
        assert(cw != w as int) by {
            if cw == w as int {
                assert(kind_visible(pre.kind_of(w as int)) <==> kind_current(
                    pre.kind_of(pre.parent_of(w as int)),
                ) == w as int);
            }
        }
    }
    assert forall|ws: int|
        1 <= ws < post.n() && post.live(ws) && post.kind_of(ws) is Workspace implies (kind_visible(
        post.kind_of(ws),
    ) <==> kind_current(post.kind_of(post.parent_of(ws))) == ws) by {
        if ws == w as int {
            assert(!kind_visible(post.kind_of(ws)));
            assert(kind_current(post.kind_of(newp as int)) != ws) by {
                let cw = kind_current(pre.kind_of(newp as int));
                if cw != NO_NODE {
                    assert(pre.parent_of(cw as int) == newp as int);
                }
            }
        } else {
            assert(pre.kind_of(ws) is Workspace);
            assert(kind_visible(pre.kind_of(ws)) <==> kind_current(
                pre.kind_of(pre.parent_of(ws)),
            ) == ws);
        }
    }
}

/// How the arena looks after `w` moved from `oldp` to `newp`: the shared
/// precondition of the reparenting lemmas.
pub open spec fn reparent_shape(
    pre: Tree,
    post: Tree,
    w: usize,
    oldp: usize,
    newp: usize,
    jw: int,
) -> bool {
    &&& pre.wf()
    &&& pre.n() <= usize::MAX
    &&& 0 < w < pre.n()
    &&& pre.live(w as int)
    &&& pre.kind_of(w as int) is Workspace
    &&& !kind_visible(pre.kind_of(w as int))
    &&& 0 < newp < pre.n()
    &&& pre.live(newp as int)
    &&& pre.kind_of(newp as int) is Output
    &&& oldp as int == pre.parent_of(w as int)
    &&& oldp as int != newp as int
    &&& 0 <= jw < pre.kids(oldp as int).len()
    &&& pre.kids(oldp as int)[jw] == w
    &&& post.n() == pre.n()
    &&& post.kids(oldp as int) == pre.kids(oldp as int).remove(jw)
    &&& post.kids(newp as int) == pre.kids(newp as int).push(w)
    &&& forall|i: int|
        0 <= i < pre.n() && i != oldp as int && i != newp as int ==> post.kids(i) == pre.kids(i)
    &&& forall|i: int|
        0 <= i < pre.n() ==> post.live(i) == pre.live(i) && post.kind_of(i) == pre.kind_of(i)
    &&& post.parent_of(w as int) == newp as int
    &&& forall|i: int| 0 <= i < pre.n() && i != w as int ==> post.parent_of(i) == pre.parent_of(i)
}

/// The whole invariant survives a reparenting, and the old parent's child
/// list shrinks by exactly the moved workspace.
#[verifier::rlimit(100)]
#[verifier::spinoff_prover]
proof fn lemma_reparent_wf(pre: Tree, post: Tree, w: usize, oldp: usize, newp: usize, jw: int)
    requires
        reparent_shape(pre, post, w, oldp, newp, jw),
    ensures
        post.wf(),
        post.kids(oldp as int).len() == pre.kids(oldp as int).len() - 1,
        !post.kids(oldp as int).contains(w),
        forall|c: usize|
            c != w ==> (post.kids(oldp as int).contains(c) <==> pre.kids(oldp as int).contains(c)),
{
    reveal(Tree::wf_parents);
    reveal(Tree::wf_children);
    reveal(Tree::wf_dead);
    assert(oldp as int != 0) by {
        assert(pre.kind_of(oldp as int) is Output);
    }
    lemma_reparent_parents(pre, post, w, oldp, newp, jw);
    lemma_reparent_children(pre, post, w, oldp, newp, jw);
    lemma_reparent_workspaces(pre, post, w, oldp, newp, jw);
    assert(post.wf_dead()) by {
        assert forall|i: int|
            0 <= i < post.n() && !post.live(i) implies post.kids(i).len() == 0 by {
            assert(!pre.live(i));
            assert(i != oldp as int && i != newp as int);
        }
    }
    assert forall|a: int, b: int|
        0 <= a < b < pre.kids(oldp as int).len() implies pre.kids(oldp as int)[a] != pre.kids(
        oldp as int,
    )[b] by {}
    lemma_remove_at(pre.kids(oldp as int), jw, w);
}

/// How the arena looks after the childless `node` under `oldp` went dead.
pub open spec fn remove_shape(pre: Tree, post: Tree, node: usize, oldp: usize, jw: int) -> bool {
    &&& pre.wf()
    &&& pre.n() <= usize::MAX
    &&& 0 < node < pre.n()
    &&& pre.live(node as int)
    &&& pre.kids(node as int).len() == 0
    &&& !kind_visible(pre.kind_of(node as int))
    &&& (pre.kind_of(node as int) is Output ==> kind_current(pre.kind_of(node as int)) == NO_NODE)
    &&& oldp as int == pre.parent_of(node as int)
    &&& 0 <= jw < pre.kids(oldp as int).len()
    &&& pre.kids(oldp as int)[jw] == node
    &&& post.n() == pre.n()
    &&& post.kids(oldp as int) == pre.kids(oldp as int).remove(jw)
    &&& forall|i: int|
        0 <= i < pre.n() && i != oldp as int && i != node as int ==> post.kids(i) == pre.kids(i)
    &&& post.kids(node as int) == pre.kids(node as int)
    &&& forall|i: int|
        0 <= i < pre.n() && i != node as int ==> post.live(i) == pre.live(i)
    &&& !post.live(node as int)
    &&& forall|i: int| 0 <= i < pre.n() ==> post.kind_of(i) == pre.kind_of(i)
    &&& forall|i: int| 0 <= i < pre.n() ==> post.parent_of(i) == pre.parent_of(i)
}

/// The whole invariant survives removing a childless node.
#[verifier::rlimit(100)]
#[verifier::spinoff_prover]
proof fn lemma_remove_leaf_wf(pre: Tree, post: Tree, node: usize, oldp: usize, jw: int)
    requires
        remove_shape(pre, post, node, oldp, jw),
    ensures
        post.wf(),
        post.kids(oldp as int).len() == pre.kids(oldp as int).len() - 1,
        !post.kids(oldp as int).contains(node),
        forall|c: usize|
            c != node ==> (post.kids(oldp as int).contains(c) <==> pre.kids(oldp as int).contains(
                c,
            )),
{
    reveal(Tree::wf_parents);
    reveal(Tree::wf_children);
    reveal(Tree::wf_dead);
    reveal(Tree::wf_workspaces);
    assert(oldp as int != node as int);
    assert(post.wf_root()) by {
        assert(node as int != 0);
        if oldp as int == 0 {
            assert(post.live(0) == pre.live(0));
        }
    }
    lemma_remove_parents(pre, post, node, oldp, jw);
    lemma_remove_children(pre, post, node, oldp, jw);
    assert(post.wf_dead()) by {
        assert forall|i: int|
            0 <= i < post.n() && !post.live(i) implies post.kids(i).len() == 0 by {
            if i != node as int {
                assert(!pre.live(i));
                assert(i != oldp as int);
            }
        }
    }
    assert(post.wf_workspaces()) by {
        assert forall|i: int|
            0 <= i < post.n() && post.live(i) && post.kind_of(i) is Output && kind_current(
                post.kind_of(i),
            ) != NO_NODE implies {
            let cw = kind_current(post.kind_of(i)) as int;
            &&& 0 < cw < post.n()
            &&& post.live(cw)
            &&& post.kind_of(cw) is Workspace
            &&& post.parent_of(cw) == i
        } by {
            assert(i != node as int);
            let cw = kind_current(pre.kind_of(i)) as int;
            assert(pre.parent_of(cw) == i && pre.live(cw) && pre.kind_of(cw) is Workspace);
            assert(cw != node as int) by {
                if cw == node as int {
                    assert(kind_visible(pre.kind_of(node as int)) <==> kind_current(
                        pre.kind_of(pre.parent_of(node as int)),
                    ) == node as int);
                    assert(pre.parent_of(node as int) == i);
                }
            }
        }
        assert forall|ws: int|
            1 <= ws < post.n() && post.live(ws) && post.kind_of(ws) is Workspace implies (
        kind_visible(post.kind_of(ws)) <==> kind_current(post.kind_of(post.parent_of(ws)))
            == ws) by {
            assert(ws != node as int);
        }
    }
    assert forall|a: int, b: int|
        0 <= a < b < pre.kids(oldp as int).len() implies pre.kids(oldp as int)[a] != pre.kids(
        oldp as int,
    )[b] by {}
    lemma_remove_at(pre.kids(oldp as int), jw, node);
}

/// The parent-side invariant survives removing the childless `node`.
#[verifier::rlimit(100)]
#[verifier::spinoff_prover]
proof fn lemma_remove_parents(pre: Tree, post: Tree, node: usize, oldp: usize, jw: int)
    requires
        remove_shape(pre, post, node, oldp, jw),
    ensures
        post.wf_parents(),
{
    reveal(Tree::wf_parents);
    reveal(Tree::wf_children);
    reveal(Tree::wf_dead);
    assert(post.wf_parents()) by {
        let pk = pre.kids(oldp as int);
        let qk = post.kids(oldp as int);
        assert(qk.len() == pk.len() - 1);
        assert forall|j: int| 0 <= j < qk.len() implies qk[j] == (if j < jw {
            pk[j]
        } else {
            pk[j + 1]
        }) by {}
        assert forall|i: int|
            1 <= i < post.n() && post.live(i) implies {
            &&& 0 <= post.parent_of(i) < post.n()
            &&& post.parent_of(i) != i
            &&& post.live(post.parent_of(i))
            &&& post.kids(post.parent_of(i)).contains(i as usize)
            &&& kind_fits(post.kind_of(i), post.kind_of(post.parent_of(i)))
        } by {
            assert(i != node as int);
            let p = pre.parent_of(i);
            assert(pre.kids(p).contains(i as usize));
            assert(p != node as int) by {
                if p == node as int {
                    assert(pre.kids(node as int).contains(i as usize));
                }
            }
            let j = choose|j: int| 0 <= j < pre.kids(p).len() && pre.kids(p)[j] == i as usize;
            if p == oldp as int {
                assert(j != jw) by {
                    assert(pre.kids(p)[jw] == node);
                    assert(pre.kids(p)[j] == i as usize);
                    assert(i as usize as int == i);
                }
                if j < jw {
                    assert(post.kids(p)[j] == i as usize);
                } else {
                    assert(post.kids(p)[j - 1] == i as usize);
                }
                assert(post.kids(p).contains(i as usize));
            } else {
                assert(post.kids(p) == pre.kids(p));
            }
        }
    }
}

/// The child-side invariant survives removing the childless `node`.
#[verifier::rlimit(100)]
#[verifier::spinoff_prover]
proof fn lemma_remove_children(pre: Tree, post: Tree, node: usize, oldp: usize, jw: int)
    requires
        remove_shape(pre, post, node, oldp, jw),
    ensures
        post.wf_children(),
{
    reveal(Tree::wf_parents);
    reveal(Tree::wf_children);
    assert(post.wf_children()) by {
        assert forall|p: int, j: int|
            0 <= p < post.n() && 0 <= j < post.kids(p).len() implies {
            &&& 1 <= post.kids(p)[j] < post.n()
            &&& post.live(post.kids(p)[j] as int)
            &&& post.parent_of(post.kids(p)[j] as int) == p
            &&& forall|j2: int|
                0 <= j2 < post.kids(p).len() && j2 != j ==> post.kids(p)[j2] != post.kids(p)[j]
        } by {
            if p == oldp as int {
                let j0 = if j < jw { j } else { j + 1 };
                assert(post.kids(p)[j] == pre.kids(p)[j0]);
                assert(pre.kids(p)[j0] != node) by {
                    assert(j0 != jw);
                    assert(pre.kids(p)[jw] == node);
                }
                assert forall|j2: int|
                    0 <= j2 < post.kids(p).len() && j2 != j implies post.kids(p)[j2] != post.kids(
                    p,
                )[j] by {
                    let j20 = if j2 < jw { j2 } else { j2 + 1 };
                    assert(post.kids(p)[j2] == pre.kids(p)[j20]);
                }
            } else {
                assert(post.kids(p) == pre.kids(p));
                assert(pre.kids(p)[j] != node) by {
                    assert(pre.parent_of(pre.kids(p)[j] as int) == p);
                    if pre.kids(p)[j] == node {
                        assert(p == oldp as int);
                    }
                }
            }
        }
    }
}

} // verus!
