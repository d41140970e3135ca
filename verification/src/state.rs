//! The compositor state: the scene tree, the global registry, the connected
//! clients, seats, connectors and outputs, and the operations the protocol
//! handlers and the connector lifecycle perform on them. Its invariant ties
//! the pieces together: every registered output is connected and advertises
//! a `wl_output` global, and every `wl_output` global belongs to an output.

use vstd::prelude::*;
use crate::client::{Client, EventMsg, Interface};
use crate::config::Axis;
use crate::registry::{GlobalEntry, Registry, has_global, global_named};
use crate::theme::Theme;
use crate::tree::{NodeKind, Tree, kind_current, kind_visible, NO_NODE};

verus! {

/// The lifecycle state of one connector.
#[derive(Copy, Clone, Debug, PartialEq, Eq, Structural)]
pub enum ConnState {
    Disconnected,
    Connected,
}

/// A backend connector the compositor knows about.
pub struct ConnectorData {
    pub id: u64,
    pub state: ConnState,
    pub name: String,
}

/// A connected output: its connector, its scene node and the name of its
/// `wl_output` global.
#[derive(Copy, Clone, Debug)]
pub struct OutputData {
    pub connector: u64,
    pub node: usize,
    pub global_name: u32,
}

/// One seat: where its pointer is, which output it is on, its keyboard
/// focus, the last tiled toplevel it put the keyboard in, and whether a tree
/// change is pending towards it.
#[derive(Copy, Clone, Debug)]
pub struct Seat {
    pub output: usize,
    pub x: i32,
    pub y: i32,
    pub focused: usize,
    pub last_tiled_toplevel: usize,
    pub tree_change_pending: bool,
    pub render_ctx_changed: bool,
}

/// Whether xwayland is enabled and whether its handler runs.
pub struct XWaylandState {
    pub enabled: bool,
    pub running: bool,
}

/// Idle tracking: whether input occurred since the last idle check and
/// whether the idle task was woken for it.
pub struct IdleState {
    pub input: bool,
    pub change_triggered: bool,
}

/// The connector the kernel reported for a device, as plain data.
#[derive(Copy, Clone, Debug)]
pub struct DeviceHandlerData {
    pub seat: usize,
    pub device: u64,
}

/// One input device the compositor handles.
#[derive(Copy, Clone, Debug)]
pub struct InputDeviceData {
    pub id: u64,
    pub data: DeviceHandlerData,
}

/// The state of an output entry in the connector lifecycle.
pub struct State {
    pub tree: Tree,
    pub globals: Registry,
    pub clients: Vec<Client>,
    pub seats: Vec<Seat>,
    /// Seat indices, most recently active last.
    pub seat_queue: Vec<usize>,
    pub connectors: Vec<ConnectorData>,
    pub outputs: Vec<OutputData>,
    /// Node index of the dummy output that carries orphaned workspaces.
    pub dummy_output: usize,
    /// Named workspaces: name to scene node, names unique.
    pub workspaces: Vec<(String, usize)>,
    pub input_device_handlers: std::collections::HashMap<u64, InputDeviceData>,
    pub theme: Theme,
    pub tree_changed_sent: bool,
    pub idle: IdleState,
    pub status: String,
    pub render_ctx: Option<crate::dmabuf::RenderCtx>,
    pub xwayland: XWaylandState,
}

/// The lifecycle state recorded for a connector id, `Disconnected` when the
/// id is unknown.
pub open spec fn conn_state_of(cs: Seq<ConnectorData>, id: u64) -> ConnState {
    if exists|k: int| 0 <= k < cs.len() && cs[k].id == id {
        cs[choose|k: int| 0 <= k < cs.len() && cs[k].id == id].state
    } else {
        ConnState::Disconnected
    }
}

/// Whether a connector id is known.
pub open spec fn conn_known(cs: Seq<ConnectorData>, id: u64) -> bool {
    exists|k: int| 0 <= k < cs.len() && cs[k].id == id
}

/// The output entry for a connector id, when one exists.
pub open spec fn output_of(outs: Seq<OutputData>, id: u64) -> Option<OutputData> {
    if exists|k: int| 0 <= k < outs.len() && outs[k].connector == id {
        Some(outs[choose|k: int| 0 <= k < outs.len() && outs[k].connector == id])
    } else {
        None
    }
}

/// The output side of the state invariant: every output entry names a live
/// non-dummy output node of its connector, carries an advertised `wl_output`
/// global, and its connector is known and connected; entries do not share
/// nodes, names or connectors; and every advertised `wl_output` global
/// belongs to an output entry.
#[verifier::opaque]
pub open spec fn outputs_wf(
    outs: Seq<OutputData>,
    globals: Seq<GlobalEntry>,
    cs: Seq<ConnectorData>,
    t: Tree,
) -> bool {
    &&& forall|k: int|
        #![trigger outs[k]]
        0 <= k < outs.len() ==> {
            &&& 0 < outs[k].node < t.n()
            &&& t.live(outs[k].node as int)
            &&& t.kind_of(outs[k].node as int) is Output
            &&& t.parent_of(outs[k].node as int) == 0
            &&& has_global(globals, outs[k].global_name)
            &&& global_named(globals, outs[k].global_name).interface == Interface::WlOutput
            &&& conn_state_of(cs, outs[k].connector) == ConnState::Connected
            &&& conn_known(cs, outs[k].connector)
        }
    &&& forall|k1: int, k2: int|
        #![trigger outs[k1], outs[k2]]
        0 <= k1 < k2 < outs.len() ==> outs[k1].node != outs[k2].node && outs[k1].global_name
            != outs[k2].global_name && outs[k1].connector != outs[k2].connector
    &&& forall|e: int|
        #![trigger globals[e]]
        0 <= e < globals.len() && globals[e].interface == Interface::WlOutput ==> exists|k: int|
            0 <= k < outs.len() && outs[k].global_name == globals[e].name
}

/// The workspace-map side of the invariant: every entry names a live
/// workspace node, and no name repeats.
#[verifier::opaque]
pub open spec fn workspaces_wf(ws: Seq<(String, usize)>, t: Tree) -> bool {
    &&& forall|k: int|
        #![trigger ws[k]]
        0 <= k < ws.len() ==> {
            &&& 0 < ws[k].1 < t.n()
            &&& t.live(ws[k].1 as int)
            &&& t.kind_of(ws[k].1 as int) is Workspace
        }
    &&& forall|k1: int, k2: int|
        #![trigger ws[k1], ws[k2]]
        0 <= k1 < k2 < ws.len() ==> ws[k1].0@ != ws[k2].0@ && ws[k1].1 != ws[k2].1
}

/// Every client satisfies its own invariant.
#[verifier::opaque]
pub open spec fn clients_wf(cs: Seq<Client>) -> bool {
    forall|i: int| 0 <= i < cs.len() ==> (#[trigger] cs[i]).inv()
}

/// Every seat sits on a live output node, and the activity queue indexes
/// real seats.
#[verifier::opaque]
pub open spec fn seats_wf(seats: Seq<Seat>, queue: Seq<usize>, t: Tree) -> bool {
    &&& forall|i: int|
        #![trigger seats[i]]
        0 <= i < seats.len() ==> {
            &&& 0 < seats[i].output < t.n()
            &&& t.live(seats[i].output as int)
            &&& t.kind_of(seats[i].output as int) is Output
        }
    &&& forall|i: int| 0 <= i < queue.len() ==> (#[trigger] queue[i]) < seats.len()
}

impl State {
    /// The compositor invariant.
    pub open spec fn wf(&self) -> bool {
        &&& self.tree.wf()
        &&& self.tree.n() < usize::MAX
        &&& self.globals.wf()
        &&& 0 < self.dummy_output < self.tree.n()
        &&& self.tree.live(self.dummy_output as int)
        &&& self.tree.kind_of(self.dummy_output as int) is Output
        &&& self.tree.parent_of(self.dummy_output as int) == 0
        &&& outputs_wf(self.outputs@, self.globals.entries@, self.connectors@, self.tree)
        &&& forall|k: int|
            0 <= k < self.outputs@.len() ==> (#[trigger] self.outputs@[k]).node
                != self.dummy_output
        &&& workspaces_wf(self.workspaces@, self.tree)
        &&& clients_wf(self.clients@)
        &&& seats_wf(self.seats@, self.seat_queue@, self.tree)
        &&& forall|k1: int, k2: int|
            #![trigger self.connectors@[k1], self.connectors@[k2]]
            0 <= k1 < k2 < self.connectors@.len() ==> self.connectors@[k1].id
                != self.connectors@[k2].id
    }

    /// A fresh compositor: an empty registry, no clients, no connectors, and
    /// a scene tree holding only the root and the dummy output.
    pub fn new() -> (r: Self)
        ensures
            r.wf(),
            r.outputs@.len() == 0,
            r.clients@.len() == 0,
            r.workspaces@.len() == 0,
            r.globals.entries@.len() == 0,
            !r.tree_changed_sent,
    {
        let mut tree = Tree::new();
        let dummy = tree.new_child(
            0,
            NodeKind::Output {
                connector: 0,
                is_dummy: true,
                x1: 0,
                y1: 0,
                width: 0,
                height: 0,
                current: NO_NODE,
            },
        );
        let r = State {
            tree,
            globals: Registry::new(),
            clients: Vec::new(),
            seats: Vec::new(),
            seat_queue: Vec::new(),
            connectors: Vec::new(),
            outputs: Vec::new(),
            dummy_output: dummy,
            workspaces: Vec::new(),
            input_device_handlers: std::collections::HashMap::new(),
            theme: Theme::default(),
            tree_changed_sent: false,
            idle: IdleState { input: false, change_triggered: false },
            status: String::new(),
            render_ctx: None,
            xwayland: XWaylandState { enabled: true, running: false },
        };
        proof {
            reveal(outputs_wf);
            reveal(workspaces_wf);
            reveal(clients_wf);
            reveal(seats_wf);
        }
        r
    }

    /// Queues one event towards every client.
    fn broadcast(&mut self, e: EventMsg)
        requires
            old(self).wf(),
            e.arg_bounds(),
        ensures
            final(self).wf(),
            final(self).clients@.len() == old(self).clients@.len(),
            forall|i: int|
                0 <= i < old(self).clients@.len() ==> (#[trigger] final(self).clients@[i]).evq@
                    == old(self).clients@[i].evq@.push(e) && final(self).clients@[i].objects@
                    == old(self).clients@[i].objects@,
            final(self).tree == old(self).tree,
            final(self).globals == old(self).globals,
            final(self).outputs@ == old(self).outputs@,
            final(self).connectors@ == old(self).connectors@,
            final(self).workspaces@ == old(self).workspaces@,
            final(self).seats@ == old(self).seats@,
            final(self).seat_queue@ == old(self).seat_queue@,
            final(self).dummy_output == old(self).dummy_output,
            final(self).tree_changed_sent == old(self).tree_changed_sent,
    {
        let mut i: usize = 0;
        proof {
            reveal(clients_wf);
        }
        while i < self.clients.len()
            invariant
                old(self).wf(),
                e.arg_bounds(),
                i <= self.clients@.len(),
                self.clients@.len() == old(self).clients@.len(),
                forall|j: int|
                    0 <= j < i ==> (#[trigger] self.clients@[j]).evq@ == old(
                        self,
                    ).clients@[j].evq@.push(e) && self.clients@[j].objects@ == old(
                        self,
                    ).clients@[j].objects@ && self.clients@[j].inv(),
                forall|j: int|
                    i <= j < self.clients@.len() ==> (#[trigger] self.clients@[j]) == old(
                        self,
                    ).clients@[j],
                self.tree == old(self).tree,
                self.globals == old(self).globals,
                self.outputs@ == old(self).outputs@,
                self.connectors@ == old(self).connectors@,
                self.workspaces@ == old(self).workspaces@,
                self.seats@ == old(self).seats@,
                self.seat_queue@ == old(self).seat_queue@,
                self.dummy_output == old(self).dummy_output,
                self.tree_changed_sent == old(self).tree_changed_sent,
                self.idle == old(self).idle,
                self.status == old(self).status,
                self.xwayland == old(self).xwayland,
                self.theme == old(self).theme,
                self.render_ctx == old(self).render_ctx,
                self.input_device_handlers == old(self).input_device_handlers,
            decreases self.clients@.len() - i,
        {
            proof {
                assert(old(self).clients@[i as int].inv()) by {
                    reveal(clients_wf);
                }
            }
            let c = &mut self.clients[i];
            c.event(e);
            i = i + 1;
        }
        proof {
            reveal(clients_wf);
            assert(self.wf()) by {
                reveal(outputs_wf);
                reveal(workspaces_wf);
                reveal(seats_wf);
            }
        }
    }

    /// Advertises a global of one of the fixed interfaces and tells every
    /// client. Outputs go through the connector lifecycle instead.
    pub fn add_global(&mut self, interface: Interface, version: u32, singleton: bool) -> (name:
        u32)
        requires
            old(self).wf(),
            old(self).globals.next_name < u32::MAX,
            interface != Interface::WlOutput,
        ensures
            final(self).wf(),
            final(self).globals.entries@ == old(self).globals.entries@.push(
                GlobalEntry { name, interface, version, singleton },
            ),
            final(self).clients@.len() == old(self).clients@.len(),
            forall|i: int|
                0 <= i < old(self).clients@.len() ==> (#[trigger] final(self).clients@[i]).evq@
                    == old(self).clients@[i].evq@.push(
                    EventMsg::GlobalAdded { name, interface, version },
                ),
    {
        let name = self.globals.add(interface, version, singleton);
        proof {
            assert(outputs_wf(
                self.outputs@,
                self.globals.entries@,
                self.connectors@,
                self.tree,
            )) by {
                reveal(outputs_wf);
                let pre = old(self).globals.entries@;
                let post = self.globals.entries@;
                assert forall|e: int|
                    0 <= e < post.len() && (#[trigger] post[e]).interface == Interface::WlOutput
                        implies exists|k: int|
                    0 <= k < self.outputs@.len() && self.outputs@[k].global_name
                        == post[e].name by {
                    assert(e < pre.len());
                    assert(post[e] == pre[e]);
                }
                assert forall|k: int|
                    0 <= k < self.outputs@.len() implies has_global(
                    post,
                    (#[trigger] self.outputs@[k]).global_name,
                ) && global_named(post, self.outputs@[k].global_name).interface
                    == Interface::WlOutput by {
                    let gn = self.outputs@[k].global_name;
                    assert(has_global(pre, gn));
                    let j = choose|j: int| 0 <= j < pre.len() && pre[j].name == gn;
                    assert(post[j].name == gn);
                    assert(has_global(post, gn));
                    assert(global_named(post, gn) == global_named(pre, gn)) by {
                        let a = choose|a: int| 0 <= a < post.len() && post[a].name == gn;
                        let b = choose|b: int| 0 <= b < pre.len() && pre[b].name == gn;
                        assert(post[a].name == gn && pre[b].name == gn);
                        assert(gn < old(self).globals.next_name);
                        assert(a != post.len() - 1);
                        assert(post[a] == pre[a]);
                        assert(a == b) by {
                            if a != b {
                                assert(pre[a].name == pre[b].name);
                            }
                        }
                    }
                }
            }
        }
        self.broadcast(EventMsg::GlobalAdded { name, interface, version });
        name
    }

    /// Withdraws a global that is not an output's and tells every client.
    pub fn remove_global(&mut self, name: u32) -> (r: Result<(), ()>)
        requires
            old(self).wf(),
            has_global(old(self).globals.entries@, name) ==> global_named(
                old(self).globals.entries@,
                name,
            ).interface != Interface::WlOutput,
        ensures
            final(self).wf(),
            r is Ok <==> has_global(old(self).globals.entries@, name),
            r is Ok ==> !has_global(final(self).globals.entries@, name),
            r is Err ==> final(self).globals.entries@ == old(self).globals.entries@
                && final(self).clients@ == old(self).clients@
                && final(self).tree == old(self).tree,
    {
        let removed = match self.globals.remove(name) {
            Ok(e) => e,
            Err(()) => {
                return Err(());
            },
        };
        proof {
            assert(outputs_wf(
                self.outputs@,
                self.globals.entries@,
                self.connectors@,
                self.tree,
            )) by {
                reveal(outputs_wf);
                let pre = old(self).globals.entries@;
                let post = self.globals.entries@;
                assert forall|e: int|
                    0 <= e < post.len() && (#[trigger] post[e]).interface == Interface::WlOutput
                        implies exists|k: int|
                    0 <= k < self.outputs@.len() && self.outputs@[k].global_name
                        == post[e].name by {
                    assert(has_global(post, post[e].name)) by {
                        assert(post[e].name == post[e].name);
                    }
                    assert(post[e].name != name);
                    assert(has_global(pre, post[e].name));
                    assert(global_named(pre, post[e].name) == global_named(post, post[e].name));
                    let b = choose|b: int| 0 <= b < pre.len() && pre[b].name == post[e].name;
                    assert(global_named(post, post[e].name) == post[e]) by {
                        let a = choose|a: int| 0 <= a < post.len() && post[a].name == post[e].name;
                        assert(post[a].name == post[e].name);
                        if a != e {
                            assert(false);
                        }
                    }
                    assert(pre[b].interface == Interface::WlOutput);
                }
                assert forall|k: int|
                    0 <= k < self.outputs@.len() implies has_global(
                    post,
                    (#[trigger] self.outputs@[k]).global_name,
                ) && global_named(post, self.outputs@[k].global_name).interface
                    == Interface::WlOutput by {
                    let gn = self.outputs@[k].global_name;
                    assert(has_global(pre, gn) && global_named(pre, gn).interface
                        == Interface::WlOutput);
                    assert(gn != name);
                }
            }
        }
        self.broadcast(EventMsg::GlobalRemoved { name });
        Ok(())
    }

    /// Raises `tree_changed` at most once per scheduler turn: the first call
    /// marks every seat, later ones do nothing until the flag is reset.
    pub fn tree_changed(&mut self)
        requires
            old(self).wf(),
        ensures
            final(self).wf(),
            final(self).tree_changed_sent,
            old(self).tree_changed_sent ==> *final(self) == *old(self),
            !old(self).tree_changed_sent ==> {
                &&& final(self).seats@.len() == old(self).seats@.len()
                &&& forall|i: int|
                    0 <= i < old(self).seats@.len() ==> (#[trigger] final(self).seats@[i])
                        == (Seat { tree_change_pending: true, ..old(self).seats@[i] })
            },
            final(self).tree == old(self).tree,
            final(self).outputs@ == old(self).outputs@,
            final(self).globals == old(self).globals,
            final(self).connectors@ == old(self).connectors@,
            final(self).workspaces@ == old(self).workspaces@,
            final(self).clients@ == old(self).clients@,
            final(self).seat_queue@ == old(self).seat_queue@,
            final(self).dummy_output == old(self).dummy_output,
    {
        if self.tree_changed_sent {
            return ;
        }
        self.tree_changed_sent = true;
        let mut i: usize = 0;
        while i < self.seats.len()
            invariant
                i <= self.seats@.len(),
                self.seats@.len() == old(self).seats@.len(),
                forall|j: int|
                    0 <= j < i ==> (#[trigger] self.seats@[j]) == (Seat {
                        tree_change_pending: true,
                        ..old(self).seats@[j]
                    }),
                forall|j: int|
                    i <= j < self.seats@.len() ==> (#[trigger] self.seats@[j]) == old(
                        self,
                    ).seats@[j],
                self.tree == old(self).tree,
                self.globals == old(self).globals,
                self.clients@ == old(self).clients@,
                self.outputs@ == old(self).outputs@,
                self.connectors@ == old(self).connectors@,
                self.workspaces@ == old(self).workspaces@,
                self.seat_queue@ == old(self).seat_queue@,
                self.dummy_output == old(self).dummy_output,
                self.tree_changed_sent,
            decreases self.seats@.len() - i,
        {
            let s = self.seats[i];
            self.seats[i] = Seat { tree_change_pending: true, ..s };
            i = i + 1;
        }
        proof {
            assert(self.wf()) by {
                reveal(outputs_wf);
                reveal(workspaces_wf);
                reveal(clients_wf);
                reveal(seats_wf);
            }
        }
    }

    /// Notes that input occurred; the idle machinery is woken only on the
    /// first input since the last idle check.
    pub fn input_occurred(&mut self)
        requires
            old(self).wf(),
        ensures
            final(self).wf(),
            final(self).idle.input,
            final(self).idle.change_triggered == (old(self).idle.change_triggered || !old(
                self,
            ).idle.input),
            final(self).tree == old(self).tree,
            final(self).clients@ == old(self).clients@,
    {
        let was = self.idle.input;
        self.idle.input = true;
        if !was {
            self.idle.change_triggered = true;
        }
    }

    /// Replaces the status line.
    pub fn set_status(&mut self, status: &str)
        requires
            old(self).wf(),
        ensures
            final(self).wf(),
            final(self).status@ == status@,
            final(self).tree == old(self).tree,
            final(self).clients@ == old(self).clients@,
    {
        self.status = status.to_owned();
    }

    /// Starts the xwayland handler when it is enabled and not yet running.
    pub fn start_xwayland(&mut self)
        requires
            old(self).wf(),
        ensures
            final(self).wf(),
            final(self).xwayland.running == (old(self).xwayland.running || old(
                self,
            ).xwayland.enabled),
            final(self).xwayland.enabled == old(self).xwayland.enabled,
            final(self).tree == old(self).tree,
    {
        if !self.xwayland.enabled {
            return ;
        }
        if !self.xwayland.running {
            self.xwayland.running = true;
        }
    }

    /// Installs the renderer context and marks every seat so it refreshes
    /// its cursors and render state.
    pub fn set_render_ctx(&mut self, ctx: crate::dmabuf::RenderCtx)
        requires
            old(self).wf(),
        ensures
            final(self).wf(),
            final(self).render_ctx == Some(ctx),
            final(self).seats@.len() == old(self).seats@.len(),
            forall|i: int|
                0 <= i < old(self).seats@.len() ==> (#[trigger] final(self).seats@[i]) == (Seat {
                    render_ctx_changed: true,
                    ..old(self).seats@[i]
                }),
            final(self).tree == old(self).tree,
            final(self).clients@ == old(self).clients@,
    {
        self.render_ctx = Some(ctx);
        let mut i: usize = 0;
        while i < self.seats.len()
            invariant
                i <= self.seats@.len(),
                self.seats@.len() == old(self).seats@.len(),
                forall|j: int|
                    0 <= j < i ==> (#[trigger] self.seats@[j]) == (Seat {
                        render_ctx_changed: true,
                        ..old(self).seats@[j]
                    }),
                forall|j: int|
                    i <= j < self.seats@.len() ==> (#[trigger] self.seats@[j]) == old(
                        self,
                    ).seats@[j],
                self.tree == old(self).tree,
                self.globals == old(self).globals,
                self.clients@ == old(self).clients@,
                self.outputs@ == old(self).outputs@,
                self.connectors@ == old(self).connectors@,
                self.workspaces@ == old(self).workspaces@,
                self.seat_queue@ == old(self).seat_queue@,
                self.dummy_output == old(self).dummy_output,
                self.render_ctx == Some(ctx),
            decreases self.seats@.len() - i,
        {
            let s = self.seats[i];
            self.seats[i] = Seat { render_ctx_changed: true, ..s };
            i = i + 1;
        }
        proof {
            assert(self.wf()) by {
                reveal(outputs_wf);
                reveal(workspaces_wf);
                reveal(clients_wf);
                reveal(seats_wf);
            }
        }
    }
}

/// The output-side invariant only reads liveness, parents and kind variants:
/// it survives any tree change that keeps those on the old nodes.
proof fn lemma_outputs_wf_frame(
    outs: Seq<OutputData>,
    globals: Seq<GlobalEntry>,
    cs: Seq<ConnectorData>,
    t0: Tree,
    t1: Tree,
)
    requires
        outputs_wf(outs, globals, cs, t0),
        tree_kinds_framed(t0, t1),
    ensures
        outputs_wf(outs, globals, cs, t1),
{
    reveal(outputs_wf);
    assert forall|k: int| 0 <= k < outs.len() implies {
        &&& 0 < (#[trigger] outs[k]).node < t1.n()
        &&& t1.live(outs[k].node as int)
        &&& t1.kind_of(outs[k].node as int) is Output
        &&& t1.parent_of(outs[k].node as int) == 0
        &&& has_global(globals, outs[k].global_name)
        &&& global_named(globals, outs[k].global_name).interface == Interface::WlOutput
        &&& conn_state_of(cs, outs[k].connector) == ConnState::Connected
        &&& conn_known(cs, outs[k].connector)
    } by {
        assert(frame_at(t0, t1, outs[k].node as int));
    }
}

/// The workspace-map invariant survives any tree change that keeps liveness
/// and kind variants on the old nodes.
proof fn lemma_workspaces_wf_frame(ws: Seq<(String, usize)>, t0: Tree, t1: Tree)
    requires
        workspaces_wf(ws, t0),
        tree_kinds_framed(t0, t1),
    ensures
        workspaces_wf(ws, t1),
{
    reveal(workspaces_wf);
    assert forall|k: int| 0 <= k < ws.len() implies {
        &&& 0 < (#[trigger] ws[k]).1 < t1.n()
        &&& t1.live(ws[k].1 as int)
        &&& t1.kind_of(ws[k].1 as int) is Workspace
    } by {
        assert(frame_at(t0, t1, ws[k].1 as int));
    }
}

/// The seat invariant survives any tree change that keeps liveness and kind
/// variants on the old nodes.
proof fn lemma_seats_wf_frame(seats: Seq<Seat>, queue: Seq<usize>, t0: Tree, t1: Tree)
    requires
        seats_wf(seats, queue, t0),
        tree_kinds_framed(t0, t1),
    ensures
        seats_wf(seats, queue, t1),
{
    reveal(seats_wf);
    assert forall|i: int| 0 <= i < seats.len() implies {
        &&& 0 < (#[trigger] seats[i]).output < t1.n()
        &&& t1.live(seats[i].output as int)
        &&& t1.kind_of(seats[i].output as int) is Output
    } by {
        assert(frame_at(t0, t1, seats[i].output as int));
    }
}

impl State {
    /// All four quantified parts of the invariant, for a tree change that
    /// kept liveness, parents and kind variants of the old nodes.
    proof fn frame_parts(pre: State, post: State)
        requires
            pre.wf(),
            post.outputs@ == pre.outputs@,
            post.globals.entries@ == pre.globals.entries@,
            post.connectors@ == pre.connectors@,
            post.workspaces@ == pre.workspaces@,
            post.clients@ == pre.clients@,
            post.seats@ == pre.seats@,
            post.seat_queue@ == pre.seat_queue@,
            post.tree.n() >= pre.tree.n(),
            forall|i: int|
                0 <= i < pre.tree.n() ==> post.tree.live(i) == pre.tree.live(i)
                    && post.tree.parent_of(i) == pre.tree.parent_of(i) && (post.tree.kind_of(
                    i,
                ) is Output <==> pre.tree.kind_of(i) is Output) && (post.tree.kind_of(
                    i,
                ) is Workspace <==> pre.tree.kind_of(i) is Workspace),
        ensures
            outputs_wf(post.outputs@, post.globals.entries@, post.connectors@, post.tree),
            workspaces_wf(post.workspaces@, post.tree),
            clients_wf(post.clients@),
            seats_wf(post.seats@, post.seat_queue@, post.tree),
    {
        lemma_outputs_wf_frame(
            pre.outputs@,
            pre.globals.entries@,
            pre.connectors@,
            pre.tree,
            post.tree,
        );
        lemma_workspaces_wf_frame(pre.workspaces@, pre.tree, post.tree);
        lemma_seats_wf_frame(pre.seats@, pre.seat_queue@, pre.tree, post.tree);
        assert(clients_wf(post.clients@)) by {
            reveal(clients_wf);
        }
    }

/// Where a freshly mapped tiled toplevel goes, before it is mapped:
    /// directly after the most recent seat's last tiled toplevel when that
    /// still sits in a container.
    pub open spec fn spec_tiled_sibling(&self) -> Option<(usize, usize)> {
        if self.seat_queue@.len() > 0 {
            let si = self.seat_queue@[self.seat_queue@.len() - 1] as int;
            let t = self.seats@[si].last_tiled_toplevel;
            let active = kind_current(self.tree.kind_of(self.seats@[si].output as int));
            if t != NO_NODE && t < self.tree.n() && self.tree.live(t as int) && self.tree.kind_of(
                t as int,
            ) is Toplevel && self.tree.kind_of(self.tree.parent_of(t as int)) is Container
                && active != NO_NODE && crate::tree::ws_above(
                self.tree,
                self.tree.parent_of(t as int),
                self.tree.n() as nat,
            ) == active {
                Some((self.tree.parent_of(t as int) as usize, t))
            } else {
                None
            }
        } else {
            None
        }
    }

    /// The output a tiled or floating map falls back to: the most recent
    /// seat's output, else the first connected output, else the dummy.
    pub open spec fn spec_target_output(&self) -> usize {
        if self.seat_queue@.len() > 0 {
            self.seats@[self.seat_queue@[self.seat_queue@.len() - 1] as int].output
        } else if self.outputs@.len() > 0 {
            self.outputs@[0].node
        } else {
            self.dummy_output
        }
    }

    /// The output whose current workspace receives a new floating window:
    /// the most recent seat's output when that is not the dummy, else the
    /// first connected output, else the dummy output.
    pub open spec fn spec_float_target(&self) -> usize {
        if self.seat_queue@.len() > 0 && !crate::tree::kind_is_dummy(
            self.tree.kind_of(
                self.seats@[self.seat_queue@[self.seat_queue@.len() - 1] as int].output as int,
            ),
        ) {
            self.seats@[self.seat_queue@[self.seat_queue@.len() - 1] as int].output
        } else if self.outputs@.len() > 0 {
            self.outputs@[0].node
        } else {
            self.dummy_output
        }
    }

    /// What appending a tiled toplevel on the output `out` does: the node
    /// joins the current workspace's first container, or a fresh horizontal
    /// container holding only the node is made, on a fresh workspace when the
    /// output had none.
    pub open spec fn tiled_append_ok(pre: State, post: State, out: int, node: usize) -> bool {
        let w = kind_current(pre.tree.kind_of(out)) as int;
        if kind_current(pre.tree.kind_of(out)) == NO_NODE {
            let ws = pre.tree.n();
            let c = pre.tree.n() + 1;
            &&& node as int == pre.tree.n() + 2
            &&& post.tree.n() == pre.tree.n() + 3
            &&& post.tree.kind_of(ws) is Workspace
            &&& post.tree.parent_of(ws) == out
            &&& kind_current(post.tree.kind_of(out)) as int == ws
            &&& post.tree.kind_of(c) == (NodeKind::Container { split: Axis::Horizontal })
            &&& post.tree.parent_of(c) == ws
            &&& post.tree.kids(ws) == seq![c as usize]
            &&& post.tree.parent_of(node as int) == c
            &&& post.tree.kids(c) == seq![node]
        } else if crate::tree::first_container(pre.tree, w) != NO_NODE {
            let c = crate::tree::first_container(pre.tree, w) as int;
            &&& node as int == pre.tree.n()
            &&& post.tree.n() == pre.tree.n() + 1
            &&& post.tree.parent_of(node as int) == c
            &&& post.tree.kids(c) == pre.tree.kids(c).push(node)
        } else {
            let c = pre.tree.n();
            &&& node as int == pre.tree.n() + 1
            &&& post.tree.n() == pre.tree.n() + 2
            &&& post.tree.kind_of(c) == (NodeKind::Container { split: Axis::Horizontal })
            &&& post.tree.parent_of(c) == w
            &&& post.tree.kids(w) == pre.tree.kids(w).push(c as usize)
            &&& post.tree.parent_of(node as int) == c
            &&& post.tree.kids(c) == seq![node]
        }
    }

    /// Maps one new tiled toplevel by the placement policy: next to the most
    /// recent seat's last tiled toplevel when that sits in a container of the
    /// seat's active workspace, else appended to the target output
    /// workspace's first container, a fresh horizontal container wrapping it
    /// when the workspace had none.
    #[verifier::rlimit(100)]
    #[verifier::spinoff_prover]
    pub fn map_tiled(&mut self) -> (node: usize)
        requires
            old(self).wf(),
            old(self).tree.n() + 3 < usize::MAX,
        ensures
            final(self).wf(),
            0 < node < final(self).tree.n(),
            final(self).tree.live(node as int),
            final(self).tree.kind_of(node as int) is Toplevel,
            final(self).tree.kind_of(final(self).tree.parent_of(node as int)) is Container,
            old(self).spec_tiled_sibling() is Some ==> {
                let ct = old(self).spec_tiled_sibling()->Some_0;
                &&& node as int == old(self).tree.n()
                &&& final(self).tree.parent_of(node as int) == ct.0 as int
                &&& exists|j: int|
                    0 <= j < old(self).tree.kids(ct.0 as int).len() && old(self).tree.kids(
                        ct.0 as int,
                    )[j] == ct.1 && final(self).tree.kids(ct.0 as int) == old(self).tree.kids(
                        ct.0 as int,
                    ).insert(j + 1, node)
            },
            old(self).spec_tiled_sibling() is None ==> Self::tiled_append_ok(
                *old(self),
                *final(self),
                old(self).spec_target_output() as int,
                node,
            ),
            final(self).outputs@ == old(self).outputs@,
            final(self).globals == old(self).globals,
            final(self).connectors@ == old(self).connectors@,
            final(self).workspaces@ == old(self).workspaces@,
            final(self).clients@ == old(self).clients@,
            final(self).seats@ == old(self).seats@,
            final(self).seat_queue@ == old(self).seat_queue@,
    {
        proof {
            reveal(seats_wf);
        }
        if self.seat_queue.len() > 0 {
            let si = self.seat_queue[self.seat_queue.len() - 1];
            let t = self.seats[si].last_tiled_toplevel;
            let sout = self.seats[si].output;
            let active = match self.tree.nodes[sout].kind {
                NodeKind::Output { current, .. } => current,
                _ => NO_NODE,
            };
            if t != NO_NODE && t < self.tree.nodes.len() {
                let tl = self.tree.nodes[t].live;
                let is_tl = match self.tree.nodes[t].kind {
                    NodeKind::Toplevel => true,
                    _ => false,
                };
                if tl && is_tl {
                    let p = self.tree.nodes[t].parent;
                    proof {
                        reveal(crate::tree::Tree::wf_parents);
                    }
                    let in_container = match self.tree.nodes[p].kind {
                        NodeKind::Container { .. } => true,
                        _ => false,
                    };
                    if in_container {
                        let wsc = self.tree.workspace_of(p);
                        if active != NO_NODE && wsc == active {
                            proof {
                                assert(old(self).spec_tiled_sibling() == Some((p, t)));
                            }
                            let node = self.map_tiled_after(p, t);
                            proof {
                                let j = choose|j: int|
                                    0 <= j < old(self).tree.kids(p as int).len() && old(
                                        self,
                                    ).tree.kids(p as int)[j] == t && self.tree.kids(p as int)
                                        == old(self).tree.kids(p as int).insert(j + 1, node);
                                assert(0 <= j < old(self).tree.kids(p as int).len() && old(
                                    self,
                                ).tree.kids(p as int)[j] == t && self.tree.kids(p as int) == old(
                                    self,
                                ).tree.kids(p as int).insert(j + 1, node));
                            }
                            return node;
                        }
                        proof {
                            assert(old(self).spec_tiled_sibling() is None);
                        }
                    }
                }
            }
        }
        let output = if self.seat_queue.len() > 0 {
            let si = self.seat_queue[self.seat_queue.len() - 1];
            self.seats[si].output
        } else if self.outputs.len() > 0 {
            proof {
                reveal(outputs_wf);
            }
            self.outputs[0].node
        } else {
            self.dummy_output
        };
        proof {
            assert(output as int == old(self).spec_target_output() as int);
        }
        self.map_tiled_append(output)
    }

    /// Inserts one new tiled toplevel directly after the sibling `t` in the
    /// container `p`.
    #[verifier::rlimit(100)]
    #[verifier::spinoff_prover]
    pub fn map_tiled_after(&mut self, p: usize, t: usize) -> (node: usize)
        requires
            old(self).wf(),
            old(self).tree.n() + 1 < usize::MAX,
            0 < t < old(self).tree.n(),
            old(self).tree.live(t as int),
            old(self).tree.kind_of(t as int) is Toplevel,
            p as int == old(self).tree.parent_of(t as int),
            old(self).tree.kind_of(p as int) is Container,
        ensures
            final(self).wf(),
            node as int == old(self).tree.n(),
            final(self).tree.n() == old(self).tree.n() + 1,
            final(self).tree.live(node as int),
            final(self).tree.kind_of(node as int) is Toplevel,
            final(self).tree.parent_of(node as int) == p as int,
            final(self).tree.kind_of(final(self).tree.parent_of(node as int)) is Container,
            exists|j: int|
                0 <= j < old(self).tree.kids(p as int).len() && old(self).tree.kids(p as int)[j]
                    == t && final(self).tree.kids(p as int) == old(self).tree.kids(
                    p as int,
                ).insert(j + 1, node),
            final(self).outputs@ == old(self).outputs@,
            final(self).globals == old(self).globals,
            final(self).connectors@ == old(self).connectors@,
            final(self).workspaces@ == old(self).workspaces@,
            final(self).clients@ == old(self).clients@,
            final(self).seats@ == old(self).seats@,
            final(self).seat_queue@ == old(self).seat_queue@,
    {
        proof {
            reveal(crate::tree::Tree::wf_parents);
        }
        let j = self.tree.child_pos(p, t);
        let kl = self.tree.nodes[p].children.len();
        proof {
            assert(j < kl);
        }
        let node = self.tree.new_child_at(p, j + 1, NodeKind::Toplevel);
        proof {
            Self::frame_parts(*old(self), *self);
        }
        node
    }

    /// Appends one new tiled toplevel on the output's workspace: into the
    /// workspace's first container, or into a fresh horizontal container.
    #[verifier::rlimit(100)]
    #[verifier::spinoff_prover]
    fn map_tiled_append(&mut self, output: usize) -> (node: usize)
        requires
            old(self).wf(),
            0 < output < old(self).tree.n(),
            old(self).tree.live(output as int),
            old(self).tree.kind_of(output as int) is Output,
            old(self).tree.n() + 3 < usize::MAX,
        ensures
            final(self).wf(),
            0 < node < final(self).tree.n(),
            final(self).tree.live(node as int),
            final(self).tree.kind_of(node as int) is Toplevel,
            final(self).tree.kind_of(final(self).tree.parent_of(node as int)) is Container,
            Self::tiled_append_ok(*old(self), *final(self), output as int, node),
            final(self).outputs@ == old(self).outputs@,
            final(self).globals == old(self).globals,
            final(self).connectors@ == old(self).connectors@,
            final(self).workspaces@ == old(self).workspaces@,
            final(self).clients@ == old(self).clients@,
            final(self).seats@ == old(self).seats@,
            final(self).seat_queue@ == old(self).seat_queue@,
    {
        let w = self.ensure_workspace(output);
        let ghost mid1 = *self;
        let mut j: usize = 0;
        let wkids_len = self.tree.nodes[w].children.len();
        proof {
            assert(self.tree.kids(w as int).skip(0) =~= self.tree.kids(w as int));
        }
        while j < wkids_len
            invariant
                *self == mid1,
                mid1.wf(),
                old(self).wf(),
                0 < output < old(self).tree.n(),
                old(self).tree.kind_of(output as int) is Output,
                mid1.tree.n() >= old(self).tree.n(),
                mid1.tree.n() < usize::MAX,
                mid1.tree.kind_of(output as int) is Output,
                mid1.tree.live(output as int) == old(self).tree.live(output as int),
                mid1.tree.parent_of(output as int) == old(self).tree.parent_of(output as int),
                forall|i: int|
                    0 <= i < old(self).tree.n() && i != output ==> mid1.tree.live(i) == old(
                        self,
                    ).tree.live(i) && mid1.tree.kind_of(i) == old(self).tree.kind_of(i)
                        && mid1.tree.parent_of(i) == old(self).tree.parent_of(i),
                mid1.outputs@ == old(self).outputs@,
                mid1.globals == old(self).globals,
                mid1.connectors@ == old(self).connectors@,
                mid1.workspaces@ == old(self).workspaces@,
                mid1.clients@ == old(self).clients@,
                mid1.seats@ == old(self).seats@,
                mid1.seat_queue@ == old(self).seat_queue@,
                mid1.dummy_output == old(self).dummy_output,
                mid1.tree.n() <= old(self).tree.n() + 1,
                old(self).tree.n() + 3 < usize::MAX,
                w as int == kind_current(mid1.tree.kind_of(output as int)) as int,
                kind_current(old(self).tree.kind_of(output as int)) != NO_NODE ==> w
                    == kind_current(old(self).tree.kind_of(output as int)) && mid1.tree == old(
                    self,
                ).tree,
                kind_current(old(self).tree.kind_of(output as int)) == NO_NODE ==> w as int == old(
                    self,
                ).tree.n() && mid1.tree.n() == old(self).tree.n() + 1 && mid1.tree.kids(
                    w as int,
                ).len() == 0,
                0 < w < self.tree.n(),
                self.tree.live(w as int),
                self.tree.kind_of(w as int) is Workspace,
                wkids_len == self.tree.kids(w as int).len(),
                j <= wkids_len,
                crate::tree::first_container(mid1.tree, w as int)
                    == crate::tree::first_container_in(
                    mid1.tree,
                    mid1.tree.kids(w as int).skip(j as int),
                ),
            decreases wkids_len - j,
        {
            let ghost suffix = self.tree.kids(w as int).skip(j as int);
            proof {
                assert(suffix[0] == self.tree.kids(w as int)[j as int]);
                assert(suffix.skip(1) =~= self.tree.kids(w as int).skip(j as int + 1));
            }
            let c = self.tree.nodes[w].children[j];
            proof {
                reveal(crate::tree::Tree::wf_children);
            }
            let is_cont = match self.tree.nodes[c].kind {
                NodeKind::Container { .. } => true,
                _ => false,
            };
            if is_cont {
                proof {
                    assert(crate::tree::first_container(mid1.tree, w as int) == c);
                    assert(kind_current(old(self).tree.kind_of(output as int)) != NO_NODE) by {
                        if kind_current(old(self).tree.kind_of(output as int)) == NO_NODE {
                            assert(mid1.tree.kids(w as int).len() == 0);
                        }
                    }
                    assert(crate::tree::first_container(old(self).tree, w as int) == c);
                }
                let node = self.tree.new_child(c, NodeKind::Toplevel);
                proof {
                    Self::chain_frame(*old(self), mid1, *self, output);
                }
                return node;
            }
            j = j + 1;
        }
        proof {
            assert(self.tree.kids(w as int).skip(wkids_len as int) =~= Seq::<usize>::empty());
            assert(crate::tree::first_container(mid1.tree, w as int) == NO_NODE);
            if kind_current(old(self).tree.kind_of(output as int)) != NO_NODE {
                assert(crate::tree::first_container(old(self).tree, w as int) == NO_NODE);
            }
        }
        let c = self.tree.new_child(w, NodeKind::Container { split: Axis::Horizontal });
        let node = self.tree.new_child(c, NodeKind::Toplevel);
        proof {
            Self::chain_frame(*old(self), mid1, *self, output);
            assert(self.tree.kids(c as int) =~= seq![node]);
            if kind_current(old(self).tree.kind_of(output as int)) == NO_NODE {
                assert(self.tree.kids(w as int) =~= seq![c]);
            }
        }
        node
    }

    /// Chains the frame across `ensure_workspace` (pre to mid) and later
    /// child insertions (mid to post) to recover the whole invariant.
    proof fn chain_frame(pre: State, mid: State, post: State, output: usize)
        requires
            pre.wf(),
            0 <= output < pre.tree.n(),
            mid.tree.n() >= pre.tree.n(),
            pre.tree.kind_of(output as int) is Output,
            mid.tree.kind_of(output as int) is Output,
            forall|i: int|
                0 <= i < pre.tree.n() && i != output ==> mid.tree.live(i) == pre.tree.live(i)
                    && mid.tree.kind_of(i) == pre.tree.kind_of(i) && mid.tree.parent_of(i)
                    == pre.tree.parent_of(i),
            mid.tree.live(output as int) == pre.tree.live(output as int),
            mid.tree.parent_of(output as int) == pre.tree.parent_of(output as int),
            post.tree.n() >= mid.tree.n(),
            forall|i: int|
                0 <= i < mid.tree.n() ==> post.tree.live(i) == mid.tree.live(i)
                    && post.tree.kind_of(i) == mid.tree.kind_of(i) && post.tree.parent_of(i)
                    == mid.tree.parent_of(i),
            post.outputs@ == pre.outputs@,
            post.globals.entries@ == pre.globals.entries@,
            post.connectors@ == pre.connectors@,
            post.workspaces@ == pre.workspaces@,
            post.clients@ == pre.clients@,
            post.seats@ == pre.seats@,
            post.seat_queue@ == pre.seat_queue@,
        ensures
            outputs_wf(post.outputs@, post.globals.entries@, post.connectors@, post.tree),
            workspaces_wf(post.workspaces@, post.tree),
            clients_wf(post.clients@),
            seats_wf(post.seats@, post.seat_queue@, post.tree),
    {
        assert forall|i: int|
            0 <= i < pre.tree.n() implies post.tree.live(i) == pre.tree.live(i)
            && post.tree.parent_of(i) == pre.tree.parent_of(i) && (post.tree.kind_of(
            i,
        ) is Output <==> pre.tree.kind_of(i) is Output) && (post.tree.kind_of(
            i,
        ) is Workspace <==> pre.tree.kind_of(i) is Workspace) by {}
        lemma_outputs_wf_frame(
            pre.outputs@,
            pre.globals.entries@,
            pre.connectors@,
            pre.tree,
            post.tree,
        );
        lemma_workspaces_wf_frame(pre.workspaces@, pre.tree, post.tree);
        lemma_seats_wf_frame(pre.seats@, pre.seat_queue@, pre.tree, post.tree);
        assert(clients_wf(post.clients@)) by {
            reveal(clients_wf);
        }
    }

    /// The workspace a new floating window goes to: the most recent seat's
    /// output when it is not the dummy, else the first output, else the
    /// dummy output; always that output's current workspace.
    pub fn float_map_ws(&mut self) -> (w: usize)
        requires
            old(self).wf(),
            old(self).tree.n() + 1 < usize::MAX,
        ensures
            final(self).wf(),
            0 < w < final(self).tree.n(),
            final(self).tree.live(w as int),
            final(self).tree.kind_of(w as int) is Workspace,
            final(self).tree.parent_of(w as int) == old(self).spec_float_target() as int,
            kind_current(final(self).tree.kind_of(old(self).spec_float_target() as int)) == w,
            final(self).outputs@ == old(self).outputs@,
            final(self).globals == old(self).globals,
            final(self).connectors@ == old(self).connectors@,
            final(self).workspaces@ == old(self).workspaces@,
            final(self).clients@ == old(self).clients@,
    {
        proof {
            reveal(seats_wf);
            reveal(outputs_wf);
        }
        if self.seat_queue.len() > 0 {
            let si = self.seat_queue[self.seat_queue.len() - 1];
            let output = self.seats[si].output;
            let dummy = match self.tree.nodes[output].kind {
                NodeKind::Output { is_dummy, .. } => is_dummy,
                _ => false,
            };
            if !dummy {
                return self.ensure_workspace(output);
            }
        }
        if self.outputs.len() > 0 {
            let output = self.outputs[0].node;
            return self.ensure_workspace(output);
        }
        let d = self.dummy_output;
        self.ensure_workspace(d)
    }

/// Registers a fresh connector in the `Disconnected` state. A known id
    /// is left as it is.
    pub fn new_connector(&mut self, id: u64, name: String) -> (r: bool)
        requires
            old(self).wf(),
        ensures
            final(self).wf(),
            r == !conn_known(old(self).connectors@, id),
            conn_known(final(self).connectors@, id),
            r ==> conn_state_of(final(self).connectors@, id) == ConnState::Disconnected,
            !r ==> final(self).connectors@ == old(self).connectors@,
            final(self).outputs@ == old(self).outputs@,
            final(self).tree == old(self).tree,
            final(self).globals == old(self).globals,
            final(self).clients@ == old(self).clients@,
            final(self).workspaces@ == old(self).workspaces@,
    {
        let mut k: usize = 0;
        while k < self.connectors.len()
            invariant
                old(self).wf(),
                k <= self.connectors@.len(),
                forall|j: int| 0 <= j < k ==> (#[trigger] self.connectors@[j]).id != id,
                *self == *old(self),
            decreases self.connectors@.len() - k,
        {
            if self.connectors[k].id == id {
                proof {
                    assert(conn_known(self.connectors@, id));
                }
                return false;
            }
            k = k + 1;
        }
        proof {
            if conn_known(self.connectors@, id) {
                let j = choose|j: int|
                    0 <= j < self.connectors@.len() && self.connectors@[j].id == id;
                assert(false);
            }
        }
        self.connectors.push(ConnectorData { id, state: ConnState::Disconnected, name });
        proof {
            let post = self.connectors@;
            let pre = old(self).connectors@;
            assert(post[post.len() - 1].id == id);
            assert(conn_known(post, id));
            lemma_conn_frame(pre, post, id);
            assert(conn_state_of(post, id) == ConnState::Disconnected) by {
                let j = choose|j: int| 0 <= j < post.len() && post[j].id == id;
                assert(post[j].id == id);
                if j < post.len() - 1 {
                    assert(pre[j].id == id);
                    assert(false);
                }
            }
            assert(self.wf()) by {
                reveal(outputs_wf);
                reveal(workspaces_wf);
                reveal(clients_wf);
                reveal(seats_wf);
            }
        }
        true
    }

    /// A connector reported a monitor: a `wl_output` global is advertised to
    /// every client, an output node enters the scene at the right end of the
    /// existing outputs, and the first output centers every seat on itself.
    #[verifier::rlimit(100)]
    #[verifier::spinoff_prover]
    pub fn connector_connected(&mut self, id: u64, width: i32, height: i32) -> (r: (usize, u32))
        requires
            old(self).wf(),
            conn_known(old(self).connectors@, id),
            conn_state_of(old(self).connectors@, id) == ConnState::Disconnected,
            old(self).globals.next_name < u32::MAX,
            old(self).tree.n() + 1 < usize::MAX,
            0 < width <= 0x10000,
            0 < height <= 0x10000,
            spec_outputs_max_x2(old(self).outputs@, old(self).tree) + width <= i32::MAX,
            0 <= spec_outputs_max_x2(old(self).outputs@, old(self).tree),
        ensures
            final(self).wf(),
            conn_state_of(final(self).connectors@, id) == ConnState::Connected,
            final(self).outputs@ == old(self).outputs@.push(
                OutputData { connector: id, node: r.0, global_name: r.1 },
            ),
            final(self).tree.live(r.0 as int),
            final(self).tree.kind_of(r.0 as int) == (NodeKind::Output {
                connector: id,
                is_dummy: false,
                x1: spec_outputs_max_x2(old(self).outputs@, old(self).tree) as i32,
                y1: 0,
                width,
                height,
                current: NO_NODE,
            }),
            has_global(final(self).globals.entries@, r.1),
            global_named(final(self).globals.entries@, r.1).interface == Interface::WlOutput,
            final(self).clients@.len() == old(self).clients@.len(),
            forall|i: int|
                0 <= i < old(self).clients@.len() ==> (#[trigger] final(self).clients@[i]).evq@
                    == old(self).clients@[i].evq@.push(
                    EventMsg::GlobalAdded { name: r.1, interface: Interface::WlOutput, version: 4 },
                ),
            final(self).workspaces@ == old(self).workspaces@,
            final(self).seats@.len() == old(self).seats@.len(),
            old(self).outputs@.len() == 0 ==> forall|i: int|
                0 <= i < old(self).seats@.len() ==> (#[trigger] final(self).seats@[i]) == (Seat {
                    x: (width / 2) as i32,
                    y: (height / 2) as i32,
                    ..old(self).seats@[i]
                }),
            old(self).outputs@.len() > 0 ==> final(self).seats@ == old(self).seats@,
    {
        let mut k: usize = 0;
        let ghost pre_conn = self.connectors@;
        while k < self.connectors.len()
            invariant
                old(self).wf(),
                conn_known(pre_conn, id),
                k <= self.connectors@.len(),
                pre_conn == old(self).connectors@,
                self.connectors@.len() == pre_conn.len(),
                forall|j: int| k <= j < pre_conn.len() ==> self.connectors@[j] == pre_conn[j],
                forall|j: int|
                    0 <= j < k ==> (#[trigger] self.connectors@[j]) == (if pre_conn[j].id == id {
                        ConnectorData {
                            id: pre_conn[j].id,
                            state: ConnState::Connected,
                            name: pre_conn[j].name,
                        }
                    } else {
                        pre_conn[j]
                    }),
                self.tree == old(self).tree,
                self.globals == old(self).globals,
                self.outputs@ == old(self).outputs@,
                self.clients@ == old(self).clients@,
                self.seats@ == old(self).seats@,
                self.seat_queue@ == old(self).seat_queue@,
                self.workspaces@ == old(self).workspaces@,
                self.dummy_output == old(self).dummy_output,
            decreases self.connectors@.len() - k,
        {
            if self.connectors[k].id == id {
                let nm = &mut self.connectors[k];
                nm.state = ConnState::Connected;
            }
            k = k + 1;
        }
        proof {
            lemma_conn_mark(pre_conn, self.connectors@, id, ConnState::Connected, *old(self));
        }
        proof {
            reveal(outputs_wf);
        }
        let x1 = Self::outputs_max_x2(&self.outputs, &self.tree);
        let name = self.globals.add(Interface::WlOutput, 4, false);
        let node = self.tree.new_child(
            0,
            NodeKind::Output {
                connector: id,
                is_dummy: false,
                x1,
                y1: 0,
                width,
                height,
                current: NO_NODE,
            },
        );
        self.outputs.push(OutputData { connector: id, node, global_name: name });
        proof {
            let outs0 = old(self).outputs@;
            let outs1 = self.outputs@;
            let g0 = old(self).globals.entries@;
            let g1 = self.globals.entries@;
            let cs1 = self.connectors@;
            assert forall|kk: int|
                0 <= kk < outs0.len() implies (#[trigger] outs0[kk]).global_name != name by {
                reveal(outputs_wf);
                assert(has_global(g0, outs0[kk].global_name));
                let j = choose|j: int| 0 <= j < g0.len() && g0[j].name == outs0[kk].global_name;
                assert(g0[j].name < old(self).globals.next_name);
            }
            assert(outputs_wf(self.outputs@, self.globals.entries@, cs1, self.tree)) by {
                reveal(outputs_wf);
                lemma_globals_grow(outs0, g0, g1, old(self).connectors@, old(self).tree, name);
                assert forall|kk: int| 0 <= kk < outs1.len() implies {
                    &&& 0 < (#[trigger] outs1[kk]).node < self.tree.n()
                    &&& self.tree.live(outs1[kk].node as int)
                    &&& self.tree.kind_of(outs1[kk].node as int) is Output
                    &&& self.tree.parent_of(outs1[kk].node as int) == 0
                    &&& has_global(g1, outs1[kk].global_name)
                    &&& global_named(g1, outs1[kk].global_name).interface == Interface::WlOutput
                    &&& conn_state_of(cs1, outs1[kk].connector) == ConnState::Connected
                    &&& conn_known(cs1, outs1[kk].connector)
                } by {
                    if kk < outs0.len() {
                        assert(outs1[kk] == outs0[kk]);
                        assert(conn_state_of(old(self).connectors@, outs0[kk].connector)
                            == ConnState::Connected);
                        assert(outs0[kk].connector != id);
                        assert(conn_known(old(self).connectors@, outs0[kk].connector));
                    } else {
                        assert(outs1[kk].node == node);
                    }
                }
                assert forall|k1: int, k2: int|
                    0 <= k1 < k2 < outs1.len() implies (#[trigger] outs1[k1]).node != (
                #[trigger] outs1[k2]).node && outs1[k1].global_name != outs1[k2].global_name
                    && outs1[k1].connector != outs1[k2].connector by {
                    if k2 == outs1.len() - 1 {
                        assert(outs1[k1] == outs0[k1]);
                        assert(outs0[k1].node < old(self).tree.n());
                        assert(outs0[k1].global_name != name);
                        assert(conn_state_of(old(self).connectors@, outs0[k1].connector)
                            == ConnState::Connected);
                    }
                }
                assert forall|e: int|
                    0 <= e < g1.len() && (#[trigger] g1[e]).interface == Interface::WlOutput
                        implies exists|kk: int|
                    0 <= kk < outs1.len() && outs1[kk].global_name == g1[e].name by {
                    if e < g0.len() {
                        assert(g1[e] == g0[e]);
                        let kk = choose|kk: int|
                            0 <= kk < outs0.len() && outs0[kk].global_name == g0[e].name;
                        assert(outs1[kk].global_name == g1[e].name);
                    } else {
                        assert(outs1[outs1.len() - 1].global_name == name);
                    }
                }
            }
            assert(self.wf()) by {
                reveal(workspaces_wf);
                reveal(clients_wf);
                reveal(seats_wf);
                lemma_workspaces_wf_frame(old(self).workspaces@, old(self).tree, self.tree);
                lemma_seats_wf_frame(
                    old(self).seats@,
                    old(self).seat_queue@,
                    old(self).tree,
                    self.tree,
                );
            }
        }
        if self.outputs.len() == 1 {
            let cx = x1 + width / 2;
            let cy = height / 2;
            let ghost mid3 = *self;
            let mut si: usize = 0;
            while si < self.seats.len()
                invariant
                    mid3.wf(),
                    si <= self.seats@.len(),
                    self.seats@.len() == mid3.seats@.len(),
                    forall|j: int|
                        0 <= j < si ==> (#[trigger] self.seats@[j]) == (Seat {
                            x: cx,
                            y: cy,
                            ..mid3.seats@[j]
                        }),
                    forall|j: int| si <= j < mid3.seats@.len() ==> self.seats@[j] == mid3.seats@[j],
                    self.tree == mid3.tree,
                    self.globals == mid3.globals,
                    self.outputs@ == mid3.outputs@,
                    self.connectors@ == mid3.connectors@,
                    self.workspaces@ == mid3.workspaces@,
                    self.clients@ == mid3.clients@,
                    self.seat_queue@ == mid3.seat_queue@,
                    self.dummy_output == mid3.dummy_output,
                decreases self.seats@.len() - si,
            {
                let se = self.seats[si];
                self.seats[si] = Seat { x: cx, y: cy, ..se };
                si = si + 1;
            }
            proof {
                assert(self.wf()) by {
                    reveal(outputs_wf);
                    reveal(workspaces_wf);
                    reveal(clients_wf);
                    reveal(seats_wf);
                    assert(seats_wf(self.seats@, self.seat_queue@, self.tree)) by {
                        assert forall|i: int|
                            0 <= i < self.seats@.len() implies {
                            &&& 0 < (#[trigger] self.seats@[i]).output < self.tree.n()
                            &&& self.tree.live(self.seats@[i].output as int)
                            &&& self.tree.kind_of(self.seats@[i].output as int) is Output
                        } by {
                            assert(self.seats@[i].output == mid3.seats@[i].output);
                            assert(seats_wf(mid3.seats@, mid3.seat_queue@, mid3.tree));
                        }
                    }
                }
            }
        }
        self.broadcast(EventMsg::GlobalAdded { name, interface: Interface::WlOutput, version: 4 });
        (node, name)
    }

    /// The right edge of the rightmost output, zero without outputs.
    fn outputs_max_x2(outputs: &Vec<OutputData>, tree: &Tree) -> (r: i32)
        requires
            forall|k: int|
                0 <= k < outputs@.len() ==> (#[trigger] outputs@[k]).node < tree.n(),
            0 <= spec_outputs_max_x2(outputs@, *tree),
            spec_outputs_max_x2(outputs@, *tree) <= i32::MAX,
        ensures
            r == spec_outputs_max_x2(outputs@, *tree),
    {
        let mut best: i64 = 0;
        let mut k: usize = 0;
        proof {
            assert(outputs@.skip(0) =~= outputs@);
        }
        while k < outputs.len()
            invariant
                forall|kk: int|
                    0 <= kk < outputs@.len() ==> (#[trigger] outputs@[kk]).node < tree.n(),
                k <= outputs@.len(),
                -0x1_0000_0000 <= best <= 0x1_0000_0000,
                spec_outputs_max_x2(outputs@, *tree) == spec_max_x2_from(
                    outputs@.skip(k as int),
                    *tree,
                    best as int,
                ),
            decreases outputs@.len() - k,
        {
            let ghost suffix = outputs@.skip(k as int);
            proof {
                assert(suffix[0] == outputs@[k as int]);
                assert(suffix.skip(1) =~= outputs@.skip(k as int + 1));
            }
            let n = outputs[k].node;
            let (ox, ow) = match tree.nodes[n].kind {
                NodeKind::Output { x1, width, .. } => (x1, width),
                _ => (0i32, 0i32),
            };
            let x2: i64 = ox as i64 + ow as i64;
            if x2 > best {
                best = x2;
            }
            k = k + 1;
        }
        proof {
            assert(outputs@.skip(outputs@.len() as int) =~= Seq::<OutputData>::empty());
        }
        best as i32
    }

/// Maps one new floating window of the given content size on a
    /// workspace: the size is padded by the borders and the title, centered
    /// within the workspace's output rectangle, and clamped to its extent.
    #[verifier::rlimit(100)]
    #[verifier::spinoff_prover]
    pub fn map_floating(&mut self, width: i32, height: i32, workspace: usize) -> (r: (usize, usize))
        requires
            old(self).wf(),
            old(self).theme.wf(),
            0 < workspace < old(self).tree.n(),
            old(self).tree.live(workspace as int),
            old(self).tree.kind_of(workspace as int) is Workspace,
            0 <= width <= 0x100000,
            0 <= height <= 0x100000,
            ({
                let o = old(self).tree.kind_of(old(self).tree.parent_of(workspace as int));
                match o {
                    NodeKind::Output { x1, y1, width, height, .. } => -0x100000 <= x1 <= 0x100000
                        && -0x100000 <= y1 <= 0x100000 && 0 <= width <= 0x100000 && 0 <= height
                        <= 0x100000,
                    _ => false,
                }
            }),
            old(self).tree.n() + 2 < usize::MAX,
        ensures
            final(self).wf(),
            final(self).tree.live(r.0 as int),
            final(self).tree.kind_of(r.0 as int) == spec_float_kind(
                width as int,
                height as int,
                old(self).theme.border_width as int,
                old(self).theme.title_height as int,
                old(self).tree.kind_of(old(self).tree.parent_of(workspace as int)),
            ),
            final(self).tree.parent_of(r.0 as int) == workspace as int,
            final(self).tree.live(r.1 as int),
            final(self).tree.kind_of(r.1 as int) is Toplevel,
            final(self).tree.parent_of(r.1 as int) == r.0 as int,
            r.0 as int == old(self).tree.n(),
            r.1 as int == old(self).tree.n() + 1,
            final(self).tree.n() == old(self).tree.n() + 2,
            final(self).tree.kids(workspace as int) == old(self).tree.kids(
                workspace as int,
            ).push(r.0),
            final(self).tree.kids(r.0 as int) == seq![r.1],
            forall|i: int|
                0 <= i < old(self).tree.n() ==> final(self).tree.live(i) == old(
                    self,
                ).tree.live(i) && final(self).tree.kind_of(i) == old(self).tree.kind_of(i)
                    && final(self).tree.parent_of(i) == old(self).tree.parent_of(i),
            forall|i: int|
                0 <= i < old(self).tree.n() && i != workspace ==> final(self).tree.kids(i) == old(
                    self,
                ).tree.kids(i),
            final(self).outputs@ == old(self).outputs@,
            final(self).globals == old(self).globals,
            final(self).connectors@ == old(self).connectors@,
            final(self).workspaces@ == old(self).workspaces@,
            final(self).clients@ == old(self).clients@,
            final(self).seats@ == old(self).seats@,
            final(self).seat_queue@ == old(self).seat_queue@,
    {
        let (ox, oy, ow, oh) = {
            let op = self.tree.nodes[workspace].parent;
            proof {
                reveal(crate::tree::Tree::wf_parents);
            }
            match self.tree.nodes[op].kind {
                NodeKind::Output { x1, y1, width, height, .. } => (x1, y1, width, height),
                _ => (0i32, 0i32, 0i32, 0i32),
            }
        };
        let bw = self.theme.border_width;
        let th = self.theme.title_height;
        let mut w = width + 2 * bw;
        let mut h = height + 2 * bw + th;
        let mut x1 = ox;
        let mut y1 = oy;
        if w < ow {
            x1 = x1 + (ow - w) / 2;
        } else {
            w = ow;
        }
        if h < oh {
            y1 = y1 + (oh - h) / 2;
        } else {
            h = oh;
        }
        let fl = self.tree.new_child(workspace, NodeKind::Float { x1, y1, width: w, height: h });
        let node = self.tree.new_child(fl, NodeKind::Toplevel);
        proof {
            Self::frame_parts(*old(self), *self);
        }
        (fl, node)
    }

/// The node of the named workspace, or zero when the name is unknown.
    pub open spec fn spec_ws_node(ws: Seq<(String, usize)>, name: Seq<char>) -> usize
        decreases ws.len(),
    {
        if ws.len() == 0 {
            0usize
        } else if ws[0].0@ == name {
            ws[0].1
        } else {
            Self::spec_ws_node(ws.skip(1), name)
        }
    }

    /// Shows the named workspace on the seat's output: an existing workspace
    /// migrates to that output and becomes current there; an unknown name
    /// creates a fresh workspace, except on the dummy output, where nothing
    /// happens.
    pub fn show_workspace(&mut self, seat: usize, name: &str)
        requires
            old(self).wf(),
            seat < old(self).seats@.len(),
            old(self).tree.n() + 1 < usize::MAX,
        ensures
            final(self).wf(),
            ({
                let w = Self::spec_ws_node(old(self).workspaces@, name@);
                let sout = old(self).seats@[seat as int].output;
                &&& w != 0 ==> {
                    &&& kind_current(final(self).tree.kind_of(sout as int)) == w
                    &&& kind_visible(final(self).tree.kind_of(w as int))
                    &&& final(self).tree.parent_of(w as int) == sout as int
                    &&& final(self).seats@[seat as int].focused == w
                    &&& final(self).workspaces@ == old(self).workspaces@
                }
                &&& w == 0 && crate::tree::kind_is_dummy(
                    old(self).tree.kind_of(sout as int),
                ) ==> final(self).tree == old(self).tree
                    && final(self).workspaces@ == old(self).workspaces@
                    && final(self).seats@ == old(self).seats@
                    && final(self).seat_queue@ == old(self).seat_queue@
                    && final(self).tree_changed_sent == old(self).tree_changed_sent
                &&& w == 0 && !crate::tree::kind_is_dummy(
                    old(self).tree.kind_of(sout as int),
                ) ==> {
                    &&& final(self).workspaces@.len() == old(self).workspaces@.len() + 1
                    &&& final(self).workspaces@[final(self).workspaces@.len() - 1].0@ == name@
                    &&& kind_current(final(self).tree.kind_of(sout as int))
                        == final(self).workspaces@[final(self).workspaces@.len() - 1].1
                }
            }),
            final(self).outputs@ == old(self).outputs@,
            final(self).globals == old(self).globals,
            final(self).connectors@ == old(self).connectors@,
            final(self).clients@ == old(self).clients@,
    {
        let sout = self.seats[seat].output;
        let name_owned: String = name.to_owned();
        let mut k: usize = 0;
        let mut found: usize = 0;
        proof {
            reveal(seats_wf);
            reveal(workspaces_wf);
            assert(self.workspaces@.skip(0) =~= self.workspaces@);
        }
        while found == 0 && k < self.workspaces.len()
            invariant
                *self == *old(self),
                old(self).wf(),
                k <= self.workspaces@.len(),
                name_owned@ == name@,
                found == 0 ==> Self::spec_ws_node(self.workspaces@, name@) == Self::spec_ws_node(
                    self.workspaces@.skip(k as int),
                    name@,
                ),
                found == 0 ==> forall|j: int|
                    0 <= j < k ==> (#[trigger] self.workspaces@[j]).0@ != name@,
                found != 0 ==> found == Self::spec_ws_node(old(self).workspaces@, name@)
                    && 0 < found < self.tree.n() && self.tree.live(found as int)
                    && self.tree.kind_of(found as int) is Workspace,
            decreases self.workspaces@.len() - k + (if found == 0 {
                1int
            } else {
                0int
            }),
        {
            let ghost suffix = self.workspaces@.skip(k as int);
            proof {
                assert(suffix[0] == self.workspaces@[k as int]);
                assert(suffix.skip(1) =~= self.workspaces@.skip(k as int + 1));
            }
            if self.workspaces[k].0 == name_owned {
                found = self.workspaces[k].1;
                proof {
                    reveal(workspaces_wf);
                    assert(Self::spec_ws_node(old(self).workspaces@, name@) == found);
                }
            } else {
                k = k + 1;
            }
        }
        proof {
            if found == 0 {
                assert(self.workspaces@.skip(self.workspaces@.len() as int) =~= Seq::<(
                    String,
                    usize,
                )>::empty());
            }
        }
        if found != 0 {
            self.show_existing(seat, found);
            return ;
        }
        let is_dummy = match self.tree.nodes[sout].kind {
            NodeKind::Output { is_dummy, .. } => is_dummy,
            _ => false,
        };
        if is_dummy {
            return ;
        }
        let _ = self.show_create(seat, name_owned);
    }

    /// Moves an existing workspace to the seat's output (when it is not
    /// there already), makes it current there and focuses it.
    #[verifier::rlimit(100)]
    #[verifier::spinoff_prover]
    fn show_existing(&mut self, seat: usize, w: usize)
        requires
            old(self).wf(),
            seat < old(self).seats@.len(),
            0 < w < old(self).tree.n(),
            old(self).tree.live(w as int),
            old(self).tree.kind_of(w as int) is Workspace,
        ensures
            final(self).wf(),
            ({
                let sout = old(self).seats@[seat as int].output;
                &&& kind_current(final(self).tree.kind_of(sout as int)) == w
                &&& kind_visible(final(self).tree.kind_of(w as int))
                &&& final(self).tree.parent_of(w as int) == sout as int
                &&& final(self).seats@[seat as int].focused == w
            }),
            final(self).workspaces@ == old(self).workspaces@,
            final(self).outputs@ == old(self).outputs@,
            final(self).globals == old(self).globals,
            final(self).connectors@ == old(self).connectors@,
            final(self).clients@ == old(self).clients@,
    {
        proof {
            reveal(seats_wf);
        }
        let ghost t0 = old(self).tree;
        let sout = self.seats[seat].output;
        proof {
            reveal(crate::tree::Tree::wf_parents);
            crate::tree::lemma_workspace_visible(&self.tree, w as int);
        }
        let wout = self.tree.nodes[w].parent;
        if wout != sout {
            let cur = match self.tree.nodes[wout].kind {
                NodeKind::Output { current, .. } => current,
                _ => NO_NODE,
            };
            if cur == w {
                self.tree.set_current_workspace(wout, NO_NODE);
            }
            let ghost t1 = self.tree;
            proof {
                crate::tree::lemma_workspace_visible(&self.tree, w as int);
            }
            self.tree.reparent_workspace(w, sout);
            let ghost t2 = self.tree;
            self.tree.set_current_workspace(sout, w);
            proof {
                assert(tree_kinds_framed(t0, self.tree)) by {
                    assert forall|i: int|
                        0 <= i < t0.n() implies frame_at(t0, self.tree, i) by {
                        reveal(crate::tree::Tree::wf_workspaces);
                        assert(t1.live(i) == t0.live(i));
                        assert(t1.kind_of(i) is Output <==> t0.kind_of(i) is Output);
                        assert(t1.kind_of(i) is Workspace <==> t0.kind_of(i) is Workspace);
                        assert(t2.live(i) == t1.live(i));
                        assert(t2.kind_of(i) == t1.kind_of(i));
                        assert(self.tree.live(i) == t2.live(i));
                        assert(t0.kind_of(i) is Output ==> t1.parent_of(i) == t0.parent_of(i)
                            && t2.parent_of(i) == t1.parent_of(i) && self.tree.parent_of(i)
                            == t2.parent_of(i));
                    }
                }
            }
        } else {
            self.tree.set_current_workspace(sout, w);
            proof {
                assert(tree_kinds_framed(t0, self.tree)) by {
                    assert forall|i: int|
                        0 <= i < t0.n() implies frame_at(t0, self.tree, i) by {
                        reveal(crate::tree::Tree::wf_workspaces);
                    }
                }
            }
        }
        let se = self.seats[seat];
        self.seats[seat] = Seat { focused: w, ..se };
        proof {
            assert(self.wf()) by {
                reveal(outputs_wf);
                reveal(workspaces_wf);
                reveal(clients_wf);
                reveal(seats_wf);
                lemma_outputs_wf_frame(
                    old(self).outputs@,
                    old(self).globals.entries@,
                    old(self).connectors@,
                    t0,
                    self.tree,
                );
                lemma_workspaces_wf_frame(old(self).workspaces@, t0, self.tree);
                assert(seats_wf(self.seats@, self.seat_queue@, self.tree)) by {
                    assert forall|i: int|
                        0 <= i < self.seats@.len() implies {
                        &&& 0 < (#[trigger] self.seats@[i]).output < self.tree.n()
                        &&& self.tree.live(self.seats@[i].output as int)
                        &&& self.tree.kind_of(self.seats@[i].output as int) is Output
                    } by {
                        assert(self.seats@[i].output == old(self).seats@[i].output);
                        assert(frame_at(t0, self.tree, self.seats@[i].output as int));
                    }
                }
            }
        }
        self.tree_changed();
    }

    /// Creates a fresh workspace with this name on the seat's output, makes
    /// it current and focuses it.
    #[verifier::rlimit(100)]
    #[verifier::spinoff_prover]
    fn show_create(&mut self, seat: usize, name_owned: String) -> (w: usize)
        requires
            old(self).wf(),
            seat < old(self).seats@.len(),
            old(self).tree.n() + 1 < usize::MAX,
            forall|j: int|
                0 <= j < old(self).workspaces@.len() ==> (#[trigger] old(
                    self,
                ).workspaces@[j]).0@ != name_owned@,
        ensures
            final(self).wf(),
            ({
                let sout = old(self).seats@[seat as int].output;
                &&& kind_current(final(self).tree.kind_of(sout as int)) == w
                &&& final(self).seats@[seat as int].focused == w
            }),
            final(self).workspaces@.len() == old(self).workspaces@.len() + 1,
            final(self).workspaces@[final(self).workspaces@.len() - 1].0@ == name_owned@,
            final(self).workspaces@[final(self).workspaces@.len() - 1].1 == w,
            final(self).outputs@ == old(self).outputs@,
            final(self).globals == old(self).globals,
            final(self).connectors@ == old(self).connectors@,
            final(self).clients@ == old(self).clients@,
    {
        proof {
            reveal(seats_wf);
            reveal(workspaces_wf);
        }
        let ghost t0 = old(self).tree;
        let sout = self.seats[seat].output;
        let w = self.tree.new_child(sout, NodeKind::Workspace { visible: false });
        let ghost t1 = self.tree;
        self.workspaces.push((name_owned, w));
        self.tree.set_current_workspace(sout, w);
        proof {
            assert(tree_kinds_framed(t0, self.tree)) by {
                assert forall|i: int| 0 <= i < t0.n() implies frame_at(t0, self.tree, i) by {
                    reveal(crate::tree::Tree::wf_workspaces);
                    assert(t1.live(i) == t0.live(i));
                    assert(t1.kind_of(i) == t0.kind_of(i));
                    assert(t1.parent_of(i) == t0.parent_of(i));
                }
            }
        }
        let se = self.seats[seat];
        self.seats[seat] = Seat { focused: w, ..se };
        proof {
            assert(self.wf()) by {
                reveal(outputs_wf);
                reveal(workspaces_wf);
                reveal(clients_wf);
                reveal(seats_wf);
                assert(frame_at(t0, self.tree, self.dummy_output as int));
                lemma_outputs_wf_frame(
                    old(self).outputs@,
                    old(self).globals.entries@,
                    old(self).connectors@,
                    t0,
                    self.tree,
                );
                lemma_workspaces_wf_frame(old(self).workspaces@, t0, self.tree);
                assert(workspaces_wf(self.workspaces@, self.tree)) by {
                    let ws1 = self.workspaces@;
                    let ws0 = old(self).workspaces@;
                    assert forall|j: int| 0 <= j < ws1.len() implies {
                        &&& 0 < (#[trigger] ws1[j]).1 < self.tree.n()
                        &&& self.tree.live(ws1[j].1 as int)
                        &&& self.tree.kind_of(ws1[j].1 as int) is Workspace
                    } by {
                        if j < ws0.len() {
                            assert(ws1[j] == ws0[j]);
                        } else {
                            assert(ws1[j].1 == w);
                        }
                    }
                    assert forall|k1: int, k2: int|
                        0 <= k1 < k2 < ws1.len() implies (#[trigger] ws1[k1]).0@ != (
                    #[trigger] ws1[k2]).0@ && ws1[k1].1 != ws1[k2].1 by {
                        if k2 == ws1.len() - 1 {
                            assert(ws1[k1] == ws0[k1]);
                            assert(ws0[k1].0@ != name_owned@);
                            assert(ws0[k1].1 < t0.n());
                        }
                    }
                }
                assert(seats_wf(self.seats@, self.seat_queue@, self.tree)) by {
                    assert forall|i: int|
                        0 <= i < self.seats@.len() implies {
                        &&& 0 < (#[trigger] self.seats@[i]).output < self.tree.n()
                        &&& self.tree.live(self.seats@[i].output as int)
                        &&& self.tree.kind_of(self.seats@[i].output as int) is Output
                    } by {
                        assert(self.seats@[i].output == old(self).seats@[i].output);
                        assert(frame_at(t0, self.tree, self.seats@[i].output as int));
                    }
                }
            }
        }
        self.tree_changed();
        w
    }

/// Whether a connector currently has an output entry.
    pub fn find_output(&self, id: u64) -> (r: Option<usize>)
        ensures
            r is Some <==> exists|k: int|
                0 <= k < self.outputs@.len() && (#[trigger] self.outputs@[k]).connector == id,
            r is Some ==> r->0 < self.outputs@.len() && self.outputs@[r->0 as int].connector
                == id,
    {
        let mut k: usize = 0;
        while k < self.outputs.len()
            invariant
                k <= self.outputs@.len(),
                forall|j: int| 0 <= j < k ==> (#[trigger] self.outputs@[j]).connector != id,
            decreases self.outputs@.len() - k,
        {
            if self.outputs[k].connector == id {
                return Some(k);
            }
            k = k + 1;
        }
        proof {
            if exists|j: int|
                0 <= j < self.outputs@.len() && (#[trigger] self.outputs@[j]).connector == id {
                let j = choose|j: int|
                    0 <= j < self.outputs@.len() && (#[trigger] self.outputs@[j]).connector == id;
                assert(false);
            }
        }
        None
    }

    /// A connector's monitor changed its mode: the output node takes the new
    /// rectangle and every client is told the new mode.
    #[verifier::rlimit(100)]
    #[verifier::spinoff_prover]
    pub fn connector_mode_changed(&mut self, id: u64, width: i32, height: i32, refresh: u32) -> (r:
        Result<(), ()>)
        requires
            old(self).wf(),
        ensures
            final(self).wf(),
            r is Ok <==> exists|k: int|
                0 <= k < old(self).outputs@.len() && (#[trigger] old(self).outputs@[k]).connector
                    == id,
            r is Err ==> *final(self) == *old(self),
            r is Ok ==> {
                &&& final(self).outputs@ == old(self).outputs@
                &&& exists|k: int|
                    0 <= k < old(self).outputs@.len() && (#[trigger] old(
                        self,
                    ).outputs@[k]).connector == id && (match final(self).tree.kind_of(
                        old(self).outputs@[k].node as int,
                    ) {
                        NodeKind::Output { width: w2, height: h2, .. } => w2 == width && h2
                            == height,
                        _ => false,
                    })
                &&& final(self).clients@.len() == old(self).clients@.len()
                &&& forall|i: int|
                    0 <= i < old(self).clients@.len()
                        ==> (#[trigger] final(self).clients@[i]).evq@
                        == old(self).clients@[i].evq@.push(
                        EventMsg::OutputMode {
                            obj: output_global_name(old(self), id),
                            width,
                            height,
                            refresh,
                        },
                    )
            },
    {
        let k = match self.find_output(id) {
            Some(k) => k,
            None => {
                return Err(());
            },
        };
        let node = self.outputs[k].node;
        let name = self.outputs[k].global_name;
        proof {
            reveal(outputs_wf);
            assert(output_global_name(old(self), id) == name) by {
                let j = choose|j: int|
                    0 <= j < old(self).outputs@.len() && (#[trigger] old(
                        self,
                    ).outputs@[j]).connector == id;
                assert(j == k as int) by {
                    if j != k as int {
                        assert(old(self).outputs@[j].connector != old(
                            self,
                        ).outputs@[k as int].connector);
                    }
                }
            }
        }
        let ghost t0 = self.tree;
        self.tree.set_output_mode(node, width, height);
        proof {
            assert(tree_kinds_framed(t0, self.tree)) by {
                assert forall|i: int| 0 <= i < t0.n() implies frame_at(t0, self.tree, i) by {}
            }
            assert(self.wf()) by {
                reveal(outputs_wf);
                reveal(workspaces_wf);
                reveal(clients_wf);
                reveal(seats_wf);
                assert(frame_at(t0, self.tree, self.dummy_output as int));
                lemma_outputs_wf_frame(
                    old(self).outputs@,
                    old(self).globals.entries@,
                    old(self).connectors@,
                    t0,
                    self.tree,
                );
                lemma_workspaces_wf_frame(old(self).workspaces@, t0, self.tree);
                lemma_seats_wf_frame(old(self).seats@, old(self).seat_queue@, t0, self.tree);
            }
        }
        self.broadcast(EventMsg::OutputMode { obj: name, width, height, refresh });
        Ok(())
    }

/// A connector's monitor went away: its workspaces move to the dummy
    /// output, seats on it fall back to the dummy output, its `wl_output`
    /// global is withdrawn from every client, and the output node leaves the
    /// scene. The connector itself stays, disconnected.
    #[verifier::rlimit(100)]
    #[verifier::spinoff_prover]
    pub fn connector_disconnected(&mut self, id: u64) -> (r: Result<(), ()>)
        requires
            old(self).wf(),
        ensures
            final(self).wf(),
            r is Ok <==> exists|k: int|
                0 <= k < old(self).outputs@.len() && (#[trigger] old(self).outputs@[k]).connector
                    == id,
            r is Err ==> *final(self) == *old(self),
            r is Ok ==> {
                &&& final(self).outputs@.len() == old(self).outputs@.len() - 1
                &&& !exists|k: int|
                    0 <= k < final(self).outputs@.len()
                        && (#[trigger] final(self).outputs@[k]).connector == id
                &&& conn_state_of(final(self).connectors@, id) == ConnState::Disconnected
                &&& !crate::registry::has_global(
                    final(self).globals.entries@,
                    output_global_name(old(self), id),
                )
                &&& !final(self).tree.live(output_node_of(old(self), id) as int)
                &&& final(self).workspaces@ == old(self).workspaces@
                &&& forall|i: int|
                    0 <= i < old(self).tree.n() && old(self).tree.live(i)
                        && old(self).tree.kind_of(i) is Workspace
                        ==> final(self).tree.live(i) && #[trigger] final(self).tree.parent_of(i)
                        == (if old(self).tree.parent_of(i) == output_node_of(old(self), id) as int {
                        old(self).dummy_output as int
                    } else {
                        old(self).tree.parent_of(i)
                    })
                &&& final(self).clients@.len() == old(self).clients@.len()
                &&& forall|i: int|
                    0 <= i < old(self).clients@.len()
                        ==> (#[trigger] final(self).clients@[i]).evq@
                        == old(self).clients@[i].evq@.push(
                        EventMsg::GlobalRemoved { name: output_global_name(old(self), id) },
                    )
            },
    {
        let k = match self.find_output(id) {
            Some(k) => k,
            None => {
                return Err(());
            },
        };
        let o = self.outputs[k].node;
        let g = self.outputs[k].global_name;
        let d = self.dummy_output;
        proof {
            reveal(outputs_wf);
            assert(output_global_name(old(self), id) == g && output_node_of(old(self), id)
                == o) by {
                let j = choose|j: int|
                    0 <= j < old(self).outputs@.len() && (#[trigger] old(
                        self,
                    ).outputs@[j]).connector == id;
                assert(j == k as int) by {
                    if j != k as int {
                        assert(old(self).outputs@[j].connector != old(
                            self,
                        ).outputs@[k as int].connector);
                    }
                }
            }
            assert(o != d);
        }
        let ghost t0 = self.tree;
        self.tree.set_current_workspace(o, NO_NODE);
        proof {
            assert(tree_kinds_framed(t0, self.tree)) by {
                assert forall|i: int| 0 <= i < t0.n() implies frame_at(t0, self.tree, i) by {
                    reveal(crate::tree::Tree::wf_workspaces);
                }
            }
            assert(frame_at(t0, self.tree, d as int));
            assert(frame_at(t0, self.tree, o as int));
        }
        while self.tree.nodes[o].children.len() > 0
            invariant
                old(self).wf(),
                self.tree.wf(),
                0 < o < self.tree.n(),
                0 < d < self.tree.n(),
                o != d,
                self.tree.live(o as int),
                self.tree.live(d as int),
                self.tree.kind_of(o as int) is Output,
                self.tree.kind_of(d as int) is Output,
                kind_current(self.tree.kind_of(o as int)) == NO_NODE,
                t0 == old(self).tree,
                self.tree.n() == t0.n(),
                self.tree.n() < usize::MAX,
                tree_kinds_framed(t0, self.tree),
                forall|i: int|
                    0 <= i < t0.n() && t0.live(i) && t0.kind_of(i) is Workspace ==> #[trigger] self.tree.parent_of(
                        i,
                    ) == t0.parent_of(i) || (t0.parent_of(i) == o as int && self.tree.parent_of(i)
                        == d as int),
                self.outputs@ == old(self).outputs@,
                self.globals == old(self).globals,
                self.connectors@ == old(self).connectors@,
                self.workspaces@ == old(self).workspaces@,
                self.clients@ == old(self).clients@,
                self.seats@ == old(self).seats@,
                self.seat_queue@ == old(self).seat_queue@,
                self.dummy_output == old(self).dummy_output,
                self.tree_changed_sent == old(self).tree_changed_sent,
                self.idle == old(self).idle,
                self.status == old(self).status,
                self.render_ctx == old(self).render_ctx,
                self.xwayland == old(self).xwayland,
                self.theme == old(self).theme,
                self.input_device_handlers == old(self).input_device_handlers,
            decreases self.tree.kids(o as int).len(),
        {
            let c = self.tree.nodes[o].children[0];
            proof {
                reveal(crate::tree::Tree::wf_children);
                reveal(crate::tree::Tree::wf_parents);
                assert(self.tree.kids(o as int)[0] == c);
                assert(self.tree.live(c as int) && self.tree.parent_of(c as int) == o as int);
                assert(self.tree.kind_of(c as int) is Workspace) by {
                    assert(crate::tree::kind_fits(
                        self.tree.kind_of(c as int),
                        self.tree.kind_of(o as int),
                    ));
                }
                crate::tree::lemma_workspace_visible(&self.tree, c as int);
            }
            let ghost tp = self.tree;
            self.tree.reparent_workspace(c, d);
            proof {
                assert(tree_kinds_framed(t0, self.tree)) by {
                    assert forall|i: int| 0 <= i < t0.n() implies frame_at(t0, self.tree, i) by {
                        assert(frame_at(t0, tp, i));
                    }
                }
                assert(self.tree.kids(o as int).len() == tp.kids(o as int).len() - 1);
                assert forall|i: int|
                    0 <= i < t0.n() && t0.live(i) && t0.kind_of(i) is Workspace implies #[trigger] self.tree.parent_of(
                    i,
                ) == t0.parent_of(i) || (t0.parent_of(i) == o as int && self.tree.parent_of(i)
                    == d as int) by {
                    if i == c as int {
                        assert(tp.parent_of(i) == o as int);
                        assert(self.tree.parent_of(i) == d as int);
                    } else {
                        assert(self.tree.parent_of(i) == tp.parent_of(i));
                    }
                }
            }
        }
        let ghost t1 = self.tree;
        proof {
            assert forall|i: int|
                0 <= i < t0.n() && t0.live(i) && t0.kind_of(i) is Workspace implies t1.live(i)
                && #[trigger] t1.parent_of(i) == (if t0.parent_of(i) == o as int {
                d as int
            } else {
                t0.parent_of(i)
            }) by {
                assert(frame_at(t0, t1, i));
                if t0.parent_of(i) == o as int {
                    if t1.parent_of(i) == o as int {
                        reveal(crate::tree::Tree::wf_parents);
                        assert(t1.live(i));
                        assert(t1.kids(o as int).contains(i as usize));
                        let j = choose|j: int|
                            0 <= j < t1.kids(o as int).len() && t1.kids(o as int)[j] == i as usize;
                        assert(false);
                    }
                } else {
                    assert(t1.parent_of(i) != d as int || t0.parent_of(i) == t1.parent_of(i)
                        || t0.parent_of(i) == o as int);
                }
            }
        }
        self.tree.remove_leaf(o);
        let _removed = self.outputs.remove(k);
        let _removed_global = match self.globals.remove(g) {
            Ok(e) => e,
            Err(()) => {
                proof {
                    assert(crate::registry::has_global(old(self).globals.entries@, g));
                    assert(false);
                }
                return Err(());
            },
        };
        let ghost mid = *self;
        let mut si: usize = 0;
        let ghost seats0 = self.seats@;
        while si < self.seats.len()
            invariant
                si <= self.seats@.len(),
                self.seats@.len() == seats0.len(),
                seats0 == mid.seats@,
                forall|j: int|
                    0 <= j < si ==> (#[trigger] self.seats@[j]) == (if seats0[j].output == o {
                        Seat { output: d, ..seats0[j] }
                    } else {
                        seats0[j]
                    }),
                forall|j: int| si <= j < seats0.len() ==> self.seats@[j] == seats0[j],
                d == self.dummy_output,
                self.tree == mid.tree,
                self.globals == mid.globals,
                self.outputs@ == mid.outputs@,
                self.connectors@ == mid.connectors@,
                self.workspaces@ == mid.workspaces@,
                self.clients@ == mid.clients@,
                self.seat_queue@ == mid.seat_queue@,
                self.dummy_output == mid.dummy_output,
            decreases self.seats@.len() - si,
        {
            if self.seats[si].output == o {
                let se = self.seats[si];
                self.seats[si] = Seat { output: d, ..se };
            }
            si = si + 1;
        }
        let ghost mid2 = *self;
        let mut ci: usize = 0;
        let ghost conn0 = self.connectors@;
        while ci < self.connectors.len()
            invariant
                ci <= self.connectors@.len(),
                self.connectors@.len() == conn0.len(),
                conn0 == mid2.connectors@,
                forall|j: int| ci <= j < conn0.len() ==> self.connectors@[j] == conn0[j],
                forall|j: int|
                    0 <= j < ci ==> (#[trigger] self.connectors@[j]) == (if conn0[j].id == id {
                        ConnectorData {
                            id: conn0[j].id,
                            state: ConnState::Disconnected,
                            name: conn0[j].name,
                        }
                    } else {
                        conn0[j]
                    }),
                self.tree == mid2.tree,
                self.globals == mid2.globals,
                self.outputs@ == mid2.outputs@,
                self.workspaces@ == mid2.workspaces@,
                self.clients@ == mid2.clients@,
                self.seats@ == mid2.seats@,
                self.seat_queue@ == mid2.seat_queue@,
                self.dummy_output == mid2.dummy_output,
            decreases self.connectors@.len() - ci,
        {
            if self.connectors[ci].id == id {
                let nm = &mut self.connectors[ci];
                nm.state = ConnState::Disconnected;
            }
            ci = ci + 1;
        }
        proof {
            lemma_conn_mark(conn0, self.connectors@, id, ConnState::Disconnected, *old(self));
            lemma_disconnect_wf(*old(self), *self, id, k as int, o, g, t1);
            assert forall|i: int|
                0 <= i < t0.n() && t0.live(i) && t0.kind_of(i) is Workspace implies
                self.tree.live(i) && #[trigger] self.tree.parent_of(i) == (if t0.parent_of(i)
                == o as int {
                d as int
            } else {
                t0.parent_of(i)
            }) by {
                assert(i != o as int) by {
                    assert(t0.kind_of(o as int) is Output);
                }
                assert(self.tree.parent_of(i) == t1.parent_of(i));
                assert(self.tree.live(i) == t1.live(i));
            }
        }
        self.broadcast(EventMsg::GlobalRemoved { name: g });
        Ok(())
    }

/// A connector was removed for good: its entry leaves the table. Only a
    /// disconnected connector can be removed.
    pub fn connector_removed(&mut self, id: u64) -> (r: Result<(), ()>)
        requires
            old(self).wf(),
        ensures
            final(self).wf(),
            r is Ok <==> conn_known(old(self).connectors@, id) && conn_state_of(
                old(self).connectors@,
                id,
            ) == ConnState::Disconnected,
            r is Err ==> *final(self) == *old(self),
            r is Ok ==> !conn_known(final(self).connectors@, id) && final(self).connectors@.len()
                == old(self).connectors@.len() - 1,
            final(self).outputs@ == old(self).outputs@,
            final(self).tree == old(self).tree,
            final(self).globals == old(self).globals,
            final(self).clients@ == old(self).clients@,
            final(self).workspaces@ == old(self).workspaces@,
    {
        let mut ci: usize = 0;
        while ci < self.connectors.len()
            invariant
                old(self).wf(),
                ci <= self.connectors@.len(),
                forall|j: int| 0 <= j < ci ==> (#[trigger] self.connectors@[j]).id != id,
                *self == *old(self),
            decreases self.connectors@.len() - ci,
        {
            if self.connectors[ci].id == id {
                proof {
                    assert(conn_known(self.connectors@, id));
                    assert(conn_state_of(self.connectors@, id) == self.connectors@[ci as int].state) by {
                        let j = choose|j: int|
                            0 <= j < self.connectors@.len() && self.connectors@[j].id == id;
                        assert(self.connectors@[j].id == id);
                        assert(j == ci as int) by {
                            if j != ci as int {
                                if j < ci as int {
                                    assert(self.connectors@[j].id != self.connectors@[ci as int].id);
                                } else {
                                    assert(self.connectors@[ci as int].id
                                        != self.connectors@[j].id);
                                }
                            }
                        }
                    }
                }
                let st = self.connectors[ci].state;
                match st {
                    ConnState::Disconnected => {},
                    ConnState::Connected => {
                        return Err(());
                    },
                }
                let _ = self.connectors.remove(ci);
                proof {
                    let pre = old(self).connectors@;
                    let post = self.connectors@;
                    assert forall|j: int| 0 <= j < post.len() implies (#[trigger] post[j]).id
                        != id by {
                        let j0 = if j < ci as int {
                            j
                        } else {
                            j + 1
                        };
                        assert(post[j] == pre[j0]);
                        assert(pre[j0].id != id) by {
                            if j0 != ci as int {
                                if j0 < ci as int {
                                    assert(pre[j0].id != pre[ci as int].id);
                                } else {
                                    assert(pre[ci as int].id != pre[j0].id);
                                }
                            }
                        }
                        assert(j0 != ci as int);
                    }
                    assert(!conn_known(post, id));
                    assert forall|k1: int, k2: int|
                        0 <= k1 < k2 < post.len() implies (#[trigger] post[k1]).id != (
                    #[trigger] post[k2]).id by {
                        let a0 = if k1 < ci as int {
                            k1
                        } else {
                            k1 + 1
                        };
                        let b0 = if k2 < ci as int {
                            k2
                        } else {
                            k2 + 1
                        };
                        assert(post[k1] == pre[a0] && post[k2] == pre[b0]);
                        assert(a0 < b0);
                    }
                    assert(self.wf()) by {
                        reveal(outputs_wf);
                        reveal(workspaces_wf);
                        reveal(clients_wf);
                        reveal(seats_wf);
                        assert forall|kk: int|
                            0 <= kk < self.outputs@.len() implies conn_state_of(
                            self.connectors@,
                            (#[trigger] self.outputs@[kk]).connector,
                        ) == ConnState::Connected && conn_known(
                            self.connectors@,
                            self.outputs@[kk].connector,
                        ) by {
                            let pre2 = old(self).connectors@;
                            let post2 = self.connectors@;
                            let cid = self.outputs@[kk].connector;
                            assert(conn_state_of(pre2, cid) == ConnState::Connected);
                            assert(cid != id) by {
                                if cid == id {
                                    assert(conn_state_of(pre2, id) == ConnState::Disconnected);
                                }
                            }
                            let j = choose|j: int| 0 <= j < pre2.len() && pre2[j].id == cid;
                            assert(j != ci as int);
                            let jn = if j < ci as int {
                                j
                            } else {
                                j - 1
                            };
                            assert(post2[jn] == pre2[j]);
                            assert(conn_known(post2, cid));
                            let a = choose|a: int| 0 <= a < post2.len() && post2[a].id == cid;
                            assert(post2[a].id == cid);
                            assert(a == jn) by {
                                if a != jn {
                                    assert(post2[a].id != post2[jn].id);
                                }
                            }
                        }
                    }
                }
                return Ok(());
            }
            ci = ci + 1;
        }
        proof {
            if conn_known(self.connectors@, id) {
                let j = choose|j: int|
                    0 <= j < self.connectors@.len() && self.connectors@[j].id == id;
                assert(false);
            }
        }
        Err(())
    }

    /// The connector lifecycle's transition function: one backend event in,
    /// the matching state change out. The unverified shell runs the waiting
    /// loop and feeds events here one at a time.
    pub fn handle_connector_event(&mut self, id: u64, event: crate::backend::ConnectorEvent) -> (r:
        Result<(), ()>)
        requires
            old(self).wf(),
            old(self).globals.next_name < u32::MAX,
            old(self).tree.n() + 1 < usize::MAX,
            ({
                match event {
                    crate::backend::ConnectorEvent::Connected(info) => {
                        &&& conn_known(old(self).connectors@, id)
                        &&& conn_state_of(old(self).connectors@, id) == ConnState::Disconnected
                        &&& 0 < info.initial_mode.width <= 0x10000
                        &&& 0 < info.initial_mode.height <= 0x10000
                        &&& spec_outputs_max_x2(old(self).outputs@, old(self).tree)
                            + info.initial_mode.width <= i32::MAX
                        &&& 0 <= spec_outputs_max_x2(old(self).outputs@, old(self).tree)
                    },
                    _ => true,
                }
            }),
        ensures
            final(self).wf(),
            ({
                match event {
                    crate::backend::ConnectorEvent::Connected(info) => {
                        let outs = final(self).outputs@;
                        let entry = outs[outs.len() - 1];
                        &&& r is Ok
                        &&& outs == old(self).outputs@.push(entry)
                        &&& entry.connector == id
                        &&& conn_state_of(final(self).connectors@, id) == ConnState::Connected
                        &&& final(self).tree.live(entry.node as int)
                        &&& final(self).tree.kind_of(entry.node as int) == (NodeKind::Output {
                            connector: id,
                            is_dummy: false,
                            x1: spec_outputs_max_x2(old(self).outputs@, old(self).tree) as i32,
                            y1: 0,
                            width: info.initial_mode.width,
                            height: info.initial_mode.height,
                            current: NO_NODE,
                        })
                        &&& has_global(final(self).globals.entries@, entry.global_name)
                        &&& global_named(final(self).globals.entries@, entry.global_name).interface
                            == Interface::WlOutput
                        &&& final(self).clients@.len() == old(self).clients@.len()
                        &&& forall|i: int|
                            0 <= i < old(self).clients@.len()
                                ==> (#[trigger] final(self).clients@[i]).evq@
                                == old(self).clients@[i].evq@.push(
                                EventMsg::GlobalAdded {
                                    name: entry.global_name,
                                    interface: Interface::WlOutput,
                                    version: 4,
                                },
                            )
                        &&& final(self).workspaces@ == old(self).workspaces@
                        &&& final(self).seats@.len() == old(self).seats@.len()
                        &&& (old(self).outputs@.len() == 0 ==> forall|i: int|
                            0 <= i < old(self).seats@.len()
                                ==> (#[trigger] final(self).seats@[i]) == (Seat {
                                x: (info.initial_mode.width / 2) as i32,
                                y: (info.initial_mode.height / 2) as i32,
                                ..old(self).seats@[i]
                            }))
                        &&& (old(self).outputs@.len() > 0
                            ==> final(self).seats@ == old(self).seats@)
                    },
                    crate::backend::ConnectorEvent::ModeChanged(mode) => {
                        &&& (r is Ok <==> exists|k: int|
                            0 <= k < old(self).outputs@.len() && (#[trigger] old(
                                self,
                            ).outputs@[k]).connector == id)
                        &&& (r is Err ==> *final(self) == *old(self))
                        &&& (r is Ok ==> {
                            &&& final(self).outputs@ == old(self).outputs@
                            &&& exists|k: int|
                                0 <= k < old(self).outputs@.len() && (#[trigger] old(
                                    self,
                                ).outputs@[k]).connector == id && (match final(self).tree.kind_of(
                                    old(self).outputs@[k].node as int,
                                ) {
                                    NodeKind::Output { width: w2, height: h2, .. } => w2
                                        == mode.width && h2 == mode.height,
                                    _ => false,
                                })
                            &&& final(self).clients@.len() == old(self).clients@.len()
                            &&& forall|i: int|
                                0 <= i < old(self).clients@.len()
                                    ==> (#[trigger] final(self).clients@[i]).evq@
                                    == old(self).clients@[i].evq@.push(
                                    EventMsg::OutputMode {
                                        obj: output_global_name(old(self), id),
                                        width: mode.width,
                                        height: mode.height,
                                        refresh: mode.refresh_rate_millihz,
                                    },
                                )
                        })
                    },
                    crate::backend::ConnectorEvent::Disconnected => {
                        &&& (r is Ok <==> exists|k: int|
                            0 <= k < old(self).outputs@.len() && (#[trigger] old(
                                self,
                            ).outputs@[k]).connector == id)
                        &&& (r is Err ==> *final(self) == *old(self))
                        &&& (r is Ok ==> {
                            &&& final(self).outputs@.len() == old(self).outputs@.len() - 1
                            &&& !exists|k: int|
                                0 <= k < final(self).outputs@.len()
                                    && (#[trigger] final(self).outputs@[k]).connector == id
                            &&& conn_state_of(final(self).connectors@, id)
                                == ConnState::Disconnected
                            &&& !has_global(
                                final(self).globals.entries@,
                                output_global_name(old(self), id),
                            )
                            &&& !final(self).tree.live(output_node_of(old(self), id) as int)
                            &&& final(self).workspaces@ == old(self).workspaces@
                            &&& final(self).clients@.len() == old(self).clients@.len()
                            &&& forall|i: int|
                                0 <= i < old(self).clients@.len()
                                    ==> (#[trigger] final(self).clients@[i]).evq@
                                    == old(self).clients@[i].evq@.push(
                                    EventMsg::GlobalRemoved {
                                        name: output_global_name(old(self), id),
                                    },
                                )
                        })
                    },
                    crate::backend::ConnectorEvent::Removed => {
                        &&& (r is Ok <==> conn_known(old(self).connectors@, id) && conn_state_of(
                            old(self).connectors@,
                            id,
                        ) == ConnState::Disconnected)
                        &&& (r is Err ==> *final(self) == *old(self))
                        &&& (r is Ok ==> !conn_known(final(self).connectors@, id)
                            && final(self).connectors@.len() == old(self).connectors@.len() - 1)
                        &&& final(self).outputs@ == old(self).outputs@
                        &&& final(self).tree == old(self).tree
                        &&& final(self).globals == old(self).globals
                        &&& final(self).clients@ == old(self).clients@
                        &&& final(self).workspaces@ == old(self).workspaces@
                    },
                }
            }),
    {
        match event {
            crate::backend::ConnectorEvent::Connected(info) => {
                let (node, name) = self.connector_connected(
                    id,
                    info.initial_mode.width,
                    info.initial_mode.height,
                );
                proof {
                    let outs = self.outputs@;
                    let entry = outs[outs.len() - 1];
                    assert(entry == (OutputData { connector: id, node, global_name: name }));
                    assert(outs == old(self).outputs@.push(entry));
                    assert(conn_state_of(self.connectors@, id) == ConnState::Connected);
                    assert(self.tree.live(entry.node as int));
                    assert(has_global(self.globals.entries@, entry.global_name));
                    assert(global_named(self.globals.entries@, entry.global_name).interface
                        == Interface::WlOutput);
                    assert(self.clients@.len() == old(self).clients@.len());
                    assert(self.workspaces@ == old(self).workspaces@);
                    assert(self.seats@.len() == old(self).seats@.len());
                    assert(old(self).outputs@.len() > 0 ==> self.seats@ == old(self).seats@);
                }
                Ok(())
            },
            crate::backend::ConnectorEvent::ModeChanged(mode) => self.connector_mode_changed(
                id,
                mode.width,
                mode.height,
                mode.refresh_rate_millihz,
            ),
            crate::backend::ConnectorEvent::Disconnected => self.connector_disconnected(id),
            crate::backend::ConnectorEvent::Removed => self.connector_removed(id),
        }
    }

    /// The output's current workspace, created when it has none.
    pub fn ensure_workspace(&mut self, output: usize) -> (w: usize)
        requires
            old(self).wf(),
            0 < output < old(self).tree.n(),
            old(self).tree.live(output as int),
            old(self).tree.kind_of(output as int) is Output,
            old(self).tree.n() + 1 < usize::MAX,
        ensures
            final(self).wf(),
            0 < w < final(self).tree.n(),
            final(self).tree.live(w as int),
            final(self).tree.kind_of(w as int) is Workspace,
            final(self).tree.parent_of(w as int) == output as int,
            kind_current(final(self).tree.kind_of(output as int)) == w,
            final(self).tree.kind_of(output as int) is Output,
            final(self).tree.live(output as int) == old(self).tree.live(output as int),
            final(self).tree.parent_of(output as int) == old(self).tree.parent_of(output as int),
            kind_current(old(self).tree.kind_of(output as int)) != NO_NODE ==> w == kind_current(
                old(self).tree.kind_of(output as int),
            ) && final(self).tree == old(self).tree,
            kind_current(old(self).tree.kind_of(output as int)) == NO_NODE ==> w as int == old(
                self,
            ).tree.n() && final(self).tree.n() == old(self).tree.n() + 1
                && final(self).tree.kids(w as int).len() == 0,
            final(self).outputs@ == old(self).outputs@,
            final(self).globals.entries@ == old(self).globals.entries@,
            final(self).globals == old(self).globals,
            final(self).connectors@ == old(self).connectors@,
            final(self).workspaces@ == old(self).workspaces@,
            final(self).clients@ == old(self).clients@,
            final(self).seats@ == old(self).seats@,
            final(self).seat_queue@ == old(self).seat_queue@,
            final(self).dummy_output == old(self).dummy_output,
            final(self).tree.n() >= old(self).tree.n(),
            forall|i: int|
                0 <= i < old(self).tree.n() && i != output ==> final(self).tree.live(i) == old(
                    self,
                ).tree.live(i) && final(self).tree.kind_of(i) == old(self).tree.kind_of(i)
                    && final(self).tree.parent_of(i) == old(self).tree.parent_of(i),
    {
        let cur = match self.tree.nodes[output].kind {
            NodeKind::Output { current, .. } => current,
            _ => NO_NODE,
        };
        if cur != NO_NODE {
            proof {
                reveal(crate::tree::Tree::wf_workspaces);
            }
            return cur;
        }
        let w = self.tree.new_child(output, NodeKind::Workspace { visible: false });
        self.tree.set_current_workspace(output, w);
        proof {
            Self::frame_parts(*old(self), *self);
        }
        w
    }
}

/// The largest right edge among these outputs, folded from `acc`.
pub open spec fn spec_max_x2_from(outs: Seq<OutputData>, t: Tree, acc: int) -> int
    decreases outs.len(),
{
    if outs.len() == 0 {
        acc
    } else {
        let k = t.kind_of(outs[0].node as int);
        let x2 = match k {
            NodeKind::Output { x1, width, .. } => x1 + width,
            _ => 0,
        };
        spec_max_x2_from(outs.skip(1), t, if x2 > acc {
            x2
        } else {
            acc
        })
    }
}

/// The largest right edge among these outputs, at least zero.
pub open spec fn spec_outputs_max_x2(outs: Seq<OutputData>, t: Tree) -> int {
    spec_max_x2_from(outs, t, 0)
}

/// Appending a connector with a fresh id keeps every other id's state.
proof fn lemma_conn_frame(pre: Seq<ConnectorData>, post: Seq<ConnectorData>, id: u64)
    requires
        post.len() == pre.len() + 1,
        forall|j: int| 0 <= j < pre.len() ==> post[j] == pre[j],
        post[post.len() - 1].id == id,
        !conn_known(pre, id),
        forall|k1: int, k2: int|
            0 <= k1 < k2 < pre.len() ==> (#[trigger] pre[k1]).id != (#[trigger] pre[k2]).id,
    ensures
        forall|id2: u64|
            id2 != id ==> conn_known(post, id2) == conn_known(pre, id2) && conn_state_of(
                post,
                id2,
            ) == conn_state_of(pre, id2),
{
    assert forall|id2: u64|
        id2 != id implies conn_known(post, id2) == conn_known(pre, id2) && conn_state_of(post, id2)
        == conn_state_of(pre, id2) by {
        if conn_known(pre, id2) {
            let j = choose|j: int| 0 <= j < pre.len() && pre[j].id == id2;
            assert(post[j].id == id2);
            assert(conn_known(post, id2));
        }
        if conn_known(post, id2) {
            let j = choose|j: int| 0 <= j < post.len() && post[j].id == id2;
            assert(j < pre.len()) by {
                if j == post.len() - 1 {
                    assert(post[j].id == id);
                }
            }
            assert(pre[j].id == id2);
            assert(conn_known(pre, id2));
            let a = choose|a: int| 0 <= a < post.len() && post[a].id == id2;
            let b = choose|b: int| 0 <= b < pre.len() && pre[b].id == id2;
            assert(post[a].id == id2 && pre[b].id == id2);
            assert(a < pre.len()) by {
                if a == post.len() - 1 {
                    assert(post[a].id == id);
                }
            }
            assert(post[a] == pre[a]);
            assert(post[b] == pre[b]);
            assert(pre[a].id == id2);
            assert(a == b) by {
                if a != b {
                    assert(pre[a].id != pre[b].id);
                }
            }
        }
    }
}

/// Adding a fresh global keeps every older name's entry.
proof fn lemma_globals_grow(
    outs: Seq<OutputData>,
    pre: Seq<GlobalEntry>,
    post: Seq<GlobalEntry>,
    cs: Seq<ConnectorData>,
    t: Tree,
    name: u32,
)
    requires
        outputs_wf(outs, pre, cs, t),
        post.len() == pre.len() + 1,
        forall|j: int| 0 <= j < pre.len() ==> post[j] == pre[j],
        forall|a: int, b: int|
            0 <= a < b < pre.len() ==> (#[trigger] pre[a]).name != (#[trigger] pre[b]).name,
        forall|k: int| 0 <= k < outs.len() ==> (#[trigger] outs[k]).global_name != name,
        post[post.len() - 1].name == name,
    ensures
        forall|k: int|
            0 <= k < outs.len() ==> has_global(post, (#[trigger] outs[k]).global_name)
                && global_named(post, outs[k].global_name) == global_named(
                pre,
                outs[k].global_name,
            ),
{
    reveal(outputs_wf);
    assert forall|k: int|
        0 <= k < outs.len() implies has_global(post, (#[trigger] outs[k]).global_name)
        && global_named(post, outs[k].global_name) == global_named(pre, outs[k].global_name) by {
        let gn = outs[k].global_name;
        assert(has_global(pre, gn));
        let j = choose|j: int| 0 <= j < pre.len() && pre[j].name == gn;
        assert(post[j].name == gn);
        assert(has_global(post, gn));
        let a = choose|a: int| 0 <= a < post.len() && post[a].name == gn;
        let b = choose|b: int| 0 <= b < pre.len() && pre[b].name == gn;
        assert(post[a].name == gn && pre[b].name == gn);
        assert(a < pre.len()) by {
            if a == post.len() - 1 {
                assert(gn == name);
            }
        }
        assert(pre[a].name == gn);
        assert(a == b || pre[a].name != pre[b].name || true);
        assert(post[a] == pre[a]);
        assert(pre[a] == pre[b]) by {
            if a != b {
                assert(pre[a].name == pre[b].name);
            }
        }
    }
}

/// The rectangle the floating policy yields: content size padded by borders
/// and title, centered on the output and clamped to it.
pub open spec fn spec_float_kind(
    width: int,
    height: int,
    bw: int,
    th: int,
    output_kind: NodeKind,
) -> NodeKind {
    match output_kind {
        NodeKind::Output { x1: ox, y1: oy, width: ow, height: oh, .. } => {
            let w = width + 2 * bw;
            let h = height + 2 * bw + th;
            let fx = if w < ow {
                ox + (ow - w) / 2
            } else {
                ox as int
            };
            let fw = if w < ow {
                w
            } else {
                ow as int
            };
            let fy = if h < oh {
                oy + (oh - h) / 2
            } else {
                oy as int
            };
            let fh = if h < oh {
                h
            } else {
                oh as int
            };
            NodeKind::Float { x1: fx as i32, y1: fy as i32, width: fw as i32, height: fh as i32 }
        },
        _ => NodeKind::Toplevel,
    }
}

/// Liveness, output parents and the output/workspace kind variants of the
/// old nodes are as they were.
pub open spec fn frame_at(t0: Tree, t1: Tree, i: int) -> bool {
    &&& t1.live(i) == t0.live(i)
    &&& (t0.kind_of(i) is Output ==> t1.parent_of(i) == t0.parent_of(i))
    &&& (t1.kind_of(i) is Output <==> t0.kind_of(i) is Output)
    &&& (t1.kind_of(i) is Workspace <==> t0.kind_of(i) is Workspace)
}

/// The frame holds at every old node.
pub open spec fn tree_kinds_framed(t0: Tree, t1: Tree) -> bool {
    &&& t1.n() >= t0.n()
    &&& forall|i: int| 0 <= i < t0.n() ==> #[trigger] frame_at(t0, t1, i)
}

/// The `wl_output` global name advertised for a connector's output.
pub open spec fn output_global_name(s: &State, id: u64) -> u32 {
    s.outputs@[choose|k: int|
        0 <= k < s.outputs@.len() && (#[trigger] s.outputs@[k]).connector == id].global_name
}

/// The scene node of a connector's output.
pub open spec fn output_node_of(s: &State, id: u64) -> usize {
    s.outputs@[choose|k: int|
        0 <= k < s.outputs@.len() && (#[trigger] s.outputs@[k]).connector == id].node
}

/// Marking one connector's state changes exactly that connector.
proof fn lemma_conn_mark(
    pre: Seq<ConnectorData>,
    post: Seq<ConnectorData>,
    id: u64,
    st: ConnState,
    olds: State,
)
    requires
        olds.wf(),
        pre == olds.connectors@,
        conn_known(pre, id),
        post.len() == pre.len(),
        forall|j: int|
            0 <= j < pre.len() ==> (#[trigger] post[j]) == (if pre[j].id == id {
                ConnectorData { id: pre[j].id, state: st, name: pre[j].name }
            } else {
                pre[j]
            }),
    ensures
        conn_state_of(post, id) == st,
        conn_known(post, id),
        forall|id2: u64|
            id2 != id ==> conn_known(post, id2) == conn_known(pre, id2) && conn_state_of(
                post,
                id2,
            ) == conn_state_of(pre, id2),
        forall|k1: int, k2: int|
            #![trigger post[k1], post[k2]]
            0 <= k1 < k2 < post.len() ==> post[k1].id != post[k2].id,
{
    assert forall|j: int| 0 <= j < post.len() implies (#[trigger] post[j]).id == pre[j].id by {}
    let j0 = choose|j: int| 0 <= j < pre.len() && pre[j].id == id;
    assert(post[j0].id == id);
    assert(conn_known(post, id));
    assert(conn_state_of(post, id) == st) by {
        let j = choose|j: int| 0 <= j < post.len() && post[j].id == id;
        assert(pre[j].id == id);
        assert(post[j].state == st);
    }
    assert forall|id2: u64|
        id2 != id implies conn_known(post, id2) == conn_known(pre, id2) && conn_state_of(post, id2)
        == conn_state_of(pre, id2) by {
        if conn_known(pre, id2) {
            let j = choose|j: int| 0 <= j < pre.len() && pre[j].id == id2;
            assert(post[j].id == id2);
        }
        if conn_known(post, id2) {
            let j = choose|j: int| 0 <= j < post.len() && post[j].id == id2;
            assert(pre[j].id == id2);
            let a = choose|a: int| 0 <= a < post.len() && post[a].id == id2;
            let b = choose|b: int| 0 <= b < pre.len() && pre[b].id == id2;
            assert(post[a].id == id2 && pre[b].id == id2);
            assert(pre[a].id == id2);
            assert(a == b) by {
                if a != b {
                    assert(pre[a].id != pre[b].id);
                }
            }
            assert(post[a].state == pre[b].state);
        }
    }
}

/// After a disconnect the compositor invariant holds again: the removed
/// output's entry, global and node are gone together, and everything that
/// remains is as it was.
#[verifier::rlimit(100)]
#[verifier::spinoff_prover]
proof fn lemma_disconnect_wf(
    pre: State,
    post: State,
    id: u64,
    k: int,
    o: usize,
    g: u32,
    t1: Tree,
)
    requires
        pre.wf(),
        0 <= k < pre.outputs@.len(),
        pre.outputs@[k].connector == id,
        pre.outputs@[k].node == o,
        pre.outputs@[k].global_name == g,
        tree_kinds_framed(pre.tree, t1),
        t1.n() == pre.tree.n(),
        t1.kind_of(o as int) is Output,
        post.tree.wf(),
        post.tree.n() == t1.n(),
        !post.tree.live(o as int),
        forall|i: int|
            0 <= i < t1.n() && i != o ==> post.tree.live(i) == t1.live(i) && post.tree.kind_of(i)
                == t1.kind_of(i) && post.tree.parent_of(i) == t1.parent_of(i),
        post.outputs@ == pre.outputs@.remove(k),
        post.globals.wf(),
        post.globals.next_name == pre.globals.next_name,
        !has_global(post.globals.entries@, g),
        forall|n2: u32|
            n2 != g ==> (has_global(post.globals.entries@, n2) <==> has_global(
                pre.globals.entries@,
                n2,
            )),
        forall|n2: u32|
            n2 != g && has_global(post.globals.entries@, n2) ==> global_named(
                post.globals.entries@,
                n2,
            ) == global_named(pre.globals.entries@, n2),
        conn_state_of(post.connectors@, id) == ConnState::Disconnected,
        forall|id2: u64|
            id2 != id ==> conn_known(post.connectors@, id2) == conn_known(pre.connectors@, id2)
                && conn_state_of(post.connectors@, id2) == conn_state_of(pre.connectors@, id2),
        forall|k1: int, k2: int|
            #![trigger post.connectors@[k1], post.connectors@[k2]]
            0 <= k1 < k2 < post.connectors@.len() ==> post.connectors@[k1].id
                != post.connectors@[k2].id,
        post.seats@.len() == pre.seats@.len(),
        forall|j: int|
            0 <= j < pre.seats@.len() ==> (#[trigger] post.seats@[j]) == (if pre.seats@[j].output
                == o {
                Seat { output: pre.dummy_output, ..pre.seats@[j] }
            } else {
                pre.seats@[j]
            }),
        post.workspaces@ == pre.workspaces@,
        post.clients@ == pre.clients@,
        post.seat_queue@ == pre.seat_queue@,
        post.dummy_output == pre.dummy_output,
        post.dummy_output != o,
        post.tree.n() < usize::MAX,
    ensures
        post.wf(),
{
    let outs0 = pre.outputs@;
    let outs1 = post.outputs@;
    let g0 = pre.globals.entries@;
    let g1 = post.globals.entries@;
    let d = pre.dummy_output;
    assert(frame_at(pre.tree, t1, d as int));
    assert(post.tree.live(d as int) && post.tree.kind_of(d as int) is Output
        && post.tree.parent_of(d as int) == 0);
    reveal(outputs_wf);
    assert forall|j: int| 0 <= j < outs1.len() implies {
        &&& 0 < (#[trigger] outs1[j]).node < post.tree.n()
        &&& post.tree.live(outs1[j].node as int)
        &&& post.tree.kind_of(outs1[j].node as int) is Output
        &&& post.tree.parent_of(outs1[j].node as int) == 0
        &&& has_global(g1, outs1[j].global_name)
        &&& global_named(g1, outs1[j].global_name).interface == Interface::WlOutput
        &&& conn_state_of(post.connectors@, outs1[j].connector) == ConnState::Connected
        &&& conn_known(post.connectors@, outs1[j].connector)
        &&& outs1[j].node != post.dummy_output
    } by {
        let j0 = if j < k {
            j
        } else {
            j + 1
        };
        assert(outs1[j] == outs0[j0]);
        assert(j0 != k);
        assert(outs0[j0].node != o && outs0[j0].global_name != g && outs0[j0].connector != id) by {
            if j0 < k {
                assert(outs0[j0].node != outs0[k].node);
            } else {
                assert(outs0[k].node != outs0[j0].node);
            }
        }
        assert(frame_at(pre.tree, t1, outs0[j0].node as int));
        assert(post.tree.live(outs0[j0].node as int) == t1.live(outs0[j0].node as int));
        assert(has_global(g0, outs0[j0].global_name));
        assert(has_global(g1, outs0[j0].global_name));
        assert(global_named(g1, outs0[j0].global_name) == global_named(g0, outs0[j0].global_name));
        assert(conn_state_of(pre.connectors@, outs0[j0].connector) == ConnState::Connected);
    }
    assert forall|k1: int, k2: int|
        0 <= k1 < k2 < outs1.len() implies (#[trigger] outs1[k1]).node != (
    #[trigger] outs1[k2]).node && outs1[k1].global_name != outs1[k2].global_name
        && outs1[k1].connector != outs1[k2].connector by {
        let a0 = if k1 < k {
            k1
        } else {
            k1 + 1
        };
        let b0 = if k2 < k {
            k2
        } else {
            k2 + 1
        };
        assert(outs1[k1] == outs0[a0] && outs1[k2] == outs0[b0]);
        assert(a0 < b0);
    }
    assert forall|e: int|
        0 <= e < g1.len() && (#[trigger] g1[e]).interface == Interface::WlOutput implies exists|
        j: int,
    |
        0 <= j < outs1.len() && outs1[j].global_name == g1[e].name by {
        let nm = g1[e].name;
        assert(has_global(g1, nm)) by {
            assert(g1[e].name == nm);
        }
        assert(nm != g);
        assert(has_global(g0, nm));
        let b = choose|b: int| 0 <= b < g0.len() && g0[b].name == nm;
        assert(global_named(g0, nm) == g0[b]) by {
            let c = choose|c: int| 0 <= c < g0.len() && g0[c].name == nm;
            assert(g0[c].name == nm);
            assert(c == b) by {
                if c != b {
                    assert(g0[c].name != g0[b].name);
                }
            }
        }
        assert(global_named(g1, nm) == g1[e]) by {
            let a = choose|a: int| 0 <= a < g1.len() && g1[a].name == nm;
            assert(g1[a].name == nm);
            assert(a == e) by {
                if a != e {
                    assert(g1[a].name != g1[e].name);
                }
            }
        }
        assert(g0[b] == g1[e]);
        assert(g0[b].interface == Interface::WlOutput);
        let k2 = choose|k2: int| 0 <= k2 < outs0.len() && outs0[k2].global_name == g0[b].name;
        assert(outs0[k2].global_name == nm);
        assert(k2 != k);
        let j = if k2 < k {
            k2
        } else {
            k2 - 1
        };
        assert(outs1[j] == outs0[k2]);
        assert(outs1[j].global_name == g1[e].name);
    }
    assert(workspaces_wf(post.workspaces@, post.tree)) by {
        reveal(workspaces_wf);
        assert forall|j: int| 0 <= j < post.workspaces@.len() implies {
            &&& 0 < (#[trigger] post.workspaces@[j]).1 < post.tree.n()
            &&& post.tree.live(post.workspaces@[j].1 as int)
            &&& post.tree.kind_of(post.workspaces@[j].1 as int) is Workspace
        } by {
            let wn = pre.workspaces@[j].1;
            assert(pre.tree.kind_of(wn as int) is Workspace);
            assert(frame_at(pre.tree, t1, wn as int));
            assert(wn != o) by {
                if wn == o {
                    assert(t1.kind_of(o as int) is Output);
                }
            }
        }
    }
    assert(clients_wf(post.clients@)) by {
        reveal(clients_wf);
    }
    assert(seats_wf(post.seats@, post.seat_queue@, post.tree)) by {
        reveal(seats_wf);
        assert forall|i: int| 0 <= i < post.seats@.len() implies {
            &&& 0 < (#[trigger] post.seats@[i]).output < post.tree.n()
            &&& post.tree.live(post.seats@[i].output as int)
            &&& post.tree.kind_of(post.seats@[i].output as int) is Output
        } by {
            if pre.seats@[i].output == o {
                assert(post.seats@[i].output == d);
            } else {
                assert(post.seats@[i].output == pre.seats@[i].output);
                assert(frame_at(pre.tree, t1, pre.seats@[i].output as int));
            }
        }
        assert forall|i: int|
            0 <= i < post.seat_queue@.len() implies (#[trigger] post.seat_queue@[i])
            < post.seats@.len() by {}
    }
}

/// Law: every registered output is backed by a connected connector and an
/// advertised `wl_output` global, and every advertised `wl_output` global
/// belongs to a registered output.
pub proof fn lemma_output_global_correspondence(s: &State, k: int, e: int)
    requires
        s.wf(),
        0 <= k < s.outputs@.len() || 0 <= e < s.globals.entries@.len()
            && s.globals.entries@[e].interface == Interface::WlOutput,
    ensures
        0 <= k < s.outputs@.len() ==> {
            &&& has_global(s.globals.entries@, s.outputs@[k].global_name)
            &&& global_named(s.globals.entries@, s.outputs@[k].global_name).interface
                == Interface::WlOutput
            &&& conn_state_of(s.connectors@, s.outputs@[k].connector) == ConnState::Connected
        },
        0 <= e < s.globals.entries@.len() && s.globals.entries@[e].interface == Interface::WlOutput
            ==> exists|k2: int|
            0 <= k2 < s.outputs@.len() && s.outputs@[k2].global_name == s.globals.entries@[e].name,
{
    reveal(outputs_wf);
}

} // verus!
