use jay_core::cli::{CliLogLevel, LogLevel};
use jay_core::client::{Client, ClientError, EventMsg, Interface};
use jay_core::config::{Axis, ConfigClient, Workspace};
use jay_core::dmabuf::{FormatEntry, FormatModifier, RenderCtx, ZwpLinuxDmabufV1Global};
use jay_core::kde_decoration::{KdeDecorationError, OrgKdeKwinServerDecorationManagerGlobal};
use jay_core::registry::Registry;
use jay_core::state::State;
use jay_core::sync_queue::SyncQueue;
use jay_core::theme::Theme;
use jay_core::tree::NodeKind;
use jay_core::xdg_decoration::{Decoration, ZxdgToplevelDecorationV1};

#[test]
fn axis_other_flips() {
    assert_eq!(Axis::Horizontal.other(), Axis::Vertical);
    assert_eq!(Axis::Vertical.other(), Axis::Horizontal);
}

#[test]
fn default_log_level_is_info() {
    assert_eq!(CliLogLevel::default(), CliLogLevel::Info);
    assert_eq!(CliLogLevel::Warn.to_level(), LogLevel::Warn);
}

#[test]
fn theme_defaults() {
    let t = Theme::default();
    assert_eq!(t.title_height, 17);
    assert_eq!(t.border_width, 4);
    assert_eq!(t.font, "monospace 8");
}

#[test]
fn sync_queue_is_fifo() {
    let mut q: SyncQueue<u32> = SyncQueue::new();
    assert!(q.is_empty());
    q.push(1);
    q.push(2);
    assert!(!q.is_empty());
    assert_eq!(q.pop(), Some(1));
    assert_eq!(q.pop(), Some(2));
    assert_eq!(q.pop(), None);
}

#[test]
fn unknown_workspace_does_not_exist() {
    let c = ConfigClient::new(false);
    let w = jay_core::config::get_workspace(&c, "web");
    assert_eq!(w, Workspace(0));
    assert!(!w.is_present());
}

#[test]
fn workspace_capture_toggles() {
    let mut c = ConfigClient::new(false);
    assert!(jay_core::config::get_default_workspace_capture(&c));
    jay_core::config::toggle_default_workspace_capture(&mut c);
    assert!(!jay_core::config::get_default_workspace_capture(&c));
    let w = Workspace(7);
    assert!(!w.get_capture(&c));
    w.set_capture(&mut c, true);
    assert!(w.get_capture(&c));
    w.toggle_capture(&mut c);
    assert!(!w.get_capture(&c));
}

#[test]
fn id_reuse_only_after_delete_id() {
    let mut c = Client::new();
    assert_eq!(c.add_client_obj(3, Interface::WlSurface, 4), Ok(()));
    assert_eq!(
        c.add_client_obj(3, Interface::WlSurface, 4),
        Err(ClientError::IdInUse(3))
    );
    assert_eq!(c.remove_obj(3), Ok(()));
    let evs = c.take_events();
    assert_eq!(evs, vec![EventMsg::DeleteId { id: 3 }]);
    assert_eq!(c.add_client_obj(3, Interface::WlSurface, 4), Ok(()));
}

#[test]
fn client_rejects_out_of_range_ids() {
    let mut c = Client::new();
    assert_eq!(
        c.add_client_obj(0, Interface::WlSurface, 1),
        Err(ClientError::IdOutOfRange(0))
    );
    assert_eq!(
        c.add_client_obj(0xFF000001, Interface::WlSurface, 1),
        Err(ClientError::IdOutOfRange(0xFF000001))
    );
}

#[test]
fn unknown_opcode_is_invalid_method() {
    let mut c = Client::new();
    c.add_client_obj(9, Interface::OrgKdeKwinServerDecoration, 1).unwrap();
    assert_eq!(c.check_opcode(9, 1), Ok(()));
    assert_eq!(c.check_opcode(9, 2), Err(ClientError::InvalidMethod));
    assert_eq!(c.check_opcode(10, 0), Err(ClientError::InvalidObject(10)));
}

#[test]
fn kde_decoration_scenario() {
    let mut c = Client::new();
    c.add_client_obj(3, Interface::WlSurface, 4).unwrap();
    let global = OrgKdeKwinServerDecorationManagerGlobal::new(1);
    let mgr = global.bind_(4, &mut c, 1).unwrap();
    assert_eq!(
        c.take_events(),
        vec![EventMsg::KdeDefaultMode { obj: 4, mode: 2 }]
    );
    let mut deco = mgr.create(&mut c, 3, 5).unwrap();
    assert_eq!(c.take_events(), vec![EventMsg::KdeMode { obj: 5, mode: 2 }]);
    // First request is answered with SERVER whatever was asked.
    deco.request_mode(&mut c, 1).unwrap();
    assert_eq!(c.take_events(), vec![EventMsg::KdeMode { obj: 5, mode: 2 }]);
    // Later requests are answered with the requested mode itself.
    deco.request_mode(&mut c, 1).unwrap();
    assert_eq!(c.take_events(), vec![EventMsg::KdeMode { obj: 5, mode: 1 }]);
    // A mode beyond SERVER is a protocol error.
    assert_eq!(
        deco.request_mode(&mut c, 5),
        Err(KdeDecorationError::InvalidMode(5))
    );
}

#[test]
fn toplevel_decoration_configures() {
    let mut c = Client::new();
    let d = ZxdgToplevelDecorationV1::new(8, 6, Decoration::Server);
    d.set_mode(&mut c, 1).unwrap();
    assert_eq!(
        c.take_events(),
        vec![
            EventMsg::DecorationConfigure { obj: 8, mode: 2 },
            EventMsg::ToplevelConfigure { obj: 6 },
        ]
    );
    d.unset_mode(&mut c).unwrap();
    assert_eq!(
        c.take_events(),
        vec![
            EventMsg::DecorationConfigure { obj: 8, mode: 2 },
            EventMsg::ToplevelConfigure { obj: 6 },
        ]
    );
}

fn test_ctx() -> RenderCtx {
    RenderCtx {
        dev: 0xE601,
        supports_external_texture: false,
        formats: vec![
            FormatEntry {
                drm: 0x34325258, // XR24
                implicit_external_only: false,
                modifiers: vec![
                    FormatModifier { modifier: 0, external_only: false },
                    FormatModifier { modifier: 0x0100000000000001, external_only: true },
                ],
            },
            FormatEntry {
                drm: 0x34325241, // AR24
                implicit_external_only: true,
                modifiers: vec![FormatModifier { modifier: 0, external_only: false }],
            },
        ],
    }
}

#[test]
fn dmabuf_bind_v3_advertises_formats_and_modifiers() {
    let mut c = Client::new();
    let global = ZwpLinuxDmabufV1Global::new(2);
    let ctx = test_ctx();
    let obj = global.bind_(6, &mut c, 3, Some(&ctx)).unwrap();
    assert_eq!(obj.id, 6);
    // The external-only modifier and the external-only format are skipped.
    assert_eq!(
        c.take_events(),
        vec![
            EventMsg::DmabufFormat { obj: 6, format: 0x34325258 },
            EventMsg::DmabufModifier {
                obj: 6,
                format: 0x34325258,
                modifier_hi: 0,
                modifier_lo: 0
            },
        ]
    );
}

#[test]
fn dmabuf_bind_v4_advertises_nothing() {
    let mut c = Client::new();
    let global = ZwpLinuxDmabufV1Global::new(2);
    let ctx = test_ctx();
    global.bind_(6, &mut c, 4, Some(&ctx)).unwrap();
    assert_eq!(c.take_events(), vec![]);
}

#[test]
fn dmabuf_feedback_table_is_sealed_and_sized() {
    let mut c = Client::new();
    let global = ZwpLinuxDmabufV1Global::new(2);
    let obj = global.bind_(6, &mut c, 4, Some(&test_ctx())).unwrap();
    c.take_events();
    let ctx = test_ctx();
    let (fb, table) = obj.get_default_feedback(&mut c, 7, Some(&ctx)).unwrap();
    assert_eq!(fb.id, 7);
    // One format is external-only, one modifier is external-only: one row.
    assert_eq!(table.size, 16);
    let evs = c.take_events();
    assert_eq!(
        evs,
        vec![
            EventMsg::MainDevice { obj: 7, device: 0xE601 },
            EventMsg::FormatTable { obj: 7, size: 16 },
            EventMsg::TrancheTargetDevice { obj: 7, device: 0xE601 },
            EventMsg::TrancheFormats { obj: 7, count: 1 },
            EventMsg::TrancheFlags { obj: 7, flags: 0 },
            EventMsg::TrancheDone { obj: 7 },
            EventMsg::Done { obj: 7 },
        ]
    );
    // The memfd passes all three seal bits and holds exactly 16 bytes.
    let seals = uapi::fcntl_get_seals(table.fd.raw()).unwrap();
    assert_eq!(seals & uapi::c::F_SEAL_GROW, uapi::c::F_SEAL_GROW);
    assert_eq!(seals & uapi::c::F_SEAL_SHRINK, uapi::c::F_SEAL_SHRINK);
    assert_eq!(seals & uapi::c::F_SEAL_WRITE, uapi::c::F_SEAL_WRITE);
    let st = uapi::fstat(table.fd.raw()).unwrap();
    assert_eq!(st.st_size, 16);
}

#[test]
fn registry_clamps_versions_and_guards_singletons() {
    let mut reg = Registry::new();
    let name = reg.add(Interface::ZwpLinuxDmabufV1, 4, true);
    let mut c = Client::new();
    let (interface, version) = reg.bind(&mut c, name, 7).unwrap();
    assert_eq!(interface, Interface::ZwpLinuxDmabufV1);
    assert_eq!(version, 4);
    // Binding the singleton again is a protocol error.
    assert_eq!(
        reg.bind(&mut c, name, 4),
        Err(ClientError::SingletonBound(name))
    );
    // Unknown names are invalid.
    assert_eq!(reg.bind(&mut c, 99, 1), Err(ClientError::InvalidObject(99)));
}

#[test]
fn registry_replays_globals_in_insertion_order() {
    let mut reg = Registry::new();
    let n1 = reg.add(Interface::WlCompositor, 4, true);
    let n2 = reg.add(Interface::WlShm, 1, true);
    let mut c = Client::new();
    reg.replay(&mut c);
    assert_eq!(
        c.take_events(),
        vec![
            EventMsg::GlobalAdded { name: n1, interface: Interface::WlCompositor, version: 4 },
            EventMsg::GlobalAdded { name: n2, interface: Interface::WlShm, version: 1 },
        ]
    );
}

#[test]
fn two_tiled_toplevels_share_one_container() {
    let mut s = State::new();
    let t1 = s.map_tiled();
    let c1 = s.tree.nodes[t1].parent;
    assert!(matches!(
        s.tree.nodes[c1].kind,
        NodeKind::Container { split: Axis::Horizontal }
    ));
    assert_eq!(s.tree.nodes[c1].children, vec![t1]);
    let t2 = s.map_tiled();
    let c2 = s.tree.nodes[t2].parent;
    assert_eq!(c1, c2);
    assert_eq!(s.tree.nodes[c1].children, vec![t1, t2]);
}

#[test]
fn connector_lifecycle_advertises_wl_output() {
    let mut s = State::new();
    s.clients.push(Client::new());
    assert!(s.new_connector(11, String::from("HDMI-A-1")));
    assert!(!s.new_connector(11, String::from("HDMI-A-1")));
    let (node, name) = s.connector_connected(11, 1920, 1080);
    assert_eq!(s.outputs.len(), 1);
    assert_eq!(s.outputs[0].connector, 11);
    assert_eq!(s.outputs[0].node, node);
    match s.tree.nodes[node].kind {
        NodeKind::Output { connector, is_dummy, x1, y1, width, height, .. } => {
            assert_eq!(connector, 11);
            assert!(!is_dummy);
            assert_eq!((x1, y1, width, height), (0, 0, 1920, 1080));
        }
        _ => panic!("not an output"),
    }
    let evs = s.clients[0].take_events();
    assert_eq!(
        evs,
        vec![EventMsg::GlobalAdded { name, interface: Interface::WlOutput, version: 4 }]
    );
    // A second monitor is placed to the right of the first.
    assert!(s.new_connector(12, String::from("DP-1")));
    let (node2, _) = s.connector_connected(12, 800, 600);
    match s.tree.nodes[node2].kind {
        NodeKind::Output { x1, .. } => assert_eq!(x1, 1920),
        _ => panic!("not an output"),
    }
}

#[test]
fn slow_client_accounting() {
    let mut c = Client::new();
    let e = EventMsg::Done { obj: 1 };
    assert_eq!(e.wire_size(), 8);
    c.event(e);
    assert_eq!(c.queued_bytes, 8);
    assert!(!c.slow);
    c.take_events();
    assert_eq!(c.queued_bytes, 0);
}

#[test]
fn ensure_workspace_is_current_and_stable() {
    let mut s = State::new();
    let d = s.dummy_output;
    let w1 = s.ensure_workspace(d);
    let w2 = s.ensure_workspace(d);
    assert_eq!(w1, w2);
    assert!(matches!(s.tree.nodes[w1].kind, NodeKind::Workspace { .. }));
    assert_eq!(s.tree.nodes[w1].parent, d);
}

#[test]
fn show_workspace_on_dummy_output_is_refused() {
    let mut s = State::new();
    s.seats.push(jay_core::state::Seat {
        output: s.dummy_output,
        x: 0,
        y: 0,
        focused: 0,
        last_tiled_toplevel: 0,
        tree_change_pending: false,
        render_ctx_changed: false,
    });
    let nodes_before = s.tree.nodes.len();
    let ws_before = s.workspaces.len();
    // No workspace "web" exists and the seat is on the dummy output: the
    // tree and the workspace map stay as they are.
    s.show_workspace(0, "web");
    assert_eq!(s.tree.nodes.len(), nodes_before);
    assert_eq!(s.workspaces.len(), ws_before);
}

#[test]
fn show_workspace_creates_and_activates() {
    let mut s = State::new();
    s.new_connector(21, String::from("HDMI-A-1"));
    let (out_node, _) = s.connector_connected(21, 1024, 768);
    s.seats.push(jay_core::state::Seat {
        output: out_node,
        x: 0,
        y: 0,
        focused: 0,
        last_tiled_toplevel: 0,
        tree_change_pending: false,
        render_ctx_changed: false,
    });
    s.show_workspace(0, "web");
    assert_eq!(s.workspaces.len(), 1);
    assert_eq!(s.workspaces[0].0, "web");
    let w = s.workspaces[0].1;
    assert!(matches!(s.tree.nodes[w].kind, NodeKind::Workspace { visible: true }));
    assert_eq!(s.seats[0].focused, w);
    // Showing it again changes nothing structural and keeps it visible.
    s.show_workspace(0, "web");
    assert_eq!(s.workspaces.len(), 1);
    assert!(matches!(s.tree.nodes[w].kind, NodeKind::Workspace { visible: true }));
}

#[test]
fn map_floating_centers_and_pads() {
    let mut s = State::new();
    s.new_connector(31, String::from("DP-2"));
    let (out_node, _) = s.connector_connected(31, 1000, 800);
    let ws = s.ensure_workspace(out_node);
    // border width 4, title height 17: 100x100 content becomes 108x125.
    let (fl, node) = s.map_floating(100, 100, ws);
    match s.tree.nodes[fl].kind {
        NodeKind::Float { x1, y1, width, height } => {
            assert_eq!((width, height), (108, 125));
            assert_eq!(x1, (1000 - 108) / 2);
            assert_eq!(y1, (800 - 125) / 2);
        }
        _ => panic!("not a float"),
    }
    assert_eq!(s.tree.nodes[fl].parent, ws);
    assert_eq!(s.tree.nodes[node].parent, fl);
}

#[test]
fn disconnect_withdraws_exactly_one_wl_output() {
    let mut s = State::new();
    s.clients.push(Client::new());
    s.new_connector(41, String::from("HDMI-A-1"));
    let (_n1, g1) = s.connector_connected(41, 1920, 1080);
    s.new_connector(42, String::from("DP-1"));
    let (n2, _g2) = s.connector_connected(42, 800, 600);
    // Put a named workspace on the second output so the disconnect has
    // something to hand over to the dummy output.
    s.seats.push(jay_core::state::Seat {
        output: n2,
        x: 0,
        y: 0,
        focused: 0,
        last_tiled_toplevel: 0,
        tree_change_pending: false,
        render_ctx_changed: false,
    });
    s.show_workspace(0, "mail");
    let w = s.workspaces[0].1;
    s.clients[0].take_events();
    // Disconnecting the second monitor removes exactly its wl_output global
    // and moves its workspace to the dummy output.
    s.connector_disconnected(42).unwrap();
    assert_eq!(s.outputs.len(), 1);
    assert_eq!(s.outputs[0].global_name, g1);
    assert!(!s.tree.nodes[n2].live);
    assert_eq!(s.tree.nodes[w].parent, s.dummy_output);
    assert_eq!(s.seats[0].output, s.dummy_output);
    let evs = s.clients[0].take_events();
    assert_eq!(evs.len(), 1);
    assert!(matches!(evs[0], EventMsg::GlobalRemoved { .. }));
    // The connector can now be removed for good; a connected one cannot.
    assert_eq!(s.connector_removed(42), Ok(()));
    assert_eq!(s.connector_removed(41), Err(()));
}

#[test]
fn mode_change_reaches_every_client() {
    let mut s = State::new();
    s.clients.push(Client::new());
    s.new_connector(51, String::from("HDMI-A-2"));
    let (node, name) = s.connector_connected(51, 640, 480);
    s.clients[0].take_events();
    s.connector_mode_changed(51, 1280, 720, 60000).unwrap();
    match s.tree.nodes[node].kind {
        NodeKind::Output { width, height, .. } => assert_eq!((width, height), (1280, 720)),
        _ => panic!("not an output"),
    }
    assert_eq!(
        s.clients[0].take_events(),
        vec![EventMsg::OutputMode { obj: name, width: 1280, height: 720, refresh: 60000 }]
    );
    // An unknown connector has no output to change.
    assert_eq!(s.connector_mode_changed(99, 1, 1, 1), Err(()));
}

#[test]
fn tiled_toplevel_joins_its_sibling() {
    let mut s = State::new();
    let t1 = s.map_tiled();
    let t2 = s.map_tiled();
    let c = s.tree.nodes[t1].parent;
    assert_eq!(s.tree.nodes[c].children, vec![t1, t2]);
    // A seat whose keyboard last sat in t1, on the workspace's output: the
    // next toplevel goes directly after t1, not at the end.
    let ws = s.tree.nodes[c].parent;
    let out = s.tree.nodes[ws].parent;
    s.seats.push(jay_core::state::Seat {
        output: out,
        x: 0,
        y: 0,
        focused: t1,
        last_tiled_toplevel: t1,
        tree_change_pending: false,
        render_ctx_changed: false,
    });
    s.seat_queue.push(0);
    let t3 = s.map_tiled();
    assert_eq!(s.tree.nodes[t3].parent, c);
    assert_eq!(s.tree.nodes[c].children, vec![t1, t3, t2]);
}

#[test]
fn first_output_centers_every_seat() {
    let mut s = State::new();
    s.seats.push(jay_core::state::Seat {
        output: s.dummy_output,
        x: 0,
        y: 0,
        focused: 0,
        last_tiled_toplevel: 0,
        tree_change_pending: false,
        render_ctx_changed: false,
    });
    s.new_connector(61, String::from("HDMI-A-3"));
    s.connector_connected(61, 1920, 1080);
    assert_eq!((s.seats[0].x, s.seats[0].y), (960, 540));
    // A second output does not move the seats.
    s.new_connector(62, String::from("DP-3"));
    s.connector_connected(62, 800, 600);
    assert_eq!((s.seats[0].x, s.seats[0].y), (960, 540));
}
