//! One connected Wayland client: its object id table, its outbound event
//! queue with byte accounting for backpressure, and the id-reuse discipline
//! (an id freed by the server is reusable only once `delete_id` for it has
//! been queued to the client).

use vstd::prelude::*;

verus! {

/// Lowest id of the server-allocated half of the id space.
pub const SERVER_ID_BASE: u32 = 0xFF000000;

/// Once more than this many bytes of events are queued, the client is
/// considered slow and is served at lower priority.
pub const SLOW_CLIENT_SOFT_LIMIT: u64 = 1048576;

/// An id a client may allocate: nonzero and below the server half.
pub open spec fn is_client_id(id: u32) -> bool {
    1 <= id < SERVER_ID_BASE
}

/// An id the server allocates.
pub open spec fn is_server_id(id: u32) -> bool {
    id >= SERVER_ID_BASE
}

/// A Wayland interface this core realizes or routes.
#[derive(Copy, Clone, Debug, PartialEq, Eq, Structural)]
pub enum Interface {
    WlDisplay,
    WlRegistry,
    WlCompositor,
    WlSubcompositor,
    WlShm,
    WlSeat,
    WlOutput,
    XdgWmBase,
    XdgToplevel,
    WlSurface,
    ZxdgToplevelDecorationV1,
    OrgKdeKwinServerDecorationManager,
    OrgKdeKwinServerDecoration,
    ZwpLinuxDmabufV1,
    ZwpLinuxDmabufFeedbackV1,
    ZwpLinuxBufferParamsV1,
}

impl Interface {
    /// How many requests the interface declares; an opcode at or above this
    /// is invalid.
    pub fn num_requests(self) -> (r: u32)
        ensures
            r == self.spec_num_requests(),
    {
        match self {
            Interface::WlDisplay => 2,
            Interface::WlRegistry => 1,
            Interface::WlCompositor => 2,
            Interface::WlSubcompositor => 2,
            Interface::WlShm => 1,
            Interface::WlSeat => 4,
            Interface::WlOutput => 1,
            Interface::XdgWmBase => 4,
            Interface::XdgToplevel => 14,
            Interface::WlSurface => 10,
            Interface::ZxdgToplevelDecorationV1 => 3,
            Interface::OrgKdeKwinServerDecorationManager => 1,
            Interface::OrgKdeKwinServerDecoration => 2,
            Interface::ZwpLinuxDmabufV1 => 4,
            Interface::ZwpLinuxDmabufFeedbackV1 => 1,
            Interface::ZwpLinuxBufferParamsV1 => 4,
        }
    }

    pub open spec fn spec_num_requests(self) -> u32 {
        match self {
            Interface::WlDisplay => 2,
            Interface::WlRegistry => 1,
            Interface::WlCompositor => 2,
            Interface::WlSubcompositor => 2,
            Interface::WlShm => 1,
            Interface::WlSeat => 4,
            Interface::WlOutput => 1,
            Interface::XdgWmBase => 4,
            Interface::XdgToplevel => 14,
            Interface::WlSurface => 10,
            Interface::ZxdgToplevelDecorationV1 => 3,
            Interface::OrgKdeKwinServerDecorationManager => 1,
            Interface::OrgKdeKwinServerDecoration => 2,
            Interface::ZwpLinuxDmabufV1 => 4,
            Interface::ZwpLinuxDmabufFeedbackV1 => 1,
            Interface::ZwpLinuxBufferParamsV1 => 4,
        }
    }

    /// Length in bytes of the interface's name including the trailing NUL,
    /// as it appears inside a `wl_registry.global` event.
    pub fn name_len(self) -> (r: u32)
        ensures
            r == self.spec_name_len(),
    {
        match self {
            Interface::WlDisplay => 11,
            Interface::WlRegistry => 12,
            Interface::WlCompositor => 14,
            Interface::WlSubcompositor => 17,
            Interface::WlShm => 7,
            Interface::WlSeat => 8,
            Interface::WlOutput => 10,
            Interface::XdgWmBase => 12,
            Interface::XdgToplevel => 13,
            Interface::WlSurface => 11,
            Interface::ZxdgToplevelDecorationV1 => 28,
            Interface::OrgKdeKwinServerDecorationManager => 39,
            Interface::OrgKdeKwinServerDecoration => 31,
            Interface::ZwpLinuxDmabufV1 => 20,
            Interface::ZwpLinuxDmabufFeedbackV1 => 29,
            Interface::ZwpLinuxBufferParamsV1 => 27,
        }
    }

    pub open spec fn spec_name_len(self) -> u32 {
        match self {
            Interface::WlDisplay => 11,
            Interface::WlRegistry => 12,
            Interface::WlCompositor => 14,
            Interface::WlSubcompositor => 17,
            Interface::WlShm => 7,
            Interface::WlSeat => 8,
            Interface::WlOutput => 10,
            Interface::XdgWmBase => 12,
            Interface::XdgToplevel => 13,
            Interface::WlSurface => 11,
            Interface::ZxdgToplevelDecorationV1 => 28,
            Interface::OrgKdeKwinServerDecorationManager => 39,
            Interface::OrgKdeKwinServerDecoration => 31,
            Interface::ZwpLinuxDmabufV1 => 20,
            Interface::ZwpLinuxDmabufFeedbackV1 => 29,
            Interface::ZwpLinuxBufferParamsV1 => 27,
        }
    }
}

/// An entry of the object table: which interface the object implements and
/// the version it was bound or created with.
#[derive(Copy, Clone, Debug, PartialEq, Eq, Structural)]
pub struct ObjectEntry {
    pub interface: Interface,
    pub version: u32,
}

/// An outbound event of the core, already parsed; the wire form is derived
/// from it.
#[derive(Copy, Clone, Debug, PartialEq, Eq, Structural)]
pub enum EventMsg {
    /// `wl_display.delete_id`: the id may be reused by the client.
    DeleteId { id: u32 },
    /// `wl_display.error`: fatal protocol error on an object.
    ProtocolError { obj: u32, code: u32 },
    /// `wl_registry.global`.
    GlobalAdded { name: u32, interface: Interface, version: u32 },
    /// `wl_registry.global_remove`.
    GlobalRemoved { name: u32 },
    /// `wl_output.mode`.
    OutputMode { obj: u32, width: i32, height: i32, refresh: u32 },
    /// `zwp_linux_dmabuf_v1.format`.
    DmabufFormat { obj: u32, format: u32 },
    /// `zwp_linux_dmabuf_v1.modifier`.
    DmabufModifier { obj: u32, format: u32, modifier_hi: u32, modifier_lo: u32 },
    /// `zwp_linux_dmabuf_feedback_v1.main_device`.
    MainDevice { obj: u32, device: u64 },
    /// `zwp_linux_dmabuf_feedback_v1.format_table`; the fd rides out of band.
    FormatTable { obj: u32, size: u32 },
    /// `zwp_linux_dmabuf_feedback_v1.tranche_target_device`.
    TrancheTargetDevice { obj: u32, device: u64 },
    /// `zwp_linux_dmabuf_feedback_v1.tranche_formats`; the wire form carries
    /// the index list `0..count`.
    TrancheFormats { obj: u32, count: u16 },
    /// `zwp_linux_dmabuf_feedback_v1.tranche_flags`.
    TrancheFlags { obj: u32, flags: u32 },
    /// `zwp_linux_dmabuf_feedback_v1.tranche_done`.
    TrancheDone { obj: u32 },
    /// `zwp_linux_dmabuf_feedback_v1.done`.
    Done { obj: u32 },
    /// `org_kde_kwin_server_decoration_manager.default_mode`.
    KdeDefaultMode { obj: u32, mode: u32 },
    /// `org_kde_kwin_server_decoration.mode`.
    KdeMode { obj: u32, mode: u32 },
    /// `zxdg_toplevel_decoration_v1.configure`.
    DecorationConfigure { obj: u32, mode: u32 },
    /// The toplevel's current `xdg_surface.configure` round.
    ToplevelConfigure { obj: u32 },
}

/// Bytes of the event's wire frame: an 8-byte header plus the arguments,
/// strings NUL-terminated and padded to 4, arrays length-prefixed and padded
/// to 4, fds out of band.
pub open spec fn spec_wire_size(e: &EventMsg) -> int {
    match e {
        EventMsg::DeleteId { .. } => 12,
        EventMsg::ProtocolError { .. } => 16,
        EventMsg::GlobalAdded { interface, .. } => 20 + pad4(interface.spec_name_len() as int),
        EventMsg::GlobalRemoved { .. } => 12,
        EventMsg::OutputMode { .. } => 20,
        EventMsg::DmabufFormat { .. } => 12,
        EventMsg::DmabufModifier { .. } => 20,
        EventMsg::MainDevice { .. } => 20,
        EventMsg::FormatTable { .. } => 12,
        EventMsg::TrancheTargetDevice { .. } => 20,
        EventMsg::TrancheFormats { count, .. } => 12 + pad4(2 * (*count as int)),
        EventMsg::TrancheFlags { .. } => 12,
        EventMsg::TrancheDone { .. } => 8,
        EventMsg::Done { .. } => 8,
        EventMsg::KdeDefaultMode { .. } => 12,
        EventMsg::KdeMode { .. } => 12,
        EventMsg::DecorationConfigure { .. } => 12,
        EventMsg::ToplevelConfigure { .. } => 8,
    }
}

/// Rounds up to a multiple of four.
pub open spec fn pad4(n: int) -> int {
    ((n + 3) / 4) * 4
}

impl EventMsg {
    /// Computes the wire size of the event's frame.
    pub fn wire_size(&self) -> (r: u64)
        requires
            self.arg_bounds(),
        ensures
            r == spec_wire_size(self),
    {
        match self {
            EventMsg::DeleteId { .. } => 12,
            EventMsg::ProtocolError { .. } => 16,
            EventMsg::GlobalAdded { interface, .. } => 20 + pad4_exec(interface.name_len() as u64),
            EventMsg::GlobalRemoved { .. } => 12,
            EventMsg::OutputMode { .. } => 20,
            EventMsg::DmabufFormat { .. } => 12,
            EventMsg::DmabufModifier { .. } => 20,
            EventMsg::MainDevice { .. } => 20,
            EventMsg::FormatTable { .. } => 12,
            EventMsg::TrancheTargetDevice { .. } => 20,
            EventMsg::TrancheFormats { count, .. } => 12 + pad4_exec(2 * (*count as u64)),
            EventMsg::TrancheFlags { .. } => 12,
            EventMsg::TrancheDone { .. } => 8,
            EventMsg::Done { .. } => 8,
            EventMsg::KdeDefaultMode { .. } => 12,
            EventMsg::KdeMode { .. } => 12,
            EventMsg::DecorationConfigure { .. } => 12,
            EventMsg::ToplevelConfigure { .. } => 8,
        }
    }

    /// Variable-length arguments are small enough for one wire frame.
    pub open spec fn arg_bounds(&self) -> bool {
        match self {
            EventMsg::TrancheFormats { count, .. } => *count <= 0x4000,
            _ => true,
        }
    }
}

/// Rounds up to a multiple of four.
pub fn pad4_exec(n: u64) -> (r: u64)
    requires
        n <= 0x10000,
    ensures
        r == pad4(n as int),
{
    ((n + 3) / 4) * 4
}

/// A step the object table took, recorded for the id-reuse discipline:
/// client-allocated ids only.
#[derive(Copy, Clone, PartialEq, Eq, Structural)]
pub enum TableOp {
    /// The id was entered into the table.
    Added(u32),
    /// The id left the table and `delete_id` for it was queued.
    DeleteSent(u32),
}

/// Somewhere strictly between positions `i` and `j` stands the step that
/// queued `delete_id` for this id.
#[verifier::opaque]
pub open spec fn delete_between(ops: Seq<TableOp>, id: u32, i: int, j: int) -> bool {
    exists|k: int| i < k < j && ops[k] == TableOp::DeleteSent(id)
}

/// The history holds a `delete_id` event for this id.
#[verifier::opaque]
pub open spec fn delete_event_in(h: Seq<EventMsg>, id: u32) -> bool {
    exists|m: int| 0 <= m < h.len() && h[m] == (EventMsg::DeleteId { id })
}

/// Appending a step keeps an intervening `delete_id` step intervening.
proof fn lemma_db_push(ops: Seq<TableOp>, op: TableOp, id: u32, i: int, j: int)
    requires
        delete_between(ops, id, i, j),
        0 <= i,
        j <= ops.len(),
    ensures
        delete_between(ops.push(op), id, i, j),
{
    reveal(delete_between);
    let k = choose|k: int| i < k < j && ops[k] == TableOp::DeleteSent(id);
    assert(ops.push(op)[k] == TableOp::DeleteSent(id));
}

/// Widening the right end keeps an intervening step intervening.
proof fn lemma_db_widen(ops: Seq<TableOp>, id: u32, i: int, j: int, j2: int)
    requires
        delete_between(ops, id, i, j),
        j <= j2,
    ensures
        delete_between(ops, id, i, j2),
{
    reveal(delete_between);
    let k = choose|k: int| i < k < j && ops[k] == TableOp::DeleteSent(id);
    assert(i < k < j2 && ops[k] == TableOp::DeleteSent(id));
}

/// The step just appended intervenes between every earlier position and the
/// new end.
proof fn lemma_db_appended(ops: Seq<TableOp>, id: u32, i: int)
    requires
        0 <= i < ops.len(),
    ensures
        delete_between(ops.push(TableOp::DeleteSent(id)), id, i, ops.len() as int + 1),
{
    reveal(delete_between);
    assert(ops.push(TableOp::DeleteSent(id))[ops.len() as int] == TableOp::DeleteSent(id));
}

/// Appending an event keeps a recorded `delete_id` event in the history.
proof fn lemma_dev_push(h: Seq<EventMsg>, e: EventMsg, id: u32)
    requires
        delete_event_in(h, id),
    ensures
        delete_event_in(h.push(e), id),
{
    reveal(delete_event_in);
    let m = choose|m: int| 0 <= m < h.len() && h[m] == (EventMsg::DeleteId { id });
    assert(h.push(e)[m] == (EventMsg::DeleteId { id }));
}

/// A `delete_id` event just appended is in the history.
proof fn lemma_dev_appended(h: Seq<EventMsg>, id: u32)
    ensures
        delete_event_in(h.push(EventMsg::DeleteId { id }), id),
{
    reveal(delete_event_in);
    assert(h.push(EventMsg::DeleteId { id })[h.len() as int] == (EventMsg::DeleteId { id }));
}

/// A per-client error; every one of these is fatal for the client.
#[derive(Copy, Clone, Debug, PartialEq, Eq, Structural)]
pub enum ClientError {
    /// A request referred to an id the table does not hold, or holds with
    /// another interface.
    InvalidObject(u32),
    /// A request carried an opcode the interface does not declare.
    InvalidMethod,
    /// A request created an object with an id outside the client half.
    IdOutOfRange(u32),
    /// A request created an object with an id that is still in use.
    IdInUse(u32),
    /// The server-id allocator is exhausted.
    OutOfIds,
    /// A singleton global was bound a second time.
    SingletonBound(u32),
    /// An OS call failed with this errno.
    Io(i32),
}

/// One connected client.
pub struct Client {
    /// The id table: id to interface and version.
    pub objects: std::collections::HashMap<u32, ObjectEntry>,
    /// Next id for a server-created object.
    pub next_server_id: u32,
    /// Events queued towards the client, oldest first.
    pub evq: Vec<EventMsg>,
    /// Every event ever queued, in order; flushing does not erase it.
    pub history: Ghost<Seq<EventMsg>>,
    /// Table steps on client-allocated ids, in order.
    pub ops: Ghost<Seq<TableOp>>,
    /// Bytes of queued events not yet flushed.
    pub queued_bytes: u64,
    /// Whether the client has exceeded the soft limit and is served slowly.
    pub slow: bool,
    /// Names of singleton globals this client has bound.
    pub singletons_bound: Vec<u32>,
}

impl Client {
    /// The table and the recorded steps agree, and freed ids were announced:
    ///  - a client id is in the table exactly when its latest step is `Added`;
    ///  - between two `Added` steps for one id a `DeleteSent` intervenes;
    ///  - every `DeleteSent` step has its `delete_id` event in the history;
    ///  - the queue is a suffix of the history;
    ///  - server ids allocated so far lie below `next_server_id`.
    pub open spec fn inv(&self) -> bool {
        &&& forall|i: int|
            #![trigger self.ops@[i]]
            0 <= i < self.ops@.len() && self.ops@[i] is Added ==> is_client_id(
                self.ops@[i]->Added_0,
            )
        &&& forall|i: int, j: int|
            #![trigger self.ops@[i], self.ops@[j]]
            0 <= i < j < self.ops@.len() && self.ops@[i] is Added && self.ops@[j] is Added
                && self.ops@[i]->Added_0 == self.ops@[j]->Added_0 ==> delete_between(
                self.ops@,
                self.ops@[i]->Added_0,
                i,
                j,
            )
        &&& forall|i: int|
            #![trigger self.ops@[i]]
            0 <= i < self.ops@.len() && self.ops@[i] is Added ==> (self.objects@.contains_key(
                self.ops@[i]->Added_0,
            ) || delete_between(self.ops@, self.ops@[i]->Added_0, i, self.ops@.len() as int))
        &&& forall|i: int|
            #![trigger self.ops@[i]]
            0 <= i < self.ops@.len() && self.ops@[i] is DeleteSent ==> delete_event_in(
                self.history@,
                self.ops@[i]->DeleteSent_0,
            )
        &&& self.next_server_id >= SERVER_ID_BASE
        &&& self.evq@ == self.history@.skip(self.history@.len() - self.evq@.len())
        &&& self.evq@.len() <= self.history@.len()
    }

    /// A fresh client: empty table, empty queue, fast.
    pub fn new() -> (r: Self)
        ensures
            r.inv(),
            r.objects@ == Map::<u32, ObjectEntry>::empty(),
            r.evq@.len() == 0,
            r.history@.len() == 0,
            r.ops@.len() == 0,
            r.queued_bytes == 0,
            !r.slow,
            r.singletons_bound@.len() == 0,
            r.next_server_id == SERVER_ID_BASE,
    {
        let r = Client {
            objects: std::collections::HashMap::new(),
            next_server_id: SERVER_ID_BASE,
            evq: Vec::new(),
            history: Ghost(Seq::empty()),
            ops: Ghost(Seq::empty()),
            queued_bytes: 0,
            slow: false,
            singletons_bound: Vec::new(),
        };
        proof {
            assert(r.evq@ =~= r.history@.skip(r.history@.len() - r.evq@.len()));
        }
        r
    }

    /// Queues an event towards the client, accounts its wire size, and marks
    /// the client slow once the soft limit is exceeded.
    pub fn event(&mut self, e: EventMsg)
        requires
            old(self).inv(),
            e.arg_bounds(),
        ensures
            final(self).inv(),
            final(self).evq@ == old(self).evq@.push(e),
            final(self).history@ == old(self).history@.push(e),
            final(self).objects@ == old(self).objects@,
            final(self).ops@ == old(self).ops@,
            final(self).queued_bytes == if old(self).queued_bytes + spec_wire_size(&e)
                <= u64::MAX {
                (old(self).queued_bytes + spec_wire_size(&e)) as u64
            } else {
                u64::MAX
            },
            final(self).slow == (final(self).queued_bytes > SLOW_CLIENT_SOFT_LIMIT),
            final(self).next_server_id == old(self).next_server_id,
            final(self).singletons_bound@ == old(self).singletons_bound@,
    {
        let sz = e.wire_size();
        self.queued_bytes = match self.queued_bytes.checked_add(sz) {
            Some(v) => v,
            None => u64::MAX,
        };
        self.slow = self.queued_bytes > SLOW_CLIENT_SOFT_LIMIT;
        proof {
            self.history@ = self.history@.push(e);
        }
        self.evq.push(e);
        proof {
            let h0 = old(self).history@;
            let h1 = self.history@;
            assert(self.evq@ =~= h1.skip(h1.len() - self.evq@.len()));
            assert forall|i: int|
                0 <= i < self.ops@.len() && self.ops@[i] is DeleteSent implies delete_event_in(
                h1,
                self.ops@[i]->DeleteSent_0,
            ) by {
                lemma_dev_push(h0, e, self.ops@[i]->DeleteSent_0);
            }
        }
    }

    /// Takes every queued event for flushing and resets the byte account:
    /// the caller owns delivery from here.
    pub fn take_events(&mut self) -> (r: Vec<EventMsg>)
        requires
            old(self).inv(),
        ensures
            final(self).inv(),
            r@ == old(self).evq@,
            final(self).evq@.len() == 0,
            final(self).history@ == old(self).history@,
            final(self).objects@ == old(self).objects@,
            final(self).ops@ == old(self).ops@,
            final(self).queued_bytes == 0,
            !final(self).slow,
            final(self).next_server_id == old(self).next_server_id,
            final(self).singletons_bound@ == old(self).singletons_bound@,
    {
        let mut out: Vec<EventMsg> = Vec::new();
        core::mem::swap(&mut out, &mut self.evq);
        self.queued_bytes = 0;
        self.slow = false;
        proof {
            assert(self.evq@ =~= self.history@.skip(self.history@.len() as int));
        }
        out
    }

    /// Enters a client-allocated id into the table. Succeeds exactly when the
    /// id lies in the client half and is not in use.
    #[verifier::rlimit(60)]
    pub fn add_client_obj(&mut self, id: u32, interface: Interface, version: u32) -> (r: Result<
        (),
        ClientError,
    >)
        requires
            old(self).inv(),
        ensures
            final(self).inv(),
            r is Ok <==> is_client_id(id) && !old(self).objects@.contains_key(id),
            !is_client_id(id) ==> r == Err::<(), ClientError>(ClientError::IdOutOfRange(id)),
            is_client_id(id) && old(self).objects@.contains_key(id) ==> r == Err::<
                (),
                ClientError,
            >(ClientError::IdInUse(id)),
            r is Ok ==> final(self).objects@ == old(self).objects@.insert(
                id,
                ObjectEntry { interface, version },
            ) && final(self).ops@ == old(self).ops@.push(TableOp::Added(id)),
            r is Err ==> final(self).objects@ == old(self).objects@ && final(self).ops@ == old(
                self,
            ).ops@,
            final(self).evq@ == old(self).evq@,
            final(self).history@ == old(self).history@,
            final(self).queued_bytes == old(self).queued_bytes,
            final(self).slow == old(self).slow,
            final(self).next_server_id == old(self).next_server_id,
            final(self).singletons_bound@ == old(self).singletons_bound@,
    {
        if id == 0 || id >= SERVER_ID_BASE {
            return Err(ClientError::IdOutOfRange(id));
        }
        if self.objects.contains_key(&id) {
            return Err(ClientError::IdInUse(id));
        }
        self.objects.insert(id, ObjectEntry { interface, version });
        proof {
            self.ops@ = self.ops@.push(TableOp::Added(id));
            let ops0 = old(self).ops@;
            let ops1 = self.ops@;
            assert forall|i: int, j: int|
                0 <= i < j < ops1.len() && ops1[i] is Added && ops1[j] is Added && ops1[i]->Added_0
                    == ops1[j]->Added_0 implies delete_between(ops1, ops1[i]->Added_0, i, j) by {
                assert(ops0[i] == ops1[i]);
                if j < ops0.len() {
                    assert(ops0[j] == ops1[j]);
                    lemma_db_push(ops0, TableOp::Added(id), ops0[i]->Added_0, i, j);
                } else {
                    assert(ops1[i]->Added_0 == id);
                    assert(!old(self).objects@.contains_key(id));
                    lemma_db_push(ops0, TableOp::Added(id), id, i, ops0.len() as int);
                }
            }
            assert forall|i: int|
                0 <= i < ops1.len() && ops1[i] is Added implies (self.objects@.contains_key(
                ops1[i]->Added_0,
            ) || delete_between(ops1, ops1[i]->Added_0, i, ops1.len() as int)) by {
                if i < ops0.len() {
                    assert(ops0[i] == ops1[i]);
                    if !old(self).objects@.contains_key(ops0[i]->Added_0) {
                        lemma_db_push(ops0, TableOp::Added(id), ops0[i]->Added_0, i, ops0.len() as int);
                        lemma_db_widen(ops1, ops1[i]->Added_0, i, ops0.len() as int, ops1.len() as int);
                    }
                } else {
                    assert(self.objects@.contains_key(id));
                }
            }
            assert forall|i: int|
                0 <= i < ops1.len() && ops1[i] is DeleteSent implies delete_event_in(
                self.history@,
                ops1[i]->DeleteSent_0,
            ) by {
                assert(i < ops0.len());
                assert(ops0[i] == ops1[i]);
            }
        }
        Ok(())
    }

    /// Creates a server-allocated object: ids are handed out in increasing
    /// order and never reused. Fails only when the allocator is exhausted.
    #[verifier::rlimit(60)]
    pub fn add_server_obj(&mut self, interface: Interface, version: u32) -> (r: Result<
        u32,
        ClientError,
    >)
        requires
            old(self).inv(),
        ensures
            final(self).inv(),
            r is Ok <==> old(self).next_server_id < u32::MAX,
            r is Err ==> r == Err::<u32, ClientError>(ClientError::OutOfIds) && *final(self)
                == *old(self),
            r is Ok ==> {
                &&& r->Ok_0 == old(self).next_server_id
                &&& is_server_id(r->Ok_0)
                &&& final(self).next_server_id == old(self).next_server_id + 1
                &&& final(self).objects@ == old(self).objects@.insert(
                    r->Ok_0,
                    ObjectEntry { interface, version },
                )
            },
            final(self).evq@ == old(self).evq@,
            final(self).history@ == old(self).history@,
            final(self).ops@ == old(self).ops@,
            final(self).queued_bytes == old(self).queued_bytes,
            final(self).slow == old(self).slow,
            final(self).singletons_bound@ == old(self).singletons_bound@,
    {
        if self.next_server_id == u32::MAX {
            return Err(ClientError::OutOfIds);
        }
        let id = self.next_server_id;
        self.next_server_id = self.next_server_id + 1;
        self.objects.insert(id, ObjectEntry { interface, version });
        proof {
            let ops1 = self.ops@;
            assert forall|i: int|
                0 <= i < ops1.len() && ops1[i] is Added implies (self.objects@.contains_key(
                ops1[i]->Added_0,
            ) || delete_between(ops1, ops1[i]->Added_0, i, ops1.len() as int)) by {
                assert(is_client_id(ops1[i]->Added_0));
                if old(self).objects@.contains_key(ops1[i]->Added_0) {
                    assert(self.objects@.contains_key(ops1[i]->Added_0));
                }
            }
        }
        Ok(id)
    }

    /// Removes an object. Succeeds exactly when the id is in the table; for a
    /// client-allocated id, `delete_id` is queued so the client learns the id
    /// is free again.
    pub fn remove_obj(&mut self, id: u32) -> (r: Result<(), ClientError>)
        requires
            old(self).inv(),
        ensures
            final(self).inv(),
            r is Ok <==> old(self).objects@.contains_key(id),
            r is Err ==> r == Err::<(), ClientError>(ClientError::InvalidObject(id))
                && *final(self) == *old(self),
            r is Ok ==> final(self).objects@ == old(self).objects@.remove(id),
            r is Ok && is_client_id(id) ==> {
                &&& final(self).evq@ == old(self).evq@.push(EventMsg::DeleteId { id })
                &&& final(self).history@ == old(self).history@.push(EventMsg::DeleteId { id })
                &&& final(self).ops@ == old(self).ops@.push(TableOp::DeleteSent(id))
            },
            r is Ok && !is_client_id(id) ==> {
                &&& final(self).evq@ == old(self).evq@
                &&& final(self).history@ == old(self).history@
                &&& final(self).ops@ == old(self).ops@
            },
            final(self).next_server_id == old(self).next_server_id,
            final(self).singletons_bound@ == old(self).singletons_bound@,
    {
        if !self.objects.contains_key(&id) {
            return Err(ClientError::InvalidObject(id));
        }
        if id >= 1 && id < SERVER_ID_BASE {
            self.event(EventMsg::DeleteId { id });
            let ghost mid = *self;
            self.objects.remove(&id);
            proof {
                self.ops@ = self.ops@.push(TableOp::DeleteSent(id));
                let ops0 = mid.ops@;
                let ops1 = self.ops@;
                let h1 = self.history@;
                assert forall|i: int, j: int|
                    0 <= i < j < ops1.len() && ops1[i] is Added && ops1[j] is Added
                        && ops1[i]->Added_0 == ops1[j]->Added_0 implies delete_between(
                    ops1,
                    ops1[i]->Added_0,
                    i,
                    j,
                ) by {
                    assert(ops0[i] == ops1[i] && ops0[j] == ops1[j]);
                    lemma_db_push(ops0, TableOp::DeleteSent(id), ops0[i]->Added_0, i, j);
                }
                assert forall|i: int|
                    0 <= i < ops1.len() && ops1[i] is Added implies (self.objects@.contains_key(
                    ops1[i]->Added_0,
                ) || delete_between(ops1, ops1[i]->Added_0, i, ops1.len() as int)) by {
                    assert(i < ops0.len());
                    assert(ops0[i] == ops1[i]);
                    if ops1[i]->Added_0 == id {
                        lemma_db_appended(ops0, id, i);
                    } else {
                        if mid.objects@.contains_key(ops0[i]->Added_0) {
                            assert(self.objects@.contains_key(ops1[i]->Added_0));
                        } else {
                            lemma_db_push(
                                ops0,
                                TableOp::DeleteSent(id),
                                ops0[i]->Added_0,
                                i,
                                ops0.len() as int,
                            );
                            lemma_db_widen(
                                ops1,
                                ops1[i]->Added_0,
                                i,
                                ops0.len() as int,
                                ops1.len() as int,
                            );
                        }
                    }
                }
                assert forall|i: int|
                    0 <= i < ops1.len() && ops1[i] is DeleteSent implies delete_event_in(
                    h1,
                    ops1[i]->DeleteSent_0,
                ) by {
                    if i < ops0.len() {
                        assert(ops0[i] == ops1[i]);
                    } else {
                        assert(mid.history@ == old(self).history@.push(
                            EventMsg::DeleteId { id },
                        ));
                        lemma_dev_appended(old(self).history@, id);
                    }
                }
            }
        } else {
            let ghost pre = *self;
            self.objects.remove(&id);
            proof {
                let ops1 = self.ops@;
                assert forall|i: int|
                    0 <= i < ops1.len() && ops1[i] is Added implies (self.objects@.contains_key(
                    ops1[i]->Added_0,
                ) || delete_between(ops1, ops1[i]->Added_0, i, ops1.len() as int)) by {
                    assert(is_client_id(ops1[i]->Added_0));
                    if pre.objects@.contains_key(ops1[i]->Added_0) {
                        assert(ops1[i]->Added_0 != id);
                        assert(self.objects@.contains_key(ops1[i]->Added_0));
                    }
                }
            }
        }
        Ok(())
    }


    /// Records that the client bound a singleton global of this name.
    pub fn note_singleton_bound(&mut self, name: u32)
        requires
            old(self).inv(),
        ensures
            final(self).inv(),
            final(self).singletons_bound@ == old(self).singletons_bound@.push(name),
            final(self).objects@ == old(self).objects@,
            final(self).evq@ == old(self).evq@,
            final(self).history@ == old(self).history@,
            final(self).ops@ == old(self).ops@,
            final(self).queued_bytes == old(self).queued_bytes,
            final(self).slow == old(self).slow,
            final(self).next_server_id == old(self).next_server_id,
    {
        self.singletons_bound.push(name);
    }

    /// Looks an id up and checks the interface. Fails with `invalid_object`
    /// when the id is missing or implements another interface.
    pub fn lookup(&self, id: u32, interface: Interface) -> (r: Result<ObjectEntry, ClientError>)
        ensures
            r is Ok <==> self.objects@.contains_key(id) && self.objects@[id].interface
                == interface,
            r is Ok ==> r->Ok_0 == self.objects@[id],
            r is Err ==> r == Err::<ObjectEntry, ClientError>(ClientError::InvalidObject(id)),
    {
        match self.objects.get(&id) {
            Some(e) => {
                if e.interface == interface {
                    Ok(*e)
                } else {
                    Err(ClientError::InvalidObject(id))
                }
            },
            None => Err(ClientError::InvalidObject(id)),
        }
    }

    /// Checks a request's opcode against the interface of its target object.
    /// An opcode at or above the declared number of requests is fatal.
    pub fn check_opcode(&self, id: u32, opcode: u32) -> (r: Result<(), ClientError>)
        ensures
            r is Ok <==> self.objects@.contains_key(id) && opcode < self.objects@[id].interface.spec_num_requests(),
            !self.objects@.contains_key(id) ==> r == Err::<(), ClientError>(
                ClientError::InvalidObject(id),
            ),
            self.objects@.contains_key(id) && opcode >= self.objects@[id].interface.spec_num_requests() ==> r == Err::<(), ClientError>(ClientError::InvalidMethod),
    {
        match self.objects.get(&id) {
            Some(e) => {
                if opcode < e.interface.num_requests() {
                    Ok(())
                } else {
                    Err(ClientError::InvalidMethod)
                }
            },
            None => Err(ClientError::InvalidObject(id)),
        }
    }
}

/// Both clients hold the same observable state: table, queues, history,
/// accounting and bindings.
pub open spec fn state_eq(a: &Client, b: &Client) -> bool {
    &&& a.objects@ == b.objects@
    &&& a.next_server_id == b.next_server_id
    &&& a.evq@ == b.evq@
    &&& a.history@ == b.history@
    &&& a.ops@ == b.ops@
    &&& a.queued_bytes == b.queued_bytes
    &&& a.slow == b.slow
    &&& a.singletons_bound@ == b.singletons_bound@
}

/// Law: an id allocated to a client is not entered into the table again
/// until `delete_id` for it has been queued: between any two `Added` steps
/// for one id a `DeleteSent` step stands, and every `DeleteSent` step has
/// its `delete_id` event in the client's event history.
pub proof fn lemma_id_not_reused_until_delete(c: &Client, i: int, j: int, id: u32)
    requires
        c.inv(),
        0 <= i < j < c.ops@.len(),
        c.ops@[i] == TableOp::Added(id),
        c.ops@[j] == TableOp::Added(id),
    ensures
        exists|k: int| i < k < j && c.ops@[k] == TableOp::DeleteSent(id),
        exists|m: int|
            0 <= m < c.history@.len() && c.history@[m] == (EventMsg::DeleteId { id }),
{
    reveal(delete_between);
    reveal(delete_event_in);
    assert(c.ops@[i] is Added && c.ops@[j] is Added && c.ops@[i]->Added_0 == id);
    assert(delete_between(c.ops@, id, i, j));
    let k = choose|k: int| i < k < j && c.ops@[k] == TableOp::DeleteSent(id);
    assert(c.ops@[k] is DeleteSent && c.ops@[k]->DeleteSent_0 == id);
    assert(delete_event_in(c.history@, id));
}

/// Law: events stay in emission order. When the events of one request are
/// queued after those of an earlier one, the history keeps first the earlier
/// request's events and then the later request's, contiguously.
pub proof fn lemma_request_events_ordered(
    h0: Seq<EventMsg>,
    e1: Seq<EventMsg>,
    e2: Seq<EventMsg>,
)
    ensures
        (h0 + e1 + e2).subrange(h0.len() as int, h0.len() + e1.len() as int) == e1,
        (h0 + e1 + e2).subrange(h0.len() as int + e1.len(), h0.len() as int + e1.len() + e2.len()) == e2,
{
    assert((h0 + e1 + e2).subrange(h0.len() as int, h0.len() + e1.len() as int) =~= e1);
    assert((h0 + e1 + e2).subrange(h0.len() as int + e1.len(), h0.len() as int + e1.len() + e2.len()) =~= e2);
}

} // verus!
