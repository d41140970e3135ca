//! `zwp_linux_dmabuf_v1` up to version 4. Binds at versions 1 to 3 advertise
//! the renderer's formats and modifiers as events; version 4 binds advertise
//! nothing and serve per-client feedback instead: a sealed memfd holding the
//! format table (16-byte rows) and a fixed event sequence describing it.

use vstd::prelude::*;
use crate::client::{Client, ClientError, EventMsg, Interface, is_client_id};
use crate::sys;

verus! {

/// Modifier events are sent to binds at or above this version.
pub const MODIFIERS_SINCE_VERSION: u32 = 3;

/// Feedback replaces bind-time advertisement from this version on.
pub const FEEDBACK_SINCE_VERSION: u32 = 4;

/// A modifier the renderer supports for one format.
#[derive(Copy, Clone, Debug, PartialEq, Eq, Structural)]
pub struct FormatModifier {
    pub modifier: u64,
    /// Only external (non-renderable) textures support this layout.
    pub external_only: bool,
}

/// One DRM fourcc format the renderer supports.
#[derive(Clone, Debug)]
pub struct FormatEntry {
    pub drm: u32,
    /// The format itself samples only as an external texture.
    pub implicit_external_only: bool,
    pub modifiers: Vec<FormatModifier>,
}

/// What the renderer reports: its device, whether it can sample external
/// textures, and the supported formats.
#[derive(Clone, Debug)]
pub struct RenderCtx {
    pub dev: u64,
    pub supports_external_texture: bool,
    pub formats: Vec<FormatEntry>,
}

/// An error of the dmabuf interface.
#[derive(Copy, Clone, Debug, PartialEq, Eq, Structural)]
pub enum ZwpLinuxDmabufV1Error {
    /// A table, queue or OS operation failed.
    ClientError(ClientError),
}

/// The (format, modifier) rows one format contributes to the feedback table:
/// modifiers whose external-only flag is set are skipped when the renderer
/// cannot sample external textures.
pub open spec fn mod_rows(drm: u32, mods: Seq<FormatModifier>, ext: bool) -> Seq<(u32, u64)>
    decreases mods.len(),
{
    if mods.len() == 0 {
        Seq::empty()
    } else {
        (if mods[0].external_only && !ext {
            Seq::empty()
        } else {
            seq![(drm, mods[0].modifier)]
        }) + mod_rows(drm, mods.skip(1), ext)
    }
}

/// The rows one format entry contributes: none when the format is
/// external-only and the renderer cannot sample external textures.
pub open spec fn format_rows(f: FormatEntry, ext: bool) -> Seq<(u32, u64)> {
    if f.implicit_external_only && !ext {
        Seq::empty()
    } else {
        mod_rows(f.drm, f.modifiers@, ext)
    }
}

/// All rows of the feedback format table, in renderer order.
pub open spec fn table_rows_of(formats: Seq<FormatEntry>, ext: bool) -> Seq<(u32, u64)>
    decreases formats.len(),
{
    if formats.len() == 0 {
        Seq::empty()
    } else {
        format_rows(formats[0], ext) + table_rows_of(formats.skip(1), ext)
    }
}

/// All rows the renderer context yields.
pub open spec fn table_rows(ctx: &RenderCtx) -> Seq<(u32, u64)> {
    table_rows_of(ctx.formats@, ctx.supports_external_texture)
}

/// One 16-byte little-endian row: format, 4 bytes padding, modifier.
pub open spec fn row_bytes(f: u32, m: u64) -> Seq<u8> {
    seq![
        (f & 0xff) as u8,
        ((f >> 8) & 0xff) as u8,
        ((f >> 16) & 0xff) as u8,
        ((f >> 24) & 0xff) as u8,
        0u8,
        0u8,
        0u8,
        0u8,
        (m & 0xff) as u8,
        ((m >> 8) & 0xff) as u8,
        ((m >> 16) & 0xff) as u8,
        ((m >> 24) & 0xff) as u8,
        ((m >> 32) & 0xff) as u8,
        ((m >> 40) & 0xff) as u8,
        ((m >> 48) & 0xff) as u8,
        ((m >> 56) & 0xff) as u8,
    ]
}

/// The bytes of a row list.
pub open spec fn rows_bytes(rows: Seq<(u32, u64)>) -> Seq<u8>
    decreases rows.len(),
{
    if rows.len() == 0 {
        Seq::empty()
    } else {
        row_bytes(rows[0].0, rows[0].1) + rows_bytes(rows.skip(1))
    }
}

/// A row list's bytes are sixteen per row.
pub proof fn lemma_rows_bytes_len(rows: Seq<(u32, u64)>)
    ensures
        rows_bytes(rows).len() == 16 * rows.len(),
    decreases rows.len(),
{
    if rows.len() > 0 {
        lemma_rows_bytes_len(rows.skip(1));
    }
}

/// Bytes of a concatenation are the concatenated bytes.
pub proof fn lemma_rows_bytes_concat(a: Seq<(u32, u64)>, b: Seq<(u32, u64)>)
    ensures
        rows_bytes(a + b) == rows_bytes(a) + rows_bytes(b),
    decreases a.len(),
{
    if a.len() == 0 {
        assert(a + b =~= b);
        assert(rows_bytes(a) + rows_bytes(b) =~= rows_bytes(b));
    } else {
        assert((a + b).skip(1) =~= a.skip(1) + b);
        lemma_rows_bytes_concat(a.skip(1), b);
        assert(rows_bytes(a + b) =~= rows_bytes(a) + rows_bytes(b));
    }
}

/// The modifier events one format yields towards a bind below version 4 and
/// at or above version 3.
pub open spec fn mod_events(obj: u32, drm: u32, mods: Seq<FormatModifier>, ext: bool) -> Seq<
    EventMsg,
>
    decreases mods.len(),
{
    if mods.len() == 0 {
        Seq::empty()
    } else {
        (if mods[0].external_only && !ext {
            Seq::empty()
        } else {
            seq![
                EventMsg::DmabufModifier {
                    obj,
                    format: drm,
                    modifier_hi: ((mods[0].modifier >> 32) & 0xffffffff) as u32,
                    modifier_lo: (mods[0].modifier & 0xffffffff) as u32,
                },
            ]
        }) + mod_events(obj, drm, mods.skip(1), ext)
    }
}

/// The events one format entry yields towards a bind below version 4.
pub open spec fn format_events(obj: u32, f: FormatEntry, ext: bool, version: u32) -> Seq<
    EventMsg,
> {
    if f.implicit_external_only && !ext {
        Seq::empty()
    } else {
        seq![EventMsg::DmabufFormat { obj, format: f.drm }] + (
        if version >= MODIFIERS_SINCE_VERSION {
            mod_events(obj, f.drm, f.modifiers@, ext)
        } else {
            Seq::empty()
        })
    }
}

/// All events a bind below version 4 receives.
pub open spec fn advert_events_of(
    obj: u32,
    formats: Seq<FormatEntry>,
    ext: bool,
    version: u32,
) -> Seq<EventMsg>
    decreases formats.len(),
{
    if formats.len() == 0 {
        Seq::empty()
    } else {
        format_events(obj, formats[0], ext, version) + advert_events_of(
            obj,
            formats.skip(1),
            ext,
            version,
        )
    }
}

/// The events queued when the global is bound: nothing at version 4 or
/// above, nothing without a renderer, the advertisement otherwise.
pub open spec fn bind_events(obj: u32, version: u32, ctx: Option<&RenderCtx>) -> Seq<EventMsg> {
    if version >= FEEDBACK_SINCE_VERSION {
        Seq::empty()
    } else {
        match ctx {
            Some(c) => advert_events_of(obj, c.formats@, c.supports_external_texture, version),
            None => Seq::empty(),
        }
    }
}

/// The feedback event sequence for a table of `rows` rows: main device,
/// format table of `16 * rows` bytes, one tranche listing indices `0..rows`
/// with no flags, then the two closing events.
pub open spec fn feedback_events(obj: u32, dev: u64, rows: int) -> Seq<EventMsg> {
    seq![
        EventMsg::MainDevice { obj, device: dev },
        EventMsg::FormatTable { obj, size: (16 * rows) as u32 },
        EventMsg::TrancheTargetDevice { obj, device: dev },
        EventMsg::TrancheFormats { obj, count: rows as u16 },
        EventMsg::TrancheFlags { obj, flags: 0 },
        EventMsg::TrancheDone { obj },
        EventMsg::Done { obj },
    ]
}

/// The advertised `zwp_linux_dmabuf_v1` global.
pub struct ZwpLinuxDmabufV1Global {
    pub name: u32,
}

/// A bound `zwp_linux_dmabuf_v1` object.
pub struct ZwpLinuxDmabufV1 {
    pub id: u32,
    pub version: u32,
}

/// A feedback object handed out by `get_default_feedback` or
/// `get_surface_feedback`.
pub struct ZwpLinuxDmabufFeedbackV1 {
    pub id: u32,
}

/// The sealed format table: the memfd and its size in bytes.
pub struct DmabufFeedbackTable {
    pub fd: uapi::OwnedFd,
    pub size: u32,
}

impl ZwpLinuxDmabufV1Global {
    pub fn new(name: u32) -> (r: Self)
        ensures
            r.name == name,
    {
        ZwpLinuxDmabufV1Global { name }
    }

    /// The global may be bound once per client.
    pub fn singleton(&self) -> (r: bool)
        ensures
            r,
    {
        true
    }

    /// The interface version the compositor offers.
    pub fn version(&self) -> (r: u32)
        ensures
            r == 4,
    {
        4
    }

    /// Binds the global: the object enters the table; below version 4 the
    /// formats and (from version 3) modifiers of the renderer are advertised
    /// at once, skipping external-only entries the renderer cannot sample.
    pub fn bind_(&self, id: u32, client: &mut Client, version: u32, ctx: Option<&RenderCtx>) -> (r:
        Result<ZwpLinuxDmabufV1, ZwpLinuxDmabufV1Error>)
        requires
            old(client).inv(),
        ensures
            final(client).inv(),
            r is Ok <==> is_client_id(id) && !old(client).objects@.contains_key(id),
            r is Err ==> crate::client::state_eq(old(client), final(client)),
            !is_client_id(id) ==> r == Err::<ZwpLinuxDmabufV1, ZwpLinuxDmabufV1Error>(
                ZwpLinuxDmabufV1Error::ClientError(ClientError::IdOutOfRange(id)),
            ),
            is_client_id(id) && old(client).objects@.contains_key(id) ==> r == Err::<
                ZwpLinuxDmabufV1,
                ZwpLinuxDmabufV1Error,
            >(ZwpLinuxDmabufV1Error::ClientError(ClientError::IdInUse(id))),
            r is Ok ==> {
                &&& r->Ok_0.id == id
                &&& r->Ok_0.version == version
                &&& final(client).objects@ == old(client).objects@.insert(
                    id,
                    crate::client::ObjectEntry { interface: Interface::ZwpLinuxDmabufV1, version },
                )
                &&& final(client).evq@ == old(client).evq@ + bind_events(id, version, ctx)
            },
    {
        match client.add_client_obj(id, Interface::ZwpLinuxDmabufV1, version) {
            Ok(()) => {},
            Err(e) => {
                return Err(ZwpLinuxDmabufV1Error::ClientError(e));
            },
        }
        let obj = ZwpLinuxDmabufV1 { id, version };
        if version >= FEEDBACK_SINCE_VERSION {
            proof {
                assert(client.evq@ =~= old(client).evq@ + bind_events(id, version, ctx));
            }
            return Ok(obj);
        }
        match ctx {
            Some(c) => {
                obj.advertise(client, c);
            },
            None => {
                proof {
                    assert(client.evq@ =~= old(client).evq@ + bind_events(id, version, ctx));
                }
            },
        }
        Ok(obj)
    }
}

impl ZwpLinuxDmabufV1 {
    /// The interface declares four requests.
    pub fn num_requests(&self) -> (r: u32)
        ensures
            r == 4,
    {
        4
    }

    /// Queues one `format` event.
    pub fn send_format(&self, client: &mut Client, format: u32)
        requires
            old(client).inv(),
        ensures
            final(client).inv(),
            final(client).evq@ == old(client).evq@.push(
                EventMsg::DmabufFormat { obj: self.id, format },
            ),
            final(client).objects@ == old(client).objects@,
            final(client).ops@ == old(client).ops@,
    {
        client.event(EventMsg::DmabufFormat { obj: self.id, format });
    }

    /// Queues one `modifier` event, the modifier split into its halves.
    pub fn send_modifier(&self, client: &mut Client, format: u32, modifier: u64)
        requires
            old(client).inv(),
        ensures
            final(client).inv(),
            final(client).evq@ == old(client).evq@.push(
                EventMsg::DmabufModifier {
                    obj: self.id,
                    format,
                    modifier_hi: ((modifier >> 32) & 0xffffffff) as u32,
                    modifier_lo: (modifier & 0xffffffff) as u32,
                },
            ),
            final(client).objects@ == old(client).objects@,
            final(client).ops@ == old(client).ops@,
    {
        let hi: u32 = ((modifier >> 32) & 0xffffffff) as u32;
        let lo: u32 = (modifier & 0xffffffff) as u32;
        client.event(
            EventMsg::DmabufModifier { obj: self.id, format, modifier_hi: hi, modifier_lo: lo },
        );
    }

    /// Advertises one format's modifiers, skipping those the renderer cannot
    /// sample.
    fn advertise_modifiers(
        &self,
        client: &mut Client,
        drm: u32,
        mods: &Vec<FormatModifier>,
        ext: bool,
    )
        requires
            old(client).inv(),
        ensures
            final(client).inv(),
            final(client).evq@ == old(client).evq@ + mod_events(self.id, drm, mods@, ext),
            final(client).objects@ == old(client).objects@,
            final(client).ops@ == old(client).ops@,
    {
        let mut i: usize = 0;
        proof {
            assert(mods@.skip(0) =~= mods@);
        }
        while i < mods.len()
            invariant
                old(client).inv(),
                client.inv(),
                i <= mods@.len(),
                client.evq@ + mod_events(self.id, drm, mods@.skip(i as int), ext) == old(
                    client,
                ).evq@ + mod_events(self.id, drm, mods@, ext),
                client.objects@ == old(client).objects@,
                client.ops@ == old(client).ops@,
            decreases mods@.len() - i,
        {
            let ghost suffix = mods@.skip(i as int);
            proof {
                assert(suffix[0] == mods@[i as int]);
                assert(suffix.skip(1) =~= mods@.skip(i as int + 1));
            }
            let m = mods[i];
            if !(m.external_only && !ext) {
                self.send_modifier(client, drm, m.modifier);
                proof {
                    assert(client.evq@ + mod_events(self.id, drm, mods@.skip(i as int + 1), ext)
                        =~= old(client).evq@ + mod_events(self.id, drm, mods@, ext));
                }
            } else {
                proof {
                    assert(client.evq@ + mod_events(self.id, drm, mods@.skip(i as int + 1), ext)
                        =~= old(client).evq@ + mod_events(self.id, drm, mods@, ext));
                }
            }
            i = i + 1;
        }
        proof {
            assert(mods@.skip(mods@.len() as int) =~= Seq::<FormatModifier>::empty());
            assert(client.evq@ =~= old(client).evq@ + mod_events(self.id, drm, mods@, ext));
        }
    }

    /// Advertises every format, and from version 3 its modifiers.
    fn advertise(&self, client: &mut Client, ctx: &RenderCtx)
        requires
            old(client).inv(),
        ensures
            final(client).inv(),
            final(client).evq@ == old(client).evq@ + advert_events_of(
                self.id,
                ctx.formats@,
                ctx.supports_external_texture,
                self.version,
            ),
            final(client).objects@ == old(client).objects@,
            final(client).ops@ == old(client).ops@,
    {
        let ext = ctx.supports_external_texture;
        let mut i: usize = 0;
        proof {
            assert(ctx.formats@.skip(0) =~= ctx.formats@);
        }
        while i < ctx.formats.len()
            invariant
                old(client).inv(),
                client.inv(),
                i <= ctx.formats@.len(),
                ext == ctx.supports_external_texture,
                client.evq@ + advert_events_of(self.id, ctx.formats@.skip(i as int), ext, self.version)
                    == old(client).evq@ + advert_events_of(self.id, ctx.formats@, ext, self.version),
                client.objects@ == old(client).objects@,
                client.ops@ == old(client).ops@,
            decreases ctx.formats@.len() - i,
        {
            let ghost suffix = ctx.formats@.skip(i as int);
            proof {
                assert(suffix[0] == ctx.formats@[i as int]);
                assert(suffix.skip(1) =~= ctx.formats@.skip(i as int + 1));
            }
            let f = &ctx.formats[i];
            if !(f.implicit_external_only && !ext) {
                self.send_format(client, f.drm);
                if self.version >= MODIFIERS_SINCE_VERSION {
                    self.advertise_modifiers(client, f.drm, &f.modifiers, ext);
                }
                proof {
                    assert(client.evq@ + advert_events_of(
                        self.id,
                        ctx.formats@.skip(i as int + 1),
                        ext,
                        self.version,
                    ) =~= old(client).evq@ + advert_events_of(
                        self.id,
                        ctx.formats@,
                        ext,
                        self.version,
                    ));
                }
            } else {
                proof {
                    assert(client.evq@ + advert_events_of(
                        self.id,
                        ctx.formats@.skip(i as int + 1),
                        ext,
                        self.version,
                    ) =~= old(client).evq@ + advert_events_of(
                        self.id,
                        ctx.formats@,
                        ext,
                        self.version,
                    ));
                }
            }
            i = i + 1;
        }
        proof {
            assert(ctx.formats@.skip(ctx.formats@.len() as int) =~= Seq::<FormatEntry>::empty());
            assert(client.evq@ =~= old(client).evq@ + advert_events_of(
                self.id,
                ctx.formats@,
                ext,
                self.version,
            ));
        }
    }

    /// `destroy`: drops the object from the table.
    pub fn destroy(&self, client: &mut Client) -> (r: Result<(), ZwpLinuxDmabufV1Error>)
        requires
            old(client).inv(),
        ensures
            final(client).inv(),
            r is Ok <==> old(client).objects@.contains_key(self.id),
            r is Err ==> r == Err::<(), ZwpLinuxDmabufV1Error>(
                ZwpLinuxDmabufV1Error::ClientError(ClientError::InvalidObject(self.id)),
            ) && crate::client::state_eq(old(client), final(client)),
            r is Ok ==> final(client).objects@ == old(client).objects@.remove(self.id),
            r is Ok && crate::client::is_client_id(self.id) ==> {
                &&& final(client).evq@ == old(client).evq@.push(
                    EventMsg::DeleteId { id: self.id },
                )
                &&& final(client).history@ == old(client).history@.push(
                    EventMsg::DeleteId { id: self.id },
                )
                &&& final(client).ops@ == old(client).ops@.push(
                    crate::client::TableOp::DeleteSent(self.id),
                )
            },
            r is Ok && !crate::client::is_client_id(self.id) ==> final(client).evq@ == old(
                client,
            ).evq@ && final(client).history@ == old(client).history@ && final(client).ops@ == old(
                client,
            ).ops@,
    {
        match client.remove_obj(self.id) {
            Ok(()) => Ok(()),
            Err(e) => Err(ZwpLinuxDmabufV1Error::ClientError(e)),
        }
    }

    /// `create_params`: registers a buffer-parameters object under the
    /// client-chosen id.
    pub fn create_params(&self, client: &mut Client, params_id: u32) -> (r: Result<
        (),
        ZwpLinuxDmabufV1Error,
    >)
        requires
            old(client).inv(),
        ensures
            final(client).inv(),
            r is Ok <==> is_client_id(params_id) && !old(client).objects@.contains_key(params_id),
            r is Err ==> crate::client::state_eq(old(client), final(client)),
            r is Ok ==> final(client).objects@ == old(client).objects@.insert(
                params_id,
                crate::client::ObjectEntry {
                    interface: Interface::ZwpLinuxBufferParamsV1,
                    version: self.version,
                },
            ) && final(client).evq@ == old(client).evq@,
    {
        match client.add_client_obj(params_id, Interface::ZwpLinuxBufferParamsV1, self.version) {
            Ok(()) => Ok(()),
            Err(e) => Err(ZwpLinuxDmabufV1Error::ClientError(e)),
        }
    }

    /// `get_default_feedback`: builds and sends the feedback for the device.
    pub fn get_default_feedback(&self, client: &mut Client, id: u32, ctx: Option<&RenderCtx>) -> (r:
        Result<(ZwpLinuxDmabufFeedbackV1, DmabufFeedbackTable), ZwpLinuxDmabufV1Error>)
        requires
            old(client).inv(),
            ctx is Some ==> table_rows(ctx->Some_0).len() <= 0x4000,
        ensures
            final(client).inv(),
            r is Err ==> crate::client::state_eq(old(client), final(client)),
            ctx is None ==> r == Err::<(ZwpLinuxDmabufFeedbackV1, DmabufFeedbackTable),
                ZwpLinuxDmabufV1Error,
            >(ZwpLinuxDmabufV1Error::ClientError(ClientError::InvalidMethod)),
            r is Ok ==> feedback_ok(old(client), final(client), id, ctx->Some_0, r->Ok_0),
    {
        self.send_feedback(client, id, ctx)
    }

    /// `get_surface_feedback`: per-surface feedback; this compositor serves
    /// the same table as the default feedback.
    pub fn get_surface_feedback(
        &self,
        client: &mut Client,
        id: u32,
        surface: u32,
        ctx: Option<&RenderCtx>,
    ) -> (r: Result<(ZwpLinuxDmabufFeedbackV1, DmabufFeedbackTable), ZwpLinuxDmabufV1Error>)
        requires
            old(client).inv(),
            ctx is Some ==> table_rows(ctx->Some_0).len() <= 0x4000,
        ensures
            final(client).inv(),
            r is Err ==> crate::client::state_eq(old(client), final(client)),
            ctx is None ==> r == Err::<(ZwpLinuxDmabufFeedbackV1, DmabufFeedbackTable),
                ZwpLinuxDmabufV1Error,
            >(ZwpLinuxDmabufV1Error::ClientError(ClientError::InvalidMethod)),
            r is Ok ==> feedback_ok(old(client), final(client), id, ctx->Some_0, r->Ok_0),
    {
        let _ = surface;
        self.send_feedback(client, id, ctx)
    }

    /// Builds the sealed format table and queues the feedback events. The
    /// table is written into a fresh sealable memfd, sealed against growing,
    /// shrinking and writing, and described by exactly the event sequence of
    /// `feedback_events`.
    fn send_feedback(&self, client: &mut Client, feedback_id: u32, ctx: Option<&RenderCtx>) -> (r:
        Result<(ZwpLinuxDmabufFeedbackV1, DmabufFeedbackTable), ZwpLinuxDmabufV1Error>)
        requires
            old(client).inv(),
            ctx is Some ==> table_rows(ctx->Some_0).len() <= 0x4000,
        ensures
            final(client).inv(),
            r is Err ==> crate::client::state_eq(old(client), final(client)),
            ctx is None ==> r == Err::<(ZwpLinuxDmabufFeedbackV1, DmabufFeedbackTable),
                ZwpLinuxDmabufV1Error,
            >(ZwpLinuxDmabufV1Error::ClientError(ClientError::InvalidMethod)),
            r is Ok ==> feedback_ok(old(client), final(client), feedback_id, ctx->Some_0, r->Ok_0),
    {
        let ctx = match ctx {
            Some(c) => c,
            None => {
                return Err(ZwpLinuxDmabufV1Error::ClientError(ClientError::InvalidMethod));
            },
        };
        let fd = match sys::memfd_create_sealable() {
            Ok(fd) => fd,
            Err(e) => {
                return Err(ZwpLinuxDmabufV1Error::ClientError(ClientError::Io(e)));
            },
        };
        let (bytes, rows) = build_format_table(ctx);
        match sys::write_all(&fd, bytes.as_slice()) {
            Ok(()) => {},
            Err(e) => {
                return Err(ZwpLinuxDmabufV1Error::ClientError(ClientError::Io(e)));
            },
        }
        match sys::fd_add_seals(&fd, sys::SEAL_GROW | sys::SEAL_SHRINK | sys::SEAL_WRITE) {
            Ok(()) => {},
            Err(e) => {
                return Err(ZwpLinuxDmabufV1Error::ClientError(ClientError::Io(e)));
            },
        }
        match client.add_client_obj(feedback_id, Interface::ZwpLinuxDmabufFeedbackV1, 4) {
            Ok(()) => {},
            Err(e) => {
                return Err(ZwpLinuxDmabufV1Error::ClientError(e));
            },
        }
        proof {
            lemma_rows_bytes_len(table_rows(ctx));
        }
        let size: u32 = 16 * (rows as u32);
        client.event(EventMsg::MainDevice { obj: feedback_id, device: ctx.dev });
        client.event(EventMsg::FormatTable { obj: feedback_id, size });
        client.event(EventMsg::TrancheTargetDevice { obj: feedback_id, device: ctx.dev });
        client.event(EventMsg::TrancheFormats { obj: feedback_id, count: rows as u16 });
        client.event(EventMsg::TrancheFlags { obj: feedback_id, flags: 0 });
        client.event(EventMsg::TrancheDone { obj: feedback_id });
        client.event(EventMsg::Done { obj: feedback_id });
        proof {
            assert(client.evq@ =~= old(client).evq@ + feedback_events(
                feedback_id,
                ctx.dev,
                table_rows(ctx).len() as int,
            ));
        }
        Ok((ZwpLinuxDmabufFeedbackV1 { id: feedback_id }, DmabufFeedbackTable { fd, size }))
    }
}

/// What a successful feedback request did: the feedback object entered the
/// table, the seven feedback events were queued in order, and the table's
/// size is sixteen bytes per row.
pub open spec fn feedback_ok(
    pre: &Client,
    post: &Client,
    id: u32,
    ctx: &RenderCtx,
    res: (ZwpLinuxDmabufFeedbackV1, DmabufFeedbackTable),
) -> bool {
    &&& is_client_id(id)
    &&& !pre.objects@.contains_key(id)
    &&& res.0.id == id
    &&& res.1.size == 16 * table_rows(ctx).len()
    &&& post.objects@ == pre.objects@.insert(
        id,
        crate::client::ObjectEntry { interface: Interface::ZwpLinuxDmabufFeedbackV1, version: 4 },
    )
    &&& post.evq@ == pre.evq@ + feedback_events(id, ctx.dev, table_rows(ctx).len() as int)
}

/// Builds the format-table bytes: sixteen bytes per row in renderer order.
pub fn build_format_table(ctx: &RenderCtx) -> (r: (Vec<u8>, usize))
    requires
        table_rows(ctx).len() <= 0x4000,
    ensures
        r.0@ == rows_bytes(table_rows(ctx)),
        r.1 == table_rows(ctx).len(),
        r.0@.len() == 16 * r.1,
{
    let ext = ctx.supports_external_texture;
    let mut out: Vec<u8> = Vec::new();
    let mut rows: usize = 0;
    let ghost all = table_rows(ctx);
    let ghost mut built: Seq<(u32, u64)> = Seq::empty();
    let mut i: usize = 0;
    proof {
        assert(ctx.formats@.skip(0) =~= ctx.formats@);
        assert(built + table_rows_of(ctx.formats@.skip(0), ext) =~= all);
        assert(out@ =~= rows_bytes(built));
    }
    while i < ctx.formats.len()
        invariant
            i <= ctx.formats@.len(),
            ext == ctx.supports_external_texture,
            all == table_rows(ctx),
            all.len() <= 0x4000,
            built + table_rows_of(ctx.formats@.skip(i as int), ext) == all,
            out@ == rows_bytes(built),
            rows == built.len(),
        decreases ctx.formats@.len() - i,
    {
        let ghost suffix = ctx.formats@.skip(i as int);
        proof {
            assert(suffix[0] == ctx.formats@[i as int]);
            assert(suffix.skip(1) =~= ctx.formats@.skip(i as int + 1));
            assert(built.len() + table_rows_of(suffix, ext).len() == all.len()) by {
                lemma_table_rows_len(built, suffix, ext, all);
            }
        }
        let f = &ctx.formats[i];
        if !(f.implicit_external_only && !ext) {
            let added = append_mod_rows(&mut out, f.drm, &f.modifiers, ext);
            proof {
                lemma_rows_bytes_concat(built, format_rows(ctx.formats@[i as int], ext));
                lemma_rows_bytes_len(built);
                lemma_rows_bytes_len(format_rows(ctx.formats@[i as int], ext));
                built = built + format_rows(ctx.formats@[i as int], ext);
                assert(built + table_rows_of(ctx.formats@.skip(i as int + 1), ext) =~= all);
            }
            rows = rows + added;
        } else {
            proof {
                assert(format_rows(ctx.formats@[i as int], ext) =~= Seq::<(u32, u64)>::empty());
                assert(built + table_rows_of(ctx.formats@.skip(i as int + 1), ext) =~= all);
            }
        }
        i = i + 1;
    }
    proof {
        assert(ctx.formats@.skip(ctx.formats@.len() as int) =~= Seq::<FormatEntry>::empty());
        assert(built =~= all);
        lemma_rows_bytes_len(all);
    }
    (out, rows)
}

/// Lengths add up across the split of the table into built and pending rows.
proof fn lemma_table_rows_len(
    built: Seq<(u32, u64)>,
    suffix: Seq<FormatEntry>,
    ext: bool,
    all: Seq<(u32, u64)>,
)
    requires
        built + table_rows_of(suffix, ext) == all,
    ensures
        built.len() + table_rows_of(suffix, ext).len() == all.len(),
{
}

/// Appends one format's rows to the table bytes and returns how many rows
/// were appended.
fn append_mod_rows(out: &mut Vec<u8>, drm: u32, mods: &Vec<FormatModifier>, ext: bool) -> (added:
    usize)
    ensures
        final(out)@ == old(out)@ + rows_bytes(mod_rows(drm, mods@, ext)),
        added == mod_rows(drm, mods@, ext).len(),
{
    let mut added: usize = 0;
    let mut i: usize = 0;
    let ghost mut built: Seq<(u32, u64)> = Seq::empty();
    proof {
        assert(mods@.skip(0) =~= mods@);
        assert(out@ =~= old(out)@ + rows_bytes(built));
        lemma_mod_rows_len(drm, mods@, ext);
    }
    while i < mods.len()
        invariant
            i <= mods@.len(),
            built + mod_rows(drm, mods@.skip(i as int), ext) == mod_rows(drm, mods@, ext),
            mod_rows(drm, mods@, ext).len() <= mods@.len(),
            added <= i,
            out@ == old(out)@ + rows_bytes(built),
            added == built.len(),
        decreases mods@.len() - i,
    {
        let ghost suffix = mods@.skip(i as int);
        proof {
            assert(suffix[0] == mods@[i as int]);
            assert(suffix.skip(1) =~= mods@.skip(i as int + 1));
        }
        let m = mods[i];
        if !(m.external_only && !ext) {
            append_row(out, drm, m.modifier);
            proof {
                lemma_rows_bytes_concat(built, seq![(drm, m.modifier)]);
                assert(seq![(drm, m.modifier)].skip(1) =~= Seq::<(u32, u64)>::empty());
                assert(rows_bytes(seq![(drm, m.modifier)]) =~= row_bytes(drm, m.modifier)) by {
                    reveal_with_fuel(rows_bytes, 3);
                }
                built = built + seq![(drm, m.modifier)];
                assert(out@ =~= old(out)@ + rows_bytes(built));
                assert(built + mod_rows(drm, mods@.skip(i as int + 1), ext) =~= mod_rows(
                    drm,
                    mods@,
                    ext,
                ));
                assert(built.len() + mod_rows(drm, mods@.skip(i as int + 1), ext).len()
                    == mod_rows(drm, mods@, ext).len());
            }
            added = added + 1;
        } else {
            proof {
                assert(built + mod_rows(drm, mods@.skip(i as int + 1), ext) =~= mod_rows(
                    drm,
                    mods@,
                    ext,
                ));
            }
        }
        i = i + 1;
    }
    proof {
        assert(mods@.skip(mods@.len() as int) =~= Seq::<FormatModifier>::empty());
        assert(built =~= mod_rows(drm, mods@, ext));
    }
    added
}

/// A format's row list is at most one row per modifier.
proof fn lemma_mod_rows_len(drm: u32, mods: Seq<FormatModifier>, ext: bool)
    ensures
        mod_rows(drm, mods, ext).len() <= mods.len(),
    decreases mods.len(),
{
    if mods.len() > 0 {
        lemma_mod_rows_len(drm, mods.skip(1), ext);
    }
}

/// Appends one 16-byte little-endian row: format, padding, modifier.
fn append_row(out: &mut Vec<u8>, f: u32, m: u64)
    ensures
        final(out)@ == old(out)@ + row_bytes(f, m),
{
    out.push((f & 0xff) as u8);
    out.push(((f >> 8) & 0xff) as u8);
    out.push(((f >> 16) & 0xff) as u8);
    out.push(((f >> 24) & 0xff) as u8);
    out.push(0);
    out.push(0);
    out.push(0);
    out.push(0);
    out.push((m & 0xff) as u8);
    out.push(((m >> 8) & 0xff) as u8);
    out.push(((m >> 16) & 0xff) as u8);
    out.push(((m >> 24) & 0xff) as u8);
    out.push(((m >> 32) & 0xff) as u8);
    out.push(((m >> 40) & 0xff) as u8);
    out.push(((m >> 48) & 0xff) as u8);
    out.push(((m >> 56) & 0xff) as u8);
    proof {
        assert(out@ =~= old(out)@ + row_bytes(f, m));
    }
}

impl ZwpLinuxDmabufFeedbackV1 {
    /// The interface declares one request.
    pub fn num_requests(&self) -> (r: u32)
        ensures
            r == 1,
    {
        1
    }

    /// `destroy`: drops the feedback object from the table.
    pub fn destroy(&self, client: &mut Client) -> (r: Result<(), ZwpLinuxDmabufV1Error>)
        requires
            old(client).inv(),
        ensures
            final(client).inv(),
            r is Ok <==> old(client).objects@.contains_key(self.id),
            r is Err ==> r == Err::<(), ZwpLinuxDmabufV1Error>(
                ZwpLinuxDmabufV1Error::ClientError(ClientError::InvalidObject(self.id)),
            ) && crate::client::state_eq(old(client), final(client)),
            r is Ok ==> final(client).objects@ == old(client).objects@.remove(self.id),
            r is Ok && crate::client::is_client_id(self.id) ==> {
                &&& final(client).evq@ == old(client).evq@.push(
                    EventMsg::DeleteId { id: self.id },
                )
                &&& final(client).history@ == old(client).history@.push(
                    EventMsg::DeleteId { id: self.id },
                )
                &&& final(client).ops@ == old(client).ops@.push(
                    crate::client::TableOp::DeleteSent(self.id),
                )
            },
            r is Ok && !crate::client::is_client_id(self.id) ==> final(client).evq@ == old(
                client,
            ).evq@ && final(client).history@ == old(client).history@ && final(client).ops@ == old(
                client,
            ).ops@,
    {
        match client.remove_obj(self.id) {
            Ok(()) => Ok(()),
            Err(e) => Err(ZwpLinuxDmabufV1Error::ClientError(e)),
        }
    }
}

} // verus!
