//! The legacy KDE server-decoration protocol: the manager global announces
//! server-side decorations on bind, decoration objects answer the first
//! `request_mode` with `SERVER` and later ones with the requested mode.

use vstd::prelude::*;
use crate::client::{Client, ClientError, EventMsg, Interface, is_client_id};

verus! {

/// Decoration drawn by nobody.
pub const DECORATION_MODE_NONE: u32 = 0;

/// Decoration drawn by the client.
pub const DECORATION_MODE_CLIENT: u32 = 1;

/// Decoration drawn by the server.
pub const DECORATION_MODE_SERVER: u32 = 2;

/// An error of the decoration protocol.
#[derive(Copy, Clone, Debug, PartialEq, Eq, Structural)]
pub enum KdeDecorationError {
    /// `request_mode` carried a mode beyond `SERVER`.
    InvalidMode(u32),
    /// A table or queue operation failed.
    Client(ClientError),
}

/// The advertised `org_kde_kwin_server_decoration_manager` global.
pub struct OrgKdeKwinServerDecorationManagerGlobal {
    pub name: u32,
}

impl OrgKdeKwinServerDecorationManagerGlobal {
    pub fn new(name: u32) -> (r: Self)
        ensures
            r.name == name,
    {
        OrgKdeKwinServerDecorationManagerGlobal { name }
    }

    /// The manager may be bound once per client.
    pub fn singleton(&self) -> (r: bool)
        ensures
            r,
    {
        true
    }

    /// The interface version the compositor offers.
    pub fn version(&self) -> (r: u32)
        ensures
            r == 1,
    {
        1
    }

    /// Binds the global for one client: the manager object enters the
    /// client's table and `default_mode(SERVER)` is queued at once.
    pub fn bind_(&self, id: u32, client: &mut Client, version: u32) -> (r: Result<
        OrgKdeKwinServerDecorationManager,
        KdeDecorationError,
    >)
        requires
            old(client).inv(),
        ensures
            final(client).inv(),
            r is Ok <==> is_client_id(id) && !old(client).objects@.contains_key(id),
            r is Err ==> crate::client::state_eq(old(client), final(client)),
            !is_client_id(id) ==> r == Err::<OrgKdeKwinServerDecorationManager,
                KdeDecorationError,
            >(KdeDecorationError::Client(ClientError::IdOutOfRange(id))),
            is_client_id(id) && old(client).objects@.contains_key(id) ==> r == Err::<
                OrgKdeKwinServerDecorationManager,
                KdeDecorationError,
            >(KdeDecorationError::Client(ClientError::IdInUse(id))),
            r is Ok ==> {
                &&& r->Ok_0.id == id
                &&& final(client).objects@ == old(client).objects@.insert(
                    id,
                    crate::client::ObjectEntry {
                        interface: Interface::OrgKdeKwinServerDecorationManager,
                        version,
                    },
                )
                &&& final(client).evq@ == old(client).evq@.push(
                    EventMsg::KdeDefaultMode { obj: id, mode: DECORATION_MODE_SERVER },
                )
                &&& final(client).history@ == old(client).history@.push(
                    EventMsg::KdeDefaultMode { obj: id, mode: DECORATION_MODE_SERVER },
                )
            },
    {
        match client.add_client_obj(id, Interface::OrgKdeKwinServerDecorationManager, version) {
            Ok(()) => {},
            Err(e) => {
                return Err(KdeDecorationError::Client(e));
            },
        }
        client.event(EventMsg::KdeDefaultMode { obj: id, mode: DECORATION_MODE_SERVER });
        Ok(OrgKdeKwinServerDecorationManager { id })
    }
}

/// A bound `org_kde_kwin_server_decoration_manager` object.
pub struct OrgKdeKwinServerDecorationManager {
    pub id: u32,
}

impl OrgKdeKwinServerDecorationManager {
    /// The manager declares one request.
    pub fn num_requests(&self) -> (r: u32)
        ensures
            r == 1,
    {
        1
    }

    /// Queues the manager's `default_mode` event.
    pub fn default_mode(&self, client: &mut Client, mode: u32)
        requires
            old(client).inv(),
        ensures
            final(client).inv(),
            final(client).evq@ == old(client).evq@.push(
                EventMsg::KdeDefaultMode { obj: self.id, mode },
            ),
            final(client).objects@ == old(client).objects@,
            final(client).ops@ == old(client).ops@,
            final(client).history@ == old(client).history@.push(
                EventMsg::KdeDefaultMode { obj: self.id, mode },
            ),
    {
        client.event(EventMsg::KdeDefaultMode { obj: self.id, mode });
    }

    /// `create(surface, id)`: checks the surface, registers the decoration
    /// object and immediately answers with `mode(SERVER)`.
    pub fn create(&self, client: &mut Client, surface: u32, id: u32) -> (r: Result<
        OrgKdeKwinServerDecoration,
        KdeDecorationError,
    >)
        requires
            old(client).inv(),
        ensures
            final(client).inv(),
            r is Ok <==> {
                &&& old(client).objects@.contains_key(surface)
                &&& old(client).objects@[surface].interface == Interface::WlSurface
                &&& is_client_id(id)
                &&& !old(client).objects@.contains_key(id)
            },
            r is Err ==> crate::client::state_eq(old(client), final(client)),
            !(old(client).objects@.contains_key(surface)
                && old(client).objects@[surface].interface == Interface::WlSurface) ==> r == Err::<
                OrgKdeKwinServerDecoration,
                KdeDecorationError,
            >(KdeDecorationError::Client(ClientError::InvalidObject(surface))),
            r is Ok ==> {
                &&& r->Ok_0.id == id
                &&& !r->Ok_0.requested
                &&& final(client).objects@ == old(client).objects@.insert(
                    id,
                    crate::client::ObjectEntry {
                        interface: Interface::OrgKdeKwinServerDecoration,
                        version: 1,
                    },
                )
                &&& final(client).evq@ == old(client).evq@.push(
                    EventMsg::KdeMode { obj: id, mode: DECORATION_MODE_SERVER },
                )
                &&& final(client).history@ == old(client).history@.push(
                    EventMsg::KdeMode { obj: id, mode: DECORATION_MODE_SERVER },
                )
            },
    {
        match client.lookup(surface, Interface::WlSurface) {
            Ok(_) => {},
            Err(e) => {
                return Err(KdeDecorationError::Client(e));
            },
        }
        match client.add_client_obj(id, Interface::OrgKdeKwinServerDecoration, 1) {
            Ok(()) => {},
            Err(e) => {
                return Err(KdeDecorationError::Client(e));
            },
        }
        let obj = OrgKdeKwinServerDecoration::new(id);
        obj.mode(client, DECORATION_MODE_SERVER);
        Ok(obj)
    }
}

/// A per-surface decoration object. `requested` records whether the client
/// has sent `request_mode` before.
pub struct OrgKdeKwinServerDecoration {
    pub id: u32,
    pub requested: bool,
}

impl OrgKdeKwinServerDecoration {
    pub fn new(id: u32) -> (r: Self)
        ensures
            r.id == id,
            !r.requested,
    {
        OrgKdeKwinServerDecoration { id, requested: false }
    }

    /// The decoration object declares two requests.
    pub fn num_requests(&self) -> (r: u32)
        ensures
            r == 2,
    {
        2
    }

    /// Queues this object's `mode` event.
    pub fn mode(&self, client: &mut Client, mode: u32)
        requires
            old(client).inv(),
        ensures
            final(client).inv(),
            final(client).evq@ == old(client).evq@.push(EventMsg::KdeMode { obj: self.id, mode }),
            final(client).objects@ == old(client).objects@,
            final(client).ops@ == old(client).ops@,
            final(client).history@ == old(client).history@.push(
                EventMsg::KdeMode { obj: self.id, mode },
            ),
    {
        client.event(EventMsg::KdeMode { obj: self.id, mode });
    }

    /// `release`: drops the object from the table.
    pub fn release(&self, client: &mut Client) -> (r: Result<(), KdeDecorationError>)
        requires
            old(client).inv(),
        ensures
            final(client).inv(),
            r is Ok <==> old(client).objects@.contains_key(self.id),
            r is Err ==> r == Err::<(), KdeDecorationError>(
                KdeDecorationError::Client(ClientError::InvalidObject(self.id)),
            ) && crate::client::state_eq(old(client), final(client)),
            r is Ok ==> final(client).objects@ == old(client).objects@.remove(self.id),
            r is Ok && crate::client::is_client_id(self.id) ==> {
                &&& final(client).evq@ == old(client).evq@.push(
                    EventMsg::DeleteId { id: self.id },
                )
                &&& final(client).history@ == old(client).history@.push(
                    EventMsg::DeleteId { id: self.id },
                )
                &&& final(client).ops@ == old(client).ops@.push(
                    crate::client::TableOp::DeleteSent(self.id),
                )
            },
            r is Ok && !crate::client::is_client_id(self.id) ==> final(client).evq@ == old(
                client,
            ).evq@ && final(client).history@ == old(client).history@ && final(client).ops@ == old(
                client,
            ).ops@,
    {
        match client.remove_obj(self.id) {
            Ok(()) => Ok(()),
            Err(e) => Err(KdeDecorationError::Client(e)),
        }
    }

    /// `request_mode(mode)`: a mode beyond `SERVER` is a protocol error; the
    /// first request is answered with `SERVER` whatever was asked, every
    /// later one with the requested mode itself.
    pub fn request_mode(&mut self, client: &mut Client, mode: u32) -> (r: Result<
        (),
        KdeDecorationError,
    >)
        requires
            old(client).inv(),
        ensures
            final(client).inv(),
            r is Ok <==> mode <= DECORATION_MODE_SERVER,
            mode > DECORATION_MODE_SERVER ==> r == Err::<(), KdeDecorationError>(
                KdeDecorationError::InvalidMode(mode),
            ) && crate::client::state_eq(old(client), final(client)) && *final(self) == *old(self),
            r is Ok ==> {
                &&& final(self).requested
                &&& final(self).id == old(self).id
                &&& final(client).evq@ == old(client).evq@.push(
                    EventMsg::KdeMode {
                        obj: old(self).id,
                        mode: if old(self).requested {
                            mode
                        } else {
                            DECORATION_MODE_SERVER
                        },
                    },
                )
                &&& final(client).objects@ == old(client).objects@
                &&& final(client).history@ == old(client).history@.push(
                    EventMsg::KdeMode {
                        obj: old(self).id,
                        mode: if old(self).requested {
                            mode
                        } else {
                            DECORATION_MODE_SERVER
                        },
                    },
                )
            },
    {
        if mode > DECORATION_MODE_SERVER {
            return Err(KdeDecorationError::InvalidMode(mode));
        }
        let reply = if self.requested {
            mode
        } else {
            DECORATION_MODE_SERVER
        };
        self.requested = true;
        self.mode(client, reply);
        Ok(())
    }
}

} // verus!
