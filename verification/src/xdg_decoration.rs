//! `zxdg_toplevel_decoration_v1`: tracks a toplevel's decoration mode and
//! answers `set_mode`/`unset_mode` with a fresh configure carrying the
//! chosen mode followed by the toplevel's current configure.

use vstd::prelude::*;
use crate::client::{Client, ClientError, EventMsg};

verus! {

/// Configure value for client-side decorations.
pub const DECORATION_CLIENT_SIDE: u32 = 1;

/// Configure value for server-side decorations.
pub const DECORATION_SERVER_SIDE: u32 = 2;

/// Who draws a toplevel's decoration.
#[derive(Copy, Clone, Debug, PartialEq, Eq, Structural)]
pub enum Decoration {
    Client,
    Server,
}

/// An error of the toplevel-decoration interface.
#[derive(Copy, Clone, Debug, PartialEq, Eq, Structural)]
pub enum ZxdgToplevelDecorationV1Error {
    /// A table or queue operation failed.
    ClientError(ClientError),
}

/// A decoration object attached to one toplevel. `decoration` mirrors the
/// mode the compositor chose for that toplevel.
pub struct ZxdgToplevelDecorationV1 {
    pub id: u32,
    pub toplevel: u32,
    pub decoration: Decoration,
}

impl ZxdgToplevelDecorationV1 {
    pub fn new(id: u32, toplevel: u32, decoration: Decoration) -> (r: Self)
        ensures
            r.id == id,
            r.toplevel == toplevel,
            r.decoration == decoration,
    {
        ZxdgToplevelDecorationV1 { id, toplevel, decoration }
    }

    /// The interface declares three requests.
    pub fn num_requests(&self) -> (r: u32)
        ensures
            r == 3,
    {
        3
    }

    /// The configure value carried for the current decoration mode.
    pub open spec fn spec_mode(&self) -> u32 {
        match self.decoration {
            Decoration::Client => DECORATION_CLIENT_SIDE,
            Decoration::Server => DECORATION_SERVER_SIDE,
        }
    }

    /// Queues this object's `configure` event with the given mode.
    pub fn send_configure(&self, client: &mut Client, mode: u32)
        requires
            old(client).inv(),
        ensures
            final(client).inv(),
            final(client).evq@ == old(client).evq@.push(
                EventMsg::DecorationConfigure { obj: self.id, mode },
            ),
            final(client).objects@ == old(client).objects@,
            final(client).ops@ == old(client).ops@,
            final(client).history@ == old(client).history@.push(
                EventMsg::DecorationConfigure { obj: self.id, mode },
            ),
    {
        client.event(EventMsg::DecorationConfigure { obj: self.id, mode });
    }

    /// Queues a decoration configure for the current mode, followed by the
    /// toplevel's current configure round.
    pub fn do_send_configure(&self, client: &mut Client)
        requires
            old(client).inv(),
        ensures
            final(client).inv(),
            final(client).evq@ == old(client).evq@.push(
                EventMsg::DecorationConfigure { obj: self.id, mode: self.spec_mode() },
            ).push(EventMsg::ToplevelConfigure { obj: self.toplevel }),
            final(client).objects@ == old(client).objects@,
            final(client).ops@ == old(client).ops@,
            final(client).history@ == old(client).history@.push(
                EventMsg::DecorationConfigure { obj: self.id, mode: self.spec_mode() },
            ).push(EventMsg::ToplevelConfigure { obj: self.toplevel }),
    {
        let mode = match self.decoration {
            Decoration::Client => DECORATION_CLIENT_SIDE,
            Decoration::Server => DECORATION_SERVER_SIDE,
        };
        self.send_configure(client, mode);
        client.event(EventMsg::ToplevelConfigure { obj: self.toplevel });
    }

    /// `destroy`: drops the object from the table.
    pub fn destroy(&self, client: &mut Client) -> (r: Result<(), ZxdgToplevelDecorationV1Error>)
        requires
            old(client).inv(),
        ensures
            final(client).inv(),
            r is Ok <==> old(client).objects@.contains_key(self.id),
            r is Err ==> r == Err::<(), ZxdgToplevelDecorationV1Error>(
                ZxdgToplevelDecorationV1Error::ClientError(ClientError::InvalidObject(self.id)),
            ) && crate::client::state_eq(old(client), final(client)),
            r is Ok ==> final(client).objects@ == old(client).objects@.remove(self.id),
            r is Ok && crate::client::is_client_id(self.id) ==> {
                &&& final(client).evq@ == old(client).evq@.push(
                    EventMsg::DeleteId { id: self.id },
                )
                &&& final(client).history@ == old(client).history@.push(
                    EventMsg::DeleteId { id: self.id },
                )
                &&& final(client).ops@ == old(client).ops@.push(
                    crate::client::TableOp::DeleteSent(self.id),
                )
            },
            r is Ok && !crate::client::is_client_id(self.id) ==> final(client).evq@ == old(
                client,
            ).evq@ && final(client).history@ == old(client).history@ && final(client).ops@ == old(
                client,
            ).ops@,
    {
        match client.remove_obj(self.id) {
            Ok(()) => Ok(()),
            Err(e) => Err(ZxdgToplevelDecorationV1Error::ClientError(e)),
        }
    }

    /// `set_mode`: whichever mode the client asks for, the compositor
    /// answers with its chosen mode and the current configure.
    pub fn set_mode(&self, client: &mut Client, requested: u32) -> (r: Result<
        (),
        ZxdgToplevelDecorationV1Error,
    >)
        requires
            old(client).inv(),
        ensures
            final(client).inv(),
            r is Ok,
            final(client).evq@ == old(client).evq@.push(
                EventMsg::DecorationConfigure { obj: self.id, mode: self.spec_mode() },
            ).push(EventMsg::ToplevelConfigure { obj: self.toplevel }),
            final(client).objects@ == old(client).objects@,
    {
        let _ = requested;
        self.do_send_configure(client);
        Ok(())
    }

    /// `unset_mode`: same answer as `set_mode`, with no mode asked for.
    pub fn unset_mode(&self, client: &mut Client) -> (r: Result<
        (),
        ZxdgToplevelDecorationV1Error,
    >)
        requires
            old(client).inv(),
        ensures
            final(client).inv(),
            r is Ok,
            final(client).evq@ == old(client).evq@.push(
                EventMsg::DecorationConfigure { obj: self.id, mode: self.spec_mode() },
            ).push(EventMsg::ToplevelConfigure { obj: self.toplevel }),
            final(client).objects@ == old(client).objects@,
    {
        self.do_send_configure(client);
        Ok(())
    }
}

} // verus!
