//! Values the backend (monitor driver) hands to the compositor: connector
//! identifiers, monitor information and hotplug events, plus the dummy
//! connector that stands in when no monitor is present.

use vstd::prelude::*;

verus! {

/// The kernel-level identity of a connector: its type and index.
#[derive(Copy, Clone, Debug, PartialEq, Eq, Structural)]
pub struct ConnectorKernelId {
    /// The kernel connector type code; zero is unknown.
    pub ty: u32,
    /// The per-type index.
    pub idx: u32,
}

/// A display mode of a monitor.
#[derive(Copy, Clone, Debug, PartialEq, Eq, Structural)]
pub struct Mode {
    pub width: i32,
    pub height: i32,
    pub refresh_rate_millihz: u32,
}

/// What the backend reports about a newly connected monitor.
#[derive(Clone, Debug)]
pub struct MonitorInfo {
    pub initial_mode: Mode,
    pub manufacturer: String,
    pub product: String,
    pub width_mm: i32,
    pub height_mm: i32,
}

/// An event a connector emits.
#[derive(Clone, Debug)]
pub enum ConnectorEvent {
    Connected(MonitorInfo),
    ModeChanged(Mode),
    Disconnected,
    Removed,
}

/// A backend with no connectors and nothing to run.
pub struct DummyBackend;

/// The connector of the dummy output: it never emits an event.
pub struct DummyOutput {
    pub id: u64,
}

impl DummyOutput {
    /// The connector id.
    pub fn id(&self) -> (r: u64)
        ensures
            r == self.id,
    {
        self.id
    }

    /// The dummy connector has no kernel identity.
    pub fn kernel_id(&self) -> (r: ConnectorKernelId)
        ensures
            r == (ConnectorKernelId { ty: 0u32, idx: 0u32 }),
    {
        ConnectorKernelId { ty: 0, idx: 0 }
    }

    /// The dummy connector never has a pending event.
    pub fn event(&self) -> (r: Option<ConnectorEvent>)
        ensures
            r is None,
    {
        None
    }
}

} // verus!
