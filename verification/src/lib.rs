//! Core of a Wayland compositor: the per-client protocol objects
//! (`zwp_linux_dmabuf_v1`, the xdg and KDE decoration interfaces), the
//! global registry, the scene graph of outputs, workspaces, containers and
//! surfaces, and the connector (monitor hotplug) lifecycle that feeds it.

pub mod backend;
pub mod cli;
pub mod client;
pub mod config;
pub mod dmabuf;
pub mod kde_decoration;
pub mod registry;
pub mod state;
pub mod sync_queue;
pub mod sys;
pub mod theme;
pub mod tree;
pub mod xdg_decoration;
