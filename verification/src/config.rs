//! The configuration-client API: the handle a configuration uses to talk to
//! the compositor. Actions (quit, VT switch, reload) are queued as commands;
//! workspace-capture settings are tracked directly.

use vstd::prelude::*;

verus! {

/// A planar direction.
#[derive(Copy, Clone, Debug, PartialEq, Eq, Structural)]
pub enum Direction {
    Left,
    Down,
    Up,
    Right,
    Unspecified,
}

/// A planar axis.
#[derive(Copy, Clone, Debug, PartialEq, Eq, Structural)]
pub enum Axis {
    Horizontal,
    Vertical,
}

impl Axis {
    /// Returns the axis orthogonal to `self`.
    pub fn other(self) -> (r: Self)
        ensures
            self is Horizontal ==> r is Vertical,
            self is Vertical ==> r is Horizontal,
    {
        match self {
            Self::Horizontal => Self::Vertical,
            Self::Vertical => Self::Horizontal,
        }
    }
}

/// A workspace handle. The id is nonzero exactly when the workspace existed
/// at the time it was looked up.
#[derive(Copy, Clone, Debug, PartialEq, Eq, Structural)]
pub struct Workspace(pub u64);

/// A PCI ID identifying a hardware component.
#[derive(Copy, Clone, Debug, Default, PartialEq, Eq, Structural)]
pub struct PciId {
    pub vendor: u32,
    pub model: u32,
}

/// A command queued by the configuration for the compositor to act on.
#[derive(Copy, Clone, Debug, PartialEq, Eq, Structural)]
pub enum ConfigCommand {
    Quit,
    SwitchToVt(u32),
    Reload,
}

/// The state a configuration shares with the compositor: queued commands,
/// whether this run of the configuration is a reload, the default capture
/// setting, per-workspace capture overrides and the known workspace names.
pub struct ConfigClient {
    /// Commands queued for the compositor, oldest first.
    pub commands: Vec<ConfigCommand>,
    /// Whether the configuration function runs due to a reload.
    pub reloading: bool,
    /// Whether new workspaces are captured by default.
    pub default_capture: bool,
    /// Per-workspace capture overrides, keyed by workspace id.
    pub captures: std::collections::HashMap<u64, bool>,
    /// Known workspaces: name and nonzero id, names unique.
    pub workspace_names: Vec<(String, u64)>,
}

/// The id paired with the first entry whose name matches, or zero when no
/// entry matches.
pub open spec fn workspace_id_in(s: Seq<(String, u64)>, name: Seq<char>) -> u64
    decreases s.len(),
{
    if s.len() == 0 {
        0u64
    } else if s[0].0@ == name {
        s[0].1
    } else {
        workspace_id_in(s.subrange(1, s.len() as int), name)
    }
}

impl ConfigClient {
    /// Ids handed out for workspaces are nonzero; zero means "no such
    /// workspace".
    pub open spec fn wf(&self) -> bool {
        forall|i: int| 0 <= i < self.workspace_names@.len() ==> (#[trigger] self.workspace_names@[i]).1 != 0
    }

    /// The id recorded for a workspace name, or zero when the name is unknown.
    pub open spec fn spec_workspace_id(&self, name: Seq<char>) -> u64 {
        workspace_id_in(self.workspace_names@, name)
    }

    pub fn new(reloading: bool) -> (r: Self)
        ensures
            r.wf(),
            r.commands@.len() == 0,
            r.reloading == reloading,
            r.default_capture == true,
            r.captures@ == Map::<u64, bool>::empty(),
            r.workspace_names@.len() == 0,
    {
        ConfigClient {
            commands: Vec::new(),
            reloading,
            default_capture: true,
            captures: std::collections::HashMap::new(),
            workspace_names: Vec::new(),
        }
    }
}

/// Exits the compositor.
pub fn quit(c: &mut ConfigClient)
    ensures
        final(c).commands@ == old(c).commands@.push(ConfigCommand::Quit),
        unchanged_but_commands(old(c), final(c)),
{
    c.commands.push(ConfigCommand::Quit);
}

/// Switches to a different VT.
pub fn switch_to_vt(c: &mut ConfigClient, n: u32)
    ensures
        final(c).commands@ == old(c).commands@.push(ConfigCommand::SwitchToVt(n)),
        unchanged_but_commands(old(c), final(c)),
{
    c.commands.push(ConfigCommand::SwitchToVt(n));
}

/// Reloads the configuration. If the configuration cannot be reloaded, the
/// command has no effect on the compositor side.
pub fn reload(c: &mut ConfigClient)
    ensures
        final(c).commands@ == old(c).commands@.push(ConfigCommand::Reload),
        unchanged_but_commands(old(c), final(c)),
{
    c.commands.push(ConfigCommand::Reload);
}

/// Everything except the command queue is kept as it was.
pub open spec fn unchanged_but_commands(a: &ConfigClient, b: &ConfigClient) -> bool {
    &&& a.reloading == b.reloading
    &&& a.default_capture == b.default_capture
    &&& a.captures@ == b.captures@
    &&& a.workspace_names@ == b.workspace_names@
}

/// Returns whether this execution of the configuration function is due to a
/// reload.
pub fn is_reload(c: &ConfigClient) -> (r: bool)
    ensures
        r == c.reloading,
{
    c.reloading
}

/// Sets whether new workspaces are captured by default.
pub fn set_default_workspace_capture(c: &mut ConfigClient, capture: bool)
    ensures
        final(c).default_capture == capture,
        final(c).commands@ == old(c).commands@,
        final(c).reloading == old(c).reloading,
        final(c).captures@ == old(c).captures@,
        final(c).workspace_names@ == old(c).workspace_names@,
{
    c.default_capture = capture;
}

/// Returns whether new workspaces are captured by default.
pub fn get_default_workspace_capture(c: &ConfigClient) -> (r: bool)
    ensures
        r == c.default_capture,
{
    c.default_capture
}

/// Toggles whether new workspaces are captured by default.
pub fn toggle_default_workspace_capture(c: &mut ConfigClient)
    ensures
        final(c).default_capture == !old(c).default_capture,
        final(c).commands@ == old(c).commands@,
        final(c).reloading == old(c).reloading,
        final(c).captures@ == old(c).captures@,
        final(c).workspace_names@ == old(c).workspace_names@,
{
    let v = get_default_workspace_capture(c);
    set_default_workspace_capture(c, !v);
}

/// Returns the workspace with the given name. Looking a name up does not
/// create the workspace: an unknown name yields the nonexistent workspace.
pub fn get_workspace(c: &ConfigClient, name: &str) -> (r: Workspace)
    ensures
        r.0 == c.spec_workspace_id(name@),
{
    let name_owned: String = name.to_owned();
    let mut i: usize = 0;
    proof {
        assert(c.workspace_names@.subrange(0, c.workspace_names@.len() as int)
            =~= c.workspace_names@);
    }
    while i < c.workspace_names.len()
        invariant
            i <= c.workspace_names@.len(),
            name_owned@ == name@,
            c.spec_workspace_id(name@) == workspace_id_in(
                c.workspace_names@.subrange(i as int, c.workspace_names@.len() as int),
                name@,
            ),
        decreases c.workspace_names@.len() - i,
    {
        proof {
            assert(c.workspace_names@.subrange(i as int, c.workspace_names@.len() as int)[0]
                == c.workspace_names@[i as int]);
        }
        if c.workspace_names[i].0 == name_owned {
            return Workspace(c.workspace_names[i].1);
        }
        proof {
            assert(c.workspace_names@.subrange(i as int, c.workspace_names@.len() as int)
                .subrange(1, c.workspace_names@.len() - i)
                =~= c.workspace_names@.subrange(i + 1, c.workspace_names@.len() as int));
        }
        i = i + 1;
    }
    Workspace(0)
}

impl Workspace {
    /// Returns whether this workspace existed at the time it was looked up.
    pub fn is_present(self) -> (r: bool)
        ensures
            r == (self.0 != 0),
    {
        self.0 != 0
    }

    /// Sets whether the workspace is captured.
    pub fn set_capture(self, c: &mut ConfigClient, capture: bool)
        ensures
            final(c).captures@ == old(c).captures@.insert(self.0, capture),
            final(c).commands@ == old(c).commands@,
            final(c).reloading == old(c).reloading,
            final(c).default_capture == old(c).default_capture,
            final(c).workspace_names@ == old(c).workspace_names@,
    {
        c.captures.insert(self.0, capture);
    }

    /// Returns whether the workspace is captured: its own override when one
    /// was set, else the default.
    pub fn get_capture(self, c: &ConfigClient) -> (r: bool)
        ensures
            r == if c.captures@.contains_key(self.0) {
                c.captures@[self.0]
            } else {
                c.default_capture
            },
    {
        match c.captures.get(&self.0) {
            Some(v) => *v,
            None => c.default_capture,
        }
    }

    /// Toggles whether the workspace is captured.
    pub fn toggle_capture(self, c: &mut ConfigClient)
        ensures
            final(c).captures@ == old(c).captures@.insert(
                self.0,
                !(if old(c).captures@.contains_key(self.0) {
                    old(c).captures@[self.0]
                } else {
                    old(c).default_capture
                }),
            ),
            final(c).commands@ == old(c).commands@,
            final(c).reloading == old(c).reloading,
            final(c).default_capture == old(c).default_capture,
            final(c).workspace_names@ == old(c).workspace_names@,
    {
        let v = self.get_capture(c);
        self.set_capture(c, !v);
    }
}

} // verus!
