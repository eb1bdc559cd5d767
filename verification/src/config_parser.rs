//! The configuration consumed by the manager, as plain values: the
//! workspace tags, the ordered list of enabled layouts, the dynamic flag,
//! and the keybinding table. The process that reads the user's
//! configuration source fills this in before the event loop starts.

use vstd::prelude::*;

verus! {

/// One keybinding as configured: a chord string such as `M-<tab>` bound to
/// a command string such as `goto_tag,2`, with its group and description.
#[derive(Debug, Clone)]
pub struct KeyBindingSpec {
    pub chord: String,
    pub command: String,
    pub group: String,
    pub description: String,
}

/// The parsed configuration.
#[derive(Debug)]
pub struct ParsedConfig {
    /// One entry per workspace; the length determines the workspace count.
    pub workspaces: Vec<i32>,
    /// Layout names, in rotation order; the first is the initial layout.
    pub enabled_layouts: Vec<String>,
    /// True for the dynamic layouts (tile and max rotation); false for the
    /// manual split mode.
    pub dynamic: bool,
    /// The keybinding table.
    pub keybindings: Vec<KeyBindingSpec>,
}

impl ParsedConfig {
    /// The defaults before any configuration is read: no workspaces, no
    /// layouts, dynamic mode, no keybindings.
    pub fn new() -> (c: ParsedConfig)
        ensures
            c.workspaces@.len() == 0,
            c.enabled_layouts@.len() == 0,
            c.dynamic == true,
            c.keybindings@.len() == 0,
    {
        ParsedConfig {
            workspaces: Vec::new(),
            enabled_layouts: Vec::new(),
            dynamic: true,
            keybindings: Vec::new(),
        }
    }
}

} // verus!
