//! Verified core of a tiling and floating window manager for X11.
//!
//! The crate models the layout engine and workspace manager of the window
//! manager as pure state machines: every handler takes plain values describing
//! an X event and returns the protocol requests to issue, so the placement
//! algebra, the focus and workspace invariants, and the keybinding dispatch are
//! all checked by Verus. The process that owns the X connection performs the
//! returned requests and feeds the next event back in.

pub mod config_parser;
pub mod event;
pub mod geometry;
pub mod keybinding_parser;
pub mod layouts;
pub mod max;
pub mod tile;
pub mod tree;
pub mod workspaces;
pub mod x;
