//! The state of the interactive view: which window is open and which node
//! has focus.  The presentation layer renders it; the controller owns it.

use vstd::prelude::*;

use crate::node_kind::NodeKind;
use crate::validator::TopologyError;

verus! {

/// The window or popup currently open.
#[derive(Debug, PartialEq, Eq, Structural, Clone, Copy)]
pub enum Window {
    /// Picking the second endpoint of a new link; `origin` is the first.
    AddConnection { origin: u8 },
    /// Adjusting a relay's drop rate, in hundredths.
    ChangePdr { pdr: u32 },
    /// The per-node detail view with its tab index.
    Detail { tab: usize },
    /// Showing why the last mutation was rejected.
    Error { message: TopologyError },
    Main,
    Move,
}

/// Everything the view needs beside the topology: the focused node's id and
/// kind, and the open window.
#[derive(Debug, PartialEq, Eq, Structural, Clone, Copy)]
pub struct Screen {
    pub focus: u8,
    pub kind: NodeKind,
    pub window: Window,
}

} // verus!
