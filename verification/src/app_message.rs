//! The requests the presentation layer hands the controller, one per tick.

use vstd::prelude::*;

verus! {

/// One request from the interactive view.
#[derive(Debug, PartialEq, Eq, Structural, Clone, Copy)]
pub enum AppMessage {
    /// Move the focused node on the canvas.
    MoveNode { x: i8, y: i8 },
    /// Cycle the detail view's tab.
    ChangeTab,
    /// Open the window that picks a connection's second endpoint.
    WindowAddConnection,
    /// Open the window that adjusts a relay's drop rate.
    WindowChangePDR,
    /// Open the window that moves a node.
    WindowMove,
    /// Open the per-node detail view.
    WindowDetail,
    /// Create a fresh relay.
    SpawnDrone,
    /// Crash the focused relay.
    Crash,
    ScrollUp,
    ScrollDown,
    /// Confirm the open window's action.
    Done,
    Quit,
}

} // verus!
