//! The three kinds of worker node the controller supervises.

use vstd::prelude::*;

verus! {

/// What kind of worker a node is.  Only relays ("drones") carry mutable
/// per-kind state: their drop rate and whether they have been crashed.
/// Clients and servers are stateless tags.
#[derive(Debug, PartialEq, Eq, Structural, Clone, Copy)]
pub enum NodeKind {
    Drone { pdr: u32, crashed: bool },
    Client,
    Server,
}

impl NodeKind {
    /// True for a relay, crashed or not.
    pub open spec fn is_drone(self) -> bool {
        self matches NodeKind::Drone { .. }
    }

    /// True for a relay that has been crashed.
    pub open spec fn is_crashed(self) -> bool {
        self matches NodeKind::Drone { crashed: true, .. }
    }

    /// True for a node that still takes part in the network: any client or
    /// server, and any relay that has not crashed.
    pub open spec fn is_active(self) -> bool {
        !self.is_crashed()
    }

    /// Executable test for a relay.
    pub fn check_is_drone(&self) -> (r: bool)
        ensures
            r == self.is_drone(),
    {
        matches!(self, NodeKind::Drone { .. })
    }

    /// Executable test for a crashed relay.
    pub fn check_is_crashed(&self) -> (r: bool)
        ensures
            r == self.is_crashed(),
    {
        matches!(self, NodeKind::Drone { crashed: true, .. })
    }
}

} // verus!
