//! The startup input: an initial node list with kinds, starting link sets and
//! (for relays) drop rates.  The surrounding program parses whatever format it
//! uses into these plain values; the controller builds and validates the
//! initial topology from them.

use vstd::prelude::*;

verus! {

/// One relay of the initial configuration.  `pdr` is the packet drop rate in
/// hundredths of the unit fraction.
#[derive(Debug)]
pub struct Drone {
    pub id: u8,
    pub connected_node_ids: Vec<u8>,
    pub pdr: u32,
}

/// One client of the initial configuration.
#[derive(Debug)]
pub struct Client {
    pub id: u8,
    pub connected_drone_ids: Vec<u8>,
}

/// One server of the initial configuration.
#[derive(Debug)]
pub struct Server {
    pub id: u8,
    pub connected_drone_ids: Vec<u8>,
}

/// The whole initial configuration.
#[derive(Debug)]
pub struct Config {
    pub drone: Vec<Drone>,
    pub client: Vec<Client>,
    pub server: Vec<Server>,
}

} // verus!
