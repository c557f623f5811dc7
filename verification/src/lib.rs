//! Supervisor for a simulated packet-switched network of relays ("drones"),
//! clients and servers.  The controller owns the authoritative topology,
//! validates every mutation against the network-formation invariants, and
//! decides which lifecycle commands reach the worker threads.

pub mod app_message;
pub mod builder;
pub mod config;
pub mod controller;
pub mod event_saver;
pub mod events;
pub mod laws;
pub mod msent;
pub mod mutations;
pub mod network;
pub mod node_kind;
pub mod node_representation;
pub mod packet;
pub mod screen;
pub mod transition;
pub mod validator;
