//! The topology's construction, validation and mutation interface, driven
//! through concrete networks.

use ap24_simulation_controller::config::{Client, Config, Drone, Server};
use ap24_simulation_controller::network::Network;
use ap24_simulation_controller::node_representation::NodeRepresentation;
use ap24_simulation_controller::node_kind::NodeKind;
use ap24_simulation_controller::packet::PacketKind;
use ap24_simulation_controller::validator::TopologyError;

fn drone(id: u8, links: Vec<u8>) -> Drone {
    Drone { id, connected_node_ids: links, pdr: 5 }
}

fn client(id: u8, links: Vec<u8>) -> Client {
    Client { id, connected_drone_ids: links }
}

fn server(id: u8, links: Vec<u8>) -> Server {
    Server { id, connected_drone_ids: links }
}

/// Four relays in a cycle (1-2-3-4-1), one client on relay 1, one server on
/// relays 1 and 3.
fn ring_config() -> Config {
    Config {
        drone: vec![
            drone(1, vec![2, 4, 5, 6]),
            drone(2, vec![1, 3]),
            drone(3, vec![2, 4, 6]),
            drone(4, vec![3, 1]),
        ],
        client: vec![client(5, vec![1])],
        server: vec![server(6, vec![1, 3])],
    }
}

#[test]
fn valid_ring_accepted() {
    let net = Network::new(&ring_config()).expect("the ring should be valid");
    assert!(net.is_valid().is_ok());
    assert!(net.get_node_from_id(5).is_some());
    assert!(net.get_node_from_id(9).is_none());
}

#[test]
fn disconnected_rejected() {
    let cfg = Config {
        drone: vec![drone(1, vec![2]), drone(2, vec![1]), drone(3, vec![4]), drone(4, vec![3])],
        client: vec![],
        server: vec![],
    };
    assert_eq!(Network::new(&cfg).err(), Some(TopologyError::Disconnected));
}

#[test]
fn client_as_bridge_rejected() {
    // two relay clusters joined only through a client: the relay-only
    // subgraph falls apart, so the configuration must be refused
    let cfg = Config {
        drone: vec![drone(1, vec![2, 10]), drone(2, vec![1]), drone(3, vec![4, 10]), drone(
            4,
            vec![3],
        )],
        client: vec![client(10, vec![1, 3])],
        server: vec![],
    };
    assert_eq!(Network::new(&cfg).err(), Some(TopologyError::RelaysDisconnected));
    assert_eq!(
        TopologyError::RelaysDisconnected.describe(),
        "clients and servers should be at the edges of the network"
    );
}

#[test]
fn server_one_connection_rejected() {
    let cfg = Config {
        drone: vec![drone(1, vec![2]), drone(2, vec![1])],
        client: vec![],
        server: vec![server(6, vec![1])],
    };
    assert_eq!(Network::new(&cfg).err(), Some(TopologyError::ServerDegree));
    assert_eq!(
        TopologyError::ServerDegree.describe(),
        "Server must connect to at least two drones"
    );
}

#[test]
fn client_connected_3_rejected() {
    let cfg = Config {
        drone: vec![drone(1, vec![2, 3]), drone(2, vec![1, 3]), drone(3, vec![1, 2])],
        client: vec![client(5, vec![1, 2, 3])],
        server: vec![],
    };
    assert_eq!(Network::new(&cfg).err(), Some(TopologyError::ClientDegree));
}

#[test]
fn client_to_client_rejected() {
    let cfg = Config {
        drone: vec![drone(1, vec![2]), drone(2, vec![1])],
        client: vec![client(5, vec![1, 6]), client(6, vec![2, 5])],
        server: vec![],
    };
    assert_eq!(Network::new(&cfg).err(), Some(TopologyError::ClientKind));
}

#[test]
fn duplicate_id_rejected() {
    let cfg = Config {
        drone: vec![drone(1, vec![2]), drone(2, vec![1]), drone(1, vec![2])],
        client: vec![],
        server: vec![],
    };
    assert_eq!(Network::new(&cfg).err(), Some(TopologyError::DuplicateId));
}

#[test]
fn neighbor_is_self_rejected() {
    let cfg = Config {
        drone: vec![drone(1, vec![1, 2]), drone(2, vec![1])],
        client: vec![],
        server: vec![],
    };
    assert_eq!(Network::new(&cfg).err(), Some(TopologyError::SelfLoop));
}

#[test]
fn link_to_unknown_node_rejected() {
    let cfg = Config {
        drone: vec![drone(1, vec![2, 9]), drone(2, vec![1])],
        client: vec![],
        server: vec![],
    };
    assert_eq!(Network::new(&cfg).err(), Some(TopologyError::NotFound));
}

/// The concrete scenario: on the ring, linking the client to a second relay
/// stays valid; linking it to the server is refused because neither endpoint
/// is a relay; crashing relay 1 is refused because the client would lose its
/// only relay, and the rejected crash leaves the topology untouched.
#[test]
fn ring_scenario() {
    let mut net = Network::new(&ring_config()).unwrap();

    // a second relay for the client: two relay neighbors are still valid
    assert!(net.add_edge(5, 2).is_ok());
    assert!(net.is_valid().is_ok());

    // client to server: neither endpoint is a relay
    let mut net2 = Network::new(&ring_config()).unwrap();
    let err = net2.add_edge(5, 6).unwrap_err();
    assert_eq!(err, TopologyError::NoRelayEndpoint);
    assert_eq!(err.describe(), "at least one endpoint must be a relay");

    // crashing relay 1 would strand the client entirely
    let mut net3 = Network::new(&ring_config()).unwrap();
    let nodes_before: Vec<(u8, NodeKind, Vec<u8>)> = net3
        .nodes
        .iter()
        .map(|n| (n.id, n.kind, n.adj.clone()))
        .collect();
    let edges_before = net3.edges.clone();
    let crash_err = net3.crash_drone(1).unwrap_err();
    // losing relay 1 strands the client and leaves the server one relay;
    // the validator walks servers first, so that rule is the one reported
    assert_eq!(crash_err, TopologyError::ServerDegree);
    let nodes_after: Vec<(u8, NodeKind, Vec<u8>)> = net3
        .nodes
        .iter()
        .map(|n| (n.id, n.kind, n.adj.clone()))
        .collect();
    assert_eq!(nodes_before, nodes_after);
    assert_eq!(edges_before, net3.edges);
}

/// Rejection is idempotent: an edge that is already there is refused twice
/// with the same reason, and the state is identical each time.
#[test]
fn add_existing_edge_rejected_twice() {
    let mut net = Network::new(&ring_config()).unwrap();
    let edges_before = net.edges.clone();
    let e1 = net.add_edge(1, 2).unwrap_err();
    assert_eq!(e1, TopologyError::EdgeExists);
    assert_eq!(e1.describe(), "trying to add existing edge");
    assert_eq!(edges_before, net.edges);
    let e2 = net.add_edge(1, 2).unwrap_err();
    assert_eq!(e2, TopologyError::EdgeExists);
    assert_eq!(e1.describe(), e2.describe());
    assert_eq!(edges_before, net.edges);
}

#[test]
fn add_edge_rejects_self_and_unknown() {
    let mut net = Network::new(&ring_config()).unwrap();
    assert_eq!(net.add_edge(2, 2).unwrap_err(), TopologyError::SelfLoop);
    assert_eq!(net.add_edge(2, 99).unwrap_err(), TopologyError::NotFound);
}

#[test]
fn add_edge_that_disconnects_nothing_commits() {
    let mut net = Network::new(&ring_config()).unwrap();
    assert!(net.add_edge(2, 4).is_ok());
    assert!(net.has_edge(2, 4));
    assert!(net.has_edge(4, 2));
}

/// A successful crash clears every trace of the relay from the link
/// structure; a later edge toward it is refused because it is crashed.
#[test]
fn crash_clears_adjacency() {
    let mut net = Network::new(&ring_config()).unwrap();
    // relay 4 only closes the ring; without it everything stays connected
    net.crash_drone(4).expect("crashing relay 4 keeps the network valid");
    for e in &net.edges {
        assert!(e.a != 4 && e.b != 4);
    }
    let rec = net.get_node_from_id(4).expect("the crashed record remains");
    assert!(rec.adj.is_empty());
    assert!(matches!(rec.kind, NodeKind::Drone { crashed: true, .. }));
    for n in &net.nodes {
        assert!(!n.adj.contains(&4));
    }
    let err = net.add_edge(4, 2).unwrap_err();
    assert_eq!(err, TopologyError::CrashedEndpoint);
    assert_eq!(err.describe(), "cannot connect crashed drone");
    // crashing again is refused as already crashed
    assert_eq!(net.crash_drone(4).unwrap_err(), TopologyError::AlreadyCrashed);
}

#[test]
fn crash_rejects_non_relay() {
    let mut net = Network::new(&ring_config()).unwrap();
    assert_eq!(net.crash_drone(5).unwrap_err(), TopologyError::NotADrone);
    assert_eq!(net.crash_drone(77).unwrap_err(), TopologyError::NotFound);
}

#[test]
fn edge_activity_annotation() {
    let mut net = Network::new(&ring_config()).unwrap();
    net.update_edge_activity(2, 1, PacketKind::Ack, 42);
    let entry = net.edges.iter().find(|e| e.a == 1 && e.b == 2).unwrap();
    assert_eq!(entry.last, Some((PacketKind::Ack, 42)));
    // the reverse orientation names the same edge
    net.update_edge_activity(1, 2, PacketKind::MsgFragment, 43);
    let entry2 = net.edges.iter().find(|e| e.a == 1 && e.b == 2).unwrap();
    assert_eq!(entry2.last, Some((PacketKind::MsgFragment, 43)));
    // an untracked pair changes nothing
    let before = net.edges.clone();
    net.update_edge_activity(2, 4, PacketKind::Ack, 44);
    assert_eq!(before, net.edges);
}

#[test]
fn test_partial_eq() {
    let node1 = NodeRepresentation::new(1, 10, 20, NodeKind::Client, Vec::new());
    let node2 = NodeRepresentation::new(1, 30, 40, NodeKind::Server, Vec::new());
    let node3 = NodeRepresentation::new(2, 10, 20, NodeKind::Client, Vec::new());

    assert_eq!(node1, node2); // Same ID, should be equal
    assert_ne!(node1, node3); // Different ID, should not be equal
}

#[test]
fn node_labels() {
    let c = NodeRepresentation::new(1, 0, 0, NodeKind::Client, Vec::new());
    assert_eq!(c.short_label(), "[C]");
    let s = NodeRepresentation::new(2, 0, 0, NodeKind::Server, Vec::new());
    assert_eq!(s.short_label(), "[S]");
    let d = NodeRepresentation::new(3, 0, 0, NodeKind::Drone { pdr: 5, crashed: false }, Vec::new());
    assert_eq!(d.short_label(), "(D)");
    let x = NodeRepresentation::new(4, 0, 0, NodeKind::Drone { pdr: 5, crashed: true }, Vec::new());
    assert_eq!(x.short_label(), "(X)");
}

#[test]
fn shifts_saturate() {
    let mut n = NodeRepresentation::new(1, 3, 3, NodeKind::Client, Vec::new());
    n.shiftl(5);
    assert_eq!((n.x, n.y), (0, 3));
    n.shiftr(7);
    assert_eq!((n.x, n.y), (7, 3));
    n.shiftd(5);
    assert_eq!((n.x, n.y), (7, 0));
    n.shiftu(2);
    assert_eq!((n.x, n.y), (7, 2));
}
