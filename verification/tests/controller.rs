//! The controller: startup, the command protocol around committed
//! mutations, event folding, and the window state machine.

use ap24_simulation_controller::app_message::AppMessage;
use ap24_simulation_controller::config::{Client, Config, Drone, Server};
use ap24_simulation_controller::controller::{MySimulationController, SimControllerOptions};
use ap24_simulation_controller::events::{
    ControllerError, Defect, DroneCommand, DroneEvent, NodeEvent, SendAction,
};
use ap24_simulation_controller::node_kind::NodeKind;
use ap24_simulation_controller::packet::{KnownGraph, KnownNode, MessageInfo, PacketInfo, PacketKind};
use ap24_simulation_controller::screen::Window;
use ap24_simulation_controller::validator::TopologyError;

fn ring_config() -> Config {
    Config {
        drone: vec![
            Drone { id: 1, connected_node_ids: vec![2, 4, 5, 6], pdr: 5 },
            Drone { id: 2, connected_node_ids: vec![1, 3], pdr: 5 },
            Drone { id: 3, connected_node_ids: vec![2, 4, 6], pdr: 5 },
            Drone { id: 4, connected_node_ids: vec![3, 1], pdr: 5 },
        ],
        client: vec![Client { id: 5, connected_drone_ids: vec![1] }],
        server: vec![Server { id: 6, connected_drone_ids: vec![1, 3] }],
    }
}

fn controller() -> MySimulationController {
    controller_with_buffer(16)
}

fn controller_with_buffer(max: usize) -> MySimulationController {
    let ids = vec![1, 2, 3, 4, 5, 6];
    MySimulationController::new(SimControllerOptions {
        command_ids: ids.clone(),
        packet_ids: ids,
        config: ring_config(),
        max_eventbuffer_dim: max,
    })
    .expect("the ring configuration is valid")
}

fn packet(kind: PacketKind, hops: Vec<u8>, hop_index: usize) -> PacketInfo {
    PacketInfo { kind, hops, hop_index, path_trace: Vec::new(), session_id: 0 }
}

#[test]
fn startup_focuses_first_relay() {
    let c = controller();
    assert!(c.running);
    assert_eq!(c.screen.focus, 1);
    assert!(matches!(c.screen.kind, NodeKind::Drone { pdr: 5, crashed: false }));
    assert!(matches!(c.screen.window, Window::Main));
    assert_eq!(c.node_list_state, 0);
}

#[test]
fn startup_rejects_invalid_configuration() {
    let cfg = Config {
        drone: vec![Drone { id: 1, connected_node_ids: vec![], pdr: 5 }],
        client: vec![],
        server: vec![Server { id: 6, connected_drone_ids: vec![1] }],
    };
    let r = MySimulationController::new(SimControllerOptions {
        command_ids: vec![],
        packet_ids: vec![],
        config: cfg,
        max_eventbuffer_dim: 8,
    });
    assert!(r.is_err());
}

#[test]
fn add_connection_sends_both_peers() {
    let mut c = controller();
    let actions = c.add_connection(5, 2).expect("a second relay for the client is valid");
    assert_eq!(actions.len(), 2);
    assert!(matches!(
        actions[0],
        SendAction::Command { dest: 5, command: DroneCommand::AddSender(2) }
    ));
    assert!(matches!(
        actions[1],
        SendAction::Command { dest: 2, command: DroneCommand::AddSender(5) }
    ));
    assert!(c.network.has_edge(5, 2));
}

#[test]
fn add_connection_rejection_sends_nothing() {
    let mut c = controller();
    match c.add_connection(1, 2) {
        Err(ControllerError::Rejected(TopologyError::EdgeExists)) => {},
        other => panic!("unexpected result: {:?}", other.map(|a| a.len())),
    }
}

#[test]
fn add_connection_missing_channel_is_defect() {
    let mut c = controller();
    c.command_ids = vec![1, 2, 3, 4, 5];  // no channel for the server
    match c.add_connection(6, 2) {
        Err(ControllerError::Defect(Defect::MissingCommandChannel(6))) => {},
        other => panic!("unexpected result: {:?}", other.map(|a| a.len())),
    }
    // the commit stands: the topology reflects intended topology
    assert!(c.network.has_edge(6, 2));
}

#[test]
fn crash_sends_crash_then_remove_peer() {
    let mut c = controller();
    let nbrs: Vec<u8> = c.network.get_node_from_id(4).unwrap().adj.clone();
    let actions = c.crash(4).expect("crashing relay 4 keeps the ring valid");
    assert_eq!(actions.len(), 1 + nbrs.len());
    assert!(matches!(actions[0], SendAction::Command { dest: 4, command: DroneCommand::Crash }));
    for (k, nb) in nbrs.iter().enumerate() {
        match actions[1 + k] {
            SendAction::Command { dest, command: DroneCommand::RemoveSender(4) } => {
                assert_eq!(dest, *nb);
            },
            ref other => panic!("unexpected action: {:?}", other),
        }
    }
    // the payload channel is forgotten, the lifecycle channel kept
    assert!(!c.packet_ids.contains(&4));
    assert!(c.command_ids.contains(&4));
}

#[test]
fn crash_rejection_changes_nothing() {
    let mut c = controller();
    match c.crash(1) {
        Err(ControllerError::Rejected(TopologyError::ServerDegree)) => {},
        other => panic!("unexpected result: {:?}", other.map(|a| a.len())),
    }
    assert!(c.packet_ids.contains(&1));
    assert!(c.network.has_edge(1, 2));
}

#[test]
fn change_pdr_updates_record_and_worker() {
    let mut c = controller();
    let actions = c.change_pdr(42).expect("the focus is a live relay");
    assert_eq!(actions.len(), 1);
    assert!(matches!(
        actions[0],
        SendAction::Command { dest: 1, command: DroneCommand::SetPacketDropRate(42) }
    ));
    let rec = c.network.get_node_from_id(1).unwrap();
    assert!(matches!(rec.kind, NodeKind::Drone { pdr: 42, crashed: false }));
}

#[test]
fn change_pdr_on_client_is_defect() {
    let mut c = controller();
    c.screen.focus = 5;
    match c.change_pdr(42) {
        Err(ControllerError::Defect(Defect::NotALiveDrone(5))) => {},
        other => panic!("unexpected result: {:?}", other.map(|a| a.len())),
    }
}

#[test]
fn spawn_drone_takes_smallest_free_id() {
    let mut c = controller();
    let id = c.spawn_drone();
    assert_eq!(id, 7);
    assert_eq!(c.screen.focus, 7);
    assert!(c.command_ids.contains(&7));
    assert!(c.packet_ids.contains(&7));
    let rec = c.network.get_node_from_id(7).unwrap();
    assert!(matches!(rec.kind, NodeKind::Drone { pdr: 5, crashed: false }));
    assert!(rec.adj.is_empty());
}

#[test]
fn shortcut_forces_final_hop() {
    let c = controller();
    let action = c.shortcut_packet(packet(PacketKind::Ack, vec![1, 2, 6], 0)).unwrap();
    match action {
        SendAction::Packet { dest, packet } => {
            assert_eq!(dest, 6);
            assert_eq!(packet.hop_index, 2);
        },
        other => panic!("unexpected action: {:?}", other),
    }
}

#[test]
fn shortcut_without_destination_is_defect() {
    let c = controller();
    match c.shortcut_packet(packet(PacketKind::Ack, vec![], 0)) {
        Err(ControllerError::Defect(Defect::NoDestination)) => {},
        other => panic!("unexpected result: {:?}", other),
    }
}

#[test]
fn shortcut_to_unregistered_destination_is_defect() {
    let mut c = controller();
    c.packet_ids = vec![1, 2, 3, 4, 5];
    match c.shortcut_packet(packet(PacketKind::Ack, vec![1, 6], 0)) {
        Err(ControllerError::Defect(Defect::MissingPacketChannel(6))) => {},
        other => panic!("unexpected result: {:?}", other),
    }
}

#[test]
fn worker_exit_classification() {
    let mut c = controller();
    assert!(c.classify_worker_exit(1, true).is_err());  // not crashed: unexpected
    assert!(c.classify_worker_exit(1, false).is_err());
    c.crash(4).unwrap();
    assert!(c.classify_worker_exit(4, true).is_ok());  // crashed relay exiting is expected
    assert!(c.classify_worker_exit(4, false).is_err());
    assert!(c.classify_worker_exit(99, true).is_err());
}

#[test]
fn quit_stops_the_loop() {
    let mut c = controller();
    let actions = c.transition(&AppMessage::Quit).unwrap();
    assert!(actions.is_empty());
    assert!(!c.running);
}

#[test]
fn window_round_trip() {
    let mut c = controller();
    c.transition(&AppMessage::WindowMove).unwrap();
    assert!(matches!(c.screen.window, Window::Move));
    c.transition(&AppMessage::Done).unwrap();
    assert!(matches!(c.screen.window, Window::Main));
    c.transition(&AppMessage::WindowDetail).unwrap();
    assert!(matches!(c.screen.window, Window::Detail { tab: 0 }));
    c.transition(&AppMessage::ChangeTab).unwrap();
    assert!(matches!(c.screen.window, Window::Detail { tab: 1 }));
    c.transition(&AppMessage::ChangeTab).unwrap();
    c.transition(&AppMessage::ChangeTab).unwrap();
    assert!(matches!(c.screen.window, Window::Detail { tab: 0 }));
}

#[test]
fn add_connection_through_the_windows() {
    let mut c = controller();
    c.transition(&AppMessage::WindowAddConnection).unwrap();
    assert!(matches!(c.screen.window, Window::AddConnection { origin: 1 }));
    // the list holds relays, then servers, then clients: the client sits
    // last, five steps down
    for _ in 0..5 {
        c.transition(&AppMessage::ScrollDown).unwrap();
    }
    assert_eq!(c.screen.focus, 5);
    // confirming links the origin relay with the focused client... but 1-5
    // already exists, so the error window opens with the reason
    let actions = c.transition(&AppMessage::Done).unwrap();
    assert!(actions.is_empty());
    assert!(matches!(c.screen.window, Window::Error { message: TopologyError::EdgeExists }));
    // leaving the error window resets the list
    c.transition(&AppMessage::Done).unwrap();
    assert!(matches!(c.screen.window, Window::Main));
    assert_eq!(c.node_list_state, 0);
}

#[test]
fn crash_through_the_windows() {
    let mut c = controller();
    // focus relay 4 (position 3) and open its detail view
    for _ in 0..3 {
        c.transition(&AppMessage::ScrollDown).unwrap();
    }
    assert_eq!(c.screen.focus, 4);
    c.transition(&AppMessage::WindowDetail).unwrap();
    let actions = c.transition(&AppMessage::Crash).unwrap();
    assert_eq!(actions.len(), 3);  // Crash + RemovePeer to relays 3 and 1
    assert!(matches!(c.screen.window, Window::Main));
}

#[test]
fn change_pdr_through_the_windows() {
    let mut c = controller();
    c.transition(&AppMessage::WindowDetail).unwrap();
    c.transition(&AppMessage::WindowChangePDR).unwrap();
    assert!(matches!(c.screen.window, Window::ChangePdr { pdr: 5 }));
    c.transition(&AppMessage::ScrollUp).unwrap();
    c.transition(&AppMessage::ScrollUp).unwrap();
    assert!(matches!(c.screen.window, Window::ChangePdr { pdr: 7 }));
    c.transition(&AppMessage::ScrollDown).unwrap();
    assert!(matches!(c.screen.window, Window::ChangePdr { pdr: 6 }));
    let actions = c.transition(&AppMessage::Done).unwrap();
    assert_eq!(actions.len(), 1);
    assert!(matches!(c.screen.window, Window::Detail { tab: 0 }));
    let rec = c.network.get_node_from_id(1).unwrap();
    assert!(matches!(rec.kind, NodeKind::Drone { pdr: 6, crashed: false }));
}

#[test]
fn pdr_clamps_to_unit_interval() {
    let mut c = controller();
    c.screen.window = Window::ChangePdr { pdr: 100 };
    c.transition(&AppMessage::ScrollUp).unwrap();
    assert!(matches!(c.screen.window, Window::ChangePdr { pdr: 100 }));
    c.screen.window = Window::ChangePdr { pdr: 0 };
    c.transition(&AppMessage::ScrollDown).unwrap();
    assert!(matches!(c.screen.window, Window::ChangePdr { pdr: 0 }));
}

#[test]
fn spawn_through_the_windows() {
    let mut c = controller();
    let actions = c.transition(&AppMessage::SpawnDrone).unwrap();
    assert_eq!(actions.len(), 1);
    assert!(matches!(actions[0], SendAction::Spawn { id: 7 }));
}

#[test]
fn move_node_shifts_the_focus() {
    let mut c = controller();
    let before = {
        let rec = c.network.get_node_from_id(1).unwrap();
        (rec.x, rec.y)
    };
    c.transition(&AppMessage::MoveNode { x: 2, y: -1 }).unwrap();
    let rec = c.network.get_node_from_id(1).unwrap();
    assert_eq!(rec.x, before.0 + 2);
    assert_eq!(rec.y, before.1.saturating_sub(1));
}

#[test]
fn save_nodeevent_records_sent_payload() {
    let mut c = controller();
    let ev = NodeEvent::PacketSent(packet(PacketKind::MsgFragment, vec![5, 1, 3], 1));
    c.save_nodeevent(&ev, 7).unwrap();
    let rec = c.network.get_node_from_id(5).unwrap();
    assert_eq!(rec.sent.len(), 1);
    // the payload traveled across the tracked edge 1-5
    let entry = c.network.edges.iter().find(|e| e.a == 1 && e.b == 5).unwrap();
    assert_eq!(entry.last, Some((PacketKind::MsgFragment, 7)));
}

#[test]
fn save_nodeevent_without_source_is_defect() {
    let mut c = controller();
    let ev = NodeEvent::PacketSent(packet(PacketKind::MsgFragment, vec![], 0));
    assert_eq!(c.save_nodeevent(&ev, 0), Err(Defect::EventWithoutSource));
}

#[test]
fn transmission_bookkeeping_round_trip() {
    let mut c = controller();
    let m = MessageInfo { session_id: 9, source: 6, destination: 5 };
    c.save_nodeevent(&NodeEvent::StartingMessageTransmission(m), 0).unwrap();
    {
        let rec = c.network.get_node_from_id(6).unwrap();
        assert_eq!(rec.transmission_record(9), Some((6, 5, false)));
    }
    c.save_nodeevent(&NodeEvent::MessageSentSuccessfully(m), 1).unwrap();
    {
        let rec = c.network.get_node_from_id(6).unwrap();
        assert_eq!(rec.transmission_record(9), Some((6, 5, true)));
    }
    // the message lands in the destination's received buffer
    c.save_nodeevent(&NodeEvent::MessageReceived(m), 2).unwrap();
    let rec5 = c.network.get_node_from_id(5).unwrap();
    assert_eq!(rec5.mreceived.len(), 1);
}

#[test]
fn success_without_start_is_defect() {
    let mut c = controller();
    let m = MessageInfo { session_id: 77, source: 6, destination: 5 };
    assert_eq!(
        c.save_nodeevent(&NodeEvent::MessageSentSuccessfully(m), 0),
        Err(Defect::SuccessWithoutStart(77))
    );
}

#[test]
fn transmission_record_is_bounded() {
    let mut c = controller_with_buffer(2);
    for sid in 1..=3u64 {
        let m = MessageInfo { session_id: sid, source: 6, destination: 5 };
        c.save_nodeevent(&NodeEvent::StartingMessageTransmission(m), 0).unwrap();
    }
    let rec = c.network.get_node_from_id(6).unwrap();
    // over capacity the oldest transmission is evicted, the newest kept
    assert_eq!(rec.transmission_record(1), None);
    assert_eq!(rec.transmission_record(2), Some((6, 5, false)));
    assert_eq!(rec.transmission_record(3), Some((6, 5, false)));
}

#[test]
fn sent_buffer_evicts_oldest() {
    let mut c = controller_with_buffer(2);
    for _ in 0..3 {
        let ev = NodeEvent::PacketSent(packet(PacketKind::Ack, vec![5, 1], 1));
        c.save_nodeevent(&ev, 0).unwrap();
    }
    let rec = c.network.get_node_from_id(5).unwrap();
    assert_eq!(rec.sent.len(), 2);
}

#[test]
fn symmetric_topology_report_is_stored() {
    let mut c = controller();
    let good = KnownGraph {
        nodes: vec![
            KnownNode { node_id: 5, neighbors: vec![1] },
            KnownNode { node_id: 1, neighbors: vec![5] },
        ],
    };
    c.save_nodeevent(&NodeEvent::KnownNetworkGraph { source: 5, graph: good }, 0).unwrap();
    assert_eq!(c.network.get_node_from_id(5).unwrap().knowntopology.nodes.len(), 2);
    // an unreciprocated relation is discarded, the stored report kept
    let bad = KnownGraph {
        nodes: vec![
            KnownNode { node_id: 5, neighbors: vec![1] },
            KnownNode { node_id: 1, neighbors: vec![] },
        ],
    };
    c.save_nodeevent(&NodeEvent::KnownNetworkGraph { source: 5, graph: bad }, 1).unwrap();
    assert_eq!(c.network.get_node_from_id(5).unwrap().knowntopology.nodes.len(), 2);
}

#[test]
fn save_droneevent_counts_fragments() {
    let mut c = controller();
    let sent = DroneEvent::PacketSent(packet(PacketKind::MsgFragment, vec![5, 1, 3], 1));
    c.save_droneevent(&sent, 3).unwrap();
    {
        let rec = c.network.get_node_from_id(5).unwrap();
        assert_eq!(rec.n_frags_sent, 1);
        assert_eq!(rec.sent.len(), 1);
    }
    let dropped = DroneEvent::PacketDropped(packet(PacketKind::MsgFragment, vec![5, 1, 3], 1));
    c.save_droneevent(&dropped, 4).unwrap();
    let rec = c.network.get_node_from_id(1).unwrap();
    assert_eq!(rec.n_frags_dropped, 1);
    assert_eq!(rec.n_frags_sent, 1);
    assert_eq!(rec.dropped.len(), 1);
}

#[test]
fn flood_request_with_empty_trace_is_defect() {
    let mut c = controller();
    let ev = DroneEvent::PacketSent(packet(PacketKind::FloodRequest, vec![], 0));
    assert_eq!(c.save_droneevent(&ev, 0), Err(Defect::EmptyPathTrace));
}
